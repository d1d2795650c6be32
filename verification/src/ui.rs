//! The screen of the operator: where things stand on it, what the keys and the
//! mouse do, and what is shown.

pub mod area;
pub mod display;
pub mod form;
pub mod log;
pub mod screen;
