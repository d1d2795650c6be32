//! A dual-side IEC 60870-5-104 test station: a collecting server with
//! simulated points and a dispatching client, as verified state machines.

pub mod clock;
pub mod config;
pub mod model;
pub mod number;
pub mod order;
pub mod protocol;
pub mod random;
pub mod runtime;
pub mod table;
pub mod text;
pub mod ui;
