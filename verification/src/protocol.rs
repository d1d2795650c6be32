//! IEC 60870-5-104: information elements, application data, the link layer
//! and the two stations that talk over it.

pub mod asdu;
pub mod codec;
pub mod collect;
pub mod desk;
pub mod dispatch;
pub mod element;
pub mod exchange;
pub mod frame;
pub mod iec;
pub mod message;
pub mod receipt;
pub mod round;
pub mod station;
pub mod wire;
