//! Session routing and message framing for low-latency multiplayer traffic.

pub mod addr;
pub mod broker;
pub mod bytes;
pub mod channel;
pub mod client;
pub mod draw;
pub mod laws;
pub mod outcomes;
pub mod paths;
pub mod receiver;
pub mod schema;
pub mod startup;
pub mod storage;
pub mod table;
pub mod trust;
pub mod wire;
