//! What the constructs' tools do, and how constructs are told of events.

pub mod tools;
pub mod transport;
