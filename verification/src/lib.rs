//! Verified client core for a streaming market-quote protocol: a decoder for
//! the vendor's doubly-escaped snapshot frames, the session state machine that
//! drives one subscription over one connection, and the endpoint selector.

pub mod decode;
pub mod endpoint;
pub mod frames;
pub mod json;
pub mod roundtrip;
pub mod session;
pub mod snapshot;
pub mod wire;
