//! Client-side codec and connection logic for a router's binary RPC wire
//! protocol: length-prefixed word/sentence framing, tagged command encoding,
//! and the decision core of a connection actor that multiplexes concurrent
//! commands over one session.

pub mod error;
pub mod device;
pub mod protocol;
pub mod simple;
