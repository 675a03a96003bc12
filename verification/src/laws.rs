//! What the operations of the library are for. Each law speaks of the inputs and the
//! results of calls, in terms of the bytes on the wire and of the texts themselves.
pub mod errors;
pub mod headers;
pub mod serving;
pub mod subscribing;
pub mod transport;
