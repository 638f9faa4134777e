//! Synchronises a byte state between a client and a server over datagrams.
//!
//! The library does no I/O. Each side is a state machine: it is told what has happened on its
//! socket and says what is to be done there. [`client`] and [`server`] are the two sides of the
//! delta protocol, [`chunk`] and [`mirror`] two simpler ones, and [`laws`] states what holds of
//! them as a whole.

pub mod chunk;
pub mod client;
pub mod delta;
pub mod digest;
pub mod encoding;
pub mod endpoint;
pub mod frame;
pub mod laws;
pub mod mirror;
pub mod order;
pub mod registry;
pub mod server;
pub mod session;

pub use chunk::{Frame, PORT};
pub use digest::checksum;
pub use order::SequenceNumber;
