//! What tells sessions and their peers apart.

use vstd::prelude::*;

verus! {

/// Identifies a session: the 128 bits of a UUID.
pub type ID = u128;

/// The host part of an address, read as a number from its most significant byte on.
#[derive(Debug, Clone, Copy, PartialEq, Eq, Structural)]
pub enum Host {
    V4(u32),
    V6 { ip: u128, flowinfo: u32, scope_id: u32 },
}

/// Where a peer sends from.
#[derive(Debug, Clone, Copy, PartialEq, Eq, Structural)]
pub struct Address {
    pub host: Host,
    pub port: u16,
}

} // verus!
