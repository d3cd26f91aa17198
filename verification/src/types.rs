//! The error taxonomy of the library and the plain IPv4 address value that
//! resource-record payloads are interpreted into.

use vstd::prelude::*;

verus! {

/// Everything that can go wrong while decoding a packet or while deciding
/// the next resolution step.
#[derive(Clone, Copy, Debug, PartialEq, Eq, Structural)]
pub enum DnsError {
    /// The input buffer ended before the field being read was complete.
    Truncated,
    /// A name length byte used one of the two reserved top-bit patterns
    /// (`01xxxxxx` or `10xxxxxx`), or a label byte was not ASCII.
    InvalidLabel,
    /// A compression-pointer chain was longer than the buffer itself, which
    /// can only happen when the chain revisits a position and so loops.
    PointerLoop,
    /// An address was requested from a record whose type is not A.
    NotARecord,
    /// An A record's payload was not exactly four bytes long.
    InvalidIpLength,
    /// A delegated nameserver name was requested from a record whose type is
    /// not NS.
    NotNsRecord,
    /// A response offered no answer address, no additional address and no
    /// delegation, so resolution cannot proceed.
    NoIpFound,
}

pub type DnsResult<T> = Result<T, DnsError>;

/// An IPv4 address as four plain octets, most significant first.
#[derive(Clone, Copy, Debug, PartialEq, Eq, Structural)]
pub struct Ipv4 {
    pub a: u8,
    pub b: u8,
    pub c: u8,
    pub d: u8,
}

} // verus!
