//! Network addresses as plain values.
//!
//! A connection is known to the broker and to its peers by the socket address
//! of its remote end. The address is held here as integers, so that it can be
//! compared, stored and reasoned about without touching the network stack.

use vstd::prelude::*;

verus! {

/// The socket address of one end of a connection.
///
/// Two addresses are equal when they are of the same family and all their
/// fields are equal, which is also how the standard socket address compares.
#[derive(Clone, Copy, Debug, PartialEq, Eq, Structural, Hash)]
#[allow(inconsistent_fields)]
pub enum Address {
    /// An IPv4 address, the four octets in network order in `ip`, and a port.
    V4 { ip: u32, port: u16 },
    /// An IPv6 address, the sixteen octets in network order in `ip`, a port,
    /// and the flow information and scope identifier of the socket address.
    V6 { ip: u128, port: u16, flowinfo: u32, scope_id: u32 },
}

/// The 32-bit value whose octets, most significant first, are `a`, `b`, `c`, `d`.
pub open spec fn ipv4_bits(a: u8, b: u8, c: u8, d: u8) -> int {
    a as int * 0x100_0000 + b as int * 0x1_0000 + c as int * 0x100 + d as int
}

impl Address {
    /// The IPv4 address `a.b.c.d:port`.
    pub fn v4(a: u8, b: u8, c: u8, d: u8, port: u16) -> (r: Address)
        ensures
            r == (Address::V4 { ip: ipv4_bits(a, b, c, d) as u32, port }),
            ipv4_bits(a, b, c, d) <= u32::MAX,
    {
        let ip: u32 = (a as u32) * 0x100_0000 + (b as u32) * 0x1_0000 + (c as u32) * 0x100 + (
        d as u32);
        Address::V4 { ip, port }
    }

    /// The port of the address.
    pub open spec fn spec_port(self) -> u16 {
        match self {
            Address::V4 { port, .. } => port,
            Address::V6 { port, .. } => port,
        }
    }

    /// The port of the address.
    #[verifier::when_used_as_spec(spec_port)]
    pub fn port(self) -> (p: u16)
        ensures
            p == self.spec_port(),
    {
        match self {
            Address::V4 { port, .. } => port,
            Address::V6 { port, .. } => port,
        }
    }

    /// Whether the address is an IPv4 address.
    pub fn is_ipv4(self) -> (r: bool)
        ensures
            r == (self is V4),
    {
        match self {
            Address::V4 { .. } => true,
            Address::V6 { .. } => false,
        }
    }
}

} // verus!
