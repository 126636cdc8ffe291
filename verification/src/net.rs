//! Network addresses.

use vstd::prelude::*;

verus! {

/// A UDP endpoint. The addresses are the numbers that their octets spell in
/// network order.
#[derive(Debug, Clone, Copy, PartialEq, Eq, Structural)]
pub enum Endpoint {
    /// An IPv4 address and a port.
    V4 { ip: u32, port: u16 },
    /// An IPv6 address and a port, with its flow and scope.
    V6 { ip6: u128, port: u16, flowinfo: u32, scope_id: u32 },
}

/// An IP address, as the number that its octets spell in network order.
#[derive(Debug, Clone, Copy, PartialEq, Eq, Structural)]
pub enum IpAddress {
    /// An IPv4 address.
    V4(u32),
    /// An IPv6 address.
    V6(u128),
}

impl Endpoint {
    /// Whether the address is the wildcard address.
    pub open spec fn unspecified(self) -> bool {
        match self {
            Endpoint::V4 { ip, .. } => ip == 0,
            Endpoint::V6 { ip6, .. } => ip6 == 0,
        }
    }

    /// Whether the address is the wildcard address.
    pub fn is_unspecified(&self) -> (r: bool)
        ensures
            r == self.unspecified(),
    {
        match self {
            Endpoint::V4 { ip, .. } => *ip == 0,
            Endpoint::V6 { ip6, .. } => *ip6 == 0,
        }
    }
}

} // verus!
