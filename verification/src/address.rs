//! Address families and typed IP addresses.

use vstd::prelude::*;

verus! {

/// The family of addresses that a resolution asks the system to search.
#[derive(Clone, Copy, Debug, PartialEq, Eq, Structural)]
pub enum AddressFamily {
    IPv4,
    IPv6,
}

/// A typed IP address: four octets, or eight groups of sixteen bits, both in
/// the order in which they are written.
#[derive(Clone, Copy, Debug, PartialEq, Eq, Structural)]
pub enum IpAddress {
    V4(u8, u8, u8, u8),
    V6(u16, u16, u16, u16, u16, u16, u16, u16),
}

impl IpAddress {
    /// The family an address belongs to.
    pub open spec fn spec_family(self) -> AddressFamily {
        match self {
            IpAddress::V4(..) => AddressFamily::IPv4,
            IpAddress::V6(..) => AddressFamily::IPv6,
        }
    }

    /// The family an address belongs to.
    #[verifier::when_used_as_spec(spec_family)]
    pub fn family(self) -> (family: AddressFamily)
        ensures
            family == self.spec_family(),
    {
        match self {
            IpAddress::V4(..) => AddressFamily::IPv4,
            IpAddress::V6(..) => AddressFamily::IPv6,
        }
    }
}

/// The address written by eight groups.
pub open spec fn v6_of(groups: Seq<u16>) -> IpAddress
    recommends
        groups.len() == 8,
{
    IpAddress::V6(
        groups[0],
        groups[1],
        groups[2],
        groups[3],
        groups[4],
        groups[5],
        groups[6],
        groups[7],
    )
}

} // verus!
