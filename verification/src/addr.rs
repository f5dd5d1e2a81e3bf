//! IPv4 addresses as plain octets, and the derivation of the subnet
//! broadcast address.

use vstd::prelude::*;

verus! {

/// An IPv4 address, kept as its four octets.
#[derive(Clone, Copy, PartialEq, Eq, Structural, Debug)]
pub struct IpAddress {
    pub o0: u8,
    pub o1: u8,
    pub o2: u8,
    pub o3: u8,
}

impl IpAddress {
    /// Builds an address from its four octets.
    pub fn new(o0: u8, o1: u8, o2: u8, o3: u8) -> (r: IpAddress)
        ensures
            r == (IpAddress { o0, o1, o2, o3 }),
    {
        IpAddress { o0, o1, o2, o3 }
    }
}

/// The subnet broadcast address of a local address: the first three
/// octets kept, the last replaced by 255.
pub fn broadcast_address(local: IpAddress) -> (r: IpAddress)
    ensures
        r.o0 == local.o0,
        r.o1 == local.o1,
        r.o2 == local.o2,
        r.o3 == 255,
{
    IpAddress { o0: local.o0, o1: local.o1, o2: local.o2, o3: 255 }
}

} // verus!
