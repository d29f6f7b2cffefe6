//! Resolved network addresses.

use vstd::prelude::*;

verus! {

/// One numeric network address: four octets for IPv4, eight 16-bit
/// segments for IPv6, most significant first.
#[derive(Clone, Copy, Debug, PartialEq, Eq)]
pub enum IpAddress {
    V4([u8; 4]),
    V6([u16; 8]),
}

/// Whether `a` is the IPv4 address with the octets `octets`.
pub open spec fn is_v4_with(a: IpAddress, octets: Seq<u8>) -> bool {
    match a {
        IpAddress::V4(o) => o@ == octets,
        IpAddress::V6(_) => false,
    }
}

} // verus!
