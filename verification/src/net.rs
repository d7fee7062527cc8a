//! Addresses of clients.

use crate::table::Key;
use vstd::prelude::*;

verus! {

/// An IP address: the bits of an IPv4 or of an IPv6 address, most significant
/// first.
#[derive(Clone, Copy, Debug, PartialEq, Eq, Structural)]
pub enum IpAddr {
    V4(u32),
    V6(u128),
}

impl View for IpAddr {
    type V = IpAddr;

    open spec fn view(&self) -> IpAddr {
        *self
    }
}

impl Key for IpAddr {
    fn same(&self, other: &Self) -> (r: bool) {
        *self == *other
    }
}

impl IpAddr {
    /// The addresses of the machine itself: `127.0.0.0/8` and `::1`.
    pub open spec fn loopback(self) -> bool {
        match self {
            IpAddr::V4(bits) => 0x7f00_0000 <= bits <= 0x7fff_ffff,
            IpAddr::V6(bits) => bits == 1,
        }
    }

    pub fn is_loopback(&self) -> (r: bool)
        ensures
            r == self.loopback(),
    {
        match *self {
            IpAddr::V4(bits) => bits >= 0x7f00_0000 && bits <= 0x7fff_ffff,
            IpAddr::V6(bits) => bits == 1,
        }
    }
}

} // verus!
