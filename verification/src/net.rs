//! Network addresses as plain values.

use vstd::prelude::*;

verus! {

/// An internet address, as the number that its bytes spell in network order.
#[derive(Copy, Clone, PartialEq, Eq, PartialOrd, Ord, Hash, Debug, Structural)]
pub enum IpAddr {
    V4(u32),
    V6(u128),
}

/// An internet address and a port.
#[derive(Copy, Clone, PartialEq, Eq, PartialOrd, Ord, Hash, Debug, Structural)]
pub struct SocketAddr {
    pub ip: IpAddr,
    pub port: u16,
}

/// Whether `a` comes before `b`: every version 4 address before every version 6
/// one, and by number within a version.
pub open spec fn ip_before(a: IpAddr, b: IpAddr) -> bool {
    match (a, b) {
        (IpAddr::V4(x), IpAddr::V4(y)) => x < y,
        (IpAddr::V4(_), IpAddr::V6(_)) => true,
        (IpAddr::V6(_), IpAddr::V4(_)) => false,
        (IpAddr::V6(x), IpAddr::V6(y)) => x < y,
    }
}

/// Whether `a` comes before `b`: by address, and by port at one address.
pub open spec fn addr_before(a: SocketAddr, b: SocketAddr) -> bool {
    ip_before(a.ip, b.ip) || (a.ip == b.ip && a.port < b.port)
}

impl IpAddr {
    /// Whether this address comes before `other`.
    pub fn before(&self, other: &IpAddr) -> (r: bool)
        ensures
            r == ip_before(*self, *other),
    {
        match (*self, *other) {
            (IpAddr::V4(x), IpAddr::V4(y)) => x < y,
            (IpAddr::V4(_), IpAddr::V6(_)) => true,
            (IpAddr::V6(_), IpAddr::V4(_)) => false,
            (IpAddr::V6(x), IpAddr::V6(y)) => x < y,
        }
    }
}

impl SocketAddr {
    /// Whether this address comes before `other`.
    pub fn before(&self, other: &SocketAddr) -> (r: bool)
        ensures
            r == addr_before(*self, *other),
    {
        self.ip.before(&other.ip) || (self.ip == other.ip && self.port < other.port)
    }
}

/// Addresses stand in one line: of two that differ, one comes before the other, and
/// what comes before one that comes before a third comes before the third.
pub proof fn law_addresses_stand_in_line(a: SocketAddr, b: SocketAddr, c: SocketAddr)
    ensures
        a == b || addr_before(a, b) || addr_before(b, a),
        !(addr_before(a, b) && addr_before(b, a)),
        !addr_before(a, a),
        addr_before(a, b) && addr_before(b, c) ==> addr_before(a, c),
{
}

/// The address counts before the port, the number of an address before nothing else,
/// and addresses of version 4 come first.
pub proof fn law_addresses_go_by_number(x: u32, y: u32, z: u128, w: u128, p: u16, q: u16)
    ensures
        ({
            let at = |ip: IpAddr, port: u16| SocketAddr { ip, port };
            &&& x < y ==> addr_before(at(IpAddr::V4(x), p), at(IpAddr::V4(y), q))
            &&& z < w ==> addr_before(at(IpAddr::V6(z), p), at(IpAddr::V6(w), q))
            &&& addr_before(at(IpAddr::V4(x), p), at(IpAddr::V6(z), q))
            &&& p < q ==> addr_before(at(IpAddr::V4(x), p), at(IpAddr::V4(x), q))
            &&& p < q ==> addr_before(at(IpAddr::V6(z), p), at(IpAddr::V6(z), q))
        }),
{
}

} // verus!
