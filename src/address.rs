use vstd::prelude::*;

verus! {

/// The network-layer address of a client, the key under which its requests
/// are counted. An IPv4 address is held as its 32-bit value, an IPv6 address
/// as its 128-bit value (both in network byte order, most significant first).
#[derive(Clone, Copy, Debug, PartialEq, Eq, Structural, PartialOrd, Ord, Hash)]
pub enum ClientAddress {
    V4(u32),
    V6(u128),
}

impl ClientAddress {
    /// The position of an address in the address order: every IPv4 address
    /// comes before every IPv6 address, and within a family the numeric
    /// value decides.
    pub open spec fn rank(self) -> int {
        match self {
            ClientAddress::V4(v) => v as int,
            ClientAddress::V6(v) => 0x1_0000_0000 + v as int,
        }
    }

    /// Whether `self` comes strictly before `other` in the address order.
    pub fn precedes(&self, other: &ClientAddress) -> (r: bool)
        ensures
            r == (self.rank() < other.rank()),
    {
        match (*self, *other) {
            (ClientAddress::V4(a), ClientAddress::V4(b)) => a < b,
            (ClientAddress::V4(_), ClientAddress::V6(_)) => true,
            (ClientAddress::V6(_), ClientAddress::V4(_)) => false,
            (ClientAddress::V6(a), ClientAddress::V6(b)) => a < b,
        }
    }

    /// The IPv4 address `a.b.c.d`.
    pub fn v4(a: u8, b: u8, c: u8, d: u8) -> (r: ClientAddress)
        ensures
            r == ClientAddress::V4(
                (a as int * 0x100_0000 + b as int * 0x1_0000 + c as int * 0x100 + d as int) as u32,
            ),
    {
        assert(a as int * 0x100_0000 + b as int * 0x1_0000 + c as int * 0x100 + d as int
            <= 0xffff_ffff) by (nonlinear_arith)
            requires a <= 255, b <= 255, c <= 255, d <= 255;
        ClientAddress::V4((a as u32) * 0x100_0000 + (b as u32) * 0x1_0000 + (c as u32) * 0x100 + d as u32)
    }
}

} // verus!
