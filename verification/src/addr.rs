//! Internet addresses of both families, as plain values.
//!
//! An IPv4 address is its four octets and an IPv6 address its eight 16-bit
//! segments, most significant first. Two addresses are equal when they are of
//! the same family and hold the same numbers.

use vstd::prelude::*;

pub mod format;
pub mod parse;
pub mod round_trip;

verus! {

/// An IPv4 address: the octets `a.b.c.d`.
#[derive(Debug, PartialEq, Eq, Clone, Copy, Hash, Structural)]
pub struct Ipv4Addr {
    pub a: u8,
    pub b: u8,
    pub c: u8,
    pub d: u8,
}

/// An IPv6 address: the segments `s0:s1:s2:s3:s4:s5:s6:s7`.
#[derive(Debug, PartialEq, Eq, Clone, Copy, Hash, Structural)]
pub struct Ipv6Addr {
    pub s0: u16,
    pub s1: u16,
    pub s2: u16,
    pub s3: u16,
    pub s4: u16,
    pub s5: u16,
    pub s6: u16,
    pub s7: u16,
}

/// An address of either family.
#[derive(Debug, PartialEq, Eq, Clone, Copy, Hash, Structural)]
pub enum IpAddr {
    V4(Ipv4Addr),
    V6(Ipv6Addr),
}

impl Ipv4Addr {
    /// The four octets in order.
    pub open spec fn octets_seq(self) -> Seq<u8> {
        seq![self.a, self.b, self.c, self.d]
    }

    /// The address `0.0.0.0`.
    pub open spec fn unspecified(self) -> bool {
        self.a == 0 && self.b == 0 && self.c == 0 && self.d == 0
    }

    /// An address in `127.0.0.0/8`.
    pub open spec fn loopback(self) -> bool {
        self.a == 127
    }

    /// An address in `224.0.0.0/4`.
    pub open spec fn multicast(self) -> bool {
        224 <= self.a <= 239
    }

    pub fn new(a: u8, b: u8, c: u8, d: u8) -> (addr: Ipv4Addr)
        ensures
            addr == (Ipv4Addr { a, b, c, d }),
    {
        Ipv4Addr { a, b, c, d }
    }

    pub fn octets(&self) -> (o: [u8; 4])
        ensures
            o@ == self.octets_seq(),
    {
        [self.a, self.b, self.c, self.d]
    }

    pub fn is_unspecified(&self) -> (r: bool)
        ensures
            r == self.unspecified(),
    {
        self.a == 0 && self.b == 0 && self.c == 0 && self.d == 0
    }

    pub fn is_loopback(&self) -> (r: bool)
        ensures
            r == self.loopback(),
    {
        self.a == 127
    }

    pub fn is_multicast(&self) -> (r: bool)
        ensures
            r == self.multicast(),
    {
        224 <= self.a && self.a <= 239
    }
}

impl Ipv6Addr {
    /// The eight segments in order.
    pub open spec fn segments_seq(self) -> Seq<u16> {
        seq![self.s0, self.s1, self.s2, self.s3, self.s4, self.s5, self.s6, self.s7]
    }

    /// The address whose segments are the eight elements of `s`.
    pub open spec fn of_segments(s: Seq<u16>) -> Ipv6Addr
        recommends
            s.len() == 8,
    {
        Ipv6Addr {
            s0: s[0],
            s1: s[1],
            s2: s[2],
            s3: s[3],
            s4: s[4],
            s5: s[5],
            s6: s[6],
            s7: s[7],
        }
    }

    /// The address `::`.
    pub open spec fn unspecified(self) -> bool {
        self.s0 == 0 && self.s1 == 0 && self.s2 == 0 && self.s3 == 0 && self.s4 == 0 && self.s5
            == 0 && self.s6 == 0 && self.s7 == 0
    }

    /// The address `::1`.
    pub open spec fn loopback(self) -> bool {
        self.s0 == 0 && self.s1 == 0 && self.s2 == 0 && self.s3 == 0 && self.s4 == 0 && self.s5
            == 0 && self.s6 == 0 && self.s7 == 1
    }

    /// An address in `ff00::/8`.
    pub open spec fn multicast(self) -> bool {
        self.s0 >= 0xff00
    }

    /// An address `::ffff:a.b.c.d`, which stands for the IPv4 address `a.b.c.d`.
    pub open spec fn ipv4_mapped(self) -> bool {
        self.s0 == 0 && self.s1 == 0 && self.s2 == 0 && self.s3 == 0 && self.s4 == 0 && self.s5
            == 0xffff
    }

    pub fn new(s0: u16, s1: u16, s2: u16, s3: u16, s4: u16, s5: u16, s6: u16, s7: u16) -> (addr:
        Ipv6Addr)
        ensures
            addr == (Ipv6Addr { s0, s1, s2, s3, s4, s5, s6, s7 }),
    {
        Ipv6Addr { s0, s1, s2, s3, s4, s5, s6, s7 }
    }

    pub fn segments(&self) -> (s: [u16; 8])
        ensures
            s@ == self.segments_seq(),
    {
        [self.s0, self.s1, self.s2, self.s3, self.s4, self.s5, self.s6, self.s7]
    }

    pub fn is_unspecified(&self) -> (r: bool)
        ensures
            r == self.unspecified(),
    {
        self.s0 == 0 && self.s1 == 0 && self.s2 == 0 && self.s3 == 0 && self.s4 == 0 && self.s5
            == 0 && self.s6 == 0 && self.s7 == 0
    }

    pub fn is_loopback(&self) -> (r: bool)
        ensures
            r == self.loopback(),
    {
        self.s0 == 0 && self.s1 == 0 && self.s2 == 0 && self.s3 == 0 && self.s4 == 0 && self.s5
            == 0 && self.s6 == 0 && self.s7 == 1
    }

    pub fn is_multicast(&self) -> (r: bool)
        ensures
            r == self.multicast(),
    {
        self.s0 >= 0xff00
    }
}

impl IpAddr {
    pub open spec fn unspecified(self) -> bool {
        match self {
            IpAddr::V4(a) => a.unspecified(),
            IpAddr::V6(a) => a.unspecified(),
        }
    }

    pub open spec fn loopback(self) -> bool {
        match self {
            IpAddr::V4(a) => a.loopback(),
            IpAddr::V6(a) => a.loopback(),
        }
    }

    pub open spec fn multicast(self) -> bool {
        match self {
            IpAddr::V4(a) => a.multicast(),
            IpAddr::V6(a) => a.multicast(),
        }
    }

    /// Neither unspecified nor loopback nor multicast.
    pub open spec fn routable(self) -> bool {
        !self.unspecified() && !self.loopback() && !self.multicast()
    }

    pub fn is_unspecified(&self) -> (r: bool)
        ensures
            r == self.unspecified(),
    {
        match self {
            IpAddr::V4(a) => a.is_unspecified(),
            IpAddr::V6(a) => a.is_unspecified(),
        }
    }

    pub fn is_loopback(&self) -> (r: bool)
        ensures
            r == self.loopback(),
    {
        match self {
            IpAddr::V4(a) => a.is_loopback(),
            IpAddr::V6(a) => a.is_loopback(),
        }
    }

    pub fn is_multicast(&self) -> (r: bool)
        ensures
            r == self.multicast(),
    {
        match self {
            IpAddr::V4(a) => a.is_multicast(),
            IpAddr::V6(a) => a.is_multicast(),
        }
    }

    pub fn is_routable(&self) -> (r: bool)
        ensures
            r == self.routable(),
    {
        !self.is_unspecified() && !self.is_loopback() && !self.is_multicast()
    }
}

} // verus!
