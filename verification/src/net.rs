//! Plain network address values (IPv4 or IPv6 address bits plus a port).

use vstd::prelude::*;

verus! {

/// An IP address held as its 32 (IPv4) or 128 (IPv6) address bits.
#[derive(Debug, Clone, Copy, PartialEq, Eq, Structural, Hash, PartialOrd, Ord)]
pub struct IpAddress {
    pub v6: bool,
    pub bits: u128,
}

/// A socket address: IP address and port.
#[derive(Debug, Clone, Copy, PartialEq, Eq, Structural, Hash, PartialOrd, Ord)]
pub struct SockAddr {
    pub ip: IpAddress,
    pub port: u16,
}

pub open spec fn v4_bits(a: u8, b: u8, c: u8, d: u8) -> int {
    (a as int) * 0x100_0000 + (b as int) * 0x1_0000 + (c as int) * 0x100 + (d as int)
}

impl IpAddress {
    /// The IPv4 address `a.b.c.d`.
    pub fn v4(a: u8, b: u8, c: u8, d: u8) -> (r: IpAddress)
        ensures
            !r.v6,
            r.bits == v4_bits(a, b, c, d),
    {
        let bits: u128 = (a as u128) * 0x100_0000 + (b as u128) * 0x1_0000 + (c as u128) * 0x100
            + (d as u128);
        IpAddress { v6: false, bits }
    }

    /// An IPv6 address from its 128 address bits.
    pub fn v6(bits: u128) -> (r: IpAddress)
        ensures
            r.v6,
            r.bits == bits,
    {
        IpAddress { v6: true, bits }
    }
}

impl SockAddr {
    /// The IPv4 socket address `a.b.c.d:port`.
    pub fn v4(a: u8, b: u8, c: u8, d: u8, port: u16) -> (r: SockAddr)
        ensures
            !r.ip.v6,
            r.ip.bits == v4_bits(a, b, c, d),
            r.port == port,
    {
        SockAddr { ip: IpAddress::v4(a, b, c, d), port }
    }

    pub fn new(ip: IpAddress, port: u16) -> (r: SockAddr)
        ensures
            r.ip == ip,
            r.port == port,
    {
        SockAddr { ip, port }
    }
}

} // verus!
