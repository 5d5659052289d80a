//! Addresses, kept as numbers.
use vstd::prelude::*;

verus! {

/// An IPv4 address, the first octet in the highest byte.
#[derive(Clone, Copy, Debug, PartialEq, Eq, PartialOrd, Ord, Hash, Structural)]
pub struct Ipv4Addr {
    pub bits: u32,
}

/// An IPv6 address, the first segment in the highest bits.
#[derive(Clone, Copy, Debug, PartialEq, Eq, PartialOrd, Ord, Hash, Structural)]
pub struct Ipv6Addr {
    pub bits: u128,
}

/// An IP address.
#[derive(Clone, Copy, Debug, PartialEq, Eq, PartialOrd, Ord, Hash, Structural)]
pub enum IpAddr {
    V4(Ipv4Addr),
    V6(Ipv6Addr),
}

/// An IP address and a port. Flow and scope are those of an IPv6 address, else zero.
#[derive(Clone, Copy, Debug, PartialEq, Eq, PartialOrd, Ord, Hash, Structural)]
pub struct SocketAddr {
    pub ip: IpAddr,
    pub port: u16,
    pub flowinfo: u32,
    pub scope_id: u32,
}

/// A block of IPv4 addresses.
#[derive(Clone, Copy, Debug, PartialEq, Eq, PartialOrd, Ord, Hash, Structural)]
pub struct Ipv4Cidr {
    pub address: Ipv4Addr,
    pub prefix_len: u8,
}

/// A socket address as a tuple of plain values, by which maps are keyed.
pub type EndpointKey = (bool, u128, u16, u32, u32);

/// The key of a socket address.
pub open spec fn endpoint_key(addr: SocketAddr) -> EndpointKey {
    match addr.ip {
        IpAddr::V4(ip) => (false, ip.bits as u128, addr.port, addr.flowinfo, addr.scope_id),
        IpAddr::V6(ip) => (true, ip.bits, addr.port, addr.flowinfo, addr.scope_id),
    }
}

/// Different socket addresses have different keys.
pub proof fn endpoint_keys_tell_addresses_apart(a: SocketAddr, b: SocketAddr)
    requires
        endpoint_key(a) == endpoint_key(b),
    ensures
        a == b,
{
}

impl Ipv4Addr {
    /// The address `a.b.c.d`.
    pub open spec fn of_octets(a: u8, b: u8, c: u8, d: u8) -> Ipv4Addr {
        Ipv4Addr { bits: (a * 0x100_0000 + b * 0x1_0000 + c * 0x100 + d) as u32 }
    }

    /// The address `a.b.c.d`.
    pub fn new(a: u8, b: u8, c: u8, d: u8) -> (addr: Ipv4Addr)
        ensures
            addr == Ipv4Addr::of_octets(a, b, c, d),
    {
        Ipv4Addr {
            bits: a as u32 * 0x100_0000 + b as u32 * 0x1_0000 + c as u32 * 0x100 + d as u32,
        }
    }

    /// `0.0.0.0`.
    pub fn unspecified() -> (addr: Ipv4Addr)
        ensures
            addr.bits == 0,
    {
        Ipv4Addr { bits: 0 }
    }

    /// Whether this is `0.0.0.0`.
    pub fn is_unspecified(&self) -> (res: bool)
        ensures
            res == (self.bits == 0),
    {
        self.bits == 0
    }
}

impl SocketAddr {
    /// The IPv4 address `ip` with a port.
    pub fn new_v4(ip: Ipv4Addr, port: u16) -> (addr: SocketAddr)
        ensures
            addr == (SocketAddr { ip: IpAddr::V4(ip), port, flowinfo: 0, scope_id: 0 }),
    {
        SocketAddr { ip: IpAddr::V4(ip), port, flowinfo: 0, scope_id: 0 }
    }

    /// Whether the address is an IPv6 address.
    pub fn is_ipv6(&self) -> (res: bool)
        ensures
            res == (self.ip is V6),
    {
        match self.ip {
            IpAddr::V4(_) => false,
            IpAddr::V6(_) => true,
        }
    }

    /// The key by which maps know this address.
    pub fn key(&self) -> (key: EndpointKey)
        ensures
            key == endpoint_key(*self),
    {
        match self.ip {
            IpAddr::V4(ip) => (
                false,
                ip.bits as u128,
                self.port,
                self.flowinfo,
                self.scope_id,
            ),
            IpAddr::V6(ip) => (true, ip.bits, self.port, self.flowinfo, self.scope_id),
        }
    }
}

/// The addresses that cannot be told to lie outside of a virtual network: private, loopback,
/// link-local, broadcast, documentation, unspecified, multicast and shared ones.
pub open spec fn is_special_v4(bits: u32) -> bool {
    ||| bits / 0x100_0000 == 10  // 10.0.0.0/8
    ||| bits / 0x10_0000 == 0xac1  // 172.16.0.0/12
    ||| bits / 0x1_0000 == 0xc0a8  // 192.168.0.0/16
    ||| bits / 0x100_0000 == 127  // 127.0.0.0/8
    ||| bits / 0x1_0000 == 0xa9fe  // 169.254.0.0/16
    ||| bits == 0xffff_ffff  // 255.255.255.255
    ||| bits / 0x100 == 0xc0_0002  // 192.0.2.0/24
    ||| bits / 0x100 == 0xc6_3364  // 198.51.100.0/24
    ||| bits / 0x100 == 0xcb_0071  // 203.0.113.0/24
    ||| bits == 0  // 0.0.0.0
    ||| bits / 0x1000_0000 == 0xe  // 224.0.0.0/4
    ||| bits / 0x40_0000 == 0x191  // 100.64.0.0/10

}

/// The IPv4 address that an IPv6 address `::ffff:a.b.c.d` stands for.
pub open spec fn mapped_v4(bits: u128) -> Option<u32> {
    if bits / 0x1_0000_0000 == 0xffff {
        Some((bits % 0x1_0000_0000) as u32)
    } else {
        None
    }
}

/// The IPv6 addresses that cannot be told to lie outside of a virtual network: loopback,
/// unspecified, multicast, link-local and unique local ones.
pub open spec fn is_special_v6(bits: u128) -> bool {
    ||| bits == 1  // ::1
    ||| bits == 0  // ::
    ||| bits / 0x100_0000_0000_0000_0000_0000_0000_0000 == 0xff  // ff00::/8
    ||| bits / 0x40_0000_0000_0000_0000_0000_0000_0000 == 0x3fa  // fe80::/10
    ||| bits / 0x200_0000_0000_0000_0000_0000_0000_0000 == 0x7e  // fc00::/7

}

/// Whether an address is certainly that of a physical network.
pub open spec fn definitely_physical(ip: IpAddr) -> bool {
    match ip {
        IpAddr::V4(v4) => !is_special_v4(v4.bits),
        IpAddr::V6(v6) => match mapped_v4(v6.bits) {
            Some(bits) => !is_special_v4(bits),
            None => !is_special_v6(v6.bits),
        },
    }
}

/// Whether an IPv4 address is certainly that of a physical network.
pub fn is_definitely_physical_addr_v4(v4: &Ipv4Addr) -> (res: bool)
    ensures
        res == !is_special_v4(v4.bits),
{
    let b: u32 = v4.bits;
    !(b / 0x100_0000 == 10 || b / 0x10_0000 == 0xac1 || b / 0x1_0000 == 0xc0a8 || b / 0x100_0000
        == 127 || b / 0x1_0000 == 0xa9fe || b == 0xffff_ffff || b / 0x100 == 0xc0_0002 || b / 0x100
        == 0xc6_3364 || b / 0x100 == 0xcb_0071 || b == 0 || b / 0x1000_0000 == 0xe || b / 0x40_0000
        == 0x191)
}

/// Whether an address is certainly that of a physical network.
pub fn is_definitely_physical_addr(ip: &IpAddr) -> (res: bool)
    ensures
        res == definitely_physical(*ip),
{
    match ip {
        IpAddr::V4(v4) => is_definitely_physical_addr_v4(v4),
        IpAddr::V6(v6) => {
            let b: u128 = v6.bits;
            if b / 0x1_0000_0000 == 0xffff {
                let v4 = Ipv4Addr { bits: (b % 0x1_0000_0000) as u32 };
                return is_definitely_physical_addr_v4(&v4);
            }
            !(b == 1 || b == 0 || b / 0x100_0000_0000_0000_0000_0000_0000_0000 == 0xff || b
                / 0x40_0000_0000_0000_0000_0000_0000_0000 == 0x3fa || b
                / 0x200_0000_0000_0000_0000_0000_0000_0000 == 0x7e)
        },
    }
}

/// An address holds its octets, the first in the highest byte.
pub proof fn addresses_hold_their_octets(a: u8, b: u8, c: u8, d: u8)
    ensures
        Ipv4Addr::of_octets(a, b, c, d).bits / 0x100_0000 == a,
        Ipv4Addr::of_octets(a, b, c, d).bits / 0x1_0000 % 0x100 == b,
        Ipv4Addr::of_octets(a, b, c, d).bits / 0x100 % 0x100 == c,
        Ipv4Addr::of_octets(a, b, c, d).bits % 0x100 == d,
{
    let bits = Ipv4Addr::of_octets(a, b, c, d).bits;
    assert(bits == a * 0x100_0000 + b * 0x1_0000 + c * 0x100 + d);
    assert(bits / 0x100_0000 == a as u32 && bits / 0x1_0000 % 0x100 == b as u32 && bits / 0x100
        % 0x100 == c as u32 && bits % 0x100 == d as u32) by (bit_vector)
        requires
            bits == a * 0x100_0000 + b * 0x1_0000 + c * 0x100 + d,
    ;
}

/// The IPv4 addresses that can lie in a virtual network, by their octets: private ones (10/8,
/// 172.16/12, 192.168/16), loopback (127/8), link-local (169.254/16), broadcast, documentation
/// (192.0.2/24, 198.51.100/24, 203.0.113/24), 0.0.0.0, multicast (224/4) and shared ones (100.64/10).
pub proof fn special_addresses_by_octets(a: u8, b: u8, c: u8, d: u8)
    ensures
        is_special_v4(Ipv4Addr::of_octets(a, b, c, d).bits) <==> {
            ||| a == 10
            ||| a == 172 && 16 <= b <= 31
            ||| a == 192 && b == 168
            ||| a == 127
            ||| a == 169 && b == 254
            ||| a == 255 && b == 255 && c == 255 && d == 255
            ||| a == 192 && b == 0 && c == 2
            ||| a == 198 && b == 51 && c == 100
            ||| a == 203 && b == 0 && c == 113
            ||| a == 0 && b == 0 && c == 0 && d == 0
            ||| 224 <= a <= 239
            ||| a == 100 && 64 <= b <= 127
        },
        definitely_physical(IpAddr::V4(Ipv4Addr::of_octets(a, b, c, d))) <==> !is_special_v4(
            Ipv4Addr::of_octets(a, b, c, d).bits,
        ),
{
    let bits = Ipv4Addr::of_octets(a, b, c, d).bits;
    addresses_hold_their_octets(a, b, c, d);
    assert(bits == a * 0x100_0000 + b * 0x1_0000 + c * 0x100 + d);
    assert((bits / 0x10_0000 == 0xac1) == (a == 172 && 16 <= b && b <= 31) && (bits / 0x40_0000
        == 0x191) == (a == 100 && 64 <= b && b <= 127) && (bits / 0x1000_0000 == 0xe) == (224 <= a
        && a <= 239)) by (bit_vector)
        requires
            bits == a * 0x100_0000 + b * 0x1_0000 + c * 0x100 + d,
    ;
}

/// The IPv6 addresses that can lie in a virtual network, by their first segment: multicast, link-local
/// and unique local ones; besides those the loopback and the unspecified address.
pub proof fn special_addresses_by_segment(bits: u128)
    ensures
        is_special_v6(bits) <==> {
            let first = bits as int / 0x1_0000_0000_0000_0000_0000_0000_0000int;
            ||| bits <= 1
            ||| 0xff00 <= first
            ||| 0xfe80 <= first <= 0xfebf
            ||| 0xfc00 <= first <= 0xfdff
        },
{
}

/// An IPv6 address that stands for an IPv4 address is judged as that one is; any other by what it is
/// itself.
pub proof fn mapped_addresses_are_judged_by_what_they_stand_for(v4: u32, v6: u128)
    ensures
        definitely_physical(IpAddr::V6(Ipv6Addr { bits: (0xffff_0000_0000 + v4) as u128 })) == (
        definitely_physical(IpAddr::V4(Ipv4Addr { bits: v4 }))),
        !(0xffff_0000_0000 <= v6 <= 0xffff_ffff_ffff) ==> definitely_physical(
            IpAddr::V6(Ipv6Addr { bits: v6 }),
        ) == !is_special_v6(v6),
{
}

} // verus!
