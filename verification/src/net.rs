//! IP addresses as plain numbers, with the address classes the LAN rules and
//! the pairing limiter rely on.
use vstd::prelude::*;

verus! {

/// An IPv4 address (its 32-bit value) or an IPv6 address (its 128-bit value).
#[derive(Debug, Clone, Copy, PartialEq, Eq, Hash, Structural)]
pub enum IpAddress {
    V4(u32),
    V6(u128),
}

/// The `n`-th octet (from the most significant) of an IPv4 value.
pub open spec fn v4_octet(value: u32, n: int) -> int {
    if n == 0 {
        value as int / 0x100_0000
    } else if n == 1 {
        (value as int / 0x1_0000) % 0x100
    } else if n == 2 {
        (value as int / 0x100) % 0x100
    } else {
        value as int % 0x100
    }
}

/// The `n`-th octet (from the most significant) of an IPv6 value, for the two
/// leading octets.
pub open spec fn v6_octet(value: u128, n: int) -> int {
    if n == 0 {
        value as int / 0x100_0000_0000_0000_0000_0000_0000_0000
    } else {
        (value as int / 0x1_0000_0000_0000_0000_0000_0000_0000) % 0x100
    }
}

/// The IPv4 address an IPv4-mapped IPv6 address (`::ffff:a.b.c.d`) stands
/// for; other addresses are unchanged.
pub open spec fn normalized(address: IpAddress) -> IpAddress {
    match address {
        IpAddress::V6(v) => if v as int / 0x1_0000_0000 == 0xffff {
            IpAddress::V4((v as int % 0x1_0000_0000) as u32)
        } else {
            address
        },
        IpAddress::V4(_) => address,
    }
}

/// A private or link-local unicast address that is not unspecified, loopback,
/// multicast or the IPv4 broadcast address: an address a LAN server may bind.
pub open spec fn is_safe_lan(address: IpAddress) -> bool {
    match address {
        IpAddress::V4(v) => {
            let a = v4_octet(v, 0);
            let b = v4_octet(v, 1);
            &&& v != 0
            &&& a != 127
            &&& !(224 <= a <= 239)
            &&& v != 0xffff_ffff
            &&& (a == 10 || (a == 172 && 16 <= b <= 31) || (a == 192 && b == 168) || (a == 169 && b
                == 254))
        },
        IpAddress::V6(v) => {
            let a = v6_octet(v, 0);
            let b = v6_octet(v, 1);
            &&& v != 0
            &&& v != 1
            &&& a != 0xff
            &&& (a == 0xfc || a == 0xfd || (a == 0xfe && 0x80 <= b <= 0xbf))
        },
    }
}

/// Maps an IPv4-mapped IPv6 address to the IPv4 address it carries.
pub fn normalize_ip(address: IpAddress) -> (r: IpAddress)
    ensures
        r == normalized(address),
{
    match address {
        IpAddress::V6(v) => if v / 0x1_0000_0000 == 0xffff {
            IpAddress::V4((v % 0x1_0000_0000) as u32)
        } else {
            address
        },
        IpAddress::V4(_) => address,
    }
}

/// Whether a LAN server may bind `address`.
pub fn is_safe_lan_address(address: IpAddress) -> (r: bool)
    ensures
        r == is_safe_lan(address),
{
    match address {
        IpAddress::V4(v) => {
            let a = v / 0x100_0000;
            let b = (v / 0x1_0000) % 0x100;
            v != 0 && a != 127 && !(224 <= a && a <= 239) && v != 0xffff_ffff && (a == 10 || (a
                == 172 && 16 <= b && b <= 31) || (a == 192 && b == 168) || (a == 169 && b == 254))
        },
        IpAddress::V6(v) => {
            let a = v / 0x100_0000_0000_0000_0000_0000_0000_0000;
            let b = (v / 0x1_0000_0000_0000_0000_0000_0000_0000) % 0x100;
            v != 0 && v != 1 && a != 0xff && (a == 0xfc || a == 0xfd || (a == 0xfe && 0x80 <= b
                && b <= 0xbf))
        },
    }
}

} // verus!
