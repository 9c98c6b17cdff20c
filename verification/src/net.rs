//! IPv4 socket addresses as the protocol carries them.

use vstd::prelude::*;

use crate::text::{decimal, parse_decimal, split_bytes, split_on};

verus! {

/// An IPv4 address, one byte per octet, most significant first.
#[derive(Clone, Copy, Debug, PartialEq, Eq, Structural, Hash)]
pub struct Ipv4Addr(pub u8, pub u8, pub u8, pub u8);

/// An IPv4 address and a port.
#[derive(Clone, Copy, Debug, PartialEq, Eq, Structural, Hash)]
pub struct SocketAddr {
    pub ip: Ipv4Addr,
    pub port: u16,
}

impl SocketAddr {
    pub fn new(ip: Ipv4Addr, port: u16) -> (r: SocketAddr)
        ensures
            r == (SocketAddr { ip, port }),
    {
        SocketAddr { ip, port }
    }

    /// Reads `a.b.c.d:port`: four decimal octets of at most 255 separated by
    /// dots, a colon, and a decimal port of at most 65535.
    pub fn parse(s: &Vec<u8>) -> (r: Option<SocketAddr>)
        ensures
            r == parse_socket_addr(s@),
    {
        let parts = split_bytes(s, 58);
        proof {
            assert(parts@.map_values(|v: Vec<u8>| v@).len() == parts@.len());
        }
        if parts.len() != 2 {
            return None;
        }
        let octets = split_bytes(&parts[0], 46);
        proof {
            assert(parts@.map_values(|v: Vec<u8>| v@)[0] == parts@[0]@);
            assert(parts@.map_values(|v: Vec<u8>| v@)[1] == parts@[1]@);
            assert(octets@.map_values(|v: Vec<u8>| v@).len() == octets@.len());
        }
        if octets.len() != 4 {
            return None;
        }
        proof {
            assert forall|k: int| 0 <= k < 4 implies octets@[k]@.skip(0) == split_on(parts@[0]@, 46)[k] by {
                assert(octets@.map_values(|v: Vec<u8>| v@)[k] == octets@[k]@);
                assert(octets@[k]@.skip(0) =~= octets@[k]@);
            }
            assert(parts@[1]@.skip(0) =~= parts@[1]@);
        }
        let a = parse_decimal(&octets[0], 0, 255);
        let b = parse_decimal(&octets[1], 0, 255);
        let c = parse_decimal(&octets[2], 0, 255);
        let d = parse_decimal(&octets[3], 0, 255);
        let port = parse_decimal(&parts[1], 0, 65535);
        match (a, b, c, d, port) {
            (Some(a), Some(b), Some(c), Some(d), Some(port)) => Some(
                SocketAddr { ip: Ipv4Addr(a as u8, b as u8, c as u8, d as u8), port: port as u16 },
            ),
            _ => None,
        }
    }

    /// Equality of addresses.
    pub fn eq(&self, other: &SocketAddr) -> (r: bool)
        ensures
            r == (*self == *other),
    {
        *self == *other
    }
}

/// The address that `s` writes as `a.b.c.d:port`, if it is one.
pub open spec fn parse_socket_addr(s: Seq<u8>) -> Option<SocketAddr> {
    let parts = split_on(s, 58);
    if parts.len() != 2 {
        None
    } else {
        let octets = split_on(parts[0], 46);
        if octets.len() != 4 {
            None
        } else {
            match (
                decimal(octets[0], 255),
                decimal(octets[1], 255),
                decimal(octets[2], 255),
                decimal(octets[3], 255),
                decimal(parts[1], 65535),
            ) {
                (Some(a), Some(b), Some(c), Some(d), Some(port)) => Some(
                    SocketAddr {
                        ip: Ipv4Addr(a as u8, b as u8, c as u8, d as u8),
                        port: port as u16,
                    },
                ),
                _ => None,
            }
        }
    }
}

} // verus!
