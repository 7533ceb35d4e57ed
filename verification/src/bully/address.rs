//! Where a node listens: an IPv4 address and a port.

use crate::error::{failure, ErrorKind, LeaderElectError};
use crate::text::{
    canonical_up_to, chars_of, decimal_up_to, parse_canonical, parse_decimal, split, split_ranges,
};
use vstd::prelude::*;

verus! {

/// An IPv4 address `a.b.c.d` and a port.
#[derive(Debug, PartialEq, Eq, Structural, Clone, Copy)]
pub struct Address {
    pub a: u8,
    pub b: u8,
    pub c: u8,
    pub d: u8,
    pub port: u16,
}

/// One of the four numbers of an IPv4 address: at most 255, written the
/// shortest way.
pub open spec fn parse_octet(s: Seq<char>) -> Option<u8> {
    match canonical_up_to(s, 255) {
        Some(n) => Some(n as u8),
        None => None,
    }
}

/// A port: a decimal number of at most 65535. Zeros in front are accepted.
pub open spec fn parse_port(s: Seq<char>) -> Option<u16> {
    match decimal_up_to(s, 65535) {
        Some(n) => Some(n as u16),
        None => None,
    }
}

/// The four numbers of `a.b.c.d`.
pub open spec fn parse_ip(s: Seq<char>) -> Option<(u8, u8, u8, u8)> {
    let octets = split(s, '.');
    if octets.len() == 4 {
        match (
            parse_octet(octets[0]),
            parse_octet(octets[1]),
            parse_octet(octets[2]),
            parse_octet(octets[3]),
        ) {
            (Some(a), Some(b), Some(c), Some(d)) => Some((a, b, c, d)),
            _ => None,
        }
    } else {
        None
    }
}

/// The address that the text `a.b.c.d:port` stands for.
pub open spec fn parse_address(s: Seq<char>) -> Option<Address> {
    let parts = split(s, ':');
    if parts.len() == 2 {
        match (parse_ip(parts[0]), parse_port(parts[1])) {
            (Some(ip), Some(port)) => Some(
                Address { a: ip.0, b: ip.1, c: ip.2, d: ip.3, port },
            ),
            _ => None,
        }
    } else {
        None
    }
}

fn octet_in(v: &Vec<char>, lo: usize, hi: usize) -> (r: Option<u8>)
    requires
        lo <= hi <= v.len(),
    ensures
        r == parse_octet(v@.subrange(lo as int, hi as int)),
{
    match parse_canonical(v, lo, hi, 255) {
        Some(n) => Some(n as u8),
        None => None,
    }
}

fn ip_in(v: &Vec<char>, lo: usize, hi: usize) -> (r: Option<(u8, u8, u8, u8)>)
    requires
        lo <= hi <= v.len(),
    ensures
        r == parse_ip(v@.subrange(lo as int, hi as int)),
{
    let octets = split_ranges(v, lo, hi, '.');
    if octets.len() != 4 {
        return None;
    }
    let a = octet_in(v, octets[0].0, octets[0].1);
    let b = octet_in(v, octets[1].0, octets[1].1);
    let c = octet_in(v, octets[2].0, octets[2].1);
    let d = octet_in(v, octets[3].0, octets[3].1);
    match (a, b, c, d) {
        (Some(a), Some(b), Some(c), Some(d)) => Some((a, b, c, d)),
        _ => None,
    }
}

/// The address that `v[lo..hi]` stands for.
pub(crate) fn address_in(v: &Vec<char>, lo: usize, hi: usize) -> (r: Option<Address>)
    requires
        lo <= hi <= v.len(),
    ensures
        r == parse_address(v@.subrange(lo as int, hi as int)),
{
    let parts = split_ranges(v, lo, hi, ':');
    if parts.len() != 2 {
        return None;
    }
    let ip = ip_in(v, parts[0].0, parts[0].1);
    let port = parse_decimal(v, parts[1].0, parts[1].1, 65535);
    match (ip, port) {
        (Some(ip), Some(port)) => Some(
            Address { a: ip.0, b: ip.1, c: ip.2, d: ip.3, port: port as u16 },
        ),
        _ => None,
    }
}

impl Address {
    /// Reads an address of the form `a.b.c.d:port`.
    pub fn parse(s: &str) -> (r: Result<Address, LeaderElectError>)
        ensures
            match r {
                Ok(address) => parse_address(s@) == Some(address),
                Err(e) => parse_address(s@) is None && e@ == failure(ErrorKind::InvalidAddress),
            },
    {
        let v = chars_of(s);
        assert(v@.subrange(0, v.len() as int) == v@);
        match address_in(&v, 0, v.len()) {
            Some(address) => Ok(address),
            None => Err(LeaderElectError::of(ErrorKind::InvalidAddress)),
        }
    }
}

impl std::str::FromStr for Address {
    type Err = LeaderElectError;

    /// Reads an address of the form `a.b.c.d:port`, as `Address::parse`
    /// does.
    fn from_str(s: &str) -> (r: Result<Address, LeaderElectError>)
        ensures
            match r {
                Ok(address) => parse_address(s@) == Some(address),
                Err(e) => parse_address(s@) is None && e@ == failure(ErrorKind::InvalidAddress),
            },
    {
        Address::parse(s)
    }
}

} // verus!
