//! C-compatible IPv4 and IPv6 addresses.

use vstd::prelude::*;

verus! {

/// A C-compatible representation of an IPv4 address.
#[derive(Debug, PartialEq, Eq, Clone, Copy, Hash)]
pub struct Ipv4AddrC {
    /// The four octets of the IPv4 address.
    pub segments: [u8; 4],
}

impl Ipv4AddrC {
    /// Creates a new `Ipv4AddrC` from four octets.
    pub fn new(a: u8, b: u8, c: u8, d: u8) -> (r: Self)
        ensures
            r.segments@ == seq![a, b, c, d],
    {
        Self { segments: [a, b, c, d] }
    }

    /// Returns the octets of the IPv4 address.
    pub fn octets(self) -> (r: [u8; 4])
        ensures
            r == self.segments,
    {
        self.segments
    }

    /// Reads an IPv4 address in dotted notation; nothing where the text is
    /// not one.
    pub fn from_text(s: &str) -> (r: Option<Self>)
        ensures
            r == ipv4_text(s@),
    {
        parse_ipv4(s)
    }
}

/// A C-compatible representation of an IPv6 address.
#[derive(Debug, PartialEq, Eq, Clone, Copy, Hash)]
pub struct Ipv6AddrC {
    /// The eight 16-bit segments of the IPv6 address.
    pub segments: [u16; 8],
}

impl Ipv6AddrC {
    /// Creates a new `Ipv6AddrC` from eight 16-bit segments.
    pub fn new(a: u16, b: u16, c: u16, d: u16, e: u16, f: u16, g: u16, h: u16) -> (r: Self)
        ensures
            r.segments@ == seq![a, b, c, d, e, f, g, h],
    {
        Self { segments: [a, b, c, d, e, f, g, h] }
    }

    /// Returns the segments of the IPv6 address.
    pub fn segments(self) -> (r: [u16; 8])
        ensures
            r == self.segments,
    {
        self.segments
    }

    /// Reads an IPv6 address in the standard notation; nothing where the
    /// text is not one.
    pub fn from_text(s: &str) -> (r: Option<Self>)
        ensures
            r == ipv6_text(s@),
    {
        parse_ipv6(s)
    }
}

/// The IPv4 address that a text denotes in the standard dotted notation
/// (`core::net::Ipv4Addr` parsing), if it denotes one.
pub uninterp spec fn ipv4_text(s: Seq<char>) -> Option<Ipv4AddrC>;

/// The IPv6 address that a text denotes in the standard notation
/// (`core::net::Ipv6Addr` parsing), if it denotes one.
pub uninterp spec fn ipv6_text(s: Seq<char>) -> Option<Ipv6AddrC>;

/// `<core::net::Ipv4Addr as FromStr>::from_str`: reads an IPv4 address in
/// dotted notation. What it reads is named by `ipv4_text`, a function of the
/// text alone.
#[verifier::external_body]
pub(crate) fn parse_ipv4(s: &str) -> (r: Option<Ipv4AddrC>)
    ensures
        r == ipv4_text(s@),
{
    match s.parse::<core::net::Ipv4Addr>() {
        Ok(a) => Some(Ipv4AddrC { segments: a.octets() }),
        Err(_) => None,
    }
}

/// `<core::net::Ipv6Addr as FromStr>::from_str`: reads an IPv6 address. What
/// it reads is named by `ipv6_text`, a function of the text alone.
#[verifier::external_body]
pub(crate) fn parse_ipv6(s: &str) -> (r: Option<Ipv6AddrC>)
    ensures
        r == ipv6_text(s@),
{
    match s.parse::<core::net::Ipv6Addr>() {
        Ok(a) => Some(Ipv6AddrC { segments: a.segments() }),
        Err(_) => None,
    }
}

} // verus!
