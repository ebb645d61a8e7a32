//! Addresses and packets of IP version 4.
use crate::text;
use vstd::prelude::*;

verus! {

/// An address.
#[derive(Clone, Copy, Debug, PartialEq, Eq, Structural)]
pub struct Ipv4 {
    pub a: u8,
    pub b: u8,
    pub c: u8,
    pub d: u8,
}

/// An address and a port.
#[derive(Clone, Copy, Debug, PartialEq, Eq, Structural)]
pub struct Endpoint {
    pub ip: Ipv4,
    pub port: u16,
}

/// An address in dotted form.
pub open spec fn dotted(ip: Ipv4) -> Seq<char> {
    text::decimal(ip.a as nat) + "."@ + text::decimal(ip.b as nat) + "."@ + text::decimal(
        ip.c as nat,
    ) + "."@ + text::decimal(ip.d as nat)
}

impl Ipv4 {
    /// Whether the address is one of this machine itself, in 127.0.0.0/8.
    pub fn is_loopback(&self) -> (r: bool)
        ensures
            r == (self.a == 127),
    {
        self.a == 127
    }

    /// The address in dotted form.
    pub fn text(&self) -> (r: String)
        ensures
            r@ == dotted(*self),
    {
        let mut r: String = text::write_decimal(self.a as u64);
        r.append(".");
        r.append(text::write_decimal(self.b as u64).as_str());
        r.append(".");
        r.append(text::write_decimal(self.c as u64).as_str());
        r.append(".");
        r.append(text::write_decimal(self.d as u64).as_str());
        r
    }
}

/// The address at an offset of a packet.
pub open spec fn ip_at(p: Seq<u8>, off: int) -> Ipv4 {
    Ipv4 { a: p[off], b: p[off + 1], c: p[off + 2], d: p[off + 3] }
}

/// The port at an offset of a packet, highest byte first.
pub open spec fn port_at(p: Seq<u8>, off: int) -> u16 {
    (p[off] * 256 + p[off + 1]) as u16
}

/// The length of the IP header of a packet.
pub open spec fn header_len(p: Seq<u8>) -> int {
    (p[0] % 16) * 4
}

/// Reads an address.
pub fn read_ip(p: &[u8], off: usize) -> (r: Ipv4)
    requires
        off + 4 <= p@.len(),
    ensures
        r == ip_at(p@, off as int),
{
    Ipv4 { a: p[off], b: p[off + 1], c: p[off + 2], d: p[off + 3] }
}

/// Reads a port.
pub fn read_port(p: &[u8], off: usize) -> (r: u16)
    requires
        off + 2 <= p@.len(),
    ensures
        r == port_at(p@, off as int),
{
    p[off] as u16 * 256 + p[off + 1] as u16
}

} // verus!
