//! IPv4 addresses and endpoints.

use vstd::prelude::*;
use vstd::slice::slice_subrange;

use crate::text::{chars_of, decimal, parse_uint, split_bounds};

verus! {

/// An IPv4 address, as its four octets in network order.
#[derive(Debug, Clone, Copy, PartialEq, Eq, Structural)]
pub struct Ipv4Addr {
    pub a: u8,
    pub b: u8,
    pub c: u8,
    pub d: u8,
}

impl Ipv4Addr {
    pub fn new(a: u8, b: u8, c: u8, d: u8) -> (r: Ipv4Addr)
        ensures
            r == (Ipv4Addr { a, b, c, d }),
    {
        Ipv4Addr { a, b, c, d }
    }

    /// The octets, first to last.
    pub open spec fn bytes(self) -> Seq<u8> {
        seq![self.a, self.b, self.c, self.d]
    }

    pub fn octets(&self) -> (r: [u8; 4])
        ensures
            r@ == self.bytes(),
    {
        let r: [u8; 4] = [self.a, self.b, self.c, self.d];
        assert(r@ == self.bytes());
        r
    }

    /// The address whose octets stand at `at` in `s`.
    pub open spec fn at(s: Seq<u8>, at: int) -> Ipv4Addr {
        Ipv4Addr { a: s[at], b: s[at + 1], c: s[at + 2], d: s[at + 3] }
    }

    /// The address as one number, its first octet the most significant.
    pub open spec fn bits(self) -> nat {
        self.a as nat * 0x100_0000 + self.b as nat * 0x1_0000 + self.c as nat * 0x100
            + self.d as nat
    }

    /// Whether this is `0.0.0.0`.
    pub open spec fn is_unspecified(self) -> bool {
        self.a == 0 && self.b == 0 && self.c == 0 && self.d == 0
    }

    /// Whether an interface can have this address: it is neither multicast
    /// (`224.0.0.0/4`) nor the broadcast address.
    pub open spec fn is_assignable(self) -> bool {
        &&& !(224 <= self.a <= 239)
        &&& !(self.a == 255 && self.b == 255 && self.c == 255 && self.d == 255)
    }
}

impl Ipv4Addr {
    /// Whether an interface can have this address.
    pub fn assignable(&self) -> (r: bool)
        ensures
            r == self.is_assignable(),
    {
        !(224 <= self.a && self.a <= 239) && !(self.a == 255 && self.b == 255 && self.c == 255
            && self.d == 255)
    }

    /// An octet in decimal: one to three digits, no leading zero, at most 255.
    pub open spec fn octet(s: Seq<char>) -> Option<nat> {
        match crate::text::digits_value(s, 10) {
            Some(v) => if 1 <= s.len() <= 3 && (s[0] == '0' ==> s.len() == 1) && v <= 255 {
                Some(v)
            } else {
                None
            },
            None => None,
        }
    }

    /// The address that a text denotes: four octets with dots between.
    pub open spec fn from_dotted(s: Seq<char>) -> Option<Ipv4Addr> {
        let parts = crate::text::split_on(s, '.');
        if parts.len() == 4 && forall|i: int|
            0 <= i < 4 ==> Ipv4Addr::octet(#[trigger] parts[i]) is Some {
            Some(
                Ipv4Addr {
                    a: Ipv4Addr::octet(parts[0])->Some_0 as u8,
                    b: Ipv4Addr::octet(parts[1])->Some_0 as u8,
                    c: Ipv4Addr::octet(parts[2])->Some_0 as u8,
                    d: Ipv4Addr::octet(parts[3])->Some_0 as u8,
                },
            )
        } else {
            None
        }
    }

    fn parse_octet(s: &[char]) -> (r: Option<u8>)
        ensures
            r is Some <==> Ipv4Addr::octet(s@) is Some,
            r matches Some(v) ==> v == Ipv4Addr::octet(s@)->Some_0,
    {
        if s.len() == 0 || s.len() > 3 || (s[0] == '0' && s.len() > 1) || s[0] == '+' {
            proof {
                if s@.len() > 0 && s@[0] == '+' {
                    crate::text::lemma_plus_is_no_digit(s@, 10);
                }
            }
            return None;
        }
        match parse_uint(s, 10, 255) {
            Some(v) => Some(v as u8),
            None => None,
        }
    }

    /// Reads an address in dotted decimal.
    pub fn parse(s: &str) -> (r: Option<Ipv4Addr>)
        ensures
            r == Ipv4Addr::from_dotted(s@),
    {
        let chars = chars_of(s);
        let bounds = split_bounds(chars.as_slice(), '.');
        let ghost parts = crate::text::split_on(s@, '.');
        if bounds.len() != 4 {
            return None;
        }
        let mut m: [u8; 4] = [0; 4];
        let mut i: usize = 0;
        while i < 4
            invariant
                i <= 4,
                chars@ == s@,
                parts == crate::text::split_on(s@, '.'),
                parts.len() == 4,
                bounds@.len() == 4,
                forall|k: int|
                    #![trigger bounds@[k]]
                    0 <= k < 4 ==> bounds@[k].0 <= bounds@[k].1 <= chars@.len() && chars@.subrange(
                        bounds@[k].0 as int,
                        bounds@[k].1 as int,
                    ) == parts[k],
                forall|k: int|
                    0 <= k < i ==> Ipv4Addr::octet(#[trigger] parts[k]) is Some && m@[k]
                        == Ipv4Addr::octet(parts[k])->Some_0,
            decreases 4 - i,
        {
            let (from, to) = bounds[i];
            match Ipv4Addr::parse_octet(slice_subrange(chars.as_slice(), from, to)) {
                Some(v) => {
                    m[i] = v;
                },
                None => {
                    assert(Ipv4Addr::octet(parts[i as int]) is None);
                    return None;
                },
            }
            i = i + 1;
        }
        Some(Ipv4Addr::new(m[0], m[1], m[2], m[3]))
    }

    /// How the address is written: its octets in decimal, with dots between.
    pub open spec fn dotted(self) -> Seq<char> {
        crate::text::decimal_digits(self.a as nat) + "."@ + crate::text::decimal_digits(
            self.b as nat,
        ) + "."@ + crate::text::decimal_digits(self.c as nat) + "."@
            + crate::text::decimal_digits(self.d as nat)
    }

    pub fn to_text(&self) -> (r: String)
        ensures
            r@ == self.dotted(),
    {
        let mut r = decimal(self.a as u64);
        r.append(".");
        r.append(decimal(self.b as u64).as_str());
        r.append(".");
        r.append(decimal(self.c as u64).as_str());
        r.append(".");
        r.append(decimal(self.d as u64).as_str());
        r
    }
}

/// An IPv4 address and a port.
#[derive(Debug, Clone, Copy, PartialEq, Eq, Structural)]
pub struct SocketAddrV4 {
    pub ip: Ipv4Addr,
    pub port: u16,
}

impl SocketAddrV4 {
    pub fn new(ip: Ipv4Addr, port: u16) -> (r: SocketAddrV4)
        ensures
            r == (SocketAddrV4 { ip, port }),
    {
        SocketAddrV4 { ip, port }
    }
}

/// The two bytes of a 16-bit number, most significant first.
pub open spec fn be16(n: nat) -> Seq<u8> {
    seq![(n / 256) as u8, (n % 256) as u8]
}

/// The 16-bit number whose bytes stand at `at` in `s`, most significant first.
pub open spec fn be16_at(s: Seq<u8>, at: int) -> nat {
    s[at] as nat * 256 + s[at + 1] as nat
}

/// The most significant byte of a port.
pub fn port_hi(port: u16) -> (r: u8)
    ensures
        r == be16(port as nat)[0],
{
    (port / 256) as u8
}

/// The least significant byte of a port.
pub fn port_lo(port: u16) -> (r: u8)
    ensures
        r == be16(port as nat)[1],
{
    (port % 256) as u8
}

} // verus!
