//! Network addresses as plain values, ordered the way peers agree on.

use crate::text::{
    all_digits, chars_of, decimal_nat, digits_value, find_char, find_from, lemma_decimal_nat,
    lemma_find_after, push_decimal, read_digits,
};
use vstd::prelude::*;
use vstd::string::*;

verus! {

/// An IPv4 address, given by its four octets from the most significant down.
#[derive(Debug, Clone, Copy, PartialEq, Eq, Structural, Hash)]
pub struct Ipv4Addr {
    pub a: u8,
    pub b: u8,
    pub c: u8,
    pub d: u8,
}

impl Ipv4Addr {
    /// The address as one number: the octets read as base-256 digits.
    pub open spec fn spec_rank(self) -> int {
        ((self.a as int * 256 + self.b as int) * 256 + self.c as int) * 256 + self.d as int
    }

    /// The address with the given octets.
    pub fn new(a: u8, b: u8, c: u8, d: u8) -> (ip: Ipv4Addr)
        ensures
            ip == (Ipv4Addr { a, b, c, d }),
    {
        Ipv4Addr { a, b, c, d }
    }

    /// The number by which addresses are ordered.
    pub fn rank(&self) -> (r: u64)
        ensures
            r == self.spec_rank(),
    {
        let a: u64 = self.a as u64;
        let b: u64 = self.b as u64;
        let c: u64 = self.c as u64;
        let d: u64 = self.d as u64;
        ((a * 256 + b) * 256 + c) * 256 + d
    }
}

/// The number from 0 to 255 that a text denotes when it is read as one of
/// the four parts of an address: one to three digits, with no zero in front
/// of another digit.
pub open spec fn parse_octet(s: Seq<char>) -> Option<u8> {
    if 1 <= s.len() <= 3 && all_digits(s) && (s.len() == 1 || s[0] != '0') && digits_value(s)
        <= 255 {
        Some(digits_value(s) as u8)
    } else {
        None
    }
}

/// Reading a written part of an address gives the part back.
pub proof fn lemma_octet_round_trip(v: u8)
    ensures
        parse_octet(decimal_nat(v as nat)) == Some(v),
        forall|i: int|
            0 <= i < decimal_nat(v as nat).len() ==> #[trigger] decimal_nat(v as nat)[i] != '.',
{
    lemma_decimal_nat(v as nat);
}

impl Ipv4Addr {
    /// The address in dotted decimal notation.
    pub open spec fn spec_text(self) -> Seq<char> {
        decimal_nat(self.a as nat) + seq!['.'] + (decimal_nat(self.b as nat) + seq!['.'] + (
        decimal_nat(self.c as nat) + seq!['.'] + decimal_nat(self.d as nat)))
    }

    /// The address that a text denotes in dotted decimal notation: four
    /// parts set apart by three dots.
    pub open spec fn spec_parse(s: Seq<char>) -> Option<Ipv4Addr> {
        let first = find_char(s, '.');
        let after_first = s.skip(first + 1);
        let second = find_char(after_first, '.');
        let after_second = after_first.skip(second + 1);
        let third = find_char(after_second, '.');
        let after_third = after_second.skip(third + 1);
        if first < s.len() && second < after_first.len() && third < after_second.len() {
            match (
                parse_octet(s.take(first)),
                parse_octet(after_first.take(second)),
                parse_octet(after_second.take(third)),
                parse_octet(after_third),
            ) {
                (Some(a), Some(b), Some(c), Some(d)) => Some(Ipv4Addr { a, b, c, d }),
                _ => None,
            }
        } else {
            None
        }
    }

    /// Reading a written address gives the address back.
    pub proof fn lemma_text_round_trip(self)
        ensures
            Ipv4Addr::spec_parse(self.spec_text()) == Some(self),
    {
        let a = decimal_nat(self.a as nat);
        let b = decimal_nat(self.b as nat);
        let c = decimal_nat(self.c as nat);
        let d = decimal_nat(self.d as nat);
        lemma_octet_round_trip(self.a);
        lemma_octet_round_trip(self.b);
        lemma_octet_round_trip(self.c);
        lemma_octet_round_trip(self.d);
        lemma_find_after(a, '.', b + seq!['.'] + (c + seq!['.'] + d));
        lemma_find_after(b, '.', c + seq!['.'] + d);
        lemma_find_after(c, '.', d);
    }

    /// The address in dotted decimal notation.
    pub fn text(&self) -> (text: String)
        ensures
            text@ == self.spec_text(),
    {
        proof {
            reveal_strlit(".");
        }
        let mut text = String::new();
        push_decimal(&mut text, self.a as u64);
        text.append(".");
        push_decimal(&mut text, self.b as u64);
        text.append(".");
        push_decimal(&mut text, self.c as u64);
        text.append(".");
        push_decimal(&mut text, self.d as u64);
        proof {
            assert(text@ =~= self.spec_text());
        }
        text
    }

    /// Reads an address in dotted decimal notation.
    pub fn parse(text: &str) -> (r: Option<Ipv4Addr>)
        ensures
            r == Ipv4Addr::spec_parse(text@),
    {
        let chars = chars_of(text);
        let length = chars.len();
        let ghost s = text@;
        let first = find_from(&chars, 0, '.');
        proof {
            assert(chars@.skip(0) =~= s);
        }
        if first >= length {
            return None;
        }
        let ghost after_first = s.skip(first + 1);
        let second = find_from(&chars, first + 1, '.');
        if second >= length {
            return None;
        }
        let ghost after_second = after_first.skip(second - first);
        let third = find_from(&chars, second + 1, '.');
        proof {
            assert(after_second =~= s.skip(second + 1));
        }
        if third >= length {
            return None;
        }
        proof {
            let after_third = after_second.skip(third - second);
            assert(after_third =~= s.skip(third + 1));
            assert(s.take(first as int) =~= s.subrange(0, first as int));
            assert(after_first.take(second - first - 1) =~= s.subrange(first + 1, second as int));
            assert(after_second.take(third - second - 1) =~= s.subrange(second + 1, third as int));
            assert(after_third =~= s.subrange(third + 1, length as int));
        }
        let a = read_octet(&chars, 0, first);
        let b = read_octet(&chars, first + 1, second);
        let c = read_octet(&chars, second + 1, third);
        let d = read_octet(&chars, third + 1, length);
        match (a, b, c, d) {
            (Some(a), Some(b), Some(c), Some(d)) => Some(Ipv4Addr { a, b, c, d }),
            _ => None,
        }
    }
}

/// Reads one of the four parts of an address.
fn read_octet(chars: &Vec<char>, from: usize, to: usize) -> (r: Option<u8>)
    requires
        from <= to <= chars.len(),
    ensures
        r == parse_octet(chars@.subrange(from as int, to as int)),
{
    let ghost run = chars@.subrange(from as int, to as int);
    if to - from < 1 || to - from > 3 {
        return None;
    }
    proof {
        assert(run[0] == chars@[from as int]);
    }
    if to - from > 1 && chars[from] == '0' {
        return None;
    }
    match read_digits(chars, from, to, 255) {
        Ok(value) => Some(value as u8),
        Err(_) => None,
    }
}

/// An IPv4 address together with a UDP port.
#[derive(Debug, Clone, Copy, PartialEq, Eq, Structural, Hash)]
pub struct SocketAddrV4 {
    pub ip: Ipv4Addr,
    pub port: u16,
}

impl SocketAddrV4 {
    /// Orders socket addresses by address first and port second.
    pub open spec fn spec_rank(self) -> int {
        self.ip.spec_rank() * 65536 + self.port as int
    }

    /// The given port at the given address.
    pub fn new(ip: Ipv4Addr, port: u16) -> (addr: SocketAddrV4)
        ensures
            addr == (SocketAddrV4 { ip, port }),
    {
        SocketAddrV4 { ip, port }
    }

    /// The address without the port.
    pub fn ip(&self) -> (ip: Ipv4Addr)
        ensures
            ip == self.ip,
    {
        self.ip
    }

    /// The port.
    pub fn port(&self) -> (port: u16)
        ensures
            port == self.port,
    {
        self.port
    }

    /// The number by which socket addresses are ordered.
    pub fn rank(&self) -> (r: u64)
        ensures
            r == self.spec_rank(),
    {
        let ip: u64 = self.ip.rank();
        ip * 65536 + self.port as u64
    }
}

/// Two socket addresses with the same rank are the same address.
pub proof fn lemma_rank_injective(x: SocketAddrV4, y: SocketAddrV4)
    requires
        x.spec_rank() == y.spec_rank(),
    ensures
        x == y,
{
}

} // verus!
