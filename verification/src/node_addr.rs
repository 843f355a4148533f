//! The address at which a node listens: an IPv4 address and a port, spelled
//! `a.b.c.d:port`.

use vstd::prelude::*;
use vstd::arithmetic::div_mod::lemma_fundamental_div_mod_converse;
use vstd::string::*;
use vstd::utf8::*;
use crate::json::parser::{has_at, is_digit, parse_number, read_number};
use crate::json::round_trip::{lemma_has_at_index, lemma_has_at_split, lemma_read_back_number};
use crate::json::writer::{lemma_number_text_digits, number_text, write_number};
use crate::timestamp::bytes_of_ascii;
use crate::structure::Structure;
use crate::text::{all_ascii, chars_of_ascii, string_from_ascii};

verus! {

/// An IPv4 address, as one number with the first part highest, and a port.
#[derive(Clone, Copy, Debug, PartialEq, Eq, Structural, Hash)]
pub struct NodeAddr {
    pub ip: u32,
    pub port: u16,
}

impl View for NodeAddr {
    type V = NodeAddr;

    open spec fn view(&self) -> NodeAddr {
        *self
    }
}

impl Structure for NodeAddr {
    fn same(&self, other: &NodeAddr) -> (r: bool) {
        self.ip == other.ip && self.port == other.port
    }

    fn duplicate(&self) -> (r: NodeAddr) {
        *self
    }
}

/// The four parts of the address, the first part first.
pub open spec fn ip_parts(ip: u32) -> Seq<nat> {
    seq![
        (ip / 0x100_0000) as nat,
        (ip / 0x1_0000 % 256) as nat,
        (ip / 0x100 % 256) as nat,
        (ip % 256) as nat,
    ]
}

/// `a.b.c.d:port` in decimal, as ASCII bytes.
pub open spec fn node_addr_bytes(addr: NodeAddr) -> Seq<u8> {
    number_text(ip_parts(addr.ip)[0]) + seq![46u8] + number_text(ip_parts(addr.ip)[1]) + seq![46u8]
        + number_text(ip_parts(addr.ip)[2]) + seq![46u8] + number_text(ip_parts(addr.ip)[3])
        + seq![58u8] + number_text(addr.port as nat)
}

/// The number of at most `max` that begins at `pos`, and the place behind
/// it.
pub open spec fn part_at(s: Seq<u8>, pos: int, max: int) -> Option<(u64, int)> {
    if 0 <= pos < s.len() && is_digit(s[pos]) {
        match parse_number(s, pos) {
            Some(number) => if number.0 <= max {
                Some(number)
            } else {
                None
            },
            None => None,
        }
    } else {
        None
    }
}

/// The number of at most 255 that begins at `pos` and is followed by
/// `mark`, and the place behind the mark.
pub open spec fn marked_part_at(s: Seq<u8>, pos: int, mark: u8) -> Option<(u64, int)> {
    match part_at(s, pos, 255) {
        Some(number) => if number.1 < s.len() && s[number.1] == mark {
            Some((number.0, number.1 + 1))
        } else {
            None
        },
        None => None,
    }
}

/// The address with the parts `a`, `b`, `c` and `d`, where the port stands
/// at `pos` and the text ends behind it.
pub open spec fn addr_with_port_at(s: Seq<u8>, a: u64, b: u64, c: u64, d: u64, pos: int) -> Option<
    NodeAddr,
> {
    match part_at(s, pos, 65535) {
        Some(port) => if port.1 == s.len() {
            Some(
                NodeAddr {
                    ip: (a * 0x100_0000 + b * 0x1_0000 + c * 0x100 + d) as u32,
                    port: port.0 as u16,
                },
            )
        } else {
            None
        },
        None => None,
    }
}

/// The address with the parts `a`, `b` and `c`, where the last part stands
/// at `pos`.
pub open spec fn addr_with_last_at(s: Seq<u8>, a: u64, b: u64, c: u64, pos: int) -> Option<
    NodeAddr,
> {
    match marked_part_at(s, pos, 58) {
        Some(d) => addr_with_port_at(s, a, b, c, d.0, d.1),
        None => None,
    }
}

/// The address with the parts `a` and `b`, where the third part stands at
/// `pos`.
pub open spec fn addr_with_third_at(s: Seq<u8>, a: u64, b: u64, pos: int) -> Option<NodeAddr> {
    match marked_part_at(s, pos, 46) {
        Some(c) => addr_with_last_at(s, a, b, c.0, c.1),
        None => None,
    }
}

/// The address with the part `a`, where the second part stands at `pos`.
pub open spec fn addr_with_second_at(s: Seq<u8>, a: u64, pos: int) -> Option<NodeAddr> {
    match marked_part_at(s, pos, 46) {
        Some(b) => addr_with_third_at(s, a, b.0, b.1),
        None => None,
    }
}

/// The address that the ASCII bytes `s` spell, if they spell one: four
/// parts of at most 255 with points between them, a colon, and a port of at
/// most 65535, each in decimal without leading zeros.
pub open spec fn node_addr_of_bytes(s: Seq<u8>) -> Option<NodeAddr> {
    match marked_part_at(s, 0, 46) {
        Some(a) => addr_with_second_at(s, a.0, a.1),
        None => None,
    }
}

/// The address that `text` spells, if it spells one.
pub open spec fn node_addr_of_text(text: Seq<char>) -> Option<NodeAddr> {
    if is_ascii_chars(text) {
        node_addr_of_bytes(bytes_of_ascii(text))
    } else {
        None
    }
}

fn read_part(s: &[u8], pos: usize, max: u64) -> (r: Option<(u64, usize)>)
    requires
        pos <= s.len(),
    ensures
        match r {
            Some(number) => part_at(s@, pos as int, max as int) == Some(
                (number.0, number.1 as int),
            ) && pos < number.1 <= s.len() && number.0 <= max,
            None => part_at(s@, pos as int, max as int) is None,
        },
{
    if pos >= s.len() || s[pos] < 48 || s[pos] > 57 {
        return None;
    }
    match read_number(s, pos) {
        Some(number) => if number.0 <= max {
            Some(number)
        } else {
            None
        },
        None => None,
    }
}

fn read_marked_part(s: &[u8], pos: usize, mark: u8) -> (r: Option<(u64, usize)>)
    requires
        pos <= s.len(),
    ensures
        match r {
            Some(number) => marked_part_at(s@, pos as int, mark) == Some(
                (number.0, number.1 as int),
            ) && pos < number.1 <= s.len() && number.0 <= 255,
            None => marked_part_at(s@, pos as int, mark) is None,
        },
{
    match read_part(s, pos, 255) {
        Some(number) => if number.1 < s.len() && s[number.1] == mark {
            Some((number.0, number.1 + 1))
        } else {
            None
        },
        None => None,
    }
}

impl NodeAddr {
    /// Reads `a.b.c.d:port`.
    pub fn parse(text: &str) -> (r: Option<NodeAddr>)
        ensures
            r == node_addr_of_text(text@),
    {
        if !text.is_ascii() {
            return None;
        }
        let s: &[u8] = text.as_bytes();
        proof {
            is_ascii_chars_encode_utf8(text@);
            assert(s@ =~= bytes_of_ascii(text@));
        }
        let a = match read_marked_part(s, 0, 46) {
            Some(a) => a,
            None => {
                return None;
            },
        };
        let b = match read_marked_part(s, a.1, 46) {
            Some(b) => b,
            None => {
                return None;
            },
        };
        let c = match read_marked_part(s, b.1, 46) {
            Some(c) => c,
            None => {
                return None;
            },
        };
        let d = match read_marked_part(s, c.1, 58) {
            Some(d) => d,
            None => {
                return None;
            },
        };
        let port = match read_part(s, d.1, 65535) {
            Some(port) => port,
            None => {
                return None;
            },
        };
        if port.1 != s.len() {
            return None;
        }
        Some(
            NodeAddr {
                ip: (a.0 * 0x100_0000 + b.0 * 0x1_0000 + c.0 * 0x100 + d.0) as u32,
                port: port.0 as u16,
            },
        )
    }

    pub fn new(ip: u32, port: u16) -> (r: NodeAddr)
        ensures
            r == (NodeAddr { ip, port }),
    {
        NodeAddr { ip, port }
    }

    /// The address with the parts `a.b.c.d`.
    pub fn from_parts(a: u8, b: u8, c: u8, d: u8, port: u16) -> (r: NodeAddr)
        ensures
            r.port == port,
            ip_parts(r.ip) == seq![a as nat, b as nat, c as nat, d as nat],
    {
        let ip: u32 = a as u32 * 0x100_0000 + b as u32 * 0x1_0000 + c as u32 * 0x100 + d as u32;
        proof {
            let low3 = b as int * 0x1_0000 + c as int * 0x100 + d as int;
            let low2 = c as int * 0x100 + d as int;
            let high2 = a as int * 0x100 + b as int;
            let high3 = high2 * 0x100 + c as int;
            lemma_fundamental_div_mod_converse(ip as int, 0x100_0000, a as int, low3);
            lemma_fundamental_div_mod_converse(ip as int, 0x1_0000, high2, low2);
            lemma_fundamental_div_mod_converse(high2, 256, a as int, b as int);
            lemma_fundamental_div_mod_converse(ip as int, 0x100, high3, d as int);
            lemma_fundamental_div_mod_converse(high3, 256, high2, c as int);
            assert(ip_parts(ip) =~= seq![a as nat, b as nat, c as nat, d as nat]);
        }
        NodeAddr { ip, port }
    }

    /// `a.b.c.d:port`.
    pub open spec fn text(self) -> Seq<char> {
        chars_of_ascii(node_addr_bytes(self))
    }

    /// `a.b.c.d:port`.
    pub fn to_text(&self) -> (r: String)
        ensures
            r@ == self.text(),
    {
        let ip: u32 = self.ip;
        let mut out: Vec<u8> = Vec::new();
        write_number((ip / 0x100_0000) as u64, &mut out);
        out.push(46);
        write_number((ip / 0x1_0000 % 256) as u64, &mut out);
        out.push(46);
        write_number((ip / 0x100 % 256) as u64, &mut out);
        out.push(46);
        write_number((ip % 256) as u64, &mut out);
        out.push(58);
        write_number(self.port as u64, &mut out);
        proof {
            assert(out@ =~= node_addr_bytes(*self));
            lemma_node_addr_ascii(*self);
        }
        string_from_ascii(out)
    }
}

/// The spelling of an address is ASCII.
pub proof fn lemma_node_addr_ascii(addr: NodeAddr)
    ensures
        all_ascii(node_addr_bytes(addr)),
{
    let p = ip_parts(addr.ip);
    lemma_number_text_digits(p[0]);
    lemma_number_text_digits(p[1]);
    lemma_number_text_digits(p[2]);
    lemma_number_text_digits(p[3]);
    lemma_number_text_digits(addr.port as nat);
    let a = number_text(p[0]);
    let b = number_text(p[1]);
    let c = number_text(p[2]);
    let d = number_text(p[3]);
    let e = number_text(addr.port as nat);
    let s = node_addr_bytes(addr);
    assert forall|i: int| 0 <= i < s.len() implies #[trigger] s[i] < 128 by {
        let la = a.len() as int;
        let lb = b.len() as int;
        let lc = c.len() as int;
        let ld = d.len() as int;
        if i < la {
            assert(s[i] == a[i]);
        } else if i == la {
        } else if i < la + 1 + lb {
            assert(s[i] == b[i - la - 1]);
        } else if i == la + 1 + lb {
        } else if i < la + lb + lc + 2 {
            assert(s[i] == c[i - la - lb - 2]);
        } else if i == la + lb + lc + 2 {
        } else if i < la + lb + lc + ld + 3 {
            assert(s[i] == d[i - la - lb - lc - 3]);
        } else if i == la + lb + lc + ld + 3 {
        } else {
            assert(s[i] == e[i - la - lb - lc - ld - 4]);
        }
    }
}

/// A part is read back from its digits and the mark behind them.
proof fn lemma_read_back_marked_part(s: Seq<u8>, pos: int, n: nat, mark: u8, rest: Seq<u8>)
    requires
        n <= 255,
        !is_digit(mark),
        has_at(s, pos, number_text(n) + (seq![mark] + rest)),
    ensures
        marked_part_at(s, pos, mark) == Some((n as u64, pos + number_text(n).len() + 1)),
        has_at(s, pos + number_text(n).len() + 1, rest),
{
    let digits = number_text(n);
    lemma_has_at_split(s, pos, digits, seq![mark] + rest);
    lemma_has_at_split(s, pos + digits.len(), seq![mark], rest);
    lemma_has_at_index(s, pos + digits.len(), seq![mark], 0);
    lemma_read_back_number(s, pos, n as u64);
}

/// The four parts of an address are at most 255 each and make it up.
proof fn lemma_ip_parts(ip: u32)
    ensures
        ip_parts(ip)[0] <= 255,
        ip_parts(ip)[1] <= 255,
        ip_parts(ip)[2] <= 255,
        ip_parts(ip)[3] <= 255,
        ip == ip_parts(ip)[0] * 0x100_0000 + ip_parts(ip)[1] * 0x1_0000 + ip_parts(ip)[2] * 0x100
            + ip_parts(ip)[3],
{
    let x = ip as int;
    let hi = x / 0x1_0000;
    let lo = x % 0x1_0000;
    assert(x == hi * 0x1_0000 + lo);
    assert(hi == (hi / 256) * 256 + hi % 256);
    assert(lo == (lo / 256) * 256 + lo % 256);
    assert(hi / 256 == x / 0x100_0000);
    assert(lo / 256 == x / 0x100 % 256);
    assert(lo % 256 == x % 256);
}

/// The four parts and the port are read back from text in which they
/// stand one behind the other.
proof fn lemma_read_back_parts(s: Seq<u8>, a: nat, b: nat, c: nat, d: nat, port: nat)
    requires
        a <= 255,
        b <= 255,
        c <= 255,
        d <= 255,
        port <= 65535,
        s == number_text(a) + (seq![46u8] + (number_text(b) + (seq![46u8] + (number_text(c) + (
        seq![46u8] + (number_text(d) + (seq![58u8] + number_text(port)))))))),
    ensures
        node_addr_of_bytes(s) == Some(
            NodeAddr {
                ip: (a * 0x100_0000 + b * 0x1_0000 + c * 0x100 + d) as u32,
                port: port as u16,
            },
        ),
{
    let e = number_text(port);
    let rest_c = number_text(d) + (seq![58u8] + e);
    let rest_b = number_text(c) + (seq![46u8] + rest_c);
    let rest_a = number_text(b) + (seq![46u8] + rest_b);
    let pa = number_text(a).len() as int + 1;
    let pb = pa + number_text(b).len() + 1;
    let pc = pb + number_text(c).len() + 1;
    let pd = pc + number_text(d).len() + 1;
    let found = NodeAddr {
        ip: (a * 0x100_0000 + b * 0x1_0000 + c * 0x100 + d) as u32,
        port: port as u16,
    };
    assert(s.subrange(0, s.len() as int) =~= s);
    lemma_read_back_marked_part(s, 0, a, 46, rest_a);
    lemma_read_back_marked_part(s, pa, b, 46, rest_b);
    lemma_read_back_marked_part(s, pb, c, 46, rest_c);
    lemma_read_back_marked_part(s, pc, d, 58, e);
    assert(addr_with_port_at(s, a as u64, b as u64, c as u64, d as u64, pd) == Some(found)) by {
        assert(pd + e.len() == s.len());
        lemma_read_back_number(s, pd, port as u64);
    }
    assert(addr_with_last_at(s, a as u64, b as u64, c as u64, pc) == Some(found));
    assert(addr_with_third_at(s, a as u64, b as u64, pb) == Some(found));
    assert(addr_with_second_at(s, a as u64, pa) == Some(found));
}

/// Reading the spelling of an address gives the address back.
pub proof fn lemma_node_addr_round_trip(addr: NodeAddr)
    ensures
        is_ascii_chars(addr.text()),
        node_addr_of_text(addr.text()) == Some(addr),
{
    let s = node_addr_bytes(addr);
    let p = ip_parts(addr.ip);
    lemma_node_addr_ascii(addr);
    assert(bytes_of_ascii(addr.text()) =~= s);
    assert(is_ascii_chars(addr.text())) by {
        assert forall|i: int| 0 <= i < addr.text().len() implies '\0' <= #[trigger] addr.text()[i]
            <= '\u{7f}' by {
            assert(s[i] < 128);
        }
    }
    lemma_ip_parts(addr.ip);
    assert(s =~= number_text(p[0]) + (seq![46u8] + (number_text(p[1]) + (seq![46u8] + (number_text(
        p[2],
    ) + (seq![46u8] + (number_text(p[3]) + (seq![58u8] + number_text(addr.port as nat)))))))));
    lemma_read_back_parts(s, p[0], p[1], p[2], p[3], addr.port as nat);
}

} // verus!
