//! A reader for JSON text. It takes the JSON of RFC 8259 with numbers that
//! are unsigned integers of at most 64 bits: space between tokens, members
//! in any order, and every escape inside strings.

use vstd::prelude::*;
use vstd::utf8::*;
use crate::json::value::{
    Json, JsonModel, Member, MemberModel, lemma_array_view, lemma_object_view, member_models_of,
    models_of,
};
use crate::json::writer::{false_text, null_text, true_text};
use crate::text::string_from_utf8;

verus! {

/// Whether a byte is space between tokens.
pub open spec fn is_space(b: u8) -> bool {
    b == 32 || b == 9 || b == 10 || b == 13
}

/// Whether a byte is a decimal digit.
pub open spec fn is_digit(b: u8) -> bool {
    48 <= b <= 57
}

/// The first place from `pos` on that holds no space.
pub open spec fn skip_spaces(s: Seq<u8>, pos: int) -> int
    decreases s.len() - pos,
{
    if 0 <= pos < s.len() && is_space(s[pos]) {
        skip_spaces(s, pos + 1)
    } else {
        pos
    }
}

/// Whether `text` stands in `s` at `pos`.
pub open spec fn has_at(s: Seq<u8>, pos: int, text: Seq<u8>) -> bool {
    &&& 0 <= pos
    &&& pos + text.len() <= s.len()
    &&& s.subrange(pos, pos + text.len()) == text
}

/// The value of the digits from `pos` on, read behind the value `acc`, and
/// the place behind them.
pub open spec fn scan_digits(s: Seq<u8>, pos: int, acc: nat) -> (nat, int)
    decreases s.len() - pos,
{
    if 0 <= pos < s.len() && is_digit(s[pos]) {
        scan_digits(s, pos + 1, acc * 10 + (s[pos] - 48) as nat)
    } else {
        (acc, pos)
    }
}

/// The number that begins with the digit at `pos`, and the place behind it.
/// A zero stands alone.
pub open spec fn parse_number(s: Seq<u8>, pos: int) -> Option<(u64, int)> {
    if s[pos] == 48 {
        Some((0u64, pos + 1))
    } else if scan_digits(s, pos, 0).0 <= u64::MAX {
        Some((scan_digits(s, pos, 0).0 as u64, scan_digits(s, pos, 0).1))
    } else {
        None
    }
}

/// The value of a hexadecimal digit of either case.
pub open spec fn hex_value(b: u8) -> Option<int> {
    if 48 <= b <= 57 {
        Some(b - 48)
    } else if 97 <= b <= 102 {
        Some(b - 87)
    } else if 65 <= b <= 70 {
        Some(b - 55)
    } else {
        None
    }
}

/// The number that the four hexadecimal digits at `pos` spell.
pub open spec fn code_unit(s: Seq<u8>, pos: int) -> Option<int> {
    if 0 <= pos && pos + 4 <= s.len() && hex_value(s[pos]) is Some && hex_value(s[pos + 1]) is Some
        && hex_value(s[pos + 2]) is Some && hex_value(s[pos + 3]) is Some {
        Some(
            ((hex_value(s[pos])->0 * 16 + hex_value(s[pos + 1])->0) * 16 + hex_value(
                s[pos + 2],
            )->0) * 16 + hex_value(s[pos + 3])->0,
        )
    } else {
        None
    }
}

/// The UTF-8 of a code point.
pub open spec fn utf8_of(cp: int) -> Seq<u8> {
    if cp < 0x80 {
        seq![cp as u8]
    } else if cp < 0x800 {
        seq![(0xC0 + cp / 64) as u8, (0x80 + cp % 64) as u8]
    } else if cp < 0x10000 {
        seq![(0xE0 + cp / 4096) as u8, (0x80 + cp / 64 % 64) as u8, (0x80 + cp % 64) as u8]
    } else {
        seq![
            (0xF0 + cp / 262144) as u8,
            (0x80 + cp / 4096 % 64) as u8,
            (0x80 + cp / 64 % 64) as u8,
            (0x80 + cp % 64) as u8,
        ]
    }
}

/// What the escape stands for whose letter is at `pos`, in UTF-8, and the
/// place behind the escape. A `\u` escape names a code point of the basic
/// plane, or the first half of a pair of surrogates, which the second half
/// has to follow.
pub open spec fn parse_escape(s: Seq<u8>, pos: int) -> Option<(Seq<u8>, int)> {
    if pos < 0 || pos >= s.len() {
        None
    } else if s[pos] == 34 || s[pos] == 92 || s[pos] == 47 {
        Some((seq![s[pos]], pos + 1))
    } else if s[pos] == 98 {
        Some((seq![8u8], pos + 1))
    } else if s[pos] == 102 {
        Some((seq![12u8], pos + 1))
    } else if s[pos] == 110 {
        Some((seq![10u8], pos + 1))
    } else if s[pos] == 114 {
        Some((seq![13u8], pos + 1))
    } else if s[pos] == 116 {
        Some((seq![9u8], pos + 1))
    } else if s[pos] == 117 {
        match code_unit(s, pos + 1) {
            Some(unit) => {
                if 0xD800 <= unit < 0xDC00 {
                    if pos + 7 <= s.len() && s[pos + 5] == 92 && s[pos + 6] == 117 {
                        match code_unit(s, pos + 7) {
                            Some(low) => {
                                if 0xDC00 <= low < 0xE000 {
                                    Some(
                                        (
                                            utf8_of(
                                                0x10000 + (unit - 0xD800) * 0x400 + (low - 0xDC00),
                                            ),
                                            pos + 11,
                                        ),
                                    )
                                } else {
                                    None
                                }
                            },
                            None => None,
                        }
                    } else {
                        None
                    }
                } else if 0xDC00 <= unit < 0xE000 {
                    None
                } else {
                    Some((utf8_of(unit), pos + 5))
                }
            },
            None => None,
        }
    } else {
        None
    }
}

/// `head` before what was read, where something was read.
pub open spec fn prepend<T>(head: Seq<T>, tail: Option<(Seq<T>, int)>) -> Option<(Seq<T>, int)> {
    match tail {
        Some(pair) => Some((head + pair.0, pair.1)),
        None => None,
    }
}

/// What was read, where something was read.
pub open spec fn read_part<T>(r: Option<(Seq<T>, int)>) -> Seq<T> {
    match r {
        Some(pair) => pair.0,
        None => Seq::empty(),
    }
}

/// The bytes of a string from `pos` up to its closing quote, with the
/// escapes resolved, and the place behind the quote. A control character
/// cannot stand in a string unescaped.
pub open spec fn parse_string_body(s: Seq<u8>, pos: int) -> Option<(Seq<u8>, int)>
    decreases s.len() - pos,
{
    if pos < 0 || pos >= s.len() {
        None
    } else if s[pos] == 34 {
        Some((Seq::empty(), pos + 1))
    } else if s[pos] == 92 {
        match parse_escape(s, pos + 1) {
            Some(escape) => {
                if escape.1 > pos {
                    prepend(escape.0, parse_string_body(s, escape.1))
                } else {
                    None
                }
            },
            None => None,
        }
    } else if s[pos] < 32 {
        None
    } else {
        prepend(seq![s[pos]], parse_string_body(s, pos + 1))
    }
}

/// The string whose opening quote is at `pos`, and the place behind it.
/// What stands between the quotes has to be UTF-8.
pub open spec fn parse_string(s: Seq<u8>, pos: int) -> Option<(Seq<char>, int)> {
    match parse_string_body(s, pos + 1) {
        Some(body) => {
            if valid_utf8(body.0) {
                Some((decode_utf8(body.0), body.1))
            } else {
                None
            }
        },
        None => None,
    }
}

/// The value that begins at or behind `pos`, behind space, and the place
/// behind it.
pub open spec fn parse_value(s: Seq<u8>, pos: int) -> Option<(JsonModel, int)>
    decreases s.len() - pos, 0nat,
{
    let p = skip_spaces(s, pos);
    if p < pos || p >= s.len() || pos < 0 {
        None
    } else if s[p] == 110 {
        if has_at(s, p, null_text()) {
            Some((JsonModel::Null, p + 4))
        } else {
            None
        }
    } else if s[p] == 116 {
        if has_at(s, p, true_text()) {
            Some((JsonModel::Bool(true), p + 4))
        } else {
            None
        }
    } else if s[p] == 102 {
        if has_at(s, p, false_text()) {
            Some((JsonModel::Bool(false), p + 5))
        } else {
            None
        }
    } else if is_digit(s[p]) {
        match parse_number(s, p) {
            Some(number) => Some((JsonModel::Number(number.0), number.1)),
            None => None,
        }
    } else if s[p] == 34 {
        match parse_string(s, p) {
            Some(text) => Some((JsonModel::Text(text.0), text.1)),
            None => None,
        }
    } else if s[p] == 91 {
        let q = skip_spaces(s, p + 1);
        if q <= p || q >= s.len() {
            None
        } else if s[q] == 93 {
            Some((JsonModel::Array(Seq::empty()), q + 1))
        } else {
            match parse_items(s, q) {
                Some(items) => Some((JsonModel::Array(items.0), items.1)),
                None => None,
            }
        }
    } else if s[p] == 123 {
        let q = skip_spaces(s, p + 1);
        if q <= p || q >= s.len() {
            None
        } else if s[q] == 125 {
            Some((JsonModel::Object(Seq::empty()), q + 1))
        } else {
            match parse_members(s, q) {
                Some(members) => Some((JsonModel::Object(members.0), members.1)),
                None => None,
            }
        }
    } else {
        None
    }
}

/// The items of an array from `pos` up to its closing bracket, and the
/// place behind the bracket.
pub open spec fn parse_items(s: Seq<u8>, pos: int) -> Option<(Seq<JsonModel>, int)>
    decreases s.len() - pos, 1nat,
{
    match parse_value(s, pos) {
        Some(item) => {
            let r = skip_spaces(s, item.1);
            if item.1 <= pos || r < item.1 || r >= s.len() {
                None
            } else if s[r] == 44 {
                prepend(seq![item.0], parse_items(s, r + 1))
            } else if s[r] == 93 {
                Some((seq![item.0], r + 1))
            } else {
                None
            }
        },
        None => None,
    }
}

/// The members of an object from `pos` up to its closing brace, and the
/// place behind the brace.
pub open spec fn parse_members(s: Seq<u8>, pos: int) -> Option<(Seq<MemberModel>, int)>
    decreases s.len() - pos, 1nat,
{
    let p = skip_spaces(s, pos);
    if pos < 0 || p < pos || p >= s.len() || s[p] != 34 {
        None
    } else {
        match parse_string(s, p) {
            Some(name) => {
                let c = skip_spaces(s, name.1);
                if name.1 <= p || c < name.1 || c >= s.len() || s[c] != 58 {
                    None
                } else {
                    match parse_value(s, c + 1) {
                        Some(value) => {
                            let r = skip_spaces(s, value.1);
                            let member = MemberModel { name: name.0, value: value.0 };
                            if value.1 <= c || r < value.1 || r >= s.len() {
                                None
                            } else if s[r] == 44 {
                                prepend(seq![member], parse_members(s, r + 1))
                            } else if s[r] == 125 {
                                Some((seq![member], r + 1))
                            } else {
                                None
                            }
                        },
                        None => None,
                    }
                }
            },
            None => None,
        }
    }
}

/// The value that `s` spells, with nothing but space around it.
pub open spec fn parse_json(s: Seq<u8>) -> Option<JsonModel> {
    match parse_value(s, 0) {
        Some(value) => {
            if skip_spaces(s, value.1) == s.len() {
                Some(value.0)
            } else {
                None
            }
        },
        None => None,
    }
}

/// Reading digits never lowers the value in hand.
pub proof fn lemma_scan_digits_grows(s: Seq<u8>, pos: int, acc: nat)
    ensures
        scan_digits(s, pos, acc).0 >= acc,
    decreases s.len() - pos,
{
    if 0 <= pos < s.len() && is_digit(s[pos]) {
        lemma_scan_digits_grows(s, pos + 1, acc * 10 + (s[pos] - 48) as nat);
    }
}

fn skip_space(s: &[u8], pos: usize) -> (r: usize)
    requires
        pos <= s.len(),
    ensures
        r == skip_spaces(s@, pos as int),
        pos <= r <= s.len(),
{
    let mut p: usize = pos;
    while p < s.len() && (s[p] == 32 || s[p] == 9 || s[p] == 10 || s[p] == 13)
        invariant
            pos <= p <= s.len(),
            skip_spaces(s@, pos as int) == skip_spaces(s@, p as int),
        decreases s.len() - p,
    {
        p += 1;
    }
    p
}

fn stands_at(s: &[u8], pos: usize, text: &[u8]) -> (r: bool)
    requires
        pos <= s.len(),
    ensures
        r == has_at(s@, pos as int, text@),
{
    if text.len() > s.len() - pos {
        return false;
    }
    let mut i: usize = 0;
    while i < text.len()
        invariant
            i <= text.len(),
            pos + text.len() <= s.len(),
            forall|k: int| 0 <= k < i ==> s@[pos + k] == text@[k],
        decreases text.len() - i,
    {
        if s[pos + i] != text[i] {
            proof {
                assert(s@.subrange(pos as int, pos + text.len())[i as int] == s@[pos + i]);
            }
            return false;
        }
        i += 1;
    }
    proof {
        assert(s@.subrange(pos as int, pos + text.len()) =~= text@);
    }
    true
}

/// Reads the number that begins with the digit at `pos`.
pub fn read_number(s: &[u8], pos: usize) -> (r: Option<(u64, usize)>)
    requires
        pos < s.len(),
        is_digit(s@[pos as int]),
    ensures
        match r {
            Some(number) => parse_number(s@, pos as int) == Some((number.0, number.1 as int))
                && pos < number.1 <= s.len(),
            None => parse_number(s@, pos as int) is None,
        },
{
    if s[pos] == 48 {
        return Some((0, pos + 1));
    }
    let mut acc: u64 = 0;
    let mut p: usize = pos;
    while p < s.len() && 48 <= s[p] && s[p] <= 57
        invariant
            pos <= p <= s.len(),
            p == pos ==> acc == 0,
            p > pos || is_digit(s@[pos as int]),
            s@[pos as int] != 48,
            scan_digits(s@, pos as int, 0) == scan_digits(s@, p as int, acc as nat),
        decreases s.len() - p,
    {
        let d: u64 = (s[p] - 48) as u64;
        if acc > (u64::MAX - d) / 10 {
            proof {
                lemma_scan_digits_grows(s@, p + 1, acc as nat * 10 + d as nat);
            }
            return None;
        }
        acc = acc * 10 + d;
        p += 1;
    }
    Some((acc, p))
}

fn read_hex(b: u8) -> (r: Option<u32>)
    ensures
        match r {
            Some(v) => hex_value(b) == Some(v as int) && v < 16,
            None => hex_value(b) is None,
        },
{
    if 48 <= b && b <= 57 {
        Some((b - 48) as u32)
    } else if 97 <= b && b <= 102 {
        Some((b - 87) as u32)
    } else if 65 <= b && b <= 70 {
        Some((b - 55) as u32)
    } else {
        None
    }
}

fn read_code_unit(s: &[u8], pos: usize) -> (r: Option<u32>)
    requires
        pos <= s.len(),
    ensures
        match r {
            Some(v) => code_unit(s@, pos as int) == Some(v as int) && v < 0x10000 && pos + 4
                <= s.len(),
            None => code_unit(s@, pos as int) is None,
        },
{
    if s.len() - pos < 4 {
        return None;
    }
    let a = read_hex(s[pos]);
    let b = read_hex(s[pos + 1]);
    let c = read_hex(s[pos + 2]);
    let d = read_hex(s[pos + 3]);
    match (a, b, c, d) {
        (Some(a), Some(b), Some(c), Some(d)) => Some(((a * 16 + b) * 16 + c) * 16 + d),
        _ => None,
    }
}

fn push_utf8(out: &mut Vec<u8>, cp: u32)
    requires
        cp < 0x110000,
    ensures
        final(out)@ == old(out)@ + utf8_of(cp as int),
{
    let ghost before = out@;
    if cp < 0x80 {
        out.push(cp as u8);
    } else if cp < 0x800 {
        out.push((0xC0 + cp / 64) as u8);
        out.push((0x80 + cp % 64) as u8);
    } else if cp < 0x10000 {
        out.push((0xE0 + cp / 4096) as u8);
        out.push((0x80 + cp / 64 % 64) as u8);
        out.push((0x80 + cp % 64) as u8);
    } else {
        out.push((0xF0 + cp / 262144) as u8);
        out.push((0x80 + cp / 4096 % 64) as u8);
        out.push((0x80 + cp / 64 % 64) as u8);
        out.push((0x80 + cp % 64) as u8);
    }
    proof {
        assert(out@ =~= before + utf8_of(cp as int));
    }
}

/// Reads the escape whose letter is at `pos` and appends what it stands
/// for. Hands out the place behind the escape.
fn read_escape(s: &[u8], pos: usize, out: &mut Vec<u8>) -> (r: Option<usize>)
    requires
        pos <= s.len(),
    ensures
        match r {
            Some(next) => parse_escape(s@, pos as int) matches Some(escape) && final(out)@ == old(
                out,
            )@ + escape.0 && escape.1 == next && pos < next <= s.len(),
            None => parse_escape(s@, pos as int) is None,
        },
{
    if pos >= s.len() {
        return None;
    }
    let ghost before = out@;
    let b: u8 = s[pos];
    if b == 34 || b == 92 || b == 47 {
        out.push(b);
        Some(pos + 1)
    } else if b == 98 {
        out.push(8);
        Some(pos + 1)
    } else if b == 102 {
        out.push(12);
        Some(pos + 1)
    } else if b == 110 {
        out.push(10);
        Some(pos + 1)
    } else if b == 114 {
        out.push(13);
        Some(pos + 1)
    } else if b == 116 {
        out.push(9);
        Some(pos + 1)
    } else if b == 117 {
        let unit: u32 = match read_code_unit(s, pos + 1) {
            Some(unit) => unit,
            None => {
                return None;
            },
        };
        if 0xD800 <= unit && unit < 0xDC00 {
            if s.len() - pos < 7 || s[pos + 5] != 92 || s[pos + 6] != 117 {
                return None;
            }
            let low: u32 = match read_code_unit(s, pos + 7) {
                Some(low) => low,
                None => {
                    return None;
                },
            };
            if low < 0xDC00 || low >= 0xE000 {
                return None;
            }
            push_utf8(out, 0x10000 + (unit - 0xD800) * 0x400 + (low - 0xDC00));
            Some(pos + 11)
        } else if 0xDC00 <= unit && unit < 0xE000 {
            None
        } else {
            push_utf8(out, unit);
            Some(pos + 5)
        }
    } else {
        None
    }
}

/// Reads the string whose opening quote is at `pos`.
fn read_string(s: &[u8], pos: usize) -> (r: Option<(String, usize)>)
    requires
        pos < s.len(),
    ensures
        match r {
            Some(text) => parse_string(s@, pos as int) == Some((text.0@, text.1 as int)) && pos
                < text.1 <= s.len(),
            None => parse_string(s@, pos as int) is None,
        },
{
    let mut out: Vec<u8> = Vec::new();
    let mut p: usize = pos + 1;
    let ghost whole = parse_string_body(s@, pos + 1);
    proof {
        assert(prepend(out@, parse_string_body(s@, p as int)) =~= whole) by {
            if whole is Some {
                assert(out@ + read_part(whole) =~= read_part(whole));
            }
        }
    }
    loop
        invariant
            pos < p <= s.len(),
            whole == parse_string_body(s@, pos + 1),
            prepend(out@, parse_string_body(s@, p as int)) == whole,
        decreases s.len() - p,
    {
        if p >= s.len() {
            return None;
        }
        let b: u8 = s[p];
        let ghost before = out@;
        if b == 34 {
            proof {
                assert(before + Seq::<u8>::empty() =~= before);
            }
            let end: usize = p + 1;
            return match string_from_utf8(out) {
                Some(text) => Some((text, end)),
                None => None,
            };
        } else if b == 92 {
            match read_escape(s, p + 1, &mut out) {
                Some(next) => {
                    proof {
                        let escape = parse_escape(s@, p + 1)->0;
                        let rest = parse_string_body(s@, next as int);
                        if rest is Some {
                            assert(before + (escape.0 + read_part(rest)) =~= (before + escape.0)
                                + read_part(rest));
                        }
                    }
                    p = next;
                },
                None => {
                    return None;
                },
            }
        } else if b < 32 {
            return None;
        } else {
            out.push(b);
            proof {
                let rest = parse_string_body(s@, p + 1);
                if rest is Some {
                    assert(before + (seq![b] + read_part(rest)) =~= before.push(b) + read_part(rest));
                }
            }
            p += 1;
        }
    }
}

/// Reads the items of an array from `pos` up to its closing bracket.
fn read_items(s: &[u8], pos: usize) -> (r: Option<(Vec<Json>, usize)>)
    requires
        pos <= s.len(),
    ensures
        match r {
            Some(items) => parse_items(s@, pos as int) == Some(
                (models_of(items.0@), items.1 as int),
            ) && pos < items.1 <= s.len(),
            None => parse_items(s@, pos as int) is None,
        },
    decreases s.len() - pos, 1nat,
{
    let ghost whole = parse_items(s@, pos as int);
    let mut items: Vec<Json> = Vec::new();
    let mut at: usize = pos;
    proof {
        assert(models_of(items@) + read_part(whole) =~= read_part(whole));
    }
    loop
        invariant
            pos <= at <= s.len(),
            whole == parse_items(s@, pos as int),
            prepend(models_of(items@), parse_items(s@, at as int)) == whole,
        decreases s.len() - at,
    {
        let ghost before = models_of(items@);
        let item = match read_value(s, at) {
            Some(item) => item,
            None => {
                return None;
            },
        };
        let r: usize = skip_space(s, item.1);
        if r >= s.len() {
            return None;
        }
        let ghost model = item.0@;
        items.push(item.0);
        proof {
            assert(models_of(items@) =~= before.push(model));
        }
        if s[r] == 44 {
            proof {
                let rest = parse_items(s@, r + 1);
                assert(before + (seq![model] + read_part(rest)) =~= before.push(model) + read_part(
                    rest,
                ));
            }
            at = r + 1;
        } else if s[r] == 93 {
            proof {
                assert(before + seq![model] =~= before.push(model));
            }
            return Some((items, r + 1));
        } else {
            return None;
        }
    }
}

/// Reads the members of an object from `pos` up to its closing brace.
fn read_members(s: &[u8], pos: usize) -> (r: Option<(Vec<Member>, usize)>)
    requires
        pos <= s.len(),
    ensures
        match r {
            Some(members) => parse_members(s@, pos as int) == Some(
                (member_models_of(members.0@), members.1 as int),
            ) && pos < members.1 <= s.len(),
            None => parse_members(s@, pos as int) is None,
        },
    decreases s.len() - pos, 1nat,
{
    let ghost whole = parse_members(s@, pos as int);
    let mut members: Vec<Member> = Vec::new();
    let mut at: usize = pos;
    proof {
        assert(member_models_of(members@) + read_part(whole) =~= read_part(whole));
    }
    loop
        invariant
            pos <= at <= s.len(),
            whole == parse_members(s@, pos as int),
            prepend(member_models_of(members@), parse_members(s@, at as int)) == whole,
        decreases s.len() - at,
    {
        let ghost before = member_models_of(members@);
        let n: usize = skip_space(s, at);
        if n >= s.len() || s[n] != 34 {
            return None;
        }
        let name = match read_string(s, n) {
            Some(name) => name,
            None => {
                return None;
            },
        };
        let c: usize = skip_space(s, name.1);
        if c >= s.len() || s[c] != 58 {
            return None;
        }
        let value = match read_value(s, c + 1) {
            Some(value) => value,
            None => {
                return None;
            },
        };
        let r: usize = skip_space(s, value.1);
        if r >= s.len() {
            return None;
        }
        let member = Member { name: name.0, value: value.0 };
        let ghost model = member@;
        members.push(member);
        proof {
            assert(member_models_of(members@) =~= before.push(model));
        }
        if s[r] == 44 {
            proof {
                let rest = parse_members(s@, r + 1);
                assert(before + (seq![model] + read_part(rest)) =~= before.push(model) + read_part(
                    rest,
                ));
            }
            at = r + 1;
        } else if s[r] == 125 {
            proof {
                assert(before + seq![model] =~= before.push(model));
            }
            return Some((members, r + 1));
        } else {
            return None;
        }
    }
}

/// Reads the value that begins at or behind `pos`, behind space.
pub fn read_value(s: &[u8], pos: usize) -> (r: Option<(Json, usize)>)
    requires
        pos <= s.len(),
    ensures
        match r {
            Some(value) => parse_value(s@, pos as int) == Some((value.0@, value.1 as int)) && pos
                < value.1 <= s.len(),
            None => parse_value(s@, pos as int) is None,
        },
    decreases s.len() - pos, 0nat,
{
    let p: usize = skip_space(s, pos);
    if p >= s.len() {
        return None;
    }
    let b: u8 = s[p];
    if b == 110 {
        if stands_at(s, p, &[110u8, 117u8, 108u8, 108u8]) {
            proof {
                assert(null_text() =~= seq![110u8, 117u8, 108u8, 108u8]);
            }
            Some((Json::Null, p + 4))
        } else {
            None
        }
    } else if b == 116 {
        if stands_at(s, p, &[116u8, 114u8, 117u8, 101u8]) {
            Some((Json::Bool(true), p + 4))
        } else {
            None
        }
    } else if b == 102 {
        if stands_at(s, p, &[102u8, 97u8, 108u8, 115u8, 101u8]) {
            Some((Json::Bool(false), p + 5))
        } else {
            None
        }
    } else if 48 <= b && b <= 57 {
        match read_number(s, p) {
            Some(number) => Some((Json::Number(number.0), number.1)),
            None => None,
        }
    } else if b == 34 {
        match read_string(s, p) {
            Some(text) => Some((Json::Text(text.0), text.1)),
            None => None,
        }
    } else if b == 91 {
        let q: usize = skip_space(s, p + 1);
        if q >= s.len() {
            return None;
        }
        if s[q] == 93 {
            let items: Vec<Json> = Vec::new();
            proof {
                lemma_array_view(items);
                assert(models_of(items@) =~= Seq::<JsonModel>::empty());
            }
            return Some((Json::Array(items), q + 1));
        }
        match read_items(s, q) {
            Some(items) => {
                proof {
                    lemma_array_view(items.0);
                }
                Some((Json::Array(items.0), items.1))
            },
            None => None,
        }
    } else if b == 123 {
        let q: usize = skip_space(s, p + 1);
        if q >= s.len() {
            return None;
        }
        if s[q] == 125 {
            let members: Vec<Member> = Vec::new();
            proof {
                lemma_object_view(members);
                assert(member_models_of(members@) =~= Seq::<MemberModel>::empty());
            }
            return Some((Json::Object(members), q + 1));
        }
        match read_members(s, q) {
            Some(members) => {
                proof {
                    lemma_object_view(members.0);
                }
                Some((Json::Object(members.0), members.1))
            },
            None => None,
        }
    } else {
        None
    }
}

/// Reads the value that `text` spells, with nothing but space around it.
pub fn parse(text: &[u8]) -> (r: Option<Json>)
    ensures
        match r {
            Some(j) => parse_json(text@) == Some(j@),
            None => parse_json(text@) is None,
        },
{
    match read_value(text, 0) {
        Some(value) => {
            if skip_space(text, value.1) == text.len() {
                Some(value.0)
            } else {
                None
            }
        },
        None => None,
    }
}

} // verus!
