//! Reading the compact text of a value gives the value back.

use vstd::prelude::*;
use vstd::utf8::*;
use crate::json::parser::{
    code_unit, has_at, hex_value, is_digit, is_space, parse_escape, parse_items, parse_json,
    parse_members, parse_number, parse_string, parse_string_body, parse_value, prepend, scan_digits,
    skip_spaces, utf8_of,
};
use crate::json::value::{JsonModel, MemberModel};
use crate::json::writer::{
    escaped_byte, escaped_from, items_text, json_text, lemma_number_text_digits, lower_hex_digit,
    member_text, members_text, number_text, string_text,
};

verus! {

/// Where a text stands, each of its bytes stands.
pub proof fn lemma_has_at_index(s: Seq<u8>, pos: int, text: Seq<u8>, i: int)
    requires
        has_at(s, pos, text),
        0 <= i < text.len(),
    ensures
        s[pos + i] == text[i],
{
    assert(s.subrange(pos, pos + text.len())[i] == s[pos + i]);
}

/// Where two texts stand one behind the other, each stands.
pub proof fn lemma_has_at_split(s: Seq<u8>, pos: int, a: Seq<u8>, b: Seq<u8>)
    requires
        has_at(s, pos, a + b),
    ensures
        has_at(s, pos, a),
        has_at(s, pos + a.len(), b),
{
    let whole = a + b;
    assert forall|i: int| 0 <= i < a.len() implies s.subrange(pos, pos + a.len())[i] == a[i] by {
        lemma_has_at_index(s, pos, whole, i);
    }
    assert(s.subrange(pos, pos + a.len()) =~= a);
    assert forall|i: int| 0 <= i < b.len() implies s.subrange(
        pos + a.len(),
        pos + a.len() + b.len(),
    )[i] == b[i] by {
        lemma_has_at_index(s, pos, whole, a.len() + i);
    }
    assert(s.subrange(pos + a.len(), pos + a.len() + b.len()) =~= b);
}

/// Space is skipped up to a place that holds none.
pub proof fn lemma_skip_nothing(s: Seq<u8>, pos: int)
    requires
        0 <= pos <= s.len(),
        pos < s.len() ==> !is_space(s[pos]),
    ensures
        skip_spaces(s, pos) == pos,
{
}

/// The text of a value begins with a byte that is no space and closes
/// neither an array nor an object.
pub proof fn lemma_text_begins(v: JsonModel)
    ensures
        json_text(v).len() > 0,
        !is_space(json_text(v)[0]),
        json_text(v)[0] != 93,
        json_text(v)[0] != 125,
{
    match v {
        JsonModel::Number(n) => {
            lemma_number_text_digits(n as nat);
        },
        _ => {},
    }
}

proof fn lemma_scan_number(s: Seq<u8>, pos: int, n: nat)
    requires
        has_at(s, pos, number_text(n)),
    ensures
        scan_digits(s, pos, 0) == scan_digits(s, pos + number_text(n).len(), n),
    decreases n,
{
    if n < 10 {
        lemma_has_at_index(s, pos, number_text(n), 0);
    } else {
        let init = number_text(n / 10);
        let last = seq![(48 + n % 10) as u8];
        lemma_has_at_split(s, pos, init, last);
        lemma_scan_number(s, pos, n / 10);
        lemma_has_at_index(s, pos + init.len(), last, 0);
    }
}

/// A number is read back from its digits, where no digit follows them.
pub proof fn lemma_read_back_number(s: Seq<u8>, pos: int, n: u64)
    requires
        has_at(s, pos, number_text(n as nat)),
        pos + number_text(n as nat).len() == s.len() || !is_digit(
            s[pos + number_text(n as nat).len()],
        ),
    ensures
        is_digit(s[pos]),
        parse_number(s, pos) == Some((n, pos + number_text(n as nat).len())),
{
    let text = number_text(n as nat);
    lemma_number_text_digits(n as nat);
    lemma_has_at_index(s, pos, text, 0);
    if n == 0 {
    } else {
        lemma_scan_number(s, pos, n as nat);
    }
}

proof fn lemma_hex_digit_value(n: int)
    requires
        0 <= n < 16,
    ensures
        hex_value(lower_hex_digit(n)) == Some(n),
{
}

/// The bytes of a string are read back from what stands for them between
/// the quotes.
pub proof fn lemma_read_back_string_body(s: Seq<u8>, pos: int, bytes: Seq<u8>, k: int)
    requires
        0 <= k <= bytes.len(),
        has_at(s, pos, escaped_from(bytes, k) + seq![34u8]),
    ensures
        parse_string_body(s, pos) == Some(
            (bytes.skip(k), pos + escaped_from(bytes, k).len() + 1),
        ),
    decreases bytes.len() - k,
{
    let quote = seq![34u8];
    if k == bytes.len() {
        assert(escaped_from(bytes, k) + quote =~= quote);
        lemma_has_at_index(s, pos, quote, 0);
        assert(bytes.skip(k) =~= Seq::<u8>::empty());
    } else {
        let b = bytes[k];
        let e = escaped_byte(b);
        let rest = escaped_from(bytes, k + 1);
        assert(escaped_from(bytes, k) + quote =~= e + (rest + quote));
        lemma_has_at_split(s, pos, e, rest + quote);
        lemma_read_back_string_body(s, pos + e.len(), bytes, k + 1);
        let tail = parse_string_body(s, pos + e.len());
        assert(seq![b] + bytes.skip(k + 1) =~= bytes.skip(k));
        lemma_has_at_index(s, pos, e, 0);
        if b == 34 || b == 92 || b == 8 || b == 12 || b == 10 || b == 13 || b == 9 {
            lemma_has_at_index(s, pos, e, 1);
            assert(parse_escape(s, pos + 1) == Some((seq![b], pos + 2)));
        } else if b < 32 {
            lemma_has_at_index(s, pos, e, 1);
            lemma_has_at_index(s, pos, e, 2);
            lemma_has_at_index(s, pos, e, 3);
            lemma_has_at_index(s, pos, e, 4);
            lemma_has_at_index(s, pos, e, 5);
            lemma_hex_digit_value(b as int / 16);
            lemma_hex_digit_value(b as int % 16);
            assert(hex_value(48u8) == Some(0int));
            assert(code_unit(s, pos + 2) == Some(b as int));
            assert(utf8_of(b as int) =~= seq![b]);
            assert(parse_escape(s, pos + 1) == Some((seq![b], pos + 6)));
        } else {
        }
    }
}

/// A string is read back from its text.
pub proof fn lemma_read_back_string(s: Seq<u8>, pos: int, chars: Seq<char>)
    requires
        has_at(s, pos, string_text(chars)),
    ensures
        s[pos] == 34,
        parse_string(s, pos) == Some((chars, pos + string_text(chars).len())),
{
    let bytes = encode_utf8(chars);
    let quote = seq![34u8];
    let inner = escaped_from(bytes, 0) + quote;
    assert(string_text(chars) =~= quote + inner);
    lemma_has_at_split(s, pos, quote, inner);
    lemma_has_at_index(s, pos, quote, 0);
    lemma_read_back_string_body(s, pos + 1, bytes, 0);
    assert(bytes.skip(0) =~= bytes);
    encode_utf8_valid_utf8(chars);
    encode_utf8_decode_utf8(chars);
}

/// A value is read back from its text, where no digit follows the text.
pub proof fn lemma_read_back_value(s: Seq<u8>, pos: int, v: JsonModel)
    requires
        has_at(s, pos, json_text(v)),
        pos + json_text(v).len() == s.len() || !is_digit(s[pos + json_text(v).len()]),
    ensures
        parse_value(s, pos) == Some((v, pos + json_text(v).len())),
    decreases v, 0nat,
{
    let text = json_text(v);
    lemma_text_begins(v);
    lemma_has_at_index(s, pos, text, 0);
    lemma_skip_nothing(s, pos);
    match v {
        JsonModel::Null => {},
        JsonModel::Bool(b) => {},
        JsonModel::Number(n) => {
            lemma_read_back_number(s, pos, n);
        },
        JsonModel::Text(chars) => {
            lemma_read_back_string(s, pos, chars);
        },
        JsonModel::Array(items) => {
            let open = seq![91u8];
            let close = seq![93u8];
            let inner = items_text(items, 0) + close;
            assert(text =~= open + inner);
            lemma_has_at_split(s, pos, open, inner);
            if items.len() == 0 {
                assert(inner =~= close);
                lemma_has_at_index(s, pos + 1, close, 0);
                lemma_skip_nothing(s, pos + 1);
                assert(items =~= Seq::<JsonModel>::empty());
            } else {
                lemma_text_begins(items[0]);
                lemma_items_begin(items, 0);
                lemma_has_at_index(s, pos + 1, inner, 0);
                lemma_skip_nothing(s, pos + 1);
                lemma_read_back_items(s, pos + 1, items, 0);
                assert(items.skip(0) =~= items);
            }
        },
        JsonModel::Object(members) => {
            let open = seq![123u8];
            let close = seq![125u8];
            let inner = members_text(members, 0) + close;
            assert(text =~= open + inner);
            lemma_has_at_split(s, pos, open, inner);
            if members.len() == 0 {
                assert(inner =~= close);
                lemma_has_at_index(s, pos + 1, close, 0);
                lemma_skip_nothing(s, pos + 1);
                assert(members =~= Seq::<MemberModel>::empty());
            } else {
                lemma_members_begin(members, 0);
                lemma_has_at_index(s, pos + 1, inner, 0);
                lemma_skip_nothing(s, pos + 1);
                lemma_read_back_members(s, pos + 1, members, 0);
                assert(members.skip(0) =~= members);
            }
        },
    }
}

/// The text of the items from a place on begins as the text of the first.
proof fn lemma_items_begin(items: Seq<JsonModel>, k: int)
    requires
        0 <= k < items.len(),
    ensures
        items_text(items, k).len() > 0,
        items_text(items, k)[0] == json_text(items[k])[0],
{
    lemma_text_begins(items[k]);
}

/// The text of the members from a place on begins with a quote.
proof fn lemma_members_begin(members: Seq<MemberModel>, k: int)
    requires
        0 <= k < members.len(),
    ensures
        members_text(members, k).len() > 0,
        members_text(members, k)[0] == 34,
{
    let m = members[k];
    let name = string_text(m.name);
    assert(name[0] == 34);
    assert(member_text(m)[0] == name[0]);
}

/// The items of an array are read back from their text and the bracket
/// behind it.
pub proof fn lemma_read_back_items(s: Seq<u8>, pos: int, items: Seq<JsonModel>, k: int)
    requires
        0 <= k < items.len(),
        has_at(s, pos, items_text(items, k) + seq![93u8]),
    ensures
        parse_items(s, pos) == Some((items.skip(k), pos + items_text(items, k).len() + 1)),
    decreases items, items.len() - k,
{
    let close = seq![93u8];
    let first = json_text(items[k]);
    lemma_text_begins(items[k]);
    if k + 1 == items.len() {
        lemma_has_at_split(s, pos, first, close);
        lemma_has_at_index(s, pos + first.len(), close, 0);
        lemma_read_back_value(s, pos, items[k]);
        lemma_skip_nothing(s, pos + first.len());
        assert(items.skip(k) =~= seq![items[k]]);
    } else {
        let comma = seq![44u8];
        let rest = items_text(items, k + 1) + close;
        assert(items_text(items, k) + close =~= first + (comma + rest));
        lemma_has_at_split(s, pos, first, comma + rest);
        lemma_has_at_split(s, pos + first.len(), comma, rest);
        lemma_has_at_index(s, pos + first.len(), comma, 0);
        lemma_read_back_value(s, pos, items[k]);
        lemma_skip_nothing(s, pos + first.len());
        lemma_read_back_items(s, pos + first.len() + 1, items, k + 1);
        assert(seq![items[k]] + items.skip(k + 1) =~= items.skip(k));
    }
}

/// A member is read back from its text, where no digit and no space
/// follows the text: first the name, then the colon, then the value.
pub proof fn lemma_read_back_member(s: Seq<u8>, pos: int, m: MemberModel)
    requires
        has_at(s, pos, member_text(m)),
        pos + member_text(m).len() < s.len(),
        !is_digit(s[pos + member_text(m).len()]),
        !is_space(s[pos + member_text(m).len()]),
    ensures
        skip_spaces(s, pos) == pos,
        s[pos] == 34,
        parse_string(s, pos) == Some((m.name, pos + string_text(m.name).len())),
        string_text(m.name).len() > 0,
        skip_spaces(s, pos + string_text(m.name).len()) == pos + string_text(m.name).len(),
        s[pos + string_text(m.name).len()] == 58,
        parse_value(s, pos + string_text(m.name).len() + 1) == Some(
            (m.value, pos + member_text(m).len()),
        ),
        member_text(m).len() > string_text(m.name).len() + 1,
        skip_spaces(s, pos + member_text(m).len()) == pos + member_text(m).len(),
    decreases m, 0nat,
{
    let colon = seq![58u8];
    let name = string_text(m.name);
    let value = json_text(m.value);
    lemma_text_begins(m.value);
    assert(member_text(m) =~= name + (colon + value));
    lemma_has_at_split(s, pos, name, colon + value);
    lemma_has_at_split(s, pos + name.len(), colon, value);
    lemma_has_at_index(s, pos + name.len(), colon, 0);
    lemma_read_back_string(s, pos, m.name);
    lemma_skip_nothing(s, pos);
    lemma_skip_nothing(s, pos + name.len());
    lemma_read_back_value(s, pos + name.len() + 1, m.value);
    lemma_skip_nothing(s, pos + member_text(m).len());
}

/// The members of an object are read back from their text and the brace
/// behind it.
pub proof fn lemma_read_back_members(s: Seq<u8>, pos: int, members: Seq<MemberModel>, k: int)
    requires
        0 <= k < members.len(),
        has_at(s, pos, members_text(members, k) + seq![125u8]),
    ensures
        parse_members(s, pos) == Some(
            (members.skip(k), pos + members_text(members, k).len() + 1),
        ),
    decreases members, members.len() - k,
{
    let close = seq![125u8];
    let m = members[k];
    let first = member_text(m);
    let name_end = pos + string_text(m.name).len();
    let end = pos + first.len();
    if k + 1 == members.len() {
        lemma_has_at_split(s, pos, first, close);
        lemma_has_at_index(s, end, close, 0);
        lemma_read_back_member(s, pos, m);
        assert(members.skip(k) =~= seq![m]);
        assert(parse_members(s, pos) == Some((seq![m], end + 1)));
    } else {
        let comma = seq![44u8];
        let rest = members_text(members, k + 1) + close;
        assert(members_text(members, k) + close =~= first + (comma + rest));
        lemma_has_at_split(s, pos, first, comma + rest);
        lemma_has_at_split(s, end, comma, rest);
        lemma_has_at_index(s, end, comma, 0);
        lemma_read_back_member(s, pos, m);
        lemma_read_back_members(s, end + 1, members, k + 1);
        assert(seq![m] + members.skip(k + 1) =~= members.skip(k));
        assert(parse_members(s, pos) == prepend(seq![m], parse_members(s, end + 1)));
    }
}

/// Reading the compact text of a value gives the value back.
pub proof fn lemma_parse_json_of_text(v: JsonModel)
    ensures
        parse_json(json_text(v)) == Some(v),
{
    let s = json_text(v);
    assert(s.subrange(0, s.len() as int) =~= s);
    lemma_read_back_value(s, 0, v);
    lemma_skip_nothing(s, s.len() as int);
}

} // verus!
