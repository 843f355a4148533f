//! The compact text of a JSON value: no space between tokens, members and
//! items in their order, strings in UTF-8 with the short escapes.

use vstd::prelude::*;
use vstd::string::*;
use vstd::utf8::*;
use crate::json::value::{Json, JsonModel, MemberModel, member_model};

verus! {

/// The lowercase hexadecimal digit of a value below 16.
pub open spec fn lower_hex_digit(n: int) -> u8 {
    if n < 10 {
        (48 + n) as u8
    } else {
        (87 + n) as u8
    }
}

/// How one byte of a string's UTF-8 stands inside the quotes.
pub open spec fn escaped_byte(b: u8) -> Seq<u8> {
    if b == 34 {
        seq![92u8, 34u8]
    } else if b == 92 {
        seq![92u8, 92u8]
    } else if b == 8 {
        seq![92u8, 98u8]
    } else if b == 12 {
        seq![92u8, 102u8]
    } else if b == 10 {
        seq![92u8, 110u8]
    } else if b == 13 {
        seq![92u8, 114u8]
    } else if b == 9 {
        seq![92u8, 116u8]
    } else if b < 32 {
        seq![92u8, 117u8, 48u8, 48u8, lower_hex_digit(b as int / 16), lower_hex_digit(b as int % 16)]
    } else {
        seq![b]
    }
}

/// The bytes from place `from` on, each as it stands inside the quotes.
pub open spec fn escaped_from(bytes: Seq<u8>, from: int) -> Seq<u8>
    decreases bytes.len() - from,
{
    if from < 0 || from >= bytes.len() {
        Seq::empty()
    } else {
        escaped_byte(bytes[from]) + escaped_from(bytes, from + 1)
    }
}

/// A string between quotes.
pub open spec fn string_text(chars: Seq<char>) -> Seq<u8> {
    seq![34u8] + escaped_from(encode_utf8(chars), 0) + seq![34u8]
}

/// A number in decimal, without leading zeros.
pub open spec fn number_text(n: nat) -> Seq<u8>
    decreases n,
{
    if n < 10 {
        seq![(48 + n) as u8]
    } else {
        number_text(n / 10) + seq![(48 + n % 10) as u8]
    }
}

/// A number in decimal is digits, the first of which is no zero unless
/// the number is zero.
pub proof fn lemma_number_text_digits(n: nat)
    ensures
        number_text(n).len() >= 1,
        forall|i: int| 0 <= i < number_text(n).len() ==> 48 <= #[trigger] number_text(n)[i] <= 57,
        n > 0 ==> number_text(n)[0] != 48,
    decreases n,
{
    if n >= 10 {
        lemma_number_text_digits(n / 10);
    }
}

/// `null`.
pub open spec fn null_text() -> Seq<u8> {
    seq![110u8, 117u8, 108u8, 108u8]
}

/// `true`.
pub open spec fn true_text() -> Seq<u8> {
    seq![116u8, 114u8, 117u8, 101u8]
}

/// `false`.
pub open spec fn false_text() -> Seq<u8> {
    seq![102u8, 97u8, 108u8, 115u8, 101u8]
}

/// The compact text of a value.
pub open spec fn json_text(j: JsonModel) -> Seq<u8>
    decreases j, 0nat,
{
    match j {
        JsonModel::Null => null_text(),
        JsonModel::Bool(b) => if b {
            true_text()
        } else {
            false_text()
        },
        JsonModel::Number(n) => number_text(n as nat),
        JsonModel::Text(s) => string_text(s),
        JsonModel::Array(items) => seq![91u8] + items_text(items, 0) + seq![93u8],
        JsonModel::Object(members) => seq![123u8] + members_text(members, 0) + seq![125u8],
    }
}

/// The items from place `from` on, with a comma between neighbours.
pub open spec fn items_text(items: Seq<JsonModel>, from: int) -> Seq<u8>
    decreases items, items.len() - from,
{
    if from < 0 || from >= items.len() {
        Seq::empty()
    } else if from + 1 == items.len() {
        json_text(items[from])
    } else {
        json_text(items[from]) + seq![44u8] + items_text(items, from + 1)
    }
}

/// One member: its name, a colon, its value.
pub open spec fn member_text(m: MemberModel) -> Seq<u8>
    decreases m, 0nat,
{
    string_text(m.name) + seq![58u8] + json_text(m.value)
}

/// The members from place `from` on, with a comma between neighbours.
pub open spec fn members_text(members: Seq<MemberModel>, from: int) -> Seq<u8>
    decreases members, members.len() - from,
{
    if from < 0 || from >= members.len() {
        Seq::empty()
    } else if from + 1 == members.len() {
        member_text(members[from])
    } else {
        member_text(members[from]) + seq![44u8] + members_text(members, from + 1)
    }
}

fn hex_byte(n: u8) -> (r: u8)
    requires
        n < 16,
    ensures
        r == lower_hex_digit(n as int),
{
    if n < 10 {
        48 + n
    } else {
        87 + n
    }
}

fn write_escaped_byte(b: u8, out: &mut Vec<u8>)
    ensures
        final(out)@ == old(out)@ + escaped_byte(b),
{
    let ghost before = out@;
    if b == 34 {
        out.push(92);
        out.push(34);
    } else if b == 92 {
        out.push(92);
        out.push(92);
    } else if b == 8 {
        out.push(92);
        out.push(98);
    } else if b == 12 {
        out.push(92);
        out.push(102);
    } else if b == 10 {
        out.push(92);
        out.push(110);
    } else if b == 13 {
        out.push(92);
        out.push(114);
    } else if b == 9 {
        out.push(92);
        out.push(116);
    } else if b < 32 {
        out.push(92);
        out.push(117);
        out.push(48);
        out.push(48);
        out.push(hex_byte(b / 16));
        out.push(hex_byte(b % 16));
    } else {
        out.push(b);
    }
    proof {
        assert(out@ =~= before + escaped_byte(b));
    }
}

/// Appends `text` between quotes.
pub fn write_string(text: &str, out: &mut Vec<u8>)
    ensures
        final(out)@ == old(out)@ + string_text(text@),
{
    let ghost before = out@;
    let bytes: &[u8] = text.as_bytes();
    out.push(34);
    let mut i: usize = 0;
    while i < bytes.len()
        invariant
            i <= bytes.len(),
            bytes@ == encode_utf8(text@),
            out@ + escaped_from(bytes@, i as int) == before + seq![34u8] + escaped_from(bytes@, 0),
        decreases bytes.len() - i,
    {
        let ghost prev = out@;
        write_escaped_byte(bytes[i], out);
        proof {
            assert(out@ + escaped_from(bytes@, i + 1) =~= prev + escaped_from(bytes@, i as int));
        }
        i += 1;
    }
    out.push(34);
    proof {
        assert(escaped_from(bytes@, i as int) =~= Seq::<u8>::empty());
        assert(out@ =~= before + string_text(text@));
    }
}

/// Appends `n` in decimal.
pub fn write_number(n: u64, out: &mut Vec<u8>)
    ensures
        final(out)@ == old(out)@ + number_text(n as nat),
    decreases n,
{
    let ghost before = out@;
    if n >= 10 {
        write_number(n / 10, out);
    }
    out.push(48 + (n % 10) as u8);
    proof {
        assert(out@ =~= before + number_text(n as nat));
    }
}

fn write_bytes(text: &[u8], out: &mut Vec<u8>)
    ensures
        final(out)@ == old(out)@ + text@,
{
    let ghost before = out@;
    let mut i: usize = 0;
    while i < text.len()
        invariant
            i <= text.len(),
            out@ == before + text@.subrange(0, i as int),
        decreases text.len() - i,
    {
        out.push(text[i]);
        proof {
            assert(out@ =~= before + text@.subrange(0, i + 1));
        }
        i += 1;
    }
    proof {
        assert(text@.subrange(0, i as int) =~= text@);
    }
}

/// Appends the compact text of `j`.
pub fn write_json(j: &Json, out: &mut Vec<u8>)
    ensures
        final(out)@ == old(out)@ + json_text(j@),
    decreases j,
{
    let ghost before = out@;
    match j {
        Json::Null => {
            write_bytes(&[110u8, 117u8, 108u8, 108u8], out);
            proof {
                assert(out@ =~= before + null_text());
            }
        },
        Json::Bool(b) => {
            if *b {
                write_bytes(&[116u8, 114u8, 117u8, 101u8], out);
                proof {
                    assert(out@ =~= before + true_text());
                }
            } else {
                write_bytes(&[102u8, 97u8, 108u8, 115u8, 101u8], out);
                proof {
                    assert(out@ =~= before + false_text());
                }
            }
        },
        Json::Number(n) => {
            write_number(*n, out);
        },
        Json::Text(s) => {
            write_string(s.as_str(), out);
        },
        Json::Array(items) => {
            let ghost models = j@->Array_0;
            out.push(91);
            let mut i: usize = 0;
            while i < items.len()
                invariant
                    i <= items.len(),
                    *j == Json::Array(*items),
                    models.len() == items.len(),
                    forall|k: int| 0 <= k < items.len() ==> models[k] == items[k]@,
                    out@ + items_text(models, i as int) == before + seq![91u8] + items_text(
                        models,
                        0,
                    ),
                decreases items.len() - i,
            {
                let ghost prev = out@;
                proof {
                    assert(decreases_to!(*j => (*j)->Array_0));
                    assert(decreases_to!(items => items[i as int]));
                }
                write_json(&items[i], out);
                if i + 1 < items.len() {
                    out.push(44);
                }
                proof {
                    assert(out@ + items_text(models, i + 1) =~= prev + items_text(
                        models,
                        i as int,
                    ));
                }
                i += 1;
            }
            out.push(93);
            proof {
                assert(items_text(models, i as int) =~= Seq::<u8>::empty());
                assert(out@ =~= before + json_text(j@));
            }
        },
        Json::Object(members) => {
            let ghost models = j@->Object_0;
            out.push(123);
            let mut i: usize = 0;
            while i < members.len()
                invariant
                    i <= members.len(),
                    *j == Json::Object(*members),
                    models.len() == members.len(),
                    forall|k: int| 0 <= k < members.len() ==> models[k] == members[k]@,
                    out@ + members_text(models, i as int) == before + seq![123u8] + members_text(
                        models,
                        0,
                    ),
                decreases members.len() - i,
            {
                let ghost prev = out@;
                proof {
                    assert(decreases_to!(*j => (*j)->Object_0));
                    assert(decreases_to!(members => members[i as int]));
                    assert(decreases_to!(members[i as int] => members[i as int].value));
                }
                write_string(members[i].name.as_str(), out);
                out.push(58);
                write_json(&members[i].value, out);
                if i + 1 < members.len() {
                    out.push(44);
                }
                proof {
                    assert(models[i as int] == member_model(members[i as int]));
                    assert(member_text(models[i as int]) == string_text(members[i as int].name@)
                        + seq![58u8] + json_text(members[i as int].value@));
                    assert(out@ + members_text(models, i + 1) =~= prev + members_text(
                        models,
                        i as int,
                    ));
                }
                i += 1;
            }
            out.push(125);
            proof {
                assert(members_text(models, i as int) =~= Seq::<u8>::empty());
                assert(out@ =~= before + json_text(j@));
            }
        },
    }
}

/// The compact text of `j`.
pub fn to_text(j: &Json) -> (r: Vec<u8>)
    ensures
        r@ == json_text(j@),
{
    let mut out: Vec<u8> = Vec::new();
    write_json(j, &mut out);
    proof {
        assert(out@ =~= json_text(j@));
    }
    out
}

} // verus!
