//! Conversions between byte strings and `String`s.

use vstd::prelude::*;
use vstd::utf8::*;

verus! {

/// The characters whose code points are the given bytes, one for one.
pub open spec fn chars_of_ascii(bytes: Seq<u8>) -> Seq<char> {
    Seq::new(bytes.len(), |i: int| bytes[i] as char)
}

/// Every byte is below 128.
pub open spec fn all_ascii(bytes: Seq<u8>) -> bool {
    forall|i: int| 0 <= i < bytes.len() ==> #[trigger] bytes[i] < 128
}

/// A byte string below 128 throughout is valid UTF-8 and decodes to its own
/// code points.
pub proof fn lemma_ascii_bytes_decode(bytes: Seq<u8>)
    requires
        all_ascii(bytes),
    ensures
        valid_utf8(bytes),
        decode_utf8(bytes) == chars_of_ascii(bytes),
        is_ascii_chars(chars_of_ascii(bytes)),
        encode_utf8(chars_of_ascii(bytes)) == bytes,
{
    let chars = chars_of_ascii(bytes);
    assert(is_ascii_chars(chars)) by {
        assert forall|i: int| 0 <= i < chars.len() implies '\0' <= #[trigger] chars[i]
            <= '\u{7f}' by {
            assert(bytes[i] < 128);
        }
    }
    is_ascii_chars_encode_utf8(chars);
    assert(encode_utf8(chars) =~= bytes) by {
        assert forall|i: int| 0 <= i < bytes.len() implies encode_utf8(chars)[i] == bytes[i] by {
            assert(chars[i] as u8 == encode_utf8(chars)[i]);
            assert(bytes[i] < 128);
        }
    }
    encode_utf8_valid_utf8(chars);
    encode_utf8_decode_utf8(chars);
}

/// `String::from_utf8` of std: the bytes are turned into a `String` exactly
/// when they are valid UTF-8, and the `String` then holds the characters that
/// the bytes encode.
#[verifier::external_body]
pub(crate) fn string_from_utf8(bytes: Vec<u8>) -> (r: Option<String>)
    ensures
        r is Some <==> valid_utf8(bytes@),
        r is Some ==> r->0@ == decode_utf8(bytes@),
{
    String::from_utf8(bytes).ok()
}

/// Builds the `String` spelled by bytes that are all below 128.
pub fn string_from_ascii(bytes: Vec<u8>) -> (r: String)
    requires
        all_ascii(bytes@),
    ensures
        r@ == chars_of_ascii(bytes@),
{
    proof {
        lemma_ascii_bytes_decode(bytes@);
    }
    let r = string_from_utf8(bytes);
    r.unwrap()
}

} // verus!
