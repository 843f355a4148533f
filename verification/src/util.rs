//! Hexadecimal text, digests and signatures.

use vstd::prelude::*;
use vstd::string::*;
use vstd::utf8::*;
use rsa::pkcs1::{FromRsaPublicKey, ToRsaPublicKey};
use rsa::PublicKey;
use sha2::Digest;
use crate::text::{all_ascii, chars_of_ascii, string_from_ascii};

verus! {

/// What can go wrong with keys and signatures.
#[derive(Clone, Copy, Debug, PartialEq, Eq, Structural)]
pub enum CryptoError {
    /// No key pair could be made.
    KeygenFailed,
    /// The key could not sign the digest.
    SigningFailed,
    /// The signature is not one of the key over the data.
    SignatureInvalid,
    /// The key could not encrypt the data.
    EncryptionFailed,
    /// The key could not decrypt the data.
    DecryptionFailed,
}

/// `RsaPrivateKey` of rsa.
#[verifier::external_type_specification]
#[verifier::external_body]
pub struct ExRsaPrivateKey(rsa::RsaPrivateKey);

/// `RsaPublicKey` of rsa.
#[verifier::external_type_specification]
#[verifier::external_body]
pub struct ExRsaPublicKey(rsa::RsaPublicKey);

/// The SHA-256 digest of a byte string.
pub uninterp spec fn sha256_of(data: Seq<u8>) -> Seq<u8>;

/// Whether `signature` is an RSASSA-PKCS1-v1_5 signature, made for a
/// SHA-256 digest, of `digest` under the public key that `public_key_der`
/// spells in PKCS#1 DER. Bytes that spell no key verify nothing.
pub uninterp spec fn rsa_signature_valid(
    public_key_der: Seq<u8>,
    digest: Seq<u8>,
    signature: Seq<u8>,
) -> bool;

/// The RSASSA-PKCS1-v1_5 signature that `private_key` makes of `digest`,
/// taken as a SHA-256 digest, or nothing where the key makes none. No
/// chance goes into it.
pub uninterp spec fn rsa_signature_of(private_key: rsa::RsaPrivateKey, digest: Seq<u8>) -> Option<
    Seq<u8>,
>;

/// The public half of a private key.
pub uninterp spec fn rsa_public_half_of(private_key: rsa::RsaPrivateKey) -> rsa::RsaPublicKey;

/// The PKCS#1 DER of a public key, or nothing where the key has none.
pub uninterp spec fn rsa_public_key_der_of(public_key: rsa::RsaPublicKey) -> Option<Seq<u8>>;

/// The PKCS#1 DER of the public half of a private key.
pub open spec fn public_der_of(private_key: rsa::RsaPrivateKey) -> Option<Seq<u8>> {
    rsa_public_key_der_of(rsa_public_half_of(private_key))
}

/// The signature that `private_key` makes of `digest`, where it makes one
/// and that one holds under the public key that `public_key` spells.
pub open spec fn checked_signature_of(
    private_key: rsa::RsaPrivateKey,
    public_key: Seq<u8>,
    digest: Seq<u8>,
) -> Option<Seq<u8>> {
    match rsa_signature_of(private_key, digest) {
        Some(made) => if rsa_signature_valid(public_key, digest, made) {
            Some(made)
        } else {
            None
        },
        None => None,
    }
}

/// The signature that `private_key` makes of `digest`, where its public
/// half has a DER, it makes a signature, and that one holds under its
/// public half.
pub open spec fn own_signature_of(private_key: rsa::RsaPrivateKey, digest: Seq<u8>) -> Option<
    Seq<u8>,
> {
    match public_der_of(private_key) {
        Some(der) => checked_signature_of(private_key, der, digest),
        None => None,
    }
}

/// What signing comes to, as a result: the signature, or the failure to
/// sign.
pub open spec fn signed(signature: Option<Seq<u8>>, r: Result<Vec<u8>, CryptoError>) -> bool {
    match signature {
        Some(made) => r matches Ok(bytes) && bytes@ == made,
        None => r == Err::<Vec<u8>, CryptoError>(CryptoError::SigningFailed),
    }
}

/// The sixteen lowercase hexadecimal digits, by value.
pub open spec fn hex_alphabet() -> Seq<char> {
    seq!['0', '1', '2', '3', '4', '5', '6', '7', '8', '9', 'a', 'b', 'c', 'd', 'e', 'f']
}

/// Whether `c` is a lowercase hexadecimal digit.
pub open spec fn is_hex_digit(c: char) -> bool {
    ('0' <= c <= '9') || ('a' <= c <= 'f')
}

/// The value of a lowercase hexadecimal digit.
pub open spec fn hex_digit_value(c: char) -> int {
    if '0' <= c <= '9' {
        c as int - '0' as int
    } else {
        c as int - 'a' as int + 10
    }
}

/// Whether `text` spells a byte string: an even number of lowercase
/// hexadecimal digits.
pub open spec fn is_hex(text: Seq<char>) -> bool {
    &&& text.len() % 2 == 0
    &&& forall|i: int| 0 <= i < text.len() ==> is_hex_digit(#[trigger] text[i])
}

/// The lowercase hexadecimal spelling of `bytes`, two digits per byte, the
/// high half first.
pub open spec fn hex_of_bytes(bytes: Seq<u8>) -> Seq<char> {
    Seq::new(
        2 * bytes.len(),
        |i: int|
            if i % 2 == 0 {
                hex_alphabet()[bytes[i / 2] as int / 16]
            } else {
                hex_alphabet()[bytes[i / 2] as int % 16]
            },
    )
}

/// The byte string that `text` spells.
pub open spec fn bytes_of_hex(text: Seq<char>) -> Seq<u8> {
    Seq::new(
        text.len() / 2,
        |i: int| (16 * hex_digit_value(text[2 * i]) + hex_digit_value(text[2 * i + 1])) as u8,
    )
}

/// Reading back a hexadecimal spelling gives the bytes that were spelled.
pub proof fn lemma_hex_round_trip(bytes: Seq<u8>)
    ensures
        is_hex(hex_of_bytes(bytes)),
        bytes_of_hex(hex_of_bytes(bytes)) == bytes,
{
    let text = hex_of_bytes(bytes);
    assert forall|i: int| 0 <= i < text.len() implies is_hex_digit(#[trigger] text[i]) by {
        let b = bytes[i / 2] as int;
        assert(0 <= b / 16 < 16 && 0 <= b % 16 < 16);
    }
    assert forall|i: int| 0 <= i < bytes.len() implies bytes_of_hex(text)[i] == bytes[i] by {
        let b = bytes[i] as int;
        assert(0 <= b / 16 < 16 && 0 <= b % 16 < 16);
        assert((2 * i) / 2 == i && (2 * i + 1) / 2 == i);
        assert(hex_digit_value(text[2 * i]) == b / 16);
        assert(hex_digit_value(text[2 * i + 1]) == b % 16);
    }
    assert(bytes_of_hex(text) =~= bytes);
}

/// Spelling the bytes that a hexadecimal text denotes gives the text back.
pub proof fn lemma_hex_of_bytes_of_hex(text: Seq<char>)
    requires
        is_hex(text),
    ensures
        hex_of_bytes(bytes_of_hex(text)) == text,
{
    let bytes = bytes_of_hex(text);
    assert forall|i: int| 0 <= i < text.len() implies hex_of_bytes(bytes)[i] == text[i] by {
        let k = i / 2;
        let hi = hex_digit_value(text[2 * k]);
        let lo = hex_digit_value(text[2 * k + 1]);
        assert(is_hex_digit(text[2 * k]) && is_hex_digit(text[2 * k + 1]));
        assert(0 <= hi < 16 && 0 <= lo < 16);
        assert(bytes[k] as int == 16 * hi + lo);
        assert((16 * hi + lo) / 16 == hi && (16 * hi + lo) % 16 == lo);
        if i % 2 == 0 {
            assert(i == 2 * k);
            assert(hex_alphabet()[hi] == text[i]);
        } else {
            assert(i == 2 * k + 1);
            assert(hex_alphabet()[lo] == text[i]);
        }
    }
    assert(hex_of_bytes(bytes) =~= text);
}

fn hex_digit_byte(n: u8) -> (r: u8)
    requires
        n < 16,
    ensures
        r < 128,
        r as char == hex_alphabet()[n as int],
{
    if n < 10 {
        48 + n
    } else {
        87 + n
    }
}

/// Spells `xs` in lowercase hexadecimal.
pub fn bytes_to_hex(xs: &[u8]) -> (r: String)
    ensures
        r@ == hex_of_bytes(xs@),
{
    let mut out: Vec<u8> = Vec::new();
    let mut i: usize = 0;
    while i < xs.len()
        invariant
            i <= xs.len(),
            out.len() == 2 * i,
            all_ascii(out@),
            forall|j: int| 0 <= j < out.len() ==> (#[trigger] out[j]) as char == hex_of_bytes(xs@)[j],
        decreases xs.len() - i,
    {
        let x: u8 = xs[i];
        let hi: u8 = hex_digit_byte(x / 16);
        let lo: u8 = hex_digit_byte(x % 16);
        out.push(hi);
        out.push(lo);
        proof {
            assert((2 * i) / 2 == i && (2 * i + 1) / 2 == i);
        }
        i += 1;
    }
    proof {
        assert(chars_of_ascii(out@) =~= hex_of_bytes(xs@));
    }
    string_from_ascii(out)
}

fn hex_value_of_byte(x: u8) -> (r: Option<u8>)
    ensures
        match r {
            Some(v) => is_hex_digit(x as char) && v as int == hex_digit_value(x as char),
            None => !is_hex_digit(x as char),
        },
{
    if 97 <= x && x <= 102 {
        Some(x - 97 + 10)
    } else if 48 <= x && x <= 57 {
        Some(x - 48)
    } else {
        None
    }
}

/// Reads lowercase hexadecimal text: the bytes it spells, or `None` if it
/// spells none.
pub fn decode_hex(xs: &str) -> (r: Option<Vec<u8>>)
    ensures
        match r {
            Some(bytes) => is_hex(xs@) && bytes@ == bytes_of_hex(xs@),
            None => !is_hex(xs@),
        },
{
    if !xs.is_ascii() {
        proof {
            if is_hex(xs@) {
                assert(is_ascii_chars(xs@));
            }
        }
        return None;
    }
    let raw: &[u8] = xs.as_bytes();
    proof {
        is_ascii_chars_encode_utf8(xs@);
    }
    assert(raw@.len() == xs@.len());
    assert(forall|j: int| 0 <= j < raw@.len() ==> xs@[j] as u8 == #[trigger] raw@[j]);
    if raw.len() % 2 != 0 {
        return None;
    }
    let n: usize = raw.len() / 2;
    let mut out: Vec<u8> = Vec::new();
    let mut i: usize = 0;
    while i < n
        invariant
            i <= n,
            2 * n == raw.len(),
            raw@.len() == xs@.len(),
            raw@.len() % 2 == 0,
            is_ascii_chars(xs@),
            forall|j: int| 0 <= j < raw@.len() ==> xs@[j] as u8 == #[trigger] raw@[j],
            out.len() == i,
            forall|j: int| 0 <= j < 2 * i ==> is_hex_digit(#[trigger] xs@[j]),
            forall|j: int| 0 <= j < i ==> #[trigger] out[j] == bytes_of_hex(xs@)[j],
        decreases n - i,
    {
        let hi = hex_value_of_byte(raw[2 * i]);
        let lo = hex_value_of_byte(raw[2 * i + 1]);
        proof {
            let c0 = xs@[2 * i as int];
            let c1 = xs@[2 * i + 1];
            assert(c0 as u8 == raw@[2 * i as int]);
            assert(c1 as u8 == raw@[2 * i + 1]);
            assert('\0' <= c0 <= '\u{7f}' && '\0' <= c1 <= '\u{7f}');
            assert((c0 as u8) as char == c0);
            assert((c1 as u8) as char == c1);
        }
        match (hi, lo) {
            (Some(h), Some(l)) => {
                out.push(h * 16 + l);
                proof {
                    assert forall|j: int| 0 <= j < 2 * (i + 1) implies is_hex_digit(
                        #[trigger] xs@[j],
                    ) by {
                        if j >= 2 * i {
                            assert(j == 2 * i || j == 2 * i + 1);
                        }
                    }
                }
            },
            _ => {
                return None;
            },
        }
        i += 1;
    }
    proof {
        assert(out@ =~= bytes_of_hex(xs@));
    }
    Some(out)
}

/// Reads lowercase hexadecimal text that is known to spell a byte string.
pub fn hex_to_bytes(xs: String) -> (r: Vec<u8>)
    requires
        is_hex(xs@),
    ensures
        r@ == bytes_of_hex(xs@),
{
    let r = decode_hex(xs.as_str());
    r.unwrap()
}

/// `Sha256::digest` of sha2: the digest of `data`, which has 32 bytes.
#[verifier::external_body]
fn sha256_digest(data: &[u8]) -> (r: Vec<u8>)
    ensures
        r@ == sha256_of(data@),
        r@.len() == 32,
{
    sha2::Sha256::digest(data).to_vec()
}

/// `RsaPublicKey::from_pkcs1_der` and `PublicKey::verify` of rsa, with the
/// PKCS#1 v1.5 padding for a SHA-256 digest: whether the key that the bytes
/// spell accepts the signature. Bytes that spell no key give `false`.
#[verifier::external_body]
fn pkcs1v15_verify(public_key_der: &[u8], digest: &[u8], signature: &[u8]) -> (r: bool)
    ensures
        r == rsa_signature_valid(public_key_der@, digest@, signature@),
{
    match rsa::RsaPublicKey::from_pkcs1_der(public_key_der) {
        Ok(key) => {
            let padding = rsa::PaddingScheme::PKCS1v15Sign { hash: Some(rsa::Hash::SHA2_256) };
            key.verify(padding, digest, signature).is_ok()
        },
        Err(_) => false,
    }
}

/// `RsaPublicKey::from` of rsa: the public half of a private key.
#[verifier::external_body]
pub(crate) fn public_half(private_key: &rsa::RsaPrivateKey) -> (r: rsa::RsaPublicKey)
    ensures
        r == rsa_public_half_of(*private_key),
{
    rsa::RsaPublicKey::from(private_key)
}

/// `ToRsaPublicKey::to_pkcs1_der` of rsa: the public key in PKCS#1 DER, or
/// `None` where the key cannot be spelled.
#[verifier::external_body]
pub(crate) fn public_key_to_der(public_key: &rsa::RsaPublicKey) -> (r: Option<Vec<u8>>)
    ensures
        match r {
            Some(der) => rsa_public_key_der_of(*public_key) == Some(der@),
            None => rsa_public_key_der_of(*public_key) is None,
        },
{
    match public_key.to_pkcs1_der() {
        Ok(document) => Some(document.as_der().to_vec()),
        Err(_) => None,
    }
}

/// `RsaPrivateKey::sign` of rsa, with the PKCS#1 v1.5 padding for a SHA-256
/// digest and without a generator: the signature that the key makes of the
/// digest, or `None` where it makes none.
#[verifier::external_body]
fn pkcs1v15_sign(private_key: &rsa::RsaPrivateKey, digest: &[u8]) -> (r: Option<Vec<u8>>)
    ensures
        match r {
            Some(signature) => rsa_signature_of(*private_key, digest@) == Some(signature@),
            None => rsa_signature_of(*private_key, digest@) is None,
        },
{
    let padding = rsa::PaddingScheme::PKCS1v15Sign { hash: Some(rsa::Hash::SHA2_256) };
    private_key.sign(padding, digest).ok()
}

/// The SHA-256 digest of `data`.
pub fn calc_hash(data: &[u8]) -> (r: Vec<u8>)
    ensures
        r@ == sha256_of(data@),
        r@.len() == 32,
{
    sha256_digest(data)
}

/// The SHA-256 digest of `data` followed by `nonce`, in hexadecimal.
pub fn sha256(data: &[u8], nonce: &[u8]) -> (r: String)
    ensures
        r@ == hex_of_bytes(sha256_of(data@ + nonce@)),
        r@.len() == 64,
{
    let mut all: Vec<u8> = Vec::new();
    let mut i: usize = 0;
    while i < data.len()
        invariant
            i <= data.len(),
            all@ == data@.subrange(0, i as int),
        decreases data.len() - i,
    {
        all.push(data[i]);
        i += 1;
    }
    let mut k: usize = 0;
    while k < nonce.len()
        invariant
            k <= nonce.len(),
            all@ == data@ + nonce@.subrange(0, k as int),
        decreases nonce.len() - k,
    {
        all.push(nonce[k]);
        k += 1;
    }
    proof {
        assert(all@ =~= data@ + nonce@);
    }
    let digest = sha256_digest(all.as_slice());
    bytes_to_hex(digest.as_slice())
}

/// What becomes of the outcome of signing `digest`, where the signature is
/// to hold under the public key that `public_key` spells in PKCS#1 DER: a
/// signature that holds is handed on; one that does not, or none, is a
/// failure to sign.
pub fn checked_signature(public_key: &[u8], digest: &[u8], outcome: Option<Vec<u8>>) -> (r: Result<
    Vec<u8>,
    CryptoError,
>)
    ensures
        match outcome {
            Some(signature) => if rsa_signature_valid(public_key@, digest@, signature@) {
                r == Ok::<Vec<u8>, CryptoError>(signature)
            } else {
                r == Err::<Vec<u8>, CryptoError>(CryptoError::SigningFailed)
            },
            None => r == Err::<Vec<u8>, CryptoError>(CryptoError::SigningFailed),
        },
{
    match outcome {
        Some(signature) => {
            if pkcs1v15_verify(public_key, digest, signature.as_slice()) {
                Ok(signature)
            } else {
                Err(CryptoError::SigningFailed)
            }
        },
        None => Err(CryptoError::SigningFailed),
    }
}

/// What becomes of the outcome of a call that gives bytes or nothing: the
/// bytes, or `error` where there are none.
pub fn bytes_or(outcome: Option<Vec<u8>>, error: CryptoError) -> (r: Result<Vec<u8>, CryptoError>)
    ensures
        r == (match outcome {
            Some(bytes) => Ok::<Vec<u8>, CryptoError>(bytes),
            None => Err::<Vec<u8>, CryptoError>(error),
        }),
{
    match outcome {
        Some(bytes) => Ok(bytes),
        None => Err(error),
    }
}

/// Signs the SHA-256 digest of `data` with `private_key` and checks the
/// signature under the public key that `public_key` spells in PKCS#1 DER.
/// The signature that the key makes is handed out where it holds under
/// that key; there is a failure to sign where the key makes none or the
/// one it makes does not hold.
pub fn sign_and_check(private_key: &rsa::RsaPrivateKey, public_key: &[u8], data: &[u8]) -> (r:
    Result<Vec<u8>, CryptoError>)
    ensures
        signed(checked_signature_of(*private_key, public_key@, sha256_of(data@)), r),
{
    let hashed = calc_hash(data);
    let outcome = pkcs1v15_sign(private_key, hashed.as_slice());
    checked_signature(public_key, hashed.as_slice(), outcome)
}

/// Signs the SHA-256 digest of `data` with `private_key`. The signature
/// that the key makes is handed out where it holds under the public half
/// of the key; there is a failure to sign where that half has no DER, the
/// key makes no signature, or the one it makes does not hold.
pub fn sign(private_key: &rsa::RsaPrivateKey, data: &[u8]) -> (r: Result<Vec<u8>, CryptoError>)
    ensures
        signed(own_signature_of(*private_key, sha256_of(data@)), r),
        r matches Ok(signature) ==> public_der_of(*private_key) matches Some(der)
            && rsa_signature_valid(der, sha256_of(data@), signature@),
{
    let public_key = match public_key_to_der(&public_half(private_key)) {
        Some(der) => der,
        None => {
            return Err(CryptoError::SigningFailed);
        },
    };
    sign_and_check(private_key, public_key.as_slice(), data)
}

/// Checks `signature` against the SHA-256 digest of `data` under the public
/// key that `public_key` spells in PKCS#1 DER.
pub fn verify_signature(signature: &[u8], public_key: &[u8], data: &[u8]) -> (r: Result<
    (),
    CryptoError,
>)
    ensures
        r is Ok <==> rsa_signature_valid(public_key@, sha256_of(data@), signature@),
        r matches Err(e) ==> e == CryptoError::SignatureInvalid,
{
    let hashed = calc_hash(data);
    if pkcs1v15_verify(public_key, hashed.as_slice(), signature) {
        Ok(())
    } else {
        Err(CryptoError::SignatureInvalid)
    }
}

} // verus!
