//! A node's RSA key pair. The address of a node is its public key.

use vstd::prelude::*;
use rand::rngs::OsRng;
use rsa::PublicKey;
use crate::blockchain::transaction::Address;
use crate::util::{
    CryptoError, bytes_of_hex, bytes_or, bytes_to_hex, checked_signature_of, hex_of_bytes, is_hex,
    lemma_hex_round_trip, public_der_of, public_half, public_key_to_der, rsa_public_half_of,
    rsa_signature_valid, sha256_of, sign_and_check, signed, verify_signature,
};

verus! {

/// `OsRng` of rand: the random number generator of the operating system.
#[verifier::external_type_specification]
#[verifier::external_body]
pub struct ExOsRng(OsRng);

/// The number of bits of a node's key.
pub const KEY_BITS: usize = 2048;

/// The number of bytes that the modulus of a node's key takes.
pub const KEY_BYTES: usize = 256;

/// The least number of bytes of a modulus that the PKCS#1 v1.5 padding has
/// room in.
pub const PADDING_BYTES: usize = 11;

/// A 2048-bit RSA key pair, with the public key also in PKCS#1 DER and as
/// the address that spells it.
pub struct KeyManager {
    private_key: rsa::RsaPrivateKey,
    public_key: rsa::RsaPublicKey,
    public_key_der: Vec<u8>,
    address: Address,
    rng: OsRng,
}

/// How many bits the modulus of a private key has.
pub uninterp spec fn rsa_modulus_bits_of(private_key: rsa::RsaPrivateKey) -> nat;

/// How many bytes the modulus of a public key takes.
pub uninterp spec fn rsa_modulus_size_of(public_key: rsa::RsaPublicKey) -> nat;

/// `RsaPrivateKey::new` of rsa: a fresh key, or `None` where none could be
/// made. The key depends on the generator; what is claimed of it is that
/// its modulus has exactly the `bits` bits that were asked for.
#[verifier::external_body]
fn generate_private_key(rng: &mut OsRng, bits: usize) -> (r: Option<rsa::RsaPrivateKey>)
    ensures
        r matches Some(key) ==> rsa_modulus_bits_of(key) == bits,
{
    rsa::RsaPrivateKey::new(rng, bits).ok()
}

/// `PublicKeyParts::size` of rsa: how many bytes the modulus of the key
/// takes.
#[verifier::external_body]
fn modulus_size(public_key: &rsa::RsaPublicKey) -> (r: usize)
    ensures
        r == rsa_modulus_size_of(*public_key),
{
    rsa::PublicKeyParts::size(public_key)
}

/// `PublicKey::encrypt` of rsa with the PKCS#1 v1.5 padding, which is
/// random: of the ciphertext only the length is claimed, which is that of
/// the modulus. Data that leaves no room for the padding is not encrypted.
/// A modulus too short for any padding is left out.
#[verifier::external_body]
fn pkcs1v15_encrypt(rng: &mut OsRng, public_key: &rsa::RsaPublicKey, data: &[u8]) -> (r: Option<
    Vec<u8>,
>)
    requires
        rsa_modulus_size_of(*public_key) >= PADDING_BYTES,
    ensures
        r matches Some(ciphertext) ==> ciphertext@.len() == rsa_modulus_size_of(*public_key),
        data@.len() + PADDING_BYTES > rsa_modulus_size_of(*public_key) ==> r is None,
{
    public_key.encrypt(rng, rsa::PaddingScheme::PKCS1v15Encrypt, data).ok()
}

/// What `private_key` reads out of `ciphertext` under the PKCS#1 v1.5
/// padding, or nothing where it reads nothing. No chance goes into it.
pub uninterp spec fn rsa_decryption_of(private_key: rsa::RsaPrivateKey, ciphertext: Seq<u8>) -> Option<
    Seq<u8>,
>;

/// `RsaPrivateKey::decrypt` of rsa with the PKCS#1 v1.5 padding and without
/// a generator: what the key reads out of the ciphertext, or `None` where
/// it reads nothing.
#[verifier::external_body]
fn pkcs1v15_decrypt(private_key: &rsa::RsaPrivateKey, data: &[u8]) -> (r: Option<Vec<u8>>)
    ensures
        match r {
            Some(plaintext) => rsa_decryption_of(*private_key, data@) == Some(plaintext@),
            None => rsa_decryption_of(*private_key, data@) is None,
        },
{
    private_key.decrypt(rsa::PaddingScheme::PKCS1v15Encrypt, data).ok()
}

impl KeyManager {
    /// The private key.
    pub closed spec fn private_key(&self) -> rsa::RsaPrivateKey {
        self.private_key
    }

    /// The public key in PKCS#1 DER.
    pub closed spec fn public_key_der(&self) -> Seq<u8> {
        self.public_key_der@
    }

    /// The address: the public key's DER in hexadecimal.
    pub closed spec fn address(&self) -> Seq<char> {
        self.address@
    }

    /// The public key is the public half of the private key and its
    /// modulus takes `KEY_BYTES` bytes, the DER is that of the public key,
    /// and the address spells the DER. This holds of every value of the
    /// type.
    #[verifier::type_invariant]
    pub closed spec fn well_formed(&self) -> bool {
        &&& self.public_key == rsa_public_half_of(self.private_key)
        &&& rsa_modulus_size_of(self.public_key) == KEY_BYTES
        &&& public_der_of(self.private_key) == Some(self.public_key_der@)
        &&& self.address@ == hex_of_bytes(self.public_key_der@)
    }

    /// Whether a key pair can be made around `private_key`: the modulus of
    /// its public half takes `KEY_BYTES` bytes, and that half has a DER.
    pub open spec fn takes(private_key: rsa::RsaPrivateKey) -> bool {
        &&& rsa_modulus_size_of(rsa_public_half_of(private_key)) == KEY_BYTES
        &&& public_der_of(private_key) is Some
    }

    /// The signature that this pair makes of `data`: the one that its
    /// private key makes of the SHA-256 digest of `data`, where it makes
    /// one and that one holds under its public key.
    pub open spec fn signature_of(&self, data: Seq<u8>) -> Option<Seq<u8>> {
        checked_signature_of(self.private_key(), self.public_key_der(), sha256_of(data))
    }

    /// The address of a well-formed pair spells its public key, which is
    /// the public half of its private key, and is read back as that key.
    pub proof fn lemma_address_spells_key(&self)
        requires
            self.well_formed(),
        ensures
            KeyManager::takes(self.private_key()),
            public_der_of(self.private_key()) == Some(self.public_key_der()),
            self.address() == hex_of_bytes(self.public_key_der()),
            is_hex(self.address()),
            bytes_of_hex(self.address()) == self.public_key_der(),
    {
        lemma_hex_round_trip(self.public_key_der());
    }

    /// The key pair around a private key that was drawn: there is one
    /// exactly where the modulus of the key takes `KEY_BYTES` bytes and the
    /// public half of the key has a DER, and its address spells that DER.
    pub fn from_private_key(private_key: rsa::RsaPrivateKey, rng: OsRng) -> (r: Result<
        KeyManager,
        CryptoError,
    >)
        ensures
            if KeyManager::takes(private_key) {
                &&& r matches Ok(manager)
                &&& manager.private_key() == private_key
                &&& public_der_of(private_key) == Some(manager.public_key_der())
                &&& manager.address() == hex_of_bytes(manager.public_key_der())
                &&& manager.well_formed()
            } else {
                r matches Err(e) && e == CryptoError::KeygenFailed
            },
    {
        let public_key = public_half(&private_key);
        if modulus_size(&public_key) != KEY_BYTES {
            return Err(CryptoError::KeygenFailed);
        }
        let public_key_der = match public_key_to_der(&public_key) {
            Some(der) => der,
            None => {
                return Err(CryptoError::KeygenFailed);
            },
        };
        let address = bytes_to_hex(public_key_der.as_slice());
        Ok(KeyManager { private_key, public_key, public_key_der, address, rng })
    }

    /// Makes a fresh key pair: the generator is asked for a key of
    /// `KEY_BITS` bits, and the pair is made around the key that it draws.
    pub fn new(rng: OsRng) -> (r: Result<KeyManager, CryptoError>)
        ensures
            match r {
                Ok(manager) => {
                    &&& rsa_modulus_bits_of(manager.private_key()) == KEY_BITS
                    &&& KeyManager::takes(manager.private_key())
                    &&& manager.well_formed()
                    &&& public_der_of(manager.private_key()) == Some(manager.public_key_der())
                    &&& manager.address() == hex_of_bytes(manager.public_key_der())
                },
                Err(e) => e == CryptoError::KeygenFailed,
            },
    {
        let mut rng = rng;
        match generate_private_key(&mut rng, KEY_BITS) {
            Some(private_key) => KeyManager::from_private_key(private_key, rng),
            None => Err(CryptoError::KeygenFailed),
        }
    }

    /// Encrypts `data` to this key pair. The padding is drawn at random:
    /// of the ciphertext only the length is said, which is `KEY_BYTES`.
    /// Data that leaves no room for the padding is not encrypted.
    pub fn encrypt(&mut self, data: &[u8]) -> (r: Result<Vec<u8>, CryptoError>)
        ensures
            *final(self) == *old(self),
            final(self).well_formed(),
            r matches Ok(ciphertext) ==> ciphertext@.len() == KEY_BYTES,
            r matches Err(e) ==> e == CryptoError::EncryptionFailed,
            data@.len() + PADDING_BYTES > KEY_BYTES ==> r is Err,
    {
        proof {
            use_type_invariant(&*self);
        }
        let mut rng = self.rng;
        let outcome = pkcs1v15_encrypt(&mut rng, &self.public_key, data);
        bytes_or(outcome, CryptoError::EncryptionFailed)
    }

    /// Decrypts what was encrypted to this key pair: what the private key
    /// reads out of `data`, or a failure where it reads nothing.
    pub fn decrypt(&self, data: &[u8]) -> (r: Result<Vec<u8>, CryptoError>)
        ensures
            match rsa_decryption_of(self.private_key(), data@) {
                Some(plaintext) => r matches Ok(bytes) && bytes@ == plaintext,
                None => r == Err::<Vec<u8>, CryptoError>(CryptoError::DecryptionFailed),
            },
    {
        let outcome = pkcs1v15_decrypt(&self.private_key, data);
        bytes_or(outcome, CryptoError::DecryptionFailed)
    }

    /// Signs the SHA-256 digest of `data`: the signature that the private
    /// key makes is handed out where it holds under this pair's public key,
    /// which is where `verify_signature` accepts it; there is a failure to
    /// sign where the key makes none or the one it makes does not hold.
    pub fn sign(&mut self, data: &[u8]) -> (r: Result<Vec<u8>, CryptoError>)
        ensures
            *final(self) == *old(self),
            signed(old(self).signature_of(data@), r),
            r matches Ok(signature) ==> rsa_signature_valid(
                old(self).public_key_der(),
                sha256_of(data@),
                signature@,
            ),
    {
        sign_and_check(&self.private_key, self.public_key_der.as_slice(), data)
    }

    /// Checks `signature` against the SHA-256 digest of `data` under this
    /// pair's public key.
    pub fn verify_signature(&mut self, data: &[u8], signature: &[u8]) -> (r: Result<
        (),
        CryptoError,
    >)
        ensures
            *final(self) == *old(self),
            r is Ok <==> rsa_signature_valid(
                old(self).public_key_der(),
                sha256_of(data@),
                signature@,
            ),
            r matches Err(e) ==> e == CryptoError::SignatureInvalid,
    {
        verify_signature(signature, self.public_key_der.as_slice(), data)
    }

    /// The address of this key pair: its public key's DER in hexadecimal.
    pub fn get_address(&self) -> (r: Address)
        ensures
            r@ == self.address(),
            r@ == hex_of_bytes(self.public_key_der()),
    {
        proof {
            use_type_invariant(self);
        }
        self.address.clone()
    }
}

} // verus!
