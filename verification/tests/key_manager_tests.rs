use rand::rngs::OsRng;
use simple_bitcoin::blockchain::transaction::{
    CoinbaseTransaction, NormalTransaction, Transaction, TransactionInput, TransactionOutput,
};
use simple_bitcoin::key_manager::KeyManager;
use simple_bitcoin::message::ApplicationPayload;
use simple_bitcoin::timestamp::Timestamp;
use simple_bitcoin::util::{self, CryptoError};

#[test]
fn test_sign_and_verify() {
    let rng = OsRng;
    let mut km = KeyManager::new(rng).unwrap();

    let data = "abc".as_bytes();
    let signature = km.sign(data).unwrap();

    assert!(km.verify_signature(&data, &signature).is_ok());
}

#[test]
fn a_signature_holds_for_the_signed_bytes_and_the_signing_key_alone() {
    let mut km = KeyManager::new(OsRng).unwrap();
    let now = Timestamp::parse_rfc3339("2022-03-09T12:00:00Z").unwrap();
    let tx = NormalTransaction::new(
        vec![TransactionInput::new(
            Transaction::Coinbase(CoinbaseTransaction::new(km.get_address(), 10, now)),
            0,
        )],
        vec![TransactionOutput::new("bob".to_string(), 9)],
        now,
    );
    let text = simple_bitcoin::json::writer::to_text(&tx.to_json());
    let signature = km.sign(&text).unwrap();
    let public_key = tx.get_input_pubkey().unwrap();
    assert_eq!(util::bytes_to_hex(&public_key), km.get_address());
    assert_eq!(util::verify_signature(&signature, &public_key, &text), Ok(()));
    assert_eq!(km.verify_signature(&text, &signature), Ok(()));

    // Any byte of the text flipped: the signature no longer holds.
    for at in [0, text.len() / 2, text.len() - 1] {
        let mut flipped = text.clone();
        flipped[at] ^= 1;
        assert_eq!(
            util::verify_signature(&signature, &public_key, &flipped),
            Err(CryptoError::SignatureInvalid)
        );
    }
    // Another signature, another key, no key at all.
    let mut bent = signature.clone();
    bent[0] ^= 1;
    assert_eq!(
        util::verify_signature(&bent, &public_key, &text),
        Err(CryptoError::SignatureInvalid)
    );
    let mut other_key = public_key.clone();
    let last = other_key.len() - 6;
    other_key[last] ^= 2;
    assert_eq!(
        util::verify_signature(&signature, &other_key, &text),
        Err(CryptoError::SignatureInvalid)
    );
    assert_eq!(
        util::verify_signature(&signature, b"no key", &text),
        Err(CryptoError::SignatureInvalid)
    );
    assert_eq!(
        util::verify_signature(&signature, &[], &text),
        Err(CryptoError::SignatureInvalid)
    );

    // What becomes of the outcome of signing: a signature that holds is
    // handed on; one that does not hold, or none, is a failure to sign.
    let digest = util::calc_hash(&text);
    assert_eq!(
        util::checked_signature(&public_key, &digest, Some(signature.clone())),
        Ok(signature.clone())
    );
    assert_eq!(
        util::checked_signature(&public_key, &digest, Some(bent.clone())),
        Err(CryptoError::SigningFailed)
    );
    assert_eq!(
        util::checked_signature(&other_key, &digest, Some(signature.clone())),
        Err(CryptoError::SigningFailed)
    );
    assert_eq!(
        util::checked_signature(&public_key, &digest, None),
        Err(CryptoError::SigningFailed)
    );
    assert_eq!(
        ApplicationPayload::announcement(tx.clone(), &[0xab, 0x01]),
        ApplicationPayload::NewTransaction { transaction: tx.clone(), signature: "ab01".to_string() }
    );

    // The announcement carries the transaction and a signature over its text.
    let payload = ApplicationPayload::for_transaction(tx.clone(), &mut km).unwrap();
    match payload {
        ApplicationPayload::NewTransaction { transaction, signature: spelled } => {
            assert_eq!(transaction, tx);
            assert_eq!(util::hex_to_bytes(spelled), signature);
        }
        other => panic!("not an announcement: {:?}", other),
    }
}

#[test]
fn what_is_encrypted_to_a_key_is_decrypted_by_it() {
    let mut km = KeyManager::new(OsRng).unwrap();
    let secret = b"a small secret".to_vec();
    let sealed = km.encrypt(&secret).unwrap();
    assert_ne!(sealed, secret);
    assert_eq!(sealed.len(), 256);
    assert_eq!(km.decrypt(&sealed), Ok(secret));
    assert_eq!(km.decrypt(b"not a ciphertext"), Err(CryptoError::DecryptionFailed));
    // More than a key of 2048 bits takes.
    assert_eq!(km.encrypt(&[7u8; 300]), Err(CryptoError::EncryptionFailed));
    // The padding takes eleven of the 256 bytes.
    assert_eq!(km.encrypt(&[7u8; 246]), Err(CryptoError::EncryptionFailed));
    let full = km.encrypt(&[7u8; 245]).unwrap();
    assert_eq!(full.len(), 256);
    assert_eq!(km.decrypt(&full), Ok(vec![7u8; 245]));
    assert_eq!(km.encrypt(&[]).unwrap().len(), 256);
}

#[test]
fn the_address_spells_the_public_key() {
    let km = KeyManager::new(OsRng).unwrap();
    let address = km.get_address();
    let der = util::decode_hex(&address).unwrap();
    assert_eq!(util::bytes_to_hex(&der), address);
    // A PKCS#1 public key of 2048 bits in DER is a sequence of 270 bytes.
    assert_eq!(der.len(), 270);
    assert_eq!(der[0], 0x30);
}

#[test]
fn a_key_signs_what_its_public_half_accepts() {
    let private_key = rsa::RsaPrivateKey::new(&mut OsRng, 2048).unwrap();
    let public_key =
        rsa::pkcs1::ToRsaPublicKey::to_pkcs1_der(&rsa::RsaPublicKey::from(&private_key)).unwrap();
    let data = b"what is signed";
    let signature = util::sign(&private_key, data).unwrap();
    assert_eq!(signature.len(), 256);
    assert_eq!(util::verify_signature(&signature, public_key.as_der(), data), Ok(()));
    assert_eq!(
        util::sign_and_check(&private_key, public_key.as_der(), data),
        Ok(signature.clone())
    );
    // Checked under a key that is not the public half, nothing is handed out.
    let mut other_key = public_key.as_der().to_vec();
    let last = other_key.len() - 6;
    other_key[last] ^= 2;
    assert_eq!(
        util::sign_and_check(&private_key, &other_key, data),
        Err(CryptoError::SigningFailed)
    );
    assert_eq!(
        util::sign_and_check(&private_key, b"no key", data),
        Err(CryptoError::SigningFailed)
    );
}

#[test]
fn bytes_or_an_error() {
    assert_eq!(util::bytes_or(Some(vec![1, 2]), CryptoError::DecryptionFailed), Ok(vec![1, 2]));
    assert_eq!(util::bytes_or(Some(vec![]), CryptoError::DecryptionFailed), Ok(vec![]));
    assert_eq!(
        util::bytes_or(None, CryptoError::DecryptionFailed),
        Err(CryptoError::DecryptionFailed)
    );
    assert_eq!(
        util::bytes_or(None, CryptoError::EncryptionFailed),
        Err(CryptoError::EncryptionFailed)
    );
}

#[test]
fn digests_are_those_of_sha_256() {
    assert_eq!(
        util::bytes_to_hex(&util::calc_hash(b"abc")),
        "ba7816bf8f01cfea414140de5dae2223b00361a396177a9cb410ff61f20015ad"
    );
    assert_eq!(
        util::sha256(b"foo", b"123"),
        "02b353bf5358995bc7d193ed1ce9c2eaec2b694b21d2f96232c9d6a0832121d1"
    );
    assert_eq!(util::sha256(b"foo123", b""), util::sha256(b"", b"foo123"));
    assert_eq!(
        util::sha256(b"", b""),
        "e3b0c44298fc1c149afbf4c8996fb92427ae41e4649b934ca495991b7852b855"
    );
    assert_eq!(util::calc_hash(b"").len(), 32);
}

#[test]
fn a_manager_made_from_a_key_has_the_address_of_its_public_half() {
    let private_key = rsa::RsaPrivateKey::new(&mut OsRng, 2048).unwrap();
    let public_key =
        rsa::pkcs1::ToRsaPublicKey::to_pkcs1_der(&rsa::RsaPublicKey::from(&private_key)).unwrap();
    let mut km = KeyManager::from_private_key(private_key.clone(), OsRng).unwrap();
    assert_eq!(km.get_address(), util::bytes_to_hex(public_key.as_der()));
    // The same key signs the same bytes the same way, whoever holds it.
    let data = b"what is signed";
    let signature = km.sign(data).unwrap();
    assert_eq!(util::sign(&private_key, data), Ok(signature.clone()));
    assert_eq!(km.sign(data), Ok(signature.clone()));
    assert_ne!(km.sign(b"something else"), Ok(signature.clone()));
    assert_eq!(util::verify_signature(&signature, public_key.as_der(), data), Ok(()));
    // What was sealed to the key is what comes out, and nothing else does.
    let sealed = km.encrypt(b"a small secret").unwrap();
    assert_eq!(km.decrypt(&sealed), Ok(b"a small secret".to_vec()));
    let again = km.encrypt(b"a small secret").unwrap();
    assert_eq!(km.decrypt(&again), Ok(b"a small secret".to_vec()));
    assert_eq!(km.decrypt(&[]), Err(CryptoError::DecryptionFailed));
}

#[test]
fn a_key_of_another_size_makes_no_manager() {
    for bits in [64, 512, 1024] {
        let private_key = rsa::RsaPrivateKey::new(&mut OsRng, bits).unwrap();
        assert!(
            matches!(
                KeyManager::from_private_key(private_key, OsRng),
                Err(CryptoError::KeygenFailed)
            ),
            "{}",
            bits
        );
    }
}
