use aes_gcm::aead::Aead;
use aes_gcm::Aes256Gcm;
use aes_gcm::KeyInit;
use base64::Engine;
use cryptenv::cipher::can_seal;
use cryptenv::cipher::decrypt;
use cryptenv::cipher::encrypt;
use cryptenv::cipher::open;
use cryptenv::cipher::seal;
use cryptenv::cipher::seal_with_nonce;
use cryptenv::cipher::DecryptError;
use cryptenv::cipher::DecryptKind;
use cryptenv::cipher::EncryptionKey;

fn key(fill: u8) -> EncryptionKey {
    EncryptionKey::from_bytes(&[fill; 32]).expect("32 bytes")
}

fn blob_of(bytes: &[u8]) -> String {
    base64::prelude::BASE64_STANDARD.encode(bytes)
}

fn raw_seal(fill: u8, nonce: &[u8; 12], plaintext: &[u8]) -> Vec<u8> {
    let cipher = Aes256Gcm::new(&[fill; 32].into());
    let mut data = nonce.to_vec();
    data.extend(cipher.encrypt(nonce.into(), plaintext).expect("short plaintext"));
    data
}

#[test]
fn round_trip_gives_the_plaintext_back() {
    for text in ["", "a", "postgres://user:pw@host/db", "h\u{e9}llo w\u{f6}rld \u{4e16}\u{754c}"] {
        let blob = seal(&key(7), text);
        assert_eq!(open(&key(7), &blob), Ok(text.to_string()));
    }
}

#[test]
fn encrypt_and_decrypt_wipe_the_key() {
    let mut sealing = key(9);
    let blob = encrypt(&mut sealing, "secret");
    assert_eq!(sealing.as_bytes(), &[0u8; 32]);
    let mut opening = key(9);
    assert_eq!(decrypt(&mut opening, &blob), Ok("secret".to_string()));
    assert_eq!(opening.as_bytes(), &[0u8; 32]);
    let mut failing = key(9);
    assert_eq!(
        decrypt(&mut failing, "not base64!").map_err(|e| e.kind()),
        Err(DecryptKind::InvalidBase64)
    );
    assert_eq!(failing.as_bytes(), &[0u8; 32]);
}

#[test]
fn same_plaintext_twice_gives_different_blobs() {
    let first = seal(&key(1), "value");
    let second = seal(&key(1), "value");
    assert_ne!(first, second);
    assert_eq!(open(&key(1), &first), Ok("value".to_string()));
    assert_eq!(open(&key(1), &second), Ok("value".to_string()));
}

#[test]
fn blob_is_nonce_then_ciphertext_and_tag_in_base64() {
    let nonce = [3u8; 12];
    let blob = seal_with_nonce(&key(5), &nonce, "hello");
    assert_eq!(blob, blob_of(&raw_seal(5, &nonce, b"hello")));
    let bytes = base64::prelude::BASE64_STANDARD.decode(&blob).expect("base64");
    assert_eq!(bytes.len(), 12 + 5 + 16);
    assert_eq!(&bytes[..12], &nonce);
    assert_eq!(open(&key(5), &blob), Ok("hello".to_string()));
}

#[test]
fn a_changed_byte_fails_authentication() {
    let data = raw_seal(2, &[8u8; 12], b"tamper me");
    for at in 0..data.len() {
        let mut changed = data.clone();
        changed[at] ^= 0x01;
        assert_eq!(open(&key(2), &blob_of(&changed)), Err(DecryptError::Crypto));
    }
    assert_eq!(open(&key(2), &blob_of(&data)), Ok("tamper me".to_string()));
}

#[test]
fn another_key_fails_authentication() {
    let blob = seal(&key(1), "value");
    assert_eq!(open(&key(2), &blob), Err(DecryptError::Crypto));
}

#[test]
fn malformed_base64_is_reported() {
    for text in ["***", "QUJD\n", "QUI"] {
        let refused = base64::prelude::BASE64_STANDARD.decode(text).expect_err("no base64");
        assert_eq!(open(&key(1), text), Err(DecryptError::InvalidBase64(refused)));
        assert_eq!(open(&key(1), text).map_err(|e| e.kind()), Err(DecryptKind::InvalidBase64));
    }
}

#[test]
fn too_few_bytes_are_reported_with_their_number() {
    assert_eq!(open(&key(1), ""), Err(DecryptError::InvalidDataLength(0)));
    assert_eq!(open(&key(1), &blob_of(&[1u8; 11])), Err(DecryptError::InvalidDataLength(11)));
    assert_eq!(open(&key(1), &blob_of(&[1u8; 12])), Err(DecryptError::Crypto));
    assert_eq!(open(&key(1), &blob_of(&[1u8; 27])), Err(DecryptError::Crypto));
}

#[test]
fn plaintext_that_is_no_utf8_is_reported() {
    let data = raw_seal(4, &[0u8; 12], &[0xff, 0xfe, 0x00]);
    let refused = String::from_utf8(vec![0xff, 0xfe, 0x00]).expect_err("no utf8");
    assert_eq!(open(&key(4), &blob_of(&data)), Err(DecryptError::Utf8(refused)));
    assert_eq!(open(&key(4), &blob_of(&data)).map_err(|e| e.kind()), Err(DecryptKind::Utf8));
}

#[test]
fn keys_have_exactly_32_bytes() {
    assert!(EncryptionKey::from_bytes(&[1u8; 31]).is_none());
    assert!(EncryptionKey::from_bytes(&[1u8; 33]).is_none());
    assert!(EncryptionKey::from_bytes(&[]).is_none());
    let bytes: Vec<u8> = (0u8..32).collect();
    let made = EncryptionKey::from_bytes(&bytes).expect("32 bytes");
    assert_eq!(&made.as_bytes()[..], &bytes[..]);
}

#[test]
fn generated_keys_differ_and_can_be_wiped() {
    let mut first = EncryptionKey::generate();
    let second = EncryptionKey::generate();
    assert_ne!(first.as_bytes(), second.as_bytes());
    first.wipe();
    assert_eq!(first.as_bytes(), &[0u8; 32]);
}

#[test]
fn each_failure_has_its_message() {
    let no_base64 = open(&key(1), "***").expect_err("no base64");
    assert_eq!(no_base64.message(), "stored value is not valid base64: Invalid symbol 42, offset 0.");
    let no_utf8 = open(&key(4), &blob_of(&raw_seal(4, &[0u8; 12], &[b'a', 0xff]))).expect_err("no utf8");
    assert_eq!(
        no_utf8.message(),
        "decrypted value is not valid utf8: invalid utf-8 sequence of 1 bytes from index 1"
    );
    assert_eq!(DecryptError::InvalidDataLength(7).message(), "stored value is too short (7 bytes)");
    assert_eq!(
        DecryptError::InvalidDataLength(1204).message(),
        "stored value is too short (1204 bytes)"
    );
    assert_eq!(DecryptError::Crypto.message(), "decryption failed (wrong key or corrupted data)");
    assert_eq!(
        DecryptKind::InvalidBase64.describe("the decoder's words"),
        "stored value is not valid base64: the decoder's words"
    );
    assert_eq!(DecryptKind::Utf8.describe("why"), "decrypted value is not valid utf8: why");
    assert_eq!(DecryptKind::Crypto.describe("unused"), "decryption failed (wrong key or corrupted data)");
    assert_eq!(DecryptKind::InvalidDataLength(0).describe(""), "stored value is too short (0 bytes)");
}

#[test]
fn each_kind_of_failure_has_a_hint_of_its_own() {
    let hints = [
        DecryptKind::InvalidBase64.hint(),
        DecryptKind::InvalidDataLength(3).hint(),
        DecryptKind::Crypto.hint(),
        DecryptKind::Utf8.hint(),
    ];
    assert_eq!(
        hints,
        [
            Some("stored data is not valid base64; re-add the variable"),
            Some("stored data is too short to hold a nonce; re-add the variable"),
            Some("the encryption key may not match the store; re-add values or restore the key"),
            Some("stored data is not valid utf8; re-add the variable"),
        ]
    );
    for (i, first) in hints.iter().enumerate() {
        for second in &hints[i + 1..] {
            assert_ne!(first, second);
        }
    }
    assert_eq!(DecryptKind::InvalidDataLength(3).hint(), DecryptKind::InvalidDataLength(9).hint());
    assert_eq!(DecryptError::Crypto.hint(), DecryptKind::Crypto.hint());
    assert_eq!(DecryptError::InvalidDataLength(5).kind(), DecryptKind::InvalidDataLength(5));
    assert_eq!(
        open(&key(1), "***").expect_err("no base64").hint(),
        DecryptKind::InvalidBase64.hint()
    );
}

#[test]
fn ordinary_values_can_be_sealed() {
    assert!(can_seal(""));
    assert!(can_seal("postgres://user:pw@host/db"));
    assert!(can_seal(&"x".repeat(100_000)));
}
