//! Sealing a secret value into a text blob and opening it again.
//!
//! A blob is the base64 text of a 12-byte nonce followed by what AES-256-GCM
//! makes of the value under that nonce: the encrypted bytes and a 16-byte tag.

use vstd::prelude::*;
use vstd::utf8::decode_utf8;
use vstd::utf8::encode_utf8;
use vstd::utf8::valid_utf8;
use aes_gcm::aead::Aead;
use aes_gcm::aead::AeadCore;
use aes_gcm::aead::OsRng;
use aes_gcm::Aes256Gcm;
use aes_gcm::KeyInit;
use base64::Engine;
use zeroize::Zeroize;
use crate::text::decimal;
use crate::text::decimal_text;

verus! {

/// The number of bytes of a key.
pub const KEY_LEN: usize = 32;

/// The number of bytes of a nonce.
pub const NONCE_LEN: usize = 12;

/// The number of bytes of the tag.
pub const TAG_LEN: usize = 16;

/// The error of the base64 decoder.
#[verifier::external_type_specification]
#[verifier::external_body]
pub struct ExDecodeError(base64::DecodeError);

/// The error of `String::from_utf8`.
#[verifier::external_type_specification]
#[verifier::external_body]
pub struct ExFromUtf8Error(std::string::FromUtf8Error);

/// The error of the cipher.
#[verifier::external_type_specification]
#[verifier::external_body]
pub struct ExCipherError(aes_gcm::Error);

/// The text that the standard base64 alphabet, with padding, makes of `bytes`.
pub uninterp spec fn base64_text(bytes: Seq<u8>) -> Seq<char>;

/// The bytes that `text` stands for in standard base64 with padding, if it is
/// well formed.
pub uninterp spec fn base64_bytes(text: Seq<char>) -> Option<Seq<u8>>;

/// What AES-256-GCM makes of `plaintext` under `key` and `nonce`, with no
/// associated data: the encrypted bytes followed by the tag.
pub uninterp spec fn aes256gcm_sealed(key: Seq<u8>, nonce: Seq<u8>, plaintext: Seq<u8>) -> Seq<
    u8,
>;

/// What AES-256-GCM recovers from `sealed` under `key` and `nonce`, if the tag
/// is the right one.
pub uninterp spec fn aes256gcm_opened(key: Seq<u8>, nonce: Seq<u8>, sealed: Seq<u8>) -> Option<
    Seq<u8>,
>;

/// `base64::prelude::BASE64_STANDARD.encode`. The result is named, and the
/// decoder gives the same bytes back from it. The encoder panics where the
/// length of the text does not fit in `usize`: such inputs are left out.
#[verifier::external_body]
fn base64_encode(bytes: &[u8]) -> (text: String)
    requires
        4 * ((bytes@.len() + 2) / 3) <= usize::MAX,
    ensures
        text@ == base64_text(bytes@),
        base64_bytes(text@) == Some(bytes@),
{
    base64::prelude::BASE64_STANDARD.encode(bytes)
}

/// `base64::prelude::BASE64_STANDARD.decode`. It succeeds exactly on the
/// texts that stand for some bytes, and gives those bytes.
#[verifier::external_body]
fn base64_decode(text: &str) -> (decoded: Result<Vec<u8>, base64::DecodeError>)
    ensures
        decoded is Ok <==> base64_bytes(text@) is Some,
        decoded is Ok ==> base64_bytes(text@) == Some(decoded->Ok_0@),
{
    base64::prelude::BASE64_STANDARD.decode(text)
}

/// `Aes256Gcm::encrypt` of a cipher made with `Aes256Gcm::new`. Within the
/// limits of the cipher it succeeds. The result is named, it is 16 bytes
/// longer than the plaintext, and decryption under the same key and nonce
/// gives the plaintext back.
#[verifier::external_body]
fn aead_seal(key: &[u8; 32], nonce: &[u8; 12], plaintext: &[u8]) -> (sealed: Result<
    Vec<u8>,
    aes_gcm::Error,
>)
    requires
        plaintext@.len() <= 0x10_0000_0000,
        plaintext@.len() + 16 <= isize::MAX,
    ensures
        sealed is Ok,
        sealed->Ok_0@ == aes256gcm_sealed(key@, nonce@, plaintext@),
        sealed->Ok_0@.len() == plaintext@.len() + 16,
        aes256gcm_opened(key@, nonce@, sealed->Ok_0@) == Some(plaintext@),
{
    Aes256Gcm::new(key.into()).encrypt(nonce.into(), plaintext)
}

/// `Aes256Gcm::decrypt` of a cipher made with `Aes256Gcm::new`. It succeeds
/// exactly where the named result is some plaintext, and gives that plaintext.
#[verifier::external_body]
fn aead_open(key: &[u8; 32], nonce: &[u8; 12], sealed: &[u8]) -> (opened: Result<
    Vec<u8>,
    aes_gcm::Error,
>)
    ensures
        opened is Ok <==> aes256gcm_opened(key@, nonce@, sealed@) is Some,
        opened is Ok ==> aes256gcm_opened(key@, nonce@, sealed@) == Some(opened->Ok_0@),
{
    Aes256Gcm::new(key.into()).decrypt(nonce.into(), sealed)
}

/// `Aes256Gcm::generate_nonce` with the system's random source. Nothing is
/// known of the bytes.
#[verifier::external_body]
fn fresh_nonce() -> (nonce: [u8; 12]) {
    Aes256Gcm::generate_nonce(&mut OsRng).into()
}

/// `Aes256Gcm::generate_key` with the system's random source. Nothing is
/// known of the bytes.
#[verifier::external_body]
fn fresh_key() -> (key: [u8; 32]) {
    Aes256Gcm::generate_key(&mut OsRng).into()
}

/// `Zeroize::zeroize` on an array of bytes: every byte is overwritten with
/// zero.
#[verifier::external_body]
fn zeroize_bytes(bytes: &mut [u8; 32])
    ensures
        forall|i: int| 0 <= i < 32 ==> final(bytes)@[i] == 0u8,
{
    bytes.zeroize()
}

/// `Zeroize::zeroize` on a string: its bytes are overwritten and it is left
/// empty.
#[verifier::external_body]
fn zeroize_text(text: &mut String)
    ensures
        final(text)@ == Seq::<char>::empty(),
{
    text.zeroize()
}

/// `String::from_utf8`: the text that the bytes encode, if they are valid
/// UTF-8.
#[verifier::external_body]
fn text_from_utf8(bytes: Vec<u8>) -> (text: Result<String, std::string::FromUtf8Error>)
    ensures
        text is Ok <==> valid_utf8(bytes@),
        text is Ok ==> text->Ok_0@ == decode_utf8(bytes@),
{
    String::from_utf8(bytes)
}

/// The words of the base64 decoder's error, as its `Display` gives them.
/// Nothing is stated of them.
#[verifier::external_body]
fn decode_error_words(error: &base64::DecodeError) -> (words: String) {
    error.to_string()
}

/// The words of the error of `String::from_utf8`, as its `Display` gives
/// them. Nothing is stated of them.
#[verifier::external_body]
fn utf8_error_words(error: &std::string::FromUtf8Error) -> (words: String) {
    error.to_string()
}

/// The kinds of failure to open a blob.
#[derive(Clone, Copy, Debug, PartialEq, Eq, Structural)]
pub enum DecryptKind {
    /// The blob is no well-formed base64.
    InvalidBase64,
    /// The blob holds the given number of bytes, too few for a nonce.
    InvalidDataLength(usize),
    /// The tag does not fit: another key, or changed data.
    Crypto,
    /// What was decrypted is no UTF-8 text.
    Utf8,
}

/// Why a blob could not be opened. A failure of the decoder or of the text
/// conversion carries that error.
#[derive(Debug, PartialEq, Eq)]
pub enum DecryptError {
    /// The blob is no well-formed base64.
    InvalidBase64(base64::DecodeError),
    /// The blob holds the given number of bytes, too few for a nonce.
    InvalidDataLength(usize),
    /// The tag does not fit: another key, or changed data.
    Crypto,
    /// What was decrypted is no UTF-8 text.
    Utf8(std::string::FromUtf8Error),
}

impl View for DecryptError {
    type V = DecryptKind;

    open spec fn view(&self) -> DecryptKind {
        match self {
            DecryptError::InvalidBase64(_) => DecryptKind::InvalidBase64,
            DecryptError::InvalidDataLength(len) => DecryptKind::InvalidDataLength(*len),
            DecryptError::Crypto => DecryptKind::Crypto,
            DecryptError::Utf8(_) => DecryptKind::Utf8,
        }
    }
}

impl DecryptKind {
    /// What the user may do about a failure of this kind.
    pub fn hint(&self) -> (advice: Option<&'static str>)
        ensures
            advice is Some,
            advice->0@ == hint_text(*self),
    {
        match self {
            DecryptKind::InvalidBase64 => Some(
                "stored data is not valid base64; re-add the variable",
            ),
            DecryptKind::InvalidDataLength(_) => Some(
                "stored data is too short to hold a nonce; re-add the variable",
            ),
            DecryptKind::Crypto => Some(
                "the encryption key may not match the store; re-add values or restore the key",
            ),
            DecryptKind::Utf8 => Some("stored data is not valid utf8; re-add the variable"),
        }
    }

    /// What went wrong, in words: those of this kind, followed for a failure
    /// of the decoder or of the text conversion by the words of that error.
    pub fn describe(&self, detail: &str) -> (text: String)
        ensures
            text@ == message_text(*self, detail@),
    {
        match self {
            DecryptKind::InvalidBase64 => {
                let mut text = String::from_str("stored value is not valid base64: ");
                text.append(detail);
                text
            },
            DecryptKind::InvalidDataLength(len) => {
                let mut text = String::from_str("stored value is too short (");
                let digits = decimal(*len);
                text.append(digits.as_str());
                text.append(" bytes)");
                text
            },
            DecryptKind::Crypto => String::from_str(
                "decryption failed (wrong key or corrupted data)",
            ),
            DecryptKind::Utf8 => {
                let mut text = String::from_str("decrypted value is not valid utf8: ");
                text.append(detail);
                text
            },
        }
    }
}

impl DecryptError {
    /// The kind of the failure.
    pub fn kind(&self) -> (kind: DecryptKind)
        ensures
            kind == self@,
    {
        match self {
            DecryptError::InvalidBase64(_) => DecryptKind::InvalidBase64,
            DecryptError::InvalidDataLength(len) => DecryptKind::InvalidDataLength(*len),
            DecryptError::Crypto => DecryptKind::Crypto,
            DecryptError::Utf8(_) => DecryptKind::Utf8,
        }
    }

    /// What the user may do about the failure.
    pub fn hint(&self) -> (advice: Option<&'static str>)
        ensures
            advice is Some,
            advice->0@ == hint_text(self@),
    {
        self.kind().hint()
    }

    /// What went wrong, in words. For a failure of the decoder or of the text
    /// conversion the words of that error follow those of the kind.
    pub fn message(&self) -> (text: String)
        ensures
            exists|detail: Seq<char>| text@ == message_text(self@, detail),
    {
        let detail = match self {
            DecryptError::InvalidBase64(error) => decode_error_words(error),
            DecryptError::Utf8(error) => utf8_error_words(error),
            _ => String::new(),
        };
        let text = self.kind().describe(detail.as_str());
        assert(text@ == message_text(self@, detail@));
        text
    }
}

/// The advice that goes with a failure.
pub open spec fn hint_text(error: DecryptKind) -> Seq<char> {
    match error {
        DecryptKind::InvalidBase64 => "stored data is not valid base64; re-add the variable"@,
        DecryptKind::InvalidDataLength(_) =>
            "stored data is too short to hold a nonce; re-add the variable"@,
        DecryptKind::Crypto =>
            "the encryption key may not match the store; re-add values or restore the key"@,
        DecryptKind::Utf8 => "stored data is not valid utf8; re-add the variable"@,
    }
}

/// Each kind of failure has a hint of its own: two failures have the same
/// hint only where they are of the same kind.
pub proof fn lemma_hints_differ(first: DecryptKind, second: DecryptKind)
    ensures
        hint_text(first) == hint_text(second) <==> (first is InvalidBase64 && second
            is InvalidBase64) || (first is InvalidDataLength && second is InvalidDataLength) || (
        first is Crypto && second is Crypto) || (first is Utf8 && second is Utf8),
{
    reveal_strlit("stored data is not valid base64; re-add the variable");
    reveal_strlit("stored data is too short to hold a nonce; re-add the variable");
    reveal_strlit("the encryption key may not match the store; re-add values or restore the key");
    reveal_strlit("stored data is not valid utf8; re-add the variable");
    let base64 = "stored data is not valid base64; re-add the variable"@;
    let short = "stored data is too short to hold a nonce; re-add the variable"@;
    let crypto = "the encryption key may not match the store; re-add values or restore the key"@;
    let utf8 = "stored data is not valid utf8; re-add the variable"@;
    assert(base64.len() == 52 && short.len() == 61 && crypto.len() == 76 && utf8.len() == 50);
}

/// The words for a failure of the given kind, where `detail` holds the words
/// of the decoder's or the text conversion's own error. The other kinds have
/// no such words.
pub open spec fn message_text(kind: DecryptKind, detail: Seq<char>) -> Seq<char> {
    match kind {
        DecryptKind::InvalidBase64 => "stored value is not valid base64: "@ + detail,
        DecryptKind::InvalidDataLength(len) => "stored value is too short ("@ + decimal_text(
            len as nat,
        ) + " bytes)"@,
        DecryptKind::Crypto => "decryption failed (wrong key or corrupted data)"@,
        DecryptKind::Utf8 => "decrypted value is not valid utf8: "@ + detail,
    }
}

/// The blob for `plaintext` under `key` and `nonce`.
pub open spec fn sealed_blob(key: Seq<u8>, nonce: Seq<u8>, plaintext: Seq<char>) -> Seq<char> {
    base64_text(nonce + aes256gcm_sealed(key, nonce, encode_utf8(plaintext)))
}

/// What opening `blob` under `key` gives: the plaintext, or the first check
/// that fails. The checks are, in order: the text is base64; it holds at
/// least a nonce; the tag fits; the plaintext is UTF-8.
pub open spec fn opened_blob(key: Seq<u8>, blob: Seq<char>) -> Result<Seq<char>, DecryptKind> {
    match base64_bytes(blob) {
        None => Err(DecryptKind::InvalidBase64),
        Some(data) => if data.len() < NONCE_LEN {
            Err(DecryptKind::InvalidDataLength(data.len() as usize))
        } else {
            match aes256gcm_opened(
                key,
                data.subrange(0, NONCE_LEN as int),
                data.subrange(NONCE_LEN as int, data.len() as int),
            ) {
                None => Err(DecryptKind::Crypto),
                Some(bytes) => if valid_utf8(bytes) {
                    Ok(decode_utf8(bytes))
                } else {
                    Err(DecryptKind::Utf8)
                },
            }
        },
    }
}

/// The plaintexts that can be sealed: the cipher takes at most 2^36 bytes, and
/// the lengths of what is built from them must fit the machine.
pub open spec fn sealable(plaintext: Seq<char>) -> bool {
    let n = encode_utf8(plaintext).len();
    &&& n <= 0x10_0000_0000
    &&& n + TAG_LEN <= isize::MAX
    &&& 4 * ((n + NONCE_LEN + TAG_LEN + 2) / 3) <= usize::MAX
}

/// `blob` is the blob for `plaintext` under `key` and `nonce`: the base64
/// text of the 12 bytes of the nonce followed by the cipher's output, which is
/// 16 bytes longer than the plaintext. Decoding the blob gives those bytes,
/// and opening it under `key` gives `plaintext` back.
pub open spec fn seals(key: Seq<u8>, nonce: Seq<u8>, plaintext: Seq<char>, blob: Seq<char>) -> bool {
    &&& nonce.len() == NONCE_LEN
    &&& aes256gcm_sealed(key, nonce, encode_utf8(plaintext)).len() == encode_utf8(
        plaintext,
    ).len() + TAG_LEN
    &&& blob == sealed_blob(key, nonce, plaintext)
    &&& base64_bytes(blob) == Some(nonce + aes256gcm_sealed(key, nonce, encode_utf8(plaintext)))
    &&& opened_blob(key, blob) == Ok::<Seq<char>, DecryptKind>(plaintext)
}

/// Where the cipher rejects what a blob holds, opening the blob fails with
/// `Crypto` and gives no plaintext.
pub proof fn lemma_rejected_gives_crypto(key: Seq<u8>, blob: Seq<char>, data: Seq<u8>)
    requires
        base64_bytes(blob) == Some(data),
        data.len() >= NONCE_LEN,
        aes256gcm_opened(
            key,
            data.subrange(0, NONCE_LEN as int),
            data.subrange(NONCE_LEN as int, data.len() as int),
        ) is None,
    ensures
        opened_blob(key, blob) == Err::<Seq<char>, DecryptKind>(DecryptKind::Crypto),
{
}

/// Two blobs of one plaintext under one key differ where their nonces differ,
/// and both open to the plaintext.
pub proof fn lemma_nonces_tell_blobs_apart(
    key: Seq<u8>,
    plaintext: Seq<char>,
    first_nonce: Seq<u8>,
    first: Seq<char>,
    second_nonce: Seq<u8>,
    second: Seq<char>,
)
    requires
        seals(key, first_nonce, plaintext, first),
        seals(key, second_nonce, plaintext, second),
        first_nonce != second_nonce,
    ensures
        first != second,
        opened_blob(key, first) == Ok::<Seq<char>, DecryptKind>(plaintext),
        opened_blob(key, second) == Ok::<Seq<char>, DecryptKind>(plaintext),
{
    if first == second {
        let one = first_nonce + aes256gcm_sealed(key, first_nonce, encode_utf8(plaintext));
        let two = second_nonce + aes256gcm_sealed(key, second_nonce, encode_utf8(plaintext));
        assert(one == two);
        assert(one.subrange(0, NONCE_LEN as int) =~= first_nonce);
        assert(two.subrange(0, NONCE_LEN as int) =~= second_nonce);
    }
}

/// The symmetric key: 256 bits.
pub struct EncryptionKey {
    bytes: [u8; 32],
}

impl View for EncryptionKey {
    type V = Seq<u8>;

    closed spec fn view(&self) -> Seq<u8> {
        self.bytes@
    }
}

impl EncryptionKey {
    /// Every byte of the key is zero.
    pub open spec fn wiped(&self) -> bool {
        forall|i: int| 0 <= i < self@.len() ==> self@[i] == 0u8
    }

    /// The key made of `bytes`, if they are exactly 32.
    pub fn from_bytes(bytes: &[u8]) -> (key: Option<EncryptionKey>)
        ensures
            key is Some <==> bytes@.len() == KEY_LEN,
            key matches Some(k) ==> k@ == bytes@,
    {
        if bytes.len() != 32 {
            return None;
        }
        let mut copy: [u8; 32] = [0u8; 32];
        let mut i: usize = 0;
        while i < 32
            invariant
                i <= 32,
                bytes@.len() == 32,
                forall|j: int| 0 <= j < i ==> copy@[j] == bytes@[j],
            decreases 32 - i,
        {
            copy[i] = bytes[i];
            i += 1;
        }
        assert(copy@ =~= bytes@);
        Some(EncryptionKey { bytes: copy })
    }

    /// A new random key.
    pub fn generate() -> (key: EncryptionKey)
        ensures
            key@.len() == KEY_LEN,
    {
        EncryptionKey { bytes: fresh_key() }
    }

    /// The bytes of the key.
    pub fn as_bytes(&self) -> (bytes: &[u8; 32])
        ensures
            bytes@ == self@,
    {
        &self.bytes
    }

    /// Overwrites every byte of the key with zero.
    pub fn wipe(&mut self)
        ensures
            final(self).wiped(),
            final(self)@.len() == KEY_LEN,
    {
        zeroize_bytes(&mut self.bytes);
    }
}

/// Tells whether `plaintext` can be sealed.
pub fn can_seal(plaintext: &str) -> (ok: bool)
    ensures
        ok == sealable(plaintext@),
{
    let n = plaintext.as_bytes().len();
    if n as u64 > 0x10_0000_0000u64 {
        return false;
    }
    if n > isize::MAX as usize - 16 {
        return false;
    }
    let chunks = (n + 30) / 3;
    let most = usize::MAX / 4;
    assert((4 * chunks <= usize::MAX) == (chunks <= most)) by (nonlinear_arith)
        requires
            most == usize::MAX as int / 4,
            chunks >= 0,
    ;
    chunks <= most
}

/// The blob for `plaintext` under `key` and the given nonce.
pub fn seal_with_nonce(key: &EncryptionKey, nonce: &[u8; 12], plaintext: &str) -> (blob: String)
    requires
        sealable(plaintext@),
    ensures
        seals(key@, nonce@, plaintext@, blob@),
{
    broadcast use vstd::utf8::encode_utf8_decode_utf8, vstd::utf8::encode_utf8_valid_utf8;

    let sealed = aead_seal(&key.bytes, nonce, plaintext.as_bytes());
    let mut body = sealed.unwrap();
    let mut data: Vec<u8> = Vec::new();
    let mut i: usize = 0;
    while i < 12
        invariant
            i <= 12,
            data@ == nonce@.subrange(0, i as int),
        decreases 12 - i,
    {
        data.push(nonce[i]);
        i += 1;
    }
    let ghost tail = body@;
    data.append(&mut body);
    assert(data@ =~= nonce@ + tail);
    assert(data@.subrange(0, NONCE_LEN as int) =~= nonce@);
    assert(data@.subrange(NONCE_LEN as int, data@.len() as int) =~= tail);
    let blob = base64_encode(data.as_slice());
    assert(decode_utf8(encode_utf8(plaintext@)) == plaintext@);
    blob
}

/// Seals `plaintext` under `key` with a new random nonce. The blob opens to
/// `plaintext` under the same key.
pub fn seal(key: &EncryptionKey, plaintext: &str) -> (blob: String)
    requires
        sealable(plaintext@),
    ensures
        exists|nonce: Seq<u8>| seals(key@, nonce, plaintext@, blob@),
        opened_blob(key@, blob@) == Ok::<Seq<char>, DecryptKind>(plaintext@),
{
    let nonce = fresh_nonce();
    let blob = seal_with_nonce(key, &nonce, plaintext);
    assert(seals(key@, nonce@, plaintext@, blob@));
    blob
}

/// Seals `plaintext` under `key` with a new random nonce, then wipes the key.
pub fn encrypt(key: &mut EncryptionKey, plaintext: &str) -> (blob: String)
    requires
        sealable(plaintext@),
    ensures
        exists|nonce: Seq<u8>| seals(old(key)@, nonce, plaintext@, blob@),
        opened_blob(old(key)@, blob@) == Ok::<Seq<char>, DecryptKind>(plaintext@),
        final(key).wiped(),
{
    let blob = seal(key, plaintext);
    key.wipe();
    blob
}

/// Opens `blob` under `key`, then wipes the key, whether the blob opened or
/// not.
pub fn decrypt(key: &mut EncryptionKey, blob: &str) -> (opened: Result<String, DecryptError>)
    ensures
        opened matches Ok(text) ==> opened_blob(old(key)@, blob@) == Ok::<
            Seq<char>,
            DecryptKind,
        >(text@),
        opened matches Err(error) ==> opened_blob(old(key)@, blob@) == Err::<
            Seq<char>,
            DecryptKind,
        >(error@),
        final(key).wiped(),
{
    let opened = open(key, blob);
    key.wipe();
    opened
}

/// Opens `blob` under `key`: the plaintext, or the first check that fails.
pub fn open(key: &EncryptionKey, blob: &str) -> (opened: Result<String, DecryptError>)
    ensures
        opened matches Ok(text) ==> opened_blob(key@, blob@) == Ok::<Seq<char>, DecryptKind>(
            text@,
        ),
        opened matches Err(error) ==> opened_blob(key@, blob@) == Err::<Seq<char>, DecryptKind>(
            error@,
        ),
{
    let data = match base64_decode(blob) {
        Ok(data) => data,
        Err(error) => {
            return Err(DecryptError::InvalidBase64(error));
        },
    };
    if data.len() < 12 {
        return Err(DecryptError::InvalidDataLength(data.len()));
    }
    let mut nonce: [u8; 12] = [0u8; 12];
    let mut i: usize = 0;
    while i < 12
        invariant
            i <= 12,
            data@.len() >= 12,
            forall|j: int| 0 <= j < i ==> nonce@[j] == data@[j],
        decreases 12 - i,
    {
        nonce[i] = data[i];
        i += 1;
    }
    assert(nonce@ =~= data@.subrange(0, NONCE_LEN as int));
    let sealed = vstd::slice::slice_subrange(data.as_slice(), 12, data.len());
    let bytes = match aead_open(&key.bytes, &nonce, sealed) {
        Ok(bytes) => bytes,
        Err(_) => {
            return Err(DecryptError::Crypto);
        },
    };
    match text_from_utf8(bytes) {
        Ok(text) => Ok(text),
        Err(error) => Err(DecryptError::Utf8(error)),
    }
}

/// Overwrites a text and leaves it empty.
pub fn wipe_text(text: &mut String)
    ensures
        final(text)@ == Seq::<char>::empty(),
{
    zeroize_text(text);
}

} // verus!
