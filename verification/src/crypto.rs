//! The crypto engine: a per-topic symmetric key derived by hashing the
//! topic identifier, and authenticated encryption of chat text under that
//! key with a fresh random 96-bit nonce per message.
//!
//! The confidentiality boundary is knowledge of the topic id: the key is a
//! plain hash of it, with no salt and no stretching, so anyone who can join
//! the topic can decrypt all of its traffic.

use vstd::prelude::*;

use chacha20poly1305::aead::Aead;
use chacha20poly1305::aead::AeadCore;
use chacha20poly1305::aead::OsRng;
use chacha20poly1305::ChaCha20Poly1305;
use chacha20poly1305::Key;
use chacha20poly1305::KeyInit;
use chacha20poly1305::Nonce;
use sha2::Digest;

verus! {

use crate::ids::PeerId;
use crate::ids::TopicId;
use crate::util::string_from_utf8;
use crate::wire::BodyV;
use crate::wire::Message;
use crate::wire::MessageBody;
use crate::wire::CHAT_NONCE_LEN;
use crate::wire::OUTER_NONCE_LEN;
use vstd::utf8::encode_utf8;
use vstd::utf8::valid_utf8;

/// Length in bytes of the symmetric key.
pub const KEY_LEN: usize = 32;

/// Length in bytes of the authentication tag the cipher appends.
pub const TAG_LEN: usize = 16;

/// Largest plaintext the cipher accepts: 64 times one below 2^32, the
/// point at which its block counter would overflow.
pub const MAX_PLAINTEXT_LEN: u64 = 0x3FFFFFFFC0;

/// An encryption or decryption failure.
#[derive(Debug, Clone, Copy, PartialEq, Eq, Structural)]
pub enum CryptoError {
    /// The plaintext exceeds the cipher's length limit.
    TooLong,
    /// The key is wrong, the nonce does not match, or the ciphertext or its
    /// tag was altered in transit.
    Authentication,
    /// The decrypted bytes are not valid text.
    Encoding,
}

/// The digest that the key derivation hash computes; a function of the
/// input bytes alone.
pub uninterp spec fn sha256_of(data: Seq<u8>) -> Seq<u8>;

/// The ciphertext (with trailing tag) that the cipher produces; a function
/// of key, nonce and plaintext alone.
pub uninterp spec fn aead_seal(key: Seq<u8>, nonce: Seq<u8>, plaintext: Seq<u8>) -> Seq<u8>;

/// Relies on `sha2::Sha256` (`update`, `finalize`): a 32-byte digest that
/// depends on the input bytes alone.
#[verifier::external_body]
fn sha256(data: &[u8]) -> (r: Vec<u8>)
    ensures
        r@ == sha256_of(data@),
        r@.len() == KEY_LEN,
{
    let mut hasher = sha2::Sha256::new();
    hasher.update(data);
    hasher.finalize().to_vec()
}

/// Relies on `chacha20poly1305::ChaCha20Poly1305` through `Aead::encrypt`:
/// deterministic in key, nonce and plaintext, appends a 16-byte tag, and
/// succeeds exactly below the cipher's length limit.
#[verifier::external_body]
fn aead_encrypt(key: &[u8], nonce: &[u8], plaintext: &[u8]) -> (r: Option<Vec<u8>>)
    requires
        key@.len() == KEY_LEN,
        nonce@.len() == CHAT_NONCE_LEN,
    ensures
        r is Some <==> plaintext@.len() < MAX_PLAINTEXT_LEN,
        r is Some ==> r.unwrap()@ == aead_seal(key@, nonce@, plaintext@) && r.unwrap()@.len()
            == plaintext@.len() + TAG_LEN,
{
    let cipher = ChaCha20Poly1305::new(Key::from_slice(key));
    cipher.encrypt(Nonce::from_slice(nonce), plaintext).ok()
}

/// Relies on `chacha20poly1305::ChaCha20Poly1305` through `Aead::decrypt`:
/// it returns exactly the plaintext whose encryption under this key and
/// nonce is the given ciphertext, and fails when there is none.
#[verifier::external_body]
fn aead_open(key: &[u8], nonce: &[u8], ciphertext: &[u8]) -> (r: Option<Vec<u8>>)
    requires
        key@.len() == KEY_LEN,
        nonce@.len() == CHAT_NONCE_LEN,
    ensures
        forall|pt: Seq<u8>|
            (pt.len() + TAG_LEN == ciphertext@.len() && pt.len() < MAX_PLAINTEXT_LEN
                && ciphertext@ == aead_seal(key@, nonce@, pt)) ==> (r is Some && r.unwrap()@
                == pt),
        r is Some ==> ciphertext@ == aead_seal(key@, nonce@, r.unwrap()@) && r.unwrap()@.len()
            + TAG_LEN == ciphertext@.len() && r.unwrap()@.len() < MAX_PLAINTEXT_LEN,
{
    let cipher = ChaCha20Poly1305::new(Key::from_slice(key));
    cipher.decrypt(Nonce::from_slice(nonce), ciphertext).ok()
}

/// Relies on `chacha20poly1305`'s `AeadCore::generate_nonce` with the
/// operating system's random source: 12 fresh random bytes; nothing is
/// promised of their values.
#[verifier::external_body]
fn generate_nonce12() -> (r: Vec<u8>)
    ensures
        r@.len() == CHAT_NONCE_LEN,
{
    ChaCha20Poly1305::generate_nonce(&mut OsRng).to_vec()
}

/// Derives the topic's 256-bit symmetric key: a one-way deterministic hash
/// of the topic identifier's raw bytes.  The same topic always yields the
/// same key.
pub fn get_encryption_key(topic: &TopicId) -> (r: Vec<u8>)
    ensures
        r@ == sha256_of(topic@),
        r@.len() == KEY_LEN,
{
    sha256(topic.bytes.as_slice())
}

/// Encrypts `text` for the topic: derives the key, draws a fresh random
/// 96-bit nonce, and produces an envelope whose ciphertext is the
/// authenticated encryption of the text under that key and nonce.  Fails
/// only when the text exceeds the cipher's length limit.
pub fn encrypt_message(text: &str, from: PeerId, topic: &TopicId, id: u64) -> (r: Result<
    Message,
    CryptoError,
>)
    requires
        from.wf(),
    ensures
        match r {
            Ok(m) => {
                &&& m@.wf()
                &&& m@.nonce.len() == OUTER_NONCE_LEN
                &&& match m@.body {
                    BodyV::EncryptedMessage { from: f, id: i, ciphertext: ct, nonce: n } => {
                        &&& f == from@
                        &&& i == id
                        &&& n.len() == CHAT_NONCE_LEN
                        &&& ct == aead_seal(sha256_of(topic@), n, encode_utf8(text@))
                        &&& ct.len() == encode_utf8(text@).len() + TAG_LEN
                        &&& encode_utf8(text@).len() < MAX_PLAINTEXT_LEN
                    },
                    _ => false,
                }
            },
            Err(e) => e == CryptoError::TooLong && encode_utf8(text@).len()
                >= MAX_PLAINTEXT_LEN,
        },
        encode_utf8(text@).len() < MAX_PLAINTEXT_LEN ==> r is Ok,
{
    let key = get_encryption_key(topic);
    let nonce12 = generate_nonce12();
    match aead_encrypt(key.as_slice(), nonce12.as_slice(), text.as_bytes()) {
        Some(ciphertext) => Ok(
            Message::new(
                MessageBody::EncryptedMessage { from, id, ciphertext, nonce: nonce12 },
            ),
        ),
        None => Err(CryptoError::TooLong),
    }
}

/// Decrypts a chat payload for the topic.  Returns exactly the text whose
/// encryption under the topic's key and this nonce is the ciphertext;
/// fails with `Authentication` when the ciphertext matches no encryption
/// under that key and nonce, and with `Encoding` when the decrypted bytes
/// are not valid text.
pub fn decrypt_message(ciphertext: &[u8], nonce: &[u8], topic: &TopicId) -> (r: Result<
    String,
    CryptoError,
>)
    requires
        nonce@.len() == CHAT_NONCE_LEN,
    ensures
        forall|t: Seq<char>|
            (encode_utf8(t).len() + TAG_LEN == ciphertext@.len() && encode_utf8(t).len()
                < MAX_PLAINTEXT_LEN && ciphertext@ == aead_seal(
                sha256_of(topic@),
                nonce@,
                encode_utf8(t),
            )) ==> (r is Ok && r.unwrap()@ == t),
        r is Ok ==> ciphertext@ == aead_seal(
            sha256_of(topic@),
            nonce@,
            encode_utf8(r.unwrap()@),
        ),
        r is Err ==> (r.unwrap_err() == CryptoError::Authentication || r.unwrap_err()
            == CryptoError::Encoding),
        (forall|pt: Seq<u8>|
            (pt.len() + TAG_LEN == ciphertext@.len() && pt.len() < MAX_PLAINTEXT_LEN)
                ==> ciphertext@ != aead_seal(sha256_of(topic@), nonce@, pt)) ==> r
            == Result::<String, CryptoError>::Err(CryptoError::Authentication),
        r == Result::<String, CryptoError>::Err(CryptoError::Authentication)
            ==> (forall|pt: Seq<u8>|
            (pt.len() + TAG_LEN == ciphertext@.len() && pt.len() < MAX_PLAINTEXT_LEN)
                ==> ciphertext@ != aead_seal(sha256_of(topic@), nonce@, pt)),
        forall|pt: Seq<u8>|
            (pt.len() + TAG_LEN == ciphertext@.len() && pt.len() < MAX_PLAINTEXT_LEN
                && ciphertext@ == aead_seal(sha256_of(topic@), nonce@, pt) && !valid_utf8(pt))
                ==> r == Result::<String, CryptoError>::Err(CryptoError::Encoding),
{
    broadcast use vstd::utf8::encode_utf8_valid_utf8;
    broadcast use vstd::utf8::encode_utf8_decode_utf8;
    broadcast use vstd::utf8::decode_utf8_encode_utf8;

    let key = get_encryption_key(topic);
    match aead_open(key.as_slice(), nonce, ciphertext) {
        Some(plaintext) => {
            let ghost pt = plaintext@;
            match string_from_utf8(plaintext) {
                Some(s) => {
                    proof {
                        assert(encode_utf8(s@) == pt);
                    }
                    Ok(s)
                },
                None => Err(CryptoError::Encoding),
            }
        },
        None => Err(CryptoError::Authentication),
    }
}

} // verus!
