//! Cryptographic primitives behind the encryption layer.
//!
//! The outside calls — AES-256-GCM sealing and opening, SHA-256 digests,
//! base64 transport encoding, random material — are wrapped here with
//! contracts over named, argument-determined results. Everything the layer
//! proves about ciphertexts goes through `aead_open`: sealing promises that
//! opening the produced ciphertext under the same key and nonce yields the
//! plaintext back, and opening is exactly the function `aead_open` names.

use vstd::prelude::*;
use aes_gcm::aead::Aead;
use aes_gcm::KeyInit;
use base64::Engine;
use rand::RngCore;
use sha2::Digest;

verus! {

/// What AES-256-GCM decryption returns for a 32-byte key, 12-byte nonce and
/// ciphertext: the authenticated plaintext, or `None` if authentication
/// fails. A function of the three arguments alone.
pub uninterp spec fn aead_open(key: Seq<u8>, nonce: Seq<u8>, ct: Seq<u8>) -> Option<Seq<u8>>;

/// The SHA-256 digest of a byte sequence; a function of the bytes alone.
pub uninterp spec fn sha256_of(data: Seq<u8>) -> Seq<u8>;

/// The base64 (standard alphabet, padded) encoding of a byte sequence.
pub uninterp spec fn b64_of(data: Seq<u8>) -> Seq<char>;

/// What strict base64 decoding returns for a string: the decoded bytes, or
/// `None` if the string is not canonical base64.
pub uninterp spec fn b64_parse(s: Seq<char>) -> Option<Seq<u8>>;

/// Relies on aes_gcm's `Aes256Gcm::encrypt` (trait `aead::Aead`): sealing
/// appends a postfix authentication tag, decrypting the result with the same
/// key and nonce returns the plaintext, and with no associated data the only
/// refusal is a plaintext over the GCM limit of 2^36 bytes. `Key::from_slice`
/// and `Nonce::from_slice` demand exactly 32- and 12-byte slices.
#[verifier::external_body]
pub fn aead_seal(key: &[u8], nonce: &[u8], plaintext: &[u8]) -> (r: Option<Vec<u8>>)
    requires
        key@.len() == 32,
        nonce@.len() == 12,
    ensures
        match r {
            Some(ct) => aead_open(key@, nonce@, ct@) == Some(plaintext@),
            None => plaintext@.len() > 0x10_0000_0000,
        },
{
    let cipher = aes_gcm::Aes256Gcm::new(aes_gcm::Key::<aes_gcm::Aes256Gcm>::from_slice(key));
    cipher.encrypt(aes_gcm::Nonce::from_slice(nonce), plaintext).ok()
}

/// Relies on aes_gcm's `Aes256Gcm::decrypt` (trait `aead::Aead`): opening is
/// a pure function of key, nonce and ciphertext, returning the authenticated
/// plaintext or failing. `Key::from_slice` and `Nonce::from_slice` demand
/// exactly 32- and 12-byte slices.
#[verifier::external_body]
pub fn aead_unseal(key: &[u8], nonce: &[u8], ciphertext: &[u8]) -> (r: Option<Vec<u8>>)
    requires
        key@.len() == 32,
        nonce@.len() == 12,
    ensures
        match r {
            Some(pt) => aead_open(key@, nonce@, ciphertext@) == Some(pt@),
            None => aead_open(key@, nonce@, ciphertext@) is None,
        },
{
    let cipher = aes_gcm::Aes256Gcm::new(aes_gcm::Key::<aes_gcm::Aes256Gcm>::from_slice(key));
    cipher.decrypt(aes_gcm::Nonce::from_slice(nonce), ciphertext).ok()
}

/// Relies on sha2's `Sha256::digest`: the 32-byte SHA-256 digest of the
/// input, a function of the input alone.
#[verifier::external_body]
pub fn sha256(data: &[u8]) -> (r: Vec<u8>)
    ensures
        r@ == sha256_of(data@),
        r@.len() == 32,
{
    sha2::Sha256::digest(data).to_vec()
}

/// Relies on base64's `Engine::encode` with the standard padded alphabet:
/// a function of the input bytes, and `Engine::decode` restores the input.
#[verifier::external_body]
pub fn b64_encode(data: &[u8]) -> (r: String)
    ensures
        r@ == b64_of(data@),
        b64_parse(r@) == Some(data@),
{
    base64::engine::general_purpose::STANDARD.encode(data)
}

/// Relies on base64's `Engine::decode` with the standard padded alphabet:
/// decoding is a pure function of the string and fails exactly on strings
/// that are not valid base64.
#[verifier::external_body]
pub fn b64_decode(s: &str) -> (r: Option<Vec<u8>>)
    ensures
        match r {
            Some(v) => b64_parse(s@) == Some(v@),
            None => b64_parse(s@) is None,
        },
{
    base64::engine::general_purpose::STANDARD.decode(s).ok()
}

/// Relies on rand's `OsRng::fill_bytes`: fills a buffer of the requested
/// length from the operating system's entropy source. The contents are
/// random, so only the length is promised.
#[verifier::external_body]
pub fn random_bytes(n: usize) -> (r: Vec<u8>)
    ensures
        r@.len() == n,
{
    let mut buf = vec![0u8; n];
    rand::rngs::OsRng.fill_bytes(&mut buf);
    buf
}

/// Relies on uuid's `Uuid::new_v4` and its `Display` form: a random
/// version-4 UUID rendered in the 36-character hyphenated format. The value
/// is random, so only the length is promised.
#[verifier::external_body]
pub fn new_uuid() -> (r: String)
    ensures
        r@.len() == 36,
{
    uuid::Uuid::new_v4().to_string()
}

/// Relies on std's `String::from_utf8`: succeeds exactly on valid UTF-8 and
/// returns the string those bytes encode.
#[verifier::external_body]
pub fn string_from_utf8(v: Vec<u8>) -> (r: Option<String>)
    ensures
        match r {
            Some(s) => vstd::utf8::valid_utf8(v@) && s@ == vstd::utf8::decode_utf8(v@),
            None => !vstd::utf8::valid_utf8(v@),
        },
{
    String::from_utf8(v).ok()
}

} // verus!
