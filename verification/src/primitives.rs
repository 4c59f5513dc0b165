//! Bindings to the hashing, encryption, randomness, text-encoding, identifier
//! and clock crates.
//!
//! Nothing in this file is proved. Each function below makes one call into
//! another crate, and Verus takes its contract on trust; the spec functions
//! without a body give names to what those calls compute.

use crate::state::Timestamp;
use base64::Engine;
use chacha20poly1305::aead::{Aead, KeyInit};
use rand::{Rng, RngCore};
use sha2::Digest;
use vstd::prelude::*;

verus! {

/// The SHA-256 digest of `input`, as `sha2::Sha256` computes it.
pub uninterp spec fn sha256(input: Seq<u8>) -> Seq<u8>;

/// What XChaCha20-Poly1305 encryption with empty associated data returns for
/// a 32-byte key, a 24-byte nonce and a plaintext: the ciphertext followed by
/// the 16-byte tag, or `None` where the cipher refuses the plaintext.
pub uninterp spec fn xchacha20poly1305_seal(
    key: Seq<u8>,
    nonce: Seq<u8>,
    plaintext: Seq<u8>,
) -> Option<Seq<u8>>;

/// What XChaCha20-Poly1305 decryption with empty associated data returns for
/// a ciphertext with its tag: the plaintext, or `None` where the tag does not
/// authenticate the ciphertext under this key and nonce.
pub uninterp spec fn xchacha20poly1305_open(
    key: Seq<u8>,
    nonce: Seq<u8>,
    ciphertext: Seq<u8>,
) -> Option<Seq<u8>>;

/// The padded standard-alphabet base64 text of `bytes`.
pub uninterp spec fn base64_text(bytes: Seq<u8>) -> Seq<char>;

/// The bytes that padded standard-alphabet base64 `text` stands for, or
/// `None` where `text` is not such an encoding.
pub uninterp spec fn base64_bytes(text: Seq<char>) -> Option<Seq<u8>>;

/// The error of the `aead` traits, re-exported by `chacha20poly1305`. It
/// carries no information.
#[verifier::external_type_specification]
#[verifier::external_body]
pub struct ExAeadError(chacha20poly1305::Error);

/// The error of `base64` decoding.
#[verifier::external_type_specification]
#[verifier::external_body]
pub struct ExBase64DecodeError(base64::DecodeError);

/// The owned file-system path of the standard library, carried through as
/// an opaque value.
#[verifier::external_type_specification]
#[verifier::external_body]
pub struct ExPathBuf(std::path::PathBuf);

/// Calls `sha2::Sha256::digest`. The contract only names the digest.
#[verifier::external_body]
pub(crate) fn sha256_digest(input: &[u8]) -> (r: [u8; 32])
    ensures
        r@ == sha256(input@),
{
    sha2::Sha256::digest(input).into()
}

/// Calls `encrypt` of `chacha20poly1305::XChaCha20Poly1305`.
///
/// Assumed of the cipher: it refuses only plaintexts of `u32::MAX` or more
/// 64-byte blocks; the result is 16 bytes longer than the plaintext; and
/// decryption under the same key and nonce gives the plaintext back.
#[verifier::external_body]
pub(crate) fn aead_seal(key: &[u8; 32], nonce: &[u8], plaintext: &[u8]) -> (r: Result<
    Vec<u8>,
    chacha20poly1305::Error,
>)
    requires
        nonce@.len() == 24,
        plaintext@.len() + 16 <= isize::MAX,
    ensures
        r is Ok <==> plaintext@.len() / 64 < u32::MAX,
        r is Err ==> xchacha20poly1305_seal(key@, nonce@, plaintext@) is None,
        r matches Ok(sealed) ==> {
            &&& xchacha20poly1305_seal(key@, nonce@, plaintext@) == Some(sealed@)
            &&& sealed@.len() == plaintext@.len() + 16
            &&& xchacha20poly1305_open(key@, nonce@, sealed@) == Some(plaintext@)
        },
{
    let cipher = chacha20poly1305::XChaCha20Poly1305::new(key.into());
    cipher.encrypt(chacha20poly1305::XNonce::from_slice(nonce), plaintext)
}

/// Calls `decrypt` of `chacha20poly1305::XChaCha20Poly1305`.
///
/// Assumed of the cipher: a plaintext that comes back is 16 bytes shorter
/// than the ciphertext.
#[verifier::external_body]
pub(crate) fn aead_open(key: &[u8; 32], nonce: &[u8], ciphertext: &[u8]) -> (r: Result<
    Vec<u8>,
    chacha20poly1305::Error,
>)
    requires
        nonce@.len() == 24,
    ensures
        r is Err ==> xchacha20poly1305_open(key@, nonce@, ciphertext@) is None,
        r matches Ok(plaintext) ==> {
            &&& xchacha20poly1305_open(key@, nonce@, ciphertext@) == Some(plaintext@)
            &&& plaintext@.len() + 16 == ciphertext@.len()
        },
{
    let cipher = chacha20poly1305::XChaCha20Poly1305::new(key.into());
    cipher.decrypt(chacha20poly1305::XNonce::from_slice(nonce), ciphertext)
}

/// Calls `fill_bytes` on `rand::thread_rng()`. Only the length is stated:
/// the bytes differ from call to call.
#[verifier::external_body]
pub(crate) fn random_bytes(len: usize) -> (r: Vec<u8>)
    requires
        len <= isize::MAX,
    ensures
        r@.len() == len,
{
    let mut buffer = vec![0u8; len];
    rand::thread_rng().fill_bytes(&mut buffer);
    buffer
}

/// Calls `gen_range` on `rand::thread_rng()` with the inclusive range from
/// `low` to `high`. Only the bounds are stated.
#[verifier::external_body]
pub(crate) fn random_in_range(low: usize, high: usize) -> (r: usize)
    requires
        low <= high,
    ensures
        low <= r <= high,
{
    rand::thread_rng().gen_range(low..=high)
}

/// Calls `gen` on `rand::thread_rng()` for a 32-bit number. Nothing is stated
/// of the number.
#[verifier::external_body]
pub(crate) fn random_u32() -> u32 {
    rand::thread_rng().gen()
}

/// Calls `encode` of `base64::engine::general_purpose::STANDARD`.
///
/// Assumed of the engine: it decodes its own output to the input. The
/// `requires` leaves out the lengths on which the crate's size computation
/// overflows.
#[verifier::external_body]
pub(crate) fn base64_encode(bytes: &[u8]) -> (r: String)
    requires
        bytes@.len() / 3 * 4 + 4 <= usize::MAX,
    ensures
        r@ == base64_text(bytes@),
        base64_bytes(r@) == Some(bytes@),
{
    base64::engine::general_purpose::STANDARD.encode(bytes)
}

/// Calls `decode` of `base64::engine::general_purpose::STANDARD`.
#[verifier::external_body]
pub(crate) fn base64_decode(text: &str) -> (r: Result<Vec<u8>, base64::DecodeError>)
    ensures
        r is Err ==> base64_bytes(text@) is None,
        r matches Ok(bytes) ==> base64_bytes(text@) == Some(bytes@),
{
    base64::engine::general_purpose::STANDARD.decode(text)
}

/// Calls `uuid::Uuid::new_v4` and hands the identifier out as its 128-bit
/// number. Nothing is stated of the number.
#[verifier::external_body]
pub(crate) fn fresh_identifier() -> u128 {
    uuid::Uuid::new_v4().as_u128()
}

/// Calls `chrono::Utc::now` and hands the instant out as whole seconds since
/// the Unix epoch and the nanoseconds within the second. Nothing is stated
/// of the instant.
#[verifier::external_body]
pub(crate) fn utc_now() -> Timestamp {
    let now = chrono::Utc::now();
    Timestamp { seconds: now.timestamp(), nanos: now.timestamp_subsec_nanos() }
}

} // verus!
