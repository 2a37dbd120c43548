//! The envelope codec: key derivation, and authenticated encryption under a
//! fresh random nonce, laid out as `nonce || ciphertext-with-tag`.

use aes_gcm::aead::{Aead, AeadCore, KeyInit, OsRng};
use aes_gcm::{Aes256Gcm, Nonce};
use sha2::{Digest, Sha256};
use vstd::prelude::*;
use vstd::slice::slice_subrange;
use vstd::string::StringSliceAdditionalSpecFns;

verus! {

/// Bytes of nonce at the head of every envelope.
pub const NONCE_LEN: usize = 12;

/// Bytes of authentication tag at the end of every ciphertext.
pub const TAG_LEN: usize = 16;

/// Longest plaintext the cipher accepts (2^36 bytes).
pub const MAX_PLAINTEXT_LEN: u64 = 68719476736;

/// Why an envelope could not be made or opened.
#[derive(Debug, Clone, Copy, PartialEq, Eq, Structural)]
pub enum CryptoError {
    /// The plaintext is longer than the cipher accepts.
    TooLong,
    /// The envelope is shorter than a nonce, or its tag does not verify.
    AuthFailure,
}

#[verifier::external_type_specification]
#[verifier::external_body]
pub struct ExAeadError(aes_gcm::Error);

/// The SHA-256 digest of `data`.
pub uninterp spec fn sha256_of(data: Seq<u8>) -> Seq<u8>;

/// The AES-256-GCM ciphertext (with its tag) of `plaintext` under `key` and
/// `nonce`.
pub uninterp spec fn seal_of(key: Seq<u8>, nonce: Seq<u8>, plaintext: Seq<u8>) -> Seq<u8>;

/// What AES-256-GCM decryption of `ciphertext` under `key` and `nonce` gives:
/// the plaintext when the tag verifies, else nothing.
pub uninterp spec fn open_of(key: Seq<u8>, nonce: Seq<u8>, ciphertext: Seq<u8>) -> Option<Seq<u8>>;

/// Relies on sha2's `Sha256::digest`: the 32-byte digest of `data`.
#[verifier::external_body]
fn sha256(data: &[u8]) -> (r: [u8; 32])
    ensures
        r@ == sha256_of(data@),
{
    Sha256::digest(data).into()
}

/// Relies on aes-gcm's `AeadCore::generate_nonce` with the OS random source:
/// 12 random bytes.
#[verifier::external_body]
fn random_nonce() -> (r: [u8; 12]) {
    Aes256Gcm::generate_nonce(&mut OsRng).into()
}

/// Relies on aes-gcm's `Aead::encrypt` for `Aes256Gcm`: it fails only on a
/// plaintext over 2^36 bytes (and always does there), appends a 16-byte tag, and what it makes opens
/// again under the same key and nonce.
#[verifier::external_body]
fn aes_seal(key: &[u8; 32], nonce: &[u8; 12], plaintext: &[u8]) -> (r: Result<Vec<u8>, aes_gcm::Error>)
    ensures
        plaintext@.len() <= MAX_PLAINTEXT_LEN <==> r is Ok,
        r is Ok ==> r->Ok_0@ == seal_of(key@, nonce@, plaintext@),
        r is Ok ==> r->Ok_0@.len() == plaintext@.len() + TAG_LEN,
        r is Ok ==> open_of(key@, nonce@, r->Ok_0@) == Some(plaintext@),
{
    let cipher = Aes256Gcm::new(key.into());
    cipher.encrypt(Nonce::from_slice(nonce), plaintext)
}

/// Relies on aes-gcm's `Aead::decrypt` for `Aes256Gcm`: the plaintext, 16
/// bytes shorter than the ciphertext, when the tag verifies; an error
/// otherwise, and always on a ciphertext shorter than the tag.
#[verifier::external_body]
fn aes_open(key: &[u8; 32], nonce: &[u8], ciphertext: &[u8]) -> (r: Result<Vec<u8>, aes_gcm::Error>)
    requires
        nonce@.len() == NONCE_LEN,
    ensures
        r is Ok <==> open_of(key@, nonce@, ciphertext@) is Some,
        r is Ok ==> Some(r->Ok_0@) == open_of(key@, nonce@, ciphertext@),
        ciphertext@.len() < TAG_LEN ==> r is Err,
        r is Ok ==> r->Ok_0@.len() + TAG_LEN == ciphertext@.len(),
{
    let cipher = Aes256Gcm::new(key.into());
    cipher.decrypt(Nonce::from_slice(nonce), ciphertext)
}

/// The plaintext that `envelope` carries under `key`: none when it is shorter
/// than a nonce or its tag does not verify.
pub open spec fn envelope_plaintext(key: Seq<u8>, envelope: Seq<u8>) -> Option<Seq<u8>> {
    if envelope.len() < NONCE_LEN {
        None
    } else {
        open_of(key, envelope.subrange(0, 12), envelope.subrange(12, envelope.len() as int))
    }
}

/// The envelope of `plaintext` under `key` and `nonce`.
pub open spec fn envelope_of(key: Seq<u8>, nonce: Seq<u8>, plaintext: Seq<u8>) -> Seq<u8> {
    nonce + seal_of(key, nonce, plaintext)
}

/// The 256-bit key that `password` stands for: the SHA-256 digest of its
/// UTF-8 bytes.
pub fn key_from_password(password: &str) -> (r: [u8; 32])
    ensures
        r@ == sha256_of(password.spec_bytes()),
{
    sha256(password.as_bytes())
}

/// Encrypts `data` under `key` with a fresh random nonce, giving
/// `nonce || ciphertext-with-tag`. It fails only on a plaintext longer than
/// the cipher accepts.
pub fn encrypt(data: &[u8], key: &[u8; 32]) -> (r: Result<Vec<u8>, CryptoError>)
    ensures
        data@.len() <= MAX_PLAINTEXT_LEN <==> r is Ok,
        r is Err ==> r == Err::<Vec<u8>, CryptoError>(CryptoError::TooLong),
        r is Ok ==> r->Ok_0@.len() == NONCE_LEN + data@.len() + TAG_LEN,
        r is Ok ==> r->Ok_0@ == envelope_of(key@, r->Ok_0@.subrange(0, 12), data@),
        r is Ok ==> envelope_plaintext(key@, r->Ok_0@) == Some(data@),
{
    let nonce = random_nonce();
    match aes_seal(key, &nonce, data) {
        Ok(sealed) => {
            let mut out: Vec<u8> = Vec::new();
            out.extend_from_slice(&nonce);
            out.extend_from_slice(&sealed);
            assert(out@.subrange(0, 12) =~= nonce@);
            assert(out@.subrange(12, out@.len() as int) =~= sealed@);
            assert(out@ =~= envelope_of(key@, nonce@, data@));
            Ok(out)
        },
        Err(_) => Err(CryptoError::TooLong),
    }
}

/// Opens an envelope made by `encrypt`: the plaintext when the envelope holds
/// a whole nonce and its tag verifies under `key`, `AuthFailure` otherwise.
pub fn decrypt(data: &[u8], key: &[u8; 32]) -> (r: Result<Vec<u8>, CryptoError>)
    ensures
        envelope_plaintext(key@, data@) is None <==> r is Err,
        r is Err ==> r == Err::<Vec<u8>, CryptoError>(CryptoError::AuthFailure),
        r is Ok ==> envelope_plaintext(key@, data@) == Some(r->Ok_0@),
        data@.len() < NONCE_LEN + TAG_LEN ==> r is Err,
        r is Ok ==> r->Ok_0@.len() + NONCE_LEN + TAG_LEN == data@.len(),
{
    if data.len() < NONCE_LEN {
        return Err(CryptoError::AuthFailure);
    }
    let nonce = slice_subrange(data, 0, NONCE_LEN);
    let ciphertext = slice_subrange(data, NONCE_LEN, data.len());
    match aes_open(key, nonce, ciphertext) {
        Ok(plain) => Ok(plain),
        Err(_) => Err(CryptoError::AuthFailure),
    }
}

} // verus!
