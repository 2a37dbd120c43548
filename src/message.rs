//! A clipboard payload sealed for the wire: serialized, then encrypted into an
//! envelope; and the way back.

use crate::crypto::{decrypt, encrypt, envelope_plaintext, CryptoError, MAX_PLAINTEXT_LEN};
use crate::protocol::{
    decode_spec, deserialize, encoding, serialize, starts_with, ClipboardData, Payload,
};
use vstd::prelude::*;

verus! {

/// Why an envelope did not give a payload.
#[derive(Debug, Clone, Copy, PartialEq, Eq, Structural)]
pub enum OpenError {
    /// The envelope is too short or its tag does not verify under the key.
    AuthFailure,
    /// The envelope opened, but its plaintext is not a payload.
    Deserialization,
}

/// `envelope` opens under `key` to bytes that begin with the encoding of `d`.
pub open spec fn carries(key: Seq<u8>, envelope: Seq<u8>, d: Payload) -> bool {
    &&& envelope_plaintext(key, envelope) is Some
    &&& starts_with(envelope_plaintext(key, envelope)->0, encoding(d))
}

/// The payload that `envelope` yields under `key`: its plaintext, decoded.
pub open spec fn opened(key: Seq<u8>, envelope: Seq<u8>) -> Option<Payload> {
    match envelope_plaintext(key, envelope) {
        Some(p) => decode_spec(p),
        None => None,
    }
}

/// Serializes `data` and encrypts it under `key` with a fresh nonce.
pub fn seal_payload(data: &ClipboardData, key: &[u8; 32]) -> (r: Result<Vec<u8>, CryptoError>)
    ensures
        encoding(data@).len() <= MAX_PLAINTEXT_LEN <==> r is Ok,
        r is Err ==> r == Err::<Vec<u8>, CryptoError>(CryptoError::TooLong),
        r is Ok ==> envelope_plaintext(key@, r->Ok_0@) == Some(encoding(data@)),
        r is Ok ==> r->Ok_0@.len() == 12 + encoding(data@).len() + 16,
{
    let plain = serialize(data);
    encrypt(&plain, key)
}

/// Decrypts `envelope` under `key` and decodes the payload inside.
pub fn open_payload(envelope: &[u8], key: &[u8; 32]) -> (r: Result<ClipboardData, OpenError>)
    ensures
        envelope_plaintext(key@, envelope@) is None <==> r == Err::<ClipboardData, OpenError>(
            OpenError::AuthFailure,
        ),
        r is Ok <==> opened(key@, envelope@) is Some,
        r is Ok ==> Some(r->Ok_0@) == opened(key@, envelope@),
        forall|d: Payload| #[trigger] carries(key@, envelope@, d) ==> (r is Ok && r->Ok_0@ == d),
{
    match decrypt(envelope, key) {
        Err(_) => Err(OpenError::AuthFailure),
        Ok(plain) => match deserialize(&plain) {
            Ok(d) => Ok(d),
            Err(_) => Err(OpenError::Deserialization),
        },
    }
}

/// Round trip: an envelope that `seal_payload` made of `d` under `key` is one
/// that `open_payload` turns back into `d` under the same key, for every
/// payload.
pub proof fn lemma_round_trip(key: Seq<u8>, envelope: Seq<u8>, d: Payload)
    requires
        envelope_plaintext(key, envelope) == Some(encoding(d)),
    ensures
        carries(key, envelope, d),
{
    assert(encoding(d).subrange(0, encoding(d).len() as int) =~= encoding(d));
}

} // verus!
