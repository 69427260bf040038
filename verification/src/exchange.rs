//! Key generation, public-key derivation, and Diffie-Hellman agreement.

use crate::CryptoError;
use crate::codec::{b64_encode_text, base64_encode, decode_key, decode_key_text, lemma_text_round_trip};
use crate::curve::{base_point, base_point_u, clamp_spec, montgomery_scalar_mul, random_bytes_32, x25519_mul};
use vstd::prelude::*;

verus! {

/// What `derive_public` returns: the base64 public key derived from a
/// well-formed secret text, or the decode error.
pub open spec fn derive_public_spec(secret_text: Seq<char>) -> Result<Seq<char>, CryptoError> {
    match decode_key_text(secret_text) {
        Some(s) => Ok(b64_encode_text(montgomery_scalar_mul(clamp_spec(s), base_point_u()))),
        None => Err(CryptoError::Base64DecodeError),
    }
}

/// What `diffie_hellman` returns: the base64 shared secret for a well-formed
/// secret and peer public key, or the decode error.
pub open spec fn diffie_hellman_spec(secret_text: Seq<char>, public_text: Seq<char>) -> Result<
    Seq<char>,
    CryptoError,
> {
    match decode_key_text(secret_text) {
        Some(s) => match decode_key_text(public_text) {
            Some(p) => Ok(b64_encode_text(montgomery_scalar_mul(clamp_spec(s), p))),
            None => Err(CryptoError::Base64DecodeError),
        },
        None => Err(CryptoError::Base64DecodeError),
    }
}

/// Derive the public key that belongs to a base64-encoded secret key.
///
/// Deterministic: the same secret always yields the same public key.
pub fn derive_public(secret_key: &str) -> (r: Result<String, CryptoError>)
    ensures
        match r {
            Ok(s) => derive_public_spec(secret_key@) == Ok::<Seq<char>, CryptoError>(s@),
            Err(e) => derive_public_spec(secret_key@) == Err::<Seq<char>, CryptoError>(e),
        },
{
    let secret = match decode_key(secret_key) {
        Ok(v) => v,
        Err(e) => {
            return Err(e);
        },
    };
    let base = base_point();
    let public = x25519_mul(secret.as_slice(), base.as_slice());
    Ok(base64_encode(public.as_slice()))
}

/// Compute the shared secret from one party's secret key and the other
/// party's public key, both base64-encoded.
///
/// Low-order or otherwise degenerate peer points are not rejected; checking
/// the peer's key is the caller's responsibility.
pub fn diffie_hellman(secret_key: &str, public_key: &str) -> (r: Result<String, CryptoError>)
    ensures
        match r {
            Ok(s) => diffie_hellman_spec(secret_key@, public_key@) == Ok::<
                Seq<char>,
                CryptoError,
            >(s@),
            Err(e) => diffie_hellman_spec(secret_key@, public_key@) == Err::<
                Seq<char>,
                CryptoError,
            >(e),
        },
{
    let secret = match decode_key(secret_key) {
        Ok(v) => v,
        Err(e) => {
            return Err(e);
        },
    };
    let public = match decode_key(public_key) {
        Ok(v) => v,
        Err(e) => {
            return Err(e);
        },
    };
    let shared = x25519_mul(secret.as_slice(), public.as_slice());
    Ok(base64_encode(shared.as_slice()))
}

/// A freshly generated key pair, base64-encoded.
pub struct KeyPair {
    /// The secret key: 32 raw entropy bytes, base64-encoded.
    pub secret: String,
    /// The public key derived from the secret.
    pub public: String,
}

/// Generate a key pair from operating-system entropy.
///
/// The returned pair is consistent: deriving the public key from the returned
/// secret gives exactly the returned public key.
pub fn generate_keypair() -> (r: KeyPair)
    ensures
        derive_public_spec(r.secret@) == Ok::<Seq<char>, CryptoError>(r.public@),
        exists|s: Seq<u8>| s.len() == 32 && r.secret@ == b64_encode_text(s),
{
    let secret_bytes = random_bytes_32();
    let base = base_point();
    let public_bytes = x25519_mul(secret_bytes.as_slice(), base.as_slice());
    let secret = base64_encode(secret_bytes.as_slice());
    let public = base64_encode(public_bytes.as_slice());
    proof {
        lemma_text_round_trip(secret_bytes@);
        assert(secret@ == b64_encode_text(secret_bytes@) && secret_bytes@.len() == 32);
    }
    KeyPair { secret, public }
}

} // verus!
