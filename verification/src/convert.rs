//! Conversion of public keys between the compressed twisted-Edwards and
//! Montgomery u-coordinate encodings.

use crate::CryptoError;
use crate::codec::{b64_encode_text, base64_encode, decode_key, decode_key_text};
use crate::curve::{edwards_decompress_to_montgomery, edwards_to_montgomery, montgomery_to_edwards, montgomery_to_edwards_compressed};
use vstd::prelude::*;

verus! {

/// The requested sign of the x-coordinate of an Edwards point.
#[derive(Clone, Copy, Debug, PartialEq, Eq, Structural)]
pub enum Sign {
    Positive,
    Negative,
}

impl Sign {
    /// The sign bit: 0 for positive, 1 for negative.
    pub open spec fn spec_bit(self) -> u8 {
        if self is Positive {
            0
        } else {
            1
        }
    }

    /// The sign bit as a byte: 0 for positive, 1 for negative.
    pub fn bit(self) -> (r: u8)
        ensures
            r == self.spec_bit(),
    {
        match self {
            Sign::Positive => 0,
            Sign::Negative => 1,
        }
    }

    /// The sign encoded by `b` at the boundary: 0 is positive, 1 is negative,
    /// and no other byte names a sign.
    pub fn from_bit(b: u8) -> (r: Option<Sign>)
        ensures
            b == 0 ==> r == Some(Sign::Positive),
            b == 1 ==> r == Some(Sign::Negative),
            b > 1 ==> r is None,
    {
        if b == 0 {
            Some(Sign::Positive)
        } else if b == 1 {
            Some(Sign::Negative)
        } else {
            None
        }
    }
}

/// What `decompress_public` returns: the Montgomery u-coordinate of the
/// decoded Edwards point, the point error when the bytes are no curve point,
/// or the decode error.
pub open spec fn decompress_public_spec(edwards_text: Seq<char>) -> Result<Seq<char>, CryptoError> {
    match decode_key_text(edwards_text) {
        Some(p) => match edwards_to_montgomery(p) {
            Some(u) => Ok(b64_encode_text(u)),
            None => Err(CryptoError::InvalidPointError),
        },
        None => Err(CryptoError::Base64DecodeError),
    }
}

/// What `compress_public` returns: the compressed Edwards point over the
/// decoded Montgomery u-coordinate with the requested sign, the point error
/// when `u` has no Edwards preimage, or the decode error.
pub open spec fn compress_public_spec(montgomery_text: Seq<char>, sign: Sign) -> Result<
    Seq<char>,
    CryptoError,
> {
    match decode_key_text(montgomery_text) {
        Some(u) => match montgomery_to_edwards(u, sign.spec_bit()) {
            Some(p) => Ok(b64_encode_text(p)),
            None => Err(CryptoError::InvalidPointError),
        },
        None => Err(CryptoError::Base64DecodeError),
    }
}

/// Convert a compressed Edwards public key to its Montgomery u-coordinate.
///
/// Not every 32-byte value compresses a curve point; the point error on such
/// input is a normal outcome, not an internal failure.
pub fn decompress_public(public_key: &str) -> (r: Result<String, CryptoError>)
    ensures
        match r {
            Ok(s) => decompress_public_spec(public_key@) == Ok::<Seq<char>, CryptoError>(s@),
            Err(e) => decompress_public_spec(public_key@) == Err::<Seq<char>, CryptoError>(e),
        },
{
    let point = match decode_key(public_key) {
        Ok(v) => v,
        Err(e) => {
            return Err(e);
        },
    };
    match edwards_decompress_to_montgomery(point.as_slice()) {
        Some(u) => Ok(base64_encode(u.as_slice())),
        None => Err(CryptoError::InvalidPointError),
    }
}

/// Convert a Montgomery public key to the compressed Edwards point with the
/// requested x-coordinate sign.
///
/// The Montgomery form identifies a point only up to the sign of x, so the
/// caller picks which of the two preimages is wanted.
pub fn compress_public(public_key: &str, sign: Sign) -> (r: Result<String, CryptoError>)
    ensures
        match r {
            Ok(s) => compress_public_spec(public_key@, sign) == Ok::<Seq<char>, CryptoError>(s@),
            Err(e) => compress_public_spec(public_key@, sign) == Err::<Seq<char>, CryptoError>(e),
        },
{
    let u = match decode_key(public_key) {
        Ok(v) => v,
        Err(e) => {
            return Err(e);
        },
    };
    match montgomery_to_edwards_compressed(u.as_slice(), sign.bit()) {
        Some(p) => Ok(base64_encode(p.as_slice())),
        None => Err(CryptoError::InvalidPointError),
    }
}

} // verus!
