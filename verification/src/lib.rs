//! X25519 key agreement behind a base64 text boundary.
//!
//! The library exposes key-pair generation, public-key derivation,
//! Diffie-Hellman shared-secret computation, and conversion of public keys
//! between the compressed twisted-Edwards and Montgomery u-coordinate
//! encodings. Every binary value crosses the caller boundary as standard
//! base64 text; the codec is implemented and verified here, while the curve
//! arithmetic is delegated to a vetted elliptic-curve library.

pub mod codec;
pub mod convert;
pub mod curve;
pub mod exchange;
pub mod laws;

use vstd::prelude::*;

verus! {

/// The two ways an operation of this library can fail.
#[derive(Clone, Copy, Debug, PartialEq, Eq, Structural)]
pub enum CryptoError {
    /// The input text is not valid standard base64, or it decodes to a
    /// length other than the 32 bytes the operation requires.
    Base64DecodeError,
    /// A syntactically valid 32-byte value does not correspond to a valid
    /// curve point under the requested interpretation.
    InvalidPointError,
}

impl CryptoError {
    /// A short description of the error, for callers that report it as text.
    pub fn message(&self) -> (r: &'static str)
        ensures
            self is Base64DecodeError ==> r@ == "Base64"@,
            self is InvalidPointError ==> r@ == "Montgomery Point"@,
    {
        match self {
            CryptoError::Base64DecodeError => "Base64",
            CryptoError::InvalidPointError => "Montgomery Point",
        }
    }
}

} // verus!
