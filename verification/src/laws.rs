//! Laws that relate the library's operations to one another.

use crate::CryptoError;
use crate::codec::{b64_decode_text, decode_key_text, is_base64_text_char, lemma_bad_char_rejected};
use crate::convert::{Sign, compress_public_spec, decompress_public_spec};
use crate::exchange::{derive_public_spec, diffie_hellman_spec};
use vstd::prelude::*;

verus! {

/// Malformed input is rejected by every key-accepting operation: text that
/// holds a character outside the base64 alphabet and padding, or whose
/// decoded content is not exactly 32 bytes, yields the decode error from each
/// of them, in either operand position.
pub proof fn lemma_malformed_input_rejected(t: Seq<char>, other: Seq<char>, sign: Sign)
    requires
        (exists|i: int| 0 <= i < t.len() && !is_base64_text_char(t[i])) || (b64_decode_text(t)
            matches Some(b) && b.len() != 32),
    ensures
        decode_key_text(t) is None,
        derive_public_spec(t) == Err::<Seq<char>, CryptoError>(CryptoError::Base64DecodeError),
        diffie_hellman_spec(t, other) == Err::<Seq<char>, CryptoError>(
            CryptoError::Base64DecodeError,
        ),
        diffie_hellman_spec(other, t) == Err::<Seq<char>, CryptoError>(
            CryptoError::Base64DecodeError,
        ),
        decompress_public_spec(t) == Err::<Seq<char>, CryptoError>(CryptoError::Base64DecodeError),
        compress_public_spec(t, sign) == Err::<Seq<char>, CryptoError>(
            CryptoError::Base64DecodeError,
        ),
{
    if exists|i: int| 0 <= i < t.len() && !is_base64_text_char(t[i]) {
        let i = choose|i: int| 0 <= i < t.len() && !is_base64_text_char(t[i]);
        lemma_bad_char_rejected(t, i);
    }
}

} // verus!
