use base64::Engine;
use x25519_keys::CryptoError;
use x25519_keys::codec::{base64_decode, base64_encode, decode_key, encode_key};

#[test]
fn concrete_round_trip() {
    let data = [1u8, 5, 176, 51];
    let text = base64_encode(&data);
    let back = base64_decode(&text).unwrap();
    assert_eq!(back, vec![1u8, 5, 176, 51]);
}

#[test]
fn concrete_encoding_value() {
    assert_eq!(base64_encode(&[1u8, 5, 176, 51]), "AQWwMw==");
    assert_eq!(base64_encode(&[]), "");
    assert_eq!(base64_encode(b"M"), "TQ==");
    assert_eq!(base64_encode(b"Ma"), "TWE=");
    assert_eq!(base64_encode(b"Man"), "TWFu");
    assert_eq!(base64_encode(&[251u8, 255, 190]), "+/++");
}

#[test]
fn empty_text_decodes_to_nothing() {
    assert_eq!(base64_decode("").unwrap(), Vec::<u8>::new());
}

#[test]
fn fixed_key_encoding_is_44_chars() {
    let key = [7u8; 32];
    let text = encode_key(&key);
    assert_eq!(text, base64_encode(&key));
    assert_eq!(text.len(), 44);
    assert!(text.ends_with('='));
    assert_eq!(decode_key(&text).unwrap(), key.to_vec());
}

#[test]
fn matches_reference_implementation() {
    let samples: Vec<Vec<u8>> = vec![
        vec![],
        vec![0],
        vec![255],
        vec![1, 2],
        vec![1, 2, 3],
        vec![1, 2, 3, 4],
        (0u8..=255).collect(),
        vec![9; 32],
    ];
    let reference = base64::engine::general_purpose::STANDARD;
    for s in samples {
        let mine = base64_encode(&s);
        assert_eq!(mine, reference.encode(&s));
        assert_eq!(base64_decode(&mine).unwrap(), reference.decode(&mine).unwrap());
        assert_eq!(base64_decode(&mine).unwrap(), s);
    }
}

#[test]
fn character_outside_alphabet_is_rejected() {
    assert_eq!(base64_decode("AQ!wMw=="), Err(CryptoError::Base64DecodeError));
    assert_eq!(base64_decode("AQWwM-=="), Err(CryptoError::Base64DecodeError));
    assert_eq!(base64_decode("AQWwMw=\u{e9}"), Err(CryptoError::Base64DecodeError));
    assert_eq!(base64_decode(" QWwMw=="), Err(CryptoError::Base64DecodeError));
}

#[test]
fn bad_length_or_padding_is_rejected() {
    assert_eq!(base64_decode("AQW"), Err(CryptoError::Base64DecodeError));
    assert_eq!(base64_decode("A"), Err(CryptoError::Base64DecodeError));
    assert_eq!(base64_decode("A==="), Err(CryptoError::Base64DecodeError));
    assert_eq!(base64_decode("===="), Err(CryptoError::Base64DecodeError));
    assert_eq!(base64_decode("AQ=w"), Err(CryptoError::Base64DecodeError));
    assert_eq!(base64_decode("AQ==AQ=="), Err(CryptoError::Base64DecodeError));
}

#[test]
fn noncanonical_trailing_bits_are_rejected() {
    // 'B' holds value 1: its low four bits are not zero, so "AB==" encodes no
    // byte sequence canonically.
    assert_eq!(base64_decode("AB=="), Err(CryptoError::Base64DecodeError));
    assert_eq!(base64_decode("AAB="), Err(CryptoError::Base64DecodeError));
    let reference = base64::engine::general_purpose::STANDARD;
    assert!(reference.decode("AB==").is_err());
    assert!(reference.decode("AAB=").is_err());
}

#[test]
fn wrong_decoded_length_is_rejected_for_keys() {
    // 31 and 33 bytes decode fine in general but are no key.
    let short = base64_encode(&[1u8; 31]);
    let long = base64_encode(&[1u8; 33]);
    assert!(base64_decode(&short).is_ok());
    assert_eq!(decode_key(&short), Err(CryptoError::Base64DecodeError));
    assert_eq!(decode_key(&long), Err(CryptoError::Base64DecodeError));
}
