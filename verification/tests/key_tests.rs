use x25519_keys::CryptoError;
use x25519_keys::codec::base64_encode;
use x25519_keys::convert::{Sign, compress_public, decompress_public};
use x25519_keys::exchange::{derive_public, diffie_hellman, generate_keypair};

fn hex_bytes(s: &str) -> Vec<u8> {
    let digits: Vec<u8> = s
        .bytes()
        .map(|b| match b {
            b'0'..=b'9' => b - b'0',
            b'a'..=b'f' => b - b'a' + 10,
            b'A'..=b'F' => b - b'A' + 10,
            _ => panic!("not a hex digit"),
        })
        .collect();
    digits.chunks(2).map(|p| (p[0] << 4) | p[1]).collect()
}

fn key_text(hex: &str) -> String {
    base64_encode(&hex_bytes(hex))
}

const ALICE_SECRET: &str = "77076d0a7318a57d3c16c17251b26645df4c2f87ebc0992ab177fba51db92c2a";
const ALICE_PUBLIC: &str = "8520f0098930a754748b7ddcb43ef75a0dbf3a0d26381af4eba4a98eaa9b4e6a";
const BOB_SECRET: &str = "5dab087e624a8a4b79e17f8b83800ee66f3bb1292618b6fd1c2f8b27ff88e0eb";
const BOB_PUBLIC: &str = "de9edb7d7b7dc1b4d35b61c2ece435373f8343c85b78674dadfc7e146f882b4f";
const SHARED: &str = "4a5d9d5ba4ce2de1728e3bf480350f25e07e21c947d19e3376f09b3c1e161742";

#[test]
fn derive_public_matches_published_vectors() {
    assert_eq!(derive_public(&key_text(ALICE_SECRET)).unwrap(), key_text(ALICE_PUBLIC));
    assert_eq!(derive_public(&key_text(BOB_SECRET)).unwrap(), key_text(BOB_PUBLIC));
}

#[test]
fn diffie_hellman_matches_published_vector() {
    let a = diffie_hellman(&key_text(ALICE_SECRET), &key_text(BOB_PUBLIC)).unwrap();
    let b = diffie_hellman(&key_text(BOB_SECRET), &key_text(ALICE_PUBLIC)).unwrap();
    assert_eq!(a, key_text(SHARED));
    assert_eq!(b, key_text(SHARED));
}

#[test]
fn diffie_hellman_is_symmetric_for_generated_pairs() {
    for _ in 0..4 {
        let alice = generate_keypair();
        let bob = generate_keypair();
        let a = diffie_hellman(&alice.secret, &bob.public).unwrap();
        let b = diffie_hellman(&bob.secret, &alice.public).unwrap();
        assert_eq!(a, b);
    }
}

#[test]
fn generated_pair_is_consistent() {
    for _ in 0..4 {
        let pair = generate_keypair();
        assert_eq!(derive_public(&pair.secret).unwrap(), pair.public);
    }
}

#[test]
fn generated_secrets_differ() {
    let mut secrets = Vec::new();
    for _ in 0..8 {
        secrets.push(generate_keypair().secret);
    }
    for i in 0..secrets.len() {
        for j in 0..i {
            assert_ne!(secrets[i], secrets[j]);
        }
    }
}

#[test]
fn malformed_text_is_rejected_everywhere() {
    let bad = ["not base64!", "AQW", "AQWwMw==", ""];
    for b in bad {
        assert_eq!(derive_public(b), Err(CryptoError::Base64DecodeError));
        assert_eq!(
            diffie_hellman(b, &key_text(BOB_PUBLIC)),
            Err(CryptoError::Base64DecodeError)
        );
        assert_eq!(
            diffie_hellman(&key_text(ALICE_SECRET), b),
            Err(CryptoError::Base64DecodeError)
        );
        assert_eq!(decompress_public(b), Err(CryptoError::Base64DecodeError));
        assert_eq!(compress_public(b, Sign::Positive), Err(CryptoError::Base64DecodeError));
    }
}

// The Ed25519 generator: y = 4/5 mod p with an even x, so the sign bit is 0.
const ED_BASE: &str = "5866666666666666666666666666666666666666666666666666666666666666";

#[test]
fn edwards_base_point_maps_to_u_9() {
    let mut u9 = [0u8; 32];
    u9[0] = 9;
    let got = decompress_public(&key_text(ED_BASE)).unwrap();
    assert_eq!(got, base64_encode(&u9));
}

#[test]
fn edwards_round_trip_on_base_point() {
    let text = key_text(ED_BASE);
    let montgomery = decompress_public(&text).unwrap();
    assert_eq!(compress_public(&montgomery, Sign::Positive).unwrap(), text);
}

#[test]
fn compress_rejects_twist_point() {
    // u = 2 lies on the twist of Curve25519, not on the curve.
    let mut two = [0u8; 32];
    two[0] = 2;
    let text = base64_encode(&two);
    assert_eq!(compress_public(&text, Sign::Positive), Err(CryptoError::InvalidPointError));
    assert_eq!(compress_public(&text, Sign::Negative), Err(CryptoError::InvalidPointError));
    // u = -1 = p - 1 is the exceptional point of the birational map.
    let mut minus_one = [0xffu8; 32];
    minus_one[0] = 0xec;
    minus_one[31] = 0x7f;
    assert_eq!(
        compress_public(&base64_encode(&minus_one), Sign::Positive),
        Err(CryptoError::InvalidPointError)
    );
}

#[test]
fn decompress_rejects_non_point() {
    // y = 1/3 mod p is the Edwards image of the twist point u = 2, so no x
    // satisfies the curve equation for it.
    let mut inv_three = [0x55u8; 32];
    inv_three[0] = 0x49;
    let text = base64_encode(&inv_three);
    assert_eq!(decompress_public(&text), Err(CryptoError::InvalidPointError));
}

#[test]
fn sign_bits_round_trip() {
    assert_eq!(Sign::from_bit(0), Some(Sign::Positive));
    assert_eq!(Sign::from_bit(1), Some(Sign::Negative));
    assert_eq!(Sign::from_bit(2), None);
    assert_eq!(Sign::Positive.bit(), 0);
    assert_eq!(Sign::Negative.bit(), 1);
}

#[test]
fn error_messages() {
    assert_eq!(CryptoError::Base64DecodeError.message(), "Base64");
    assert_eq!(CryptoError::InvalidPointError.message(), "Montgomery Point");
}
