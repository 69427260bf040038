//! Trusted boundary to the elliptic-curve arithmetic.
//!
//! The raw field operations — Montgomery-ladder scalar multiplication,
//! Edwards point decompression, and the birational map between the two curve
//! forms — are delegated to a vetted curve library. Each call stands behind a
//! wrapper whose contract names the call's result; everything around the
//! calls is verified.

use vstd::prelude::*;

verus! {

/// The Montgomery u-coordinate of the point with u-coordinate `point`
/// multiplied by the integer `scalar` (32 little-endian bytes, already
/// clamped) on Curve25519. A function of its arguments alone.
pub uninterp spec fn montgomery_scalar_mul(scalar: Seq<u8>, point: Seq<u8>) -> Seq<u8>;

/// The compressed Edwards point with sign bit `sign` whose Montgomery image
/// has u-coordinate `u`, or `None` when `u` lies on the twist rather than the
/// curve. A function of its arguments alone.
pub uninterp spec fn montgomery_to_edwards(u: Seq<u8>, sign: u8) -> Option<Seq<u8>>;

/// The Montgomery u-coordinate of the Edwards point compressed in `p`, or
/// `None` when `p` is not the compression of a curve point. A function of its
/// argument alone.
pub uninterp spec fn edwards_to_montgomery(p: Seq<u8>) -> Option<Seq<u8>>;

/// Clamping of a secret scalar: clear the lowest three bits, clear the
/// highest bit, set the second-highest bit.
pub open spec fn clamp_spec(s: Seq<u8>) -> Seq<u8> {
    s.update(0, s[0] & 248).update(31, (s[31] & 127) | 64)
}

/// Clamping is idempotent: a clamped scalar is left unchanged.
pub proof fn lemma_clamp_idempotent(s: Seq<u8>)
    requires
        s.len() == 32,
    ensures
        clamp_spec(clamp_spec(s)) == clamp_spec(s),
{
    let a = s[0];
    let b = s[31];
    assert((a & 248) & 248 == a & 248) by (bit_vector);
    assert((((b & 127) | 64) & 127) | 64 == (b & 127) | 64) by (bit_vector);
    assert(clamp_spec(clamp_spec(s)) =~= clamp_spec(s));
}

/// The u-coordinate of the generator point: u = 9, little-endian.
pub open spec fn base_point_u() -> Seq<u8> {
    Seq::new(32, |i: int| if i == 0 { 9u8 } else { 0u8 })
}

/// The generator's u-coordinate as bytes.
pub fn base_point() -> (r: Vec<u8>)
    ensures
        r@ == base_point_u(),
        r@.len() == 32,
{
    let mut v: Vec<u8> = Vec::new();
    v.push(9);
    let mut i: usize = 1;
    while i < 32
        invariant
            1 <= i <= 32,
            v@.len() == i,
            v@[0] == 9,
            forall|j: int| 1 <= j < i ==> v@[j] == 0,
        decreases 32 - i,
    {
        v.push(0);
        i = i + 1;
    }
    proof {
        assert(v@ =~= base_point_u());
    }
    v
}

/// Relies on `x25519_dalek::x25519`: it multiplies the Montgomery point with
/// u-coordinate `point` by the clamped scalar, as its source shows —
/// `MontgomeryPoint(u).mul_clamped(k)`, where `clamp_integer` clears and sets
/// exactly the bits that `clamp_spec` states.
#[verifier::external_body]
pub(crate) fn x25519_mul(scalar: &[u8], point: &[u8]) -> (r: Vec<u8>)
    requires
        scalar@.len() == 32,
        point@.len() == 32,
    ensures
        r@.len() == 32,
        r@ == montgomery_scalar_mul(clamp_spec(scalar@), point@),
{
    let mut k = [0u8; 32];
    let mut u = [0u8; 32];
    k.copy_from_slice(scalar);
    u.copy_from_slice(point);
    x25519_dalek::x25519(k, u).to_vec()
}

/// Relies on `rand::rngs::OsRng`: it fills the buffer with entropy from the
/// operating system. Nothing is assumed of the drawn bytes beyond their
/// count.
#[verifier::external_body]
pub(crate) fn random_bytes_32() -> (r: Vec<u8>)
    ensures
        r@.len() == 32,
{
    let mut b = [0u8; 32];
    rand::RngCore::fill_bytes(&mut rand::rngs::OsRng, &mut b);
    b.to_vec()
}

/// Relies on `curve25519_dalek`'s `CompressedEdwardsY::decompress`, which
/// fails exactly when the bytes are not the compression of a curve point, and
/// `EdwardsPoint::to_montgomery`, the birational map u = (1+y)/(1-y). Both
/// compute from the input bytes alone.
#[verifier::external_body]
pub(crate) fn edwards_decompress_to_montgomery(p: &[u8]) -> (r: Option<Vec<u8>>)
    requires
        p@.len() == 32,
    ensures
        match r {
            Some(u) => edwards_to_montgomery(p@) == Some(u@) && u@.len() == 32,
            None => edwards_to_montgomery(p@) is None,
        },
{
    let mut a = [0u8; 32];
    a.copy_from_slice(p);
    match curve25519_dalek::edwards::CompressedEdwardsY(a).decompress() {
        Some(e) => Some(e.to_montgomery().to_bytes().to_vec()),
        None => None,
    }
}

/// Relies on `curve25519_dalek`'s `MontgomeryPoint::to_edwards` — the
/// birational map y = (u-1)/(u+1) followed by Edwards decompression with the
/// requested sign bit, failing exactly when `u` lies on the twist — and
/// `EdwardsPoint::compress`. Both compute from the input bytes alone.
#[verifier::external_body]
pub(crate) fn montgomery_to_edwards_compressed(u: &[u8], sign: u8) -> (r: Option<Vec<u8>>)
    requires
        u@.len() == 32,
        sign == 0 || sign == 1,
    ensures
        match r {
            Some(p) => montgomery_to_edwards(u@, sign) == Some(p@) && p@.len() == 32,
            None => montgomery_to_edwards(u@, sign) is None,
        },
{
    let mut a = [0u8; 32];
    a.copy_from_slice(u);
    match curve25519_dalek::montgomery::MontgomeryPoint(a).to_edwards(sign) {
        Some(e) => Some(e.compress().to_bytes().to_vec()),
        None => None,
    }
}

} // verus!
