//! Standard base64 codec, verified.
//!
//! Encoding uses the standard alphabet `A-Z a-z 0-9 + /` with `=` padding and
//! no line breaks. Decoding is strict: the text length must be a multiple of
//! four, every character must come from the alphabet (with `=` allowed only as
//! trailing padding), and the unused low bits of the final group must be zero,
//! so every byte sequence has exactly one accepted encoding.

use crate::CryptoError;
use vstd::prelude::*;
use vstd::utf8::is_ascii_chars;

verus! {

/// The padding character `=` as a byte.
pub const PAD_BYTE: u8 = 61;

/// Whether `c` is a byte of the standard base64 alphabet (padding excluded).
pub open spec fn is_base64_byte(c: u8) -> bool {
    (65 <= c && c <= 90)  // 'A'..='Z'
    || (97 <= c && c <= 122)  // 'a'..='z'
    || (48 <= c && c <= 57)  // '0'..='9'
    || c == 43  // '+'
    || c == 47  // '/'
}

/// The alphabet byte that stands for the six-bit value `v`.
pub open spec fn b64_byte_of(v: u8) -> u8 {
    if v < 26 {
        (v + 65) as u8
    } else if v < 52 {
        (v + 71) as u8
    } else if v < 62 {
        (v - 4) as u8
    } else if v == 62 {
        43
    } else {
        47
    }
}

/// The six-bit value of the alphabet byte `c`.
pub open spec fn b64_val_of(c: u8) -> u8 {
    if 65 <= c && c <= 90 {
        (c - 65) as u8
    } else if 97 <= c && c <= 122 {
        (c - 71) as u8
    } else if 48 <= c && c <= 57 {
        (c + 4) as u8
    } else if c == 43 {
        62
    } else {
        63
    }
}

/// The four alphabet bytes that encode the three bytes `b0 b1 b2`.
pub open spec fn encode_group(b0: u8, b1: u8, b2: u8) -> Seq<u8> {
    seq![
        b64_byte_of(b0 >> 2),
        b64_byte_of(((b0 & 3) << 4) | (b1 >> 4)),
        b64_byte_of(((b1 & 15) << 2) | (b2 >> 6)),
        b64_byte_of(b2 & 63),
    ]
}

/// The base64 encoding of `d`, as a sequence of ASCII bytes.
pub open spec fn b64_encode_bytes(d: Seq<u8>) -> Seq<u8>
    decreases d.len(),
{
    if d.len() == 0 {
        Seq::empty()
    } else if d.len() == 1 {
        seq![
            b64_byte_of(d[0] >> 2),
            b64_byte_of((d[0] & 3) << 4),
            PAD_BYTE,
            PAD_BYTE,
        ]
    } else if d.len() == 2 {
        seq![
            b64_byte_of(d[0] >> 2),
            b64_byte_of(((d[0] & 3) << 4) | (d[1] >> 4)),
            b64_byte_of((d[1] & 15) << 2),
            PAD_BYTE,
        ]
    } else {
        encode_group(d[0], d[1], d[2]) + b64_encode_bytes(d.skip(3))
    }
}

/// The three bytes held by a full (unpadded) group of alphabet bytes.
pub open spec fn decode_full_group(a: u8, b: u8, c: u8, d: u8) -> Seq<u8> {
    seq![
        ((b64_val_of(a) << 2) | (b64_val_of(b) >> 4)) as u8,
        (((b64_val_of(b) & 15) << 4) | (b64_val_of(c) >> 2)) as u8,
        (((b64_val_of(c) & 3) << 6) | b64_val_of(d)) as u8,
    ]
}

/// Decoding of the final four-byte group, where padding may appear.
pub open spec fn decode_last_group(a: u8, b: u8, c: u8, d: u8) -> Option<Seq<u8>> {
    if is_base64_byte(a) && is_base64_byte(b) {
        if is_base64_byte(c) {
            if is_base64_byte(d) {
                Some(decode_full_group(a, b, c, d))
            } else if d == PAD_BYTE {
                if b64_val_of(c) & 3 == 0 {
                    Some(seq![
                        ((b64_val_of(a) << 2) | (b64_val_of(b) >> 4)) as u8,
                        (((b64_val_of(b) & 15) << 4) | (b64_val_of(c) >> 2)) as u8,
                    ])
                } else {
                    None
                }
            } else {
                None
            }
        } else if c == PAD_BYTE && d == PAD_BYTE {
            if b64_val_of(b) & 15 == 0 {
                Some(seq![((b64_val_of(a) << 2) | (b64_val_of(b) >> 4)) as u8])
            } else {
                None
            }
        } else {
            None
        }
    } else {
        None
    }
}

/// Strict base64 decoding of the ASCII bytes `t`: `None` on any text that is
/// not the canonical encoding of some byte sequence.
pub open spec fn b64_decode_bytes(t: Seq<u8>) -> Option<Seq<u8>>
    decreases t.len(),
{
    if t.len() % 4 != 0 {
        None
    } else if t.len() == 0 {
        Some(Seq::empty())
    } else if t.len() == 4 {
        decode_last_group(t[0], t[1], t[2], t[3])
    } else if is_base64_byte(t[0]) && is_base64_byte(t[1]) && is_base64_byte(t[2])
        && is_base64_byte(t[3]) {
        match b64_decode_bytes(t.skip(4)) {
            Some(rest) => Some(decode_full_group(t[0], t[1], t[2], t[3]) + rest),
            None => None,
        }
    } else {
        None
    }
}

/// An alphabet byte stands for its own six-bit value, is never padding, and
/// is ASCII.
pub proof fn lemma_byte_of_val(v: u8)
    requires
        v < 64,
    ensures
        is_base64_byte(b64_byte_of(v)),
        b64_byte_of(v) != PAD_BYTE,
        b64_byte_of(v) < 128,
        b64_val_of(b64_byte_of(v)) == v,
{
}

/// The bit identities behind one group: the six-bit values drawn from up to
/// three bytes are below 64, their unused low bits are zero, and they
/// reassemble into exactly the bytes they came from.
proof fn lemma_group_bits(x: u8, y: u8, z: u8)
    by (bit_vector)
    ensures
        x >> 2 < 64,
        ((x & 3) << 4) | (y >> 4) < 64,
        ((y & 15) << 2) | (z >> 6) < 64,
        z & 63 < 64,
        (x & 3) << 4 < 64,
        (y & 15) << 2 < 64,
        ((x & 3) << 4) & 15 == 0,
        ((y & 15) << 2) & 3 == 0,
        ((x >> 2) << 2) | ((((x & 3) << 4) | (y >> 4)) >> 4) == x,
        (((((x & 3) << 4) | (y >> 4)) & 15) << 4) | ((((y & 15) << 2) | (z >> 6)) >> 2) == y,
        (((((y & 15) << 2) | (z >> 6)) & 3) << 6) | (z & 63) == z,
        ((x >> 2) << 2) | (((x & 3) << 4) >> 4) == x,
        (((((x & 3) << 4) | (y >> 4)) & 15) << 4) | (((y & 15) << 2) >> 2) == y,
{
}

/// An encoding is four bytes per started group of three input bytes; in
/// particular a 32-byte key encodes to 44 characters.
pub proof fn lemma_encode_len(d: Seq<u8>)
    ensures
        b64_encode_bytes(d).len() % 4 == 0,
        d.len() > 0 ==> b64_encode_bytes(d).len() >= 4,
        b64_encode_bytes(d).len() == 4 * ((d.len() + 2) / 3),
    decreases d.len(),
{
    if d.len() > 2 {
        lemma_encode_len(d.skip(3));
    }
}

/// Round trip: decoding the encoding of any byte sequence gives that
/// sequence back.
pub proof fn lemma_round_trip(d: Seq<u8>)
    ensures
        b64_decode_bytes(b64_encode_bytes(d)) == Some(d),
    decreases d.len(),
{
    let e = b64_encode_bytes(d);
    if d.len() == 0 {
        assert(Seq::<u8>::empty() =~= d);
    } else if d.len() == 1 {
        let x = d[0];
        lemma_group_bits(x, 0, 0);
        lemma_byte_of_val(x >> 2);
        lemma_byte_of_val((x & 3) << 4);
        assert(e.len() == 4);
        assert(b64_decode_bytes(e) == decode_last_group(e[0], e[1], e[2], e[3]));
        assert(((b64_val_of(e[0]) << 2) | (b64_val_of(e[1]) >> 4)) as u8 == x);
        assert(seq![x] =~= d);
    } else if d.len() == 2 {
        let x = d[0];
        let y = d[1];
        lemma_group_bits(x, y, 0);
        lemma_byte_of_val(x >> 2);
        lemma_byte_of_val(((x & 3) << 4) | (y >> 4));
        lemma_byte_of_val((y & 15) << 2);
        assert(e.len() == 4);
        assert(b64_decode_bytes(e) == decode_last_group(e[0], e[1], e[2], e[3]));
        assert(((b64_val_of(e[0]) << 2) | (b64_val_of(e[1]) >> 4)) as u8 == x);
        assert((((b64_val_of(e[1]) & 15) << 4) | (b64_val_of(e[2]) >> 2)) as u8 == y);
        assert(seq![x, y] =~= d);
    } else {
        let x = d[0];
        let y = d[1];
        let z = d[2];
        lemma_group_bits(x, y, z);
        lemma_byte_of_val(x >> 2);
        lemma_byte_of_val(((x & 3) << 4) | (y >> 4));
        lemma_byte_of_val(((y & 15) << 2) | (z >> 6));
        lemma_byte_of_val(z & 63);
        lemma_round_trip(d.skip(3));
        lemma_encode_len(d.skip(3));
        let rest = b64_encode_bytes(d.skip(3));
        assert(e == encode_group(x, y, z) + rest);
        assert(decode_full_group(e[0], e[1], e[2], e[3]) =~= seq![x, y, z]);
        if d.len() == 3 {
            assert(e.len() == 4);
            assert(b64_decode_bytes(e) == decode_last_group(e[0], e[1], e[2], e[3]));
            assert(seq![x, y, z] =~= d);
        } else {
            assert(e.len() > 4 && e.len() % 4 == 0);
            assert(e.skip(4) =~= rest);
            assert(b64_decode_bytes(e) == Some(decode_full_group(e[0], e[1], e[2], e[3]) + d.skip(3)));
            assert(seq![x, y, z] + d.skip(3) =~= d);
        }
    }
}

/// The encoding of a sequence splits at any group boundary of the input.
pub proof fn lemma_encode_split(d: Seq<u8>, i: int)
    requires
        0 <= i <= d.len(),
        i % 3 == 0,
    ensures
        b64_encode_bytes(d) == b64_encode_bytes(d.take(i)) + b64_encode_bytes(d.skip(i)),
    decreases i,
{
    if i == 0 {
        assert(d.take(0) =~= Seq::<u8>::empty());
        assert(d.skip(0) =~= d);
        assert(b64_encode_bytes(d.take(0)) + b64_encode_bytes(d.skip(0)) =~= b64_encode_bytes(d));
    } else {
        lemma_encode_split(d.skip(3), i - 3);
        assert(d.skip(3).take(i - 3) =~= d.take(i).skip(3));
        assert(d.skip(3).skip(i - 3) =~= d.skip(i));
        assert(d.take(i).len() == i && d.take(i)[0] == d[0] && d.take(i)[1] == d[1] && d.take(i)[2]
            == d[2]);
        assert(b64_encode_bytes(d) =~= b64_encode_bytes(d.take(i)) + b64_encode_bytes(d.skip(i)));
    }
}

/// The sequence of characters whose code points are the bytes of `t`.
pub open spec fn ascii_chars_of(bytes: Seq<u8>) -> Seq<char> {
    bytes.map_values(|b: u8| b as char)
}

/// The bytes taken by each character of `t`; meaningful when `t` is ASCII.
pub open spec fn bytes_of_chars(t: Seq<char>) -> Seq<u8> {
    Seq::new(t.len(), |i: int| t[i] as u8)
}

/// The base64 encoding of `d`, as text.
pub open spec fn b64_encode_text(d: Seq<u8>) -> Seq<char> {
    ascii_chars_of(b64_encode_bytes(d))
}

/// Strict base64 decoding of text: `None` on any text that is not the
/// canonical encoding of some byte sequence.
pub open spec fn b64_decode_text(t: Seq<char>) -> Option<Seq<u8>> {
    if is_ascii_chars(t) {
        b64_decode_bytes(bytes_of_chars(t))
    } else {
        None
    }
}

/// Relies on `String::from_utf8`: a vector of ASCII bytes becomes the string
/// of exactly those characters.
#[verifier::external_body]
fn string_from_ascii(v: Vec<u8>) -> (r: String)
    requires
        forall|i: int| 0 <= i < v@.len() ==> v@[i] < 128,
    ensures
        r@ == ascii_chars_of(v@),
{
    match String::from_utf8(v) {
        Ok(s) => s,
        Err(_) => String::new(),
    }
}

/// The alphabet byte for the six-bit value `v`.
fn val_to_byte(v: u8) -> (r: u8)
    requires
        v < 64,
    ensures
        r == b64_byte_of(v),
{
    if v < 26 {
        v + 65
    } else if v < 52 {
        v + 71
    } else if v < 62 {
        v - 4
    } else if v == 62 {
        43
    } else {
        47
    }
}

/// The six-bit value of `c`, or `None` when `c` is not an alphabet byte.
fn byte_to_val(c: u8) -> (r: Option<u8>)
    ensures
        r is Some <==> is_base64_byte(c),
        r is Some ==> r.unwrap() == b64_val_of(c) && r.unwrap() < 64,
{
    if 65 <= c && c <= 90 {
        Some(c - 65)
    } else if 97 <= c && c <= 122 {
        Some(c - 71)
    } else if 48 <= c && c <= 57 {
        Some(c + 4)
    } else if c == 43 {
        Some(62)
    } else if c == 47 {
        Some(63)
    } else {
        None
    }
}

/// Encode arbitrary bytes as standard base64 text.
pub fn base64_encode(data: &[u8]) -> (r: String)
    ensures
        r@ == b64_encode_text(data@),
{
    let n = data.len();
    let mut out: Vec<u8> = Vec::new();
    let mut i: usize = 0;
    while n - i >= 3
        invariant
            i <= n,
            i % 3 == 0,
            n == data@.len(),
            out@ == b64_encode_bytes(data@.take(i as int)),
            forall|j: int| 0 <= j < out@.len() ==> out@[j] < 128,
        decreases n - i,
    {
        let b0 = data[i];
        let b1 = data[i + 1];
        let b2 = data[i + 2];
        proof {
            lemma_group_bits(b0, b1, b2);
            lemma_byte_of_val(b0 >> 2);
            lemma_byte_of_val(((b0 & 3) << 4) | (b1 >> 4));
            lemma_byte_of_val(((b1 & 15) << 2) | (b2 >> 6));
            lemma_byte_of_val(b2 & 63);
            lemma_encode_split(data@.take(i + 3), i as int);
            assert(data@.take(i + 3).take(i as int) =~= data@.take(i as int));
            let tail = data@.take(i + 3).skip(i as int);
            assert(tail =~= seq![b0, b1, b2]);
            assert(tail.skip(3) =~= Seq::<u8>::empty());
            assert(b64_encode_bytes(Seq::<u8>::empty()) =~= Seq::<u8>::empty());
            assert(b64_encode_bytes(tail) =~= encode_group(b0, b1, b2));
        }
        out.push(val_to_byte(b0 >> 2));
        out.push(val_to_byte(((b0 & 3) << 4) | (b1 >> 4)));
        out.push(val_to_byte(((b1 & 15) << 2) | (b2 >> 6)));
        out.push(val_to_byte(b2 & 63));
        i = i + 3;
        proof {
            assert(out@ =~= b64_encode_bytes(data@.take(i as int)));
        }
    }
    proof {
        lemma_encode_split(data@, i as int);
    }
    if n - i == 1 {
        let b0 = data[i];
        proof {
            lemma_group_bits(b0, 0, 0);
            lemma_byte_of_val(b0 >> 2);
            lemma_byte_of_val((b0 & 3) << 4);
            assert(data@.skip(i as int) =~= seq![b0]);
        }
        out.push(val_to_byte(b0 >> 2));
        out.push(val_to_byte((b0 & 3) << 4));
        out.push(PAD_BYTE);
        out.push(PAD_BYTE);
        proof {
            assert(out@ =~= b64_encode_bytes(data@));
        }
    } else if n - i == 2 {
        let b0 = data[i];
        let b1 = data[i + 1];
        proof {
            lemma_group_bits(b0, b1, 0);
            lemma_byte_of_val(b0 >> 2);
            lemma_byte_of_val(((b0 & 3) << 4) | (b1 >> 4));
            lemma_byte_of_val((b1 & 15) << 2);
            assert(data@.skip(i as int) =~= seq![b0, b1]);
        }
        out.push(val_to_byte(b0 >> 2));
        out.push(val_to_byte(((b0 & 3) << 4) | (b1 >> 4)));
        out.push(val_to_byte((b1 & 15) << 2));
        out.push(PAD_BYTE);
        proof {
            assert(out@ =~= b64_encode_bytes(data@));
        }
    } else {
        proof {
            assert(data@.skip(i as int) =~= Seq::<u8>::empty());
            assert(out@ =~= b64_encode_bytes(data@));
        }
    }
    let r = string_from_ascii(out);
    proof {
        assert(r@ =~= b64_encode_text(data@));
    }
    r
}

/// Decode strict standard base64 from ASCII bytes.
pub fn base64_decode_bytes(t: &[u8]) -> (r: Result<Vec<u8>, CryptoError>)
    ensures
        match r {
            Ok(v) => b64_decode_bytes(t@) == Some(v@),
            Err(e) => b64_decode_bytes(t@) is None && e == CryptoError::Base64DecodeError,
        },
{
    let n = t.len();
    if n % 4 != 0 {
        return Err(CryptoError::Base64DecodeError);
    }
    if n == 0 {
        let v: Vec<u8> = Vec::new();
        proof {
            assert(v@ =~= Seq::<u8>::empty());
        }
        return Ok(v);
    }
    let mut out: Vec<u8> = Vec::new();
    let mut i: usize = 0;
    proof {
        assert(t@.skip(0) =~= t@);
        if b64_decode_bytes(t@) is Some {
            assert(Seq::<u8>::empty() + b64_decode_bytes(t@).unwrap() =~= b64_decode_bytes(
                t@,
            ).unwrap());
        }
        assert(out@ =~= Seq::<u8>::empty());
    }
    while i + 4 < n
        invariant
            i % 4 == 0,
            i + 4 <= n,
            n == t@.len(),
            n % 4 == 0,
            b64_decode_bytes(t@) is Some <==> b64_decode_bytes(t@.skip(i as int)) is Some,
            b64_decode_bytes(t@) is Some ==> b64_decode_bytes(t@) == Some(
                out@ + b64_decode_bytes(t@.skip(i as int)).unwrap(),
            ),
        decreases n - i,
    {
        let ghost pre = t@.skip(i as int);
        proof {
            assert(pre.len() == n - i);
            assert(pre[0] == t@[i as int] && pre[1] == t@[i as int + 1] && pre[2] == t@[i as int
                + 2] && pre[3] == t@[i as int + 3]);
            assert(pre.skip(4) =~= t@.skip(i as int + 4));
        }
        let oa = byte_to_val(t[i]);
        let ob = byte_to_val(t[i + 1]);
        let oc = byte_to_val(t[i + 2]);
        let od = byte_to_val(t[i + 3]);
        match (oa, ob, oc, od) {
            (Some(va), Some(vb), Some(vc), Some(vd)) => {
                let ghost out_pre = out@;
                out.push((va << 2) | (vb >> 4));
                out.push(((vb & 15) << 4) | (vc >> 2));
                out.push(((vc & 3) << 6) | vd);
                i = i + 4;
                proof {
                    assert(out@ =~= out_pre + decode_full_group(pre[0], pre[1], pre[2], pre[3]));
                    if b64_decode_bytes(t@.skip(i as int)) is Some {
                        assert(out_pre + (decode_full_group(pre[0], pre[1], pre[2], pre[3])
                            + b64_decode_bytes(t@.skip(i as int)).unwrap()) =~= out@
                            + b64_decode_bytes(t@.skip(i as int)).unwrap());
                    }
                }
            },
            _ => {
                proof {
                    assert(b64_decode_bytes(pre) is None);
                }
                return Err(CryptoError::Base64DecodeError);
            },
        }
    }
    let ghost last = t@.skip(i as int);
    proof {
        assert(last.len() == 4);
        assert(last[0] == t@[i as int] && last[1] == t@[i as int + 1] && last[2] == t@[i as int + 2]
            && last[3] == t@[i as int + 3]);
        assert(b64_decode_bytes(last) == decode_last_group(last[0], last[1], last[2], last[3]));
    }
    let oa = byte_to_val(t[i]);
    let ob = byte_to_val(t[i + 1]);
    let c2 = t[i + 2];
    let c3 = t[i + 3];
    let (va, vb) = match (oa, ob) {
        (Some(va), Some(vb)) => (va, vb),
        _ => {
            return Err(CryptoError::Base64DecodeError);
        },
    };
    match byte_to_val(c2) {
        Some(vc) => {
            match byte_to_val(c3) {
                Some(vd) => {
                    let ghost out_pre = out@;
                    out.push((va << 2) | (vb >> 4));
                    out.push(((vb & 15) << 4) | (vc >> 2));
                    out.push(((vc & 3) << 6) | vd);
                    proof {
                        assert(out@ =~= out_pre + decode_last_group(
                            last[0],
                            last[1],
                            last[2],
                            last[3],
                        ).unwrap());
                    }
                    Ok(out)
                },
                None => {
                    if c3 == PAD_BYTE && (vc & 3) == 0 {
                        let ghost out_pre = out@;
                        out.push((va << 2) | (vb >> 4));
                        out.push(((vb & 15) << 4) | (vc >> 2));
                        proof {
                            assert(out@ =~= out_pre + decode_last_group(
                                last[0],
                                last[1],
                                last[2],
                                last[3],
                            ).unwrap());
                        }
                        Ok(out)
                    } else {
                        Err(CryptoError::Base64DecodeError)
                    }
                },
            }
        },
        None => {
            if c2 == PAD_BYTE && c3 == PAD_BYTE && (vb & 15) == 0 {
                let ghost out_pre = out@;
                out.push((va << 2) | (vb >> 4));
                proof {
                    assert(out@ =~= out_pre + decode_last_group(
                        last[0],
                        last[1],
                        last[2],
                        last[3],
                    ).unwrap());
                }
                Ok(out)
            } else {
                Err(CryptoError::Base64DecodeError)
            }
        },
    }
}

/// Every byte of an encoding is ASCII.
pub proof fn lemma_encode_ascii(d: Seq<u8>)
    ensures
        forall|j: int|
            0 <= j < b64_encode_bytes(d).len() ==> b64_encode_bytes(d)[j] < 128,
    decreases d.len(),
{
    if d.len() == 0 {
    } else if d.len() == 1 {
        lemma_group_bits(d[0], 0, 0);
        lemma_byte_of_val(d[0] >> 2);
        lemma_byte_of_val((d[0] & 3) << 4);
    } else if d.len() == 2 {
        lemma_group_bits(d[0], d[1], 0);
        lemma_byte_of_val(d[0] >> 2);
        lemma_byte_of_val(((d[0] & 3) << 4) | (d[1] >> 4));
        lemma_byte_of_val((d[1] & 15) << 2);
    } else {
        lemma_group_bits(d[0], d[1], d[2]);
        lemma_byte_of_val(d[0] >> 2);
        lemma_byte_of_val(((d[0] & 3) << 4) | (d[1] >> 4));
        lemma_byte_of_val(((d[1] & 15) << 2) | (d[2] >> 6));
        lemma_byte_of_val(d[2] & 63);
        lemma_encode_ascii(d.skip(3));
        let e = b64_encode_bytes(d);
        assert forall|j: int| 0 <= j < e.len() implies e[j] < 128 by {
            if j >= 4 {
                assert(e[j] == b64_encode_bytes(d.skip(3))[j - 4]);
            }
        }
    }
}

/// Round trip at the text level: decoding the encoding of any byte sequence
/// gives that sequence back.
pub proof fn lemma_text_round_trip(d: Seq<u8>)
    ensures
        b64_decode_text(b64_encode_text(d)) == Some(d),
{
    lemma_round_trip(d);
    lemma_encode_ascii(d);
    let e = b64_encode_bytes(d);
    let t = ascii_chars_of(e);
    assert forall|i: int| 0 <= i < t.len() implies '\0' <= #[trigger] t[i] <= '\u{7f}' by {
        assert(e[i] < 128);
        assert(t[i] == e[i] as char);
    }
    assert(is_ascii_chars(t));
    assert(bytes_of_chars(t) =~= e);
}

/// Whether `c` may appear anywhere in base64 text: the alphabet or padding.
pub open spec fn is_base64_text_char(c: char) -> bool {
    c <= '\u{7f}' && (is_base64_byte(c as u8) || c as u8 == PAD_BYTE)
}

/// A byte that is neither in the alphabet nor padding makes decoding fail.
proof fn lemma_bad_byte_none(t: Seq<u8>, i: int)
    requires
        0 <= i < t.len(),
        !is_base64_byte(t[i]),
        t[i] != PAD_BYTE,
    ensures
        b64_decode_bytes(t) is None,
    decreases t.len(),
{
    if t.len() % 4 != 0 {
    } else if t.len() == 4 {
    } else if i >= 4 {
        lemma_bad_byte_none(t.skip(4), i - 4);
    }
}

/// Malformed text is rejected: a character outside the base64 alphabet and
/// padding makes decoding fail.
pub proof fn lemma_bad_char_rejected(t: Seq<char>, i: int)
    requires
        0 <= i < t.len(),
        !is_base64_text_char(t[i]),
    ensures
        b64_decode_text(t) is None,
{
    if is_ascii_chars(t) {
        lemma_bad_byte_none(bytes_of_chars(t), i);
    }
}

/// Decoding of a 32-byte key from text: the text must be valid base64 whose
/// content is exactly 32 bytes.
pub open spec fn decode_key_text(t: Seq<char>) -> Option<Seq<u8>> {
    match b64_decode_text(t) {
        Some(b) => if b.len() == 32 {
            Some(b)
        } else {
            None
        },
        None => None,
    }
}

/// Round trip for keys: decoding the encoding of any 32-byte value gives
/// that value back.
pub proof fn lemma_key_round_trip(s: Seq<u8>)
    requires
        s.len() == 32,
    ensures
        decode_key_text(b64_encode_text(s)) == Some(s),
{
    lemma_text_round_trip(s);
}

/// Encode a 32-byte key as base64 text; the result is always 44 characters,
/// padding included.
pub fn encode_key(key: &[u8]) -> (r: String)
    requires
        key@.len() == 32,
    ensures
        r@ == b64_encode_text(key@),
        r@.len() == 44,
{
    proof {
        lemma_encode_len(key@);
    }
    base64_encode(key)
}

/// Decode a base64 text that must hold exactly 32 bytes.
pub fn decode_key(text: &str) -> (r: Result<Vec<u8>, CryptoError>)
    ensures
        match r {
            Ok(v) => decode_key_text(text@) == Some(v@) && v@.len() == 32,
            Err(e) => decode_key_text(text@) is None && e == CryptoError::Base64DecodeError,
        },
{
    match base64_decode(text) {
        Ok(v) => if v.len() == 32 {
            Ok(v)
        } else {
            Err(CryptoError::Base64DecodeError)
        },
        Err(e) => Err(e),
    }
}

/// Decode strict standard base64 text into its bytes.
pub fn base64_decode(text: &str) -> (r: Result<Vec<u8>, CryptoError>)
    ensures
        match r {
            Ok(v) => b64_decode_text(text@) == Some(v@),
            Err(e) => b64_decode_text(text@) is None && e == CryptoError::Base64DecodeError,
        },
{
    if !text.is_ascii() {
        return Err(CryptoError::Base64DecodeError);
    }
    let bytes = text.as_bytes();
    proof {
        vstd::string::is_ascii_spec_bytes(text);
        assert(bytes@ =~= bytes_of_chars(text@));
    }
    base64_decode_bytes(bytes)
}

} // verus!
