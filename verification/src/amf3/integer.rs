//! The AMF3 variable-length 29-bit integer (U29) encoding.
use vstd::prelude::*;
use crate::errors::{Error, ErrorKind, nom_err};

verus! {

/// The raw 29-bit value of the U29 encoding at `p`, before the sign bit is interpreted,
/// together with the position just past it.
///
/// Up to three leading bytes contribute their low seven bits while their high bit is set; a
/// fourth byte, if reached, contributes all eight bits.
pub open spec fn spec_read_u29_raw(s: Seq<u8>, p: int) -> Result<(int, u32), Error> {
    if p >= s.len() {
        Err(nom_err(p, ErrorKind::Eof))
    } else {
        let b0 = s[p];
        let v0 = (b0 & 0x7f) as u32;
        if b0 & 0x80 == 0 {
            Ok((p + 1, v0))
        } else if p + 1 >= s.len() {
            Err(nom_err(p + 1, ErrorKind::Eof))
        } else {
            let b1 = s[p + 1];
            let v1 = (v0 << 7) | ((b1 & 0x7f) as u32);
            if b1 & 0x80 == 0 {
                Ok((p + 2, v1))
            } else if p + 2 >= s.len() {
                Err(nom_err(p + 2, ErrorKind::Eof))
            } else {
                let b2 = s[p + 2];
                let v2 = (v1 << 7) | ((b2 & 0x7f) as u32);
                if b2 & 0x80 == 0 {
                    Ok((p + 3, v2))
                } else if p + 3 >= s.len() {
                    Err(nom_err(p + 3, ErrorKind::Eof))
                } else {
                    Ok((p + 4, (v2 << 8) | (s[p + 3] as u32)))
                }
            }
        }
    }
}

/// Bit 28 of a raw U29 value: the sign bit of the signed reading.
pub open spec fn u29_sign_set(v: u32) -> bool {
    v & 0x1000_0000 != 0
}

/// The unsigned reading of a raw U29 value: one with bit 28 set is shifted left once and
/// gets its low bit set.
pub open spec fn u29_unsigned(v: u32) -> u32 {
    if u29_sign_set(v) { ((v << 1) + 1) as u32 } else { v }
}

/// The signed reading of a raw U29 value: two's complement over 29 bits.
pub open spec fn u29_signed(v: u32) -> i32 {
    if u29_sign_set(v) { (v as int - 0x2000_0000) as i32 } else { v as i32 }
}

/// The result of reading an unsigned U29 at `p`.
pub open spec fn spec_read_int(s: Seq<u8>, p: int) -> Result<(int, u32), Error> {
    match spec_read_u29_raw(s, p) {
        Ok((e, v)) => Ok((e, u29_unsigned(v))),
        Err(e) => Err(e),
    }
}

/// The result of reading a signed U29 at `p`.
pub open spec fn spec_read_int_signed(s: Seq<u8>, p: int) -> Result<(int, i32), Error> {
    match spec_read_u29_raw(s, p) {
        Ok((e, v)) => Ok((e, u29_signed(v))),
        Err(e) => Err(e),
    }
}

/// The value that is laid out in 29 bits: negative values are offset by 2^29.
pub open spec fn u29_payload(i: i32) -> i32 {
    if i < 0 { (i + 0x2000_0000) as i32 } else { i }
}

/// The U29 bytes written for `i`: one byte up to 0x7f, two up to 0x3fff, three up to
/// 0x1fffff and four above, each but the last carrying its continuation bit.
pub open spec fn spec_write_int(i: i32) -> Seq<u8> {
    let n = u29_payload(i);
    if n > 0x1f_ffff {
        seq![
            ((n >> 22) | 0x80) as u8,
            ((n >> 15) | 0x80) as u8,
            ((n >> 8) | 0x80) as u8,
            (n & 0xff) as u8,
        ]
    } else if n > 0x3fff {
        seq![((n >> 14) | 0x80) as u8, ((n >> 7) | 0x80) as u8, (n & 0x7f) as u8]
    } else if n > 0x7f {
        seq![((n >> 7) | 0x80) as u8, (n & 0x7f) as u8]
    } else {
        seq![(n & 0x7f) as u8]
    }
}

/// A value of 29 payload bits is read back, as its raw value, from the bytes written for it.
pub proof fn lemma_u29_raw_roundtrip(i: i32)
    requires
        0 <= u29_payload(i) < 0x2000_0000,
    ensures
        spec_read_u29_raw(spec_write_int(i), 0) == Ok::<(int, u32), Error>(
            (spec_write_int(i).len() as int, u29_payload(i) as u32),
        ),
{
    let n = u29_payload(i);
    let m = n as u32;
    let s = spec_write_int(i);
    if n > 0x1f_ffff {
        let b0 = ((n >> 22) | 0x80) as u8;
        let b1 = ((n >> 15) | 0x80) as u8;
        let b2 = ((n >> 8) | 0x80) as u8;
        let b3 = (n & 0xff) as u8;
        assert(b0 & 0x80 != 0 && b1 & 0x80 != 0 && b2 & 0x80 != 0) by (bit_vector)
            requires
                b0 == ((n >> 22) | 0x80) as u8,
                b1 == ((n >> 15) | 0x80) as u8,
                b2 == ((n >> 8) | 0x80) as u8,
        ;
        assert((((((((b0 & 0x7f) as u32) << 7) | ((b1 & 0x7f) as u32)) << 7) | ((b2 & 0x7f) as u32)) << 8)
            | (b3 as u32) == m) by (bit_vector)
            requires
                0x1f_ffff < n < 0x2000_0000,
                m == n as u32,
                b0 == ((n >> 22) | 0x80) as u8,
                b1 == ((n >> 15) | 0x80) as u8,
                b2 == ((n >> 8) | 0x80) as u8,
                b3 == (n & 0xff) as u8,
        ;
    } else if n > 0x3fff {
        let b0 = ((n >> 14) | 0x80) as u8;
        let b1 = ((n >> 7) | 0x80) as u8;
        let b2 = (n & 0x7f) as u8;
        assert(b0 & 0x80 != 0 && b1 & 0x80 != 0 && b2 & 0x80 == 0) by (bit_vector)
            requires
                b0 == ((n >> 14) | 0x80) as u8,
                b1 == ((n >> 7) | 0x80) as u8,
                b2 == (n & 0x7f) as u8,
        ;
        assert((((((b0 & 0x7f) as u32) << 7) | ((b1 & 0x7f) as u32)) << 7) | ((b2 & 0x7f) as u32) == m)
            by (bit_vector)
            requires
                0x3fff < n <= 0x1f_ffff,
                m == n as u32,
                b0 == ((n >> 14) | 0x80) as u8,
                b1 == ((n >> 7) | 0x80) as u8,
                b2 == (n & 0x7f) as u8,
        ;
    } else if n > 0x7f {
        let b0 = ((n >> 7) | 0x80) as u8;
        let b1 = (n & 0x7f) as u8;
        assert(b0 & 0x80 != 0 && b1 & 0x80 == 0) by (bit_vector)
            requires
                b0 == ((n >> 7) | 0x80) as u8,
                b1 == (n & 0x7f) as u8,
        ;
        assert(((((b0 & 0x7f) as u32) << 7) | ((b1 & 0x7f) as u32)) == m) by (bit_vector)
            requires
                0x7f < n <= 0x3fff,
                m == n as u32,
                b0 == ((n >> 7) | 0x80) as u8,
                b1 == (n & 0x7f) as u8,
        ;
    } else {
        let b0 = (n & 0x7f) as u8;
        assert(b0 & 0x80 == 0 && ((b0 & 0x7f) as u32) == m) by (bit_vector)
            requires
                0 <= n <= 0x7f,
                m == n as u32,
                b0 == (n & 0x7f) as u8,
        ;
    }
}

/// Reading back a signed integer in the 29-bit range [-2^28, 2^28) gives the integer that
/// was written, and consumes exactly the bytes written for it.
pub proof fn lemma_int_signed_roundtrip(i: i32)
    requires
        -0x1000_0000 <= i < 0x1000_0000,
    ensures
        spec_read_int_signed(spec_write_int(i), 0) == Ok::<(int, i32), Error>(
            (spec_write_int(i).len() as int, i),
        ),
{
    lemma_u29_raw_roundtrip(i);
    let n = u29_payload(i);
    let m = n as u32;
    if i < 0 {
        assert(m & 0x1000_0000 != 0) by (bit_vector)
            requires 0x1000_0000 <= m < 0x2000_0000;
    } else {
        assert(m & 0x1000_0000 == 0) by (bit_vector)
            requires m < 0x1000_0000;
    }
}

/// Reading back an unsigned integer below 2^28 gives the integer that was written, and
/// consumes exactly the bytes written for it.
pub proof fn lemma_int_unsigned_roundtrip(x: i32)
    requires
        0 <= x < 0x1000_0000,
    ensures
        spec_read_int(spec_write_int(x), 0) == Ok::<(int, u32), Error>(
            (spec_write_int(x).len() as int, x as u32),
        ),
{
    lemma_u29_raw_roundtrip(x);
    let m = x as u32;
    assert(m & 0x1000_0000 == 0) by (bit_vector)
        requires m < 0x1000_0000;
}

/// The U29 bytes written for `i` number between one and four, and their count grows with
/// the payload.
pub proof fn lemma_write_int_len(i: i32)
    ensures
        1 <= spec_write_int(i).len() <= 4,
        0 <= u29_payload(i) <= 0x7f ==> spec_write_int(i).len() == 1,
        0x7f < u29_payload(i) <= 0x3fff ==> spec_write_int(i).len() == 2,
        0x3fff < u29_payload(i) <= 0x1f_ffff ==> spec_write_int(i).len() == 3,
        0x1f_ffff < u29_payload(i) ==> spec_write_int(i).len() == 4,
{
}

} // verus!
