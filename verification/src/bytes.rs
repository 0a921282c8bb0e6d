//! Big-endian integers and UTF-8 text on byte sequences.
use vstd::prelude::*;
use vstd::utf8::*;
use crate::errors::{Error, ErrorKind, nom_err};

verus! {

/// The two big-endian bytes of `x`.
pub open spec fn be16(x: u16) -> Seq<u8> {
    seq![(x >> 8) as u8, (x & 0xff) as u8]
}

/// The four big-endian bytes of `x`.
pub open spec fn be32(x: u32) -> Seq<u8> {
    seq![(x >> 24) as u8, ((x >> 16) & 0xff) as u8, ((x >> 8) & 0xff) as u8, (x & 0xff) as u8]
}

/// The eight big-endian bytes of `x`.
pub open spec fn be64(x: u64) -> Seq<u8> {
    be32((x >> 32) as u32) + be32((x & 0xffff_ffff) as u32)
}

/// The big-endian `u16` held by the two bytes at `p`.
pub open spec fn u16_at(s: Seq<u8>, p: int) -> u16 {
    ((s[p] as u16) << 8) | (s[p + 1] as u16)
}

/// The big-endian `u32` held by the four bytes at `p`.
pub open spec fn u32_at(s: Seq<u8>, p: int) -> u32 {
    ((s[p] as u32) << 24) | ((s[p + 1] as u32) << 16) | ((s[p + 2] as u32) << 8) | (s[p + 3] as u32)
}

/// The big-endian `u64` held by the eight bytes at `p`.
pub open spec fn u64_at(s: Seq<u8>, p: int) -> u64 {
    ((u32_at(s, p) as u64) << 32) | (u32_at(s, p + 4) as u64)
}

/// Reading `n` bytes at `p`: the end position, or the end-of-input error at `p`.
pub open spec fn take_spec(s: Seq<u8>, p: int, n: int) -> Result<int, Error> {
    if p + n <= s.len() { Ok(p + n) } else { Err(nom_err(p, ErrorKind::Eof)) }
}

/// Decoding two big-endian bytes gives back the `u16` they encode.
pub proof fn lemma_be16_roundtrip(x: u16)
    ensures
        u16_at(be16(x), 0) == x,
        be16(x).len() == 2,
{
    let b0 = (x >> 8) as u8;
    let b1 = (x & 0xff) as u8;
    assert((((b0 as u16) << 8) | (b1 as u16)) == x) by (bit_vector)
        requires b0 == (x >> 8) as u8, b1 == (x & 0xff) as u8;
}

/// Decoding four big-endian bytes gives back the `u32` they encode.
pub proof fn lemma_be32_roundtrip(x: u32)
    ensures
        u32_at(be32(x), 0) == x,
        be32(x).len() == 4,
{
    let b0 = (x >> 24) as u8;
    let b1 = ((x >> 16) & 0xff) as u8;
    let b2 = ((x >> 8) & 0xff) as u8;
    let b3 = (x & 0xff) as u8;
    assert((((b0 as u32) << 24) | ((b1 as u32) << 16) | ((b2 as u32) << 8) | (b3 as u32)) == x)
        by (bit_vector)
        requires
            b0 == (x >> 24) as u8,
            b1 == ((x >> 16) & 0xff) as u8,
            b2 == ((x >> 8) & 0xff) as u8,
            b3 == (x & 0xff) as u8,
    ;
}

/// Decoding eight big-endian bytes gives back the `u64` they encode.
pub proof fn lemma_be64_roundtrip(x: u64)
    ensures
        u64_at(be64(x), 0) == x,
        be64(x).len() == 8,
{
    let hi = (x >> 32) as u32;
    let lo = (x & 0xffff_ffff) as u32;
    lemma_be32_roundtrip(hi);
    lemma_be32_roundtrip(lo);
    let s = be64(x);
    assert(s.subrange(0, 4) =~= be32(hi));
    assert(s.subrange(4, 8) =~= be32(lo));
    assert(u32_at(s, 0) == u32_at(be32(hi), 0));
    assert(u32_at(s, 4) == u32_at(be32(lo), 0));
    assert((((hi as u64) << 32) | (lo as u64)) == x) by (bit_vector)
        requires hi == (x >> 32) as u32, lo == (x & 0xffff_ffff) as u32;
}

/// Append the byte `x`.
pub fn push_u8(out: &mut Vec<u8>, x: u8)
    ensures
        final(out)@ == old(out)@.push(x),
{
    out.push(x);
}

/// Append the big-endian bytes of `x`.
pub fn push_u16(out: &mut Vec<u8>, x: u16)
    ensures
        final(out)@ == old(out)@ + be16(x),
{
    out.push((x >> 8) as u8);
    out.push((x & 0xff) as u8);
}

/// Append the big-endian bytes of `x`.
pub fn push_u32(out: &mut Vec<u8>, x: u32)
    ensures
        final(out)@ == old(out)@ + be32(x),
{
    out.push((x >> 24) as u8);
    out.push(((x >> 16) & 0xff) as u8);
    out.push(((x >> 8) & 0xff) as u8);
    out.push((x & 0xff) as u8);
}

/// Append the big-endian bytes of `x`.
pub fn push_u64(out: &mut Vec<u8>, x: u64)
    ensures
        final(out)@ == old(out)@ + be64(x),
{
    push_u32(out, (x >> 32) as u32);
    push_u32(out, (x & 0xffff_ffff) as u32);
    assert(final(out)@ =~= old(out)@ + be64(x));
}

/// Append all of `bytes`.
pub fn push_all(out: &mut Vec<u8>, bytes: &[u8])
    ensures
        final(out)@ == old(out)@ + bytes@,
{
    let mut i: usize = 0;
    while i < bytes.len()
        invariant
            i <= bytes.len(),
            out@ == old(out)@ + bytes@.subrange(0, i as int),
        decreases bytes.len() - i,
    {
        out.push(bytes[i]);
        i = i + 1;
        assert(out@ =~= old(out)@ + bytes@.subrange(0, i as int));
    }
    assert(bytes@.subrange(0, i as int) =~= bytes@);
}

/// Read the byte at `pos`.
pub fn read_u8(s: &[u8], pos: usize) -> (r: Result<(usize, u8), Error>)
    ensures
        r == (match take_spec(s@, pos as int, 1) {
            Ok(e) => Ok::<(usize, u8), Error>((e as usize, s@[pos as int])),
            Err(e) => Err(e),
        }),
{
    if pos < s.len() {
        Ok((pos + 1, s[pos]))
    } else {
        Err(Error::Nom(pos, ErrorKind::Eof))
    }
}

/// Read the big-endian `u16` at `pos`.
pub fn read_u16(s: &[u8], pos: usize) -> (r: Result<(usize, u16), Error>)
    ensures
        r == (match take_spec(s@, pos as int, 2) {
            Ok(e) => Ok::<(usize, u16), Error>((e as usize, u16_at(s@, pos as int))),
            Err(e) => Err(e),
        }),
{
    if pos <= s.len() && s.len() - pos >= 2 {
        Ok((pos + 2, ((s[pos] as u16) << 8) | (s[pos + 1] as u16)))
    } else {
        Err(Error::Nom(pos, ErrorKind::Eof))
    }
}

/// Read the big-endian `u32` at `pos`.
pub fn read_u32(s: &[u8], pos: usize) -> (r: Result<(usize, u32), Error>)
    ensures
        r == (match take_spec(s@, pos as int, 4) {
            Ok(e) => Ok::<(usize, u32), Error>((e as usize, u32_at(s@, pos as int))),
            Err(e) => Err(e),
        }),
{
    if pos <= s.len() && s.len() - pos >= 4 {
        Ok((pos + 4, ((s[pos] as u32) << 24) | ((s[pos + 1] as u32) << 16) | ((s[pos + 2] as u32) << 8) | (s[pos + 3] as u32)))
    } else {
        Err(Error::Nom(pos, ErrorKind::Eof))
    }
}

/// Read the big-endian `u64` at `pos`.
pub fn read_u64(s: &[u8], pos: usize) -> (r: Result<(usize, u64), Error>)
    ensures
        r == (match take_spec(s@, pos as int, 8) {
            Ok(e) => Ok::<(usize, u64), Error>((e as usize, u64_at(s@, pos as int))),
            Err(e) => Err(e),
        }),
{
    if pos <= s.len() && s.len() - pos >= 8 {
        let hi = ((s[pos] as u32) << 24) | ((s[pos + 1] as u32) << 16) | ((s[pos + 2] as u32) << 8) | (s[pos + 3] as u32);
        let lo = ((s[pos + 4] as u32) << 24) | ((s[pos + 5] as u32) << 16) | ((s[pos + 6] as u32) << 8) | (s[pos + 7] as u32);
        Ok((pos + 8, ((hi as u64) << 32) | (lo as u64)))
    } else {
        Err(Error::Nom(pos, ErrorKind::Eof))
    }
}

/// Copy out the `n` bytes at `pos`.
pub fn read_bytes(s: &[u8], pos: usize, n: usize) -> (r: Result<(usize, Vec<u8>), Error>)
    ensures
        match take_spec(s@, pos as int, n as int) {
            Ok(e) => r matches Ok((p, v)) && p == e && v@ == s@.subrange(pos as int, e),
            Err(e) => r == Err::<(usize, Vec<u8>), Error>(e),
        },
{
    if pos <= s.len() && s.len() - pos >= n {
        let mut v: Vec<u8> = Vec::new();
        let mut i: usize = 0;
        while i < n
            invariant
                i <= n,
                pos + n <= s.len(),
                v@ == s@.subrange(pos as int, pos + i),
            decreases n - i,
        {
            v.push(s[pos + i]);
            i = i + 1;
            assert(v@ =~= s@.subrange(pos as int, pos + i));
        }
        Ok((pos + n, v))
    } else {
        Err(Error::Nom(pos, ErrorKind::Eof))
    }
}

/// Checks `std::str::from_utf8` on `bytes`; on success the text is handed out as a `&str`.
///
/// Trusted: `std::str::from_utf8` is documented to succeed exactly when the bytes are valid
/// UTF-8, and then to return the string slice whose bytes are `bytes`.
#[verifier::external_body]
fn str_from_utf8(bytes: &[u8]) -> (r: Option<&str>)
    ensures
        r is Some <==> valid_utf8(bytes@),
        r matches Some(t) ==> t@ == decode_utf8(bytes@),
{
    std::str::from_utf8(bytes).ok()
}

/// Decode `bytes` as UTF-8 text.
pub fn utf8_to_string(bytes: &[u8]) -> (r: Option<String>)
    ensures
        r is Some <==> valid_utf8(bytes@),
        r matches Some(t) ==> t@ == decode_utf8(bytes@) && encode_utf8(t@) == bytes@,
{
    match str_from_utf8(bytes) {
        Some(t) => {
            proof { decode_utf8_encode_utf8(bytes@); }
            Some(t.to_owned())
        }
        None => None,
    }
}

/// The UTF-8 bytes of a string.
pub open spec fn str_bytes(s: Seq<char>) -> Seq<u8> {
    encode_utf8(s)
}

/// Append the UTF-8 bytes of `s`.
pub fn push_str(out: &mut Vec<u8>, s: &str)
    ensures
        final(out)@ == old(out)@ + str_bytes(s@),
{
    push_all(out, s.as_bytes());
}

/// The number of UTF-8 bytes in `s`.
pub fn str_len(s: &str) -> (n: usize)
    ensures
        n == str_bytes(s@).len(),
{
    s.as_bytes().len()
}

/// Whether two sequences of bytes are equal.
pub fn bytes_equal(a: &[u8], b: &[u8]) -> (r: bool)
    ensures
        r == (a@ == b@),
{
    if a.len() != b.len() {
        return false;
    }
    let mut i: usize = 0;
    while i < a.len()
        invariant
            i <= a@.len(),
            a@.len() == b@.len(),
            forall|j: int| 0 <= j < i ==> a@[j] == b@[j],
        decreases a.len() - i,
    {
        if a[i] != b[i] {
            return false;
        }
        i += 1;
    }
    assert(a@ =~= b@);
    true
}

/// Whether two sequences of signed integers are equal.
pub fn i32s_equal(a: &Vec<i32>, b: &Vec<i32>) -> (r: bool)
    ensures
        r == (a@ == b@),
{
    if a.len() != b.len() {
        return false;
    }
    let mut i: usize = 0;
    while i < a.len()
        invariant
            i <= a@.len(),
            a@.len() == b@.len(),
            forall|j: int| 0 <= j < i ==> a@[j] == b@[j],
        decreases a.len() - i,
    {
        if a[i] != b[i] {
            return false;
        }
        i += 1;
    }
    assert(a@ =~= b@);
    true
}

/// Whether two sequences of unsigned integers are equal.
pub fn u32s_equal(a: &Vec<u32>, b: &Vec<u32>) -> (r: bool)
    ensures
        r == (a@ == b@),
{
    if a.len() != b.len() {
        return false;
    }
    let mut i: usize = 0;
    while i < a.len()
        invariant
            i <= a@.len(),
            a@.len() == b@.len(),
            forall|j: int| 0 <= j < i ==> a@[j] == b@[j],
        decreases a.len() - i,
    {
        if a[i] != b[i] {
            return false;
        }
        i += 1;
    }
    assert(a@ =~= b@);
    true
}

} // verus!
