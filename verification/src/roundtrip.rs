//! Reading back what was written: the encoders and the decoders agree.
use vstd::prelude::*;
use vstd::utf8::*;
use crate::bytes::{be16, be32, be64, lemma_be16_roundtrip, lemma_be32_roundtrip, lemma_be64_roundtrip, str_bytes, u16_at, u32_at, u64_at};
use crate::errors::{Error, ErrorKind, nom_err};
use crate::read::{HeaderV, header_padding, header_signature, header_version, spec_lso, spec_lso_header, spec_tag};
use crate::write::spec_header_bytes;
use crate::amf0::read::{Amf0State, spec_amf0_string, spec_amf0_value, spec_long_string, spec_text};
use crate::amf0::write::{enc0_long_string, enc0_string, enc0_value};
use crate::types::{AMFVersion, ElementV, ValueV};
use crate::packet::{HeaderV as PacketHeaderV, MessageV};
use crate::packet::read::{fresh_amf0, spec_packet, spec_packet_header, spec_packet_headers, spec_packet_message, spec_packet_messages};
use crate::packet::write::{PacketEnc, after_p, enc_packet, enc_packet_header, enc_packet_headers, enc_packet_message, enc_packet_messages, enc_packet_value};
use crate::amf3::integer::{lemma_int_signed_roundtrip, spec_read_int_signed, spec_read_u29_raw, spec_write_int};
use crate::amf3::length::{Length, lemma_length_roundtrip, spec_read_length, spec_write_length};
use crate::amf3::element_cache::{first_same, lemma_first_same};
use crate::amf3::read::{Amf3State, spec_body, spec_byte_stream, spec_element, spec_element_list, spec_i32s, spec_more_elements, spec_string, spec_u32s, spec_u64s, spec_value};
use crate::amf3::write::{Amf3EncState, EncStep, after, be32s, be64s, enc_body, enc_byte_string, enc_element, enc_value};
use crate::types::{lemma_amf_version_roundtrip, spec_amf_version, spec_amf_version_byte};

pub mod nested;
pub mod arrays;
pub mod objects;
pub mod plain;
pub mod external;

use crate::roundtrip::nested::{amf0_deep_read_back, amf0_native, lemma_amf0_value_at};
use crate::roundtrip::plain::{amf3_plain, lemma_amf3_plain_at, lemma_plain_writes, plain_back, plain_size, slots_agree};

verus! {

/// The big-endian `u16` at `p` of `s` is the one at `q` of `t` when those bytes agree.
pub(crate) proof fn lemma_u16_at_same(s: Seq<u8>, p: int, t: Seq<u8>, q: int)
    requires
        0 <= p,
        p + 2 <= s.len(),
        0 <= q,
        q + 2 <= t.len(),
        s.subrange(p, p + 2) == t.subrange(q, q + 2),
    ensures
        u16_at(s, p) == u16_at(t, q),
{
    assert(s[p] == s.subrange(p, p + 2)[0]);
    assert(s[p + 1] == s.subrange(p, p + 2)[1]);
    assert(t[q] == t.subrange(q, q + 2)[0]);
    assert(t[q + 1] == t.subrange(q, q + 2)[1]);
}

/// The big-endian `u32` at `p` of `s` is the one at `q` of `t` when those bytes agree.
pub(crate) proof fn lemma_u32_at_same(s: Seq<u8>, p: int, t: Seq<u8>, q: int)
    requires
        0 <= p,
        p + 4 <= s.len(),
        0 <= q,
        q + 4 <= t.len(),
        s.subrange(p, p + 4) == t.subrange(q, q + 4),
    ensures
        u32_at(s, p) == u32_at(t, q),
{
    assert(s[p] == s.subrange(p, p + 4)[0]);
    assert(s[p + 1] == s.subrange(p, p + 4)[1]);
    assert(s[p + 2] == s.subrange(p, p + 4)[2]);
    assert(s[p + 3] == s.subrange(p, p + 4)[3]);
    assert(t[q] == t.subrange(q, q + 4)[0]);
    assert(t[q + 1] == t.subrange(q, q + 4)[1]);
    assert(t[q + 2] == t.subrange(q, q + 4)[2]);
    assert(t[q + 3] == t.subrange(q, q + 4)[3]);
}

/// The big-endian `u64` at `p` of `s` is the one at `q` of `t` when those bytes agree.
pub(crate) proof fn lemma_u64_at_same(s: Seq<u8>, p: int, t: Seq<u8>, q: int)
    requires
        0 <= p,
        p + 8 <= s.len(),
        0 <= q,
        q + 8 <= t.len(),
        s.subrange(p, p + 8) == t.subrange(q, q + 8),
    ensures
        u64_at(s, p) == u64_at(t, q),
{
    assert(s.subrange(p, p + 4) =~= s.subrange(p, p + 8).subrange(0, 4));
    assert(t.subrange(q, q + 4) =~= t.subrange(q, q + 8).subrange(0, 4));
    assert(s.subrange(p + 4, p + 8) =~= s.subrange(p, p + 8).subrange(4, 8));
    assert(t.subrange(q + 4, q + 8) =~= t.subrange(q, q + 8).subrange(4, 8));
    lemma_u32_at_same(s, p, t, q);
    lemma_u32_at_same(s, p + 4, t, q + 4);
}

/// Reading `n` bytes of text at `p` that are the UTF-8 bytes of `name` gives `name`.
proof fn lemma_text_roundtrip(s: Seq<u8>, p: int, name: Seq<char>)
    requires
        0 <= p,
        p + str_bytes(name).len() <= s.len(),
        s.subrange(p, p + str_bytes(name).len()) == str_bytes(name),
    ensures
        spec_text(s, p, str_bytes(name).len() as int) == Ok::<(int, Seq<char>), Error>((p + str_bytes(name).len(), name)),
{
    encode_utf8_valid_utf8(name);
    encode_utf8_decode_utf8(name);
}

/// Reading a string at `p` whose bytes there are those written for `name` gives `name`.
pub proof fn lemma_string_roundtrip(s: Seq<u8>, p: int, name: Seq<char>)
    requires
        str_bytes(name).len() <= 65535,
        0 <= p,
        p + enc0_string(name).len() <= s.len(),
        s.subrange(p, p + enc0_string(name).len()) == enc0_string(name),
    ensures
        spec_amf0_string(s, p) == Ok::<(int, Seq<char>), Error>((p + enc0_string(name).len(), name)),
{
    let n = str_bytes(name).len() as int;
    let e = enc0_string(name);
    lemma_be16_roundtrip((n % 65536) as u16);
    assert(e.subrange(0, 2) =~= be16((n % 65536) as u16));
    assert(s.subrange(p, p + 2) =~= e.subrange(0, 2));
    assert(be16((n % 65536) as u16).subrange(0, 2) =~= be16((n % 65536) as u16));
    lemma_u16_at_same(s, p, be16((n % 65536) as u16), 0);
    assert(s.subrange(p + 2, p + 2 + n) =~= e.subrange(2, 2 + n));
    assert(e.subrange(2, 2 + n) =~= str_bytes(name));
    lemma_text_roundtrip(s, p + 2, name);
}

/// Reading a long string at `p` whose bytes there are those written for `name` gives `name`.
pub proof fn lemma_long_string_roundtrip(s: Seq<u8>, p: int, name: Seq<char>)
    requires
        str_bytes(name).len() < 0x1_0000_0000,
        0 <= p,
        p + enc0_long_string(name).len() <= s.len(),
        s.subrange(p, p + enc0_long_string(name).len()) == enc0_long_string(name),
    ensures
        spec_long_string(s, p) == Ok::<(int, Seq<char>), Error>((p + enc0_long_string(name).len(), name)),
{
    let n = str_bytes(name).len() as int;
    let e = enc0_long_string(name);
    let x = (n % 0x1_0000_0000) as u32;
    lemma_be32_roundtrip(x);
    assert(e.subrange(0, 4) =~= be32(x));
    assert(s.subrange(p, p + 4) =~= e.subrange(0, 4));
    assert(be32(x).subrange(0, 4) =~= be32(x));
    lemma_u32_at_same(s, p, be32(x), 0);
    assert(s.subrange(p + 4, p + 4 + n) =~= e.subrange(4, 4 + n));
    assert(e.subrange(4, 4 + n) =~= str_bytes(name));
    lemma_text_roundtrip(s, p + 4, name);
}

/// Reading back the bytes of a written LSO header gives the header, whatever follows it.
pub proof fn lemma_header_roundtrip(h: HeaderV, rest: Seq<u8>)
    requires
        str_bytes(h.name).len() <= 65535,
    ensures
        spec_lso_header(spec_header_bytes(h) + rest, 0)
            == Ok::<(int, HeaderV), Error>((spec_header_bytes(h).len() as int, h)),
{
    let b = spec_header_bytes(h);
    let s = b + rest;
    let n = str_bytes(h.name).len() as int;
    let e = enc0_string(h.name);
    assert(e.len() == 2 + n);
    assert(b.len() == 22 + n);
    assert(s.subrange(0, 2) =~= header_version());
    assert(spec_tag(s, 0, header_version()) == Ok::<int, Error>(2));
    lemma_be32_roundtrip(h.length);
    assert(s.subrange(2, 6) =~= be32(h.length).subrange(0, 4));
    lemma_u32_at_same(s, 2, be32(h.length), 0);
    assert(s.subrange(6, 16) =~= header_signature());
    assert(spec_tag(s, 6, header_signature()) == Ok::<int, Error>(16));
    assert(s.subrange(16, 16 + e.len() as int) =~= e);
    lemma_string_roundtrip(s, 16, h.name);
    assert(s.subrange(18 + n, 21 + n) =~= header_padding());
    assert(spec_tag(s, 18 + n, header_padding()) == Ok::<int, Error>(21 + n));
    assert(s[21 + n] == spec_amf_version_byte(h.format_version));
    lemma_amf_version_roundtrip(h.format_version);
}

} // verus!

verus! {

/// The values whose AMF0 encoding holds no other value: texts must fit a 32-bit length.
/// Values that only AMF3 can hold are written as unsupported.
pub open spec fn amf0_scalar(v: ValueV) -> bool {
    match v {
        ValueV::String(s) => str_bytes(s).len() < 0x1_0000_0000,
        ValueV::XML { value, .. } => str_bytes(value).len() < 0x1_0000_0000,
        ValueV::Object { .. } | ValueV::ECMAArray { .. } | ValueV::StrictArray { .. } | ValueV::AMF3(_) => false,
        _ => true,
    }
}

/// What reading back a written scalar AMF0 value gives: a date without a time zone gets zone
/// zero, XML reads back as a string, and values that only AMF3 can hold read back as
/// unsupported.
pub open spec fn amf0_read_back(v: ValueV) -> ValueV {
    match v {
        ValueV::Number(_) | ValueV::Bool(_) | ValueV::String(_) | ValueV::Null | ValueV::Undefined
        | ValueV::Unsupported | ValueV::Reference(_) => v,
        ValueV::Date { time, timezone_or_utc } => ValueV::Date {
            time,
            timezone_or_utc: Some(match timezone_or_utc {
                Some(z) => z,
                None => 0u16,
            }),
        },
        ValueV::XML { value, .. } => ValueV::XML { value, is_string: true },
        _ => ValueV::Unsupported,
    }
}

/// The AMF0 value read at `p` when the bytes written for the scalar `v` stand there.
pub open spec fn amf0_scalar_read(st: Amf0State, v: ValueV, s: Seq<u8>, p: int) -> bool {
    spec_amf0_value(st, s, p) == Ok::<(Amf0State, int, ValueV), Error>((
        Amf0State { cache: st.cache.push(ValueV::Undefined), ..st },
        p + enc0_value(v)->Ok_0.len(),
        amf0_read_back(v),
    ))
}

/// The bytes written for `v` stand at `p` of `s`.
pub open spec fn written_at(b: Seq<u8>, s: Seq<u8>, p: int) -> bool {
    0 <= p && p + b.len() <= s.len() && s.subrange(p, p + b.len()) == b
}

/// The bytes from `i` to `j` of bytes `b` standing at `p` of `s` stand at `p + i` of `s`.
pub(crate) proof fn lemma_written_part(b: Seq<u8>, s: Seq<u8>, p: int, i: int, j: int)
    requires
        written_at(b, s, p),
        0 <= i <= j <= b.len(),
    ensures
        written_at(b.subrange(i, j), s, p + i),
{
    assert(s.subrange(p + i, p + j) =~= s.subrange(p, p + b.len()).subrange(i, j));
}

#[verifier::spinoff_prover]
#[verifier::rlimit(20)]
proof fn lemma_amf0_number_at(st: Amf0State, x: u64, s: Seq<u8>, p: int)
    requires
        written_at(enc0_value(ValueV::Number(x))->Ok_0, s, p),
    ensures
        amf0_scalar_read(st, ValueV::Number(x), s, p),
{
    let b = enc0_value(ValueV::Number(x))->Ok_0;
    lemma_written_part(b, s, p, 0, 1);
    lemma_written_part(b, s, p, 1, 9);
    assert(s[p] == s.subrange(p, p + 1)[0]);
    assert(b.subrange(1, 9) =~= be64(x));
    lemma_be64_roundtrip(x);
    assert(be64(x).subrange(0, 8) =~= be64(x));
    lemma_u64_at_same(s, p + 1, be64(x), 0);
}

#[verifier::spinoff_prover]
#[verifier::rlimit(20)]
proof fn lemma_amf0_bool_at(st: Amf0State, x: bool, s: Seq<u8>, p: int)
    requires
        written_at(enc0_value(ValueV::Bool(x))->Ok_0, s, p),
    ensures
        amf0_scalar_read(st, ValueV::Bool(x), s, p),
{
    let b = enc0_value(ValueV::Bool(x))->Ok_0;
    assert(s[p] == s.subrange(p, p + 2)[0]);
    assert(s[p + 1] == s.subrange(p, p + 2)[1]);
}

#[verifier::spinoff_prover]
#[verifier::rlimit(20)]
proof fn lemma_amf0_string_at(st: Amf0State, t: Seq<char>, s: Seq<u8>, p: int)
    requires
        str_bytes(t).len() < 0x1_0000_0000,
        written_at(enc0_value(ValueV::String(t))->Ok_0, s, p),
    ensures
        amf0_scalar_read(st, ValueV::String(t), s, p),
{
    let b = enc0_value(ValueV::String(t))->Ok_0;
    lemma_written_part(b, s, p, 0, 1);
    assert(s[p] == s.subrange(p, p + 1)[0]);
    lemma_written_part(b, s, p, 1, b.len() as int);
    if str_bytes(t).len() > 65535 {
        assert(b.subrange(1, b.len() as int) =~= enc0_long_string(t));
        lemma_long_string_roundtrip(s, p + 1, t);
    } else {
        assert(b.subrange(1, b.len() as int) =~= enc0_string(t));
        lemma_string_roundtrip(s, p + 1, t);
    }
}

#[verifier::spinoff_prover]
#[verifier::rlimit(20)]
proof fn lemma_amf0_reference_at(st: Amf0State, r: u16, s: Seq<u8>, p: int)
    requires
        written_at(enc0_value(ValueV::Reference(r))->Ok_0, s, p),
    ensures
        amf0_scalar_read(st, ValueV::Reference(r), s, p),
{
    let b = enc0_value(ValueV::Reference(r))->Ok_0;
    lemma_written_part(b, s, p, 0, 1);
    lemma_written_part(b, s, p, 1, 3);
    assert(s[p] == s.subrange(p, p + 1)[0]);
    assert(b.subrange(1, 3) =~= be16(r));
    lemma_be16_roundtrip(r);
    assert(be16(r).subrange(0, 2) =~= be16(r));
    lemma_u16_at_same(s, p + 1, be16(r), 0);
}

#[verifier::spinoff_prover]
#[verifier::rlimit(20)]
proof fn lemma_amf0_date_at(st: Amf0State, time: u64, tz: Option<u16>, s: Seq<u8>, p: int)
    requires
        written_at(enc0_value(ValueV::Date { time, timezone_or_utc: tz })->Ok_0, s, p),
    ensures
        amf0_scalar_read(st, ValueV::Date { time, timezone_or_utc: tz }, s, p),
{
    let b = enc0_value(ValueV::Date { time, timezone_or_utc: tz })->Ok_0;
    let z = match tz {
        Some(z) => z,
        None => 0u16,
    };
    lemma_written_part(b, s, p, 0, 1);
    lemma_written_part(b, s, p, 1, 9);
    lemma_written_part(b, s, p, 9, 11);
    assert(s[p] == s.subrange(p, p + 1)[0]);
    assert(b.subrange(1, 9) =~= be64(time));
    assert(b.subrange(9, 11) =~= be16(z));
    lemma_be64_roundtrip(time);
    lemma_be16_roundtrip(z);
    assert(be64(time).subrange(0, 8) =~= be64(time));
    assert(be16(z).subrange(0, 2) =~= be16(z));
    lemma_u64_at_same(s, p + 1, be64(time), 0);
    lemma_u16_at_same(s, p + 9, be16(z), 0);
}

#[verifier::spinoff_prover]
#[verifier::rlimit(20)]
proof fn lemma_amf0_xml_at(st: Amf0State, value: Seq<char>, is_string: bool, s: Seq<u8>, p: int)
    requires
        str_bytes(value).len() < 0x1_0000_0000,
        written_at(enc0_value(ValueV::XML { value, is_string })->Ok_0, s, p),
    ensures
        amf0_scalar_read(st, ValueV::XML { value, is_string }, s, p),
{
    let b = enc0_value(ValueV::XML { value, is_string })->Ok_0;
    lemma_written_part(b, s, p, 0, 1);
    lemma_written_part(b, s, p, 1, b.len() as int);
    assert(s[p] == s.subrange(p, p + 1)[0]);
    assert(b.subrange(1, b.len() as int) =~= enc0_long_string(value));
    lemma_long_string_roundtrip(s, p + 1, value);
}

#[verifier::spinoff_prover]
#[verifier::rlimit(20)]
proof fn lemma_amf0_marker_only_at(st: Amf0State, v: ValueV, s: Seq<u8>, p: int)
    requires
        amf0_scalar(v),
        enc0_value(v) is Ok,
        enc0_value(v)->Ok_0.len() == 1,
        written_at(enc0_value(v)->Ok_0, s, p),
    ensures
        amf0_scalar_read(st, v, s, p),
{
    assert(s[p] == s.subrange(p, p + 1)[0]);
}

/// Reading back a written scalar AMF0 value gives the value as `amf0_read_back` says, whatever
/// stands around it, and takes one slot of the decoder's reference cache.
pub proof fn lemma_amf0_scalar_roundtrip(st: Amf0State, v: ValueV, s: Seq<u8>, p: int)
    requires
        amf0_scalar(v),
        enc0_value(v) is Ok,
        written_at(enc0_value(v)->Ok_0, s, p),
    ensures
        amf0_scalar_read(st, v, s, p),
{
    match v {
        ValueV::Number(x) => lemma_amf0_number_at(st, x, s, p),
        ValueV::Bool(x) => lemma_amf0_bool_at(st, x, s, p),
        ValueV::String(t) => lemma_amf0_string_at(st, t, s, p),
        ValueV::Reference(r) => lemma_amf0_reference_at(st, r, s, p),
        ValueV::Date { time, timezone_or_utc } => lemma_amf0_date_at(st, time, timezone_or_utc, s, p),
        ValueV::XML { value, is_string } => lemma_amf0_xml_at(st, value, is_string, s, p),
        _ => lemma_amf0_marker_only_at(st, v, s, p),
    }
}

} // verus!

verus! {

/// Reading a U29 at `p` of `t` reads the same as at the start of `w` when `w` stands at `p`
/// and the read ends within it.
pub(crate) proof fn lemma_u29_raw_local(w: Seq<u8>, t: Seq<u8>, p: int)
    requires
        0 <= p,
        p + w.len() <= t.len(),
        t.subrange(p, p + w.len()) == w,
        spec_read_u29_raw(w, 0) is Ok,
    ensures
        spec_read_u29_raw(t, p) == (match spec_read_u29_raw(w, 0) {
            Ok((k, v)) => Ok::<(int, u32), Error>((p + k, v)),
            Err(e) => Err(e),
        }),
{
    assert forall|j: int| 0 <= j < w.len() implies t[p + j] == w[j] by {
        assert(t.subrange(p, p + w.len())[j] == t[p + j]);
    }
}

/// Reading a length header at `p` of `t` gives back the length written there.
pub(crate) proof fn lemma_read_length_at(l: Length, t: Seq<u8>, p: int)
    requires
        match l {
            Length::Size(x) => x < 0x0800_0000,
            Length::Reference(x) => x < 0x0800_0000,
        },
        0 <= p,
        p + spec_write_length(l).len() <= t.len(),
        t.subrange(p, p + spec_write_length(l).len()) == spec_write_length(l),
    ensures
        spec_read_length(t, p) == Ok::<(int, Length), Error>((p + spec_write_length(l).len(), l)),
{
    lemma_length_roundtrip(l);
    lemma_u29_raw_local(spec_write_length(l), t, p);
}

/// Reading a signed U29 at `p` of `t` gives back the integer written there.
proof fn lemma_read_int_at(i: i32, t: Seq<u8>, p: int)
    requires
        -0x1000_0000 <= i < 0x1000_0000,
        0 <= p,
        p + spec_write_int(i).len() <= t.len(),
        t.subrange(p, p + spec_write_int(i).len()) == spec_write_int(i),
    ensures
        spec_read_int_signed(t, p) == Ok::<(int, i32), Error>((p + spec_write_int(i).len(), i)),
{
    lemma_int_signed_roundtrip(i);
    lemma_u29_raw_local(spec_write_int(i), t, p);
}

/// Reading back a written byte string gives the bytes, whatever stands around them, while
/// the encoder's and the decoder's string tables agree; they agree after it too.
pub proof fn lemma_byte_string_roundtrip(enc: Amf3EncState, dec: Amf3State, b: Seq<u8>, s: Seq<u8>, p: int)
    requires
        enc.strings == dec.strings,
        enc.strings.len() < 0x0800_0000,
        b.len() < 0x0800_0000,
        written_at(enc_byte_string(enc, b).1, s, p),
    ensures
        spec_byte_stream(dec, s, p) == Ok::<(Amf3State, int, Seq<u8>), Error>((
            Amf3State { strings: enc_byte_string(enc, b).0.strings, ..dec },
            p + enc_byte_string(enc, b).1.len(),
            b,
        )),
{
    let (enc1, w) = enc_byte_string(enc, b);
    if b.len() == 0 {
        lemma_read_length_at(Length::Size(0), s, p);
        assert(b =~= Seq::<u8>::empty());
    } else {
        lemma_first_same::<Vec<u8>>(enc.strings, b, 0);
        match first_same::<Vec<u8>>(enc.strings, b, 0) {
            Some(i) => {
                lemma_read_length_at(Length::Reference(i as usize), s, p);
            },
            None => {
                let l = spec_write_length(Length::Size(b.len() as u32));
                lemma_written_part(w, s, p, 0, l.len() as int);
                assert(w.subrange(0, l.len() as int) =~= l);
                lemma_read_length_at(Length::Size(b.len() as u32), s, p);
                lemma_written_part(w, s, p, l.len() as int, w.len() as int);
                assert(w.subrange(l.len() as int, w.len() as int) =~= b);
            },
        }
    }
}

/// Reading back a written UTF-8 string gives the string, while the string tables agree; they
/// agree after it too.
pub proof fn lemma_amf3_string_roundtrip(enc: Amf3EncState, dec: Amf3State, t: Seq<char>, s: Seq<u8>, p: int)
    requires
        enc.strings == dec.strings,
        enc.strings.len() < 0x0800_0000,
        str_bytes(t).len() < 0x0800_0000,
        written_at(enc_byte_string(enc, str_bytes(t)).1, s, p),
    ensures
        spec_string(dec, s, p) == Ok::<(Amf3State, int, Seq<char>), Error>((
            Amf3State { strings: enc_byte_string(enc, str_bytes(t)).0.strings, ..dec },
            p + enc_byte_string(enc, str_bytes(t)).1.len(),
            t,
        )),
{
    lemma_byte_string_roundtrip(enc, dec, str_bytes(t), s, p);
    encode_utf8_valid_utf8(t);
    encode_utf8_decode_utf8(t);
}

/// The values whose AMF3 encoding holds no other value and no reference: integers in the
/// 29-bit range, strings, XML and byte arrays below 2^27 bytes, vectors of numbers below 2^27
/// items, dates, and the constants.
pub open spec fn amf3_scalar(v: ValueV) -> bool {
    match v {
        ValueV::Number(_) | ValueV::Bool(_) | ValueV::Null | ValueV::Undefined | ValueV::Date { .. } => true,
        ValueV::Integer(i) => -0x1000_0000 <= i < 0x1000_0000,
        ValueV::String(s) => str_bytes(s).len() < 0x0800_0000,
        ValueV::XML { value, .. } => str_bytes(value).len() < 0x0800_0000,
        ValueV::ByteArray(b) => b.len() < 0x0800_0000,
        ValueV::VectorInt { values, .. } => values.len() < 0x0800_0000,
        ValueV::VectorUInt { values, .. } => values.len() < 0x0800_0000,
        ValueV::VectorDouble { values, .. } => values.len() < 0x0800_0000,
        _ => false,
    }
}

/// What reading back a written scalar AMF3 value gives: a date loses its time zone, which
/// AMF3 does not hold.
pub open spec fn amf3_read_back(v: ValueV) -> ValueV {
    match v {
        ValueV::Date { time, .. } => ValueV::Date { time, timezone_or_utc: None },
        _ => v,
    }
}

/// The encoder state after writing a scalar value.
pub open spec fn amf3_scalar_state(enc: Amf3EncState, v: ValueV) -> Amf3EncState {
    enc_value(enc, v)->Ok_0.0
}

/// The bytes written for a scalar AMF3 value.
pub open spec fn amf3_scalar_bytes(enc: Amf3EncState, v: ValueV) -> Seq<u8> {
    enc_value(enc, v)->Ok_0.1
}

/// The decoder state after reading back a scalar value, with the string table `strings`: a
/// date, XML, a byte array or a vector of numbers also takes the next slot of the object
/// table.
pub open spec fn amf3_dec_after(dec: Amf3State, v: ValueV, strings: Seq<Seq<u8>>) -> Amf3State {
    match v {
        ValueV::Date { .. } | ValueV::XML { .. } | ValueV::ByteArray(_) | ValueV::VectorInt { .. }
        | ValueV::VectorUInt { .. } | ValueV::VectorDouble { .. } => Amf3State {
            strings,
            objects: dec.objects.push(amf3_read_back(v)),
            ..dec
        },
        _ => Amf3State { strings, ..dec },
    }
}

/// Every scalar AMF3 value can be written; only a string can join the string table.
pub proof fn lemma_amf3_scalar_writes(enc: Amf3EncState, v: ValueV)
    requires
        amf3_scalar(v),
    ensures
        enc_value(enc, v) == Ok::<(Amf3EncState, Seq<u8>), crate::errors::EncodeError>((amf3_scalar_state(enc, v), amf3_scalar_bytes(enc, v))),
        amf3_scalar_state(enc, v).strings == (match v {
            ValueV::String(t) => enc_byte_string(enc, str_bytes(t)).0.strings,
            _ => enc.strings,
        }),
        amf3_scalar_state(enc, v).strings.len() <= enc.strings.len() + 1,
        amf3_scalar_state(enc, v).traits == enc.traits,
{
}

/// A date reads back with its time and no time zone, and takes an object table slot.
#[verifier::spinoff_prover]
#[verifier::rlimit(30)]
proof fn lemma_amf3_date_at(enc: Amf3EncState, dec: Amf3State, time: u64, tz: Option<u16>, s: Seq<u8>, p: int)
    requires
        written_at(amf3_scalar_bytes(enc, ValueV::Date { time, timezone_or_utc: tz }), s, p),
    ensures
        spec_value(dec, s, p) == Ok::<(Amf3State, int, ValueV), Error>((
            Amf3State { objects: dec.objects.push(ValueV::Date { time, timezone_or_utc: None }), ..dec },
            p + amf3_scalar_bytes(enc, ValueV::Date { time, timezone_or_utc: tz }).len(),
            ValueV::Date { time, timezone_or_utc: None },
        )),
{
    let b = amf3_scalar_bytes(enc, ValueV::Date { time, timezone_or_utc: tz });
    let l = spec_write_length(Length::Size(0));
    assert(b =~= seq![0x08u8] + l + be64(time));
    lemma_written_part(b, s, p, 0, 1);
    assert(s[p] == s.subrange(p, p + 1)[0]);
    lemma_written_part(b, s, p, 1, 1 + l.len() as int);
    assert(b.subrange(1, 1 + l.len() as int) =~= l);
    lemma_read_length_at(Length::Size(0), s, p + 1);
    let q1 = p + 1 + l.len();
    lemma_written_part(b, s, p, 1 + l.len() as int, b.len() as int);
    assert(b.subrange(1 + l.len() as int, b.len() as int) =~= be64(time));
    lemma_be64_roundtrip(time);
    assert(be64(time).subrange(0, 8) =~= be64(time));
    lemma_u64_at_same(s, q1, be64(time), 0);
    assert(dec.objects.push(ValueV::Null).update(dec.objects.len() as int, ValueV::Date { time, timezone_or_utc: None })
        =~= dec.objects.push(ValueV::Date { time, timezone_or_utc: None }));
}

/// XML reads back as written, and takes an object table slot.
#[verifier::spinoff_prover]
#[verifier::rlimit(30)]
proof fn lemma_amf3_xml_at(enc: Amf3EncState, dec: Amf3State, value: Seq<char>, is_string: bool, s: Seq<u8>, p: int)
    requires
        str_bytes(value).len() < 0x0800_0000,
        written_at(amf3_scalar_bytes(enc, ValueV::XML { value, is_string }), s, p),
    ensures
        spec_value(dec, s, p) == Ok::<(Amf3State, int, ValueV), Error>((
            Amf3State { objects: dec.objects.push(ValueV::XML { value, is_string }), ..dec },
            p + amf3_scalar_bytes(enc, ValueV::XML { value, is_string }).len(),
            ValueV::XML { value, is_string },
        )),
{
    let v = ValueV::XML { value, is_string };
    let b = amf3_scalar_bytes(enc, v);
    let bs = str_bytes(value);
    let l = spec_write_length(Length::Size(bs.len() as u32));
    assert(b =~= seq![if is_string { 0x0bu8 } else { 0x07u8 }] + l + bs);
    lemma_written_part(b, s, p, 0, 1);
    assert(s[p] == s.subrange(p, p + 1)[0]);
    lemma_written_part(b, s, p, 1, 1 + l.len() as int);
    assert(b.subrange(1, 1 + l.len() as int) =~= l);
    lemma_read_length_at(Length::Size(bs.len() as u32), s, p + 1);
    let q1 = p + 1 + l.len();
    lemma_written_part(b, s, p, 1 + l.len() as int, b.len() as int);
    assert(b.subrange(1 + l.len() as int, b.len() as int) =~= bs);
    encode_utf8_valid_utf8(value);
    encode_utf8_decode_utf8(value);
    assert(dec.objects.push(ValueV::Null).update(dec.objects.len() as int, v) =~= dec.objects.push(v));
}

/// A byte array reads back as written, and takes an object table slot.
#[verifier::spinoff_prover]
#[verifier::rlimit(30)]
proof fn lemma_amf3_byte_array_at(enc: Amf3EncState, dec: Amf3State, bytes: Seq<u8>, s: Seq<u8>, p: int)
    requires
        bytes.len() < 0x0800_0000,
        written_at(amf3_scalar_bytes(enc, ValueV::ByteArray(bytes)), s, p),
    ensures
        spec_value(dec, s, p) == Ok::<(Amf3State, int, ValueV), Error>((
            Amf3State { objects: dec.objects.push(ValueV::ByteArray(bytes)), ..dec },
            p + amf3_scalar_bytes(enc, ValueV::ByteArray(bytes)).len(),
            ValueV::ByteArray(bytes),
        )),
{
    let v = ValueV::ByteArray(bytes);
    let b = amf3_scalar_bytes(enc, v);
    let l = spec_write_length(Length::Size(bytes.len() as u32));
    assert(b =~= seq![0x0cu8] + l + bytes);
    lemma_written_part(b, s, p, 0, 1);
    assert(s[p] == s.subrange(p, p + 1)[0]);
    lemma_written_part(b, s, p, 1, 1 + l.len() as int);
    assert(b.subrange(1, 1 + l.len() as int) =~= l);
    lemma_read_length_at(Length::Size(bytes.len() as u32), s, p + 1);
    lemma_written_part(b, s, p, 1 + l.len() as int, b.len() as int);
    assert(b.subrange(1 + l.len() as int, b.len() as int) =~= bytes);
    assert(dec.objects.push(ValueV::Null).update(dec.objects.len() as int, v) =~= dec.objects.push(v));
}

/// The bytes of `u32`s are four for each.
proof fn lemma_be32s_len(xs: Seq<u32>)
    ensures
        be32s(xs).len() == 4 * xs.len(),
    decreases xs.len(),
{
    if xs.len() > 0 {
        lemma_be32s_len(xs.drop_last());
        lemma_be32_roundtrip(xs.last());
    }
}

/// The bytes of `u32`s: the first one's, then the rest's.
proof fn lemma_be32s_cons(xs: Seq<u32>)
    requires
        xs.len() > 0,
    ensures
        be32s(xs) == be32(xs[0]) + be32s(xs.drop_first()),
    decreases xs.len(),
{
    if xs.len() == 1 {
        assert(xs.drop_last() =~= Seq::<u32>::empty());
        assert(xs.drop_first() =~= Seq::<u32>::empty());
        assert(be32s(xs) =~= be32(xs[0]) + be32s(xs.drop_first()));
    } else {
        lemma_be32s_cons(xs.drop_last());
        assert(xs.drop_last().drop_first() =~= xs.drop_first().drop_last());
        assert(xs.drop_first().last() == xs.last());
        assert(be32s(xs) =~= be32(xs[0]) + be32s(xs.drop_first()));
    }
}

/// The bytes of `u64`s are eight for each.
proof fn lemma_be64s_len(xs: Seq<u64>)
    ensures
        be64s(xs).len() == 8 * xs.len(),
    decreases xs.len(),
{
    if xs.len() > 0 {
        lemma_be64s_len(xs.drop_last());
        lemma_be64_roundtrip(xs.last());
    }
}

/// The bytes of `u64`s: the first one's, then the rest's.
proof fn lemma_be64s_cons(xs: Seq<u64>)
    requires
        xs.len() > 0,
    ensures
        be64s(xs) == be64(xs[0]) + be64s(xs.drop_first()),
    decreases xs.len(),
{
    if xs.len() == 1 {
        assert(xs.drop_last() =~= Seq::<u64>::empty());
        assert(xs.drop_first() =~= Seq::<u64>::empty());
        assert(be64s(xs) =~= be64(xs[0]) + be64s(xs.drop_first()));
    } else {
        lemma_be64s_cons(xs.drop_last());
        assert(xs.drop_last().drop_first() =~= xs.drop_first().drop_last());
        assert(xs.drop_first().last() == xs.last());
        assert(be64s(xs) =~= be64(xs[0]) + be64s(xs.drop_first()));
    }
}

/// Reading back written `u32`s gives them.
proof fn lemma_u32s_at(xs: Seq<u32>, s: Seq<u8>, p: int)
    requires
        written_at(be32s(xs), s, p),
    ensures
        spec_u32s(s, p, xs.len() as int) == Ok::<(int, Seq<u32>), Error>((p + 4 * xs.len(), xs)),
    decreases xs.len(),
{
    lemma_be32s_len(xs);
    if xs.len() > 0 {
        let b = be32s(xs);
        lemma_be32s_cons(xs);
        lemma_be32_roundtrip(xs[0]);
        lemma_written_part(b, s, p, 0, 4);
        assert(b.subrange(0, 4) =~= be32(xs[0]));
        assert(be32(xs[0]).subrange(0, 4) =~= be32(xs[0]));
        lemma_u32_at_same(s, p, be32(xs[0]), 0);
        lemma_written_part(b, s, p, 4, b.len() as int);
        assert(b.subrange(4, b.len() as int) =~= be32s(xs.drop_first()));
        lemma_u32s_at(xs.drop_first(), s, p + 4);
        assert(seq![xs[0]] + xs.drop_first() =~= xs);
    } else {
        assert(xs =~= Seq::<u32>::empty());
    }
}

/// The bytes of `i32`s, each taken as the `u32` of the same bits.
pub open spec fn i32_bits(xs: Seq<i32>) -> Seq<u32> {
    xs.map_values(|x: i32| x as u32)
}

/// Reading back written `i32`s gives them.
proof fn lemma_i32s_at(xs: Seq<i32>, s: Seq<u8>, p: int)
    requires
        written_at(be32s(i32_bits(xs)), s, p),
    ensures
        spec_i32s(s, p, xs.len() as int) == Ok::<(int, Seq<i32>), Error>((p + 4 * xs.len(), xs)),
    decreases xs.len(),
{
    let ys = i32_bits(xs);
    lemma_be32s_len(ys);
    if xs.len() > 0 {
        let b = be32s(ys);
        lemma_be32s_cons(ys);
        lemma_be32_roundtrip(ys[0]);
        lemma_written_part(b, s, p, 0, 4);
        assert(b.subrange(0, 4) =~= be32(ys[0]));
        assert(be32(ys[0]).subrange(0, 4) =~= be32(ys[0]));
        lemma_u32_at_same(s, p, be32(ys[0]), 0);
        let x0 = xs[0];
        assert(((x0 as u32) as i32) == x0) by (bit_vector);
        lemma_written_part(b, s, p, 4, b.len() as int);
        assert(ys.drop_first() =~= i32_bits(xs.drop_first()));
        assert(b.subrange(4, b.len() as int) =~= be32s(i32_bits(xs.drop_first())));
        lemma_i32s_at(xs.drop_first(), s, p + 4);
        assert(seq![xs[0]] + xs.drop_first() =~= xs);
    } else {
        assert(xs =~= Seq::<i32>::empty());
    }
}

/// Reading back written `u64`s gives them.
proof fn lemma_u64s_at(xs: Seq<u64>, s: Seq<u8>, p: int)
    requires
        written_at(be64s(xs), s, p),
    ensures
        spec_u64s(s, p, xs.len() as int) == Ok::<(int, Seq<u64>), Error>((p + 8 * xs.len(), xs)),
    decreases xs.len(),
{
    lemma_be64s_len(xs);
    if xs.len() > 0 {
        let b = be64s(xs);
        lemma_be64s_cons(xs);
        lemma_be64_roundtrip(xs[0]);
        lemma_written_part(b, s, p, 0, 8);
        assert(b.subrange(0, 8) =~= be64(xs[0]));
        assert(be64(xs[0]).subrange(0, 8) =~= be64(xs[0]));
        lemma_u64_at_same(s, p, be64(xs[0]), 0);
        lemma_written_part(b, s, p, 8, b.len() as int);
        assert(b.subrange(8, b.len() as int) =~= be64s(xs.drop_first()));
        lemma_u64s_at(xs.drop_first(), s, p + 8);
        assert(seq![xs[0]] + xs.drop_first() =~= xs);
    } else {
        assert(xs =~= Seq::<u64>::empty());
    }
}

/// A vector of numbers reads back as written, and takes an object table slot.
#[verifier::spinoff_prover]
#[verifier::rlimit(40)]
proof fn lemma_amf3_vector_at(enc: Amf3EncState, dec: Amf3State, v: ValueV, s: Seq<u8>, p: int)
    requires
        v is VectorInt || v is VectorUInt || v is VectorDouble,
        amf3_scalar(v),
        written_at(amf3_scalar_bytes(enc, v), s, p),
    ensures
        spec_value(dec, s, p) == Ok::<(Amf3State, int, ValueV), Error>((
            Amf3State { objects: dec.objects.push(v), ..dec },
            p + amf3_scalar_bytes(enc, v).len(),
            v,
        )),
{
    let b = amf3_scalar_bytes(enc, v);
    let (n, fixed, body): (nat, bool, Seq<u8>) = match v {
        ValueV::VectorInt { values, fixed_length } => (values.len(), fixed_length, be32s(i32_bits(values))),
        ValueV::VectorUInt { values, fixed_length } => (values.len(), fixed_length, be32s(values)),
        ValueV::VectorDouble { values, fixed_length } => (values.len(), fixed_length, be64s(values)),
        _ => (0, false, Seq::empty()),
    };
    let l = spec_write_length(Length::Size(n as u32));
    let m: u8 = if v is VectorInt { 0x0du8 } else if v is VectorUInt { 0x0eu8 } else { 0x0fu8 };
    assert(b =~= seq![m] + l + seq![if fixed { 1u8 } else { 0u8 }] + body);
    lemma_written_part(b, s, p, 0, 1);
    assert(s[p] == s.subrange(p, p + 1)[0]);
    lemma_written_part(b, s, p, 1, 1 + l.len() as int);
    assert(b.subrange(1, 1 + l.len() as int) =~= l);
    lemma_read_length_at(Length::Size(n as u32), s, p + 1);
    let q1 = p + 1 + l.len();
    lemma_written_part(b, s, p, 1 + l.len() as int, 2 + l.len() as int);
    assert(s[q1] == s.subrange(q1, q1 + 1)[0]);
    assert(b.subrange(1 + l.len() as int, 2 + l.len() as int)[0] == (if fixed { 1u8 } else { 0u8 }));
    lemma_written_part(b, s, p, 2 + l.len() as int, b.len() as int);
    assert(b.subrange(2 + l.len() as int, b.len() as int) =~= body);
    match v {
        ValueV::VectorInt { values, .. } => {
            lemma_be32s_len(i32_bits(values));
            lemma_i32s_at(values, s, q1 + 1);
        },
        ValueV::VectorUInt { values, .. } => {
            lemma_be32s_len(values);
            lemma_u32s_at(values, s, q1 + 1);
        },
        ValueV::VectorDouble { values, .. } => {
            lemma_be64s_len(values);
            lemma_u64s_at(values, s, q1 + 1);
        },
        _ => {},
    }
    assert(dec.objects.push(ValueV::Null).update(dec.objects.len() as int, v) =~= dec.objects.push(v));
}

/// Reading back a written scalar AMF3 value gives the value as `amf3_read_back` says,
/// whatever stands around it, while the encoder's and the decoder's string tables agree; they
/// agree after it too, and the decoder changes as `amf3_dec_after` says.
#[verifier::spinoff_prover]
#[verifier::rlimit(40)]
pub proof fn lemma_amf3_scalar_roundtrip(enc: Amf3EncState, dec: Amf3State, v: ValueV, s: Seq<u8>, p: int)
    requires
        amf3_scalar(v),
        enc.strings == dec.strings,
        enc.strings.len() < 0x0800_0000,
        written_at(amf3_scalar_bytes(enc, v), s, p),
    ensures
        spec_value(dec, s, p) == Ok::<(Amf3State, int, ValueV), Error>((
            amf3_dec_after(dec, v, amf3_scalar_state(enc, v).strings),
            p + amf3_scalar_bytes(enc, v).len(),
            amf3_read_back(v),
        )),
{
    lemma_amf3_scalar_writes(enc, v);
    let b = amf3_scalar_bytes(enc, v);
    lemma_written_part(b, s, p, 0, 1);
    assert(s[p] == s.subrange(p, p + 1)[0]);
    match v {
        ValueV::Number(x) => {
            lemma_written_part(b, s, p, 1, 9);
            assert(b.subrange(1, 9) =~= be64(x));
            lemma_be64_roundtrip(x);
            assert(be64(x).subrange(0, 8) =~= be64(x));
            lemma_u64_at_same(s, p + 1, be64(x), 0);
        },
        ValueV::Integer(i) => {
            let w = spec_write_int(i);
            lemma_written_part(b, s, p, 1, b.len() as int);
            assert(b.subrange(1, b.len() as int) =~= w);
            lemma_read_int_at(i, s, p + 1);
        },
        ValueV::String(t) => {
            let w = enc_byte_string(enc, str_bytes(t)).1;
            lemma_written_part(b, s, p, 1, b.len() as int);
            assert(b.subrange(1, b.len() as int) =~= w);
            lemma_amf3_string_roundtrip(enc, dec, t, s, p + 1);
        },
        ValueV::Date { time, timezone_or_utc } => lemma_amf3_date_at(enc, dec, time, timezone_or_utc, s, p),
        ValueV::XML { value, is_string } => lemma_amf3_xml_at(enc, dec, value, is_string, s, p),
        ValueV::ByteArray(bytes) => lemma_amf3_byte_array_at(enc, dec, bytes, s, p),
        ValueV::VectorInt { .. } | ValueV::VectorUInt { .. } | ValueV::VectorDouble { .. } => lemma_amf3_vector_at(enc, dec, v, s, p),
        _ => {},
    }
}

} // verus!

verus! {

/// The values a body element can hold and read back: those built from scalars by arrays and
/// objects inside each other.
pub open spec fn amf3_body_value(v: ValueV) -> bool {
    amf3_plain(v)
}

/// An upper bound on the strings, and on the classes, that writing such a value adds to the
/// tables.
pub open spec fn amf3_value_size(v: ValueV) -> nat {
    plain_size(v)
}

/// Such a value as read back, when the last object id the decoder gave is `last_id`.
pub open spec fn amf3_value_back(v: ValueV, last_id: i64) -> ValueV {
    plain_back(v, last_id).0
}

/// The last object id the decoder gave after reading back such a value.
pub open spec fn id_after(v: ValueV, last_id: i64) -> i64 {
    plain_back(v, last_id).1
}

/// The elements whose names are below 2^27 bytes and whose values are such values.
pub open spec fn amf3_body_elements(els: Seq<ElementV>) -> bool {
    forall|i: int| 0 <= i < els.len() ==> str_bytes(#[trigger] els[i].name).len() < 0x0800_0000 && amf3_body_value(els[i].value)
}

/// An upper bound on the strings, and on the classes, that writing the elements adds to the
/// tables: one for each name, and `amf3_value_size` for each value.
pub open spec fn amf3_body_size(els: Seq<ElementV>) -> nat
    decreases els.len(),
{
    if els.len() == 0 {
        0
    } else {
        1 + amf3_value_size(els[0].value) + amf3_body_size(els.drop_first())
    }
}

/// The encoder state after writing the element `el`.
pub open spec fn el3_state(enc: Amf3EncState, el: ElementV) -> Amf3EncState {
    enc_value(enc_byte_string(enc, str_bytes(el.name)).0, el.value)->Ok_0.0
}

/// The bytes written for the element `el`.
pub open spec fn el3_bytes(enc: Amf3EncState, el: ElementV) -> Seq<u8> {
    enc_byte_string(enc, str_bytes(el.name)).1 + enc_value(enc_byte_string(enc, str_bytes(el.name)).0, el.value)->Ok_0.1
}

/// The elements a written AMF3 body reads back as, when the last object id the decoder gave
/// is `last_id`.
pub open spec fn amf3_elements_back(els: Seq<ElementV>, last_id: i64) -> Seq<ElementV>
    decreases els.len(),
{
    if els.len() == 0 {
        Seq::empty()
    } else {
        seq![ElementV { name: els[0].name, value: amf3_value_back(els[0].value, last_id) }]
            + amf3_elements_back(els.drop_first(), id_after(els[0].value, last_id))
    }
}

/// Reading AMF3 elements after a padding byte, kept folded.
#[verifier::opaque]
spec fn read_more3(st: Amf3State, s: Seq<u8>, p: int) -> (int, Seq<ElementV>) {
    spec_more_elements(st, s, p)
}

/// Reading an AMF3 element, kept folded.
#[verifier::opaque]
spec fn read_element3(st: Amf3State, s: Seq<u8>, p: int) -> Result<(Amf3State, int, ElementV), Error> {
    spec_element(st, s, p)
}

/// Writing an AMF3 body, kept folded.
#[verifier::opaque]
spec fn write_body3(enc: Amf3EncState, els: Seq<ElementV>) -> EncStep {
    enc_body(enc, els)
}

/// Reading back a written element gives the element as read back; the string and trait
/// tables stay in step.
#[verifier::spinoff_prover]
#[verifier::rlimit(30)]
proof fn lemma_element3_at(enc: Amf3EncState, dec: Amf3State, el: ElementV, s: Seq<u8>, p: int)
    requires
        enc.strings == dec.strings,
        enc.traits == dec.traits,
        slots_agree(enc, dec),
        enc.traits.len() + amf3_value_size(el.value) < 0x0400_0000,
        enc.strings.len() + 1 + amf3_value_size(el.value) < 0x0800_0000,
        str_bytes(el.name).len() < 0x0800_0000,
        amf3_body_value(el.value),
        written_at(el3_bytes(enc, el), s, p),
    ensures
        read_element3(dec, s, p) matches Ok((d1, q, e)) && q == p + el3_bytes(enc, el).len()
            && e == (ElementV { name: el.name, value: amf3_value_back(el.value, dec.object_id) })
            && d1.strings == el3_state(enc, el).strings && d1.traits == el3_state(enc, el).traits
            && d1.object_id == id_after(el.value, dec.object_id) && slots_agree(el3_state(enc, el), d1),
{
    reveal(read_element3);
    let (enc1, w1) = enc_byte_string(enc, str_bytes(el.name));
    lemma_element3_writes(enc, el);
    let w2 = enc_value(enc1, el.value)->Ok_0.1;
    let w = el3_bytes(enc, el);
    lemma_written_part(w, s, p, 0, w1.len() as int);
    assert(w.subrange(0, w1.len() as int) =~= w1);
    lemma_amf3_string_roundtrip(enc, dec, el.name, s, p);
    lemma_written_part(w, s, p, w1.len() as int, w.len() as int);
    assert(w.subrange(w1.len() as int, w.len() as int) =~= w2);
    let dec1 = Amf3State { strings: enc1.strings, ..dec };
    assert(enc1.strings.len() <= enc.strings.len() + 1);
    lemma_amf3_plain_at(enc1, dec1, el.value, s, p + w1.len());
}

/// The elements after the first of such elements are such elements too.
proof fn lemma_body_elements_rest(els: Seq<ElementV>)
    requires
        amf3_body_elements(els),
        els.len() > 0,
    ensures
        amf3_body_elements(els.drop_first()),
        str_bytes(els[0].name).len() < 0x0800_0000,
        amf3_body_value(els[0].value),
        amf3_body_size(els) == 1 + amf3_value_size(els[0].value) + amf3_body_size(els.drop_first()),
{
    let rest = els.drop_first();
    assert(str_bytes(els[0].name).len() < 0x0800_0000 && amf3_body_value(els[0].value));
    assert forall|i: int| 0 <= i < rest.len() implies str_bytes(#[trigger] rest[i].name).len() < 0x0800_0000 && amf3_body_value(rest[i].value) by {
        assert(rest[i] == els[i + 1]);
    }
}

/// Writing a body whose first element can be written: that element and a padding byte, then
/// the rest.
proof fn lemma_enc_body_cons(enc: Amf3EncState, els: Seq<ElementV>, st1: Amf3EncState, b1: Seq<u8>)
    requires
        els.len() > 0,
        enc_element(enc, els[0]) == Ok::<(Amf3EncState, Seq<u8>), crate::errors::EncodeError>((st1, b1)),
    ensures
        write_body3(enc, els) == after(b1 + seq![0u8], write_body3(st1, els.drop_first())),
{
    reveal(write_body3);
}

/// Writing no elements writes nothing.
proof fn lemma_enc_body_empty(enc: Amf3EncState, els: Seq<ElementV>)
    requires
        els.len() == 0,
    ensures
        write_body3(enc, els) == Ok::<(Amf3EncState, Seq<u8>), crate::errors::EncodeError>((enc, Seq::empty())),
{
    reveal(write_body3);
}

/// No element reads at the end of the bytes.
proof fn lemma_element3_end(st: Amf3State, s: Seq<u8>)
    ensures
        read_element3(st, s, s.len() as int) is Err,
{
    reveal(read_element3);
}

/// One step of reading the elements after a padding byte.
proof fn lemma_more3_step(st: Amf3State, s: Seq<u8>, p: int)
    requires
        0 <= p < s.len(),
        s[p] == 0,
    ensures
        read_more3(st, s, p) == (match read_element3(st, s, p + 1) {
            Err(_) => (p, Seq::<ElementV>::empty()),
            Ok((st1, p1, el)) => if p < p1 <= s.len() {
                (read_more3(st1, s, p1).0, seq![el] + read_more3(st1, s, p1).1)
            } else {
                (p, Seq::<ElementV>::empty())
            },
        }),
{
    reveal(read_more3);
    reveal(read_element3);
}

/// Writing an element whose value is such a value succeeds.
proof fn lemma_element3_writes(enc: Amf3EncState, el: ElementV)
    requires
        amf3_body_value(el.value),
    ensures
        enc_element(enc, el) == Ok::<(Amf3EncState, Seq<u8>), crate::errors::EncodeError>((el3_state(enc, el), el3_bytes(enc, el))),
        el3_state(enc, el).strings.len() <= enc.strings.len() + 1 + amf3_value_size(el.value),
        el3_state(enc, el).traits.len() <= enc.traits.len() + amf3_value_size(el.value),
{
    let e1 = enc_byte_string(enc, str_bytes(el.name)).0;
    lemma_plain_writes(e1, el.value);
    assert(e1.strings.len() <= enc.strings.len() + 1);
}

/// Writing a body of such elements succeeds.
proof fn lemma_body3_writes(enc: Amf3EncState, els: Seq<ElementV>)
    requires
        amf3_body_elements(els),
    ensures
        write_body3(enc, els) is Ok,
    decreases els.len(),
{
    if els.len() == 0 {
        lemma_enc_body_empty(enc, els);
    } else {
        lemma_body_elements_rest(els);
        lemma_element3_writes(enc, els[0]);
        lemma_enc_body_cons(enc, els, el3_state(enc, els[0]), el3_bytes(enc, els[0]));
        lemma_body3_writes(el3_state(enc, els[0]), els.drop_first());
    }
}

/// Reading the elements written after a padding byte, to the end of the bytes: they read back,
/// and the list ends before the last padding byte.
#[verifier::spinoff_prover]
#[verifier::rlimit(30)]
proof fn lemma_more3_roundtrip(enc: Amf3EncState, dec: Amf3State, els: Seq<ElementV>, pre: Seq<u8>)
    requires
        enc.strings == dec.strings,
        enc.traits == dec.traits,
        slots_agree(enc, dec),
        enc.strings.len() + amf3_body_size(els) < 0x0800_0000,
        enc.traits.len() + amf3_body_size(els) < 0x0400_0000,
        amf3_body_elements(els),
        pre.len() > 0,
        pre.last() == 0,
    ensures
        write_body3(enc, els) matches Ok((_, b)) && read_more3(dec, pre + b, pre.len() - 1)
            == ((pre + b).len() - 1, amf3_elements_back(els, dec.object_id)) && (pre + b).last() == 0,
    decreases els.len(),
{
    if els.len() == 0 {
        lemma_enc_body_empty(enc, els);
        assert(pre + Seq::<u8>::empty() =~= pre);
        lemma_more3_step(dec, pre, pre.len() - 1);
        lemma_element3_end(dec, pre);
    } else {
        let el = els[0];
        lemma_body_elements_rest(els);
        let enc1 = el3_state(enc, el);
        let w = el3_bytes(enc, el);
        let pre1 = pre + (w + seq![0u8]);
        let p = pre.len() as int;
        lemma_element3_writes(enc, el);
        lemma_enc_body_cons(enc, els, enc1, w);
        lemma_body3_writes(enc1, els.drop_first());
        let br = write_body3(enc1, els.drop_first())->Ok_0.1;
        let s = pre1 + br;
        assert(s.subrange(p, p + w.len()) =~= w);
        lemma_element3_at(enc, dec, el, s, p);
        let dec1 = read_element3(dec, s, p)->Ok_0.0;
        lemma_more3_roundtrip(enc1, dec1, els.drop_first(), pre1);
        assert(pre + (w + seq![0u8] + br) =~= s);
        assert(s[p - 1] == 0);
        lemma_more3_step(dec, s, p - 1);
        assert(s[p + w.len()] == 0);
        assert(amf3_elements_back(els, dec.object_id) == seq![ElementV { name: el.name, value: amf3_value_back(el.value, dec.object_id) }]
            + amf3_elements_back(els.drop_first(), id_after(el.value, dec.object_id)));
    }
}

/// Reading an AMF3 element list, kept folded.
#[verifier::opaque]
spec fn read_list3(st: Amf3State, s: Seq<u8>, p: int) -> (int, Seq<ElementV>) {
    spec_element_list(st, s, p)
}

/// The first step of reading an element list.
proof fn lemma_list3_step(st: Amf3State, s: Seq<u8>, p: int)
    ensures
        read_list3(st, s, p) == (match read_element3(st, s, p) {
            Err(_) => (p, Seq::<ElementV>::empty()),
            Ok((st1, p1, el)) => if p < p1 <= s.len() {
                (read_more3(st1, s, p1).0, seq![el] + read_more3(st1, s, p1).1)
            } else {
                (p, Seq::<ElementV>::empty())
            },
        }),
{
    reveal(read_list3);
    reveal(read_element3);
    reveal(read_more3);
}

/// Reading an AMF3 body, kept folded.
#[verifier::opaque]
spec fn read_body3(st: Amf3State, s: Seq<u8>, p: int) -> Result<(int, Seq<ElementV>), Error> {
    spec_body(st, s, p)
}

/// Reading a body is reading an element list and one padding byte.
proof fn lemma_body3_from_list(st: Amf3State, s: Seq<u8>, p: int)
    ensures
        read_body3(st, s, p) == (if 0 <= read_list3(st, s, p).0 < s.len() && s[read_list3(st, s, p).0] == 0 {
            Ok::<(int, Seq<ElementV>), Error>((read_list3(st, s, p).0 + 1, read_list3(st, s, p).1))
        } else {
            Err(nom_err(read_list3(st, s, p).0, ErrorKind::Tag))
        }),
{
    reveal(read_list3);
    reveal(read_body3);
}

/// The AMF3 body roundtrip over the folded reading and writing.
#[verifier::spinoff_prover]
#[verifier::rlimit(30)]
proof fn lemma_amf3_body_folded(enc: Amf3EncState, dec: Amf3State, els: Seq<ElementV>, pre: Seq<u8>)
    requires
        enc.strings == dec.strings,
        enc.traits == dec.traits,
        slots_agree(enc, dec),
        enc.strings.len() + amf3_body_size(els) < 0x0800_0000,
        enc.traits.len() + amf3_body_size(els) < 0x0400_0000,
        amf3_body_elements(els),
        els.len() > 0,
    ensures
        write_body3(enc, els) matches Ok((_, b)) && read_body3(dec, pre + b, pre.len() as int)
            == Ok::<(int, Seq<ElementV>), Error>(((pre + b).len() as int, amf3_elements_back(els, dec.object_id))),
{
    let el = els[0];
    lemma_body_elements_rest(els);
    let enc1 = el3_state(enc, el);
    let w = el3_bytes(enc, el);
    let pre1 = pre + (w + seq![0u8]);
    let p = pre.len() as int;
    lemma_element3_writes(enc, el);
    lemma_enc_body_cons(enc, els, enc1, w);
    lemma_body3_writes(enc1, els.drop_first());
    let br = write_body3(enc1, els.drop_first())->Ok_0.1;
    let s = pre1 + br;
    assert(s.subrange(p, p + w.len()) =~= w);
    lemma_element3_at(enc, dec, el, s, p);
    let dec1 = read_element3(dec, s, p)->Ok_0.0;
    lemma_more3_roundtrip(enc1, dec1, els.drop_first(), pre1);
    assert(pre + (w + seq![0u8] + br) =~= s);
    lemma_list3_step(dec, s, p);
    lemma_body3_from_list(dec, s, p);
    assert(s[s.len() - 1] == 0);
    assert(amf3_elements_back(els, dec.object_id) == seq![ElementV { name: el.name, value: amf3_value_back(el.value, dec.object_id) }]
        + amf3_elements_back(els.drop_first(), id_after(el.value, dec.object_id)));
}

/// Reading back a written AMF3 body gives the elements as `amf3_elements_back` says, after
/// any prefix, and reads to the end of the bytes, while the string and trait tables agree at
/// the start and have room for what is written. A body without elements is written as
/// nothing, which does not read back.
pub proof fn lemma_amf3_body_roundtrip(enc: Amf3EncState, dec: Amf3State, els: Seq<ElementV>, pre: Seq<u8>)
    requires
        enc.strings == dec.strings,
        enc.traits == dec.traits,
        slots_agree(enc, dec),
        enc.strings.len() + amf3_body_size(els) < 0x0800_0000,
        enc.traits.len() + amf3_body_size(els) < 0x0400_0000,
        amf3_body_elements(els),
        els.len() > 0,
    ensures
        enc_body(enc, els) matches Ok((_, b)) && spec_body(dec, pre + b, pre.len() as int)
            == Ok::<(int, Seq<ElementV>), Error>(((pre + b).len() as int, amf3_elements_back(els, dec.object_id))),
{
    lemma_amf3_body_folded(enc, dec, els, pre);
    reveal(write_body3);
    reveal(read_body3);
}

/// Reading back a written AMF3 LSO gives its header and its elements as
/// `amf3_elements_back` says, and reads all the bytes, when the decoder's string and trait
/// tables start as the encoder's.
pub proof fn lemma_amf3_lso_roundtrip(st0: Amf0State, enc: Amf3EncState, dec: Amf3State, h: HeaderV, els: Seq<ElementV>)
    requires
        h.format_version == AMFVersion::AMF3,
        str_bytes(h.name).len() <= 65535,
        enc.strings == dec.strings,
        enc.traits == dec.traits,
        slots_agree(enc, dec),
        enc.strings.len() + amf3_body_size(els) < 0x0800_0000,
        enc.traits.len() + amf3_body_size(els) < 0x0400_0000,
        amf3_body_elements(els),
        els.len() > 0,
    ensures
        enc_body(enc, els) matches Ok((_, b)) && spec_lso(st0, dec, spec_header_bytes(h) + b) == Ok::<(int, HeaderV, Seq<ElementV>), Error>((
            (spec_header_bytes(h) + b).len() as int,
            h,
            amf3_elements_back(els, dec.object_id),
        )),
{
    lemma_amf3_body_roundtrip(enc, dec, els, spec_header_bytes(h));
    let b = enc_body(enc, els)->Ok_0.1;
    lemma_header_roundtrip(h, b);
}

} // verus!

verus! {

/// What reading back a written packet header gives: its value as `amf0_deep_read_back` says.
pub open spec fn header_read_back(h: PacketHeaderV) -> PacketHeaderV {
    PacketHeaderV { name: h.name, must_understand: h.must_understand, value: amf0_deep_read_back(h.value) }
}

/// What reading back a written packet message gives: its contents as `amf0_deep_read_back`
/// says.
pub open spec fn message_read_back(m: MessageV) -> MessageV {
    MessageV { target_uri: m.target_uri, response_uri: m.response_uri, contents: amf0_deep_read_back(m.contents) }
}

/// Headers whose values AMF0 holds by itself.
pub open spec fn native_headers(hs: Seq<PacketHeaderV>) -> bool {
    forall|i: int| 0 <= i < hs.len() ==> amf0_native(#[trigger] hs[i].value)
}

/// Messages whose contents AMF0 holds by itself.
pub open spec fn native_messages(ms: Seq<MessageV>) -> bool {
    forall|i: int| 0 <= i < ms.len() ==> amf0_native(#[trigger] ms[i].contents)
}

/// Reading packet headers, kept folded.
#[verifier::opaque]
spec fn read_hdrs(s: Seq<u8>, p: int, n: int) -> Result<(int, Seq<PacketHeaderV>), Error> {
    spec_packet_headers(s, p, n)
}

/// Reading packet messages, kept folded.
#[verifier::opaque]
spec fn read_msgs(s: Seq<u8>, p: int, n: int) -> Result<(int, Seq<MessageV>), Error> {
    spec_packet_messages(s, p, n)
}

/// Writing packet headers, kept folded.
#[verifier::opaque]
spec fn write_hdrs(hs: Seq<PacketHeaderV>, i: int, exact: bool) -> PacketEnc {
    enc_packet_headers(hs, i, exact)
}

/// Writing packet messages, kept folded.
#[verifier::opaque]
spec fn write_msgs(ms: Seq<MessageV>, i: int, exact: bool) -> PacketEnc {
    enc_packet_messages(ms, i, exact)
}

/// Reading a packet, kept folded.
#[verifier::opaque]
spec fn read_packet(s: Seq<u8>) -> Result<(int, AMFVersion, Seq<PacketHeaderV>, Seq<MessageV>), Error> {
    spec_packet(s)
}

/// The bytes of a framed value: its encoding after four length bytes.
proof fn lemma_packet_value_bytes(v: ValueV, exact: bool)
    requires
        enc_packet_value(v, exact) is Ok,
    ensures
        enc0_value(v) is Ok,
        enc_packet_value(v, exact)->Ok_0.len() == 4 + enc0_value(v)->Ok_0.len(),
        enc_packet_value(v, exact)->Ok_0.subrange(4, enc_packet_value(v, exact)->Ok_0.len() as int) == enc0_value(v)->Ok_0,
{
    reveal(enc_packet_value);
    if let Ok(b) = enc0_value(v) {
        let f = enc_packet_value(v, exact)->Ok_0;
        assert(f.subrange(4, f.len() as int) =~= b);
    }
}

/// Reading one packet header, kept folded.
#[verifier::opaque]
spec fn read_hdr(s: Seq<u8>, p: int) -> Result<(int, PacketHeaderV), Error> {
    spec_packet_header(s, p)
}

/// Reading `n` headers: none, or one and then `n - 1` more.
proof fn lemma_read_hdrs_step(s: Seq<u8>, p: int, n: int)
    ensures
        read_hdrs(s, p, n) == (if n <= 0 {
            Ok((p, Seq::<PacketHeaderV>::empty()))
        } else {
            match read_hdr(s, p) {
                Err(e) => Err(e),
                Ok((p1, h)) => match read_hdrs(s, p1, n - 1) {
                    Err(e) => Err(e),
                    Ok((p2, hs)) => Ok((p2, seq![h] + hs)),
                },
            }
        }),
{
    reveal(read_hdrs);
    reveal(read_hdr);
}

/// Writing the headers from index `i` on: none, or one and then the rest.
proof fn lemma_write_hdrs_step(hs: Seq<PacketHeaderV>, i: int, exact: bool)
    ensures
        write_hdrs(hs, i, exact) == (if i < 0 || i >= hs.len() {
            Ok(Seq::<u8>::empty())
        } else {
            match enc_packet_header(hs[i], exact) {
                Err(e) => Err(e),
                Ok(b) => after_p(b, write_hdrs(hs, i + 1, exact)),
            }
        }),
{
    reveal(write_hdrs);
}

/// Reading back a written packet header with a value AMF0 holds by itself.
#[verifier::spinoff_prover]
#[verifier::rlimit(30)]
proof fn lemma_packet_header_at(h: PacketHeaderV, exact: bool, s: Seq<u8>, p: int)
    requires
        amf0_native(h.value),
        enc_packet_header(h, exact) is Ok,
        written_at(enc_packet_header(h, exact)->Ok_0, s, p),
    ensures
        read_hdr(s, p) == Ok::<(int, PacketHeaderV), Error>((p + enc_packet_header(h, exact)->Ok_0.len(), header_read_back(h))),
{
    reveal(read_hdr);
    let hb = enc_packet_header(h, exact)->Ok_0;
    let ns = enc0_string(h.name);
    let f = enc_packet_value(h.value, exact)->Ok_0;
    lemma_packet_value_bytes(h.value, exact);
    let bv = enc0_value(h.value)->Ok_0;
    assert(hb =~= ns + seq![if h.must_understand { 1u8 } else { 0u8 }] + f);
    lemma_written_part(hb, s, p, 0, ns.len() as int);
    assert(hb.subrange(0, ns.len() as int) =~= ns);
    lemma_string_roundtrip(s, p, h.name);
    let p1 = p + ns.len();
    assert(s[p1] == s.subrange(p, p + hb.len())[ns.len() as int]);
    lemma_written_part(hb, s, p, ns.len() as int + 5, hb.len() as int);
    assert(hb.subrange(ns.len() as int + 5, hb.len() as int) =~= f.subrange(4, f.len() as int));
    lemma_amf0_value_at(fresh_amf0(), h.value, s, p1 + 5);
}

/// Reading back a written packet message with contents AMF0 holds by itself.
#[verifier::spinoff_prover]
#[verifier::rlimit(30)]
proof fn lemma_packet_message_at(m: MessageV, exact: bool, s: Seq<u8>, p: int)
    requires
        amf0_native(m.contents),
        enc_packet_message(m, exact) is Ok,
        written_at(enc_packet_message(m, exact)->Ok_0, s, p),
    ensures
        read_msg(s, p) == Ok::<(int, MessageV), Error>((p + enc_packet_message(m, exact)->Ok_0.len(), message_read_back(m))),
{
    reveal(read_msg);
    let mb = enc_packet_message(m, exact)->Ok_0;
    let ts = enc0_string(m.target_uri);
    let rs = enc0_string(m.response_uri);
    let f = enc_packet_value(m.contents, exact)->Ok_0;
    lemma_packet_value_bytes(m.contents, exact);
    assert(mb =~= ts + rs + f);
    lemma_written_part(mb, s, p, 0, ts.len() as int);
    assert(mb.subrange(0, ts.len() as int) =~= ts);
    lemma_string_roundtrip(s, p, m.target_uri);
    lemma_written_part(mb, s, p, ts.len() as int, (ts.len() + rs.len()) as int);
    assert(mb.subrange(ts.len() as int, (ts.len() + rs.len()) as int) =~= rs);
    lemma_string_roundtrip(s, p + ts.len(), m.response_uri);
    let p2 = p + ts.len() + rs.len();
    lemma_written_part(mb, s, p, (ts.len() + rs.len()) as int + 4, mb.len() as int);
    assert(mb.subrange((ts.len() + rs.len()) as int + 4, mb.len() as int) =~= f.subrange(4, f.len() as int));
    lemma_amf0_value_at(fresh_amf0(), m.contents, s, p2 + 4);
}

/// Reading back the headers written from index `i` on.
#[verifier::spinoff_prover]
proof fn lemma_packet_headers_from(hs: Seq<PacketHeaderV>, i: int, exact: bool, s: Seq<u8>, p: int)
    requires
        0 <= i <= hs.len(),
        native_headers(hs),
        write_hdrs(hs, i, exact) is Ok,
        written_at(write_hdrs(hs, i, exact)->Ok_0, s, p),
    ensures
        read_hdrs(s, p, hs.len() - i) == Ok::<(int, Seq<PacketHeaderV>), Error>((
            p + write_hdrs(hs, i, exact)->Ok_0.len(),
            hs.subrange(i, hs.len() as int).map_values(|h: PacketHeaderV| header_read_back(h)),
        )),
    decreases hs.len() - i,
{
    lemma_read_hdrs_step(s, p, hs.len() - i);
    lemma_write_hdrs_step(hs, i, exact);
    if i == hs.len() {
        assert(hs.subrange(i, hs.len() as int).map_values(|h: PacketHeaderV| header_read_back(h)) =~= Seq::<PacketHeaderV>::empty());
    } else {
        assert(amf0_native(hs[i].value));
        let hb = enc_packet_header(hs[i], exact)->Ok_0;
        let rest = write_hdrs(hs, i + 1, exact)->Ok_0;
        assert(write_hdrs(hs, i, exact)->Ok_0 =~= hb + rest);
        lemma_written_part(hb + rest, s, p, 0, hb.len() as int);
        assert((hb + rest).subrange(0, hb.len() as int) =~= hb);
        lemma_packet_header_at(hs[i], exact, s, p);
        lemma_written_part(hb + rest, s, p, hb.len() as int, (hb + rest).len() as int);
        assert((hb + rest).subrange(hb.len() as int, (hb + rest).len() as int) =~= rest);
        lemma_packet_headers_from(hs, i + 1, exact, s, p + hb.len());
        assert(hs.subrange(i, hs.len() as int).map_values(|h: PacketHeaderV| header_read_back(h)) =~= seq![header_read_back(hs[i])]
            + hs.subrange(i + 1, hs.len() as int).map_values(|h: PacketHeaderV| header_read_back(h)));
    }
}

/// Reading one packet message, kept folded.
#[verifier::opaque]
spec fn read_msg(s: Seq<u8>, p: int) -> Result<(int, MessageV), Error> {
    spec_packet_message(s, p)
}

/// Reading `n` messages: none, or one and then `n - 1` more.
proof fn lemma_read_msgs_step(s: Seq<u8>, p: int, n: int)
    ensures
        read_msgs(s, p, n) == (if n <= 0 {
            Ok((p, Seq::<MessageV>::empty()))
        } else {
            match read_msg(s, p) {
                Err(e) => Err(e),
                Ok((p1, m)) => match read_msgs(s, p1, n - 1) {
                    Err(e) => Err(e),
                    Ok((p2, ms)) => Ok((p2, seq![m] + ms)),
                },
            }
        }),
{
    reveal(read_msgs);
    reveal(read_msg);
}

/// Writing the messages from index `i` on: none, or one and then the rest.
proof fn lemma_write_msgs_step(ms: Seq<MessageV>, i: int, exact: bool)
    ensures
        write_msgs(ms, i, exact) == (if i < 0 || i >= ms.len() {
            Ok(Seq::<u8>::empty())
        } else {
            match enc_packet_message(ms[i], exact) {
                Err(e) => Err(e),
                Ok(b) => after_p(b, write_msgs(ms, i + 1, exact)),
            }
        }),
{
    reveal(write_msgs);
}

/// Reading back the messages written from index `i` on.
#[verifier::spinoff_prover]
proof fn lemma_packet_messages_from(ms: Seq<MessageV>, i: int, exact: bool, s: Seq<u8>, p: int)
    requires
        0 <= i <= ms.len(),
        native_messages(ms),
        write_msgs(ms, i, exact) is Ok,
        written_at(write_msgs(ms, i, exact)->Ok_0, s, p),
    ensures
        read_msgs(s, p, ms.len() - i) == Ok::<(int, Seq<MessageV>), Error>((
            p + write_msgs(ms, i, exact)->Ok_0.len(),
            ms.subrange(i, ms.len() as int).map_values(|m: MessageV| message_read_back(m)),
        )),
    decreases ms.len() - i,
{
    lemma_read_msgs_step(s, p, ms.len() - i);
    lemma_write_msgs_step(ms, i, exact);
    if i == ms.len() {
        assert(ms.subrange(i, ms.len() as int).map_values(|m: MessageV| message_read_back(m)) =~= Seq::<MessageV>::empty());
    } else {
        assert(amf0_native(ms[i].contents));
        let mb = enc_packet_message(ms[i], exact)->Ok_0;
        let rest = write_msgs(ms, i + 1, exact)->Ok_0;
        assert(write_msgs(ms, i, exact)->Ok_0 =~= mb + rest);
        lemma_written_part(mb + rest, s, p, 0, mb.len() as int);
        assert((mb + rest).subrange(0, mb.len() as int) =~= mb);
        lemma_packet_message_at(ms[i], exact, s, p);
        lemma_written_part(mb + rest, s, p, mb.len() as int, (mb + rest).len() as int);
        assert((mb + rest).subrange(mb.len() as int, (mb + rest).len() as int) =~= rest);
        lemma_packet_messages_from(ms, i + 1, exact, s, p + mb.len());
        assert(ms.subrange(i, ms.len() as int).map_values(|m: MessageV| message_read_back(m)) =~= seq![message_read_back(ms[i])]
            + ms.subrange(i + 1, ms.len() as int).map_values(|m: MessageV| message_read_back(m)));
    }
}

/// Reading a packet: its marker and version bytes, the counts, the headers and the messages.
proof fn lemma_read_packet_parts(s: Seq<u8>)
    ensures
        read_packet(s) == (if s.len() < 1 || s[0] != 0 {
            Err(nom_err(0, ErrorKind::Tag))
        } else if s.len() < 2 || !(s[1] == 0 || s[1] == 3) {
            Err(nom_err(1, ErrorKind::Tag))
        } else if s.len() < 4 {
            Err(nom_err(2, ErrorKind::Eof))
        } else {
            match read_hdrs(s, 4, u16_at(s, 2) as int) {
                Err(e) => Err(e),
                Ok((p1, hs)) => if p1 + 2 > s.len() {
                    Err(nom_err(p1, ErrorKind::Eof))
                } else {
                    match read_msgs(s, p1 + 2, u16_at(s, p1) as int) {
                        Err(e) => Err(e),
                        Ok((p2, ms)) => Ok((p2, spec_amf_version(s[1])->0, hs, ms)),
                    }
                },
            }
        }),
{
    reveal(read_packet);
    reveal(read_hdrs);
    reveal(read_msgs);
}

/// The packet roundtrip over the folded reading and writing.
#[verifier::spinoff_prover]
#[verifier::rlimit(30)]
proof fn lemma_packet_folded(version: AMFVersion, hs: Seq<PacketHeaderV>, ms: Seq<MessageV>, exact: bool)
    requires
        hs.len() <= 65535,
        ms.len() <= 65535,
        write_hdrs(hs, 0, exact) is Ok,
        write_msgs(ms, 0, exact) is Ok,
        native_headers(hs),
        native_messages(ms),
    ensures
        ({
            let b = seq![0u8, spec_amf_version_byte(version)] + be16(hs.len() as u16) + write_hdrs(hs, 0, exact)->Ok_0
                + be16(ms.len() as u16) + write_msgs(ms, 0, exact)->Ok_0;
            read_packet(b) == Ok::<(int, AMFVersion, Seq<PacketHeaderV>, Seq<MessageV>), Error>((
                b.len() as int,
                version,
                hs.map_values(|h: PacketHeaderV| header_read_back(h)),
                ms.map_values(|m: MessageV| message_read_back(m)),
            ))
        }),
{
    let hb = write_hdrs(hs, 0, exact)->Ok_0;
    let mb = write_msgs(ms, 0, exact)->Ok_0;
    let b = seq![0u8, spec_amf_version_byte(version)] + be16(hs.len() as u16) + hb + be16(ms.len() as u16) + mb;
    lemma_read_packet_parts(b);
    lemma_amf_version_roundtrip(version);
    lemma_be16_roundtrip(hs.len() as u16);
    lemma_be16_roundtrip(ms.len() as u16);
    assert(b.subrange(2, 4) =~= be16(hs.len() as u16).subrange(0, 2));
    assert(be16(hs.len() as u16).subrange(0, 2) =~= be16(hs.len() as u16));
    lemma_u16_at_same(b, 2, be16(hs.len() as u16), 0);
    assert(b.subrange(4, 4 + hb.len() as int) =~= hb);
    lemma_packet_headers_from(hs, 0, exact, b, 4);
    assert(hs.subrange(0, hs.len() as int) =~= hs);
    let p1 = 4 + hb.len() as int;
    assert(b.subrange(p1, p1 + 2) =~= be16(ms.len() as u16).subrange(0, 2));
    assert(be16(ms.len() as u16).subrange(0, 2) =~= be16(ms.len() as u16));
    lemma_u16_at_same(b, p1, be16(ms.len() as u16), 0);
    assert(b.subrange(p1 + 2, p1 + 2 + mb.len() as int) =~= mb);
    lemma_packet_messages_from(ms, 0, exact, b, p1 + 2);
    assert(ms.subrange(0, ms.len() as int) =~= ms);
}

/// Reading back a written packet whose values AMF0 holds by itself gives its version, its
/// headers and its messages, the values as `amf0_deep_read_back` says, and reads all the bytes.
pub proof fn lemma_packet_roundtrip(version: AMFVersion, hs: Seq<PacketHeaderV>, ms: Seq<MessageV>, exact: bool)
    requires
        enc_packet(version, hs, ms, exact) is Ok,
        native_headers(hs),
        native_messages(ms),
    ensures
        enc_packet(version, hs, ms, exact) matches Ok(b) && spec_packet(b) == Ok::<(int, AMFVersion, Seq<PacketHeaderV>, Seq<MessageV>), Error>((
            b.len() as int,
            version,
            hs.map_values(|h: PacketHeaderV| header_read_back(h)),
            ms.map_values(|m: MessageV| message_read_back(m)),
        )),
{
    reveal(write_hdrs);
    reveal(write_msgs);
    lemma_packet_folded(version, hs, ms, exact);
    reveal(read_packet);
}

} // verus!
