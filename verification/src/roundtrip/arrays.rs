//! The steps of reading back written AMF3 arrays, with the readers kept folded.
use vstd::prelude::*;
use vstd::utf8::*;
use crate::errors::{Error, ErrorKind, nom_err};
use crate::types::{ElementV, ObjectId, ValueV};
use crate::amf3::read::{Amf3State, PayloadKind, Step, advanced, moved, prefixed, spec_array_payload, spec_assoc, spec_assoc_entry, spec_byte_stream, spec_payload, spec_ref_or_val, spec_value, spec_values};
use crate::amf3::length::{Length, length_payload, spec_read_length};
use crate::amf3::write::{Amf3EncState, enc_byte_string};
use crate::amf3::integer::lemma_write_int_len;
use crate::amf3::element_cache::first_same;

verus! {

/// Reading an AMF3 value, kept folded.
#[verifier::opaque]
pub(crate) open spec fn rv3(st: Amf3State, s: Seq<u8>, p: int) -> Step<ValueV> {
    spec_value(st, s, p)
}

/// Reading AMF3 values, kept folded.
#[verifier::opaque]
pub(crate) open spec fn rvs3(st: Amf3State, s: Seq<u8>, p: int, n: int) -> Step<Seq<ValueV>> {
    spec_values(st, s, p, n)
}

/// Reading the associative part of an array, kept folded.
#[verifier::opaque]
pub(crate) open spec fn ras3(st: Amf3State, s: Seq<u8>, p: int, key: Seq<u8>) -> Step<Seq<ElementV>> {
    spec_assoc(st, s, p, key)
}

/// Reading an array payload, kept folded.
#[verifier::opaque]
pub(crate) open spec fn rap3(st: Amf3State, s: Seq<u8>, q: int, len: int) -> Step<ValueV> {
    spec_array_payload(st, s, q, len)
}

/// Reading `n` values: none, or one and then `n - 1` more.
pub(crate) proof fn lemma_rvs3_step(st: Amf3State, s: Seq<u8>, p: int, n: int)
    ensures
        rvs3(st, s, p, n) == (if n <= 0 {
            Ok((st, p, Seq::<ValueV>::empty()))
        } else {
            match rv3(st, s, p) {
                Err(e) => Err(e),
                Ok((st1, p1, v)) => if advanced(p, p1, s) {
                    prefixed(seq![v], rvs3(st1, s, p1, n - 1))
                } else {
                    Err(Error::OutOfBounds)
                },
            }
        }),
{
    reveal(rvs3);
    reveal(rv3);
}

/// The associative part after an empty key is empty.
pub(crate) proof fn lemma_ras3_empty(st: Amf3State, s: Seq<u8>, p: int, key: Seq<u8>)
    requires
        key.len() == 0,
    ensures
        ras3(st, s, p, key) == Ok::<(Amf3State, int, Seq<ElementV>), Error>((st, p, Seq::empty())),
{
    reveal(ras3);
}

/// One entry of the associative part: a value, then the next key.
pub(crate) proof fn lemma_ras3_step(st: Amf3State, s: Seq<u8>, p: int, key: Seq<u8>)
    requires
        key.len() > 0,
    ensures
        ras3(st, s, p, key) == (match rv3(st, s, p) {
            Err(e) => Err(e),
            Ok((st1, p1, v)) => if !valid_utf8(key) {
                Err(nom_err(p, ErrorKind::Alpha))
            } else {
                match spec_byte_stream(st1, s, p1) {
                    Err(e) => Err(e),
                    Ok((st2, p2, k2)) => if p < p2 <= s.len() {
                        prefixed(seq![ElementV { name: decode_utf8(key), value: v }], ras3(st2, s, p2, k2))
                    } else {
                        Err(Error::OutOfBounds)
                    },
                }
            },
        }),
{
    reveal(ras3);
    reveal(rv3);
    lemma_assoc_entry_unfold(st, s, p, key);
}

/// One level of reading an associative entry.
proof fn lemma_assoc_entry_unfold(st: Amf3State, s: Seq<u8>, p: int, key: Seq<u8>)
    ensures
        spec_assoc_entry(st, s, p, key) == (match spec_value(st, s, p) {
            Err(e) => Err(e),
            Ok((st1, p1, v)) => if !valid_utf8(key) {
                Err(nom_err(p, ErrorKind::Alpha))
            } else {
                match spec_byte_stream(st1, s, p1) {
                    Err(e) => Err(e),
                    Ok((st2, p2, k2)) => Ok((st2, p2, (ElementV { name: decode_utf8(key), value: v }, k2))),
                }
            },
        }),
{
}

/// Reading an array payload: the first key, then the associative part if the key is not
/// empty, then the dense values.
pub(crate) proof fn lemma_rap3(st: Amf3State, s: Seq<u8>, q: int, len: int)
    ensures
        rap3(st, s, q, len) == (if s.len() - q < len {
            Err(nom_err(q, ErrorKind::TooLarge))
        } else {
            match spec_byte_stream(st, s, q) {
                Err(e) => Err(e),
                Ok((st1, q1, key)) => if !moved(q, q1, s) {
                    Err(Error::OutOfBounds)
                } else if key.len() == 0 {
                    match rvs3(st1, s, q1, len) {
                        Err(e) => Err(e),
                        Ok((st2, q2, vs)) => Ok((st2, q2, ValueV::StrictArray { id: ObjectId(-1i64), values: vs })),
                    }
                } else {
                    match ras3(st1, s, q1, key) {
                        Err(e) => Err(e),
                        Ok((st2, q2, els)) => if moved(q, q2, s) {
                            match rvs3(st2, s, q2, len) {
                                Err(e) => Err(e),
                                Ok((st3, q3, vs)) => Ok((st3, q3, ValueV::ECMAArray {
                                    id: ObjectId(-1i64),
                                    dense: vs,
                                    elements: els,
                                    length: els.len() as u32,
                                })),
                            }
                        } else {
                            Err(Error::OutOfBounds)
                        },
                    }
                },
            }
        }),
{
    reveal(rap3);
    reveal(rvs3);
    reveal(ras3);
}

/// An array marker reads its size, then the payload, which takes the next object slot.
pub(crate) proof fn lemma_rv3_array(dec: Amf3State, s: Seq<u8>, p: int, q1: int, n: u32)
    requires
        0 <= p < s.len(),
        s[p] == 0x09,
        spec_read_length(s, p + 1) == Ok::<(int, Length), Error>((q1, Length::Size(n))),
        p + 1 <= q1 <= s.len(),
    ensures
        rv3(dec, s, p) == (match rap3(Amf3State { objects: dec.objects.push(ValueV::Null), ..dec }, s, q1, n as int) {
            Err(e) => Err(e),
            Ok((st2, q2, v)) => Ok((Amf3State { objects: st2.objects.update(dec.objects.len() as int, v), ..st2 }, q2, v)),
        }),
{
    reveal(rv3);
    lemma_ref_or_val_array(dec, s, p + 1, q1, n);
}

/// Reading an inline array after its marker.
proof fn lemma_ref_or_val_array(dec: Amf3State, s: Seq<u8>, q: int, q1: int, n: u32)
    requires
        spec_read_length(s, q) == Ok::<(int, Length), Error>((q1, Length::Size(n))),
        q <= q1 <= s.len(),
    ensures
        spec_ref_or_val(dec, s, q, PayloadKind::Array) == (match rap3(Amf3State { objects: dec.objects.push(ValueV::Null), ..dec }, s, q1, n as int) {
            Err(e) => Err(e),
            Ok((st2, q2, v)) => Ok((Amf3State { objects: st2.objects.update(dec.objects.len() as int, v), ..st2 }, q2, v)),
        }),
{
    reveal(rap3);
    lemma_payload_array(Amf3State { objects: dec.objects.push(ValueV::Null), ..dec }, s, q1, n as int);
}

/// The payload of an array is read as an array payload.
proof fn lemma_payload_array(st: Amf3State, s: Seq<u8>, q: int, len: int)
    ensures
        spec_payload(st, s, q, len, PayloadKind::Array) == rap3(st, s, q, len),
{
    reveal(rap3);
}

/// A byte string adds at most one entry to the string table, and takes at least one byte.
pub(crate) proof fn lemma_byte_string_grows(enc: Amf3EncState, b: Seq<u8>)
    ensures
        enc_byte_string(enc, b).0.strings.len() <= enc.strings.len() + 1,
        enc_byte_string(enc, b).1.len() >= 1,
        b.len() == 0 ==> enc_byte_string(enc, b).0 == enc,
{
    lemma_write_int_len(length_payload(Length::Size(0)));
    lemma_write_int_len(length_payload(Length::Size(b.len() as u32)));
    match first_same::<Vec<u8>>(enc.strings, b, 0) {
        Some(i) => lemma_write_int_len(length_payload(Length::Reference(i as usize))),
        None => {},
    }
}

} // verus!
