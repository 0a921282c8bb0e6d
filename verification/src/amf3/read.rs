//! Decoding of AMF3 data.
use vstd::prelude::*;
use vstd::utf8::{valid_utf8, decode_utf8};
use crate::bytes::{u32_at, u64_at};
use crate::errors::{Error, ErrorKind, nom_err};
use crate::types::{Attribute, AttributeSet, ClassDefV, ClassDefinition, CustomObjectValue, ObjectValue, DictionaryEntry, DictionaryObjectValue, ECMAArrayObjectValue, Element, ElementV, EntryV, ObjectId, Value, ValueV, VectorObjectValue, VectorPrimitiveValue, class_def_view, elements_view, entries_view, lemma_value_view_parts, strings_view, values_view};
use crate::amf3::integer::{spec_read_int, spec_read_int_signed, spec_read_u29_raw};
use crate::amf3::length::{Length, spec_read_length};
use crate::amf3::type_marker::{TypeMarker, spec_marker};
use crate::amf3::custom_encoder::ExternalDecoder;
use crate::extra::flex::read::spec_external_any;

verus! {

/// The reference tables and counters a decoder carries from one value to the next.
pub struct Amf3State {
    /// Byte strings seen so far, for string references
    pub strings: Seq<Seq<u8>>,
    /// Class definitions seen so far, for trait references
    pub traits: Seq<ClassDefV>,
    /// Complex values seen so far, for object references
    pub objects: Seq<ValueV>,
    /// The registered decoders for externalizable classes, by class name
    pub externals: Seq<(Seq<char>, ExternalDecoder)>,
    /// The id given to the last object read
    pub object_id: i64,
}

/// One decoding step: the decoder state and position after it, and what it produced.
pub type Step<T> = Result<(Amf3State, int, T), Error>;

/// The step `r` with `acc` put in front of the sequence it produces.
pub open spec fn prefixed<T>(acc: Seq<T>, r: Step<Seq<T>>) -> Step<Seq<T>> {
    match r {
        Ok((st, p, xs)) => Ok((st, p, acc + xs)),
        Err(e) => Err(e),
    }
}

/// `q` lies between `p` and the end of the input.
pub open spec fn advanced(p: int, q: int, s: Seq<u8>) -> bool {
    p <= q <= s.len()
}

/// `q` lies past `p` and no further than the end of the input.
pub open spec fn moved(p: int, q: int, s: Seq<u8>) -> bool {
    p < q <= s.len()
}

/// The state with `b` appended to the string table.
pub open spec fn with_string(st: Amf3State, b: Seq<u8>) -> Amf3State {
    Amf3State { strings: st.strings.push(b), ..st }
}

/// Reading a byte string: a length header, then either that many bytes (remembered in the
/// string table unless empty) or a reference into the string table.
pub open spec fn spec_byte_stream(st: Amf3State, s: Seq<u8>, p: int) -> Step<Seq<u8>> {
    match spec_read_length(s, p) {
        Err(e) => Err(e),
        Ok((p1, Length::Size(len))) => {
            if len == 0 {
                Ok((st, p1, Seq::empty()))
            } else if p1 + len > s.len() {
                Err(nom_err(p1, ErrorKind::Eof))
            } else {
                let b = s.subrange(p1, p1 + len);
                Ok((with_string(st, b), p1 + len, b))
            }
        },
        Ok((p1, Length::Reference(idx))) => {
            if idx < st.strings.len() {
                Ok((st, p1, st.strings[idx as int]))
            } else {
                Err(nom_err(p1, ErrorKind::Digit))
            }
        },
    }
}

/// Reading a UTF-8 string held in a byte string.
pub open spec fn spec_string(st: Amf3State, s: Seq<u8>, p: int) -> Step<Seq<char>> {
    match spec_byte_stream(st, s, p) {
        Err(e) => Err(e),
        Ok((st1, p1, b)) => {
            if valid_utf8(b) {
                Ok((st1, p1, decode_utf8(b)))
            } else {
                Err(nom_err(p1, ErrorKind::Alpha))
            }
        },
    }
}

/// Reading `n` strings one after the other.
pub open spec fn spec_strings(st: Amf3State, s: Seq<u8>, p: int, n: int) -> Step<Seq<Seq<char>>>
    decreases n,
{
    if n <= 0 {
        Ok((st, p, Seq::empty()))
    } else {
        match spec_string(st, s, p) {
            Err(e) => Err(e),
            Ok((st1, p1, x)) => prefixed(seq![x], spec_strings(st1, s, p1, n - 1)),
        }
    }
}

/// Reading a class definition whose header (the object header shifted right once) is
/// `length`: low bit clear refers to a known definition; otherwise a name, then
/// `length >> 2` static property names; bits 0 and 1 of `length >> 1` mark the definition
/// external and dynamic. A new definition is remembered in the trait table.
pub open spec fn spec_class_def(st: Amf3State, s: Seq<u8>, p: int, length: u32) -> Step<ClassDefV> {
    if length & 1 == 0 {
        let idx = (length >> 1) as int;
        if idx < st.traits.len() {
            Ok((st, p, st.traits[idx]))
        } else {
            Err(nom_err(p, ErrorKind::Digit))
        }
    } else {
        let l = length >> 1;
        match spec_byte_stream(st, s, p) {
            Err(e) => Err(e),
            Ok((st1, p1, name)) => {
                if !valid_utf8(name) {
                    Err(nom_err(p1, ErrorKind::Alpha))
                } else {
                    match spec_strings(st1, s, p1, (l >> 2) as int) {
                        Err(e) => Err(e),
                        Ok((st2, p2, props)) => {
                            let cd = ClassDefV {
                                name: decode_utf8(name),
                                attributes: AttributeSet {
                                    dynamic: (l & 3) & 2 == 2,
                                    external: (l & 3) & 1 == 1,
                                },
                                static_properties: props,
                            };
                            Ok((Amf3State { traits: st2.traits.push(cd), ..st2 }, p2, cd))
                        },
                    }
                }
            },
        }
    }
}

/// The kinds of value that follow a length header and take a slot in the object table.
#[derive(Clone, Copy)]
pub enum PayloadKind {
    /// Raw bytes
    ByteArray,
    /// Big-endian i32s
    VectorInt,
    /// Big-endian u32s
    VectorUInt,
    /// Big-endian doubles
    VectorDouble,
    /// Values of a named class
    VectorObject,
    /// Dense and associative array
    Array,
    /// Key-value pairs
    Dictionary,
    /// A timestamp
    Date,
    /// XML text, marked as a string or not
    Xml(bool),
}

/// Reading `n` big-endian i32s.
pub open spec fn spec_i32s(s: Seq<u8>, p: int, n: int) -> Result<(int, Seq<i32>), Error>
    decreases n,
{
    if n <= 0 {
        Ok((p, Seq::empty()))
    } else if p + 4 > s.len() {
        Err(nom_err(p, ErrorKind::Eof))
    } else {
        match spec_i32s(s, p + 4, n - 1) {
            Ok((e, xs)) => Ok((e, seq![u32_at(s, p) as i32] + xs)),
            Err(e) => Err(e),
        }
    }
}

/// Reading `n` big-endian u32s.
pub open spec fn spec_u32s(s: Seq<u8>, p: int, n: int) -> Result<(int, Seq<u32>), Error>
    decreases n,
{
    if n <= 0 {
        Ok((p, Seq::empty()))
    } else if p + 4 > s.len() {
        Err(nom_err(p, ErrorKind::Eof))
    } else {
        match spec_u32s(s, p + 4, n - 1) {
            Ok((e, xs)) => Ok((e, seq![u32_at(s, p)] + xs)),
            Err(e) => Err(e),
        }
    }
}

/// Reading `n` big-endian doubles, as their bits.
pub open spec fn spec_u64s(s: Seq<u8>, p: int, n: int) -> Result<(int, Seq<u64>), Error>
    decreases n,
{
    if n <= 0 {
        Ok((p, Seq::empty()))
    } else if p + 8 > s.len() {
        Err(nom_err(p, ErrorKind::Eof))
    } else {
        match spec_u64s(s, p + 8, n - 1) {
            Ok((e, xs)) => Ok((e, seq![u64_at(s, p)] + xs)),
            Err(e) => Err(e),
        }
    }
}

/// The key-value pairs made of consecutive values: entry `i` is values `2i` and `2i + 1`.
pub open spec fn pairs_of(vs: Seq<ValueV>) -> Seq<EntryV> {
    Seq::new(vs.len() / 2, |i: int| EntryV { key: vs[2 * i], value: vs[2 * i + 1] })
}

/// The id of the next object read.
pub open spec fn next_object_id(id: i64) -> i64 {
    id.wrapping_add(1)
}

/// The decoder registered for a class name: the first entry with that name.
pub open spec fn lookup_external(ext: Seq<(Seq<char>, ExternalDecoder)>, name: Seq<char>) -> Option<ExternalDecoder>
    decreases ext.len(),
{
    if ext.len() == 0 {
        None
    } else if ext[0].0 == name {
        Some(ext[0].1)
    } else {
        lookup_external(ext.drop_first(), name)
    }
}

/// Reading one AMF3 value at `p`: a type marker, then the value it announces.
pub open spec fn spec_value(st: Amf3State, s: Seq<u8>, p: int) -> Step<ValueV>
    decreases s.len() - p, 0int, 0int,
{
    if p < 0 || p >= s.len() {
        Err(nom_err(p, ErrorKind::Eof))
    } else {
        let b = s[p];
        let q = p + 1;
        match spec_marker(b) {
            None => Err(Error::UnsupportedType(b)),
            Some(m) => match m {
                TypeMarker::Undefined => Ok((st, q, ValueV::Undefined)),
                TypeMarker::Null => Ok((st, q, ValueV::Null)),
                TypeMarker::False => Ok((st, q, ValueV::Bool(false))),
                TypeMarker::True => Ok((st, q, ValueV::Bool(true))),
                TypeMarker::Integer => match spec_read_int_signed(s, q) {
                    Ok((e, i)) => Ok((st, e, ValueV::Integer(i))),
                    Err(e) => Err(e),
                },
                TypeMarker::Number => {
                    if q + 8 <= s.len() {
                        Ok((st, q + 8, ValueV::Number(u64_at(s, q))))
                    } else {
                        Err(nom_err(q, ErrorKind::Eof))
                    }
                },
                TypeMarker::String => match spec_string(st, s, q) {
                    Ok((st1, e, x)) => Ok((st1, e, ValueV::String(x))),
                    Err(e) => Err(e),
                },
                TypeMarker::Xml => spec_ref_or_val(st, s, q, PayloadKind::Xml(false)),
                TypeMarker::Date => spec_ref_or_val(st, s, q, PayloadKind::Date),
                TypeMarker::Array => spec_ref_or_val(st, s, q, PayloadKind::Array),
                TypeMarker::Object => spec_object(st, s, q),
                TypeMarker::XmlString => spec_ref_or_val(st, s, q, PayloadKind::Xml(true)),
                TypeMarker::ByteArray => spec_ref_or_val(st, s, q, PayloadKind::ByteArray),
                TypeMarker::VectorInt => spec_ref_or_val(st, s, q, PayloadKind::VectorInt),
                TypeMarker::VectorUInt => spec_ref_or_val(st, s, q, PayloadKind::VectorUInt),
                TypeMarker::VectorDouble => spec_ref_or_val(st, s, q, PayloadKind::VectorDouble),
                TypeMarker::VectorObject => spec_ref_or_val(st, s, q, PayloadKind::VectorObject),
                TypeMarker::Dictionary => spec_ref_or_val(st, s, q, PayloadKind::Dictionary),
            },
        }
    }
}

/// Reading `n` values one after the other.
pub open spec fn spec_values(st: Amf3State, s: Seq<u8>, p: int, n: int) -> Step<Seq<ValueV>>
    decreases s.len() - p, 1int, n,
{
    if n <= 0 {
        Ok((st, p, Seq::empty()))
    } else {
        match spec_value(st, s, p) {
            Err(e) => Err(e),
            Ok((st1, p1, v)) => {
                if advanced(p, p1, s) {
                    prefixed(seq![v], spec_values(st1, s, p1, n - 1))
                } else {
                    Err(Error::OutOfBounds)
                }
            },
        }
    }
}

/// Reading a value that may be a reference: a length header, then either a copy of the
/// referenced entry of the object table or an inline payload. An inline payload takes the
/// next slot of the object table, which holds null while the payload is read.
pub open spec fn spec_ref_or_val(st: Amf3State, s: Seq<u8>, q: int, kind: PayloadKind) -> Step<ValueV>
    decreases s.len() - q, 2int, 0int,
{
    match spec_read_length(s, q) {
        Err(e) => Err(e),
        Ok((q1, Length::Reference(idx))) => {
            if idx < st.objects.len() {
                Ok((st, q1, st.objects[idx as int]))
            } else {
                Err(nom_err(q1, ErrorKind::Digit))
            }
        },
        Ok((q1, Length::Size(len))) => {
            if advanced(q, q1, s) {
                let index = st.objects.len() as int;
                let st1 = Amf3State { objects: st.objects.push(ValueV::Null), ..st };
                match spec_payload(st1, s, q1, len as int, kind) {
                    Err(e) => Err(e),
                    Ok((st2, q2, v)) => Ok(
                        (Amf3State { objects: st2.objects.update(index, v), ..st2 }, q2, v),
                    ),
                }
            } else {
                Err(Error::OutOfBounds)
            }
        },
    }
}

/// Reading the inline payload of size `len` of a value that holds no other values.
pub open spec fn spec_plain_payload(s: Seq<u8>, q: int, len: int, kind: PayloadKind) -> Result<(int, ValueV), Error> {
    match kind {
        PayloadKind::ByteArray => {
            if q + len <= s.len() {
                Ok((q + len, ValueV::ByteArray(s.subrange(q, q + len))))
            } else {
                Err(nom_err(q, ErrorKind::Eof))
            }
        },
        PayloadKind::VectorInt => {
            if s.len() - q < len * 4 {
                Err(nom_err(q, ErrorKind::TooLarge))
            } else if q >= s.len() {
                Err(nom_err(q, ErrorKind::Eof))
            } else {
                match spec_i32s(s, q + 1, len) {
                    Ok((e, xs)) => Ok((e, ValueV::VectorInt { values: xs, fixed_length: s[q] == 1 })),
                    Err(e) => Err(e),
                }
            }
        },
        PayloadKind::VectorUInt => {
            if s.len() - q < len * 4 {
                Err(nom_err(q, ErrorKind::TooLarge))
            } else if q >= s.len() {
                Err(nom_err(q, ErrorKind::Eof))
            } else {
                match spec_u32s(s, q + 1, len) {
                    Ok((e, xs)) => Ok((e, ValueV::VectorUInt { values: xs, fixed_length: s[q] == 1 })),
                    Err(e) => Err(e),
                }
            }
        },
        PayloadKind::VectorDouble => {
            if s.len() - q < len * 8 {
                Err(nom_err(q, ErrorKind::TooLarge))
            } else if q >= s.len() {
                Err(nom_err(q, ErrorKind::Eof))
            } else {
                match spec_u64s(s, q + 1, len) {
                    Ok((e, xs)) => Ok((e, ValueV::VectorDouble { values: xs, fixed_length: s[q] == 1 })),
                    Err(e) => Err(e),
                }
            }
        },
        PayloadKind::Date => {
            if q + 8 <= s.len() {
                Ok((q + 8, ValueV::Date { time: u64_at(s, q), timezone_or_utc: None }))
            } else {
                Err(nom_err(q, ErrorKind::Eof))
            }
        },
        PayloadKind::Xml(is_string) => {
            if q + len > s.len() {
                Err(nom_err(q, ErrorKind::Eof))
            } else if !valid_utf8(s.subrange(q, q + len)) {
                Err(nom_err(q, ErrorKind::MapRes))
            } else {
                Ok((q + len, ValueV::XML { value: decode_utf8(s.subrange(q, q + len)), is_string }))
            }
        },
        _ => Err(Error::OutOfBounds),
    }
}

/// Reading the inline payload of a vector of objects of size `len`.
pub open spec fn spec_vector_object_payload(st: Amf3State, s: Seq<u8>, q: int, len: int) -> Step<ValueV>
    decreases s.len() - q, 0int, 5int,
{
    if q >= s.len() {
        Err(nom_err(q, ErrorKind::Eof))
    } else {
        match spec_string(st, s, q + 1) {
            Err(e) => Err(e),
            Ok((st1, q1, name)) => {
                if moved(q, q1, s) {
                    match spec_values(st1, s, q1, len) {
                        Err(e) => Err(e),
                        Ok((st2, q2, vs)) => Ok((st2, q2, ValueV::VectorObject {
                            id: ObjectId(-1i64),
                            values: vs,
                            object_type_name: name,
                            fixed_length: s[q] == 1,
                        })),
                    }
                } else {
                    Err(Error::OutOfBounds)
                }
            },
        }
    }
}

/// Reading the inline payload of an array of size `len`.
pub open spec fn spec_array_payload(st: Amf3State, s: Seq<u8>, q: int, len: int) -> Step<ValueV>
    decreases s.len() - q, 0int, 5int,
{
    if s.len() - q < len {
        Err(nom_err(q, ErrorKind::TooLarge))
    } else {
        match spec_byte_stream(st, s, q) {
            Err(e) => Err(e),
            Ok((st1, q1, key)) => {
                if !moved(q, q1, s) {
                    Err(Error::OutOfBounds)
                } else if key.len() == 0 {
                    match spec_values(st1, s, q1, len) {
                        Err(e) => Err(e),
                        Ok((st2, q2, vs)) => Ok((st2, q2, ValueV::StrictArray { id: ObjectId(-1i64), values: vs })),
                    }
                } else {
                    match spec_assoc(st1, s, q1, key) {
                        Err(e) => Err(e),
                        Ok((st2, q2, els)) => {
                            if moved(q, q2, s) {
                                match spec_values(st2, s, q2, len) {
                                    Err(e) => Err(e),
                                    Ok((st3, q3, vs)) => Ok((st3, q3, ValueV::ECMAArray {
                                        id: ObjectId(-1i64),
                                        dense: vs,
                                        elements: els,
                                        length: els.len() as u32,
                                    })),
                                }
                            } else {
                                Err(Error::OutOfBounds)
                            }
                        },
                    }
                }
            },
        }
    }
}

/// Reading the inline payload of a dictionary of size `len`.
pub open spec fn spec_dictionary_payload(st: Amf3State, s: Seq<u8>, q: int, len: int) -> Step<ValueV>
    decreases s.len() - q, 0int, 5int,
{
    if q >= s.len() {
        Err(nom_err(q, ErrorKind::Eof))
    } else if s.len() - (q + 1) < len * 2 {
        Err(nom_err(q + 1, ErrorKind::TooLarge))
    } else {
        match spec_values(st, s, q + 1, len * 2) {
            Err(e) => Err(e),
            Ok((st1, q1, vs)) => Ok((st1, q1, ValueV::Dictionary {
                id: ObjectId(-1i64),
                elements: pairs_of(vs),
                weak_keys: s[q] == 1,
            })),
        }
    }
}

/// Reading the inline payload of a value of size `len`.
pub open spec fn spec_payload(st: Amf3State, s: Seq<u8>, q: int, len: int, kind: PayloadKind) -> Step<ValueV>
    decreases s.len() - q, 1int, 0int,
{
    match kind {
        PayloadKind::VectorObject => spec_vector_object_payload(st, s, q, len),
        PayloadKind::Array => spec_array_payload(st, s, q, len),
        PayloadKind::Dictionary => spec_dictionary_payload(st, s, q, len),
        _ => match spec_plain_payload(s, q, len, kind) {
            Ok((e, v)) => Ok((st, e, v)),
            Err(e) => Err(e),
        },
    }
}

/// One entry of the associative part of an array whose key `key` has been read: the value,
/// then the next key.
pub open spec fn spec_assoc_entry(st: Amf3State, s: Seq<u8>, p: int, key: Seq<u8>) -> Step<(ElementV, Seq<u8>)>
    decreases s.len() - p, 0int, 1int,
{
    match spec_value(st, s, p) {
        Err(e) => Err(e),
        Ok((st1, p1, v)) => {
            if !valid_utf8(key) {
                Err(nom_err(p, ErrorKind::Alpha))
            } else {
                match spec_byte_stream(st1, s, p1) {
                    Err(e) => Err(e),
                    Ok((st2, p2, k2)) => Ok((st2, p2, (ElementV { name: decode_utf8(key), value: v }, k2))),
                }
            }
        },
    }
}

/// Reading the associative part of an array whose first key `key` has been read: each
/// non-empty key is followed by a value and the next key.
pub open spec fn spec_assoc(st: Amf3State, s: Seq<u8>, p: int, key: Seq<u8>) -> Step<Seq<ElementV>>
    decreases s.len() - p, 1int, 0int,
{
    if key.len() == 0 {
        Ok((st, p, Seq::empty()))
    } else {
        match spec_assoc_entry(st, s, p, key) {
            Err(e) => Err(e),
            Ok((st2, p2, (el, k2))) => {
                if p < p2 <= s.len() {
                    prefixed(seq![el], spec_assoc(st2, s, p2, k2))
                } else {
                    Err(Error::OutOfBounds)
                }
            },
        }
    }
}

/// Reading the values of the static properties `names`, in order.
pub open spec fn spec_static_props(st: Amf3State, s: Seq<u8>, p: int, names: Seq<Seq<char>>) -> Step<Seq<ElementV>>
    decreases s.len() - p, 1int, names.len(),
{
    if names.len() == 0 {
        Ok((st, p, Seq::empty()))
    } else {
        match spec_value(st, s, p) {
            Err(e) => Err(e),
            Ok((st1, p1, v)) => {
                if advanced(p, p1, s) {
                    prefixed(
                        seq![ElementV { name: names[0], value: v }],
                        spec_static_props(st1, s, p1, names.drop_first()),
                    )
                } else {
                    Err(Error::OutOfBounds)
                }
            },
        }
    }
}

/// One dynamic property of an object whose name `attr` has been read: the value, then the
/// next name. A name that is not UTF-8 is reported at `perr`.
pub open spec fn spec_dynamic_entry(st: Amf3State, s: Seq<u8>, p: int, perr: int, attr: Seq<u8>) -> Step<(ElementV, Seq<u8>)>
    decreases s.len() - p, 0int, 1int,
{
    if !valid_utf8(attr) {
        Err(nom_err(perr, ErrorKind::Alpha))
    } else {
        match spec_value(st, s, p) {
            Err(e) => Err(e),
            Ok((st1, p1, v)) => match spec_byte_stream(st1, s, p1) {
                Err(e) => Err(e),
                Ok((st2, p2, a2)) => Ok((st2, p2, (ElementV { name: decode_utf8(attr), value: v }, a2))),
            },
        }
    }
}

/// Reading the dynamic properties of an object whose first name `attr` has been read: each
/// non-empty name is followed by a value and the next name.
pub open spec fn spec_dynamic(st: Amf3State, s: Seq<u8>, p: int, perr: int, attr: Seq<u8>) -> Step<Seq<ElementV>>
    decreases s.len() - p, 1int, 0int,
{
    if attr.len() == 0 {
        Ok((st, p, Seq::empty()))
    } else {
        match spec_dynamic_entry(st, s, p, perr, attr) {
            Err(e) => Err(e),
            Ok((st2, p2, (el, a2))) => {
                if p < p2 <= s.len() {
                    prefixed(seq![el], spec_dynamic(st2, s, p2, perr, a2))
                } else {
                    Err(Error::OutOfBounds)
                }
            },
        }
    }
}

/// The state after the object at slot `index` is replaced by `v`.
pub open spec fn set_object(st: Amf3State, index: int, v: ValueV) -> Amf3State {
    Amf3State { objects: st.objects.update(index, v), ..st }
}

/// Reading an object after its marker: a U29 header whose low bit clear refers to an object
/// already read, else a class definition and the properties it describes. A new object takes
/// the next object id and the next slot of the object table.
pub open spec fn spec_object(st: Amf3State, s: Seq<u8>, q: int) -> Step<ValueV>
    decreases s.len() - q, 2int, 0int,
{
    match spec_read_int(s, q) {
        Err(e) => Err(e),
        Ok((q1, length)) => {
            if length & 1 == 0 {
                let idx = (length >> 1) as int;
                if idx < st.objects.len() {
                    match st.objects[idx] {
                        ValueV::Object { id, .. } => Ok((st, q1, ValueV::Amf3ObjectReference(id))),
                        _ => Err(nom_err(q1, ErrorKind::Digit)),
                    }
                } else {
                    Err(nom_err(q1, ErrorKind::Digit))
                }
            } else {
                let id = next_object_id(st.object_id);
                let index = st.objects.len() as int;
                let st1 = Amf3State {
                    object_id: id,
                    objects: st.objects.push(
                        ValueV::Object { id: ObjectId(id), elements: Seq::empty(), class_definition: None },
                    ),
                    ..st
                };
                match spec_class_def(st1, s, q1, length >> 1) {
                    Err(e) => Err(e),
                    Ok((st2, q2, cd)) => {
                        let st3 = set_object(
                            st2,
                            index,
                            ValueV::Object { id: ObjectId(id), elements: Seq::empty(), class_definition: Some(cd) },
                        );
                        if !advanced(q, q2, s) {
                            Err(Error::OutOfBounds)
                        } else if cd.attributes.external {
                            match lookup_external(st3.externals, cd.name) {
                                None => Err(nom_err(q2, ErrorKind::Tag)),
                                Some(kind) => match spec_external_any(st3, s, q2, kind) {
                                    Err(e) => Err(e),
                                    Ok((st4, q3, els)) => Ok((st4, q3, ValueV::Custom {
                                        elements: els,
                                        dynamic_elements: Seq::empty(),
                                        class_definition: cd,
                                    })),
                                },
                            }
                        } else if cd.attributes.dynamic {
                            match spec_static_props(st3, s, q2, cd.static_properties) {
                                Err(e) => Err(e),
                                Ok((st4, q3, els)) => match spec_byte_stream(st4, s, q3) {
                                    Err(e) => Err(e),
                                    Ok((st5, q4, attr)) => {
                                        if advanced(q, q4, s) {
                                            match spec_dynamic(st5, s, q4, q2, attr) {
                                                Err(e) => Err(e),
                                                Ok((st6, q5, dyn_els)) => {
                                                    let v = ValueV::Object {
                                                        id: ObjectId(id),
                                                        elements: els + dyn_els,
                                                        class_definition: Some(cd),
                                                    };
                                                    Ok((set_object(st6, index, v), q5, v))
                                                },
                                            }
                                        } else {
                                            Err(Error::OutOfBounds)
                                        }
                                    },
                                },
                            }
                        } else {
                            match spec_static_props(st3, s, q2, cd.static_properties) {
                                Err(e) => Err(e),
                                Ok((st4, q3, els)) => {
                                    let v = ValueV::Object {
                                        id: ObjectId(id),
                                        elements: els,
                                        class_definition: Some(cd),
                                    };
                                    Ok((set_object(st4, index, v), q3, v))
                                },
                            }
                        }
                    },
                }
            }
        },
    }
}

} // verus!

verus! {

/// Read an unsigned U29 at `pos`.
pub fn read_int_at(s: &[u8], pos: usize) -> (r: Result<(usize, u32), Error>)
    ensures
        match spec_read_int(s@, pos as int) {
            Ok((e, v)) => r == Ok::<(usize, u32), Error>((e as usize, v)),
            Err(e) => r == Err::<(usize, u32), Error>(e),
        },
        r matches Ok((e, v)) ==> pos < e <= s.len() && v < 0x4000_0000,
{
    let (p, v) = read_u29_raw(s, pos)?;
    if v & 0x1000_0000 != 0 {
        assert(v << 1 < 0x3fff_ffff) by (bit_vector) requires v < 0x2000_0000;
        Ok((p, (v << 1) + 1))
    } else {
        Ok((p, v))
    }
}

/// Read a signed U29 at `pos`.
pub fn read_int_signed_at(s: &[u8], pos: usize) -> (r: Result<(usize, i32), Error>)
    ensures
        match spec_read_int_signed(s@, pos as int) {
            Ok((e, v)) => r == Ok::<(usize, i32), Error>((e as usize, v)),
            Err(e) => r == Err::<(usize, i32), Error>(e),
        },
        r matches Ok((e, _)) ==> pos < e <= s.len(),
{
    let (p, v) = read_u29_raw(s, pos)?;
    if v & 0x1000_0000 != 0 {
        Ok((p, (v as i32) - 0x2000_0000))
    } else {
        Ok((p, v as i32))
    }
}

/// Read the raw 29 bits of a U29 at `pos`.
fn read_u29_raw(s: &[u8], pos: usize) -> (r: Result<(usize, u32), Error>)
    ensures
        match spec_read_u29_raw(s@, pos as int) {
            Ok((e, v)) => r == Ok::<(usize, u32), Error>((e as usize, v)),
            Err(e) => r == Err::<(usize, u32), Error>(e),
        },
        r matches Ok((e, v)) ==> pos < e <= s.len() && v < 0x2000_0000,
{
    if pos >= s.len() {
        return Err(Error::Nom(pos, ErrorKind::Eof));
    }
    let b0 = s[pos];
    let v0 = (b0 & 0x7f) as u32;
    if b0 & 0x80 == 0 {
        assert(v0 < 0x2000_0000) by (bit_vector) requires v0 == (b0 & 0x7f) as u32;
        return Ok((pos + 1, v0));
    }
    if pos + 1 >= s.len() {
        return Err(Error::Nom(pos + 1, ErrorKind::Eof));
    }
    let b1 = s[pos + 1];
    let v1 = (v0 << 7) | ((b1 & 0x7f) as u32);
    if b1 & 0x80 == 0 {
        assert(v1 < 0x2000_0000) by (bit_vector)
            requires v0 == (b0 & 0x7f) as u32, v1 == (v0 << 7) | ((b1 & 0x7f) as u32);
        return Ok((pos + 2, v1));
    }
    if pos + 2 >= s.len() {
        return Err(Error::Nom(pos + 2, ErrorKind::Eof));
    }
    let b2 = s[pos + 2];
    let v2 = (v1 << 7) | ((b2 & 0x7f) as u32);
    if b2 & 0x80 == 0 {
        assert(v2 < 0x2000_0000) by (bit_vector)
            requires
                v0 == (b0 & 0x7f) as u32,
                v1 == (v0 << 7) | ((b1 & 0x7f) as u32),
                v2 == (v1 << 7) | ((b2 & 0x7f) as u32),
        ;
        return Ok((pos + 3, v2));
    }
    if pos + 3 >= s.len() {
        return Err(Error::Nom(pos + 3, ErrorKind::Eof));
    }
    let b3 = s[pos + 3];
    let v3 = (v2 << 8) | (b3 as u32);
    assert(v3 < 0x2000_0000) by (bit_vector)
        requires
            v0 == (b0 & 0x7f) as u32,
            v1 == (v0 << 7) | ((b1 & 0x7f) as u32),
            v2 == (v1 << 7) | ((b2 & 0x7f) as u32),
            v3 == (v2 << 8) | (b3 as u32),
    ;
    Ok((pos + 4, v3))
}

/// Read a length header at `pos`.
pub fn read_length(s: &[u8], pos: usize) -> (r: Result<(usize, Length), Error>)
    ensures
        match spec_read_length(s@, pos as int) {
            Ok((e, l)) => r == Ok::<(usize, Length), Error>((e as usize, l)),
            Err(e) => r == Err::<(usize, Length), Error>(e),
        },
        r matches Ok((e, _)) ==> pos < e <= s.len(),
        r matches Ok((_, Length::Size(x))) ==> x < 0x2000_0000,
{
    let (p, val) = read_int_at(s, pos)?;
    assert(val >> 1 < 0x2000_0000) by (bit_vector) requires val < 0x4000_0000;
    if val & 1 == 0 {
        Ok((p, Length::Reference((val >> 1) as usize)))
    } else {
        Ok((p, Length::Size(val >> 1)))
    }
}

/// Read a signed U29 at the start of `i`, giving the number of bytes read and the value.
pub fn read_int_signed(i: &[u8]) -> (r: Result<(usize, i32), Error>)
    ensures
        match spec_read_int_signed(i@, 0) {
            Ok((e, v)) => r == Ok::<(usize, i32), Error>((e as usize, v)),
            Err(e) => r == Err::<(usize, i32), Error>(e),
        },
{
    read_int_signed_at(i, 0)
}

/// Read an unsigned U29 at the start of `i`, giving the number of bytes read and the value.
pub fn read_int(i: &[u8]) -> (r: Result<(usize, u32), Error>)
    ensures
        match spec_read_int(i@, 0) {
            Ok((e, v)) => r == Ok::<(usize, u32), Error>((e as usize, v)),
            Err(e) => r == Err::<(usize, u32), Error>(e),
        },
{
    read_int_at(i, 0)
}

/// For fuzzing
pub fn fuzz_read_int_signed(i: &[u8]) -> (r: Result<(usize, i32), Error>)
    ensures
        match spec_read_int_signed(i@, 0) {
            Ok((e, v)) => r == Ok::<(usize, i32), Error>((e as usize, v)),
            Err(e) => r == Err::<(usize, i32), Error>(e),
        },
{
    read_int_signed(i)
}

/// For fuzzing
pub fn fuzz_read_int(i: &[u8]) -> (r: Result<(usize, u32), Error>)
    ensures
        match spec_read_int(i@, 0) {
            Ok((e, v)) => r == Ok::<(usize, u32), Error>((e as usize, v)),
            Err(e) => r == Err::<(usize, u32), Error>(e),
        },
{
    read_int(i)
}

} // verus!

verus! {

/// Handles decoding AMF3
pub struct AMF3Decoder {
    /// The table used to cache repeated byte strings
    pub string_reference_table: Vec<Vec<u8>>,
    /// The table used to cache repeated trait definitions
    pub trait_reference_table: Vec<ClassDefinition>,
    /// The table used to cache repeated objects
    pub object_reference_table: Vec<Value>,
    /// Decoders used for handling externalized types, by class name
    pub external_decoders: Vec<(String, ExternalDecoder)>,
    /// Tracks the id of the last object we have read, used to generate `ObjectId`s for `Amf3ObjectReference`
    object_id: i64,
}

/// The contents of a table of byte strings.
pub open spec fn byte_table_view(t: Seq<Vec<u8>>) -> Seq<Seq<u8>> {
    Seq::new(t.len(), |i: int| t[i]@)
}

/// The contents of a table of class definitions.
pub open spec fn trait_table_view(t: Seq<ClassDefinition>) -> Seq<ClassDefV> {
    Seq::new(t.len(), |i: int| class_def_view(t[i]))
}

/// The contents of a registry of external decoders.
pub open spec fn externals_view(t: Seq<(String, ExternalDecoder)>) -> Seq<(Seq<char>, ExternalDecoder)> {
    Seq::new(t.len(), |i: int| (t[i].0@, t[i].1))
}

impl AMF3Decoder {
    /// The tables and counters of this decoder.
    pub closed spec fn state(&self) -> Amf3State {
        Amf3State {
            strings: byte_table_view(self.string_reference_table@),
            traits: trait_table_view(self.trait_reference_table@),
            objects: values_view(self.object_reference_table@),
            externals: externals_view(self.external_decoders@),
            object_id: self.object_id,
        }
    }

    /// The state of a decoder with empty tables and no external decoders.
    pub open spec fn new_state() -> Amf3State {
        Amf3State {
            strings: Seq::empty(),
            traits: Seq::empty(),
            objects: Seq::empty(),
            externals: Seq::empty(),
            object_id: 0,
        }
    }

    /// A decoder with empty tables and no external decoders.
    pub fn new() -> (r: AMF3Decoder)
        ensures
            r.state() == AMF3Decoder::new_state(),
    {
        let r = AMF3Decoder {
            string_reference_table: Vec::new(),
            trait_reference_table: Vec::new(),
            object_reference_table: Vec::new(),
            external_decoders: Vec::new(),
            object_id: 0,
        };
        assert(r.state().strings =~= Seq::empty());
        assert(r.state().traits =~= Seq::empty());
        assert(r.state().objects =~= Seq::empty());
        assert(r.state().externals =~= Seq::empty());
        r
    }

    /// Register `decoder` for the externalizable class `name`, replacing any decoder
    /// registered for it before.
    pub fn register_external(&mut self, name: String, decoder: ExternalDecoder)
        ensures
            lookup_external(final(self).state().externals, name@) == Some(decoder),
            forall|n: Seq<char>|
                n != name@ ==> lookup_external(final(self).state().externals, n)
                    == lookup_external(old(self).state().externals, n),
            final(self).state().strings == old(self).state().strings,
            final(self).state().traits == old(self).state().traits,
            final(self).state().objects == old(self).state().objects,
            final(self).state().object_id == old(self).state().object_id,
    {
        let ghost old_ext = self.state().externals;
        let mut i: usize = 0;
        while i < self.external_decoders.len()
            invariant
                i <= self.external_decoders@.len(),
                self.state() == old(self).state(),
                self.state().externals == old(self).state().externals,
                forall|j: int| 0 <= j < i ==> (#[trigger] self.external_decoders@[j]).0@ != name@,
                old_ext == externals_view(self.external_decoders@),
            decreases self.external_decoders.len() - i,
        {
            if self.external_decoders[i].0 == name {
                let ghost before = self.external_decoders@;
                self.external_decoders.set(i, (name, decoder));
                proof {
                    lemma_lookup_update(old_ext, i as int, name@, decoder);
                    assert(self.state().externals =~= old_ext.update(i as int, (name@, decoder)));
                    assert(self.state().strings =~= old(self).state().strings);
                    assert(self.state().traits =~= old(self).state().traits);
                    assert(self.state().objects =~= old(self).state().objects);
                }
                return;
            }
            i += 1;
        }
        let ghost nm = name@;
        self.external_decoders.push((name, decoder));
        proof {
            lemma_lookup_push(old_ext, nm, decoder);
            assert(self.state().externals =~= old_ext.push((nm, decoder)));
            assert(self.state().strings =~= old(self).state().strings);
            assert(self.state().traits =~= old(self).state().traits);
            assert(self.state().objects =~= old(self).state().objects);
        }
    }
}

/// Replacing the first entry named `name` keeps every other name's lookup and gives `d` for `name`.
proof fn lemma_lookup_update(ext: Seq<(Seq<char>, ExternalDecoder)>, i: int, name: Seq<char>, d: ExternalDecoder)
    requires
        0 <= i < ext.len(),
        ext[i].0 == name,
        forall|j: int| 0 <= j < i ==> (#[trigger] ext[j]).0 != name,
    ensures
        lookup_external(ext.update(i, (name, d)), name) == Some(d),
        forall|n: Seq<char>| n != name ==> lookup_external(ext.update(i, (name, d)), n) == lookup_external(ext, n),
    decreases i,
{
    let u = ext.update(i, (name, d));
    if i > 0 {
        lemma_lookup_update(ext.drop_first(), i - 1, name, d);
        assert(u.drop_first() =~= ext.drop_first().update(i - 1, (name, d)));
    } else {
        assert(u.drop_first() =~= ext.drop_first());
    }
    assert forall|n: Seq<char>| n != name implies lookup_external(u, n) == lookup_external(ext, n) by {
        if i > 0 {
            assert(u[0] == ext[0]);
            assert(lookup_external(ext.drop_first().update(i - 1, (name, d)), n) == lookup_external(ext.drop_first(), n));
        }
    }
}

/// Appending an entry for a name not yet present gives that entry for it and keeps every other lookup.
proof fn lemma_lookup_push(ext: Seq<(Seq<char>, ExternalDecoder)>, name: Seq<char>, d: ExternalDecoder)
    requires
        forall|j: int| 0 <= j < ext.len() ==> (#[trigger] ext[j]).0 != name,
    ensures
        lookup_external(ext.push((name, d)), name) == Some(d),
        forall|n: Seq<char>| n != name ==> lookup_external(ext.push((name, d)), n) == lookup_external(ext, n),
    decreases ext.len(),
{
    let u = ext.push((name, d));
    if ext.len() > 0 {
        lemma_lookup_push(ext.drop_first(), name, d);
        assert(u.drop_first() =~= ext.drop_first().push((name, d)));
        assert forall|n: Seq<char>| n != name implies lookup_external(u, n) == lookup_external(ext, n) by {
            assert(u[0] == ext[0]);
            assert(lookup_external(ext.drop_first().push((name, d)), n) == lookup_external(ext.drop_first(), n));
        }
    } else {
        assert(u.drop_first() =~= ext);
    }
}

} // verus!

verus! {

impl AMF3Decoder {
    /// Read a byte string at `pos`.
    pub fn parse_byte_stream(&mut self, s: &[u8], pos: usize) -> (r: Result<(usize, Vec<u8>), Error>)
        requires
            pos <= s.len(),
        ensures
            match spec_byte_stream(old(self).state(), s@, pos as int) {
                Ok((st, p, b)) => r matches Ok((q, x)) && q == p && x@ == b && final(self).state() == st,
                Err(e) => r == Err::<(usize, Vec<u8>), Error>(e),
            },
            r matches Ok((q, _)) ==> pos < q <= s.len(),
            final(self).state().externals == old(self).state().externals,
            final(self).state().objects == old(self).state().objects,
    {
        let (p1, len) = read_length(s, pos)?;
        match len {
            Length::Size(len) => {
                if len == 0 {
                    Ok((p1, Vec::new()))
                } else {
                    if len as usize > s.len() - p1 {
                        return Err(Error::Nom(p1, ErrorKind::Eof));
                    }
                    let (p2, bytes) = crate::bytes::read_bytes(s, p1, len as usize)?;
                    let (_, copy) = crate::bytes::read_bytes(s, p1, len as usize)?;
                    self.string_reference_table.push(copy);
                    proof {
                        assert(self.state().strings =~= old(self).state().strings.push(bytes@));
                        assert(self.state().traits =~= old(self).state().traits);
                        assert(self.state().objects =~= old(self).state().objects);
                        assert(self.state().externals =~= old(self).state().externals);
                    }
                    Ok((p2, bytes))
                }
            },
            Length::Reference(index) => {
                if index < self.string_reference_table.len() {
                    let b = crate::types::copy_vec(&self.string_reference_table[index]);
                    Ok((p1, b))
                } else {
                    Err(Error::Nom(p1, ErrorKind::Digit))
                }
            },
        }
    }

    /// Read a UTF-8 string at `pos`.
    pub fn parse_string(&mut self, s: &[u8], pos: usize) -> (r: Result<(usize, String), Error>)
        requires
            pos <= s.len(),
        ensures
            match spec_string(old(self).state(), s@, pos as int) {
                Ok((st, p, x)) => r matches Ok((q, t)) && q == p && t@ == x && final(self).state() == st,
                Err(e) => r == Err::<(usize, String), Error>(e),
            },
            r matches Ok((q, _)) ==> pos < q <= s.len(),
            final(self).state().externals == old(self).state().externals,
            final(self).state().objects == old(self).state().objects,
    {
        let (p1, bytes) = self.parse_byte_stream(s, pos)?;
        match crate::bytes::utf8_to_string(bytes.as_slice()) {
            Some(t) => Ok((p1, t)),
            None => Err(Error::Nom(p1, ErrorKind::Alpha)),
        }
    }

    /// Read `n` strings one after the other.
    fn parse_strings(&mut self, s: &[u8], pos: usize, n: usize) -> (r: Result<(usize, Vec<String>), Error>)
        requires
            pos <= s.len(),
        ensures
            match spec_strings(old(self).state(), s@, pos as int, n as int) {
                Ok((st, p, xs)) => r matches Ok((q, v)) && q == p && strings_view(v@) == xs
                    && final(self).state() == st,
                Err(e) => r == Err::<(usize, Vec<String>), Error>(e),
            },
            r matches Ok((q, _)) ==> pos <= q <= s.len(),
            final(self).state().externals == old(self).state().externals,
            final(self).state().objects == old(self).state().objects,
    {
        let mut out: Vec<String> = Vec::new();
        let mut p = pos;
        let mut i: usize = 0;
        while i < n
            invariant
                i <= n,
                pos <= p <= s.len(),
                spec_strings(old(self).state(), s@, pos as int, n as int) == prefixed(
                    strings_view(out@),
                    spec_strings(self.state(), s@, p as int, (n - i) as int),
                ),
                self.state().externals == old(self).state().externals,
                self.state().objects == old(self).state().objects,
            decreases n - i,
        {
            let ghost st0 = self.state();
            let (p1, x) = self.parse_string(s, p)?;
            proof {
                assert(strings_view(out@.push(x)) =~= strings_view(out@) + seq![x@]);
                assert(spec_strings(st0, s@, p as int, (n - i) as int) == prefixed(
                    seq![x@],
                    spec_strings(self.state(), s@, p1 as int, (n - i - 1) as int),
                ));
                let r = spec_strings(self.state(), s@, p1 as int, (n - i - 1) as int);
                if let Ok((a, b, c)) = r {
                    assert(strings_view(out@) + (seq![x@] + c) =~= (strings_view(out@) + seq![x@]) + c);
                }
            }
            out.push(x);
            p = p1;
            i += 1;
        }
        proof {
            assert(strings_view(out@) + Seq::<Seq<char>>::empty() =~= strings_view(out@));
        }
        Ok((p, out))
    }

    /// Read a class definition whose header is `length`, at `pos`.
    fn parse_class_def(&mut self, length: u32, s: &[u8], pos: usize) -> (r: Result<(usize, ClassDefinition), Error>)
        requires
            pos <= s.len(),
        ensures
            match spec_class_def(old(self).state(), s@, pos as int, length) {
                Ok((st, p, cd)) => r matches Ok((q, c)) && q == p && class_def_view(c) == cd
                    && final(self).state() == st,
                Err(e) => r == Err::<(usize, ClassDefinition), Error>(e),
            },
            r matches Ok((q, _)) ==> pos <= q <= s.len(),
            final(self).state().externals == old(self).state().externals,
            final(self).state().objects == old(self).state().objects,
    {
        if length & 1 == 0 {
            let index = (length >> 1) as usize;
            if index < self.trait_reference_table.len() {
                return Ok((pos, self.trait_reference_table[index].copy()));
            } else {
                return Err(Error::Nom(pos, ErrorKind::Digit));
            }
        }
        let length = length >> 1;
        let (p1, name) = self.parse_byte_stream(s, pos)?;
        let name_str = match crate::bytes::utf8_to_string(name.as_slice()) {
            Some(t) => t,
            None => {
                return Err(Error::Nom(p1, ErrorKind::Alpha));
            },
        };
        let encoding = (length & 0x03) as u8;
        let attributes_count = length >> 2;
        let (p2, static_props) = self.parse_strings(s, p1, attributes_count as usize)?;
        let mut attributes = AttributeSet::empty();
        if encoding & 0b1 == 1 {
            attributes.insert(Attribute::External);
        }
        if encoding & 0b10 == 0b10 {
            attributes.insert(Attribute::Dynamic);
        }
        proof {
            assert(((length & 3) as u8) & 2 == 2 <==> (length & 3) & 2 == 2) by (bit_vector);
            assert(((length & 3) as u8) & 1 == 1 <==> (length & 3) & 1 == 1) by (bit_vector);
        }
        let class_def = ClassDefinition { name: name_str, attributes, static_properties: static_props };
        let copy = class_def.copy();
        let ghost before = self.state();
        self.trait_reference_table.push(copy);
        proof {
            assert(self.state().traits =~= before.traits.push(class_def_view(class_def)));
            assert(self.state().strings =~= before.strings);
            assert(self.state().objects =~= before.objects);
            assert(self.state().externals =~= before.externals);
        }
        Ok((p2, class_def))
    }
}

} // verus!

verus! {

/// Read `n` big-endian i32s at `pos`.
fn read_i32s(s: &[u8], pos: usize, n: usize) -> (r: Result<(usize, Vec<i32>), Error>)
    requires
        pos <= s.len(),
    ensures
        match spec_i32s(s@, pos as int, n as int) {
            Ok((e, xs)) => r matches Ok((q, v)) && q == e && v@ == xs,
            Err(e) => r == Err::<(usize, Vec<i32>), Error>(e),
        },
        r matches Ok((q, _)) ==> pos <= q <= s.len(),
{
    let mut out: Vec<i32> = Vec::new();
    let mut p = pos;
    let mut i: usize = 0;
    while i < n
        invariant
            i <= n,
            pos <= p <= s.len(),
            spec_i32s(s@, pos as int, n as int) == (match spec_i32s(s@, p as int, (n - i) as int) {
                Ok((e, xs)) => Ok::<(int, Seq<i32>), Error>((e, out@ + xs)),
                Err(e) => Err(e),
            }),
        decreases n - i,
    {
        let (p1, x) = crate::bytes::read_u32(s, p)?;
        proof {
            if let Ok((e, xs)) = spec_i32s(s@, p1 as int, (n - i - 1) as int) {
                assert(out@ + (seq![x as i32] + xs) =~= out@.push(x as i32) + xs);
            }
        }
        out.push(x as i32);
        p = p1;
        i += 1;
    }
    assert(out@ + Seq::<i32>::empty() =~= out@);
    Ok((p, out))
}

/// Read `n` big-endian u32s at `pos`.
fn read_u32s(s: &[u8], pos: usize, n: usize) -> (r: Result<(usize, Vec<u32>), Error>)
    requires
        pos <= s.len(),
    ensures
        match spec_u32s(s@, pos as int, n as int) {
            Ok((e, xs)) => r matches Ok((q, v)) && q == e && v@ == xs,
            Err(e) => r == Err::<(usize, Vec<u32>), Error>(e),
        },
        r matches Ok((q, _)) ==> pos <= q <= s.len(),
{
    let mut out: Vec<u32> = Vec::new();
    let mut p = pos;
    let mut i: usize = 0;
    while i < n
        invariant
            i <= n,
            pos <= p <= s.len(),
            spec_u32s(s@, pos as int, n as int) == (match spec_u32s(s@, p as int, (n - i) as int) {
                Ok((e, xs)) => Ok::<(int, Seq<u32>), Error>((e, out@ + xs)),
                Err(e) => Err(e),
            }),
        decreases n - i,
    {
        let (p1, x) = crate::bytes::read_u32(s, p)?;
        proof {
            if let Ok((e, xs)) = spec_u32s(s@, p1 as int, (n - i - 1) as int) {
                assert(out@ + (seq![x] + xs) =~= out@.push(x) + xs);
            }
        }
        out.push(x);
        p = p1;
        i += 1;
    }
    assert(out@ + Seq::<u32>::empty() =~= out@);
    Ok((p, out))
}

/// Read `n` big-endian doubles at `pos`, as their bits.
fn read_u64s(s: &[u8], pos: usize, n: usize) -> (r: Result<(usize, Vec<u64>), Error>)
    requires
        pos <= s.len(),
    ensures
        match spec_u64s(s@, pos as int, n as int) {
            Ok((e, xs)) => r matches Ok((q, v)) && q == e && v@ == xs,
            Err(e) => r == Err::<(usize, Vec<u64>), Error>(e),
        },
        r matches Ok((q, _)) ==> pos <= q <= s.len(),
{
    let mut out: Vec<u64> = Vec::new();
    let mut p = pos;
    let mut i: usize = 0;
    while i < n
        invariant
            i <= n,
            pos <= p <= s.len(),
            spec_u64s(s@, pos as int, n as int) == (match spec_u64s(s@, p as int, (n - i) as int) {
                Ok((e, xs)) => Ok::<(int, Seq<u64>), Error>((e, out@ + xs)),
                Err(e) => Err(e),
            }),
        decreases n - i,
    {
        let (p1, x) = crate::bytes::read_u64(s, p)?;
        proof {
            if let Ok((e, xs)) = spec_u64s(s@, p1 as int, (n - i - 1) as int) {
                assert(out@ + (seq![x] + xs) =~= out@.push(x) + xs);
            }
        }
        out.push(x);
        p = p1;
        i += 1;
    }
    assert(out@ + Seq::<u64>::empty() =~= out@);
    Ok((p, out))
}

/// Read the inline payload of size `len` of a value of kind `kind` that holds no other values, at `q`.
fn parse_plain_payload(s: &[u8], q: usize, len: usize, kind: PayloadKind) -> (r: Result<(usize, Value), Error>)
    requires
        q <= s.len(),
        len < 0x2000_0000,
    ensures
        match spec_plain_payload(s@, q as int, len as int, kind) {
            Ok((p, v)) => r matches Ok((e, x)) && e == p && x@ == v,
            Err(e) => r == Err::<(usize, Value), Error>(e),
        },
        r matches Ok((e, _)) ==> q <= e <= s.len(),
{
    match kind {
        PayloadKind::ByteArray => {
            let (e, b) = crate::bytes::read_bytes(s, q, len)?;
            Ok((e, Value::ByteArray(b)))
        },
        PayloadKind::VectorInt => {
            if s.len() - q < len * 4 {
                return Err(Error::Nom(q, ErrorKind::TooLarge));
            }
            let (q1, fixed) = crate::bytes::read_u8(s, q)?;
            let (e, xs) = read_i32s(s, q1, len)?;
            Ok((e, Value::VectorInt(VectorPrimitiveValue { values: xs, fixed_length: fixed == 1 })))
        },
        PayloadKind::VectorUInt => {
            if s.len() - q < len * 4 {
                return Err(Error::Nom(q, ErrorKind::TooLarge));
            }
            let (q1, fixed) = crate::bytes::read_u8(s, q)?;
            let (e, xs) = read_u32s(s, q1, len)?;
            Ok((e, Value::VectorUInt(VectorPrimitiveValue { values: xs, fixed_length: fixed == 1 })))
        },
        PayloadKind::VectorDouble => {
            if s.len() - q < len * 8 {
                return Err(Error::Nom(q, ErrorKind::TooLarge));
            }
            let (q1, fixed) = crate::bytes::read_u8(s, q)?;
            let (e, xs) = read_u64s(s, q1, len)?;
            Ok((e, Value::VectorDouble(VectorPrimitiveValue { values: xs, fixed_length: fixed == 1 })))
        },
        PayloadKind::Date => {
            let (e, time) = crate::bytes::read_u64(s, q)?;
            Ok((e, Value::Date { time, timezone_or_utc: None }))
        },
        PayloadKind::Xml(is_string) => {
            let (e, b) = crate::bytes::read_bytes(s, q, len)?;
            match crate::bytes::utf8_to_string(b.as_slice()) {
                Some(value) => Ok((e, Value::XML { value, is_string })),
                None => Err(Error::Nom(q, ErrorKind::MapRes)),
            }
        },
        _ => Err(Error::OutOfBounds),
    }
}

/// The dictionary entries made of consecutive values: entry `i` is values `2i` and `2i + 1`.
fn pair_entries(vals: Vec<Value>) -> (r: Vec<DictionaryEntry>)
    ensures
        entries_view(r@) == pairs_of(values_view(vals@)),
{
    let ghost vv = values_view(vals@);
    let mut entries: Vec<DictionaryEntry> = Vec::new();
    let mut src = vals;
    let mut rest: Vec<Value> = Vec::new();
    while src.len() > 0
        invariant
            src@.len() + rest@.len() == vv.len(),
            forall|j: int| 0 <= j < src@.len() ==> (#[trigger] src@[j])@ == vv[j],
            forall|j: int| 0 <= j < rest@.len() ==> (#[trigger] rest@[j])@ == vv[vv.len() - 1 - j],
        decreases src.len(),
    {
        let x = src.pop().unwrap();
        rest.push(x);
    }
    let ghost n = vv.len() / 2;
    let ghost mut i: int = 0;
    while rest.len() >= 2
        invariant
            0 <= i <= n,
            n == vv.len() / 2,
            rest@.len() == vv.len() - 2 * i,
            forall|j: int| 0 <= j < rest@.len() ==> (#[trigger] rest@[j])@ == vv[vv.len() - 1 - j],
            entries_view(entries@) == pairs_of(vv).subrange(0, i),
        decreases rest.len(),
    {
        let k = rest.pop().unwrap();
        let v = rest.pop().unwrap();
        let ghost e = EntryV { key: k@, value: v@ };
        proof {
            assert(k@ == vv[2 * i]);
            assert(v@ == vv[2 * i + 1]);
            assert(i < n);
        }
        let ghost before = entries@;
        entries.push(DictionaryEntry { key: k, value: v });
        proof {
            assert(entries@ =~= before.push(DictionaryEntry { key: k, value: v }));
            assert(entries_view(entries@) =~= entries_view(before).push(e));
            assert(pairs_of(vv).subrange(0, i + 1) =~= pairs_of(vv).subrange(0, i).push(e));
        }
        proof { i = i + 1; }
    }
    proof {
        assert(entries_view(entries@) =~= pairs_of(vv));
    }
    entries
}

/// The first registered decoder named `name` is found by scanning from the front.
proof fn lemma_lookup_first(ext: Seq<(Seq<char>, ExternalDecoder)>, name: Seq<char>, i: int)
    requires
        0 <= i <= ext.len(),
        forall|j: int| 0 <= j < i ==> (#[trigger] ext[j]).0 != name,
    ensures
        i < ext.len() && ext[i].0 == name ==> lookup_external(ext, name) == Some(ext[i].1),
        i == ext.len() ==> lookup_external(ext, name) is None,
    decreases i,
{
    if i > 0 {
        lemma_lookup_first(ext.drop_first(), name, i - 1);
    }
}

impl AMF3Decoder {
    /// The decoder registered for the class `name`.
    fn find_external(&self, name: &String) -> (r: Option<usize>)
        ensures
            match lookup_external(self.state().externals, name@) {
                Some(d) => r matches Some(i) && i < self.external_decoders@.len() && self.external_decoders@[i as int].1 == d,
                None => r is None,
            },
    {
        let ghost ext = self.state().externals;
        let mut i: usize = 0;
        while i < self.external_decoders.len()
            invariant
                i <= self.external_decoders@.len(),
                ext == externals_view(self.external_decoders@),
                forall|j: int| 0 <= j < i ==> (#[trigger] ext[j]).0 != name@,
            decreases self.external_decoders.len() - i,
        {
            if self.external_decoders[i].0 == *name {
                proof { lemma_lookup_first(ext, name@, i as int); }
                return Some(i);
            }
            i += 1;
        }
        proof { lemma_lookup_first(ext, name@, i as int); }
        None
    }
}

} // verus!

verus! {

impl AMF3Decoder {
    /// Read one AMF3 value at `pos`.
    #[verifier::rlimit(50)]
    pub fn parse_value_at(&mut self, s: &[u8], pos: usize) -> (r: Result<(usize, Value), Error>)
        requires
            pos <= s.len(),
        ensures
            match spec_value(old(self).state(), s@, pos as int) {
                Ok((st, p, v)) => r matches Ok((q, x)) && q == p && x@ == v && final(self).state() == st,
                Err(e) => r == Err::<(usize, Value), Error>(e),
            },
            r matches Ok((q, _)) ==> pos < q <= s.len(),
            final(self).state().externals == old(self).state().externals,
            final(self).state().objects.len() >= old(self).state().objects.len(),
        decreases s.len() - pos, 0int, 0int,
    {
        if pos >= s.len() {
            return Err(Error::Nom(pos, ErrorKind::Eof));
        }
        let b = s[pos];
        let q = pos + 1;
        let m = match TypeMarker::try_from_u8(b) {
            Ok(m) => m,
            Err(_) => {
                return Err(Error::UnsupportedType(b));
            },
        };
        match m {
            TypeMarker::Undefined => Ok((q, Value::Undefined)),
            TypeMarker::Null => Ok((q, Value::Null)),
            TypeMarker::False => Ok((q, Value::Bool(false))),
            TypeMarker::True => Ok((q, Value::Bool(true))),
            TypeMarker::Integer => {
                let (e, i) = read_int_signed_at(s, q)?;
                Ok((e, Value::Integer(i)))
            },
            TypeMarker::Number => {
                let (e, x) = crate::bytes::read_u64(s, q)?;
                Ok((e, Value::Number(x)))
            },
            TypeMarker::String => {
                let (e, x) = self.parse_string(s, q)?;
                Ok((e, Value::String(x)))
            },
            TypeMarker::Xml => self.parse_reference_or_val(s, q, PayloadKind::Xml(false)),
            TypeMarker::Date => self.parse_reference_or_val(s, q, PayloadKind::Date),
            TypeMarker::Array => self.parse_reference_or_val(s, q, PayloadKind::Array),
            TypeMarker::Object => self.parse_element_object(s, q),
            TypeMarker::XmlString => self.parse_reference_or_val(s, q, PayloadKind::Xml(true)),
            TypeMarker::ByteArray => self.parse_reference_or_val(s, q, PayloadKind::ByteArray),
            TypeMarker::VectorInt => self.parse_reference_or_val(s, q, PayloadKind::VectorInt),
            TypeMarker::VectorUInt => self.parse_reference_or_val(s, q, PayloadKind::VectorUInt),
            TypeMarker::VectorDouble => self.parse_reference_or_val(s, q, PayloadKind::VectorDouble),
            TypeMarker::VectorObject => self.parse_reference_or_val(s, q, PayloadKind::VectorObject),
            TypeMarker::Dictionary => self.parse_reference_or_val(s, q, PayloadKind::Dictionary),
        }
    }

    /// Read `n` values one after the other.
    fn parse_values(&mut self, s: &[u8], pos: usize, n: usize) -> (r: Result<(usize, Vec<Value>), Error>)
        requires
            pos <= s.len(),
        ensures
            match spec_values(old(self).state(), s@, pos as int, n as int) {
                Ok((st, p, vs)) => r matches Ok((q, x)) && q == p && values_view(x@) == vs
                    && final(self).state() == st,
                Err(e) => r == Err::<(usize, Vec<Value>), Error>(e),
            },
            r matches Ok((q, _)) ==> pos <= q <= s.len(),
            final(self).state().externals == old(self).state().externals,
            final(self).state().objects.len() >= old(self).state().objects.len(),
        decreases s.len() - pos, 1int, n,
    {
        let mut out: Vec<Value> = Vec::new();
        let mut p = pos;
        let mut i: usize = 0;
        while i < n
            invariant
                i <= n,
                pos <= p <= s.len(),
                spec_values(old(self).state(), s@, pos as int, n as int) == prefixed(
                    values_view(out@),
                    spec_values(self.state(), s@, p as int, (n - i) as int),
                ),
                self.state().externals == old(self).state().externals,
                self.state().objects.len() >= old(self).state().objects.len(),
            decreases n - i,
        {
            let ghost st0 = self.state();
            let (p1, v) = self.parse_value_at(s, p)?;
            proof {
                assert(values_view(out@.push(v)) =~= values_view(out@) + seq![v@]);
                let r = spec_values(self.state(), s@, p1 as int, (n - i - 1) as int);
                if let Ok((a, b, c)) = r {
                    assert(values_view(out@) + (seq![v@] + c) =~= (values_view(out@) + seq![v@]) + c);
                }
            }
            out.push(v);
            p = p1;
            i += 1;
        }
        proof {
            assert(values_view(out@) + Seq::<ValueV>::empty() =~= values_view(out@));
        }
        Ok((p, out))
    }

    /// Read a value that may be a reference into the object table, at `q`.
    fn parse_reference_or_val(&mut self, s: &[u8], q: usize, kind: PayloadKind) -> (r: Result<(usize, Value), Error>)
        requires
            q <= s.len(),
        ensures
            match spec_ref_or_val(old(self).state(), s@, q as int, kind) {
                Ok((st, p, v)) => r matches Ok((e, x)) && e == p && x@ == v && final(self).state() == st,
                Err(e) => r == Err::<(usize, Value), Error>(e),
            },
            r matches Ok((e, _)) ==> q < e <= s.len(),
            final(self).state().externals == old(self).state().externals,
            final(self).state().objects.len() >= old(self).state().objects.len(),
        decreases s.len() - q, 2int, 0int,
    {
        let (q1, len) = read_length(s, q)?;
        match len {
            Length::Reference(index) => {
                if index < self.object_reference_table.len() {
                    Ok((q1, crate::types::copy_value(&self.object_reference_table[index])))
                } else {
                    Err(Error::Nom(q1, ErrorKind::Digit))
                }
            },
            Length::Size(len) => {
                let index = self.object_reference_table.len();
                let ghost st0 = self.state();
                self.object_reference_table.push(Value::Null);
                proof {
                    assert(self.state().objects =~= st0.objects.push(ValueV::Null));
                    assert(self.state().strings =~= st0.strings);
                    assert(self.state().traits =~= st0.traits);
                    assert(self.state().externals =~= st0.externals);
                }
                let (q2, v) = self.parse_payload(s, q1, len as usize, kind)?;
                let ghost st2 = self.state();
                let c = crate::types::copy_value(&v);
                self.object_reference_table.set(index, c);
                proof {
                    assert(self.state().objects =~= st2.objects.update(index as int, v@));
                    assert(self.state().strings =~= st2.strings);
                    assert(self.state().traits =~= st2.traits);
                    assert(self.state().externals =~= st2.externals);
                }
                Ok((q2, v))
            },
        }
    }

    /// Read the inline payload of size `len` of a value of kind `kind`, at `q`.
    fn parse_payload(&mut self, s: &[u8], q: usize, len: usize, kind: PayloadKind) -> (r: Result<(usize, Value), Error>)
        requires
            q <= s.len(),
            len < 0x2000_0000,
        ensures
            match spec_payload(old(self).state(), s@, q as int, len as int, kind) {
                Ok((st, p, v)) => r matches Ok((e, x)) && e == p && x@ == v && final(self).state() == st,
                Err(e) => r == Err::<(usize, Value), Error>(e),
            },
            r matches Ok((e, _)) ==> q <= e <= s.len(),
            final(self).state().externals == old(self).state().externals,
            final(self).state().objects.len() >= old(self).state().objects.len(),
        decreases s.len() - q, 1int, 0int,
    {
        match kind {
            PayloadKind::VectorObject => self.parse_vector_object_payload(s, q, len),
            PayloadKind::Array => self.parse_array_payload(s, q, len),
            PayloadKind::Dictionary => self.parse_dictionary_payload(s, q, len),
            _ => parse_plain_payload(s, q, len, kind),
        }
    }

    /// Read the payload of a vector of objects of size `len`, at `q`.
    fn parse_vector_object_payload(&mut self, s: &[u8], q: usize, len: usize) -> (r: Result<(usize, Value), Error>)
        requires
            q <= s.len(),
            len < 0x2000_0000,
        ensures
            match spec_vector_object_payload(old(self).state(), s@, q as int, len as int) {
                Ok((st, p, v)) => r matches Ok((e, x)) && e == p && x@ == v && final(self).state() == st,
                Err(e) => r == Err::<(usize, Value), Error>(e),
            },
            r matches Ok((e, _)) ==> q <= e <= s.len(),
            final(self).state().externals == old(self).state().externals,
            final(self).state().objects.len() >= old(self).state().objects.len(),
        decreases s.len() - q, 0int, 5int,
    {
        let (q1, fixed) = crate::bytes::read_u8(s, q)?;
        let (q2, object_type_name) = self.parse_string(s, q1)?;
        let (e, values) = self.parse_values(s, q2, len)?;
        let r = Value::VectorObject {
            id: ObjectId(-1),
            data: VectorObjectValue { values, object_type_name, fixed_length: fixed == 1 },
        };
        proof { lemma_value_view_parts(r); }
        Ok((e, r))
    }

    /// Read the payload of a dictionary of size `len`, at `q`.
    fn parse_dictionary_payload(&mut self, s: &[u8], q: usize, len: usize) -> (r: Result<(usize, Value), Error>)
        requires
            q <= s.len(),
            len < 0x2000_0000,
        ensures
            match spec_dictionary_payload(old(self).state(), s@, q as int, len as int) {
                Ok((st, p, v)) => r matches Ok((e, x)) && e == p && x@ == v && final(self).state() == st,
                Err(e) => r == Err::<(usize, Value), Error>(e),
            },
            r matches Ok((e, _)) ==> q <= e <= s.len(),
            final(self).state().externals == old(self).state().externals,
            final(self).state().objects.len() >= old(self).state().objects.len(),
        decreases s.len() - q, 0int, 5int,
    {
        let (q1, weak_keys) = crate::bytes::read_u8(s, q)?;
        if s.len() - q1 < len * 2 {
            return Err(Error::Nom(q1, ErrorKind::TooLarge));
        }
        let (e, vals) = self.parse_values(s, q1, len * 2)?;
        let entries = pair_entries(vals);
        let r = Value::Dictionary { id: ObjectId(-1), data: DictionaryObjectValue { elements: entries, weak_keys: weak_keys == 1 } };
        proof { lemma_value_view_parts(r); }
        Ok((e, r))
    }

    /// Read the payload of an array of size `len`, at `q`.
    fn parse_array_payload(&mut self, s: &[u8], q: usize, len: usize) -> (r: Result<(usize, Value), Error>)
        requires
            q <= s.len(),
            len < 0x2000_0000,
        ensures
            match spec_array_payload(old(self).state(), s@, q as int, len as int) {
                Ok((st, p, v)) => r matches Ok((e, x)) && e == p && x@ == v && final(self).state() == st,
                Err(e) => r == Err::<(usize, Value), Error>(e),
            },
            r matches Ok((e, _)) ==> q <= e <= s.len(),
            final(self).state().externals == old(self).state().externals,
            final(self).state().objects.len() >= old(self).state().objects.len(),
        decreases s.len() - q, 0int, 5int,
    {
        if s.len() - q < len {
            return Err(Error::Nom(q, ErrorKind::TooLarge));
        }
        let (q1, key) = self.parse_byte_stream(s, q)?;
        if key.len() == 0 {
            let (e, values) = self.parse_values(s, q1, len)?;
            let r = Value::StrictArray { id: ObjectId(-1), values };
            proof { lemma_value_view_parts(r); }
            return Ok((e, r));
        }
        let (q2, elements) = self.parse_assoc(s, q1, key)?;
        let (e, dense) = self.parse_values(s, q2, len)?;
        let length = elements.len() as u32;
        let r = Value::ECMAArray { id: ObjectId(-1), data: ECMAArrayObjectValue { dense, elements, length } };
        proof { lemma_value_view_parts(r); }
        Ok((e, r))
    }

    /// Read one entry of the associative part of an array whose key `key` has been read, at `pos`.
    fn parse_assoc_entry(&mut self, s: &[u8], pos: usize, key: &Vec<u8>) -> (r: Result<(usize, Element, Vec<u8>), Error>)
        requires
            pos <= s.len(),
        ensures
            match spec_assoc_entry(old(self).state(), s@, pos as int, key@) {
                Ok((st, p, (el, k2))) => r matches Ok((e, x, y)) && e == p && x@ == el && y@ == k2
                    && final(self).state() == st,
                Err(e) => r == Err::<(usize, Element, Vec<u8>), Error>(e),
            },
            r matches Ok((e, _, _)) ==> pos < e <= s.len(),
            final(self).state().externals == old(self).state().externals,
            final(self).state().objects.len() >= old(self).state().objects.len(),
        decreases s.len() - pos, 0int, 1int,
    {
        let (p1, v) = self.parse_value_at(s, pos)?;
        let name = match crate::bytes::utf8_to_string(key.as_slice()) {
            Some(t) => t,
            None => {
                return Err(Error::Nom(pos, ErrorKind::Alpha));
            },
        };
        let (p2, k2) = self.parse_byte_stream(s, p1)?;
        Ok((p2, Element { name, value: v }, k2))
    }

    /// Read the associative part of an array whose first key `first_key` has been read, at `pos`.
    fn parse_assoc(&mut self, s: &[u8], pos: usize, first_key: Vec<u8>) -> (r: Result<(usize, Vec<Element>), Error>)
        requires
            pos <= s.len(),
        ensures
            match spec_assoc(old(self).state(), s@, pos as int, first_key@) {
                Ok((st, p, els)) => r matches Ok((e, x)) && e == p && elements_view(x@) == els
                    && final(self).state() == st,
                Err(e) => r == Err::<(usize, Vec<Element>), Error>(e),
            },
            r matches Ok((e, _)) ==> pos <= e <= s.len(),
            final(self).state().externals == old(self).state().externals,
            final(self).state().objects.len() >= old(self).state().objects.len(),
        decreases s.len() - pos, 1int, 0int,
    {
        let ghost key0 = first_key@;
        let mut out: Vec<Element> = Vec::new();
        let mut p = pos;
        let mut key = first_key;
        while key.len() != 0
            invariant
                pos <= p <= s.len(),
                key0 == first_key@,
                spec_assoc(old(self).state(), s@, pos as int, key0) == prefixed(
                    elements_view(out@),
                    spec_assoc(self.state(), s@, p as int, key@),
                ),
                self.state().externals == old(self).state().externals,
                self.state().objects.len() >= old(self).state().objects.len(),
            decreases s.len() - p,
        {
            let (p2, el, k2) = self.parse_assoc_entry(s, p, &key)?;
            proof {
                assert(elements_view(out@.push(el)) =~= elements_view(out@) + seq![el@]);
                let r = spec_assoc(self.state(), s@, p2 as int, k2@);
                if let Ok((a, b, c)) = r {
                    assert(elements_view(out@) + (seq![el@] + c) =~= (elements_view(out@) + seq![el@]) + c);
                }
            }
            out.push(el);
            p = p2;
            key = k2;
        }
        proof {
            assert(elements_view(out@) + Seq::<ElementV>::empty() =~= elements_view(out@));
        }
        Ok((p, out))
    }
}

} // verus!

verus! {

impl AMF3Decoder {
    /// Read the values of the static properties `names`, at `pos`.
    #[verifier::rlimit(50)]
    fn parse_object_static(&mut self, s: &[u8], pos: usize, names: &Vec<String>) -> (r: Result<(usize, Vec<Element>), Error>)
        requires
            pos <= s.len(),
        ensures
            match spec_static_props(old(self).state(), s@, pos as int, strings_view(names@)) {
                Ok((st, p, els)) => r matches Ok((e, x)) && e == p && elements_view(x@) == els
                    && final(self).state() == st,
                Err(e) => r == Err::<(usize, Vec<Element>), Error>(e),
            },
            r matches Ok((e, _)) ==> pos <= e <= s.len(),
            final(self).state().externals == old(self).state().externals,
            final(self).state().objects.len() >= old(self).state().objects.len(),
        decreases s.len() - pos, 1int, names@.len(),
    {
        let ghost all = strings_view(names@);
        assert(all.subrange(0, all.len() as int) =~= all);
        let mut out: Vec<Element> = Vec::new();
        let mut p = pos;
        let mut i: usize = 0;
        while i < names.len()
            invariant
                i <= names@.len(),
                pos <= p <= s.len(),
                all == strings_view(names@),
                spec_static_props(old(self).state(), s@, pos as int, all) == prefixed(
                    elements_view(out@),
                    spec_static_props(self.state(), s@, p as int, all.subrange(i as int, all.len() as int)),
                ),
                self.state().externals == old(self).state().externals,
                self.state().objects.len() >= old(self).state().objects.len(),
            decreases names.len() - i,
        {
            let ghost rest = all.subrange(i as int, all.len() as int);
            proof {
                assert(rest[0] == names@[i as int]@);
                assert(rest.drop_first() =~= all.subrange(i + 1, all.len() as int));
            }
            let ghost st0 = self.state();
            let (p1, v) = match self.parse_value_at(s, p) {
                Ok(x) => x,
                Err(e) => {
                    assert(spec_static_props(st0, s@, p as int, rest) == Err::<(Amf3State, int, Seq<ElementV>), Error>(e));
                    return Err(e);
                },
            };
            assert(spec_value(st0, s@, p as int) == Ok::<(Amf3State, int, ValueV), Error>((self.state(), p1 as int, v@)));
            let ghost ev = ElementV { name: names@[i as int]@, value: v@ };
            proof {
                assert(elements_view(out@.push(Element { name: names@[i as int], value: v })) =~= elements_view(out@) + seq![ev]);
                let r = spec_static_props(self.state(), s@, p1 as int, all.subrange(i + 1, all.len() as int));
                if let Ok((a, b, c)) = r {
                    assert(elements_view(out@) + (seq![ev] + c) =~= (elements_view(out@) + seq![ev]) + c);
                }
            }
            out.push(Element { name: names[i].clone(), value: v });
            p = p1;
            i += 1;
        }
        proof {
            assert(all.subrange(i as int, all.len() as int).len() == 0);
            assert(elements_view(out@) + Seq::<ElementV>::empty() =~= elements_view(out@));
        }
        Ok((p, out))
    }

    /// Read one dynamic property of an object whose name `attr` has been read, at `pos`.
    fn parse_dynamic_entry(&mut self, s: &[u8], pos: usize, perr: usize, attr: &Vec<u8>) -> (r: Result<(usize, Element, Vec<u8>), Error>)
        requires
            pos <= s.len(),
        ensures
            match spec_dynamic_entry(old(self).state(), s@, pos as int, perr as int, attr@) {
                Ok((st, p, (el, a2))) => r matches Ok((e, x, y)) && e == p && x@ == el && y@ == a2
                    && final(self).state() == st,
                Err(e) => r == Err::<(usize, Element, Vec<u8>), Error>(e),
            },
            r matches Ok((e, _, _)) ==> pos < e <= s.len(),
            final(self).state().externals == old(self).state().externals,
            final(self).state().objects.len() >= old(self).state().objects.len(),
        decreases s.len() - pos, 0int, 1int,
    {
        let name = match crate::bytes::utf8_to_string(attr.as_slice()) {
            Some(t) => t,
            None => {
                return Err(Error::Nom(perr, ErrorKind::Alpha));
            },
        };
        let (p1, v) = self.parse_value_at(s, pos)?;
        let (p2, a2) = self.parse_byte_stream(s, p1)?;
        Ok((p2, Element { name, value: v }, a2))
    }

    /// Read the dynamic properties of an object whose first name `first_attr` has been read, at `pos`.
    fn parse_dynamic(&mut self, s: &[u8], pos: usize, perr: usize, first_attr: Vec<u8>) -> (r: Result<(usize, Vec<Element>), Error>)
        requires
            pos <= s.len(),
        ensures
            match spec_dynamic(old(self).state(), s@, pos as int, perr as int, first_attr@) {
                Ok((st, p, els)) => r matches Ok((e, x)) && e == p && elements_view(x@) == els
                    && final(self).state() == st,
                Err(e) => r == Err::<(usize, Vec<Element>), Error>(e),
            },
            r matches Ok((e, _)) ==> pos <= e <= s.len(),
            final(self).state().externals == old(self).state().externals,
            final(self).state().objects.len() >= old(self).state().objects.len(),
        decreases s.len() - pos, 1int, 0int,
    {
        let ghost attr0 = first_attr@;
        let mut out: Vec<Element> = Vec::new();
        let mut p = pos;
        let mut attr = first_attr;
        while attr.len() != 0
            invariant
                pos <= p <= s.len(),
                attr0 == first_attr@,
                spec_dynamic(old(self).state(), s@, pos as int, perr as int, attr0) == prefixed(
                    elements_view(out@),
                    spec_dynamic(self.state(), s@, p as int, perr as int, attr@),
                ),
                self.state().externals == old(self).state().externals,
                self.state().objects.len() >= old(self).state().objects.len(),
            decreases s.len() - p,
        {
            let (p2, el, a2) = self.parse_dynamic_entry(s, p, perr, &attr)?;
            proof {
                assert(elements_view(out@.push(el)) =~= elements_view(out@) + seq![el@]);
                let r = spec_dynamic(self.state(), s@, p2 as int, perr as int, a2@);
                if let Ok((a, b, c)) = r {
                    assert(elements_view(out@) + (seq![el@] + c) =~= (elements_view(out@) + seq![el@]) + c);
                }
            }
            out.push(el);
            p = p2;
            attr = a2;
        }
        proof {
            assert(elements_view(out@) + Seq::<ElementV>::empty() =~= elements_view(out@));
        }
        Ok((p, out))
    }

    /// Read an object after its marker, at `q`.
    #[verifier::rlimit(50)]
    pub(crate) fn parse_element_object(&mut self, s: &[u8], q: usize) -> (r: Result<(usize, Value), Error>)
        requires
            q <= s.len(),
        ensures
            match spec_object(old(self).state(), s@, q as int) {
                Ok((st, p, v)) => r matches Ok((e, x)) && e == p && x@ == v && final(self).state() == st,
                Err(e) => r == Err::<(usize, Value), Error>(e),
            },
            r matches Ok((e, _)) ==> q < e <= s.len(),
            final(self).state().externals == old(self).state().externals,
            final(self).state().objects.len() >= old(self).state().objects.len(),
        decreases s.len() - q, 2int, 0int,
    {
        let (q1, length) = read_int_at(s, q)?;
        if length & 1 == 0 {
            let index = (length >> 1) as usize;
            if index < self.object_reference_table.len() {
                proof { lemma_value_view_parts(self.object_reference_table@[index as int]); }
                return match &self.object_reference_table[index] {
                    Value::Object { id, .. } => Ok((q1, Value::Amf3ObjectReference(*id))),
                    _ => Err(Error::Nom(q1, ErrorKind::Digit)),
                };
            } else {
                return Err(Error::Nom(q1, ErrorKind::Digit));
            }
        }
        let length = length >> 1;
        let ghost st0 = self.state();
        self.object_id = self.object_id.wrapping_add(1);
        let id = ObjectId(self.object_id);
        let index = self.object_reference_table.len();
        let placeholder = Value::Object { id, data: ObjectValue { elements: Vec::new(), class_definition: None } };
        proof { lemma_value_view_parts(placeholder); }
        self.object_reference_table.push(placeholder);
        proof {
            assert(placeholder@->Object_elements =~= Seq::<ElementV>::empty());
            assert(self.state().objects =~= st0.objects.push(
                ValueV::Object { id, elements: Seq::empty(), class_definition: None },
            ));
            assert(self.state().strings =~= st0.strings);
            assert(self.state().traits =~= st0.traits);
            assert(self.state().externals =~= st0.externals);
        }
        let (q2, class_def) = self.parse_class_def(length, s, q1)?;
        let ghost st2 = self.state();
        let filled = Value::Object {
            id,
            data: ObjectValue { elements: Vec::new(), class_definition: Some(class_def.copy()) },
        };
        proof {
            lemma_value_view_parts(filled);
            assert(filled@->Object_elements =~= Seq::<ElementV>::empty());
        }
        self.object_reference_table.set(index, filled);
        proof {
            assert(self.state().objects =~= st2.objects.update(index as int, filled@));
            assert(self.state().strings =~= st2.strings);
            assert(self.state().traits =~= st2.traits);
            assert(self.state().externals =~= st2.externals);
        }
        if class_def.attributes.contains(Attribute::External) {
            return match self.find_external(&class_def.name) {
                Some(i) => {
                    let flex = match &self.external_decoders[i].1 {
                        ExternalDecoder::Flex(k) => Some(*k),
                        ExternalDecoder::Custom(_) => None,
                    };
                    let (q3, elements) = match flex {
                        Some(k) => crate::extra::flex::read::decode_external(self, s, q2, k)?,
                        None => match &self.external_decoders[i].1 {
                            ExternalDecoder::Custom(c) => crate::amf3::custom_encoder::custom_decode(c, s, q2)?,
                            ExternalDecoder::Flex(_) => {
                                assert(false);
                                return Err(Error::OutOfBounds);
                            },
                        },
                    };
                    let r = Value::Custom(CustomObjectValue {
                        elements,
                        dynamic_elements: Vec::new(),
                        class_definition: class_def,
                    });
                    proof {
                        lemma_value_view_parts(r);
                        assert(r@->dynamic_elements =~= Seq::<ElementV>::empty());
                    }
                    Ok((q3, r))
                },
                None => Err(Error::Nom(q2, ErrorKind::Tag)),
            };
        }
        let (q3, elements) = if class_def.attributes.contains(Attribute::Dynamic) {
            let (q3, mut statics) = self.parse_object_static(s, q2, &class_def.static_properties)?;
            let (q4, attr) = self.parse_byte_stream(s, q3)?;
            let (q5, mut dynamics) = self.parse_dynamic(s, q4, q2, attr)?;
            let ghost sv = elements_view(statics@);
            let ghost dv = elements_view(dynamics@);
            statics.append(&mut dynamics);
            proof {
                assert(elements_view(statics@) =~= sv + dv);
            }
            (q5, statics)
        } else {
            self.parse_object_static(s, q2, &class_def.static_properties)?
        };
        let ghost st4 = self.state();
        let r = Value::Object { id, data: ObjectValue { elements, class_definition: Some(class_def) } };
        proof { lemma_value_view_parts(r); }
        let c = crate::types::copy_value(&r);
        self.object_reference_table.set(index, c);
        proof {
            assert(self.state().objects =~= st4.objects.update(index as int, r@));
            assert(self.state().strings =~= st4.strings);
            assert(self.state().traits =~= st4.traits);
            assert(self.state().externals =~= st4.externals);
        }
        Ok((q3, r))
    }
}

} // verus!

verus! {

/// Reading one named element: a string, then a value.
pub open spec fn spec_element(st: Amf3State, s: Seq<u8>, p: int) -> Step<ElementV> {
    match spec_string(st, s, p) {
        Err(e) => Err(e),
        Ok((st1, p1, name)) => match spec_value(st1, s, p1) {
            Err(e) => Err(e),
            Ok((st2, p2, v)) => Ok((st2, p2, ElementV { name, value: v })),
        },
    }
}

/// The elements that follow an element ending at `p`: while a padding byte is followed by an
/// element that reads, that element is taken; the list ends before the padding byte otherwise.
pub open spec fn spec_more_elements(st: Amf3State, s: Seq<u8>, p: int) -> (int, Seq<ElementV>)
    decreases s.len() - p,
{
    if 0 <= p < s.len() && s[p] == 0 {
        match spec_element(st, s, p + 1) {
            Err(_) => (p, Seq::empty()),
            Ok((st1, p1, el)) => {
                if p < p1 <= s.len() {
                    let (q, rest) = spec_more_elements(st1, s, p1);
                    (q, seq![el] + rest)
                } else {
                    (p, Seq::empty())
                }
            },
        }
    } else {
        (p, Seq::empty())
    }
}

/// The padding-separated elements at `p`, and the position where the list ends.
pub open spec fn spec_element_list(st: Amf3State, s: Seq<u8>, p: int) -> (int, Seq<ElementV>) {
    match spec_element(st, s, p) {
        Err(_) => (p, Seq::empty()),
        Ok((st1, p1, el)) => {
            if p < p1 <= s.len() {
                let (q, rest) = spec_more_elements(st1, s, p1);
                (q, seq![el] + rest)
            } else {
                (p, Seq::empty())
            }
        },
    }
}

/// Reading an AMF3 body: padding-separated elements, then one padding byte.
pub open spec fn spec_body(st: Amf3State, s: Seq<u8>, p: int) -> Result<(int, Seq<ElementV>), Error> {
    let (q, els) = spec_element_list(st, s, p);
    if 0 <= q < s.len() && s[q] == 0 {
        Ok((q + 1, els))
    } else {
        Err(nom_err(q, ErrorKind::Tag))
    }
}

impl AMF3Decoder {
    /// Read a single AMF3 value at the start of `i`, giving the number of bytes read and the value.
    pub fn parse_single_element(&mut self, i: &[u8]) -> (r: Result<(usize, Value), Error>)
        ensures
            match spec_value(old(self).state(), i@, 0) {
                Ok((st, p, v)) => r matches Ok((q, x)) && q == p && x@ == v && final(self).state() == st,
                Err(e) => r == Err::<(usize, Value), Error>(e),
            },
    {
        self.parse_value_at(i, 0)
    }

    /// Read a UTF-8 string at the start of `i`, giving the number of bytes read and the string.
    pub fn fuzz_parse_string(&mut self, i: &[u8]) -> (r: Result<(usize, String), Error>)
        ensures
            match spec_string(old(self).state(), i@, 0) {
                Ok((st, p, x)) => r matches Ok((q, t)) && q == p && t@ == x && final(self).state() == st,
                Err(e) => r == Err::<(usize, String), Error>(e),
            },
    {
        self.parse_string(i, 0)
    }

    /// Read one named element at `pos`.
    fn parse_element(&mut self, s: &[u8], pos: usize) -> (r: Result<(usize, Element), Error>)
        requires
            pos <= s.len(),
        ensures
            match spec_element(old(self).state(), s@, pos as int) {
                Ok((st, p, el)) => r matches Ok((q, x)) && q == p && x@ == el && final(self).state() == st,
                Err(e) => r == Err::<(usize, Element), Error>(e),
            },
            r matches Ok((q, _)) ==> pos < q <= s.len(),
    {
        let (p1, name) = self.parse_string(s, pos)?;
        let (p2, value) = self.parse_value_at(s, p1)?;
        Ok((p2, Element { name, value }))
    }

    /// Read the elements that follow an element ending at `pos`, giving the position where the
    /// list ends and the elements.
    #[verifier::spinoff_prover]
    #[verifier::rlimit(40)]
    fn parse_more_elements(&mut self, s: &[u8], pos: usize) -> (r: (usize, Vec<Element>))
        requires
            pos <= s.len(),
        ensures
            spec_more_elements(old(self).state(), s@, pos as int) == (r.0 as int, elements_view(r.1@)),
            pos <= r.0 <= s.len(),
    {
        let ghost mut gst = self.state();
        let mut out: Vec<Element> = Vec::new();
        let mut p = pos;
        loop
            invariant_except_break
                gst == self.state(),
                spec_more_elements(old(self).state(), s@, pos as int) == ({
                    let (q, rest) = spec_more_elements(gst, s@, p as int);
                    (q, elements_view(out@) + rest)
                }),
            invariant
                pos <= p <= s.len(),
            ensures
                spec_more_elements(old(self).state(), s@, pos as int) == (p as int, elements_view(out@)),
            decreases s.len() - p,
        {
            if p >= s.len() || s[p] != 0 {
                proof {
                    assert(elements_view(out@) + Seq::<ElementV>::empty() =~= elements_view(out@));
                }
                break;
            }
            match self.parse_element(s, p + 1) {
                Err(_) => {
                    proof {
                        assert(elements_view(out@) + Seq::<ElementV>::empty() =~= elements_view(out@));
                    }
                    break;
                },
                Ok((p2, el)) => {
                    let ghost before = elements_view(out@);
                    let ghost ev = el@;
                    out.push(el);
                    proof {
                        assert(elements_view(out@) =~= before + seq![ev]);
                        let (q, rest) = spec_more_elements(self.state(), s@, p2 as int);
                        assert(before + (seq![ev] + rest) =~= (before + seq![ev]) + rest);
                        gst = self.state();
                    }
                    p = p2;
                },
            }
        }
        (p, out)
    }

    /// Read an AMF3 body at `pos`: padding-separated elements, then one padding byte.
    pub fn parse_body_at(&mut self, s: &[u8], pos: usize) -> (r: Result<(usize, Vec<Element>), Error>)
        requires
            pos <= s.len(),
        ensures
            match spec_body(old(self).state(), s@, pos as int) {
                Ok((p, els)) => r matches Ok((q, x)) && q == p && elements_view(x@) == els,
                Err(e) => r == Err::<(usize, Vec<Element>), Error>(e),
            },
    {
        let (p, out) = match self.parse_element(s, pos) {
            Err(_) => {
                let empty: Vec<Element> = Vec::new();
                proof {
                    assert(elements_view(empty@) =~= Seq::<ElementV>::empty());
                }
                (pos, empty)
            },
            Ok((p1, el)) => {
                let ghost ev = el@;
                let (q, mut rest) = self.parse_more_elements(s, p1);
                let ghost rv = elements_view(rest@);
                let mut out = vec![el];
                out.append(&mut rest);
                proof {
                    assert(elements_view(out@) =~= seq![ev] + rv);
                }
                (q, out)
            },
        };
        if p < s.len() && s[p] == 0 {
            Ok((p + 1, out))
        } else {
            Err(Error::Nom(p, ErrorKind::Tag))
        }
    }

    /// Read an AMF3 body at the start of `i`, giving the number of bytes read and the elements.
    pub fn parse_body(&mut self, i: &[u8]) -> (r: Result<(usize, Vec<Element>), Error>)
        ensures
            match spec_body(old(self).state(), i@, 0) {
                Ok((p, els)) => r matches Ok((q, x)) && q == p && elements_view(x@) == els,
                Err(e) => r == Err::<(usize, Vec<Element>), Error>(e),
            },
    {
        self.parse_body_at(i, 0)
    }
}

impl Default for AMF3Decoder {
    fn default() -> (r: AMF3Decoder)
        ensures
            r.state() == AMF3Decoder::new_state(),
    {
        AMF3Decoder::new()
    }
}

} // verus!
