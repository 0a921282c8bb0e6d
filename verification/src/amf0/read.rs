//! Decoding of AMF0 data.
use vstd::prelude::*;
use vstd::utf8::{valid_utf8, decode_utf8};
use crate::bytes::{u16_at, u32_at, u64_at};
use crate::errors::{Error, ErrorKind, nom_err};
use crate::types::{
    AttributeSet, ClassDefV, ClassDefinition, ECMAArrayObjectValue, Element, ElementV, ObjectId,
    ObjectValue, Reference, Value, ValueV, elements_view, lemma_value_view_parts, values_view,
};
use crate::amf0::type_marker::{TypeMarker, spec_marker};
use crate::amf3::read::{AMF3Decoder, Amf3State, spec_value};
use crate::equality::{value_eq, value_equal};

verus! {

/// What an AMF0 decoder carries from one value to the next.
pub struct Amf0State {
    /// One entry per value read: the complex values as read, the others undefined
    pub cache: Seq<ValueV>,
    /// The state of the decoder used for embedded AMF3 values
    pub amf3: Amf3State,
}

/// One AMF0 decoding step: the decoder state and position after it, and what it produced.
pub type Step0<T> = Result<(Amf0State, int, T), Error>;

/// The step `r` with `acc` put in front of the sequence it produces.
pub open spec fn prefixed0<T>(acc: Seq<T>, r: Step0<Seq<T>>) -> Step0<Seq<T>> {
    match r {
        Ok((st, p, xs)) => Ok((st, p, acc + xs)),
        Err(e) => Err(e),
    }
}

/// Reading `n` bytes of UTF-8 text at `p`.
pub open spec fn spec_text(s: Seq<u8>, p: int, n: int) -> Result<(int, Seq<char>), Error> {
    if p + n > s.len() {
        Err(nom_err(p, ErrorKind::Eof))
    } else if !valid_utf8(s.subrange(p, p + n)) {
        Err(nom_err(p, ErrorKind::MapRes))
    } else {
        Ok((p + n, decode_utf8(s.subrange(p, p + n))))
    }
}

/// Reading a string with a big-endian `u16` length.
pub open spec fn spec_amf0_string(s: Seq<u8>, p: int) -> Result<(int, Seq<char>), Error> {
    if p + 2 > s.len() {
        Err(nom_err(p, ErrorKind::Eof))
    } else {
        spec_text(s, p + 2, u16_at(s, p) as int)
    }
}

/// Reading a string with a big-endian `u32` length.
pub open spec fn spec_long_string(s: Seq<u8>, p: int) -> Result<(int, Seq<char>), Error> {
    if p + 4 > s.len() {
        Err(nom_err(p, ErrorKind::Eof))
    } else {
        spec_text(s, p + 4, u32_at(s, p) as int)
    }
}

/// The class definition of a typed object of class `name`.
pub open spec fn named_class(name: Seq<char>) -> ClassDefV {
    ClassDefV { name, attributes: AttributeSet { dynamic: false, external: false }, static_properties: Seq::empty() }
}

/// The state with the cache entry `idx` replaced by `v`.
pub open spec fn cached(st: Amf0State, idx: int, v: ValueV) -> Amf0State {
    Amf0State { cache: st.cache.update(idx, v), ..st }
}

/// Reading one AMF0 value at `p`: a type marker (an unknown one reads as unsupported), then
/// the value it announces. Every value takes the next cache entry, which holds the value
/// itself for objects and arrays and undefined otherwise.
pub open spec fn spec_amf0_value(st: Amf0State, s: Seq<u8>, p: int) -> Step0<ValueV>
    decreases s.len() - p, 0int, 0int,
{
    if p < 0 || p >= s.len() {
        Err(nom_err(p, ErrorKind::Eof))
    } else {
        let b = s[p];
        let q = p + 1;
        let idx = st.cache.len() as int;
        let st1 = Amf0State { cache: st.cache.push(ValueV::Undefined), ..st };
        let m = match spec_marker(b) {
            Some(m) => m,
            None => TypeMarker::Unsupported,
        };
        match m {
            TypeMarker::Number => if q + 8 <= s.len() {
                Ok((st1, q + 8, ValueV::Number(u64_at(s, q))))
            } else {
                Err(nom_err(q, ErrorKind::Eof))
            },
            TypeMarker::Boolean => if q < s.len() {
                Ok((st1, q + 1, ValueV::Bool(s[q] > 0)))
            } else {
                Err(nom_err(q, ErrorKind::Eof))
            },
            TypeMarker::String => match spec_amf0_string(s, q) {
                Ok((e, x)) => Ok((st1, e, ValueV::String(x))),
                Err(e) => Err(e),
            },
            TypeMarker::Object => match spec_props(st1, s, q) {
                Ok((st2, e, els)) => {
                    let v = ValueV::Object { id: ObjectId(-1i64), elements: els, class_definition: None };
                    Ok((cached(st2, idx, v), e, v))
                },
                Err(e) => Err(e),
            },
            TypeMarker::Null => Ok((st1, q, ValueV::Null)),
            TypeMarker::Undefined => Ok((st1, q, ValueV::Undefined)),
            TypeMarker::Reference => if q + 2 <= s.len() {
                Ok((st1, q + 2, ValueV::Reference(u16_at(s, q))))
            } else {
                Err(nom_err(q, ErrorKind::Eof))
            },
            TypeMarker::ECMAArray => if q + 4 <= s.len() {
                match spec_props(st1, s, q + 4) {
                    Ok((st2, e, els)) => {
                        let v = ValueV::ECMAArray {
                            id: ObjectId(-1i64),
                            dense: Seq::empty(),
                            elements: els,
                            length: u32_at(s, q),
                        };
                        Ok((cached(st2, idx, v), e, v))
                    },
                    Err(e) => Err(e),
                }
            } else {
                Err(nom_err(q, ErrorKind::Eof))
            },
            TypeMarker::StrictArray => if q + 4 <= s.len() {
                let n = u32_at(s, q) as int;
                if s.len() - (q + 4) < n {
                    Err(nom_err(q + 4, ErrorKind::TooLarge))
                } else {
                    match spec_amf0_values(st1, s, q + 4, n) {
                        Ok((st2, e, vs)) => {
                            let v = ValueV::StrictArray { id: ObjectId(-1i64), values: vs };
                            Ok((cached(st2, idx, v), e, v))
                        },
                        Err(e) => Err(e),
                    }
                }
            } else {
                Err(nom_err(q, ErrorKind::Eof))
            },
            TypeMarker::Date => if q + 8 > s.len() {
                Err(nom_err(q, ErrorKind::Eof))
            } else if q + 10 > s.len() {
                Err(nom_err(q + 8, ErrorKind::Eof))
            } else {
                Ok((st1, q + 10, ValueV::Date { time: u64_at(s, q), timezone_or_utc: Some(u16_at(s, q + 8)) }))
            },
            TypeMarker::LongString => match spec_long_string(s, q) {
                Ok((e, x)) => Ok((st1, e, ValueV::String(x))),
                Err(e) => Err(e),
            },
            TypeMarker::Unsupported => Ok((st1, q, ValueV::Unsupported)),
            TypeMarker::Xml => match spec_long_string(s, q) {
                Ok((e, x)) => Ok((st1, e, ValueV::XML { value: x, is_string: true })),
                Err(e) => Err(e),
            },
            TypeMarker::TypedObject => match spec_amf0_string(s, q) {
                Err(e) => Err(e),
                Ok((q1, name)) => match spec_props(st1, s, q1) {
                    Ok((st2, e, els)) => {
                        let v = ValueV::Object {
                            id: ObjectId(-1i64),
                            elements: els,
                            class_definition: Some(named_class(name)),
                        };
                        Ok((cached(st2, idx, v), e, v))
                    },
                    Err(e) => Err(e),
                },
            },
            TypeMarker::AMF3 => match spec_value(st1.amf3, s, q) {
                Ok((a, e, v)) => Ok((Amf0State { amf3: a, ..st1 }, e, ValueV::AMF3(Box::new(v)))),
                Err(e) => Err(e),
            },
            _ => Err(Error::UnsupportedType(b)),
        }
    }
}

/// Reading `n` values one after the other.
pub open spec fn spec_amf0_values(st: Amf0State, s: Seq<u8>, p: int, n: int) -> Step0<Seq<ValueV>>
    decreases s.len() - p, 1int, n,
{
    if n <= 0 {
        Ok((st, p, Seq::empty()))
    } else {
        match spec_amf0_value(st, s, p) {
            Err(e) => Err(e),
            Ok((st1, p1, v)) => {
                if p < p1 <= s.len() {
                    prefixed0(seq![v], spec_amf0_values(st1, s, p1, n - 1))
                } else {
                    Err(Error::OutOfBounds)
                }
            },
        }
    }
}

/// Reading one named element: a string, then a value.
pub open spec fn spec_amf0_element(st: Amf0State, s: Seq<u8>, p: int) -> Step0<ElementV>
    decreases s.len() - p, 1int, 0int,
{
    match spec_amf0_string(s, p) {
        Err(e) => Err(e),
        Ok((p1, name)) => {
            if p < p1 <= s.len() {
                match spec_amf0_value(st, s, p1) {
                    Err(e) => Err(e),
                    Ok((st2, p2, v)) => Ok((st2, p2, ElementV { name, value: v })),
                }
            } else {
                Err(Error::OutOfBounds)
            }
        },
    }
}

/// One step through the properties of an object at `p`: a name followed by the object-end
/// marker ends them (`None`); otherwise an element is read.
pub open spec fn spec_prop(st: Amf0State, s: Seq<u8>, p: int) -> Step0<Option<ElementV>>
    decreases s.len() - p, 1int, 1int,
{
    match spec_amf0_string(s, p) {
        Err(e) => Err(e),
        Ok((k, _)) => {
            if k >= s.len() {
                Err(nom_err(k, ErrorKind::Eof))
            } else if s[k] == 9 {
                Ok((st, k + 1, None))
            } else {
                match spec_amf0_element(st, s, p) {
                    Err(e) => Err(e),
                    Ok((st1, p1, el)) => Ok((st1, p1, Some(el))),
                }
            }
        },
    }
}

/// Reading the properties of an object: elements until a name followed by the object-end marker.
pub open spec fn spec_props(st: Amf0State, s: Seq<u8>, p: int) -> Step0<Seq<ElementV>>
    decreases s.len() - p, 2int, 0int,
{
    match spec_prop(st, s, p) {
        Err(e) => Err(e),
        Ok((st1, p1, None)) => Ok((st1, p1, Seq::empty())),
        Ok((st1, p1, Some(el))) => {
            if p < p1 <= s.len() {
                prefixed0(seq![el], spec_props(st1, s, p1))
            } else {
                Err(Error::OutOfBounds)
            }
        },
    }
}

/// Reading an AMF0 body: elements each followed by a padding byte, for as long as they read.
pub open spec fn spec_amf0_body(st: Amf0State, s: Seq<u8>, p: int) -> (int, Seq<ElementV>)
    decreases s.len() - p,
{
    match spec_amf0_element(st, s, p) {
        Err(_) => (p, Seq::empty()),
        Ok((st1, p1, el)) => {
            if p < p1 < s.len() && s[p1] == 0 {
                let (q, rest) = spec_amf0_body(st1, s, p1 + 1);
                (q, seq![el] + rest)
            } else {
                (p, Seq::empty())
            }
        },
    }
}

} // verus!

verus! {

/// Read `n` bytes of UTF-8 text at `pos`.
fn parse_text(s: &[u8], pos: usize, n: usize) -> (r: Result<(usize, String), Error>)
    requires
        pos <= s.len(),
    ensures
        match spec_text(s@, pos as int, n as int) {
            Ok((e, x)) => r matches Ok((q, t)) && q == e && t@ == x,
            Err(e) => r == Err::<(usize, String), Error>(e),
        },
        r matches Ok((q, _)) ==> pos <= q <= s.len(),
{
    let (e, b) = crate::bytes::read_bytes(s, pos, n)?;
    match crate::bytes::utf8_to_string(b.as_slice()) {
        Some(t) => Ok((e, t)),
        None => Err(Error::Nom(pos, ErrorKind::MapRes)),
    }
}

/// Read a string with a big-endian `u16` length at `pos`.
pub fn parse_string(s: &[u8], pos: usize) -> (r: Result<(usize, String), Error>)
    requires
        pos <= s.len(),
    ensures
        match spec_amf0_string(s@, pos as int) {
            Ok((e, x)) => r matches Ok((q, t)) && q == e && t@ == x,
            Err(e) => r == Err::<(usize, String), Error>(e),
        },
        r matches Ok((q, _)) ==> pos + 2 <= q <= s.len(),
{
    let (p1, n) = crate::bytes::read_u16(s, pos)?;
    parse_text(s, p1, n as usize)
}

/// Read a string with a big-endian `u32` length at `pos`.
fn parse_long_string(s: &[u8], pos: usize) -> (r: Result<(usize, String), Error>)
    requires
        pos <= s.len(),
    ensures
        match spec_long_string(s@, pos as int) {
            Ok((e, x)) => r matches Ok((q, t)) && q == e && t@ == x,
            Err(e) => r == Err::<(usize, String), Error>(e),
        },
        r matches Ok((q, _)) ==> pos + 4 <= q <= s.len(),
{
    let (p1, n) = crate::bytes::read_u32(s, pos)?;
    parse_text(s, p1, n as usize)
}

/// Handles decoding AMF0
pub struct AMF0Decoder {
    /// Cache of previously read values, that can be referenced later
    cache: Vec<Value>,
    /// Decoder for embedded AMF3 values
    amf3_decoder: AMF3Decoder,
}

impl AMF0Decoder {
    /// The cache and embedded AMF3 state of this decoder.
    pub closed spec fn state(&self) -> Amf0State {
        Amf0State { cache: values_view(self.cache@), amf3: self.amf3_decoder.state() }
    }

    /// A decoder with an empty cache and a fresh AMF3 decoder.
    pub fn new() -> (r: AMF0Decoder)
        ensures
            r.state().cache == Seq::<ValueV>::empty(),
            r.state().amf3 == AMF3Decoder::new_state(),
    {
        let r = AMF0Decoder { cache: Vec::new(), amf3_decoder: AMF3Decoder::new() };
        assert(r.state().cache =~= Seq::<ValueV>::empty());
        r
    }

    /// Read one AMF0 value at `pos`.
    #[verifier::rlimit(50)]
    pub fn parse_value_at(&mut self, s: &[u8], pos: usize) -> (r: Result<(usize, Value), Error>)
        requires
            pos <= s.len(),
        ensures
            match spec_amf0_value(old(self).state(), s@, pos as int) {
                Ok((st, p, v)) => r matches Ok((q, x)) && q == p && x@ == v && final(self).state() == st,
                Err(e) => r == Err::<(usize, Value), Error>(e),
            },
            r matches Ok((q, _)) ==> pos < q <= s.len(),
            final(self).state().cache.len() >= old(self).state().cache.len(),
        decreases s.len() - pos, 0int, 0int,
    {
        if pos >= s.len() {
            return Err(Error::Nom(pos, ErrorKind::Eof));
        }
        let b = s[pos];
        let q = pos + 1;
        let idx = self.cache.len();
        let ghost st0 = self.state();
        self.cache.push(Value::Undefined);
        proof {
            assert(self.state().cache =~= st0.cache.push(ValueV::Undefined));
        }
        let m = match TypeMarker::try_from_u8(b) {
            Ok(m) => m,
            Err(_) => TypeMarker::Unsupported,
        };
        match m {
            TypeMarker::Number => {
                let (e, x) = crate::bytes::read_u64(s, q)?;
                Ok((e, Value::Number(x)))
            },
            TypeMarker::Boolean => {
                let (e, x) = crate::bytes::read_u8(s, q)?;
                Ok((e, Value::Bool(x > 0)))
            },
            TypeMarker::String => {
                let (e, x) = parse_string(s, q)?;
                Ok((e, Value::String(x)))
            },
            TypeMarker::Object => {
                let (e, elements) = self.parse_props(s, q)?;
                let v = Value::Object { id: ObjectId::invalid(), data: ObjectValue { elements, class_definition: None } };
                proof { lemma_value_view_parts(v); }
                Ok((e, self.cache_value(idx, v)))
            },
            TypeMarker::Null => Ok((q, Value::Null)),
            TypeMarker::Undefined => Ok((q, Value::Undefined)),
            TypeMarker::Reference => {
                let (e, x) = crate::bytes::read_u16(s, q)?;
                Ok((e, Value::Reference(Reference(x))))
            },
            TypeMarker::ECMAArray => {
                let (q1, length) = crate::bytes::read_u32(s, q)?;
                let (e, elements) = self.parse_props(s, q1)?;
                let v = Value::ECMAArray {
                    id: ObjectId::invalid(),
                    data: ECMAArrayObjectValue { dense: Vec::new(), elements, length },
                };
                proof {
                    lemma_value_view_parts(v);
                    assert(values_view(v->ECMAArray_data.dense@) =~= Seq::<ValueV>::empty());
                }
                Ok((e, self.cache_value(idx, v)))
            },
            TypeMarker::StrictArray => {
                let (q1, n) = crate::bytes::read_u32(s, q)?;
                if s.len() - q1 < n as usize {
                    return Err(Error::Nom(q1, ErrorKind::TooLarge));
                }
                let (e, values) = self.parse_values(s, q1, n as usize)?;
                let v = Value::StrictArray { id: ObjectId::invalid(), values };
                proof { lemma_value_view_parts(v); }
                Ok((e, self.cache_value(idx, v)))
            },
            TypeMarker::Date => {
                let (q1, time) = crate::bytes::read_u64(s, q)?;
                let (e, tz) = crate::bytes::read_u16(s, q1)?;
                Ok((e, Value::Date { time, timezone_or_utc: Some(tz) }))
            },
            TypeMarker::LongString => {
                let (e, x) = parse_long_string(s, q)?;
                Ok((e, Value::String(x)))
            },
            TypeMarker::Unsupported => Ok((q, Value::Unsupported)),
            TypeMarker::Xml => {
                let (e, x) = parse_long_string(s, q)?;
                Ok((e, Value::XML { value: x, is_string: true }))
            },
            TypeMarker::TypedObject => {
                let (q1, name) = parse_string(s, q)?;
                let (e, elements) = self.parse_props(s, q1)?;
                let cd = ClassDefinition::default_with_name(name);
                proof {
                    assert(crate::types::strings_view(cd.static_properties@) =~= Seq::<Seq<char>>::empty());
                }
                let v = Value::Object {
                    id: ObjectId::invalid(),
                    data: ObjectValue { elements, class_definition: Some(cd) },
                };
                proof { lemma_value_view_parts(v); }
                Ok((e, self.cache_value(idx, v)))
            },
            TypeMarker::AMF3 => {
                let ghost c = self.state().cache;
                let (e, x) = self.amf3_decoder.parse_value_at(s, q)?;
                proof {
                    assert(self.state().cache == c);
                }
                Ok((e, Value::AMF3(Box::new(x))))
            },
            _ => Err(Error::UnsupportedType(b)),
        }
    }

    /// Put `v` in cache entry `idx`, and hand it back.
    fn cache_value(&mut self, idx: usize, v: Value) -> (r: Value)
        requires
            idx < old(self).state().cache.len(),
        ensures
            r == v,
            final(self).state() == cached(old(self).state(), idx as int, v@),
    {
        let ghost st0 = self.state();
        let c = crate::types::copy_value(&v);
        self.cache.set(idx, c);
        proof {
            assert(self.state().cache =~= st0.cache.update(idx as int, v@));
        }
        v
    }

    /// Read `n` values one after the other.
    fn parse_values(&mut self, s: &[u8], pos: usize, n: usize) -> (r: Result<(usize, Vec<Value>), Error>)
        requires
            pos <= s.len(),
        ensures
            match spec_amf0_values(old(self).state(), s@, pos as int, n as int) {
                Ok((st, p, vs)) => r matches Ok((q, x)) && q == p && values_view(x@) == vs
                    && final(self).state() == st,
                Err(e) => r == Err::<(usize, Vec<Value>), Error>(e),
            },
            r matches Ok((q, _)) ==> pos <= q <= s.len(),
            final(self).state().cache.len() >= old(self).state().cache.len(),
        decreases s.len() - pos, 1int, n,
    {
        let mut out: Vec<Value> = Vec::new();
        let mut p = pos;
        let mut i: usize = 0;
        while i < n
            invariant
                i <= n,
                pos <= p <= s.len(),
                spec_amf0_values(old(self).state(), s@, pos as int, n as int) == prefixed0(
                    values_view(out@),
                    spec_amf0_values(self.state(), s@, p as int, (n - i) as int),
                ),
                self.state().cache.len() >= old(self).state().cache.len(),
            decreases n - i,
        {
            let (p1, v) = self.parse_value_at(s, p)?;
            proof {
                assert(values_view(out@.push(v)) =~= values_view(out@) + seq![v@]);
                let r = spec_amf0_values(self.state(), s@, p1 as int, (n - i - 1) as int);
                if let Ok((a, b, c)) = r {
                    assert(values_view(out@) + (seq![v@] + c) =~= (values_view(out@) + seq![v@]) + c);
                }
            }
            out.push(v);
            p = p1;
            i += 1;
        }
        proof {
            assert(values_view(out@) + Seq::<ValueV>::empty() =~= values_view(out@));
        }
        Ok((p, out))
    }

    /// Read one named element at `pos`.
    fn parse_element(&mut self, s: &[u8], pos: usize) -> (r: Result<(usize, Element), Error>)
        requires
            pos <= s.len(),
        ensures
            match spec_amf0_element(old(self).state(), s@, pos as int) {
                Ok((st, p, el)) => r matches Ok((q, x)) && q == p && x@ == el && final(self).state() == st,
                Err(e) => r == Err::<(usize, Element), Error>(e),
            },
            r matches Ok((q, _)) ==> pos < q <= s.len(),
            final(self).state().cache.len() >= old(self).state().cache.len(),
        decreases s.len() - pos, 1int, 0int,
    {
        let (p1, name) = parse_string(s, pos)?;
        let (p2, value) = self.parse_value_at(s, p1)?;
        Ok((p2, Element { name, value }))
    }

    /// Take one step through the properties of an object at `pos`.
    fn parse_prop(&mut self, s: &[u8], pos: usize) -> (r: Result<(usize, Option<Element>), Error>)
        requires
            pos <= s.len(),
        ensures
            match spec_prop(old(self).state(), s@, pos as int) {
                Ok((st, p, el)) => r matches Ok((q, x)) && q == p && final(self).state() == st
                    && match el {
                        Some(e) => x matches Some(y) && y@ == e,
                        None => x is None,
                    },
                Err(e) => r == Err::<(usize, Option<Element>), Error>(e),
            },
            r matches Ok((q, _)) ==> pos < q <= s.len(),
            final(self).state().cache.len() >= old(self).state().cache.len(),
        decreases s.len() - pos, 1int, 1int,
    {
        let (k, _) = parse_string(s, pos)?;
        if k >= s.len() {
            return Err(Error::Nom(k, ErrorKind::Eof));
        }
        if s[k] == 9 {
            return Ok((k + 1, None));
        }
        let (p1, el) = self.parse_element(s, pos)?;
        Ok((p1, Some(el)))
    }

    /// Read the properties of an object at `pos`, up to and including the object-end marker.
    fn parse_props(&mut self, s: &[u8], pos: usize) -> (r: Result<(usize, Vec<Element>), Error>)
        requires
            pos <= s.len(),
        ensures
            match spec_props(old(self).state(), s@, pos as int) {
                Ok((st, p, els)) => r matches Ok((q, x)) && q == p && elements_view(x@) == els
                    && final(self).state() == st,
                Err(e) => r == Err::<(usize, Vec<Element>), Error>(e),
            },
            r matches Ok((q, _)) ==> pos < q <= s.len(),
            final(self).state().cache.len() >= old(self).state().cache.len(),
        decreases s.len() - pos, 2int, 0int,
    {
        let mut out: Vec<Element> = Vec::new();
        let mut p = pos;
        loop
            invariant
                pos <= p <= s.len(),
                spec_props(old(self).state(), s@, pos as int) == prefixed0(
                    elements_view(out@),
                    spec_props(self.state(), s@, p as int),
                ),
                self.state().cache.len() >= old(self).state().cache.len(),
            decreases s.len() - p,
        {
            let (p1, step) = self.parse_prop(s, p)?;
            match step {
                None => {
                    proof {
                        assert(elements_view(out@) + Seq::<ElementV>::empty() =~= elements_view(out@));
                    }
                    return Ok((p1, out));
                },
                Some(el) => {
                    proof {
                        assert(elements_view(out@.push(el)) =~= elements_view(out@) + seq![el@]);
                        let r = spec_props(self.state(), s@, p1 as int);
                        if let Ok((a, b, c)) = r {
                            assert(elements_view(out@) + (seq![el@] + c) =~= (elements_view(out@) + seq![el@]) + c);
                        }
                    }
                    out.push(el);
                    p = p1;
                },
            }
        }
    }

    /// Read a single AMF0 value at the start of `i`, giving the number of bytes read and the value.
    pub fn parse_single_element(&mut self, i: &[u8]) -> (r: Result<(usize, Value), Error>)
        ensures
            match spec_amf0_value(old(self).state(), i@, 0) {
                Ok((st, p, v)) => r matches Ok((q, x)) && q == p && x@ == v && final(self).state() == st,
                Err(e) => r == Err::<(usize, Value), Error>(e),
            },
    {
        self.parse_value_at(i, 0)
    }

    /// Read an AMF0 body at `pos`: elements each followed by a padding byte, for as long as
    /// they read. Gives the position after the last padding byte and the elements.
    pub fn parse_body_at(&mut self, s: &[u8], pos: usize) -> (r: (usize, Vec<Element>))
        requires
            pos <= s.len(),
        ensures
            spec_amf0_body(old(self).state(), s@, pos as int) == (r.0 as int, elements_view(r.1@)),
            pos <= r.0 <= s.len(),
    {
        let ghost mut gst = self.state();
        let mut out: Vec<Element> = Vec::new();
        let mut p = pos;
        loop
            invariant_except_break
                gst == self.state(),
                spec_amf0_body(old(self).state(), s@, pos as int) == ({
                    let (q, rest) = spec_amf0_body(gst, s@, p as int);
                    (q, elements_view(out@) + rest)
                }),
            invariant
                pos <= p <= s.len(),
            ensures
                spec_amf0_body(old(self).state(), s@, pos as int) == (p as int, elements_view(out@)),
            decreases s.len() - p,
        {
            match self.parse_element(s, p) {
                Err(_) => {
                    proof {
                        assert(elements_view(out@) + Seq::<ElementV>::empty() =~= elements_view(out@));
                    }
                    break;
                },
                Ok((p1, el)) => {
                    if p1 >= s.len() || s[p1] != 0 {
                        proof {
                            assert(elements_view(out@) + Seq::<ElementV>::empty() =~= elements_view(out@));
                        }
                        break;
                    }
                    let ghost before = elements_view(out@);
                    let ghost ev = el@;
                    out.push(el);
                    proof {
                        assert(elements_view(out@) =~= before + seq![ev]);
                        let (q, rest) = spec_amf0_body(self.state(), s@, p1 + 1);
                        assert(before + (seq![ev] + rest) =~= (before + seq![ev]) + rest);
                        gst = self.state();
                    }
                    p = p1 + 1;
                },
            }
        }
        (p, out)
    }

    /// Read an AMF0 body at the start of `i`, giving the number of bytes read and the elements.
    pub fn parse_body(&mut self, i: &[u8]) -> (r: (usize, Vec<Element>))
        ensures
            spec_amf0_body(old(self).state(), i@, 0) == (r.0 as int, elements_view(r.1@)),
    {
        self.parse_body_at(i, 0)
    }

    /// Convert the given value into a reference to the first equal value this decoder has read,
    /// if there is one; the index is cut to 16 bits.
    pub fn as_reference(&self, v: &Value) -> (r: Option<Reference>)
        ensures
            match r {
                None => forall|i: int| 0 <= i < self.state().cache.len() ==> !value_eq(#[trigger] self.state().cache[i], v@),
                Some(x) => exists|i: int| 0 <= i < self.state().cache.len() && x.0 == i % 65536
                    && value_eq(#[trigger] self.state().cache[i], v@)
                    && forall|j: int| 0 <= j < i ==> !value_eq(#[trigger] self.state().cache[j], v@),
            },
    {
        let ghost c = self.state().cache;
        let mut i: usize = 0;
        while i < self.cache.len()
            invariant
                i <= self.cache@.len(),
                c == values_view(self.cache@),
                c == self.state().cache,
                forall|j: int| 0 <= j < i ==> !value_eq(#[trigger] c[j], v@),
            decreases self.cache.len() - i,
        {
            if value_equal(&self.cache[i], v) {
                assert(value_eq(self.state().cache[i as int], v@));
                assert(forall|j: int| 0 <= j < i ==> !value_eq(#[trigger] self.state().cache[j], v@));
                return Some(Reference((i % 65536) as u16));
            }
            i += 1;
        }
        None
    }
}

impl Default for AMF0Decoder {
    fn default() -> (r: AMF0Decoder)
        ensures
            r.state().cache == Seq::<ValueV>::empty(),
            r.state().amf3 == AMF3Decoder::new_state(),
    {
        AMF0Decoder::new()
    }
}

} // verus!
