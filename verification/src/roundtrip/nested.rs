//! Reading back written AMF0 values of any depth.
use vstd::prelude::*;
use vstd::utf8::*;
use crate::bytes::str_bytes;
use crate::decimal::{decimal, digit_char};
use crate::amf0::read::{Amf0State, Step0, cached, named_class, prefixed0, spec_amf0_body, spec_amf0_element, spec_amf0_string, spec_amf0_value, spec_amf0_values, spec_prop, spec_props};
use crate::bytes::{be32, lemma_be32_roundtrip, u32_at};
use crate::errors::{Error, ErrorKind, nom_err};
use crate::amf0::write::{enc0_body, enc0_dense, enc0_elements, enc0_string, enc0_value, enc0_values, object_end};
use crate::types::{AMFVersion, ElementV, ObjectId, ValueV};
use crate::amf3::read::Amf3State;
use crate::amf3::write::{AMF3Encoder, enc_value};
use crate::roundtrip::plain::{amf3_plain, lemma_amf3_plain_at, plain_back, plain_size};
use crate::read::{HeaderV, spec_lso};
use crate::write::spec_header_bytes;
use crate::roundtrip::{amf0_read_back, lemma_header_roundtrip, lemma_u32_at_same, amf0_scalar, lemma_amf0_scalar_roundtrip, lemma_string_roundtrip, lemma_written_part, written_at};

verus! {

/// The values AMF0 holds by itself, with texts and names that fit their length fields and
/// arrays that fit a 32-bit count. An embedded AMF3 value is left out: each is written with a
/// fresh AMF3 encoder while one AMF3 decoder reads them all, so a reference inside a later one
/// can name an entry of an earlier one.
pub open spec fn amf0_native(v: ValueV) -> bool
    decreases v,
{
    match v {
        ValueV::String(s) => str_bytes(s).len() < 0x1_0000_0000,
        ValueV::XML { value, .. } => str_bytes(value).len() < 0x1_0000_0000,
        ValueV::Object { elements, class_definition, .. } => (match class_definition {
            Some(c) => str_bytes(c.name).len() <= 65535,
            None => true,
        }) && forall|i: int| 0 <= i < elements.len() ==> str_bytes(#[trigger] elements[i].name).len() <= 65535
            && amf0_native(elements[i].value),
        ValueV::ECMAArray { dense, elements, .. } => dense.len() < 0x1_0000_0000
            && (forall|i: int| 0 <= i < dense.len() ==> amf0_native(#[trigger] dense[i]))
            && forall|i: int| 0 <= i < elements.len() ==> str_bytes(#[trigger] elements[i].name).len() <= 65535
                && amf0_native(elements[i].value),
        ValueV::StrictArray { values, .. } => values.len() < 0x1_0000_0000
            && forall|i: int| 0 <= i < values.len() ==> amf0_native(#[trigger] values[i]),
        ValueV::AMF3(_) => false,
        _ => true,
    }
}

/// Named values whose names fit a 16-bit length and whose values AMF0 holds by itself.
pub open spec fn amf0_native_elements(els: Seq<ElementV>) -> bool {
    forall|i: int| 0 <= i < els.len() ==> str_bytes(#[trigger] els[i].name).len() <= 65535 && amf0_native(els[i].value)
}

/// Values that AMF0 holds by itself.
pub open spec fn amf0_native_values(vs: Seq<ValueV>) -> bool {
    forall|i: int| 0 <= i < vs.len() ==> amf0_native(#[trigger] vs[i])
}

/// What reading back a written AMF0 value gives: objects and arrays get the invalid id, a
/// typed object's class keeps only its name, the dense part of an ECMA array comes back as
/// elements named by their index, and the scalars as `amf0_read_back` says.
pub open spec fn amf0_deep_read_back(v: ValueV) -> ValueV
    decreases v, 1int, 0int,
{
    match v {
        ValueV::Object { elements, class_definition, .. } => ValueV::Object {
            id: ObjectId(-1i64),
            elements: amf0_elements_back(elements),
            class_definition: match class_definition {
                Some(c) => Some(named_class(c.name)),
                None => None,
            },
        },
        ValueV::ECMAArray { dense, elements, length, .. } => ValueV::ECMAArray {
            id: ObjectId(-1i64),
            dense: Seq::empty(),
            elements: amf0_dense_back(dense, 0) + amf0_elements_back(elements),
            length,
        },
        ValueV::StrictArray { values, .. } => ValueV::StrictArray { id: ObjectId(-1i64), values: amf0_values_back(values) },
        _ => amf0_read_back(v),
    }
}

/// Named values as read back.
pub open spec fn amf0_elements_back(els: Seq<ElementV>) -> Seq<ElementV>
    decreases els, 0int, 0int,
{
    if els.len() == 0 {
        Seq::empty()
    } else {
        seq![ElementV { name: els[0].name, value: amf0_deep_read_back(els[0].value) }]
            + amf0_elements_back(els.subrange(1, els.len() as int))
    }
}

/// Values as read back.
pub open spec fn amf0_values_back(vs: Seq<ValueV>) -> Seq<ValueV>
    decreases vs, 0int, 0int,
{
    if vs.len() == 0 {
        Seq::empty()
    } else {
        seq![amf0_deep_read_back(vs[0])] + amf0_values_back(vs.subrange(1, vs.len() as int))
    }
}

/// The dense values from index `i` on as read back: named by their index.
pub open spec fn amf0_dense_back(vs: Seq<ValueV>, i: int) -> Seq<ElementV>
    decreases vs, 0int, vs.len() - i,
{
    if i < 0 || i >= vs.len() {
        Seq::empty()
    } else {
        seq![ElementV { name: decimal(i as nat), value: amf0_deep_read_back(vs[i]) }] + amf0_dense_back(vs, i + 1)
    }
}

/// Ten to the power `d`.
spec fn pow10(d: nat) -> nat
    decreases d,
{
    if d == 0 { 1 } else { 10 * pow10((d - 1) as nat) }
}

/// A number below `10^d` has at most `d` decimal digits, all of them ASCII.
proof fn lemma_decimal_digits(n: nat, d: nat)
    requires
        d >= 1,
        n < pow10(d),
    ensures
        decimal(n).len() <= d,
        is_ascii_chars(decimal(n)),
    decreases n,
{
    if n >= 10 {
        assert(pow10(d) == 10 * pow10((d - 1) as nat));
        assert(n / 10 < pow10((d - 1) as nat));
        assert(d - 1 >= 1) by {
            if d == 1 {
                assert(pow10(0) == 1);
            }
        }
        lemma_decimal_digits(n / 10, (d - 1) as nat);
        let t = decimal(n / 10);
        let c = digit_char(n % 10);
        assert forall|i| 0 <= i < t.push(c).len() implies '\0' <= #[trigger] t.push(c)[i] <= '\u{7f}' by {
            if i < t.len() {
                assert(t.push(c)[i] == t[i]);
            }
        }
    } else {
        let c = digit_char(n);
        assert(decimal(n) =~= seq![c]);
        assert forall|i| 0 <= i < seq![c].len() implies '\0' <= #[trigger] seq![c][i] <= '\u{7f}' by {}
    }
}

/// The name of a dense value below index 2^32 fits a 16-bit length.
pub proof fn lemma_index_name_fits(i: nat)
    requires
        i < 0x1_0000_0000,
    ensures
        str_bytes(decimal(i)).len() <= 10,
{
    assert(pow10(10) == 10_000_000_000nat) by {
        reveal_with_fuel(pow10, 11);
    }
    lemma_decimal_digits(i, 10);
    is_ascii_chars_encode_utf8(decimal(i));
}

/// Writing a value AMF0 holds by itself succeeds, and starts with a type marker other than
/// the object end.
pub proof fn lemma_native_writes(v: ValueV)
    requires
        amf0_native(v),
    ensures
        enc0_value(v) is Ok,
        enc0_value(v)->Ok_0.len() >= 1,
        enc0_value(v)->Ok_0[0] != 9,
    decreases v, 1int, 0int,
{
    match v {
        ValueV::Object { elements, .. } => {
            lemma_native_elements_write(elements);
        },
        ValueV::ECMAArray { dense, elements, .. } => {
            lemma_native_dense_write(dense, 0);
            lemma_native_elements_write(elements);
        },
        ValueV::StrictArray { values, .. } => {
            lemma_native_values_write(values);
        },
        _ => {},
    }
}

/// Writing named values AMF0 holds by itself succeeds.
pub proof fn lemma_native_elements_write(els: Seq<ElementV>)
    requires
        amf0_native_elements(els),
    ensures
        enc0_elements(els) is Ok,
    decreases els, 0int, 0int,
{
    if els.len() > 0 {
        let rest = els.subrange(1, els.len() as int);
        assert(amf0_native(els[0].value));
        assert forall|i: int| 0 <= i < rest.len() implies str_bytes(#[trigger] rest[i].name).len() <= 65535 && amf0_native(rest[i].value) by {
            assert(rest[i] == els[i + 1]);
        }
        lemma_native_writes(els[0].value);
        lemma_native_elements_write(rest);
    }
}

/// Writing values AMF0 holds by itself succeeds, with at least one byte each.
pub proof fn lemma_native_values_write(vs: Seq<ValueV>)
    requires
        amf0_native_values(vs),
    ensures
        enc0_values(vs) is Ok,
        enc0_values(vs)->Ok_0.len() >= vs.len(),
    decreases vs, 0int, 0int,
{
    if vs.len() > 0 {
        let rest = vs.subrange(1, vs.len() as int);
        assert(amf0_native(vs[0]));
        assert forall|i: int| 0 <= i < rest.len() implies amf0_native(#[trigger] rest[i]) by {
            assert(rest[i] == vs[i + 1]);
        }
        lemma_native_writes(vs[0]);
        lemma_native_values_write(rest);
    }
}

/// Writing the dense values from index `i` on succeeds.
pub proof fn lemma_native_dense_write(vs: Seq<ValueV>, i: int)
    requires
        amf0_native_values(vs),
    ensures
        enc0_dense(vs, i) is Ok,
    decreases vs, 0int, vs.len() - i,
{
    if 0 <= i < vs.len() {
        assert(amf0_native(vs[i]));
        lemma_native_writes(vs[i]);
        lemma_native_dense_write(vs, i + 1);
    }
}

/// Reading an AMF0 value, kept folded.
#[verifier::opaque]
spec fn rv(st: Amf0State, s: Seq<u8>, p: int) -> Step0<ValueV> {
    spec_amf0_value(st, s, p)
}

/// Reading AMF0 values, kept folded.
#[verifier::opaque]
spec fn rvs(st: Amf0State, s: Seq<u8>, p: int, n: int) -> Step0<Seq<ValueV>> {
    spec_amf0_values(st, s, p, n)
}

/// Reading the properties of an AMF0 object, kept folded.
#[verifier::opaque]
spec fn rprops(st: Amf0State, s: Seq<u8>, p: int) -> Step0<Seq<ElementV>> {
    spec_props(st, s, p)
}

/// The decoder state once a value has taken its cache entry.
spec fn pushed(st: Amf0State) -> Amf0State {
    Amf0State { cache: st.cache.push(ValueV::Undefined), ..st }
}

/// Reading `n` values: none, or one and then `n - 1` more.
proof fn lemma_rvs_step(st: Amf0State, s: Seq<u8>, p: int, n: int)
    ensures
        rvs(st, s, p, n) == (if n <= 0 {
            Ok((st, p, Seq::<ValueV>::empty()))
        } else {
            match rv(st, s, p) {
                Err(e) => Err(e),
                Ok((st1, p1, v)) => if p < p1 <= s.len() {
                    prefixed0(seq![v], rvs(st1, s, p1, n - 1))
                } else {
                    Err(Error::OutOfBounds)
                },
            }
        }),
{
    reveal(rvs);
    reveal(rv);
}

/// One level of reading properties.
proof fn lemma_props_unfold(st: Amf0State, s: Seq<u8>, p: int)
    ensures
        rprops(st, s, p) == (match spec_prop(st, s, p) {
            Err(e) => Err(e),
            Ok((st1, p1, None)) => Ok((st1, p1, Seq::<ElementV>::empty())),
            Ok((st1, p1, Some(el))) => if p < p1 <= s.len() {
                prefixed0(seq![el], rprops(st1, s, p1))
            } else {
                Err(Error::OutOfBounds)
            },
        }),
{
    reveal(rprops);
}

/// One level of reading a property.
proof fn lemma_prop_unfold(st: Amf0State, s: Seq<u8>, p: int)
    ensures
        spec_prop(st, s, p) == (match spec_amf0_string(s, p) {
            Err(e) => Err(e),
            Ok((k, _)) => if k >= s.len() {
                Err(nom_err(k, ErrorKind::Eof))
            } else if s[k] == 9 {
                Ok((st, k + 1, None))
            } else {
                match spec_amf0_element(st, s, p) {
                    Err(e) => Err(e),
                    Ok((st1, p1, el)) => Ok((st1, p1, Some(el))),
                }
            },
        }),
{
}

/// One level of reading an element.
proof fn lemma_element_unfold(st: Amf0State, s: Seq<u8>, p: int)
    ensures
        spec_amf0_element(st, s, p) == (match spec_amf0_string(s, p) {
            Err(e) => Err(e),
            Ok((p1, name)) => if p < p1 <= s.len() {
                match rv(st, s, p1) {
                    Err(e) => Err(e),
                    Ok((st2, p2, v)) => Ok((st2, p2, ElementV { name, value: v })),
                }
            } else {
                Err(Error::OutOfBounds)
            },
        }),
{
    reveal(rv);
}

/// The end of an object's properties reads as no more properties.
proof fn lemma_rprops_end(st: Amf0State, s: Seq<u8>, p: int)
    requires
        written_at(object_end(), s, p),
    ensures
        rprops(st, s, p) == Ok::<(Amf0State, int, Seq<ElementV>), Error>((st, p + 3, Seq::empty())),
{
    let e = Seq::<char>::empty();
    assert(str_bytes(e) =~= Seq::<u8>::empty());
    assert((0u16 >> 8) as u8 == 0u8 && (0u16 & 0xff) as u8 == 0u8) by (bit_vector);
    assert(enc0_string(e) =~= seq![0u8, 0u8]);
    lemma_written_part(object_end(), s, p, 0, 2);
    assert(object_end().subrange(0, 2) =~= enc0_string(e));
    lemma_string_roundtrip(s, p, e);
    assert(s[p + 2] == s.subrange(p, p + 3)[2]);
    lemma_props_unfold(st, s, p);
    lemma_prop_unfold(st, s, p);
}

/// A named value followed by more properties reads as that element, then the rest.
proof fn lemma_rprops_cons(st: Amf0State, s: Seq<u8>, p: int, name: Seq<char>, b: Seq<u8>, st1: Amf0State, q: int, w: ValueV)
    requires
        str_bytes(name).len() <= 65535,
        b.len() >= 1,
        b[0] != 9,
        written_at(enc0_string(name) + b, s, p),
        rv(st, s, p + enc0_string(name).len()) == Ok::<(Amf0State, int, ValueV), Error>((st1, q, w)),
        p + enc0_string(name).len() < q <= s.len(),
    ensures
        rprops(st, s, p) == prefixed0(seq![ElementV { name, value: w }], rprops(st1, s, q)),
{
    let ns = enc0_string(name);
    let t = ns + b;
    lemma_written_part(t, s, p, 0, ns.len() as int);
    assert(t.subrange(0, ns.len() as int) =~= ns);
    lemma_string_roundtrip(s, p, name);
    assert(s[p + ns.len()] == t[ns.len() as int]);
    assert(s[p + ns.len()] == s.subrange(p, p + t.len())[ns.len() as int]);
    lemma_props_unfold(st, s, p);
    lemma_prop_unfold(st, s, p);
    lemma_element_unfold(st, s, p);
}

/// An untyped object reads as its properties.
proof fn lemma_rv_object(st: Amf0State, s: Seq<u8>, p: int)
    requires
        0 <= p < s.len(),
        s[p] == 0x03,
    ensures
        rv(st, s, p) == (match rprops(pushed(st), s, p + 1) {
            Ok((st2, e, els)) => Ok((
                cached(st2, st.cache.len() as int, ValueV::Object { id: ObjectId(-1i64), elements: els, class_definition: None }),
                e,
                ValueV::Object { id: ObjectId(-1i64), elements: els, class_definition: None },
            )),
            Err(e) => Err(e),
        }),
{
    reveal(rv);
    reveal(rprops);
}

/// A typed object reads as its class name and its properties.
proof fn lemma_rv_typed(st: Amf0State, s: Seq<u8>, p: int, q1: int, name: Seq<char>)
    requires
        0 <= p < s.len(),
        s[p] == 0x10,
        spec_amf0_string(s, p + 1) == Ok::<(int, Seq<char>), Error>((q1, name)),
    ensures
        rv(st, s, p) == (match rprops(pushed(st), s, q1) {
            Ok((st2, e, els)) => Ok((
                cached(st2, st.cache.len() as int, ValueV::Object { id: ObjectId(-1i64), elements: els, class_definition: Some(named_class(name)) }),
                e,
                ValueV::Object { id: ObjectId(-1i64), elements: els, class_definition: Some(named_class(name)) },
            )),
            Err(e) => Err(e),
        }),
{
    reveal(rv);
    reveal(rprops);
}

/// An ECMA array reads as its length field and its properties.
proof fn lemma_rv_ecma(st: Amf0State, s: Seq<u8>, p: int)
    requires
        0 <= p,
        p + 5 <= s.len(),
        s[p] == 0x08,
    ensures
        rv(st, s, p) == (match rprops(pushed(st), s, p + 5) {
            Ok((st2, e, els)) => Ok((
                cached(st2, st.cache.len() as int, ValueV::ECMAArray { id: ObjectId(-1i64), dense: Seq::empty(), elements: els, length: u32_at(s, p + 1) }),
                e,
                ValueV::ECMAArray { id: ObjectId(-1i64), dense: Seq::empty(), elements: els, length: u32_at(s, p + 1) },
            )),
            Err(e) => Err(e),
        }),
{
    reveal(rv);
    reveal(rprops);
}

/// A strict array reads as its count and that many values.
proof fn lemma_rv_strict(st: Amf0State, s: Seq<u8>, p: int)
    requires
        0 <= p,
        p + 5 <= s.len(),
        s[p] == 0x0a,
        s.len() - (p + 5) >= u32_at(s, p + 1),
    ensures
        rv(st, s, p) == (match rvs(pushed(st), s, p + 5, u32_at(s, p + 1) as int) {
            Ok((st2, e, vs)) => Ok((
                cached(st2, st.cache.len() as int, ValueV::StrictArray { id: ObjectId(-1i64), values: vs }),
                e,
                ValueV::StrictArray { id: ObjectId(-1i64), values: vs },
            )),
            Err(e) => Err(e),
        }),
{
    reveal(rv);
    reveal(rvs);
}

/// A scalar reads back as `amf0_read_back` says.
proof fn lemma_rv_scalar(st: Amf0State, v: ValueV, s: Seq<u8>, p: int)
    requires
        amf0_scalar(v),
        enc0_value(v) is Ok,
        written_at(enc0_value(v)->Ok_0, s, p),
    ensures
        rv(st, s, p) == Ok::<(Amf0State, int, ValueV), Error>((pushed(st), p + enc0_value(v)->Ok_0.len(), amf0_read_back(v))),
{
    reveal(rv);
    lemma_amf0_scalar_roundtrip(st, v, s, p);
}

/// Reading back a written value AMF0 holds by itself, at any depth, from any decoder state.
#[verifier::spinoff_prover]
#[verifier::rlimit(60)]
proof fn lemma_value_back(st: Amf0State, v: ValueV, s: Seq<u8>, p: int)
    requires
        amf0_native(v),
        written_at(enc0_value(v)->Ok_0, s, p),
    ensures
        rv(st, s, p) matches Ok((_, q, w)) && q == p + enc0_value(v)->Ok_0.len() && w == amf0_deep_read_back(v),
    decreases v, 1int, 0int,
{
    lemma_native_writes(v);
    let b = enc0_value(v)->Ok_0;
    assert(s[p] == b[0]) by {
        assert(s.subrange(p, p + b.len())[0] == s[p]);
    }
    match v {
        ValueV::Object { id, elements, class_definition } => {
            assert(amf0_native_elements(elements));
            lemma_native_elements_write(elements);
            let eb = enc0_elements(elements)->Ok_0;
            match class_definition {
                None => {
                    assert(b =~= seq![0x03u8] + (eb + object_end()));
                    lemma_written_part(b, s, p, 1, b.len() as int);
                    assert(b.subrange(1, b.len() as int) =~= eb + object_end());
                    lemma_props_back(pushed(st), elements, s, p + 1);
                    lemma_rv_object(st, s, p);
                },
                Some(c) => {
                    let ns = enc0_string(c.name);
                    let k = 1 + ns.len() as int;
                    assert(b =~= seq![0x10u8] + ns + (eb + object_end()));
                    lemma_written_part(b, s, p, 1, k);
                    assert(b.subrange(1, k) =~= ns);
                    lemma_string_roundtrip(s, p + 1, c.name);
                    lemma_written_part(b, s, p, k, b.len() as int);
                    assert(b.subrange(k, b.len() as int) =~= eb + object_end());
                    lemma_props_back(pushed(st), elements, s, p + k);
                    lemma_rv_typed(st, s, p, p + k, c.name);
                },
            }
        },
        ValueV::ECMAArray { id, dense, elements, length } => {
            assert(amf0_native_values(dense));
            assert(amf0_native_elements(elements));
            lemma_native_dense_write(dense, 0);
            lemma_native_elements_write(elements);
            let db = enc0_dense(dense, 0)->Ok_0;
            let eb = enc0_elements(elements)->Ok_0;
            assert(b =~= seq![0x08u8] + be32(length) + (db + (eb + object_end())));
            lemma_written_part(b, s, p, 1, 5);
            assert(b.subrange(1, 5) =~= be32(length));
            lemma_be32_roundtrip(length);
            assert(be32(length).subrange(0, 4) =~= be32(length));
            lemma_u32_at_same(s, p + 1, be32(length), 0);
            lemma_written_part(b, s, p, 5, b.len() as int);
            assert(b.subrange(5, b.len() as int) =~= db + eb + object_end());
            let q0 = p + 5 + db.len();
            assert forall|st2: Amf0State| #[trigger] rprops(st2, s, q0) matches Ok((_, q, xs)) && q == q0 + eb.len() + 3
                && xs == amf0_elements_back(elements) by {
                lemma_written_part(db + eb + object_end(), s, p + 5, db.len() as int, (db + eb + object_end()).len() as int);
                assert((db + eb + object_end()).subrange(db.len() as int, (db + eb + object_end()).len() as int) =~= eb + object_end());
                lemma_props_back(st2, elements, s, q0);
            }
            lemma_dense_back(pushed(st), dense, 0, elements, s, p + 5);
            lemma_rv_ecma(st, s, p);
        },
        ValueV::StrictArray { id, values } => {
            assert(amf0_native_values(values));
            lemma_native_values_write(values);
            let vb = enc0_values(values)->Ok_0;
            let n = (values.len() % 0x1_0000_0000) as u32;
            assert(n == values.len());
            assert(b =~= seq![0x0au8] + be32(n) + vb);
            lemma_written_part(b, s, p, 1, 5);
            assert(b.subrange(1, 5) =~= be32(n));
            lemma_be32_roundtrip(n);
            assert(be32(n).subrange(0, 4) =~= be32(n));
            lemma_u32_at_same(s, p + 1, be32(n), 0);
            lemma_written_part(b, s, p, 5, b.len() as int);
            assert(b.subrange(5, b.len() as int) =~= vb);
            lemma_values_back(pushed(st), values, s, p + 5);
            lemma_rv_strict(st, s, p);
        },
        ValueV::AMF3(_) => {},
        _ => {
            lemma_rv_scalar(st, v, s, p);
        },
    }
}

/// Reading back the written properties of an object: the named values, then the end.
#[verifier::spinoff_prover]
#[verifier::rlimit(40)]
proof fn lemma_props_back(st: Amf0State, els: Seq<ElementV>, s: Seq<u8>, p: int)
    requires
        amf0_native_elements(els),
        written_at(enc0_elements(els)->Ok_0 + object_end(), s, p),
    ensures
        rprops(st, s, p) matches Ok((_, q, xs)) && q == p + enc0_elements(els)->Ok_0.len() + 3
            && xs == amf0_elements_back(els),
    decreases els, 0int, 0int,
{
    lemma_native_elements_write(els);
    if els.len() == 0 {
        assert(enc0_elements(els)->Ok_0 =~= Seq::<u8>::empty());
        assert(enc0_elements(els)->Ok_0 + object_end() =~= object_end());
        lemma_rprops_end(st, s, p);
    } else {
        let el = els[0];
        let rest = els.subrange(1, els.len() as int);
        assert(str_bytes(el.name).len() <= 65535 && amf0_native(el.value));
        assert forall|i: int| 0 <= i < rest.len() implies str_bytes(#[trigger] rest[i].name).len() <= 65535
            && amf0_native(rest[i].value) by {
            assert(rest[i] == els[i + 1]);
        }
        lemma_native_writes(el.value);
        lemma_native_elements_write(rest);
        let bv = enc0_value(el.value)->Ok_0;
        let ns = enc0_string(el.name);
        let rb = enc0_elements(rest)->Ok_0;
        let whole = enc0_elements(els)->Ok_0 + object_end();
        assert(whole =~= ns + bv + (rb + object_end()));
        let k1 = ns.len() as int;
        let k2 = k1 + bv.len();
        lemma_written_part(whole, s, p, k1, k2);
        assert(whole.subrange(k1, k2) =~= bv);
        lemma_value_back(st, el.value, s, p + k1);
        let (st1, q1, w) = rv(st, s, p + k1)->Ok_0;
        lemma_written_part(whole, s, p, k2, whole.len() as int);
        assert(whole.subrange(k2, whole.len() as int) =~= rb + object_end());
        lemma_props_back(st1, rest, s, q1);
        lemma_written_part(whole, s, p, 0, k2);
        assert(whole.subrange(0, k2) =~= ns + bv);
        lemma_rprops_cons(st, s, p, el.name, bv, st1, q1, w);
        assert(amf0_elements_back(els) =~= seq![ElementV { name: el.name, value: amf0_deep_read_back(el.value) }]
            + amf0_elements_back(rest));
    }
}

/// Reading back written values, one after the other.
#[verifier::spinoff_prover]
#[verifier::rlimit(40)]
proof fn lemma_values_back(st: Amf0State, vs: Seq<ValueV>, s: Seq<u8>, p: int)
    requires
        amf0_native_values(vs),
        written_at(enc0_values(vs)->Ok_0, s, p),
    ensures
        rvs(st, s, p, vs.len() as int) matches Ok((_, q, ws)) && q == p + enc0_values(vs)->Ok_0.len()
            && ws == amf0_values_back(vs),
    decreases vs, 0int, 0int,
{
    lemma_native_values_write(vs);
    lemma_rvs_step(st, s, p, vs.len() as int);
    if vs.len() > 0 {
        let rest = vs.subrange(1, vs.len() as int);
        assert(amf0_native(vs[0]));
        assert forall|i: int| 0 <= i < rest.len() implies amf0_native(#[trigger] rest[i]) by {
            assert(rest[i] == vs[i + 1]);
        }
        lemma_native_writes(vs[0]);
        lemma_native_values_write(rest);
        let bv = enc0_value(vs[0])->Ok_0;
        let rb = enc0_values(rest)->Ok_0;
        let whole = enc0_values(vs)->Ok_0;
        assert(whole =~= bv + rb);
        lemma_written_part(whole, s, p, 0, bv.len() as int);
        assert(whole.subrange(0, bv.len() as int) =~= bv);
        lemma_value_back(st, vs[0], s, p);
        let (st1, q1, w) = rv(st, s, p)->Ok_0;
        lemma_written_part(whole, s, p, bv.len() as int, whole.len() as int);
        assert(whole.subrange(bv.len() as int, whole.len() as int) =~= rb);
        lemma_values_back(st1, rest, s, q1);
        assert(amf0_values_back(vs) =~= seq![amf0_deep_read_back(vs[0])] + amf0_values_back(rest));
    }
}

/// Reading back the written dense part of an ECMA array from index `i` on, then its named
/// elements and the end: the dense values come back named by their index.
#[verifier::spinoff_prover]
#[verifier::rlimit(40)]
proof fn lemma_dense_back(st: Amf0State, vs: Seq<ValueV>, i: int, els: Seq<ElementV>, s: Seq<u8>, p: int)
    requires
        amf0_native_values(vs),
        0 <= i <= vs.len(),
        vs.len() < 0x1_0000_0000,
        enc0_dense(vs, i) is Ok,
        enc0_elements(els) is Ok,
        written_at(enc0_dense(vs, i)->Ok_0 + enc0_elements(els)->Ok_0 + object_end(), s, p),
        forall|st2: Amf0State| #[trigger] rprops(st2, s, p + enc0_dense(vs, i)->Ok_0.len()) matches Ok((_, q, xs))
            && q == p + enc0_dense(vs, i)->Ok_0.len() + enc0_elements(els)->Ok_0.len() + 3
            && xs == amf0_elements_back(els),
    ensures
        rprops(st, s, p) matches Ok((_, q, xs))
            && q == p + enc0_dense(vs, i)->Ok_0.len() + enc0_elements(els)->Ok_0.len() + 3
            && xs == amf0_dense_back(vs, i) + amf0_elements_back(els),
    decreases vs, 0int, vs.len() - i,
{
    let db = enc0_dense(vs, i)->Ok_0;
    let eb = enc0_elements(els)->Ok_0;
    if i == vs.len() {
        assert(db.len() == 0);
        assert(amf0_dense_back(vs, i) + amf0_elements_back(els) =~= amf0_elements_back(els));
        assert(rprops(st, s, p + db.len()) matches Ok((_, q, xs)) && q == p + db.len() + eb.len() + 3
            && xs == amf0_elements_back(els));
    } else {
        assert(amf0_native(vs[i]));
        lemma_native_writes(vs[i]);
        lemma_native_dense_write(vs, i + 1);
        lemma_index_name_fits(i as nat);
        let name = decimal(i as nat);
        let ns = enc0_string(name);
        let bv = enc0_value(vs[i])->Ok_0;
        let rb = enc0_dense(vs, i + 1)->Ok_0;
        assert(db =~= ns + bv + rb);
        let whole = db + eb + object_end();
        let k1 = ns.len() as int;
        let k2 = k1 + bv.len();
        lemma_written_part(whole, s, p, k1, k2);
        assert(whole.subrange(k1, k2) =~= bv);
        lemma_value_back(st, vs[i], s, p + k1);
        let (st1, q1, w) = rv(st, s, p + k1)->Ok_0;
        lemma_written_part(whole, s, p, k2, whole.len() as int);
        assert(whole.subrange(k2, whole.len() as int) =~= rb + eb + object_end());
        assert(q1 + rb.len() == p + db.len());
        lemma_dense_back(st1, vs, i + 1, els, s, q1);
        lemma_written_part(whole, s, p, 0, k2);
        assert(whole.subrange(0, k2) =~= ns + bv);
        lemma_rprops_cons(st, s, p, name, bv, st1, q1, w);
        assert(amf0_dense_back(vs, i) =~= seq![ElementV { name, value: amf0_deep_read_back(vs[i]) }] + amf0_dense_back(vs, i + 1));
        assert(amf0_dense_back(vs, i) + amf0_elements_back(els) =~= seq![ElementV { name, value: amf0_deep_read_back(vs[i]) }]
            + (amf0_dense_back(vs, i + 1) + amf0_elements_back(els)));
    }
}

/// Reading back a written value that AMF0 holds by itself gives the value as
/// `amf0_deep_read_back` says, at any depth, from any decoder state and whatever stands before
/// and after it.
pub proof fn lemma_amf0_value_roundtrip(st: Amf0State, v: ValueV, pre: Seq<u8>, rest: Seq<u8>)
    requires
        amf0_native(v),
    ensures
        enc0_value(v) matches Ok(b) && spec_amf0_value(st, pre + b + rest, pre.len() as int) matches Ok((_, q, w))
            && q == (pre + b).len() && w == amf0_deep_read_back(v),
{
    lemma_native_writes(v);
    let b = enc0_value(v)->Ok_0;
    let s = pre + b + rest;
    assert(s.subrange(pre.len() as int, (pre.len() + b.len()) as int) =~= b);
    lemma_value_back(st, v, s, pre.len() as int);
    reveal(rv);
}

/// Reading an AMF0 body, kept folded.
#[verifier::opaque]
spec fn rbody(st: Amf0State, s: Seq<u8>, p: int) -> (int, Seq<ElementV>) {
    spec_amf0_body(st, s, p)
}

/// One step of reading an AMF0 body.
proof fn lemma_rbody_step(st: Amf0State, s: Seq<u8>, p: int)
    ensures
        rbody(st, s, p) == (match spec_amf0_element(st, s, p) {
            Err(_) => (p, Seq::<ElementV>::empty()),
            Ok((st1, p1, el)) => if p < p1 < s.len() && s[p1] == 0 {
                (rbody(st1, s, p1 + 1).0, seq![el] + rbody(st1, s, p1 + 1).1)
            } else {
                (p, Seq::<ElementV>::empty())
            },
        }),
{
    reveal(rbody);
}

/// No element reads at the end of the bytes, so the body ends there.
proof fn lemma_rbody_end(st: Amf0State, s: Seq<u8>)
    ensures
        rbody(st, s, s.len() as int) == (s.len() as int, Seq::<ElementV>::empty()),
{
    lemma_rbody_step(st, s, s.len() as int);
    lemma_element_unfold(st, s, s.len() as int);
}

/// Reading back a written element whose value AMF0 holds by itself.
proof fn lemma_element_back(st: Amf0State, el: ElementV, s: Seq<u8>, p: int)
    requires
        str_bytes(el.name).len() <= 65535,
        amf0_native(el.value),
        written_at(enc0_string(el.name) + enc0_value(el.value)->Ok_0, s, p),
    ensures
        spec_amf0_element(st, s, p) matches Ok((_, q, e)) && q == p + enc0_string(el.name).len() + enc0_value(el.value)->Ok_0.len()
            && e == (ElementV { name: el.name, value: amf0_deep_read_back(el.value) }),
{
    lemma_native_writes(el.value);
    let ns = enc0_string(el.name);
    let bv = enc0_value(el.value)->Ok_0;
    let t = ns + bv;
    lemma_written_part(t, s, p, 0, ns.len() as int);
    assert(t.subrange(0, ns.len() as int) =~= ns);
    lemma_string_roundtrip(s, p, el.name);
    lemma_written_part(t, s, p, ns.len() as int, t.len() as int);
    assert(t.subrange(ns.len() as int, t.len() as int) =~= bv);
    lemma_value_back(st, el.value, s, p + ns.len());
    lemma_element_unfold(st, s, p);
}

/// Writing a body of named values AMF0 holds by itself succeeds.
proof fn lemma_native_body_writes(els: Seq<ElementV>)
    requires
        amf0_native_elements(els),
    ensures
        enc0_body(els) is Ok,
    decreases els.len(),
{
    if els.len() > 0 {
        let rest = els.drop_first();
        assert(amf0_native(els[0].value));
        assert forall|i: int| 0 <= i < rest.len() implies str_bytes(#[trigger] rest[i].name).len() <= 65535
            && amf0_native(rest[i].value) by {
            assert(rest[i] == els[i + 1]);
        }
        lemma_native_writes(els[0].value);
        lemma_native_body_writes(rest);
    }
}

/// The body roundtrip over the folded reading.
#[verifier::spinoff_prover]
#[verifier::rlimit(40)]
proof fn lemma_body_back(st: Amf0State, els: Seq<ElementV>, pre: Seq<u8>)
    requires
        amf0_native_elements(els),
    ensures
        enc0_body(els) matches Ok(b) && rbody(st, pre + b, pre.len() as int) == ((pre + b).len() as int, amf0_elements_back(els)),
    decreases els.len(),
{
    lemma_native_body_writes(els);
    if els.len() == 0 {
        assert(pre + Seq::<u8>::empty() =~= pre);
        lemma_rbody_end(st, pre);
    } else {
        let el = els[0];
        let rest = els.drop_first();
        assert(str_bytes(el.name).len() <= 65535 && amf0_native(el.value));
        assert forall|i: int| 0 <= i < rest.len() implies str_bytes(#[trigger] rest[i].name).len() <= 65535
            && amf0_native(rest[i].value) by {
            assert(rest[i] == els[i + 1]);
        }
        lemma_native_writes(el.value);
        lemma_native_body_writes(rest);
        let bv = enc0_value(el.value)->Ok_0;
        let ns = enc0_string(el.name);
        let e0 = ns + bv + seq![0u8];
        let br = enc0_body(rest)->Ok_0;
        assert(enc0_body(els)->Ok_0 == e0 + br);
        let s = pre + (e0 + br);
        let p = pre.len() as int;
        assert(s.subrange(p, p + (ns + bv).len()) =~= ns + bv);
        lemma_element_back(st, el, s, p);
        let (st1, p1, e) = spec_amf0_element(st, s, p)->Ok_0;
        assert(s[p1] == 0u8);
        lemma_rbody_step(st, s, p);
        lemma_body_back(st1, rest, pre + e0);
        assert(s =~= (pre + e0) + br);
        assert(amf0_elements_back(els) =~= seq![ElementV { name: el.name, value: amf0_deep_read_back(el.value) }]
            + amf0_elements_back(rest));
    }
}

/// Reading back a written AMF0 body gives the elements as `amf0_elements_back` says, whatever
/// stands before it, and reads to the end of the bytes.
pub proof fn lemma_amf0_body_roundtrip(st: Amf0State, els: Seq<ElementV>, pre: Seq<u8>)
    requires
        amf0_native_elements(els),
    ensures
        enc0_body(els) matches Ok(b) && spec_amf0_body(st, pre + b, pre.len() as int)
            == ((pre + b).len() as int, amf0_elements_back(els)),
{
    lemma_body_back(st, els, pre);
    reveal(rbody);
}

/// Reading back a written AMF0 LSO gives its header and its elements as `amf0_elements_back`
/// says, and reads all the bytes.
pub proof fn lemma_amf0_lso_roundtrip(st0: Amf0State, st3: Amf3State, h: HeaderV, els: Seq<ElementV>)
    requires
        h.format_version == AMFVersion::AMF0,
        str_bytes(h.name).len() <= 65535,
        amf0_native_elements(els),
    ensures
        enc0_body(els) matches Ok(b) && spec_lso(st0, st3, spec_header_bytes(h) + b) == Ok::<(int, HeaderV, Seq<ElementV>), Error>((
            (spec_header_bytes(h) + b).len() as int,
            h,
            amf0_elements_back(els),
        )),
{
    lemma_amf0_body_roundtrip(st0, els, spec_header_bytes(h));
    let b = enc0_body(els)->Ok_0;
    lemma_header_roundtrip(h, b);
}

/// Reading back a written value that AMF0 holds by itself, where its bytes stand at `p`.
pub proof fn lemma_amf0_value_at(st: Amf0State, v: ValueV, s: Seq<u8>, p: int)
    requires
        amf0_native(v),
        written_at(enc0_value(v)->Ok_0, s, p),
    ensures
        enc0_value(v) is Ok,
        spec_amf0_value(st, s, p) matches Ok((_, q, w)) && q == p + enc0_value(v)->Ok_0.len()
            && w == amf0_deep_read_back(v),
{
    lemma_native_writes(v);
    lemma_value_back(st, v, s, p);
    reveal(rv);
}

/// An embedded AMF3 value reads back: the AMF0 encoding of an AMF3 value `e` written inline,
/// at `p`, is read by an AMF0 decoder whose embedded AMF3 tables are empty (as the fresh AMF3
/// encoder it is written with starts) as an embedded AMF3 value holding `e` read back, and the
/// read ends where the written bytes end. The encoding is the AVM+ marker followed by the AMF3
/// encoding of `e`.
#[verifier::spinoff_prover]
#[verifier::rlimit(30)]
pub proof fn lemma_amf0_embedded_amf3_roundtrip(st: Amf0State, e: ValueV, s: Seq<u8>, p: int)
    requires
        amf3_plain(e),
        plain_size(e) < 0x0400_0000,
        st.amf3.strings.len() == 0,
        st.amf3.traits.len() == 0,
        st.amf3.objects.len() == 0,
        enc0_value(ValueV::AMF3(Box::new(e))) is Ok ==> written_at(enc0_value(ValueV::AMF3(Box::new(e)))->Ok_0, s, p),
    ensures
        enc0_value(ValueV::AMF3(Box::new(e))) is Ok,
        enc0_value(ValueV::AMF3(Box::new(e)))->Ok_0 == seq![0x11u8] + enc_value(AMF3Encoder::new_state(), e)->Ok_0.1,
        spec_amf0_value(st, s, p) matches Ok((st1, q, w)) && q == p + enc0_value(ValueV::AMF3(Box::new(e)))->Ok_0.len()
            && w == ValueV::AMF3(Box::new(plain_back(e, st.amf3.object_id).0)),
{
    let enc3 = AMF3Encoder::new_state();
    crate::roundtrip::plain::lemma_plain_writes(enc3, e);
    let b = enc_value(enc3, e)->Ok_0.1;
    let w0 = seq![0x11u8] + b;
    assert(enc0_value(ValueV::AMF3(Box::new(e))) == Ok::<Seq<u8>, crate::errors::EncodeError>(w0));
    lemma_written_part(w0, s, p, 0, 1);
    assert(s[p] == s.subrange(p, p + 1)[0]);
    crate::amf0::type_marker::lemma_marker_roundtrip(crate::amf0::type_marker::TypeMarker::AMF3);
    lemma_written_part(w0, s, p, 1, w0.len() as int);
    assert(w0.subrange(1, w0.len() as int) =~= b);
    assert(st.amf3.strings =~= enc3.strings);
    assert(st.amf3.traits =~= enc3.traits);
    lemma_amf3_plain_at(enc3, st.amf3, e, s, p + 1);
}

} // verus!
