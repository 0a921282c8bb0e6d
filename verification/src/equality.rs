//! Equality of values as their `==` decides it: same variant and equal fields, with doubles
//! compared as doubles (NaN differs from everything, the two zeros are equal).
use vstd::prelude::*;
use crate::types::{
    ClassDefinition, DictionaryEntry, Element, ElementV, EntryV, Value, ValueV, entries_view,
    elements_view, lemma_value_view_parts, opt_class_def_view, values_view,
};

verus! {

/// The bits `b` encode a NaN.
pub open spec fn f64_is_nan(b: u64) -> bool {
    b & 0x7ff0_0000_0000_0000 == 0x7ff0_0000_0000_0000 && b & 0x000f_ffff_ffff_ffff != 0
}

/// The doubles with bits `a` and `b` compare equal: neither is NaN, and they are the same
/// double or both zero.
pub open spec fn f64_bits_eq(a: u64, b: u64) -> bool {
    !f64_is_nan(a) && !f64_is_nan(b) && (a == b || (a & 0x7fff_ffff_ffff_ffff == 0 && b
        & 0x7fff_ffff_ffff_ffff == 0))
}

/// Two sequences of doubles compare equal element by element.
pub open spec fn f64s_eq(a: Seq<u64>, b: Seq<u64>) -> bool {
    a.len() == b.len() && forall|i: int| 0 <= i < a.len() ==> f64_bits_eq(#[trigger] a[i], b[i])
}

/// Two sequences of elements compare equal element by element.
pub open spec fn elements_eq(a: Seq<ElementV>, b: Seq<ElementV>) -> bool
    decreases a, 0int,
{
    a.len() == b.len() && forall|i: int|
        0 <= i < a.len() ==> (#[trigger] a[i]).name == b[i].name && value_eq(a[i].value, b[i].value)
}

/// Two sequences of values compare equal element by element.
pub open spec fn values_eq(a: Seq<ValueV>, b: Seq<ValueV>) -> bool
    decreases a, 0int,
{
    a.len() == b.len() && forall|i: int| 0 <= i < a.len() ==> value_eq(#[trigger] a[i], b[i])
}

/// Two sequences of dictionary entries compare equal entry by entry.
pub open spec fn entries_eq(a: Seq<EntryV>, b: Seq<EntryV>) -> bool
    decreases a, 0int,
{
    a.len() == b.len() && forall|i: int|
        0 <= i < a.len() ==> value_eq((#[trigger] a[i]).key, b[i].key) && value_eq(a[i].value, b[i].value)
}

/// Two values compare equal.
pub open spec fn value_eq(a: ValueV, b: ValueV) -> bool
    decreases a, 1int,
{
    match a {
        ValueV::Number(x) => b matches ValueV::Number(y) && f64_bits_eq(x, y),
        ValueV::Object { id, elements, class_definition } => match b {
            ValueV::Object { id: id2, elements: e2, class_definition: c2 } => id == id2
                && class_definition == c2 && elements_eq(elements, e2),
            _ => false,
        },
        ValueV::ECMAArray { id, dense, elements, length } => match b {
            ValueV::ECMAArray { id: id2, dense: d2, elements: e2, length: l2 } => id == id2
                && length == l2 && values_eq(dense, d2) && elements_eq(elements, e2),
            _ => false,
        },
        ValueV::StrictArray { id, values } => match b {
            ValueV::StrictArray { id: id2, values: v2 } => id == id2 && values_eq(values, v2),
            _ => false,
        },
        ValueV::Date { time, timezone_or_utc } => match b {
            ValueV::Date { time: t2, timezone_or_utc: z2 } => f64_bits_eq(time, t2) && timezone_or_utc
                == z2,
            _ => false,
        },
        ValueV::AMF3(x) => match b {
            ValueV::AMF3(y) => value_eq(*x, *y),
            _ => false,
        },
        ValueV::VectorDouble { values, fixed_length } => match b {
            ValueV::VectorDouble { values: v2, fixed_length: f2 } => f64s_eq(values, v2)
                && fixed_length == f2,
            _ => false,
        },
        ValueV::VectorObject { id, values, object_type_name, fixed_length } => match b {
            ValueV::VectorObject { id: id2, values: v2, object_type_name: n2, fixed_length: f2 } => id
                == id2 && object_type_name == n2 && fixed_length == f2 && values_eq(values, v2),
            _ => false,
        },
        ValueV::Dictionary { id, elements, weak_keys } => match b {
            ValueV::Dictionary { id: id2, elements: e2, weak_keys: w2 } => id == id2 && weak_keys
                == w2 && entries_eq(elements, e2),
            _ => false,
        },
        ValueV::Custom { elements, dynamic_elements, class_definition } => match b {
            ValueV::Custom { elements: e2, dynamic_elements: d2, class_definition: c2 } =>
                class_definition == c2 && elements_eq(elements, e2) && elements_eq(dynamic_elements, d2),
            _ => false,
        },
        _ => a == b,
    }
}

/// Whether the doubles with bits `a` and `b` compare equal.
pub fn f64_equal(a: u64, b: u64) -> (r: bool)
    ensures
        r == f64_bits_eq(a, b),
{
    let a_nan = a & 0x7ff0_0000_0000_0000 == 0x7ff0_0000_0000_0000 && a & 0x000f_ffff_ffff_ffff != 0;
    let b_nan = b & 0x7ff0_0000_0000_0000 == 0x7ff0_0000_0000_0000 && b & 0x000f_ffff_ffff_ffff != 0;
    !a_nan && !b_nan && (a == b || (a & 0x7fff_ffff_ffff_ffff == 0 && b & 0x7fff_ffff_ffff_ffff == 0))
}

/// Whether two sequences of doubles compare equal element by element.
pub fn f64s_equal(a: &Vec<u64>, b: &Vec<u64>) -> (r: bool)
    ensures
        r == f64s_eq(a@, b@),
{
    if a.len() != b.len() {
        return false;
    }
    let mut i: usize = 0;
    while i < a.len()
        invariant
            i <= a@.len(),
            a@.len() == b@.len(),
            forall|j: int| 0 <= j < i ==> f64_bits_eq(#[trigger] a@[j], b@[j]),
        decreases a.len() - i,
    {
        if !f64_equal(a[i], b[i]) {
            return false;
        }
        i += 1;
    }
    true
}

/// Whether two sequences of elements compare equal element by element.
pub fn elements_equal(a: &Vec<Element>, b: &Vec<Element>) -> (r: bool)
    ensures
        r == elements_eq(elements_view(a@), elements_view(b@)),
    decreases a, 0int,
{
    let ghost av = elements_view(a@);
    let ghost bv = elements_view(b@);
    if a.len() != b.len() {
        return false;
    }
    let mut i: usize = 0;
    while i < a.len()
        invariant
            i <= a@.len(),
            a@.len() == b@.len(),
            av == elements_view(a@),
            bv == elements_view(b@),
            forall|j: int| 0 <= j < i ==> (#[trigger] av[j]).name == bv[j].name && value_eq(av[j].value, bv[j].value),
        decreases a.len() - i,
    {
        proof {
            assert(decreases_to!(a => a@[i as int]));
        }
        if a[i].name != b[i].name || !value_equal(&a[i].value, &b[i].value) {
            assert(!(av[i as int].name == bv[i as int].name && value_eq(av[i as int].value, bv[i as int].value)));
            return false;
        }
        i += 1;
    }
    true
}

/// Whether two sequences of values compare equal element by element.
pub fn values_equal(a: &Vec<Value>, b: &Vec<Value>) -> (r: bool)
    ensures
        r == values_eq(values_view(a@), values_view(b@)),
    decreases a, 0int,
{
    let ghost av = values_view(a@);
    let ghost bv = values_view(b@);
    if a.len() != b.len() {
        return false;
    }
    let mut i: usize = 0;
    while i < a.len()
        invariant
            i <= a@.len(),
            a@.len() == b@.len(),
            av == values_view(a@),
            bv == values_view(b@),
            forall|j: int| 0 <= j < i ==> value_eq(#[trigger] av[j], bv[j]),
        decreases a.len() - i,
    {
        proof {
            assert(decreases_to!(a => a@[i as int]));
        }
        if !value_equal(&a[i], &b[i]) {
            assert(!value_eq(av[i as int], bv[i as int]));
            return false;
        }
        i += 1;
    }
    true
}

/// Whether two sequences of dictionary entries compare equal entry by entry.
pub fn entries_equal(a: &Vec<DictionaryEntry>, b: &Vec<DictionaryEntry>) -> (r: bool)
    ensures
        r == entries_eq(entries_view(a@), entries_view(b@)),
    decreases a, 0int,
{
    let ghost av = entries_view(a@);
    let ghost bv = entries_view(b@);
    if a.len() != b.len() {
        return false;
    }
    let mut i: usize = 0;
    while i < a.len()
        invariant
            i <= a@.len(),
            a@.len() == b@.len(),
            av == entries_view(a@),
            bv == entries_view(b@),
            forall|j: int| 0 <= j < i ==> value_eq((#[trigger] av[j]).key, bv[j].key) && value_eq(av[j].value, bv[j].value),
        decreases a.len() - i,
    {
        proof {
            assert(decreases_to!(a => a@[i as int]));
        }
        if !value_equal(&a[i].key, &b[i].key) || !value_equal(&a[i].value, &b[i].value) {
            assert(!(value_eq(av[i as int].key, bv[i as int].key) && value_eq(av[i as int].value, bv[i as int].value)));
            return false;
        }
        i += 1;
    }
    true
}

/// Whether two optional class definitions are equal.
pub fn opt_class_def_equal(a: &Option<ClassDefinition>, b: &Option<ClassDefinition>) -> (r: bool)
    ensures
        r == (opt_class_def_view(*a) == opt_class_def_view(*b)),
{
    match (a, b) {
        (Some(x), Some(y)) => x.equals(y),
        (None, None) => true,
        _ => false,
    }
}

/// Whether two values compare equal.
pub fn value_equal(a: &Value, b: &Value) -> (r: bool)
    ensures
        r == value_eq(a@, b@),
    decreases a, 1int,
{
    proof {
        lemma_value_view_parts(*a);
        lemma_value_view_parts(*b);
    }
    match (a, b) {
        (Value::Number(x), Value::Number(y)) => f64_equal(*x, *y),
        (Value::Bool(x), Value::Bool(y)) => *x == *y,
        (Value::String(x), Value::String(y)) => *x == *y,
        (Value::Object { id, data }, Value::Object { id: id2, data: d2 }) => id.0 == id2.0
            && opt_class_def_equal(&data.class_definition, &d2.class_definition) && elements_equal(
            &data.elements,
            &d2.elements,
        ),
        (Value::Null, Value::Null) => true,
        (Value::Undefined, Value::Undefined) => true,
        (Value::ECMAArray { id, data }, Value::ECMAArray { id: id2, data: d2 }) => id.0 == id2.0
            && data.length == d2.length && values_equal(&data.dense, &d2.dense) && elements_equal(
            &data.elements,
            &d2.elements,
        ),
        (Value::StrictArray { id, values }, Value::StrictArray { id: id2, values: v2 }) => id.0
            == id2.0 && values_equal(values, v2),
        (Value::Date { time, timezone_or_utc }, Value::Date { time: t2, timezone_or_utc: z2 }) => {
            let tz_eq = match (timezone_or_utc, z2) {
                (Some(x), Some(y)) => *x == *y,
                (None, None) => true,
                _ => false,
            };
            f64_equal(*time, *t2) && tz_eq
        },
        (Value::Unsupported, Value::Unsupported) => true,
        (Value::XML { value, is_string }, Value::XML { value: v2, is_string: s2 }) => *value == *v2
            && *is_string == *s2,
        (Value::AMF3(x), Value::AMF3(y)) => value_equal(x, y),
        (Value::Integer(x), Value::Integer(y)) => *x == *y,
        (Value::ByteArray(x), Value::ByteArray(y)) => crate::bytes::bytes_equal(x.as_slice(), y.as_slice()),
        (Value::VectorInt(x), Value::VectorInt(y)) => x.fixed_length == y.fixed_length
            && crate::bytes::i32s_equal(&x.values, &y.values),
        (Value::VectorUInt(x), Value::VectorUInt(y)) => x.fixed_length == y.fixed_length
            && crate::bytes::u32s_equal(&x.values, &y.values),
        (Value::VectorDouble(x), Value::VectorDouble(y)) => x.fixed_length == y.fixed_length
            && f64s_equal(&x.values, &y.values),
        (Value::VectorObject { id, data }, Value::VectorObject { id: id2, data: d2 }) => id.0
            == id2.0 && data.object_type_name == d2.object_type_name && data.fixed_length
            == d2.fixed_length && values_equal(&data.values, &d2.values),
        (Value::Dictionary { id, data }, Value::Dictionary { id: id2, data: d2 }) => id.0 == id2.0
            && data.weak_keys == d2.weak_keys && entries_equal(&data.elements, &d2.elements),
        (Value::Custom(c), Value::Custom(c2)) => c.class_definition.equals(&c2.class_definition)
            && elements_equal(&c.elements, &c2.elements) && elements_equal(
            &c.dynamic_elements,
            &c2.dynamic_elements,
        ),
        (Value::Reference(x), Value::Reference(y)) => x.0 == y.0,
        (Value::Amf3ObjectReference(x), Value::Amf3ObjectReference(y)) => x.0 == y.0,
        _ => false,
    }
}

} // verus!
