//! Reading back written AMF3 values of any depth: arrays and objects inside each other.
use vstd::prelude::*;
use vstd::utf8::*;
use crate::bytes::str_bytes;
use crate::errors::{Error, ErrorKind, nom_err};
use crate::types::{ElementV, EntryV, ObjectId, ValueV};
use crate::amf3::read::{Amf3State, PayloadKind, advanced, next_object_id, pairs_of, prefixed, set_object, spec_byte_stream, spec_dictionary_payload, spec_payload, spec_ref_or_val, spec_vector_object_payload, spec_dynamic, spec_object, spec_static_props, spec_value};
use crate::amf3::length::{Length, spec_read_length, spec_write_length};
use crate::roundtrip::{lemma_amf3_scalar_roundtrip, lemma_amf3_string_roundtrip, lemma_byte_string_roundtrip, lemma_read_length_at, lemma_written_part, written_at};
use crate::roundtrip::arrays::{ras3, rv3, rvs3, lemma_ras3_empty, lemma_ras3_step, lemma_rap3, lemma_rv3_array, lemma_rvs3_step};
use crate::roundtrip::objects::{lemma_class_head_back, lemma_dynamic_entry_unfold, lemma_read_uint_at, lemma_value_object};
use crate::amf3::write::{Amf3EncState, enc_entries, lemma_after_after, lookup_ref, enc_props, enc_assoc, enc_byte_string, enc_dynamic, enc_static, enc_value, enc_values, find_named, lemma_object_step, object_class, occupied};
use crate::amf3::type_marker::TypeMarker;
use crate::amf3::integer::spec_write_int;
use crate::roundtrip::{amf3_read_back, amf3_scalar, lemma_amf3_scalar_writes};
use crate::roundtrip::arrays::lemma_byte_string_grows;
use crate::roundtrip::objects::{class_head, lemma_class_head_grows, lemma_enc_object_body, lemma_enc_object_head, lemma_enc_value_object, lemma_find_named, plain_class, statics_found};

verus! {

/// The AMF3 values written inline that read back: scalars, strict and ECMA arrays, and
/// objects whose class is not external and names only properties the object has; each
/// holding such values at any depth, under names that are not empty, with counts below 2^27.
pub open spec fn amf3_plain(v: ValueV) -> bool
    decreases v,
{
    match v {
        ValueV::StrictArray { values, .. } => values.len() < 0x0800_0000
            && forall|i: int| 0 <= i < values.len() ==> amf3_plain(#[trigger] values[i]),
        ValueV::ECMAArray { dense, elements, .. } => dense.len() < 0x0800_0000 && elements.len() < 0x1_0000_0000
            && (forall|i: int| 0 <= i < dense.len() ==> amf3_plain(#[trigger] dense[i]))
            && forall|i: int| 0 <= i < elements.len() ==> str_bytes(#[trigger] elements[i].name).len() > 0
                && str_bytes(elements[i].name).len() < 0x0800_0000 && amf3_plain(elements[i].value),
        ValueV::Object { elements, .. } => plain_class(object_class(v))
            && statics_found(elements, object_class(v).static_properties)
            && forall|i: int| 0 <= i < elements.len() ==> str_bytes(#[trigger] elements[i].name).len() > 0
                && str_bytes(elements[i].name).len() < 0x0800_0000 && amf3_plain(elements[i].value),
        _ => amf3_scalar(v),
    }
}

/// An upper bound on the strings, and on the classes, that writing `v` adds to the tables.
pub open spec fn plain_size(v: ValueV) -> nat
    decreases v, 2int, 0int,
{
    match v {
        ValueV::StrictArray { values, .. } => 1 + plain_sizes(values),
        ValueV::ECMAArray { dense, elements, .. } => 1 + plain_sizes(dense) + plain_els_size(elements),
        ValueV::Object { elements, .. } => 1 + object_class(v).static_properties.len()
            + plain_static_size(elements, object_class(v).static_properties) + plain_els_size(elements),
        _ => 1,
    }
}

/// The bound of `plain_size` summed over values.
pub open spec fn plain_sizes(vs: Seq<ValueV>) -> nat
    decreases vs, 1int, 0int,
{
    if vs.len() == 0 {
        0
    } else {
        plain_size(vs[0]) + plain_sizes(vs.subrange(1, vs.len() as int))
    }
}

/// The bound of `plain_size` summed over named values, each name counted too.
pub open spec fn plain_els_size(els: Seq<ElementV>) -> nat
    decreases els, 1int, 0int,
{
    if els.len() == 0 {
        0
    } else {
        1 + plain_size(els[0].value) + plain_els_size(els.subrange(1, els.len() as int))
    }
}

/// The bound of `plain_size` summed over the values of the static properties `names`.
pub open spec fn plain_static_size(els: Seq<ElementV>, names: Seq<Seq<char>>) -> nat
    decreases els, 1int, names.len(),
{
    if names.len() == 0 {
        0
    } else {
        let i = find_named(els, names[0], 0)->0;
        if 0 <= i < els.len() {
            plain_size(els[i].value) + plain_static_size(els, names.drop_first())
        } else {
            0
        }
    }
}

/// What reading back a written value gives, when the last object id the decoder gave is
/// `id`, and the last id after it: arrays get the invalid id, an ECMA array without named
/// entries reads as a strict array, an ECMA array's length is the number of its named
/// entries; an object gets the next id and its class, then its static properties in the
/// class's order and, if the class is dynamic, its other properties in their order; scalars
/// read as `amf3_read_back` says.
pub open spec fn plain_back(v: ValueV, id: i64) -> (ValueV, i64)
    decreases v, 2int, 0int,
{
    match v {
        ValueV::StrictArray { values, .. } => {
            let (xs, id1) = plain_values_back(values, id);
            (ValueV::StrictArray { id: ObjectId(-1i64), values: xs }, id1)
        },
        ValueV::ECMAArray { dense, elements, .. } => {
            let (es, id1) = plain_els_back(elements, id);
            let (xs, id2) = plain_values_back(dense, id1);
            if elements.len() == 0 {
                (ValueV::StrictArray { id: ObjectId(-1i64), values: xs }, id2)
            } else {
                (ValueV::ECMAArray { id: ObjectId(-1i64), dense: xs, elements: es, length: elements.len() as u32 }, id2)
            }
        },
        ValueV::Object { elements, .. } => {
            let def = object_class(v);
            let oid = next_object_id(id);
            let (sx, id1) = plain_static_back(elements, def.static_properties, oid);
            let (dx, id2) = if def.attributes.dynamic {
                plain_dyn_back(elements, def.static_properties, 0, id1)
            } else {
                (Seq::empty(), id1)
            };
            (ValueV::Object { id: ObjectId(oid), elements: sx + dx, class_definition: Some(def) }, id2)
        },
        _ => (amf3_read_back(v), id),
    }
}

/// Values read back one after the other.
pub open spec fn plain_values_back(vs: Seq<ValueV>, id: i64) -> (Seq<ValueV>, i64)
    decreases vs, 1int, 0int,
{
    if vs.len() == 0 {
        (Seq::empty(), id)
    } else {
        let (x, id1) = plain_back(vs[0], id);
        let (xs, id2) = plain_values_back(vs.subrange(1, vs.len() as int), id1);
        (seq![x] + xs, id2)
    }
}

/// Named values read back one after the other.
pub open spec fn plain_els_back(els: Seq<ElementV>, id: i64) -> (Seq<ElementV>, i64)
    decreases els, 1int, 0int,
{
    if els.len() == 0 {
        (Seq::empty(), id)
    } else {
        let (x, id1) = plain_back(els[0].value, id);
        let (xs, id2) = plain_els_back(els.subrange(1, els.len() as int), id1);
        (seq![ElementV { name: els[0].name, value: x }] + xs, id2)
    }
}

/// The static properties `names` read back: each name with the value of the first property
/// of that name.
pub open spec fn plain_static_back(els: Seq<ElementV>, names: Seq<Seq<char>>, id: i64) -> (Seq<ElementV>, i64)
    decreases els, 1int, names.len(),
{
    if names.len() == 0 {
        (Seq::empty(), id)
    } else {
        let i = find_named(els, names[0], 0)->0;
        if 0 <= i < els.len() {
            let (x, id1) = plain_back(els[i].value, id);
            let (xs, id2) = plain_static_back(els, names.drop_first(), id1);
            (seq![ElementV { name: names[0], value: x }] + xs, id2)
        } else {
            (Seq::empty(), id)
        }
    }
}

/// The dynamic properties from `i` on read back: those whose names are not static.
pub open spec fn plain_dyn_back(els: Seq<ElementV>, statics: Seq<Seq<char>>, i: int, id: i64) -> (Seq<ElementV>, i64)
    decreases els, 1int, els.len() - i,
{
    if i < 0 || i >= els.len() {
        (Seq::empty(), id)
    } else if statics.contains(els[i].name) {
        plain_dyn_back(els, statics, i + 1, id)
    } else {
        let (x, id1) = plain_back(els[i].value, id);
        let (xs, id2) = plain_dyn_back(els, statics, i + 1, id1);
        (seq![ElementV { name: els[i].name, value: x }] + xs, id2)
    }
}

/// The head of an object is written with the object in the next slot of the object table.
pub open spec fn object_slot(enc: Amf3EncState, v: ValueV) -> Amf3EncState {
    occupied(
        enc,
        ValueV::Object { id: v->Object_id, elements: v->Object_elements, class_definition: v->Object_class_definition },
        v->Object_id.0,
        TypeMarker::Object,
    )
}

/// Writing such a value succeeds, adds at most `plain_size` strings and classes, and writes
/// at least a byte.
pub proof fn lemma_plain_writes(enc: Amf3EncState, v: ValueV)
    requires
        amf3_plain(v),
    ensures
        enc_value(enc, v) is Ok,
        enc_value(enc, v)->Ok_0.0.strings.len() <= enc.strings.len() + plain_size(v),
        enc_value(enc, v)->Ok_0.0.traits.len() <= enc.traits.len() + plain_size(v),
        enc_value(enc, v)->Ok_0.1.len() >= 1,
    decreases v, 3int, 0int,
{
    match v {
        ValueV::StrictArray { id, values } => {
            lemma_plain_values_write(occupied(enc, v, id.0, TypeMarker::Array), values);
        },
        ValueV::ECMAArray { id, dense, elements, .. } => {
            let st1 = occupied(enc, v, id.0, TypeMarker::Array);
            assert forall|i: int| 0 <= i < elements.len() implies amf3_plain(#[trigger] elements[i].value) by {
                assert(str_bytes(elements[i].name).len() > 0);
            }
            lemma_plain_assoc_writes(st1, elements);
            let st2 = enc_assoc(st1, elements)->Ok_0.0;
            lemma_plain_values_write(st2, dense);
        },
        ValueV::Object { elements, .. } => {
            lemma_plain_object_writes(enc, v);
        },
        _ => {
            lemma_amf3_scalar_writes(enc, v);
        },
    }
}

/// Writing such an object succeeds, adds at most `plain_size` strings and classes, and
/// writes at least a byte.
#[verifier::spinoff_prover]
#[verifier::rlimit(40)]
proof fn lemma_plain_object_writes(enc: Amf3EncState, v: ValueV)
    requires
        amf3_plain(v),
        v is Object,
    ensures
        enc_value(enc, v) is Ok,
        enc_value(enc, v)->Ok_0.0.strings.len() <= enc.strings.len() + plain_size(v),
        enc_value(enc, v)->Ok_0.0.traits.len() <= enc.traits.len() + plain_size(v),
        enc_value(enc, v)->Ok_0.1.len() >= 1,
    decreases v, 2int, 0int,
{
    let def = object_class(v);
    let els = v->Object_elements;
    assert(plain_class(def) && statics_found(els, def.static_properties));
    assert forall|i: int| 0 <= i < els.len() implies amf3_plain(#[trigger] els[i].value) by {
        assert(str_bytes(els[i].name).len() > 0);
    }
    lemma_enc_value_object(enc, v);
    lemma_object_step(enc, v);
    lemma_enc_object_head(enc, v);
    let st1 = object_slot(enc, v);
    lemma_class_head_grows(st1, def);
    let (eh, hb) = class_head(st1, def);
    lemma_enc_object_body(eh, v);
    lemma_plain_static_writes(eh, els, def.static_properties);
    let (es, sb) = enc_static(eh, els, def.static_properties)->Ok_0;
    lemma_plain_dynamic_writes(es, els, def.static_properties, 0);
    lemma_els_size_from(els);
    assert(plain_size(v) == 1 + def.static_properties.len() + plain_static_size(els, def.static_properties) + plain_els_size(els));
}

/// The named values from the first on are all of them.
proof fn lemma_els_size_from(els: Seq<ElementV>)
    ensures
        plain_props_size(els, 0) == plain_els_size(els),
{
    lemma_props_size_shift(els, 0);
    assert(els.subrange(0, els.len() as int) =~= els);
}

/// The bound of `plain_size` summed over the properties from `i` on, each name counted too.
pub open spec fn plain_props_size(els: Seq<ElementV>, i: int) -> nat
    decreases els.len() - i,
{
    if i < 0 || i >= els.len() {
        0
    } else {
        1 + plain_size(els[i].value) + plain_props_size(els, i + 1)
    }
}

/// Summing from `i` is summing over the properties after the first `i`.
proof fn lemma_props_size_shift(els: Seq<ElementV>, i: int)
    requires
        0 <= i <= els.len(),
    ensures
        plain_props_size(els, i) == plain_els_size(els.subrange(i, els.len() as int)),
    decreases els.len() - i,
{
    let r = els.subrange(i, els.len() as int);
    if i < els.len() {
        lemma_props_size_shift(els, i + 1);
        assert(r.subrange(1, r.len() as int) =~= els.subrange(i + 1, els.len() as int));
        assert(r[0] == els[i]);
    } else {
        assert(r.len() == 0);
    }
}

/// Writing values one after the other succeeds, with at least a byte each.
proof fn lemma_plain_values_write(enc: Amf3EncState, vs: Seq<ValueV>)
    requires
        forall|i: int| 0 <= i < vs.len() ==> amf3_plain(#[trigger] vs[i]),
    ensures
        enc_values(enc, vs) is Ok,
        enc_values(enc, vs)->Ok_0.0.strings.len() <= enc.strings.len() + plain_sizes(vs),
        enc_values(enc, vs)->Ok_0.0.traits.len() <= enc.traits.len() + plain_sizes(vs),
        enc_values(enc, vs)->Ok_0.1.len() >= vs.len(),
    decreases vs, 1int, 0int,
{
    if vs.len() > 0 {
        let rest = vs.subrange(1, vs.len() as int);
        assert(amf3_plain(vs[0]));
        assert forall|i: int| 0 <= i < rest.len() implies amf3_plain(#[trigger] rest[i]) by {
            assert(rest[i] == vs[i + 1]);
        }
        lemma_plain_writes(enc, vs[0]);
        lemma_plain_values_write(enc_value(enc, vs[0])->Ok_0.0, rest);
    }
}

/// Writing the associative entries of an array succeeds.
proof fn lemma_plain_assoc_writes(enc: Amf3EncState, els: Seq<ElementV>)
    requires
        forall|i: int| 0 <= i < els.len() ==> amf3_plain(#[trigger] els[i].value),
    ensures
        enc_assoc(enc, els) is Ok,
        enc_assoc(enc, els)->Ok_0.0.strings.len() <= enc.strings.len() + plain_els_size(els),
        enc_assoc(enc, els)->Ok_0.0.traits.len() <= enc.traits.len() + plain_els_size(els),
    decreases els, 1int, 0int,
{
    if els.len() > 0 {
        let rest = els.subrange(1, els.len() as int);
        assert(amf3_plain(els[0].value));
        assert forall|i: int| 0 <= i < rest.len() implies amf3_plain(#[trigger] rest[i].value) by {
            assert(rest[i] == els[i + 1]);
        }
        let st1 = enc_byte_string(enc, str_bytes(els[0].name)).0;
        lemma_byte_string_grows(enc, str_bytes(els[0].name));
        lemma_plain_writes(st1, els[0].value);
        lemma_plain_assoc_writes(enc_value(st1, els[0].value)->Ok_0.0, rest);
    }
}

/// Writing the static properties succeeds.
proof fn lemma_plain_static_writes(enc: Amf3EncState, els: Seq<ElementV>, names: Seq<Seq<char>>)
    requires
        forall|i: int| 0 <= i < els.len() ==> amf3_plain(#[trigger] els[i].value),
        statics_found(els, names),
    ensures
        enc_static(enc, els, names) is Ok,
        enc_static(enc, els, names)->Ok_0.0.strings.len() <= enc.strings.len() + plain_static_size(els, names),
        enc_static(enc, els, names)->Ok_0.0.traits.len() <= enc.traits.len() + plain_static_size(els, names),
    decreases els, 1int, names.len(),
{
    if names.len() > 0 {
        assert(find_named(els, names[0], 0) is Some);
        lemma_find_named(els, names[0], 0);
        let i = find_named(els, names[0], 0)->0;
        assert(amf3_plain(els[i].value));
        lemma_plain_writes(enc, els[i].value);
        let rest = names.drop_first();
        assert forall|k: int| 0 <= k < rest.len() implies find_named(els, #[trigger] rest[k], 0) is Some by {
            assert(rest[k] == names[k + 1]);
        }
        lemma_plain_static_writes(enc_value(enc, els[i].value)->Ok_0.0, els, rest);
    }
}

/// Writing the dynamic properties from `i` on succeeds.
proof fn lemma_plain_dynamic_writes(enc: Amf3EncState, els: Seq<ElementV>, statics: Seq<Seq<char>>, i: int)
    requires
        0 <= i <= els.len(),
        forall|j: int| 0 <= j < els.len() ==> amf3_plain(#[trigger] els[j].value),
    ensures
        enc_dynamic(enc, els, statics, i) is Ok,
        enc_dynamic(enc, els, statics, i)->Ok_0.0.strings.len() <= enc.strings.len() + plain_props_size(els, i),
        enc_dynamic(enc, els, statics, i)->Ok_0.0.traits.len() <= enc.traits.len() + plain_props_size(els, i),
    decreases els, 1int, els.len() - i,
{
    if i < els.len() {
        if statics.contains(els[i].name) {
            lemma_plain_dynamic_writes(enc, els, statics, i + 1);
        } else {
            let e1 = enc_byte_string(enc, str_bytes(els[i].name)).0;
            lemma_byte_string_grows(enc, str_bytes(els[i].name));
            assert(amf3_plain(els[i].value));
            lemma_plain_writes(e1, els[i].value);
            lemma_plain_dynamic_writes(enc_value(e1, els[i].value)->Ok_0.0, els, statics, i + 1);
        }
    } else {
        lemma_byte_string_grows(enc, Seq::empty());
    }
}

/// The named values read back are as many as those written.
proof fn lemma_els_back_len(els: Seq<ElementV>, id: i64)
    ensures
        plain_els_back(els, id).0.len() == els.len(),
    decreases els.len(),
{
    if els.len() > 0 {
        lemma_els_back_len(els.subrange(1, els.len() as int), plain_back(els[0].value, id).1);
    }
}

/// One step of reading static properties.
proof fn lemma_static_props_step(st: Amf3State, s: Seq<u8>, p: int, names: Seq<Seq<char>>)
    ensures
        spec_static_props(st, s, p, names) == (if names.len() == 0 {
            Ok((st, p, Seq::<ElementV>::empty()))
        } else {
            match rv3(st, s, p) {
                Err(e) => Err(e),
                Ok((st1, p1, v)) => if advanced(p, p1, s) {
                    prefixed(seq![ElementV { name: names[0], value: v }], spec_static_props(st1, s, p1, names.drop_first()))
                } else {
                    Err(Error::OutOfBounds)
                },
            }
        }),
{
    reveal(rv3);
}

/// One step of reading dynamic properties after a name that is not empty.
proof fn lemma_dynamic_step(st: Amf3State, s: Seq<u8>, p: int, perr: int, attr: Seq<u8>)
    requires
        attr.len() > 0,
    ensures
        spec_dynamic(st, s, p, perr, attr) == (if !valid_utf8(attr) {
            Err(nom_err(perr, ErrorKind::Alpha))
        } else {
            match rv3(st, s, p) {
                Err(e) => Err(e),
                Ok((st1, p1, v)) => match spec_byte_stream(st1, s, p1) {
                    Err(e) => Err(e),
                    Ok((st2, p2, a2)) => if p < p2 <= s.len() {
                        prefixed(seq![ElementV { name: decode_utf8(attr), value: v }], spec_dynamic(st2, s, p2, perr, a2))
                    } else {
                        Err(Error::OutOfBounds)
                    },
                },
            }
        }),
{
    reveal(rv3);
    lemma_dynamic_entry_unfold(st, s, p, perr, attr);
}

/// Reading dynamic properties stops at the empty name.
proof fn lemma_dynamic_empty(st: Amf3State, s: Seq<u8>, p: int, perr: int, attr: Seq<u8>)
    requires
        attr.len() == 0,
    ensures
        spec_dynamic(st, s, p, perr, attr) == Ok::<(Amf3State, int, Seq<ElementV>), Error>((st, p, Seq::empty())),
{
}

/// Each reference the encoder recorded with the object marker names a slot of the decoder's
/// object table that holds an object.
pub open spec fn obj_refs_ok(refs: Seq<(i64, TypeMarker, int)>, objs: Seq<ValueV>) -> bool {
    forall|k: int| #![trigger refs[k]] 0 <= k < refs.len() && refs[k].1 == TypeMarker::Object
        ==> 0 <= refs[k].2 < objs.len() && objs[refs[k].2] is Object
}

/// The encoder's and the decoder's object tables agree: one slot each for every value that
/// takes one, and an object in each slot the encoder can refer to as an object.
pub open spec fn slots_agree(enc: Amf3EncState, dec: Amf3State) -> bool {
    enc.objects.len() == dec.objects.len() && obj_refs_ok(enc.refs, dec.objects)
}

/// The decoder's object table `b` keeps `a` as its first slots.
pub open spec fn keeps(a: Seq<ValueV>, b: Seq<ValueV>) -> bool {
    a.len() <= b.len() && b.subrange(0, a.len() as int) == a
}

/// Keeping the first slots is transitive.
proof fn lemma_keeps_trans(a: Seq<ValueV>, b: Seq<ValueV>, c: Seq<ValueV>)
    requires
        keeps(a, b),
        keeps(b, c),
    ensures
        keeps(a, c),
{
    assert(c.subrange(0, a.len() as int) =~= c.subrange(0, b.len() as int).subrange(0, a.len() as int));
}

/// A slot at or after the first `a.len()` can change while `a` is kept.
proof fn lemma_keeps_update(a: Seq<ValueV>, b: Seq<ValueV>, i: int, v: ValueV)
    requires
        keeps(a, b),
        a.len() <= i < b.len(),
    ensures
        keeps(a, b.update(i, v)),
        b.update(i, v).len() == b.len(),
{
    assert(b.update(i, v).subrange(0, a.len() as int) =~= b.subrange(0, a.len() as int));
}

/// A pushed slot keeps the slots before it.
proof fn lemma_keeps_push(a: Seq<ValueV>, v: ValueV)
    ensures
        keeps(a, a.push(v)),
{
    assert(a.push(v).subrange(0, a.len() as int) =~= a);
}

/// A slot that holds no object can be overwritten without breaking the agreement; so can any
/// slot, with an object.
proof fn lemma_refs_ok_update(refs: Seq<(i64, TypeMarker, int)>, objs: Seq<ValueV>, i: int, v: ValueV)
    requires
        obj_refs_ok(refs, objs),
        0 <= i < objs.len(),
        !(objs[i] is Object) || v is Object,
    ensures
        obj_refs_ok(refs, objs.update(i, v)),
{
    assert forall|k: int| #![trigger refs[k]] 0 <= k < refs.len() && refs[k].1 == TypeMarker::Object implies
        0 <= refs[k].2 < objs.update(i, v).len() && objs.update(i, v)[refs[k].2] is Object by {
        if refs[k].2 == i {
        }
    }
}

/// Pushing a slot, and a reference to it recorded with `m`, keeps the agreement when the slot
/// holds an object or the marker is not the object marker; `id` of -1 records nothing.
proof fn lemma_refs_ok_push(refs: Seq<(i64, TypeMarker, int)>, objs: Seq<ValueV>, id: i64, m: TypeMarker, v: ValueV)
    requires
        obj_refs_ok(refs, objs),
        m != TypeMarker::Object || v is Object,
    ensures
        obj_refs_ok(refs, objs.push(v)),
        obj_refs_ok(if id != -1 { refs.push((id, m, objs.len() as int)) } else { refs }, objs.push(v)),
{
    let objs2 = objs.push(v);
    assert forall|k: int| #![trigger refs[k]] 0 <= k < refs.len() && refs[k].1 == TypeMarker::Object implies
        0 <= refs[k].2 < objs2.len() && objs2[refs[k].2] is Object by {
        assert(objs2[refs[k].2] == objs[refs[k].2]);
    }
    if id != -1 {
        let refs2 = refs.push((id, m, objs.len() as int));
        assert forall|k: int| #![trigger refs2[k]] 0 <= k < refs2.len() && refs2[k].1 == TypeMarker::Object implies
            0 <= refs2[k].2 < objs2.len() && objs2[refs2[k].2] is Object by {
            if k < refs.len() {
                assert(refs2[k] == refs[k]);
                assert(objs2[refs[k].2] == objs[refs[k].2]);
            }
        }
    }
}

/// Keeping is reflexive.
proof fn lemma_keeps_refl(a: Seq<ValueV>)
    ensures
        keeps(a, a),
{
    assert(a.subrange(0, a.len() as int) =~= a);
}

/// A kept slot holds what it held.
proof fn lemma_keeps_index(a: Seq<ValueV>, b: Seq<ValueV>, i: int)
    requires
        keeps(a, b),
        0 <= i < a.len(),
    ensures
        b[i] == a[i],
{
    assert(b.subrange(0, a.len() as int)[i] == b[i]);
}

/// A value that takes a slot on both sides, the encoder recording it under `id` with `m`,
/// keeps the tables in agreement when the decoder's slot holds `x`.
pub(crate) proof fn lemma_slots_push(enc: Amf3EncState, dec: Amf3State, v: ValueV, id: i64, m: TypeMarker, x: ValueV)
    requires
        slots_agree(enc, dec),
        m != TypeMarker::Object || x is Object,
    ensures
        slots_agree(occupied(enc, v, id, m), Amf3State { objects: dec.objects.push(x), ..dec }),
        keeps(dec.objects, dec.objects.push(x)),
{
    lemma_refs_ok_push(enc.refs, dec.objects, id, m, x);
    lemma_keeps_push(dec.objects, x);
}

/// The decoder filling a slot it took, with a value that is an object if the slot held one,
/// keeps the tables in agreement.
pub(crate) proof fn lemma_slots_set(enc: Amf3EncState, d0: Seq<ValueV>, d: Amf3State, i: int, x: ValueV)
    requires
        slots_agree(enc, d),
        keeps(d0, d.objects),
        d0.len() <= i < d.objects.len(),
        !(d.objects[i] is Object) || x is Object,
    ensures
        slots_agree(enc, Amf3State { objects: d.objects.update(i, x), ..d }),
        keeps(d0, d.objects.update(i, x)),
{
    lemma_refs_ok_update(enc.refs, d.objects, i, x);
    lemma_keeps_update(d0, d.objects, i, x);
}

/// Properties under names that are not empty and fit a length header, holding such values.
pub open spec fn plain_props(els: Seq<ElementV>) -> bool {
    forall|j: int| 0 <= j < els.len() ==> str_bytes(#[trigger] els[j].name).len() > 0
        && str_bytes(els[j].name).len() < 0x0800_0000 && amf3_plain(els[j].value)
}

/// Reading back a written value of any depth gives it as `plain_back` says; the string and
/// trait tables stay in step.
#[verifier::spinoff_prover]
#[verifier::rlimit(80)]
pub(crate) proof fn lemma_plain_back(enc: Amf3EncState, dec: Amf3State, v: ValueV, s: Seq<u8>, p: int)
    requires
        amf3_plain(v),
        enc.strings == dec.strings,
        enc.traits == dec.traits,
        slots_agree(enc, dec),
        enc.strings.len() + plain_size(v) < 0x0800_0000,
        enc.traits.len() + plain_size(v) < 0x0400_0000,
        written_at(enc_value(enc, v)->Ok_0.1, s, p),
    ensures
        rv3(dec, s, p) matches Ok((d1, q, w)) && q == p + enc_value(enc, v)->Ok_0.1.len()
            && w == plain_back(v, dec.object_id).0 && d1.strings == enc_value(enc, v)->Ok_0.0.strings
            && d1.traits == enc_value(enc, v)->Ok_0.0.traits && d1.object_id == plain_back(v, dec.object_id).1
            && slots_agree(enc_value(enc, v)->Ok_0.0, d1) && keeps(dec.objects, d1.objects),
    decreases v, 3int, 0int,
{
    lemma_plain_writes(enc, v);
    let b = enc_value(enc, v)->Ok_0.1;
    lemma_written_part(b, s, p, 0, 1);
    assert(s[p] == s.subrange(p, p + 1)[0]);
    let dpush = Amf3State { objects: dec.objects.push(ValueV::Null), ..dec };
    match v {
        ValueV::StrictArray { id, values } => {
            let st1 = occupied(enc, v, id.0, TypeMarker::Array);
            let n = values.len() as u32;
            let l = spec_write_length(Length::Size(n));
            let e = Seq::<u8>::empty();
            let l0 = enc_byte_string(st1, e).1;
            lemma_byte_string_grows(st1, e);
            lemma_plain_values_write(st1, values);
            let vb = enc_values(st1, values)->Ok_0.1;
            assert(b =~= seq![0x09u8] + l + l0 + vb);
            lemma_written_part(b, s, p, 1, 1 + l.len() as int);
            assert(b.subrange(1, 1 + l.len() as int) =~= l);
            lemma_read_length_at(Length::Size(n), s, p + 1);
            let q1 = p + 1 + l.len();
            lemma_rv3_array(dec, s, p, q1, n);
            lemma_rap3(dpush, s, q1, n as int);
            lemma_written_part(b, s, p, 1 + l.len() as int, (1 + l.len() + l0.len()) as int);
            assert(b.subrange(1 + l.len() as int, (1 + l.len() + l0.len()) as int) =~= l0);
            lemma_byte_string_roundtrip(st1, dpush, e, s, q1);
            assert(Amf3State { strings: st1.strings, ..dpush } == dpush);
            lemma_written_part(b, s, p, (1 + l.len() + l0.len()) as int, b.len() as int);
            assert(b.subrange((1 + l.len() + l0.len()) as int, b.len() as int) =~= vb);
            lemma_slots_push(enc, dec, v, id.0, TypeMarker::Array, ValueV::Null);
            lemma_plain_values_back(st1, dpush, values, s, q1 + l0.len());
            let (st2, q2, ws) = rvs3(dpush, s, q1 + l0.len(), n as int)->Ok_0;
            lemma_keeps_trans(dec.objects, dpush.objects, st2.objects);
            lemma_keeps_index(dpush.objects, st2.objects, dec.objects.len() as int);
            lemma_slots_set(enc_values(st1, values)->Ok_0.0, dec.objects, st2, dec.objects.len() as int,
                ValueV::StrictArray { id: ObjectId(-1i64), values: ws });
        },
        ValueV::ECMAArray { id, dense, elements, length } => {
            let st1 = occupied(enc, v, id.0, TypeMarker::Array);
            let n = dense.len() as u32;
            let l = spec_write_length(Length::Size(n));
            let e = Seq::<u8>::empty();
            assert forall|i: int| 0 <= i < elements.len() implies amf3_plain(#[trigger] elements[i].value) by {
                assert(str_bytes(elements[i].name).len() > 0);
            }
            lemma_plain_assoc_writes(st1, elements);
            let (st2, ab) = enc_assoc(st1, elements)->Ok_0;
            let l0 = enc_byte_string(st2, e).1;
            lemma_byte_string_grows(st2, e);
            lemma_plain_values_write(st2, dense);
            let vb = enc_values(st2, dense)->Ok_0.1;
            assert(b =~= seq![0x09u8] + l + (ab + l0) + vb);
            lemma_written_part(b, s, p, 1, 1 + l.len() as int);
            assert(b.subrange(1, 1 + l.len() as int) =~= l);
            lemma_read_length_at(Length::Size(n), s, p + 1);
            let q1 = p + 1 + l.len();
            lemma_rv3_array(dec, s, p, q1, n);
            lemma_rap3(dpush, s, q1, n as int);
            let kb = ab + l0;
            lemma_written_part(b, s, p, 1 + l.len() as int, (1 + l.len() + kb.len()) as int);
            assert(b.subrange(1 + l.len() as int, (1 + l.len() + kb.len()) as int) =~= kb);
            lemma_slots_push(enc, dec, v, id.0, TypeMarker::Array, ValueV::Null);
            lemma_plain_assoc_back(st1, dpush, elements, s, q1);
            lemma_els_back_len(elements, dec.object_id);
            let (d1, p1, k) = spec_byte_stream(dpush, s, q1)->Ok_0;
            let (d3, q3, xs) = ras3(d1, s, p1, k)->Ok_0;
            lemma_written_part(b, s, p, (1 + l.len() + kb.len()) as int, b.len() as int);
            assert(b.subrange((1 + l.len() + kb.len()) as int, b.len() as int) =~= vb);
            let ef = enc_values(st2, dense)->Ok_0.0;
            if elements.len() == 0 {
                lemma_ras3_empty(d1, s, p1, k);
                lemma_plain_values_back(st2, d1, dense, s, q1 + kb.len());
                let (stf, qf, ws) = rvs3(d1, s, q1 + kb.len(), n as int)->Ok_0;
                lemma_keeps_trans(dec.objects, dpush.objects, stf.objects);
                lemma_keeps_index(dpush.objects, stf.objects, dec.objects.len() as int);
                lemma_slots_set(ef, dec.objects, stf, dec.objects.len() as int, ValueV::StrictArray { id: ObjectId(-1i64), values: ws });
            } else {
                lemma_plain_values_back(st2, d3, dense, s, q3);
                let (stf, qf, ws) = rvs3(d3, s, q3, n as int)->Ok_0;
                lemma_keeps_trans(dpush.objects, d3.objects, stf.objects);
                lemma_keeps_trans(dec.objects, dpush.objects, stf.objects);
                lemma_keeps_index(dpush.objects, stf.objects, dec.objects.len() as int);
                lemma_slots_set(ef, dec.objects, stf, dec.objects.len() as int,
                    ValueV::ECMAArray { id: ObjectId(-1i64), dense: ws, elements: xs, length: xs.len() as u32 });
            }
        },
        ValueV::Object { .. } => {
            lemma_plain_object_back(enc, dec, v, s, p);
        },
        _ => {
            lemma_amf3_scalar_roundtrip(enc, dec, v, s, p);
            reveal(rv3);
            if v is Date || v is XML || v is ByteArray || v is VectorInt || v is VectorUInt || v is VectorDouble {
                lemma_refs_ok_push(enc.refs, dec.objects, -1i64, TypeMarker::Date, amf3_read_back(v));
                lemma_keeps_push(dec.objects, amf3_read_back(v));
            } else {
                lemma_keeps_refl(dec.objects);
            }
        },
    }
}

/// A plain object is written as its marker and head, then its properties.
proof fn lemma_plain_object_written(enc: Amf3EncState, v: ValueV)
    requires
        v is Object,
        !object_class(v).attributes.external,
    ensures
        enc_value(enc, v) == crate::amf3::write::after(
            seq![0x0au8] + class_head(object_slot(enc, v), object_class(v)).1,
            enc_props(class_head(object_slot(enc, v), object_class(v)).0, v->Object_elements, object_class(v)),
        ),
{
    lemma_enc_value_object(enc, v);
    lemma_object_step(enc, v);
    lemma_enc_object_head(enc, v);
    lemma_enc_object_body(class_head(object_slot(enc, v), object_class(v)).0, v);
}

/// Reading back a written object of any depth.
#[verifier::spinoff_prover]
#[verifier::rlimit(100)]
proof fn lemma_plain_object_back(enc: Amf3EncState, dec: Amf3State, v: ValueV, s: Seq<u8>, p: int)
    requires
        amf3_plain(v),
        v is Object,
        enc.strings == dec.strings,
        enc.traits == dec.traits,
        slots_agree(enc, dec),
        enc.strings.len() + plain_size(v) < 0x0800_0000,
        enc.traits.len() + plain_size(v) < 0x0400_0000,
        written_at(enc_value(enc, v)->Ok_0.1, s, p),
    ensures
        rv3(dec, s, p) matches Ok((d1, q, w)) && q == p + enc_value(enc, v)->Ok_0.1.len()
            && w == plain_back(v, dec.object_id).0 && d1.strings == enc_value(enc, v)->Ok_0.0.strings
            && d1.traits == enc_value(enc, v)->Ok_0.0.traits && d1.object_id == plain_back(v, dec.object_id).1
            && slots_agree(enc_value(enc, v)->Ok_0.0, d1) && keeps(dec.objects, d1.objects),
    decreases v, 2int, 0int,
{
    let def = object_class(v);
    let els = v->Object_elements;
    let statics = def.static_properties;
    assert(plain_class(def) && statics_found(els, statics));
    assert forall|i: int| 0 <= i < els.len() implies amf3_plain(#[trigger] els[i].value) by {
        assert(str_bytes(els[i].name).len() > 0);
    }
    assert(plain_props(els));
    lemma_plain_object_written(enc, v);
    let st1 = object_slot(enc, v);
    let (eh, hb) = class_head(st1, def);
    lemma_plain_static_writes(eh, els, statics);
    let (es, sb) = enc_static(eh, els, statics)->Ok_0;
    lemma_plain_dynamic_writes(es, els, statics, 0);
    lemma_els_size_from(els);
    let (ed, db) = enc_dynamic(es, els, statics, 0)->Ok_0;
    let pb: Seq<u8> = if def.attributes.dynamic { sb + db } else { sb };
    let b = enc_value(enc, v)->Ok_0.1;
    assert(b =~= seq![0x0au8] + hb + pb);
    let q = p + 1;
    lemma_written_part(b, s, p, 0, 1);
    assert(s[p] == s.subrange(p, p + 1)[0]);
    lemma_rv3_object(dec, s, p);
    let oid = next_object_id(dec.object_id);
    let index = dec.objects.len() as int;
    let dst1 = Amf3State {
        object_id: oid,
        objects: dec.objects.push(ValueV::Object { id: ObjectId(oid), elements: Seq::empty(), class_definition: None }),
        ..dec
    };
    lemma_slots_push(
        enc,
        dec,
        ValueV::Object { id: v->Object_id, elements: v->Object_elements, class_definition: v->Object_class_definition },
        v->Object_id.0,
        TypeMarker::Object,
        ValueV::Object { id: ObjectId(oid), elements: Seq::empty(), class_definition: None },
    );
    lemma_written_part(b, s, p, 1, 1 + hb.len() as int);
    assert(b.subrange(1, 1 + hb.len() as int) =~= hb);
    lemma_class_head_back(st1, dst1, def, s, q);
    let q2 = q + hb.len();
    let dst2 = Amf3State { strings: eh.strings, traits: eh.traits, ..dst1 };
    let dst3 = set_object(dst2, index, ValueV::Object { id: ObjectId(oid), elements: Seq::empty(), class_definition: Some(def) });
    lemma_slots_set(eh, dec.objects, dst2, index, ValueV::Object { id: ObjectId(oid), elements: Seq::empty(), class_definition: Some(def) });
    lemma_written_part(b, s, p, 1 + hb.len() as int, (1 + hb.len() + sb.len()) as int);
    assert(b.subrange(1 + hb.len() as int, (1 + hb.len() + sb.len()) as int) =~= sb);
    lemma_plain_static_back(eh, dst3, els, statics, s, q2);
    let (dst4, q3, xs) = spec_static_props(dst3, s, q2, statics)->Ok_0;
    lemma_keeps_trans(dec.objects, dst3.objects, dst4.objects);
    if def.attributes.dynamic {
        lemma_written_part(b, s, p, (1 + hb.len() + sb.len()) as int, b.len() as int);
        assert(b.subrange((1 + hb.len() + sb.len()) as int, b.len() as int) =~= db);
        lemma_plain_dynamic_back(es, dst4, els, statics, 0, s, q3, q2);
        let (dst5, q4, attr) = spec_byte_stream(dst4, s, q3)->Ok_0;
        let (dst6, q5, ys) = spec_dynamic(dst5, s, q4, q2, attr)->Ok_0;
        lemma_keeps_trans(dec.objects, dst4.objects, dst6.objects);
        lemma_slots_set(ed, dec.objects, dst6, index, ValueV::Object { id: ObjectId(oid), elements: xs + ys, class_definition: Some(def) });
    } else {
        assert(xs + Seq::<ElementV>::empty() =~= xs);
        lemma_slots_set(es, dec.objects, dst4, index, ValueV::Object { id: ObjectId(oid), elements: xs, class_definition: Some(def) });
    }
}

/// Reading back written values, one after the other.
#[verifier::spinoff_prover]
#[verifier::rlimit(40)]
proof fn lemma_plain_values_back(enc: Amf3EncState, dec: Amf3State, vs: Seq<ValueV>, s: Seq<u8>, p: int)
    requires
        forall|i: int| 0 <= i < vs.len() ==> amf3_plain(#[trigger] vs[i]),
        enc.strings == dec.strings,
        enc.traits == dec.traits,
        slots_agree(enc, dec),
        enc.strings.len() + plain_sizes(vs) < 0x0800_0000,
        enc.traits.len() + plain_sizes(vs) < 0x0400_0000,
        written_at(enc_values(enc, vs)->Ok_0.1, s, p),
    ensures
        rvs3(dec, s, p, vs.len() as int) matches Ok((d1, q, ws)) && q == p + enc_values(enc, vs)->Ok_0.1.len()
            && ws == plain_values_back(vs, dec.object_id).0 && d1.strings == enc_values(enc, vs)->Ok_0.0.strings
            && d1.traits == enc_values(enc, vs)->Ok_0.0.traits && d1.object_id == plain_values_back(vs, dec.object_id).1
            && slots_agree(enc_values(enc, vs)->Ok_0.0, d1) && keeps(dec.objects, d1.objects),
    decreases vs, 1int, 0int,
{
    lemma_rvs3_step(dec, s, p, vs.len() as int);
    lemma_plain_values_write(enc, vs);
    if vs.len() > 0 {
        let rest = vs.subrange(1, vs.len() as int);
        assert(amf3_plain(vs[0]));
        assert forall|i: int| 0 <= i < rest.len() implies amf3_plain(#[trigger] rest[i]) by {
            assert(rest[i] == vs[i + 1]);
        }
        lemma_plain_writes(enc, vs[0]);
        let (e1, b0) = enc_value(enc, vs[0])->Ok_0;
        lemma_plain_values_write(e1, rest);
        let rb = enc_values(e1, rest)->Ok_0.1;
        let whole = enc_values(enc, vs)->Ok_0.1;
        assert(whole =~= b0 + rb);
        lemma_written_part(whole, s, p, 0, b0.len() as int);
        assert(whole.subrange(0, b0.len() as int) =~= b0);
        lemma_plain_back(enc, dec, vs[0], s, p);
        let (d1, q1, w) = rv3(dec, s, p)->Ok_0;
        lemma_written_part(whole, s, p, b0.len() as int, whole.len() as int);
        assert(whole.subrange(b0.len() as int, whole.len() as int) =~= rb);
        lemma_plain_values_back(e1, d1, rest, s, q1);
        lemma_keeps_trans(dec.objects, d1.objects, rvs3(d1, s, q1, rest.len() as int)->Ok_0.0.objects);
    } else {
        lemma_keeps_refl(dec.objects);
    }
}

/// Reading back the written associative entries of an array, from their first key to the
/// empty key that ends them.
#[verifier::spinoff_prover]
#[verifier::rlimit(60)]
proof fn lemma_plain_assoc_back(enc: Amf3EncState, dec: Amf3State, els: Seq<ElementV>, s: Seq<u8>, p: int)
    requires
        plain_props(els),
        enc.strings == dec.strings,
        enc.traits == dec.traits,
        slots_agree(enc, dec),
        enc.strings.len() + plain_els_size(els) < 0x0800_0000,
        enc.traits.len() + plain_els_size(els) < 0x0400_0000,
        written_at(enc_assoc(enc, els)->Ok_0.1 + enc_byte_string(enc_assoc(enc, els)->Ok_0.0, Seq::empty()).1, s, p),
    ensures
        spec_byte_stream(dec, s, p) matches Ok((d1, p1, k)) && p < p1 && (k.len() == 0 <==> els.len() == 0)
            && (ras3(d1, s, p1, k) matches Ok((d3, q3, xs))
            && q3 == p + (enc_assoc(enc, els)->Ok_0.1 + enc_byte_string(enc_assoc(enc, els)->Ok_0.0, Seq::empty()).1).len()
            && xs == plain_els_back(els, dec.object_id).0 && d3.strings == enc_assoc(enc, els)->Ok_0.0.strings
            && d3.traits == enc_assoc(enc, els)->Ok_0.0.traits && d3.object_id == plain_els_back(els, dec.object_id).1
            && slots_agree(enc_assoc(enc, els)->Ok_0.0, d3) && keeps(dec.objects, d3.objects) && d1.objects == dec.objects),
    decreases els, 1int, 0int,
{
    assert forall|i: int| 0 <= i < els.len() implies amf3_plain(#[trigger] els[i].value) by {
        assert(str_bytes(els[i].name).len() > 0);
    }
    lemma_plain_assoc_writes(enc, els);
    let w = enc_assoc(enc, els)->Ok_0.1 + enc_byte_string(enc_assoc(enc, els)->Ok_0.0, Seq::empty()).1;
    if els.len() == 0 {
        let e = Seq::<u8>::empty();
        assert(w =~= enc_byte_string(enc, e).1);
        lemma_byte_string_grows(enc, e);
        lemma_byte_string_roundtrip(enc, dec, e, s, p);
        lemma_ras3_empty(dec, s, p + w.len(), e);
        lemma_keeps_refl(dec.objects);
    } else {
        let el = els[0];
        let rest = els.subrange(1, els.len() as int);
        assert(str_bytes(el.name).len() > 0 && str_bytes(el.name).len() < 0x0800_0000 && amf3_plain(el.value));
        assert forall|i: int| 0 <= i < rest.len() implies str_bytes(#[trigger] rest[i].name).len() > 0
            && str_bytes(rest[i].name).len() < 0x0800_0000 && amf3_plain(rest[i].value) by {
            assert(rest[i] == els[i + 1]);
        }
        assert forall|i: int| 0 <= i < rest.len() implies amf3_plain(#[trigger] rest[i].value) by {
            assert(str_bytes(rest[i].name).len() > 0);
        }
        let k = str_bytes(el.name);
        let (e1, nb) = enc_byte_string(enc, k);
        lemma_byte_string_grows(enc, k);
        lemma_plain_writes(e1, el.value);
        let (e2, vb) = enc_value(e1, el.value)->Ok_0;
        lemma_plain_assoc_writes(e2, rest);
        let (e3, rb) = enc_assoc(e2, rest)->Ok_0;
        let l0 = enc_byte_string(e3, Seq::empty()).1;
        assert(w =~= nb + vb + (rb + l0));
        lemma_written_part(w, s, p, 0, nb.len() as int);
        assert(w.subrange(0, nb.len() as int) =~= nb);
        lemma_byte_string_roundtrip(enc, dec, k, s, p);
        let d1 = Amf3State { strings: e1.strings, ..dec };
        let p1 = p + nb.len();
        lemma_written_part(w, s, p, nb.len() as int, (nb.len() + vb.len()) as int);
        assert(w.subrange(nb.len() as int, (nb.len() + vb.len()) as int) =~= vb);
        lemma_plain_back(e1, d1, el.value, s, p1);
        let (d2, p2, w0) = rv3(d1, s, p1)->Ok_0;
        lemma_written_part(w, s, p, (nb.len() + vb.len()) as int, w.len() as int);
        assert(w.subrange((nb.len() + vb.len()) as int, w.len() as int) =~= rb + l0);
        lemma_plain_assoc_back(e2, d2, rest, s, p2);
        let (dd1, pp1, kk) = spec_byte_stream(d2, s, p2)->Ok_0;
        lemma_keeps_trans(dec.objects, d2.objects, ras3(dd1, s, pp1, kk)->Ok_0.0.objects);
        lemma_ras3_step(d1, s, p1, k);
        encode_utf8_valid_utf8(el.name);
        encode_utf8_decode_utf8(el.name);
    }
}

/// Reading back the written static properties.
#[verifier::spinoff_prover]
#[verifier::rlimit(40)]
proof fn lemma_plain_static_back(enc: Amf3EncState, dec: Amf3State, els: Seq<ElementV>, names: Seq<Seq<char>>, s: Seq<u8>, p: int)
    requires
        plain_props(els),
        statics_found(els, names),
        enc.strings == dec.strings,
        enc.traits == dec.traits,
        slots_agree(enc, dec),
        enc.strings.len() + plain_static_size(els, names) < 0x0800_0000,
        enc.traits.len() + plain_static_size(els, names) < 0x0400_0000,
        written_at(enc_static(enc, els, names)->Ok_0.1, s, p),
    ensures
        spec_static_props(dec, s, p, names) matches Ok((d1, q, xs)) && q == p + enc_static(enc, els, names)->Ok_0.1.len()
            && xs == plain_static_back(els, names, dec.object_id).0 && d1.strings == enc_static(enc, els, names)->Ok_0.0.strings
            && d1.traits == enc_static(enc, els, names)->Ok_0.0.traits
            && d1.object_id == plain_static_back(els, names, dec.object_id).1
            && slots_agree(enc_static(enc, els, names)->Ok_0.0, d1) && keeps(dec.objects, d1.objects),
    decreases els, 1int, names.len(),
{
    assert forall|i: int| 0 <= i < els.len() implies amf3_plain(#[trigger] els[i].value) by {
        assert(str_bytes(els[i].name).len() > 0);
    }
    lemma_plain_static_writes(enc, els, names);
    lemma_static_props_step(dec, s, p, names);
    if names.len() > 0 {
        assert(find_named(els, names[0], 0) is Some);
        lemma_find_named(els, names[0], 0);
        let i = find_named(els, names[0], 0)->0;
        let v = els[i].value;
        assert(amf3_plain(v));
        lemma_plain_writes(enc, v);
        let (e1, b1) = enc_value(enc, v)->Ok_0;
        let rest = names.drop_first();
        assert forall|k: int| 0 <= k < rest.len() implies find_named(els, #[trigger] rest[k], 0) is Some by {
            assert(rest[k] == names[k + 1]);
        }
        lemma_plain_static_writes(e1, els, rest);
        let b2 = enc_static(e1, els, rest)->Ok_0.1;
        let w = enc_static(enc, els, names)->Ok_0.1;
        assert(w =~= b1 + b2);
        lemma_written_part(w, s, p, 0, b1.len() as int);
        assert(w.subrange(0, b1.len() as int) =~= b1);
        lemma_plain_back(enc, dec, v, s, p);
        let (d1, p1, x) = rv3(dec, s, p)->Ok_0;
        lemma_written_part(w, s, p, b1.len() as int, w.len() as int);
        assert(w.subrange(b1.len() as int, w.len() as int) =~= b2);
        lemma_plain_static_back(e1, d1, els, rest, s, p1);
        lemma_keeps_trans(dec.objects, d1.objects, spec_static_props(d1, s, p1, rest)->Ok_0.0.objects);
    } else {
        lemma_keeps_refl(dec.objects);
    }
}

/// Reading back the written dynamic properties from `i` on, from the first name to the empty
/// name that ends them.
#[verifier::spinoff_prover]
#[verifier::rlimit(60)]
proof fn lemma_plain_dynamic_back(enc: Amf3EncState, dec: Amf3State, els: Seq<ElementV>, statics: Seq<Seq<char>>, i: int, s: Seq<u8>, p: int, perr: int)
    requires
        0 <= i <= els.len(),
        plain_props(els),
        enc.strings == dec.strings,
        enc.traits == dec.traits,
        slots_agree(enc, dec),
        enc.strings.len() + plain_props_size(els, i) < 0x0800_0000,
        enc.traits.len() + plain_props_size(els, i) < 0x0400_0000,
        written_at(enc_dynamic(enc, els, statics, i)->Ok_0.1, s, p),
    ensures
        spec_byte_stream(dec, s, p) matches Ok((d1, p1, k)) && p < p1
            && (spec_dynamic(d1, s, p1, perr, k) matches Ok((d3, q3, xs))
            && q3 == p + enc_dynamic(enc, els, statics, i)->Ok_0.1.len()
            && xs == plain_dyn_back(els, statics, i, dec.object_id).0
            && d3.strings == enc_dynamic(enc, els, statics, i)->Ok_0.0.strings
            && d3.traits == enc_dynamic(enc, els, statics, i)->Ok_0.0.traits
            && d3.object_id == plain_dyn_back(els, statics, i, dec.object_id).1
            && slots_agree(enc_dynamic(enc, els, statics, i)->Ok_0.0, d3) && keeps(dec.objects, d3.objects)
            && d1.objects == dec.objects),
    decreases els, 1int, els.len() - i,
{
    assert forall|j: int| 0 <= j < els.len() implies amf3_plain(#[trigger] els[j].value) by {
        assert(str_bytes(els[j].name).len() > 0);
    }
    lemma_plain_dynamic_writes(enc, els, statics, i);
    let w = enc_dynamic(enc, els, statics, i)->Ok_0.1;
    if i == els.len() {
        let e = Seq::<u8>::empty();
        lemma_byte_string_grows(enc, e);
        lemma_byte_string_roundtrip(enc, dec, e, s, p);
        let (d1, p1, k) = spec_byte_stream(dec, s, p)->Ok_0;
        lemma_dynamic_empty(d1, s, p1, perr, k);
        lemma_keeps_refl(dec.objects);
    } else if statics.contains(els[i].name) {
        lemma_plain_dynamic_back(enc, dec, els, statics, i + 1, s, p, perr);
    } else {
        let el = els[i];
        assert(0 < str_bytes(el.name).len() < 0x0800_0000 && amf3_plain(el.value));
        let k = str_bytes(el.name);
        let (e1, nb) = enc_byte_string(enc, k);
        lemma_byte_string_grows(enc, k);
        lemma_plain_writes(e1, el.value);
        let (e2, vb) = enc_value(e1, el.value)->Ok_0;
        lemma_plain_dynamic_writes(e2, els, statics, i + 1);
        let rb = enc_dynamic(e2, els, statics, i + 1)->Ok_0.1;
        assert(w =~= nb + vb + rb);
        lemma_written_part(w, s, p, 0, nb.len() as int);
        assert(w.subrange(0, nb.len() as int) =~= nb);
        lemma_byte_string_roundtrip(enc, dec, k, s, p);
        let d1 = Amf3State { strings: e1.strings, ..dec };
        let p1 = p + nb.len();
        lemma_written_part(w, s, p, nb.len() as int, (nb.len() + vb.len()) as int);
        assert(w.subrange(nb.len() as int, (nb.len() + vb.len()) as int) =~= vb);
        lemma_plain_back(e1, d1, el.value, s, p1);
        let (d2, p2, x) = rv3(d1, s, p1)->Ok_0;
        lemma_written_part(w, s, p, (nb.len() + vb.len()) as int, w.len() as int);
        assert(w.subrange((nb.len() + vb.len()) as int, w.len() as int) =~= rb);
        lemma_plain_dynamic_back(e2, d2, els, statics, i + 1, s, p2, perr);
        let (dd1, pp1, kk) = spec_byte_stream(d2, s, p2)->Ok_0;
        lemma_keeps_trans(dec.objects, d2.objects, spec_dynamic(dd1, s, pp1, perr, kk)->Ok_0.0.objects);
        lemma_dynamic_step(d1, s, p1, perr, k);
        encode_utf8_valid_utf8(el.name);
        encode_utf8_decode_utf8(el.name);
    }
}

/// An object marker reads an object.
proof fn lemma_rv3_object(dec: Amf3State, s: Seq<u8>, p: int)
    requires
        0 <= p < s.len(),
        s[p] == 0x0a,
    ensures
        rv3(dec, s, p) == spec_object(dec, s, p + 1),
{
    reveal(rv3);
    lemma_value_object(dec, s, p);
}

/// Reading back a written AMF3 value gives the value as `plain_back` says, where the bytes
/// stand at `p`.
pub(crate) proof fn lemma_amf3_plain_at(enc: Amf3EncState, dec: Amf3State, v: ValueV, s: Seq<u8>, p: int)
    requires
        amf3_plain(v),
        enc.strings == dec.strings,
        enc.traits == dec.traits,
        slots_agree(enc, dec),
        enc.strings.len() + plain_size(v) < 0x0800_0000,
        enc.traits.len() + plain_size(v) < 0x0400_0000,
        written_at(enc_value(enc, v)->Ok_0.1, s, p),
    ensures
        enc_value(enc, v) is Ok,
        enc_value(enc, v)->Ok_0.0.strings.len() <= enc.strings.len() + plain_size(v),
        enc_value(enc, v)->Ok_0.0.traits.len() <= enc.traits.len() + plain_size(v),
        spec_value(dec, s, p) matches Ok((d1, q, w)) && q == p + enc_value(enc, v)->Ok_0.1.len()
            && w == plain_back(v, dec.object_id).0 && d1.strings == enc_value(enc, v)->Ok_0.0.strings
            && d1.traits == enc_value(enc, v)->Ok_0.0.traits && d1.object_id == plain_back(v, dec.object_id).1
            && slots_agree(enc_value(enc, v)->Ok_0.0, d1) && keeps(dec.objects, d1.objects),
{
    lemma_plain_writes(enc, v);
    lemma_plain_back(enc, dec, v, s, p);
    reveal(rv3);
}

/// Reading back a written AMF3 value built from scalars by arrays and objects inside each
/// other, at any depth, gives the value as `plain_back` says, whatever stands before and after
/// it, while the encoder's and the decoder's string and trait tables agree and have room; they
/// agree after it too, and the decoder's last object id moves on by one for each object.
pub proof fn lemma_amf3_plain_roundtrip(enc: Amf3EncState, dec: Amf3State, v: ValueV, pre: Seq<u8>, rest: Seq<u8>)
    requires
        amf3_plain(v),
        enc.strings == dec.strings,
        enc.traits == dec.traits,
        slots_agree(enc, dec),
        enc.strings.len() + plain_size(v) < 0x0800_0000,
        enc.traits.len() + plain_size(v) < 0x0400_0000,
    ensures
        enc_value(enc, v) matches Ok((enc1, b)) && spec_value(dec, pre + b + rest, pre.len() as int) matches Ok((d1, q, w))
            && q == (pre + b).len() && w == plain_back(v, dec.object_id).0 && d1.strings == enc1.strings
            && d1.traits == enc1.traits && d1.object_id == plain_back(v, dec.object_id).1
            && slots_agree(enc1, d1),
{
    lemma_plain_writes(enc, v);
    let b = enc_value(enc, v)->Ok_0.1;
    let s = pre + b + rest;
    assert(s.subrange(pre.len() as int, (pre.len() + b.len()) as int) =~= b);
    lemma_amf3_plain_at(enc, dec, v, s, pre.len() as int);
}

/// The last entry the encoder recorded for an id is one of its entries.
proof fn lemma_lookup_ref_entry(refs: Seq<(i64, TypeMarker, int)>, id: i64)
    ensures
        lookup_ref(refs, id) matches Some((m, r)) ==> exists|k: int| 0 <= k < refs.len() && #[trigger] refs[k] == (id, m, r),
    decreases refs.len(),
{
    if refs.len() > 0 && refs.last().0 != id {
        lemma_lookup_ref_entry(refs.drop_last(), id);
        if let Some((m, r)) = lookup_ref(refs, id) {
            let k = choose|k: int| 0 <= k < refs.drop_last().len() && #[trigger] refs.drop_last()[k] == (id, m, r);
            assert(refs[k] == refs.drop_last()[k]);
        }
    } else if refs.len() > 0 {
        assert(refs[refs.len() - 1] == refs.last());
    }
}

/// The header of a reference to slot `r`: an even U29 whose upper bits are `r`.
proof fn lemma_ref_header_bits(r: u32, h: i32)
    by (bit_vector)
    requires
        r < 0x0800_0000,
        h == ((r << 1u32) as i32),
    ensures
        0 <= h < 0x1000_0000,
        (h as u32) & 1u32 == 0u32,
        (h as u32) >> 1u32 == r,
{
}

/// The slot the encoder recorded for an object id, and what a reference to it reads back as:
/// a reference to the id the decoder gave the object in that slot.
pub open spec fn ref_slot(enc: Amf3EncState, x: i64) -> int {
    match lookup_ref(enc.refs, x) {
        Some((_, r)) => r,
        None => 0,
    }
}

/// A value of a sequence written by one encoder, as read back by a decoder in state `dec`
/// while the encoder was in state `enc`: a reference to an object names the id the decoder gave
/// the object in the slot the encoder recorded; any other value reads back as `plain_back` says.
pub open spec fn value_back(enc: Amf3EncState, dec: Amf3State, v: ValueV) -> ValueV {
    match v {
        ValueV::Amf3ObjectReference(x) => ValueV::Amf3ObjectReference(dec.objects[ref_slot(enc, x.0)]->Object_id),
        _ => plain_back(v, dec.object_id).0,
    }
}

/// Reading back a reference to an object written before: the encoder writes the object
/// marker and the slot it recorded, and the decoder, whose object table agrees with the
/// encoder's, answers with the id it gave the object in that slot; neither state changes.
pub(crate) proof fn lemma_amf3_reference_at(enc: Amf3EncState, dec: Amf3State, x: i64, s: Seq<u8>, p: int)
    requires
        slots_agree(enc, dec),
        lookup_ref(enc.refs, x) matches Some((m, r)) && m == TypeMarker::Object && r < 0x0800_0000,
        written_at(enc_value(enc, ValueV::Amf3ObjectReference(ObjectId(x)))->Ok_0.1, s, p),
    ensures
        enc_value(enc, ValueV::Amf3ObjectReference(ObjectId(x))) is Ok,
        enc_value(enc, ValueV::Amf3ObjectReference(ObjectId(x)))->Ok_0.0 == enc,
        spec_value(dec, s, p) == Ok::<(Amf3State, int, ValueV), Error>((
            dec,
            p + enc_value(enc, ValueV::Amf3ObjectReference(ObjectId(x)))->Ok_0.1.len(),
            value_back(enc, dec, ValueV::Amf3ObjectReference(ObjectId(x))),
        )),
{
    let r = ref_slot(enc, x);
    lemma_lookup_ref_entry(enc.refs, x);
    let k = choose|k: int| 0 <= k < enc.refs.len() && #[trigger] enc.refs[k] == (x, TypeMarker::Object, r);
    assert(enc.refs[k].1 == TypeMarker::Object);
    assert(0 <= r < dec.objects.len() && dec.objects[r] is Object);
    let h = ((r as u32) << 1u32) as i32;
    lemma_ref_header_bits(r as u32, h);
    let b = enc_value(enc, ValueV::Amf3ObjectReference(ObjectId(x)))->Ok_0.1;
    assert(b =~= seq![0x0au8] + spec_write_int(h));
    lemma_written_part(b, s, p, 0, 1);
    assert(s[p] == s.subrange(p, p + 1)[0]);
    lemma_written_part(b, s, p, 1, b.len() as int);
    assert(b.subrange(1, b.len() as int) =~= spec_write_int(h));
    lemma_read_uint_at(h, s, p + 1);
    lemma_value_object(dec, s, p);
}

/// The values of a sequence that one encoder writes and that read back: values built from
/// scalars by arrays and objects, with room in the tables, and references to objects written
/// before in the sequence or earlier.
pub open spec fn seq_ok(enc: Amf3EncState, vs: Seq<ValueV>) -> bool
    decreases vs.len(),
{
    if vs.len() == 0 {
        true
    } else {
        &&& (amf3_plain(vs[0]) && enc.strings.len() + plain_size(vs[0]) < 0x0800_0000
                && enc.traits.len() + plain_size(vs[0]) < 0x0400_0000)
            || (vs[0] matches ValueV::Amf3ObjectReference(x) && lookup_ref(enc.refs, x.0) matches Some((m, r))
                && m == TypeMarker::Object && r < 0x0800_0000)
        &&& seq_ok(enc_value(enc, vs[0])->Ok_0.0, vs.subrange(1, vs.len() as int))
    }
}

/// The decoder states `ds` are those of reading back, one after the other from `p`, the
/// values `vs` that an encoder starting in state `enc` wrote: each read gives the value as
/// `value_back` says and ends where its bytes end, and after each the string, trait and
/// object tables agree with the encoder's.
pub open spec fn seq_read(enc: Amf3EncState, vs: Seq<ValueV>, ds: Seq<Amf3State>, s: Seq<u8>, p: int) -> bool
    decreases vs.len(),
{
    &&& ds.len() == vs.len() + 1
    &&& ds[0].strings == enc.strings && ds[0].traits == enc.traits && slots_agree(enc, ds[0])
    &&& vs.len() > 0 ==> {
        let (e1, b1) = enc_value(enc, vs[0])->Ok_0;
        &&& spec_value(ds[0], s, p) == Ok::<(Amf3State, int, ValueV), Error>((ds[1], p + b1.len(), value_back(enc, ds[0], vs[0])))
        &&& seq_read(e1, vs.subrange(1, vs.len() as int), ds.subrange(1, ds.len() as int), s, p + b1.len())
    }
}

/// Writing such a sequence succeeds: each value, then the rest.
proof fn lemma_seq_writes(enc: Amf3EncState, vs: Seq<ValueV>)
    requires
        seq_ok(enc, vs),
    ensures
        enc_values(enc, vs) is Ok,
        vs.len() > 0 ==> enc_value(enc, vs[0]) is Ok && enc_values(enc, vs)->Ok_0.1
            == enc_value(enc, vs[0])->Ok_0.1 + enc_values(enc_value(enc, vs[0])->Ok_0.0, vs.subrange(1, vs.len() as int))->Ok_0.1,
    decreases vs.len(),
{
    if vs.len() > 0 {
        let v = vs[0];
        if amf3_plain(v) && enc.strings.len() + plain_size(v) < 0x0800_0000 && enc.traits.len() + plain_size(v) < 0x0400_0000 {
            lemma_plain_writes(enc, v);
        }
        lemma_seq_writes(enc_value(enc, v)->Ok_0.0, vs.subrange(1, vs.len() as int));
    }
}

/// Reading back values written one after the other, where the bytes stand at `p`.
proof fn lemma_seq_at(enc: Amf3EncState, dec: Amf3State, vs: Seq<ValueV>, s: Seq<u8>, p: int) -> (ds: Seq<Amf3State>)
    requires
        seq_ok(enc, vs),
        enc.strings == dec.strings,
        enc.traits == dec.traits,
        slots_agree(enc, dec),
        written_at(enc_values(enc, vs)->Ok_0.1, s, p),
    ensures
        enc_values(enc, vs) is Ok,
        ds[0] == dec,
        seq_read(enc, vs, ds, s, p),
    decreases vs.len(),
{
    if vs.len() == 0 {
        seq![dec]
    } else {
        let v = vs[0];
        let rest = vs.subrange(1, vs.len() as int);
        lemma_seq_writes(enc, vs);
        let (e1, b1) = enc_value(enc, v)->Ok_0;
        let whole = enc_values(enc, vs)->Ok_0.1;
        lemma_written_part(whole, s, p, 0, b1.len() as int);
        assert(whole.subrange(0, b1.len() as int) =~= b1);
        lemma_written_part(whole, s, p, b1.len() as int, whole.len() as int);
        assert(whole.subrange(b1.len() as int, whole.len() as int) =~= enc_values(e1, rest)->Ok_0.1);
        let d1 = if amf3_plain(v) && enc.strings.len() + plain_size(v) < 0x0800_0000
            && enc.traits.len() + plain_size(v) < 0x0400_0000 {
            lemma_amf3_plain_at(enc, dec, v, s, p);
            spec_value(dec, s, p)->Ok_0.0
        } else {
            let x = v->Amf3ObjectReference_0.0;
            assert(v == ValueV::Amf3ObjectReference(ObjectId(x)));
            lemma_amf3_reference_at(enc, dec, x, s, p);
            dec
        };
        let dr = lemma_seq_at(e1, d1, rest, s, p + b1.len());
        let ds = seq![dec] + dr;
        assert(ds.subrange(1, ds.len() as int) =~= dr);
        ds
    }
}

/// Values that one AMF3 encoder writes one after the other read back one after the other in a
/// decoder whose tables agree with the encoder's at the start: each value built from scalars
/// by arrays and objects reads back as `plain_back` says, and each reference to an object
/// written before reads back as a reference to the id the decoder gave the object in the slot
/// the encoder named, since both sides give one slot, in write order, to every value that
/// takes one. After each value the string, trait and object tables still agree, so the
/// decoder's object table is as long as the encoder's.
pub proof fn lemma_amf3_values_roundtrip(enc: Amf3EncState, dec: Amf3State, vs: Seq<ValueV>, pre: Seq<u8>, rest: Seq<u8>) -> (ds: Seq<Amf3State>)
    requires
        seq_ok(enc, vs),
        enc.strings == dec.strings,
        enc.traits == dec.traits,
        slots_agree(enc, dec),
    ensures
        enc_values(enc, vs) matches Ok((_, b)) && seq_read(enc, vs, ds, pre + b + rest, pre.len() as int),
        ds[0] == dec,
{
    lemma_seq_writes(enc, vs);
    let b = enc_values(enc, vs)->Ok_0.1;
    let s = pre + b + rest;
    assert(s.subrange(pre.len() as int, (pre.len() + b.len()) as int) =~= b);
    lemma_seq_at(enc, dec, vs, s, pre.len() as int)
}

/// The keys and values of dictionary entries, in the order they are written.
pub open spec fn flat_entries(es: Seq<EntryV>) -> Seq<ValueV>
    decreases es.len(),
{
    if es.len() == 0 {
        Seq::empty()
    } else {
        seq![es[0].key, es[0].value] + flat_entries(es.subrange(1, es.len() as int))
    }
}

/// Each entry gives a key and a value.
proof fn lemma_flat_entries_len(es: Seq<EntryV>)
    ensures
        flat_entries(es).len() == 2 * es.len(),
    decreases es.len(),
{
    if es.len() > 0 {
        lemma_flat_entries_len(es.subrange(1, es.len() as int));
    }
}

/// Writing entries is writing their keys and values one after the other.
#[verifier::spinoff_prover]
proof fn lemma_entries_values(st: Amf3EncState, es: Seq<EntryV>)
    ensures
        enc_entries(st, es) == enc_values(st, flat_entries(es)),
    decreases es.len(),
{
    if es.len() > 0 {
        let f = flat_entries(es);
        let rest = es.subrange(1, es.len() as int);
        let f1 = f.subrange(1, f.len() as int);
        lemma_flat_entries_len(rest);
        assert(f[0] == es[0].key);
        assert(f1[0] == es[0].value);
        assert(f1.subrange(1, f1.len() as int) =~= flat_entries(rest));
        assert(f.len() > 0);
        match enc_value(st, es[0].key) {
            Err(_) => {
                assert(enc_values(st, f) == enc_entries(st, es));
            },
            Ok((st1, b1)) => {
                assert(enc_values(st, f) == crate::amf3::write::after(b1, enc_values(st1, f1)));
                match enc_value(st1, es[0].value) {
                    Err(_) => {
                        assert(enc_values(st1, f1) is Err);
                    },
                    Ok((st2, b2)) => {
                        assert(enc_values(st1, f1) == crate::amf3::write::after(b2, enc_values(st2, flat_entries(rest))));
                        lemma_entries_values(st2, rest);
                        lemma_after_after(b1, b2, enc_values(st2, flat_entries(rest)));
                    },
                }
            },
        }
    }
}

/// A dictionary's marker reads its payload after its size, in a new slot of the object table.
#[verifier::spinoff_prover]
proof fn lemma_rv3_dictionary(dec: Amf3State, s: Seq<u8>, p: int, q1: int, n: u32)
    requires
        0 <= p < s.len(),
        s[p] == 0x11,
        spec_read_length(s, p + 1) == Ok::<(int, Length), Error>((q1, Length::Size(n))),
        p + 1 <= q1 <= s.len(),
    ensures
        spec_value(dec, s, p) == (match spec_dictionary_payload(Amf3State { objects: dec.objects.push(ValueV::Null), ..dec }, s, q1, n as int) {
            Err(e) => Err(e),
            Ok((st2, q2, v)) => Ok((Amf3State { objects: st2.objects.update(dec.objects.len() as int, v), ..st2 }, q2, v)),
        }),
{
    assert(spec_value(dec, s, p) == spec_ref_or_val(dec, s, p + 1, PayloadKind::Dictionary));
    assert(spec_payload(Amf3State { objects: dec.objects.push(ValueV::Null), ..dec }, s, q1, n as int, PayloadKind::Dictionary)
        == spec_dictionary_payload(Amf3State { objects: dec.objects.push(ValueV::Null), ..dec }, s, q1, n as int));
}

/// The bytes a dictionary is written as: its marker, its size, whether its keys are weak, then
/// its keys and values.
#[verifier::spinoff_prover]
proof fn lemma_dictionary_written(enc: Amf3EncState, v: ValueV)
    requires
        v is Dictionary,
    ensures
        enc_value(enc, v) == crate::amf3::write::after(
            seq![0x11u8] + spec_write_length(Length::Size(v->Dictionary_elements.len() as u32))
                + seq![if v->Dictionary_weak_keys { 1u8 } else { 0u8 }],
            enc_values(occupied(enc, v, v->Dictionary_id.0, TypeMarker::Dictionary), flat_entries(v->Dictionary_elements)),
        ),
{
    lemma_entries_values(occupied(enc, v, v->Dictionary_id.0, TypeMarker::Dictionary), v->Dictionary_elements);
}

/// A dictionary whose keys and values are written inline reads back as the dictionary of its
/// keys and values read back one after the other, its keys weak as they were; the decoder's
/// string and trait tables end in step with the encoder's.
#[verifier::spinoff_prover]
#[verifier::rlimit(60)]
pub proof fn lemma_dictionary_roundtrip(enc: Amf3EncState, dec: Amf3State, v: ValueV, s: Seq<u8>, p: int)
    requires
        v is Dictionary,
        v->Dictionary_elements.len() < 0x0800_0000,
        forall|i: int| 0 <= i < flat_entries(v->Dictionary_elements).len() ==> amf3_plain(#[trigger] flat_entries(v->Dictionary_elements)[i]),
        enc.strings == dec.strings,
        enc.traits == dec.traits,
        slots_agree(enc, dec),
        enc.strings.len() + plain_sizes(flat_entries(v->Dictionary_elements)) < 0x0800_0000,
        enc.traits.len() + plain_sizes(flat_entries(v->Dictionary_elements)) < 0x0400_0000,
        enc_value(enc, v) is Ok ==> written_at(enc_value(enc, v)->Ok_0.1, s, p),
    ensures
        enc_value(enc, v) is Ok,
        spec_value(dec, s, p) matches Ok((d1, q, w)) && q == p + enc_value(enc, v)->Ok_0.1.len()
            && w == (ValueV::Dictionary {
                id: ObjectId(-1i64),
                elements: pairs_of(plain_values_back(flat_entries(v->Dictionary_elements), dec.object_id).0),
                weak_keys: v->Dictionary_weak_keys,
            })
            && d1.strings == enc_value(enc, v)->Ok_0.0.strings && d1.traits == enc_value(enc, v)->Ok_0.0.traits,
{
    let es = v->Dictionary_elements;
    let flat = flat_entries(es);
    lemma_flat_entries_len(es);
    let st1 = occupied(enc, v, v->Dictionary_id.0, TypeMarker::Dictionary);
    let n = es.len() as u32;
    let l = spec_write_length(Length::Size(n));
    let wb: Seq<u8> = seq![if v->Dictionary_weak_keys { 1u8 } else { 0u8 }];
    lemma_dictionary_written(enc, v);
    lemma_plain_values_write(st1, flat);
    let vb = enc_values(st1, flat)->Ok_0.1;
    let b = seq![0x11u8] + l + wb + vb;
    assert(enc_value(enc, v)->Ok_0.1 =~= b);
    lemma_written_part(b, s, p, 0, 1);
    assert(s[p] == s.subrange(p, p + 1)[0]);
    lemma_written_part(b, s, p, 1, 1 + l.len() as int);
    assert(b.subrange(1, 1 + l.len() as int) =~= l);
    lemma_read_length_at(Length::Size(n), s, p + 1);
    let q1 = p + 1 + l.len();
    lemma_rv3_dictionary(dec, s, p, q1, n);
    lemma_written_part(b, s, p, 1 + l.len() as int, 2 + l.len() as int);
    assert(b.subrange(1 + l.len() as int, 2 + l.len() as int) =~= wb);
    assert(s[q1] == s.subrange(q1, q1 + 1)[0]);
    lemma_written_part(b, s, p, 2 + l.len() as int, b.len() as int);
    assert(b.subrange(2 + l.len() as int, b.len() as int) =~= vb);
    let dpush = Amf3State { objects: dec.objects.push(ValueV::Null), ..dec };
    lemma_slots_push(enc, dec, v, v->Dictionary_id.0, TypeMarker::Dictionary, ValueV::Null);
    lemma_plain_values_back(st1, dpush, flat, s, q1 + 1);
    reveal(rvs3);
}

/// A vector of objects' marker reads its payload after its size, in a new slot of the object
/// table.
#[verifier::spinoff_prover]
proof fn lemma_rv3_vector_object(dec: Amf3State, s: Seq<u8>, p: int, q1: int, n: u32)
    requires
        0 <= p < s.len(),
        s[p] == 0x10,
        spec_read_length(s, p + 1) == Ok::<(int, Length), Error>((q1, Length::Size(n))),
        p + 1 <= q1 <= s.len(),
    ensures
        spec_value(dec, s, p) == (match spec_vector_object_payload(Amf3State { objects: dec.objects.push(ValueV::Null), ..dec }, s, q1, n as int) {
            Err(e) => Err(e),
            Ok((st2, q2, v)) => Ok((Amf3State { objects: st2.objects.update(dec.objects.len() as int, v), ..st2 }, q2, v)),
        }),
{
    assert(spec_value(dec, s, p) == spec_ref_or_val(dec, s, p + 1, PayloadKind::VectorObject));
    assert(spec_payload(Amf3State { objects: dec.objects.push(ValueV::Null), ..dec }, s, q1, n as int, PayloadKind::VectorObject)
        == spec_vector_object_payload(Amf3State { objects: dec.objects.push(ValueV::Null), ..dec }, s, q1, n as int));
}

/// The bytes a vector of objects is written as: its marker, its size, whether it is fixed,
/// its type name, then its values.
#[verifier::spinoff_prover]
proof fn lemma_vector_object_written(enc: Amf3EncState, v: ValueV)
    requires
        v is VectorObject,
    ensures
        ({
            let st1 = occupied(enc, v, v->VectorObject_id.0, TypeMarker::VectorObject);
            let (st2, b2) = enc_byte_string(st1, str_bytes(v->VectorObject_object_type_name));
            enc_value(enc, v) == crate::amf3::write::after(
                seq![0x10u8] + spec_write_length(Length::Size(v->VectorObject_values.len() as u32))
                    + seq![if v->VectorObject_fixed_length { 1u8 } else { 0u8 }] + b2,
                enc_values(st2, v->VectorObject_values),
            )
        }),
{
}

/// A vector of objects whose values are written inline reads back as the vector of its values
/// read back one after the other, with its type name and whether it is fixed; the decoder's
/// string and trait tables end in step with the encoder's.
#[verifier::spinoff_prover]
#[verifier::rlimit(60)]
pub proof fn lemma_vector_object_roundtrip(enc: Amf3EncState, dec: Amf3State, v: ValueV, s: Seq<u8>, p: int)
    requires
        v is VectorObject,
        v->VectorObject_values.len() < 0x0800_0000,
        forall|i: int| 0 <= i < v->VectorObject_values.len() ==> amf3_plain(#[trigger] v->VectorObject_values[i]),
        str_bytes(v->VectorObject_object_type_name).len() < 0x0800_0000,
        enc.strings == dec.strings,
        enc.traits == dec.traits,
        slots_agree(enc, dec),
        enc.strings.len() + 1 + plain_sizes(v->VectorObject_values) < 0x0800_0000,
        enc.traits.len() + plain_sizes(v->VectorObject_values) < 0x0400_0000,
        enc_value(enc, v) is Ok ==> written_at(enc_value(enc, v)->Ok_0.1, s, p),
    ensures
        enc_value(enc, v) is Ok,
        spec_value(dec, s, p) matches Ok((d1, q, w)) && q == p + enc_value(enc, v)->Ok_0.1.len()
            && w == (ValueV::VectorObject {
                id: ObjectId(-1i64),
                values: plain_values_back(v->VectorObject_values, dec.object_id).0,
                object_type_name: v->VectorObject_object_type_name,
                fixed_length: v->VectorObject_fixed_length,
            })
            && d1.strings == enc_value(enc, v)->Ok_0.0.strings && d1.traits == enc_value(enc, v)->Ok_0.0.traits,
{
    let vs = v->VectorObject_values;
    let name = v->VectorObject_object_type_name;
    let st1 = occupied(enc, v, v->VectorObject_id.0, TypeMarker::VectorObject);
    let n = vs.len() as u32;
    let l = spec_write_length(Length::Size(n));
    let fb: Seq<u8> = seq![if v->VectorObject_fixed_length { 1u8 } else { 0u8 }];
    lemma_vector_object_written(enc, v);
    lemma_byte_string_grows(st1, str_bytes(name));
    let (st2, b2) = enc_byte_string(st1, str_bytes(name));
    lemma_plain_values_write(st2, vs);
    let vb = enc_values(st2, vs)->Ok_0.1;
    let b = seq![0x10u8] + l + fb + b2 + vb;
    assert(enc_value(enc, v)->Ok_0.1 =~= b);
    lemma_written_part(b, s, p, 0, 1);
    assert(s[p] == s.subrange(p, p + 1)[0]);
    lemma_written_part(b, s, p, 1, 1 + l.len() as int);
    assert(b.subrange(1, 1 + l.len() as int) =~= l);
    lemma_read_length_at(Length::Size(n), s, p + 1);
    let q1 = p + 1 + l.len();
    lemma_rv3_vector_object(dec, s, p, q1, n);
    lemma_written_part(b, s, p, 1 + l.len() as int, 2 + l.len() as int);
    assert(b.subrange(1 + l.len() as int, 2 + l.len() as int) =~= fb);
    assert(s[q1] == s.subrange(q1, q1 + 1)[0]);
    let dpush = Amf3State { objects: dec.objects.push(ValueV::Null), ..dec };
    lemma_written_part(b, s, p, 2 + l.len() as int, (2 + l.len() + b2.len()) as int);
    assert(b.subrange(2 + l.len() as int, (2 + l.len() + b2.len()) as int) =~= b2);
    lemma_amf3_string_roundtrip(st1, dpush, name, s, q1 + 1);
    let q2 = q1 + 1 + b2.len();
    lemma_written_part(b, s, p, (2 + l.len() + b2.len()) as int, b.len() as int);
    assert(b.subrange((2 + l.len() + b2.len()) as int, b.len() as int) =~= vb);
    lemma_slots_push(enc, dec, v, v->VectorObject_id.0, TypeMarker::VectorObject, ValueV::Null);
    let dst = Amf3State { strings: st2.strings, ..dpush };
    lemma_plain_values_back(st2, dst, vs, s, q2);
    reveal(rvs3);
}

} // verus!
