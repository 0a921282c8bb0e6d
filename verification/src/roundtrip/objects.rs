//! The steps of reading back written AMF3 objects: their heads and class definitions.
use vstd::prelude::*;
use vstd::utf8::*;
use crate::bytes::str_bytes;
use crate::errors::Error;
use crate::types::{AttributeSet, ClassDefV, ElementV, ValueV};
use crate::amf3::read::{Amf3State, spec_byte_stream, spec_class_def, spec_dynamic_entry, spec_object, spec_strings, spec_value};
use crate::roundtrip::arrays::lemma_byte_string_grows;
use crate::amf3::write::{Amf3EncState, enc_byte_string, enc_names, enc_object, enc_object_body, enc_object_head, enc_props, enc_value, find_named, first_trait, full_trait_header, object_class, occupied, trait_ref_header};
use crate::amf3::type_marker::TypeMarker;
use crate::amf3::integer::{lemma_int_unsigned_roundtrip, spec_read_int, spec_write_int};
use crate::roundtrip::{lemma_amf3_string_roundtrip, lemma_byte_string_roundtrip, lemma_u29_raw_local, lemma_written_part, written_at};

verus! {

/// Reading an unsigned U29 at `p` of `t` gives back the value written there.
pub(crate) proof fn lemma_read_uint_at(x: i32, t: Seq<u8>, p: int)
    requires
        0 <= x < 0x1000_0000,
        written_at(spec_write_int(x), t, p),
    ensures
        spec_read_int(t, p) == Ok::<(int, u32), Error>((p + spec_write_int(x).len(), x as u32)),
{
    lemma_int_unsigned_roundtrip(x);
    lemma_u29_raw_local(spec_write_int(x), t, p);
}

/// The header `h` of a trait reference: it marks an inline object, and below that a
/// reference to definition `t`.
proof fn lemma_trait_ref_bits(t: u32, h: i32)
    by (bit_vector)
    requires
        t < 0x0400_0000,
        h == (((t << 1u32) << 1u32) | 1u32) as i32,
    ensures
        0 <= h < 0x1000_0000,
        (h as u32) & 1u32 == 1u32,
        ((h as u32) >> 1u32) & 1u32 == 0u32,
        ((h as u32) >> 1u32) >> 1u32 == t,
{
}

/// The header `h` of a class written in full: it marks an inline object and an inline
/// class, and holds the count `n` of static properties and the two attribute bits `e`.
proof fn lemma_full_trait_bits(n: u32, e: u32, h: i32)
    by (bit_vector)
    requires
        n < 0x0100_0000,
        e < 4,
        h == (((((((n << 2u32) | e) << 1u32) | 1u32) << 1u32) | 1u32) as i32),
    ensures
        0 <= h < 0x1000_0000,
        (h as u32) & 1u32 == 1u32,
        ((h as u32) >> 1u32) & 1u32 == 1u32,
        (((h as u32) >> 1u32) >> 1u32) >> 2u32 == n,
        (((h as u32) >> 1u32) >> 1u32) & 3u32 == e,
{
}

/// The index `first_trait` finds holds the definition, and none is found only when none is
/// equal.
proof fn lemma_first_trait(traits: Seq<ClassDefV>, def: ClassDefV, i: int)
    requires
        0 <= i,
    ensures
        match first_trait(traits, def, i) {
            Some(k) => i <= k < traits.len() && traits[k] == def,
            None => forall|j: int| i <= j < traits.len() ==> traits[j] != def,
        },
    decreases traits.len() - i,
{
    if i < traits.len() && traits[i] != def {
        lemma_first_trait(traits, def, i + 1);
    }
}

/// Names whose UTF-8 bytes fit a length header.
pub open spec fn short_names(names: Seq<Seq<char>>) -> bool {
    forall|k: int| 0 <= k < names.len() ==> str_bytes(#[trigger] names[k]).len() < 0x0800_0000
}

/// Reading back written names gives them, while the string tables agree; they agree after
/// them too.
proof fn lemma_names_back(enc: Amf3EncState, dec: Amf3State, names: Seq<Seq<char>>, s: Seq<u8>, p: int)
    requires
        enc.strings == dec.strings,
        enc.strings.len() + names.len() < 0x0800_0000,
        short_names(names),
        written_at(enc_names(enc, names).1, s, p),
    ensures
        spec_strings(dec, s, p, names.len() as int) == Ok::<(Amf3State, int, Seq<Seq<char>>), Error>((
            Amf3State { strings: enc_names(enc, names).0.strings, ..dec },
            p + enc_names(enc, names).1.len(),
            names,
        )),
        enc_names(enc, names).0 == (Amf3EncState { strings: enc_names(enc, names).0.strings, ..enc }),
        enc_names(enc, names).0.strings.len() <= enc.strings.len() + names.len(),
    decreases names.len(),
{
    if names.len() == 0 {
        assert(names =~= Seq::<Seq<char>>::empty());
    } else {
        let (e1, b1) = enc_byte_string(enc, str_bytes(names[0]));
        let (e2, b2) = enc_names(e1, names.drop_first());
        let w = enc_names(enc, names).1;
        assert(w =~= b1 + b2);
        assert(str_bytes(names[0]).len() < 0x0800_0000);
        lemma_written_part(w, s, p, 0, b1.len() as int);
        assert(w.subrange(0, b1.len() as int) =~= b1);
        lemma_amf3_string_roundtrip(enc, dec, names[0], s, p);
        assert(e1.strings.len() <= enc.strings.len() + 1);
        let d1 = Amf3State { strings: e1.strings, ..dec };
        lemma_written_part(w, s, p, b1.len() as int, w.len() as int);
        assert(w.subrange(b1.len() as int, w.len() as int) =~= b2);
        let rest = names.drop_first();
        assert forall|k: int| 0 <= k < rest.len() implies str_bytes(#[trigger] rest[k]).len() < 0x0800_0000 by {
            assert(rest[k] == names[k + 1]);
        }
        lemma_names_back(e1, d1, rest, s, p + b1.len());
        assert(seq![names[0]] + rest =~= names);
    }
}

/// The class part of an object's head, after its marker, written by an encoder in state
/// `enc`: a reference to an equal definition written before, or the definition in full, then
/// remembered.
pub open spec fn class_head(enc: Amf3EncState, def: ClassDefV) -> (Amf3EncState, Seq<u8>) {
    match first_trait(enc.traits, def, 0) {
        Some(t) => (enc, spec_write_int(trait_ref_header(t))),
        None => {
            let st2 = Amf3EncState { traits: enc.traits.push(def), ..enc };
            let (st3, b3) = enc_byte_string(st2, str_bytes(def.name));
            let (st4, b4) = enc_names(st3, def.static_properties);
            (st4, spec_write_int(full_trait_header(def)) + b3 + b4)
        },
    }
}

/// A class definition an object can be written with and read back: not external, and with a
/// head that fits.
pub open spec fn plain_class(def: ClassDefV) -> bool {
    &&& !def.attributes.external
    &&& class_fits(def)
}

/// A class whose head can be written and read back: fewer than 2^24 static properties, and a
/// name and property names that fit a length header.
pub open spec fn class_fits(def: ClassDefV) -> bool {
    &&& def.static_properties.len() < 0x0100_0000
    &&& str_bytes(def.name).len() < 0x0800_0000
    &&& short_names(def.static_properties)
}

/// Reading back the class part of an object's head gives the class, and the decoder's string
/// and trait tables stay in step with the encoder's.
#[verifier::spinoff_prover]
#[verifier::rlimit(40)]
pub(crate) proof fn lemma_class_head_back(enc: Amf3EncState, dec: Amf3State, def: ClassDefV, s: Seq<u8>, q: int)
    requires
        class_fits(def),
        enc.strings == dec.strings,
        enc.traits == dec.traits,
        enc.traits.len() < 0x0400_0000,
        enc.strings.len() + 1 + def.static_properties.len() < 0x0800_0000,
        written_at(class_head(enc, def).1, s, q),
    ensures
        spec_read_int(s, q) matches Ok((q1, length)) && length & 1 == 1 && spec_class_def(dec, s, q1, length >> 1)
            == Ok::<(Amf3State, int, ClassDefV), Error>((
                Amf3State { strings: class_head(enc, def).0.strings, traits: class_head(enc, def).0.traits, ..dec },
                q + class_head(enc, def).1.len(),
                def,
            )),
        class_head(enc, def).0 == (Amf3EncState {
            strings: class_head(enc, def).0.strings,
            traits: class_head(enc, def).0.traits,
            ..enc
        }),
        class_head(enc, def).0.strings.len() <= enc.strings.len() + 1 + def.static_properties.len(),
        class_head(enc, def).0.traits.len() <= enc.traits.len() + 1,
{
    lemma_first_trait(enc.traits, def, 0);
    let hb = class_head(enc, def).1;
    match first_trait(enc.traits, def, 0) {
        Some(t) => {
            let h = trait_ref_header(t);
            lemma_trait_ref_bits(t as u32, h);
            assert(hb == spec_write_int(h));
            lemma_read_uint_at(h, s, q);
            assert(dec.traits[t] == def);
            assert(Amf3State { strings: enc.strings, traits: enc.traits, ..dec } == dec);
        },
        None => {
            let n = def.static_properties.len() as u32;
            let e: u32 = (if def.attributes.external { 1u32 } else { 0u32 }) | (if def.attributes.dynamic { 2u32 } else { 0u32 });
            let dy = def.attributes.dynamic;
            let ex = def.attributes.external;
            assert(e < 4) by (bit_vector)
                requires
                    e == (if ex { 1u32 } else { 0u32 }) | (if dy { 2u32 } else { 0u32 }),
            ;
            let h = full_trait_header(def);
            lemma_full_trait_bits(n, e, h);
            let st2 = Amf3EncState { traits: enc.traits.push(def), ..enc };
            let (st3, b3) = enc_byte_string(st2, str_bytes(def.name));
            let (st4, b4) = enc_names(st3, def.static_properties);
            let w = spec_write_int(h);
            assert(hb =~= w + b3 + b4);
            lemma_written_part(hb, s, q, 0, w.len() as int);
            assert(hb.subrange(0, w.len() as int) =~= w);
            lemma_read_uint_at(h, s, q);
            let q1 = q + w.len();
            let length = h as u32;
            let l = (length >> 1u32) >> 1u32;
            assert(l & 3u32 == e);
            assert((l & 3u32) & 2u32 == 2u32 <==> dy) by (bit_vector)
                requires
                    l & 3u32 == e,
                    e == (if ex { 1u32 } else { 0u32 }) | (if dy { 2u32 } else { 0u32 }),
            ;
            assert((l & 3u32) & 1u32 == 1u32 <==> ex) by (bit_vector)
                requires
                    l & 3u32 == e,
                    e == (if ex { 1u32 } else { 0u32 }) | (if dy { 2u32 } else { 0u32 }),
            ;
            lemma_written_part(hb, s, q, w.len() as int, (w.len() + b3.len()) as int);
            assert(hb.subrange(w.len() as int, (w.len() + b3.len()) as int) =~= b3);
            lemma_byte_string_roundtrip(st2, dec, str_bytes(def.name), s, q1);
            encode_utf8_valid_utf8(def.name);
            encode_utf8_decode_utf8(def.name);
            let d1 = Amf3State { strings: st3.strings, ..dec };
            let p1 = q1 + b3.len();
            assert(st3.strings.len() <= enc.strings.len() + 1);
            lemma_written_part(hb, s, q, (w.len() + b3.len()) as int, hb.len() as int);
            assert(hb.subrange((w.len() + b3.len()) as int, hb.len() as int) =~= b4);
            lemma_names_back(st3, d1, def.static_properties, s, p1);
            assert(def.attributes == AttributeSet { dynamic: def.attributes.dynamic, external: def.attributes.external });
        },
    }
}

/// Each of the names `names` is the name of some property.
pub open spec fn statics_found(els: Seq<ElementV>, names: Seq<Seq<char>>) -> bool {
    forall|k: int| 0 <= k < names.len() ==> find_named(els, #[trigger] names[k], 0) is Some
}

/// The index `find_named` finds holds a property of that name.
pub(crate) proof fn lemma_find_named(els: Seq<ElementV>, name: Seq<char>, i: int)
    requires
        0 <= i,
    ensures
        find_named(els, name, i) matches Some(k) ==> i <= k < els.len() && els[k].name == name,
    decreases els.len() - i,
{
    if i < els.len() && els[i].name != name {
        lemma_find_named(els, name, i + 1);
    }
}

/// One dynamic property: a value, then the next name.
pub(crate) proof fn lemma_dynamic_entry_unfold(st: Amf3State, s: Seq<u8>, p: int, perr: int, attr: Seq<u8>)
    ensures
        spec_dynamic_entry(st, s, p, perr, attr) == (if !valid_utf8(attr) {
            Err(crate::errors::nom_err(perr, crate::errors::ErrorKind::Alpha))
        } else {
            match spec_value(st, s, p) {
                Err(e) => Err(e),
                Ok((st1, p1, v)) => match spec_byte_stream(st1, s, p1) {
                    Err(e) => Err(e),
                    Ok((st2, p2, a2)) => Ok((st2, p2, (ElementV { name: decode_utf8(attr), value: v }, a2))),
                },
            }
        }),
{
}

/// An object marker reads an object.
pub(crate) proof fn lemma_value_object(dec: Amf3State, s: Seq<u8>, p: int)
    requires
        0 <= p < s.len(),
        s[p] == 0x0a,
    ensures
        spec_value(dec, s, p) == spec_object(dec, s, p + 1),
{
}

/// An object is written as an object.
#[verifier::spinoff_prover]
pub(crate) proof fn lemma_enc_value_object(enc: Amf3EncState, v: ValueV)
    requires
        v is Object,
    ensures
        enc_value(enc, v) == enc_object(enc, v),
{
}

/// The body of an object whose class is not external is its properties.
#[verifier::spinoff_prover]
pub(crate) proof fn lemma_enc_object_body(enc: Amf3EncState, v: ValueV)
    requires
        v is Object,
        !object_class(v).attributes.external,
    ensures
        enc_object_body(enc, v, object_class(v)) == enc_props(enc, v->Object_elements, object_class(v)),
{
}

/// The head of an object: its marker, then its class part, after the object takes its slot.
#[verifier::spinoff_prover]
pub(crate) proof fn lemma_enc_object_head(enc: Amf3EncState, v: ValueV)
    requires
        v is Object,
    ensures
        enc_object_head(enc, v) == ({
            let st1 = occupied(
                enc,
                ValueV::Object { id: v->Object_id, elements: v->Object_elements, class_definition: v->Object_class_definition },
                v->Object_id.0,
                TypeMarker::Object,
            );
            (class_head(st1, object_class(v)).0, seq![0x0au8] + class_head(st1, object_class(v)).1)
        }),
{
    reveal(enc_object_head);
}

/// Writing names adds at most one string for each and changes nothing but the string table.
proof fn lemma_names_grow(enc: Amf3EncState, names: Seq<Seq<char>>)
    ensures
        enc_names(enc, names).0 == (Amf3EncState { strings: enc_names(enc, names).0.strings, ..enc }),
        enc_names(enc, names).0.strings.len() <= enc.strings.len() + names.len(),
    decreases names.len(),
{
    if names.len() > 0 {
        lemma_byte_string_grows(enc, str_bytes(names[0]));
        lemma_names_grow(enc_byte_string(enc, str_bytes(names[0])).0, names.drop_first());
    }
}

/// The class part of an object's head adds at most one string for the class name and one
/// for each property name, and at most one class.
pub(crate) proof fn lemma_class_head_grows(enc: Amf3EncState, def: ClassDefV)
    ensures
        class_head(enc, def).0 == (Amf3EncState {
            strings: class_head(enc, def).0.strings,
            traits: class_head(enc, def).0.traits,
            ..enc
        }),
        class_head(enc, def).0.strings.len() <= enc.strings.len() + 1 + def.static_properties.len(),
        class_head(enc, def).0.traits.len() <= enc.traits.len() + 1,
{
    let st2 = Amf3EncState { traits: enc.traits.push(def), ..enc };
    lemma_byte_string_grows(st2, str_bytes(def.name));
    lemma_names_grow(enc_byte_string(st2, str_bytes(def.name)).0, def.static_properties);
}

} // verus!
