//! Reading back values of externalizable classes: written and read by a user's codec, or by
//! the flex collection layouts.
use vstd::prelude::*;
use crate::errors::Error;
use crate::bytes::str_bytes;
use crate::types::{ClassDefV, ElementV, ObjectId, ValueV};
use crate::amf3::custom_encoder::{CustomDecoder, CustomEncoder, ExternalDecoder, ExternalEncoder, FlexDecoder, FlexEncoder};
use crate::amf3::read::{Amf3State, lookup_external, next_object_id, set_object, spec_value};
use crate::amf3::write::{Amf3EncState, enc_byte_string, enc_names, enc_object_body, enc_object_head, first_trait, enc_value, lemma_object_step, lookup_encoder, object_class, occupied};
use crate::amf3::type_marker::TypeMarker;
use crate::roundtrip::{lemma_written_part, written_at};
use crate::roundtrip::objects::{class_fits, class_head, lemma_class_head_back, lemma_value_object};
use crate::roundtrip::plain::{amf3_plain, lemma_plain_back, lemma_plain_writes, lemma_slots_push, lemma_slots_set, plain_back, plain_size, slots_agree};
use crate::extra::flex::write::spec_flex_encode;

verus! {

/// The slot an external value takes when written: an object with its dynamic properties.
pub open spec fn custom_slot(enc: Amf3EncState, v: ValueV) -> Amf3EncState {
    occupied(
        enc,
        ValueV::Object { id: ObjectId(-1i64), elements: v->Custom_dynamic_elements, class_definition: Some(v->Custom_class_definition) },
        -1i64,
        TypeMarker::Object,
    )
}

/// The body that a user's encoder, registered as `e`, gives the elements `els` of class `def`;
/// nothing for a flex layout.
pub open spec fn user_body(e: ExternalEncoder, els: Seq<ElementV>, def: ClassDefV) -> Seq<u8> {
    match e {
        ExternalEncoder::Custom(c) => c.spec_encode(els, def),
        ExternalEncoder::Flex(_) => Seq::empty(),
    }
}

/// What a user's decoder, registered as `d`, reads at `p` of `s`; an error for a flex layout.
pub open spec fn user_read(d: ExternalDecoder, s: Seq<u8>, p: int) -> Result<(int, Seq<ElementV>), Error> {
    match d {
        ExternalDecoder::Custom(c) => c.spec_decode(s, p),
        ExternalDecoder::Flex(_) => Err(Error::OutOfBounds),
    }
}

/// Writing names changes only the string table.
proof fn lemma_names_keep(st: Amf3EncState, names: Seq<Seq<char>>)
    ensures
        enc_names(st, names).0 == (Amf3EncState { strings: enc_names(st, names).0.strings, ..st }),
    decreases names.len(),
{
    if names.len() > 0 {
        lemma_names_keep(enc_byte_string(st, str_bytes(names[0])).0, names.drop_first());
    }
}

/// Writing a class changes only the string and trait tables.
proof fn lemma_class_head_keeps(st: Amf3EncState, def: ClassDefV)
    ensures
        class_head(st, def).0 == (Amf3EncState {
            strings: class_head(st, def).0.strings,
            traits: class_head(st, def).0.traits,
            ..st
        }),
{
    if first_trait(st.traits, def, 0) is None {
        let st2 = Amf3EncState { traits: st.traits.push(def), ..st };
        lemma_names_keep(enc_byte_string(st2, str_bytes(def.name)).0, def.static_properties);
    }
}

/// An external value is written as an object is.
#[verifier::spinoff_prover]
proof fn lemma_enc_value_custom(enc: Amf3EncState, v: ValueV)
    requires
        v is Custom,
    ensures
        enc_value(enc, v) == crate::amf3::write::enc_object(enc, v),
{
}

/// The body of an external value whose class's encoder is a user's is what that encoder gives.
#[verifier::spinoff_prover]
proof fn lemma_custom_body(st: Amf3EncState, v: ValueV, e: ExternalEncoder)
    requires
        v is Custom,
        v->Custom_class_definition.attributes.external,
        e is Custom,
        lookup_encoder(st.externals, v->Custom_class_definition.name) == Some(e),
    ensures
        enc_object_body(st, v, v->Custom_class_definition) == Ok::<(Amf3EncState, Seq<u8>), crate::errors::EncodeError>((
            st,
            user_body(e, v->Custom_elements, v->Custom_class_definition),
        )),
{
    let def = v->Custom_class_definition;
    assert(enc_object_body(st, v, def) == crate::amf3::write::enc_external(st, v, def));
}

/// An external value whose class's encoder is a user's `e` is written as its marker, its
/// class, then the body `e` gives.
#[verifier::spinoff_prover]
#[verifier::rlimit(40)]
proof fn lemma_custom_written(enc: Amf3EncState, v: ValueV, e: ExternalEncoder)
    requires
        v is Custom,
        v->Custom_class_definition.attributes.external,
        e is Custom,
        lookup_encoder(enc.externals, v->Custom_class_definition.name) == Some(e),
    ensures
        enc_value(enc, v) == Ok::<(Amf3EncState, Seq<u8>), crate::errors::EncodeError>((
            class_head(custom_slot(enc, v), v->Custom_class_definition).0,
            seq![0x0au8] + class_head(custom_slot(enc, v), v->Custom_class_definition).1
                + user_body(e, v->Custom_elements, v->Custom_class_definition),
        )),
{
    let def = v->Custom_class_definition;
    assert(object_class(v) == def);
    lemma_enc_value_custom(enc, v);
    lemma_object_step(enc, v);
    reveal(enc_object_head);
    let (eh, hb) = class_head(custom_slot(enc, v), def);
    assert(enc_object_head(enc, v) == (eh, seq![0x0au8] + hb));
    lemma_class_head_keeps(custom_slot(enc, v), def);
    lemma_custom_body(eh, v, e);
}

/// A value of an externalizable class reads back as the value it was written from, without its
/// dynamic properties, which an external body does not carry: where the class's encoder is a
/// user's (`ce`) and the decoder registered for it a user's (`cd`), and `cd` reads the body
/// that `ce` wrote, where it stands, back to the value's elements. The decoder's string and trait
/// tables end in step with the encoder's.
#[verifier::spinoff_prover]
#[verifier::rlimit(60)]
pub proof fn lemma_custom_roundtrip(
    enc: Amf3EncState,
    dec: Amf3State,
    v: ValueV,
    ce: ExternalEncoder,
    cd: ExternalDecoder,
    s: Seq<u8>,
    p: int,
)
    requires
        v is Custom,
        v->Custom_class_definition.attributes.external,
        class_fits(v->Custom_class_definition),
        enc.strings == dec.strings,
        enc.traits == dec.traits,
        enc.traits.len() < 0x0400_0000,
        enc.strings.len() + 1 + v->Custom_class_definition.static_properties.len() < 0x0800_0000,
        ce is Custom,
        cd is Custom,
        lookup_encoder(enc.externals, v->Custom_class_definition.name) == Some(ce),
        lookup_external(dec.externals, v->Custom_class_definition.name) == Some(cd),
        enc_value(enc, v) is Ok ==> written_at(enc_value(enc, v)->Ok_0.1, s, p),
        enc_value(enc, v) is Ok ==> ({
            let b = enc_value(enc, v)->Ok_0.1;
            let body = user_body(ce, v->Custom_elements, v->Custom_class_definition);
            user_read(cd, s, p + b.len() - body.len()) == Ok::<(int, Seq<ElementV>), Error>((p + b.len(), v->Custom_elements))
        }),
    ensures
        enc_value(enc, v) is Ok,
        spec_value(dec, s, p) matches Ok((d1, q, w)) && q == p + enc_value(enc, v)->Ok_0.1.len()
            && w == (ValueV::Custom {
                elements: v->Custom_elements,
                dynamic_elements: Seq::empty(),
                class_definition: v->Custom_class_definition,
            })
            && d1.strings == enc_value(enc, v)->Ok_0.0.strings && d1.traits == enc_value(enc, v)->Ok_0.0.traits,
{
    let def = v->Custom_class_definition;
    let els = v->Custom_elements;
    lemma_custom_written(enc, v, ce);
    let st1 = custom_slot(enc, v);
    let hb = class_head(st1, def).1;
    let body = user_body(ce, els, def);
    let b = seq![0x0au8] + hb + body;
    assert(enc_value(enc, v)->Ok_0.1 == b);
    lemma_written_part(b, s, p, 0, 1);
    assert(s[p] == s.subrange(p, p + 1)[0]);
    lemma_value_object(dec, s, p);
    let oid = next_object_id(dec.object_id);
    let dst1 = Amf3State {
        object_id: oid,
        objects: dec.objects.push(ValueV::Object { id: ObjectId(oid), elements: Seq::empty(), class_definition: None }),
        ..dec
    };
    lemma_written_part(b, s, p, 1, 1 + hb.len() as int);
    assert(b.subrange(1, 1 + hb.len() as int) =~= hb);
    lemma_class_head_back(st1, dst1, def, s, p + 1);
    let q2 = p + 1 + hb.len();
    assert(q2 == p + b.len() - body.len());
}

/// The body of a value of a flex collection class (an array collection or an object proxy) is
/// its first external element's value.
#[verifier::spinoff_prover]
proof fn lemma_single_body(st: Amf3EncState, v: ValueV, k: FlexEncoder)
    requires
        v is Custom,
        v->Custom_class_definition.attributes.external,
        v->Custom_elements.len() > 0,
        k == FlexEncoder::ArrayCollection || k == FlexEncoder::ObjectProxy,
        lookup_encoder(st.externals, v->Custom_class_definition.name) == Some(ExternalEncoder::Flex(k)),
    ensures
        enc_object_body(st, v, v->Custom_class_definition) == enc_value(st, v->Custom_elements[0].value),
{
    let def = v->Custom_class_definition;
    assert(enc_object_body(st, v, def) == crate::amf3::write::enc_external(st, v, def));
    assert(spec_flex_encode(st, v->Custom_elements, k) == enc_value(st, v->Custom_elements[0].value));
}

/// A value of an external class is written as its marker, its class, then its body.
#[verifier::spinoff_prover]
#[verifier::rlimit(40)]
proof fn lemma_external_written(enc: Amf3EncState, v: ValueV)
    requires
        v is Custom,
    ensures
        enc_value(enc, v) == crate::amf3::write::after(
            seq![0x0au8] + class_head(custom_slot(enc, v), v->Custom_class_definition).1,
            enc_object_body(class_head(custom_slot(enc, v), v->Custom_class_definition).0, v, v->Custom_class_definition),
        ),
        class_head(custom_slot(enc, v), v->Custom_class_definition).0.externals == enc.externals,
{
    let def = v->Custom_class_definition;
    let st1 = custom_slot(enc, v);
    assert(enc_object_head(enc, v).0 == class_head(st1, def).0
        && enc_object_head(enc, v).1 == seq![0x0au8] + class_head(st1, def).1) by {
        reveal(enc_object_head);
    }
    assert(object_class(v) == def);
    lemma_enc_value_custom(enc, v);
    lemma_object_step(enc, v);
    lemma_class_head_keeps(st1, def);
}

/// A flex collection layout reads one value, under the name it gives it.
#[verifier::spinoff_prover]
proof fn lemma_external_single(st: Amf3State, s: Seq<u8>, p: int, kd: FlexDecoder)
    requires
        kd == FlexDecoder::ArrayCollection || kd == FlexDecoder::ObjectProxy,
    ensures
        crate::extra::flex::read::spec_external_any(st, s, p, ExternalDecoder::Flex(kd)) == (match spec_value(st, s, p) {
            Err(e) => Err(e),
            Ok((st1, p1, w)) => Ok((st1, p1, seq![ElementV { name: single_name(kd), value: w }])),
        }),
{
}

/// The name a flex collection layout gives the value it reads.
pub open spec fn single_name(k: FlexDecoder) -> Seq<char> {
    if k == FlexDecoder::ArrayCollection { "data"@ } else { "object"@ }
}

/// A value of a flex collection class (an array collection or an object proxy) whose first
/// external element holds a value written inline reads back as a value of the same class
/// holding that value read back, under the name the layout gives it; the decoder's string and
/// trait tables end in step with the encoder's, and its object table with the encoder's
/// references.
#[verifier::spinoff_prover]
#[verifier::rlimit(80)]
pub proof fn lemma_flex_single_roundtrip(
    enc: Amf3EncState,
    dec: Amf3State,
    v: ValueV,
    k: FlexEncoder,
    kd: FlexDecoder,
    s: Seq<u8>,
    p: int,
)
    requires
        v is Custom,
        v->Custom_class_definition.attributes.external,
        class_fits(v->Custom_class_definition),
        v->Custom_elements.len() > 0,
        amf3_plain(v->Custom_elements[0].value),
        k == FlexEncoder::ArrayCollection || k == FlexEncoder::ObjectProxy,
        kd == FlexDecoder::ArrayCollection || kd == FlexDecoder::ObjectProxy,
        lookup_encoder(enc.externals, v->Custom_class_definition.name) == Some(ExternalEncoder::Flex(k)),
        lookup_external(dec.externals, v->Custom_class_definition.name) == Some(ExternalDecoder::Flex(kd)),
        enc.strings == dec.strings,
        enc.traits == dec.traits,
        slots_agree(enc, dec),
        enc.strings.len() + 1 + v->Custom_class_definition.static_properties.len() + plain_size(v->Custom_elements[0].value) < 0x0800_0000,
        enc.traits.len() + 1 + plain_size(v->Custom_elements[0].value) < 0x0400_0000,
        enc_value(enc, v) is Ok ==> written_at(enc_value(enc, v)->Ok_0.1, s, p),
    ensures
        enc_value(enc, v) is Ok,
        spec_value(dec, s, p) matches Ok((d1, q, w)) && q == p + enc_value(enc, v)->Ok_0.1.len()
            && w == (ValueV::Custom {
                elements: seq![ElementV {
                    name: single_name(kd),
                    value: plain_back(v->Custom_elements[0].value, next_object_id(dec.object_id)).0,
                }],
                dynamic_elements: Seq::empty(),
                class_definition: v->Custom_class_definition,
            })
            && d1.strings == enc_value(enc, v)->Ok_0.0.strings && d1.traits == enc_value(enc, v)->Ok_0.0.traits
            && slots_agree(enc_value(enc, v)->Ok_0.0, d1),
{
    let def = v->Custom_class_definition;
    let x = v->Custom_elements[0].value;
    lemma_external_written(enc, v);
    let st1 = custom_slot(enc, v);
    let eh = class_head(st1, def).0;
    let hb = class_head(st1, def).1;
    lemma_single_body(eh, v, k);
    lemma_plain_writes(eh, x);
    let xb = enc_value(eh, x)->Ok_0.1;
    let b = seq![0x0au8] + hb + xb;
    assert(enc_value(enc, v)->Ok_0.1 == b);
    lemma_written_part(b, s, p, 0, 1);
    assert(s[p] == s.subrange(p, p + 1)[0]);
    lemma_value_object(dec, s, p);
    let oid = next_object_id(dec.object_id);
    let index = dec.objects.len() as int;
    let dst1 = Amf3State {
        object_id: oid,
        objects: dec.objects.push(ValueV::Object { id: ObjectId(oid), elements: Seq::empty(), class_definition: None }),
        ..dec
    };
    lemma_slots_push(
        enc,
        dec,
        ValueV::Object { id: ObjectId(-1i64), elements: v->Custom_dynamic_elements, class_definition: Some(def) },
        -1i64,
        TypeMarker::Object,
        ValueV::Object { id: ObjectId(oid), elements: Seq::empty(), class_definition: None },
    );
    lemma_written_part(b, s, p, 1, 1 + hb.len() as int);
    assert(b.subrange(1, 1 + hb.len() as int) =~= hb);
    lemma_class_head_back(st1, dst1, def, s, p + 1);
    let q2 = p + 1 + hb.len();
    let dst2 = Amf3State { strings: eh.strings, traits: eh.traits, ..dst1 };
    let dst3 = set_object(dst2, index, ValueV::Object { id: ObjectId(oid), elements: Seq::empty(), class_definition: Some(def) });
    lemma_slots_set(eh, dec.objects, dst2, index, ValueV::Object { id: ObjectId(oid), elements: Seq::empty(), class_definition: Some(def) });
    lemma_written_part(b, s, p, 1 + hb.len() as int, b.len() as int);
    assert(b.subrange(1 + hb.len() as int, b.len() as int) =~= xb);
    lemma_plain_back(eh, dst3, x, s, q2);
    reveal(crate::roundtrip::arrays::rv3);
    lemma_external_single(dst3, s, q2, kd);
}

} // verus!
