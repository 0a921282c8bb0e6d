//! Encoding of AMF3 data.
use vstd::prelude::*;
use crate::bytes::{be32, be64, str_bytes};
use crate::errors::EncodeError;
use crate::types::{AttributeSet, ClassDefV, ElementV, EntryV, ObjectId, ValueV};
use crate::amf3::integer::spec_write_int;
use crate::amf3::length::{Length, spec_write_length};
use crate::amf3::type_marker::{TypeMarker, marker_byte};
use crate::amf3::custom_encoder::{CustomEncoder, ExternalEncoder};
use crate::amf3::element_cache::{ElementCache, first_same, lemma_first_same};
use crate::amf3::read::trait_table_view;
use crate::types::{ClassDefinition, DictionaryEntry, Element, Value, class_def_view, elements_view, entries_view, lemma_value_view_parts, strings_view, values_view};
use crate::bytes::{push_u8, push_u32, push_u64, push_all, push_str, str_len};
use crate::extra::flex::write::spec_flex_encode;

verus! {

/// The reference tables an encoder carries from one value to the next.
pub struct Amf3EncState {
    /// Byte strings written so far, each once, for string references
    pub strings: Seq<Seq<u8>>,
    /// Class definitions written so far, for trait references
    pub traits: Seq<ClassDefV>,
    /// One entry per complex value written, for object references
    pub objects: Seq<ValueV>,
    /// Object ids with the marker and object table slot they were written with; the last
    /// entry for an id counts
    pub refs: Seq<(i64, TypeMarker, int)>,
    /// The registered encoders for externalizable classes; the last entry for a name counts
    pub externals: Seq<(Seq<char>, ExternalEncoder)>,
}

/// One encoding step: the encoder state after it and the bytes written.
pub type EncStep = Result<(Amf3EncState, Seq<u8>), EncodeError>;

/// The step `r` with `b` written before its bytes.
pub open spec fn after(b: Seq<u8>, r: EncStep) -> EncStep {
    match r {
        Ok((st, bs)) => Ok((st, b + bs)),
        Err(e) => Err(e),
    }
}

/// The last entry for object id `id`.
pub open spec fn lookup_ref(refs: Seq<(i64, TypeMarker, int)>, id: i64) -> Option<(TypeMarker, int)>
    decreases refs.len(),
{
    if refs.len() == 0 {
        None
    } else if refs.last().0 == id {
        Some((refs.last().1, refs.last().2))
    } else {
        lookup_ref(refs.drop_last(), id)
    }
}

/// The last encoder registered for the class `name`.
pub open spec fn lookup_encoder(ext: Seq<(Seq<char>, ExternalEncoder)>, name: Seq<char>) -> Option<ExternalEncoder>
    decreases ext.len(),
{
    if ext.len() == 0 {
        None
    } else if ext.last().0 == name {
        Some(ext.last().1)
    } else {
        lookup_encoder(ext.drop_last(), name)
    }
}

/// The state with `v` put in the next slot of the object table, and that slot remembered for
/// the id `id` with the marker `m` unless the id is the invalid one.
pub open spec fn occupied(st: Amf3EncState, v: ValueV, id: i64, m: TypeMarker) -> Amf3EncState {
    let slot = st.objects.len() as int;
    Amf3EncState {
        objects: st.objects.push(v),
        refs: if id != -1 { st.refs.push((id, m, slot)) } else { st.refs },
        ..st
    }
}

/// Writing a byte string: the empty one as size zero; one written before as a reference to
/// it; otherwise its size and bytes, remembered in the string table.
pub open spec fn enc_byte_string(st: Amf3EncState, b: Seq<u8>) -> (Amf3EncState, Seq<u8>) {
    if b.len() == 0 {
        (st, spec_write_length(Length::Size(0)))
    } else {
        match first_same::<Vec<u8>>(st.strings, b, 0) {
            Some(i) => (st, spec_write_length(Length::Reference(i as usize))),
            None => (
                Amf3EncState { strings: st.strings.push(b), ..st },
                spec_write_length(Length::Size(b.len() as u32)) + b,
            ),
        }
    }
}

/// The big-endian bytes of a sequence of `u32`s.
pub open spec fn be32s(xs: Seq<u32>) -> Seq<u8>
    decreases xs.len(),
{
    if xs.len() == 0 {
        Seq::empty()
    } else {
        be32s(xs.drop_last()) + be32(xs.last())
    }
}

/// The big-endian bytes of a sequence of `u64`s.
pub open spec fn be64s(xs: Seq<u64>) -> Seq<u8>
    decreases xs.len(),
{
    if xs.len() == 0 {
        Seq::empty()
    } else {
        be64s(xs.drop_last()) + be64(xs.last())
    }
}

/// The class definition of an object that has none.
pub open spec fn default_class_def() -> ClassDefV {
    ClassDefV {
        name: Seq::empty(),
        attributes: AttributeSet { dynamic: false, external: false },
        static_properties: Seq::empty(),
    }
}

/// The index of the first class definition at or after `i` equal to `def`.
pub open spec fn first_trait(traits: Seq<ClassDefV>, def: ClassDefV, i: int) -> Option<int>
    decreases traits.len() - i,
{
    if i < 0 || i >= traits.len() {
        None
    } else if traits[i] == def {
        Some(i)
    } else {
        first_trait(traits, def, i + 1)
    }
}

/// The index of the first element at or after `i` named `name`.
pub open spec fn find_named(els: Seq<ElementV>, name: Seq<char>, i: int) -> Option<int>
    decreases els.len() - i,
{
    if i < 0 || i >= els.len() {
        None
    } else if els[i].name == name {
        Some(i)
    } else {
        find_named(els, name, i + 1)
    }
}

/// The U29 header of an object whose traits are the definition at index `t`.
pub open spec fn trait_ref_header(t: int) -> i32 {
    ((((t as u32) << 1u32) << 1u32) | 1u32) as i32
}

/// The U29 header of an object whose traits `def` are written in full.
pub open spec fn full_trait_header(def: ClassDefV) -> i32 {
    let enc: u32 = (if def.attributes.external { 1u32 } else { 0u32 }) | (if def.attributes.dynamic { 2u32 } else { 0u32 });
    (((((((def.static_properties.len() as u32) << 2u32) | enc) << 1u32) | 1u32) << 1u32) | 1u32) as i32
}

/// Writing one value.
pub open spec fn enc_value(st: Amf3EncState, v: ValueV) -> EncStep
    decreases v, 9int, 0int,
{
    match v {
        ValueV::Number(x) => Ok((st, seq![0x05u8] + be64(x))),
        ValueV::Bool(b) => Ok((st, seq![if b { 0x03u8 } else { 0x02u8 }])),
        ValueV::String(s) => {
            let (st1, bs) = enc_byte_string(st, str_bytes(s));
            Ok((st1, seq![0x06u8] + bs))
        },
        ValueV::Object { .. } => enc_object(st, v),
        ValueV::Null => Ok((st, seq![0x01u8])),
        ValueV::Undefined => Ok((st, seq![0x00u8])),
        ValueV::ECMAArray { id, dense, elements, length } => {
            let st1 = occupied(st, v, id.0, TypeMarker::Array);
            after(
                seq![0x09u8] + spec_write_length(Length::Size(dense.len() as u32)),
                match enc_assoc(st1, elements) {
                    Err(e) => Err(e),
                    Ok((st2, b2)) => {
                        let (st3, b3) = enc_byte_string(st2, Seq::empty());
                        after(b2 + b3, enc_values(st3, dense))
                    },
                },
            )
        },
        ValueV::StrictArray { id, values } => {
            let st1 = occupied(st, v, id.0, TypeMarker::Array);
            let (st2, b2) = enc_byte_string(st1, Seq::empty());
            after(seq![0x09u8] + spec_write_length(Length::Size(values.len() as u32)) + b2, enc_values(st2, values))
        },
        ValueV::Date { time, timezone_or_utc } => {
            let st1 = occupied(st, ValueV::Date { time, timezone_or_utc: None }, -1i64, TypeMarker::Date);
            Ok((st1, seq![0x08u8] + spec_write_length(Length::Size(0)) + be64(time)))
        },
        ValueV::Unsupported => Ok((st, seq![0x00u8])),
        ValueV::XML { value, is_string } => {
            let st1 = occupied(st, v, -1i64, TypeMarker::Xml);
            let b = str_bytes(value);
            Ok((st1, seq![if is_string { 0x0bu8 } else { 0x07u8 }] + spec_write_length(Length::Size(b.len() as u32)) + b))
        },
        ValueV::AMF3(e) => enc_value(st, *e),
        ValueV::Integer(i) => Ok((st, seq![0x04u8] + spec_write_int(i))),
        ValueV::ByteArray(b) => {
            let st1 = occupied(st, v, -1i64, TypeMarker::ByteArray);
            Ok((st1, seq![0x0cu8] + spec_write_length(Length::Size(b.len() as u32)) + b))
        },
        ValueV::VectorInt { values, fixed_length } => {
            let st1 = occupied(st, v, -1i64, TypeMarker::VectorInt);
            Ok((st1, seq![0x0du8] + spec_write_length(Length::Size(values.len() as u32))
                + seq![if fixed_length { 1u8 } else { 0u8 }] + be32s(values.map_values(|x: i32| x as u32))))
        },
        ValueV::VectorUInt { values, fixed_length } => {
            let st1 = occupied(st, v, -1i64, TypeMarker::VectorUInt);
            Ok((st1, seq![0x0eu8] + spec_write_length(Length::Size(values.len() as u32))
                + seq![if fixed_length { 1u8 } else { 0u8 }] + be32s(values)))
        },
        ValueV::VectorDouble { values, fixed_length } => {
            let st1 = occupied(st, v, -1i64, TypeMarker::VectorDouble);
            Ok((st1, seq![0x0fu8] + spec_write_length(Length::Size(values.len() as u32))
                + seq![if fixed_length { 1u8 } else { 0u8 }] + be64s(values)))
        },
        ValueV::VectorObject { id, values, object_type_name, fixed_length } => {
            let st1 = occupied(st, v, id.0, TypeMarker::VectorObject);
            let (st2, b2) = enc_byte_string(st1, str_bytes(object_type_name));
            after(
                seq![0x10u8] + spec_write_length(Length::Size(values.len() as u32))
                    + seq![if fixed_length { 1u8 } else { 0u8 }] + b2,
                enc_values(st2, values),
            )
        },
        ValueV::Dictionary { id, elements, weak_keys } => {
            let st1 = occupied(st, v, id.0, TypeMarker::Dictionary);
            after(
                seq![0x11u8] + spec_write_length(Length::Size(elements.len() as u32))
                    + seq![if weak_keys { 1u8 } else { 0u8 }],
                enc_entries(st1, elements),
            )
        },
        ValueV::Custom { .. } => enc_object(st, v),
        ValueV::Reference(_) => Err(EncodeError::Amf0Reference),
        ValueV::Amf3ObjectReference(id) => match lookup_ref(st.refs, id.0) {
            None => Err(EncodeError::UnresolvableReference(id.0)),
            Some((m, r)) => Ok((st, seq![marker_byte(m)] + spec_write_int(((r as u32) << 1u32) as i32))),
        },
    }
}

/// Writing values one after the other.
pub open spec fn enc_values(st: Amf3EncState, vs: Seq<ValueV>) -> EncStep
    decreases vs, 0int, 0int,
{
    if vs.len() == 0 {
        Ok((st, Seq::empty()))
    } else {
        match enc_value(st, vs[0]) {
            Err(e) => Err(e),
            Ok((st1, b1)) => after(b1, enc_values(st1, vs.subrange(1, vs.len() as int))),
        }
    }
}

/// Writing key-value pairs one after the other.
pub open spec fn enc_entries(st: Amf3EncState, es: Seq<EntryV>) -> EncStep
    decreases es, 0int, 0int,
{
    if es.len() == 0 {
        Ok((st, Seq::empty()))
    } else {
        match enc_value(st, es[0].key) {
            Err(e) => Err(e),
            Ok((st1, b1)) => match enc_value(st1, es[0].value) {
                Err(e) => Err(e),
                Ok((st2, b2)) => after(b1 + b2, enc_entries(st2, es.subrange(1, es.len() as int))),
            },
        }
    }
}

/// Writing named elements one after the other: each name as a byte string, then its value.
pub open spec fn enc_assoc(st: Amf3EncState, els: Seq<ElementV>) -> EncStep
    decreases els, 0int, 0int,
{
    if els.len() == 0 {
        Ok((st, Seq::empty()))
    } else {
        let (st1, b1) = enc_byte_string(st, str_bytes(els[0].name));
        match enc_value(st1, els[0].value) {
            Err(e) => Err(e),
            Ok((st2, b2)) => after(b1 + b2, enc_assoc(st2, els.subrange(1, els.len() as int))),
        }
    }
}

/// Writing the values of the static properties `names`, each the value of the first child of
/// that name.
pub open spec fn enc_static(st: Amf3EncState, children: Seq<ElementV>, names: Seq<Seq<char>>) -> EncStep
    decreases children, 2int, names.len(),
{
    if names.len() == 0 {
        Ok((st, Seq::empty()))
    } else {
        match find_named(children, names[0], 0) {
            None => Err(EncodeError::MissingStaticProperty),
            Some(i) => {
                if 0 <= i < children.len() {
                    match enc_value(st, children[i].value) {
                        Err(e) => Err(e),
                        Ok((st1, b1)) => after(b1, enc_static(st1, children, names.drop_first())),
                    }
                } else {
                    Err(EncodeError::MissingStaticProperty)
                }
            },
        }
    }
}

/// Writing the children from `i` on whose names are not static properties, each as its name
/// and value, then the empty name.
pub open spec fn enc_dynamic(st: Amf3EncState, children: Seq<ElementV>, statics: Seq<Seq<char>>, i: int) -> EncStep
    decreases children, 2int, children.len() - i,
{
    if i < 0 || i >= children.len() {
        let (st1, b1) = enc_byte_string(st, Seq::empty());
        Ok((st1, b1))
    } else if statics.contains(children[i].name) {
        enc_dynamic(st, children, statics, i + 1)
    } else {
        let (st1, b1) = enc_byte_string(st, str_bytes(children[i].name));
        match enc_value(st1, children[i].value) {
            Err(e) => Err(e),
            Ok((st2, b2)) => after(b1 + b2, enc_dynamic(st2, children, statics, i + 1)),
        }
    }
}

/// Writing the properties of an object of class `def`: the static ones in the order of the
/// class, then the dynamic ones if the class is dynamic.
pub open spec fn enc_props(st: Amf3EncState, children: Seq<ElementV>, def: ClassDefV) -> EncStep
    decreases children, 3int, 0int,
{
    match enc_static(st, children, def.static_properties) {
        Err(e) => Err(e),
        Ok((st1, b1)) => {
            if def.attributes.dynamic {
                after(b1, enc_dynamic(st1, children, def.static_properties, 0))
            } else {
                Ok((st1, b1))
            }
        },
    }
}

/// Writing the static property names of a class definition as strings.
pub open spec fn enc_names(st: Amf3EncState, names: Seq<Seq<char>>) -> (Amf3EncState, Seq<u8>)
    decreases names.len(),
{
    if names.len() == 0 {
        (st, Seq::empty())
    } else {
        let (st1, b1) = enc_byte_string(st, str_bytes(names[0]));
        let (st2, b2) = enc_names(st1, names.drop_first());
        (st2, b1 + b2)
    }
}

/// The id, children, external elements and class definition of an object or external value.
pub open spec fn object_parts(v: ValueV) -> (ObjectId, Seq<ElementV>, Option<Seq<ElementV>>, Option<ClassDefV>) {
    match v {
        ValueV::Object { id, elements, class_definition } => (id, elements, None, class_definition),
        ValueV::Custom { elements, dynamic_elements, class_definition } => (
            ObjectId(-1i64),
            dynamic_elements,
            Some(elements),
            Some(class_definition),
        ),
        _ => (ObjectId(-1i64), Seq::empty(), None, None),
    }
}

/// Writing the external body of a value `v` of the external class `def`: through the encoder
/// last registered for the class, which writes the external elements of `v`.
pub open spec fn enc_external(st: Amf3EncState, v: ValueV, def: ClassDefV) -> EncStep
    decreases v, 6int, 1int,
{
    match lookup_encoder(st.externals, def.name) {
        None => Err(EncodeError::NoExternalEncoder),
        Some(enc) => match v {
            ValueV::Custom { elements, .. } => match enc {
                ExternalEncoder::Flex(kind) => spec_flex_encode(st, elements, kind),
                ExternalEncoder::Custom(c) => Ok((st, c.spec_encode(elements, def))),
            },
            _ => Err(EncodeError::NoExternalElements),
        },
    }
}

/// Writing the body of an object or external value `v` of class `def`: through the class's
/// registered encoder if the class is external, else its properties.
pub open spec fn enc_object_body(st: Amf3EncState, v: ValueV, def: ClassDefV) -> EncStep
    decreases v, 7int, 0int,
{
    if def.attributes.external {
        enc_external(st, v, def)
    } else {
        match v {
            ValueV::Object { elements, .. } => enc_props(st, elements, def),
            ValueV::Custom { dynamic_elements, .. } => enc_props(st, dynamic_elements, def),
            _ => Ok((st, Seq::empty())),
        }
    }
}

/// The class definition an object or external value is written with: its own, or the
/// anonymous sealed class if it has none.
pub open spec fn object_class(v: ValueV) -> ClassDefV {
    match object_parts(v).3 {
        Some(c) => c,
        None => default_class_def(),
    }
}

/// Writing the head of an object or external value: it takes the next slot of the object
/// table; its marker, then its class written as a reference to an equal class written before,
/// or in full and remembered.
#[verifier::opaque]
pub open spec fn enc_object_head(st: Amf3EncState, v: ValueV) -> (Amf3EncState, Seq<u8>) {
    let (id, children, custom, cd) = object_parts(v);
    let st1 = occupied(
        st,
        ValueV::Object { id, elements: children, class_definition: cd },
        id.0,
        TypeMarker::Object,
    );
    let def = object_class(v);
    match first_trait(st1.traits, def, 0) {
        Some(t) => (st1, seq![0x0au8] + spec_write_int(trait_ref_header(t))),
        None => {
            let st2 = Amf3EncState { traits: st1.traits.push(def), ..st1 };
            let (st3, b3) = enc_byte_string(st2, str_bytes(def.name));
            let (st4, b4) = enc_names(st3, def.static_properties);
            (st4, seq![0x0au8] + spec_write_int(full_trait_header(def)) + b3 + b4)
        },
    }
}

/// Writing an object or external value: its head, then its body.
pub open spec fn enc_object(st: Amf3EncState, v: ValueV) -> EncStep
    decreases v, 8int, 0int,
{
    let (st1, h) = enc_object_head(st, v);
    after(h, enc_object_body(st1, v, object_class(v)))
}

/// Writing an object is writing its head, then its body.
pub proof fn lemma_object_step(st: Amf3EncState, v: ValueV)
    ensures
        enc_object(st, v) == after(enc_object_head(st, v).1, enc_object_body(enc_object_head(st, v).0, v, object_class(v))),
{
}

/// Writing one named element: the name as a string, then the value.
pub open spec fn enc_element(st: Amf3EncState, el: ElementV) -> EncStep {
    let (st1, b1) = enc_byte_string(st, str_bytes(el.name));
    after(b1, enc_value(st1, el.value))
}

/// Writing an AMF3 body: each element followed by a padding byte.
pub open spec fn enc_body(st: Amf3EncState, els: Seq<ElementV>) -> EncStep
    decreases els.len(),
{
    if els.len() == 0 {
        Ok((st, Seq::empty()))
    } else {
        match enc_element(st, els[0]) {
            Err(e) => Err(e),
            Ok((st1, b1)) => after(b1 + seq![0u8], enc_body(st1, els.drop_first())),
        }
    }
}

} // verus!

verus! {

/// The contents of a registry of external encoders.
pub open spec fn encoders_view(t: Seq<(String, ExternalEncoder)>) -> Seq<(Seq<char>, ExternalEncoder)> {
    Seq::new(t.len(), |i: int| (t[i].0@, t[i].1))
}

/// The contents of a table of object references.
pub open spec fn refs_view(t: Seq<(i64, TypeMarker, usize)>) -> Seq<(i64, TypeMarker, int)> {
    Seq::new(t.len(), |i: int| (t[i].0, t[i].1, t[i].2 as int))
}

/// Handles encoding AMF3
pub struct AMF3Encoder {
    /// The table used to cache repeated byte strings
    string_reference_table: ElementCache<Vec<u8>>,
    /// The table used to cache repeated trait definitions
    trait_reference_table: Vec<ClassDefinition>,
    /// The table used to cache repeated objects
    object_reference_table: ElementCache<Value>,
    /// Encoders used for handling externalized types, by class name; the last one for a name counts
    pub external_encoders: Vec<(String, ExternalEncoder)>,
    /// The marker and object table slot each object id was written with; the last one for an id counts
    object_id_to_reference: Vec<(i64, TypeMarker, usize)>,
}

impl AMF3Encoder {
    /// The tables of this encoder.
    pub closed spec fn state(&self) -> Amf3EncState {
        Amf3EncState {
            strings: self.string_reference_table.contents(),
            traits: trait_table_view(self.trait_reference_table@),
            objects: self.object_reference_table.contents(),
            refs: refs_view(self.object_id_to_reference@),
            externals: encoders_view(self.external_encoders@),
        }
    }

    /// The state of an encoder with empty tables and no external encoders.
    pub open spec fn new_state() -> Amf3EncState {
        Amf3EncState {
            strings: Seq::empty(),
            traits: Seq::empty(),
            objects: Seq::empty(),
            refs: Seq::empty(),
            externals: Seq::empty(),
        }
    }

    /// An encoder with empty tables and no external encoders.
    pub fn new() -> (r: AMF3Encoder)
        ensures
            r.state() == AMF3Encoder::new_state(),
    {
        let r = AMF3Encoder {
            string_reference_table: ElementCache::new(),
            trait_reference_table: Vec::new(),
            object_reference_table: ElementCache::new(),
            external_encoders: Vec::new(),
            object_id_to_reference: Vec::new(),
        };
        assert(r.state().traits =~= Seq::<ClassDefV>::empty());
        assert(r.state().refs =~= Seq::<(i64, TypeMarker, int)>::empty());
        assert(r.state().externals =~= Seq::<(Seq<char>, ExternalEncoder)>::empty());
        r
    }

    /// Register `encoder` for the externalizable class `name`; it replaces any encoder
    /// registered for that name before.
    pub fn register_external(&mut self, name: String, encoder: ExternalEncoder)
        ensures
            final(self).state() == (Amf3EncState {
                externals: old(self).state().externals.push((name@, encoder)),
                ..old(self).state()
            }),
    {
        let ghost st0 = self.state();
        let ghost nm = name@;
        self.external_encoders.push((name, encoder));
        assert(self.state().externals =~= st0.externals.push((nm, encoder)));
    }

    /// The last encoder registered for the class `name`.
    fn find_encoder(&self, name: &String) -> (r: Option<usize>)
        ensures
            match lookup_encoder(self.state().externals, name@) {
                Some(e) => r matches Some(i) && i < self.external_encoders@.len() && self.external_encoders@[i as int].1 == e,
                None => r is None,
            },
    {
        let ghost ext = self.state().externals;
        let mut i: usize = self.external_encoders.len();
        assert(ext.subrange(0, i as int) =~= ext);
        while i > 0
            invariant
                i <= self.external_encoders@.len(),
                ext == encoders_view(self.external_encoders@),
                lookup_encoder(ext, name@) == lookup_encoder(ext.subrange(0, i as int), name@),
            decreases i,
        {
            let ghost pre = ext.subrange(0, i as int);
            assert(pre.drop_last() =~= ext.subrange(0, i - 1));
            if self.external_encoders[i - 1].0 == *name {
                return Some(i - 1);
            }
            i -= 1;
        }
        None
    }

    /// The last slot and marker an object id was written with.
    fn find_reference(&self, id: i64) -> (r: Option<(TypeMarker, usize)>)
        ensures
            match lookup_ref(self.state().refs, id) {
                Some((m, slot)) => r matches Some((m2, s2)) && m2 == m && s2 == slot,
                None => r is None,
            },
    {
        let ghost refs = self.state().refs;
        let mut i: usize = self.object_id_to_reference.len();
        assert(refs.subrange(0, i as int) =~= refs);
        while i > 0
            invariant
                i <= self.object_id_to_reference@.len(),
                refs == refs_view(self.object_id_to_reference@),
                lookup_ref(refs, id) == lookup_ref(refs.subrange(0, i as int), id),
            decreases i,
        {
            let ghost pre = refs.subrange(0, i as int);
            assert(pre.drop_last() =~= refs.subrange(0, i - 1));
            let (rid, m, slot) = self.object_id_to_reference[i - 1];
            if rid == id {
                return Some((m, slot));
            }
            i -= 1;
        }
        None
    }

    /// Write an unsigned or signed U29.
    pub fn write_int(&self, out: &mut Vec<u8>, i: i32)
        ensures
            final(out)@ == old(out)@ + spec_write_int(i),
    {
        let n = if i < 0 { i + 0x2000_0000 } else { i };
        let ghost o = old(out)@;
        if n > 0x1f_ffff {
            push_u8(out, ((n >> 22) | 0x80) as u8);
            push_u8(out, ((n >> 15) | 0x80) as u8);
            push_u8(out, ((n >> 8) | 0x80) as u8);
            push_u8(out, (n & 0xff) as u8);
        } else if n > 0x3fff {
            push_u8(out, ((n >> 14) | 0x80) as u8);
            push_u8(out, ((n >> 7) | 0x80) as u8);
            push_u8(out, (n & 0x7f) as u8);
        } else if n > 0x7f {
            push_u8(out, ((n >> 7) | 0x80) as u8);
            push_u8(out, (n & 0x7f) as u8);
        } else {
            push_u8(out, (n & 0x7f) as u8);
        }
        assert(out@ =~= o + spec_write_int(i));
    }

    /// Write a size or reference header.
    fn write_length(&self, out: &mut Vec<u8>, l: Length)
        ensures
            final(out)@ == old(out)@ + spec_write_length(l),
    {
        match l {
            Length::Size(x) => self.write_int(out, ((x << 1) | 1) as i32),
            Length::Reference(x) => self.write_int(out, (x << 1) as i32),
        }
    }

    /// Write a byte string.
    fn write_byte_string(&mut self, out: &mut Vec<u8>, s: &[u8])
        ensures
            final(self).state() == enc_byte_string(old(self).state(), s@).0,
            final(out)@ == old(out)@ + enc_byte_string(old(self).state(), s@).1,
            final(self).state().objects == old(self).state().objects,
            final(self).state().refs == old(self).state().refs,
            final(self).state().traits == old(self).state().traits,
            final(self).state().externals == old(self).state().externals,
    {
        let ghost st0 = self.state();
        let ghost o = old(out)@;
        if s.len() == 0 {
            self.write_length(out, Length::Size(0));
            return;
        }
        let mut v: Vec<u8> = Vec::new();
        push_all(&mut v, s);
        assert(v@ =~= s@);
        let len = self.string_reference_table.to_length_store(v, s.len() as u32);
        proof { lemma_first_same::<Vec<u8>>(st0.strings, s@, 0); }
        self.write_length(out, len);
        if len.is_size() {
            push_all(out, s);
        }
        proof {
            assert(self.state().strings == enc_byte_string(st0, s@).0.strings);
            assert(self.state().traits =~= st0.traits);
            assert(self.state().refs =~= st0.refs);
            assert(self.state().externals =~= st0.externals);
        }
    }
}

} // verus!


verus! {

/// What a write's outcome tells of its encoding step: on success the step is that success
/// with the bytes appended; on failure the step fails the same way.
pub proof fn lemma_wrote(r: Result<(), EncodeError>, step: EncStep, st: Amf3EncState, o1: Seq<u8>, o0: Seq<u8>)
    requires
        wrote(r, step, st, o1, o0),
    ensures
        r is Ok ==> o0.len() <= o1.len() && o1 =~= o0 + o1.subrange(o0.len() as int, o1.len() as int)
            && step == Ok::<(Amf3EncState, Seq<u8>), EncodeError>((st, o1.subrange(o0.len() as int, o1.len() as int))),
        r matches Err(e) ==> step == Err::<(Amf3EncState, Seq<u8>), EncodeError>(e),
{
    if let Ok((st2, b)) = step {
        assert(o1.subrange(o0.len() as int, o1.len() as int) =~= b);
    }
}

/// One step of writing values.
pub proof fn lemma_values_step(st: Amf3EncState, vs: Seq<ValueV>)
    requires
        vs.len() > 0,
    ensures
        enc_values(st, vs) == match enc_value(st, vs[0]) {
            Err(e) => Err(e),
            Ok((st1, b1)) => after(b1, enc_values(st1, vs.subrange(1, vs.len() as int))),
        },
{
}

/// One step of writing key-value pairs.
pub proof fn lemma_entries_step(st: Amf3EncState, es: Seq<EntryV>)
    requires
        es.len() > 0,
    ensures
        enc_entries(st, es) == match enc_value(st, es[0].key) {
            Err(e) => Err(e),
            Ok((st1, b1)) => match enc_value(st1, es[0].value) {
                Err(e) => Err(e),
                Ok((st2, b2)) => after(b1 + b2, enc_entries(st2, es.subrange(1, es.len() as int))),
            },
        },
{
}

/// One step of writing named elements.
pub proof fn lemma_assoc_step(st: Amf3EncState, els: Seq<ElementV>)
    requires
        els.len() > 0,
    ensures
        enc_assoc(st, els) == ({
            let (st1, b1) = enc_byte_string(st, str_bytes(els[0].name));
            match enc_value(st1, els[0].value) {
                Err(e) => Err(e),
                Ok((st2, b2)) => after(b1 + b2, enc_assoc(st2, els.subrange(1, els.len() as int))),
            }
        }),
{
}

/// One step of writing static property values.
pub proof fn lemma_static_step(st: Amf3EncState, children: Seq<ElementV>, names: Seq<Seq<char>>, i: int)
    requires
        names.len() > 0,
        find_named(children, names[0], 0) == Some(i),
        0 <= i < children.len(),
    ensures
        enc_static(st, children, names) == match enc_value(st, children[i].value) {
            Err(e) => Err(e),
            Ok((st1, b1)) => after(b1, enc_static(st1, children, names.drop_first())),
        },
{
}

/// One step of writing dynamic properties, for a child that is not static.
pub proof fn lemma_dynamic_step(st: Amf3EncState, children: Seq<ElementV>, statics: Seq<Seq<char>>, i: int)
    requires
        0 <= i < children.len(),
        !statics.contains(children[i].name),
    ensures
        enc_dynamic(st, children, statics, i) == ({
            let (st1, b1) = enc_byte_string(st, str_bytes(children[i].name));
            match enc_value(st1, children[i].value) {
                Err(e) => Err(e),
                Ok((st2, b2)) => after(b1 + b2, enc_dynamic(st2, children, statics, i + 1)),
            }
        }),
{
}

/// One step of writing a body.
pub proof fn lemma_body_step(st: Amf3EncState, els: Seq<ElementV>)
    requires
        els.len() > 0,
    ensures
        enc_body(st, els) == match enc_element(st, els[0]) {
            Err(e) => Err(e),
            Ok((st1, b1)) => after(b1 + seq![0u8], enc_body(st1, els.drop_first())),
        },
{
}

} // verus!

verus! {

/// The result `r` of a write, the encoder state `st` and the output `o1` after it, and the
/// output `o0` before it agree with the encoding step `step`.
pub open spec fn wrote(r: Result<(), EncodeError>, step: EncStep, st: Amf3EncState, o1: Seq<u8>, o0: Seq<u8>) -> bool {
    match step {
        Ok((st2, b)) => r is Ok && st == st2 && o1 == o0 + b,
        Err(e) => r == Err::<(), EncodeError>(e),
    }
}

/// Append the big-endian bytes of `xs`.
fn push_be32s(out: &mut Vec<u8>, xs: &Vec<u32>)
    ensures
        final(out)@ == old(out)@ + be32s(xs@),
{
    let mut i: usize = 0;
    while i < xs.len()
        invariant
            i <= xs@.len(),
            out@ == old(out)@ + be32s(xs@.subrange(0, i as int)),
        decreases xs.len() - i,
    {
        push_u32(out, xs[i]);
        proof {
            let sub = xs@.subrange(0, i + 1);
            assert(sub.drop_last() =~= xs@.subrange(0, i as int));
        }
        i += 1;
    }
    assert(xs@.subrange(0, i as int) =~= xs@);
}

/// Append the big-endian bytes of `xs`, each as its bits.
fn push_be_i32s(out: &mut Vec<u8>, xs: &Vec<i32>)
    ensures
        final(out)@ == old(out)@ + be32s(xs@.map_values(|x: i32| x as u32)),
{
    let ghost m = xs@.map_values(|x: i32| x as u32);
    let mut i: usize = 0;
    while i < xs.len()
        invariant
            i <= xs@.len(),
            m == xs@.map_values(|x: i32| x as u32),
            out@ == old(out)@ + be32s(m.subrange(0, i as int)),
        decreases xs.len() - i,
    {
        push_u32(out, xs[i] as u32);
        proof {
            let sub = m.subrange(0, i + 1);
            assert(sub.drop_last() =~= m.subrange(0, i as int));
        }
        i += 1;
    }
    assert(m.subrange(0, i as int) =~= m);
}

/// Append the big-endian bytes of `xs`.
fn push_be64s(out: &mut Vec<u8>, xs: &Vec<u64>)
    ensures
        final(out)@ == old(out)@ + be64s(xs@),
{
    let mut i: usize = 0;
    while i < xs.len()
        invariant
            i <= xs@.len(),
            out@ == old(out)@ + be64s(xs@.subrange(0, i as int)),
        decreases xs.len() - i,
    {
        push_u64(out, xs[i]);
        proof {
            let sub = xs@.subrange(0, i + 1);
            assert(sub.drop_last() =~= xs@.subrange(0, i as int));
        }
        i += 1;
    }
    assert(xs@.subrange(0, i as int) =~= xs@);
}

/// The index of the first element of `els` named `name`.
pub fn find_element(els: &Vec<Element>, name: &String) -> (r: Option<usize>)
    ensures
        match find_named(elements_view(els@), name@, 0) {
            Some(i) => r matches Some(j) && j == i,
            None => r is None,
        },
        r matches Some(j) ==> j < els@.len(),
{
    let ghost ev = elements_view(els@);
    let mut i: usize = 0;
    while i < els.len()
        invariant
            i <= els@.len(),
            ev == elements_view(els@),
            find_named(ev, name@, 0) == find_named(ev, name@, i as int),
        decreases els.len() - i,
    {
        if els[i].name == *name {
            return Some(i);
        }
        i += 1;
    }
    None
}

/// Whether `names` holds `name`.
fn holds_name(names: &Vec<String>, name: &String) -> (r: bool)
    ensures
        r == strings_view(names@).contains(name@),
{
    let ghost nv = strings_view(names@);
    let mut i: usize = 0;
    while i < names.len()
        invariant
            i <= names@.len(),
            nv == strings_view(names@),
            forall|j: int| 0 <= j < i ==> nv[j] != name@,
        decreases names.len() - i,
    {
        if names[i] == *name {
            assert(nv[i as int] == name@);
            return true;
        }
        i += 1;
    }
    false
}

impl AMF3Encoder {
    /// Put `v` in the next slot of the object table, and remember that slot for the id `id`
    /// with the marker `m` unless the id is the invalid one.
    fn occupy(&mut self, v: Value, id: i64, m: TypeMarker)
        ensures
            final(self).state() == occupied(old(self).state(), v@, id, m),
    {
        let ghost st0 = self.state();
        let slot = self.object_reference_table.occupy(v);
        if id != -1 {
            self.object_id_to_reference.push((id, m, slot));
        }
        proof {
            assert(self.state().refs =~= occupied(st0, v@, id, m).refs);
            assert(self.state().traits =~= st0.traits);
            assert(self.state().externals =~= st0.externals);
        }
    }

    /// Write a value that holds no other values and takes no slot of the object table.
    fn write_scalar(&mut self, out: &mut Vec<u8>, v: &Value) -> (r: Result<(), EncodeError>)
        requires
            v is Number || v is Bool || v is String || v is Null || v is Undefined || v is Unsupported
                || v is Integer || v is Reference || v is Amf3ObjectReference,
        ensures
            wrote(r, enc_value(old(self).state(), v@), final(self).state(), final(out)@, old(out)@),
            r is Err ==> final(out)@ == old(out)@ && final(self).state() == old(self).state(),
    {
        let ghost o = old(out)@;
        let ghost st0 = self.state();
        match v {
            Value::Number(x) => {
                push_u8(out, 0x05);
                let ghost o1 = out@;
                push_u64(out, *x);
                assert(o1 == o.push(0x05u8));
                assert(out@ == o1 + crate::bytes::be64(*x));
                assert(out@ =~= o + (seq![0x05u8] + crate::bytes::be64(*x)));
                assert(v@ == ValueV::Number(*x));
                assert(wrote(Ok(()), enc_value(st0, v@), self.state(), out@, o));
                Ok(())
            },
            Value::Bool(b) => {
                push_u8(out, if *b { 0x03 } else { 0x02 });
                assert(out@ =~= o + seq![if *b { 0x03 } else { 0x02 }]);
                assert(wrote(Ok(()), enc_value(st0, v@), self.state(), out@, o));
                Ok(())
            },
            Value::String(x) => {
                push_u8(out, 0x06);
                let ghost o1 = out@;
                let bs = x.as_str().as_bytes();
                assert(bs@ == str_bytes(x@));
                self.write_byte_string(out, bs);
                let ghost eb = enc_byte_string(st0, str_bytes(x@));
                assert(out@ == o1 + eb.1);
                assert(out@ =~= o + (seq![0x06u8] + eb.1));
                assert(wrote(Ok(()), enc_value(st0, v@), self.state(), out@, o));
                Ok(())
            },
            Value::Null => {
                push_u8(out, 0x01);
                assert(out@ =~= o + seq![0x01]);
                assert(wrote(Ok(()), enc_value(st0, v@), self.state(), out@, o));
                Ok(())
            },
            Value::Integer(i) => {
                push_u8(out, 0x04);
                self.write_int(out, *i);
                assert(out@ =~= o + (seq![0x04u8] + spec_write_int(*i)));
                Ok(())
            },
            Value::Reference(_) => Err(EncodeError::Amf0Reference),
            Value::Amf3ObjectReference(id) => match self.find_reference(id.0) {
                None => Err(EncodeError::UnresolvableReference(id.0)),
                Some((m, slot)) => {
                    push_u8(out, m.to_u8());
                    self.write_int(out, ((slot as u32) << 1) as i32);
                    assert(out@ =~= o + (seq![crate::amf3::type_marker::marker_byte(m)] + spec_write_int(((slot as u32) << 1u32) as i32)));
                    assert(wrote(Ok(()), enc_value(st0, v@), self.state(), out@, o));
                    Ok(())
                },
            },
            Value::Undefined => {
                push_u8(out, 0x00);
                assert(out@ =~= o + seq![0x00]);
                assert(wrote(Ok(()), enc_value(st0, v@), self.state(), out@, o));
                Ok(())
            },
            Value::Unsupported => {
                push_u8(out, 0x00);
                assert(out@ =~= o + seq![0x00]);
                assert(wrote(Ok(()), enc_value(st0, v@), self.state(), out@, o));
                Ok(())
            },
            _ => {
                assert(false);
                Ok(())
            },
        }
    }
}

} // verus!

verus! {

impl AMF3Encoder {
    /// Write a value that holds no other values and takes a slot of the object table.
    fn write_payload(&mut self, out: &mut Vec<u8>, v: &Value)
        requires
            v is Date || v is XML || v is ByteArray || v is VectorInt || v is VectorUInt || v is VectorDouble,
        ensures
            wrote(Ok(()), enc_value(old(self).state(), v@), final(self).state(), final(out)@, old(out)@),
    {
        let ghost o = old(out)@;
        let ghost st0 = self.state();
        match v {
            Value::Date { time, .. } => {
                self.occupy(Value::Date { time: *time, timezone_or_utc: None }, -1, TypeMarker::Date);
                push_u8(out, 0x08);
                self.write_length(out, Length::Size(0));
                push_u64(out, *time);
                assert(out@ =~= o + (seq![0x08u8] + spec_write_length(Length::Size(0)) + crate::bytes::be64(*time)));
            },
            Value::XML { value, is_string } => {
                self.occupy(crate::types::copy_value(v), -1, TypeMarker::Xml);
                push_u8(out, if *is_string { 0x0b } else { 0x07 });
                let n = str_len(value.as_str());
                self.write_length(out, Length::Size(n as u32));
                push_str(out, value.as_str());
                assert(out@ =~= o + (seq![if *is_string { 0x0bu8 } else { 0x07u8 }] + spec_write_length(Length::Size(str_bytes(value@).len() as u32)) + str_bytes(value@)));
            },
            Value::ByteArray(b) => {
                self.occupy(crate::types::copy_value(v), -1, TypeMarker::ByteArray);
                push_u8(out, 0x0c);
                self.write_length(out, Length::Size(b.len() as u32));
                push_all(out, b.as_slice());
                assert(out@ =~= o + (seq![0x0cu8] + spec_write_length(Length::Size(b@.len() as u32)) + b@));
            },
            Value::VectorInt(x) => {
                self.occupy(crate::types::copy_value(v), -1, TypeMarker::VectorInt);
                push_u8(out, 0x0d);
                self.write_length(out, Length::Size(x.values.len() as u32));
                push_u8(out, if x.fixed_length { 1 } else { 0 });
                push_be_i32s(out, &x.values);
                assert(out@ =~= o + (seq![0x0du8] + spec_write_length(Length::Size(x.values@.len() as u32))
                    + seq![if x.fixed_length { 1u8 } else { 0u8 }] + be32s(x.values@.map_values(|y: i32| y as u32))));
            },
            Value::VectorUInt(x) => {
                self.occupy(crate::types::copy_value(v), -1, TypeMarker::VectorUInt);
                push_u8(out, 0x0e);
                self.write_length(out, Length::Size(x.values.len() as u32));
                push_u8(out, if x.fixed_length { 1 } else { 0 });
                push_be32s(out, &x.values);
                assert(out@ =~= o + (seq![0x0eu8] + spec_write_length(Length::Size(x.values@.len() as u32))
                    + seq![if x.fixed_length { 1u8 } else { 0u8 }] + be32s(x.values@)));
            },
            Value::VectorDouble(x) => {
                self.occupy(crate::types::copy_value(v), -1, TypeMarker::VectorDouble);
                push_u8(out, 0x0f);
                self.write_length(out, Length::Size(x.values.len() as u32));
                push_u8(out, if x.fixed_length { 1 } else { 0 });
                push_be64s(out, &x.values);
                assert(out@ =~= o + (seq![0x0fu8] + spec_write_length(Length::Size(x.values@.len() as u32))
                    + seq![if x.fixed_length { 1u8 } else { 0u8 }] + be64s(x.values@)));
            },
            _ => {
                assert(false);
            },
        }
    }
}

} // verus!

verus! {

/// Writing `b1` and then `r` after `b` is writing `b + b1` and then `r`.
pub proof fn lemma_after_after(b: Seq<u8>, b1: Seq<u8>, r: EncStep)
    ensures
        after(b, after(b1, r)) == after(b + b1, r),
{
    if let Ok((st, bs)) = r {
        assert(b + (b1 + bs) =~= (b + b1) + bs);
    }
}

/// Writing nothing before `r` is `r`.
pub proof fn lemma_after_empty(r: EncStep)
    ensures
        after(Seq::empty(), r) == r,
{
    if let Ok((st, bs)) = r {
        assert(Seq::<u8>::empty() + bs =~= bs);
    }
}

impl AMF3Encoder {
    /// Write values one after the other.
    fn write_values(&mut self, out: &mut Vec<u8>, vs: &Vec<Value>) -> (r: Result<(), EncodeError>)
        ensures
            wrote(r, enc_values(old(self).state(), values_view(vs@)), final(self).state(), final(out)@, old(out)@),
        decreases vs, 0int, 0int,
    {
        let ghost all = values_view(vs@);
        let ghost st0 = self.state();
        let ghost o = old(out)@;
        let ghost mut b: Seq<u8> = Seq::empty();
        proof {
            assert(all.subrange(0, all.len() as int) =~= all);
            lemma_after_empty(enc_values(st0, all));
        }
        let mut i: usize = 0;
        while i < vs.len()
            invariant
                i <= vs@.len(),
                all == values_view(vs@),
                out@ == o + b,
                o == old(out)@,
                st0 == old(self).state(),
                enc_values(st0, all) == after(b, enc_values(self.state(), all.subrange(i as int, all.len() as int))),
            decreases vs.len() - i,
        {
            let ghost cur = self.state();
            let ghost sub = all.subrange(i as int, all.len() as int);
            let ghost ob = out@;
            proof {
                assert(decreases_to!(vs => vs@[i as int]));
                assert(sub[0] == vs@[i as int]@);
                assert(sub.subrange(1, sub.len() as int) =~= all.subrange(i + 1, all.len() as int));
            }
            let rr = self.write_value_element(out, &vs[i]);
            proof {
                lemma_wrote(rr, enc_value(cur, sub[0]), self.state(), out@, ob);
                lemma_values_step(cur, sub);
            }
            if let Err(e) = rr {
                return Err(e);
            }
            proof {
                let b1 = out@.subrange(ob.len() as int, out@.len() as int);
                lemma_after_after(b, b1, enc_values(self.state(), all.subrange(i + 1, all.len() as int)));
                b = b + b1;
                assert(out@ =~= o + b);
            }
            i += 1;
        }
        proof {
            assert(all.subrange(i as int, all.len() as int).len() == 0);
            assert(b =~= b + Seq::<u8>::empty());
        }
        Ok(())
    }

    /// Write key-value pairs one after the other.
    fn write_entries(&mut self, out: &mut Vec<u8>, es: &Vec<DictionaryEntry>) -> (r: Result<(), EncodeError>)
        ensures
            wrote(r, enc_entries(old(self).state(), entries_view(es@)), final(self).state(), final(out)@, old(out)@),
        decreases es, 0int, 0int,
    {
        let ghost all = entries_view(es@);
        let ghost st0 = self.state();
        let ghost o = old(out)@;
        let ghost mut b: Seq<u8> = Seq::empty();
        proof {
            assert(all.subrange(0, all.len() as int) =~= all);
            lemma_after_empty(enc_entries(st0, all));
        }
        let mut i: usize = 0;
        while i < es.len()
            invariant
                i <= es@.len(),
                all == entries_view(es@),
                out@ == o + b,
                o == old(out)@,
                st0 == old(self).state(),
                enc_entries(st0, all) == after(b, enc_entries(self.state(), all.subrange(i as int, all.len() as int))),
            decreases es.len() - i,
        {
            let ghost cur = self.state();
            let ghost sub = all.subrange(i as int, all.len() as int);
            let ghost ob = out@;
            proof {
                assert(decreases_to!(es => es@[i as int]));
                assert(sub[0].key == es@[i as int].key@);
                assert(sub[0].value == es@[i as int].value@);
                assert(sub.subrange(1, sub.len() as int) =~= all.subrange(i + 1, all.len() as int));
            }
            let rr = self.write_value_element(out, &es[i].key);
            proof {
                lemma_wrote(rr, enc_value(cur, sub[0].key), self.state(), out@, ob);
                lemma_entries_step(cur, sub);
            }
            if let Err(e) = rr {
                return Err(e);
            }
            let ghost ob1 = out@;
            let ghost mid = self.state();
            let rr2 = self.write_value_element(out, &es[i].value);
            proof {
                lemma_wrote(rr2, enc_value(mid, sub[0].value), self.state(), out@, ob1);
            }
            if let Err(e) = rr2 {
                return Err(e);
            }
            proof {
                let b1 = ob1.subrange(ob.len() as int, ob1.len() as int);
                let b2 = out@.subrange(ob1.len() as int, out@.len() as int);
                assert(out@ =~= ob + (b1 + b2));
                lemma_after_after(b, b1 + b2, enc_entries(self.state(), all.subrange(i + 1, all.len() as int)));
                b = b + (b1 + b2);
                assert(out@ =~= o + b);
            }
            i += 1;
        }
        proof {
            assert(all.subrange(i as int, all.len() as int).len() == 0);
            assert(b =~= b + Seq::<u8>::empty());
        }
        Ok(())
    }

    /// Write named elements one after the other, each name as a byte string and then the value.
    fn write_assoc(&mut self, out: &mut Vec<u8>, els: &Vec<Element>) -> (r: Result<(), EncodeError>)
        ensures
            wrote(r, enc_assoc(old(self).state(), elements_view(els@)), final(self).state(), final(out)@, old(out)@),
        decreases els, 0int, 0int,
    {
        let ghost all = elements_view(els@);
        let ghost st0 = self.state();
        let ghost o = old(out)@;
        let ghost mut b: Seq<u8> = Seq::empty();
        proof {
            assert(all.subrange(0, all.len() as int) =~= all);
            lemma_after_empty(enc_assoc(st0, all));
        }
        let mut i: usize = 0;
        while i < els.len()
            invariant
                i <= els@.len(),
                all == elements_view(els@),
                out@ == o + b,
                o == old(out)@,
                st0 == old(self).state(),
                enc_assoc(st0, all) == after(b, enc_assoc(self.state(), all.subrange(i as int, all.len() as int))),
            decreases els.len() - i,
        {
            let ghost cur = self.state();
            let ghost sub = all.subrange(i as int, all.len() as int);
            let ghost ob = out@;
            proof {
                assert(decreases_to!(els => els@[i as int]));
                assert(sub[0] == els@[i as int]@);
                assert(sub.subrange(1, sub.len() as int) =~= all.subrange(i + 1, all.len() as int));
            }
            let nb = els[i].name.as_str().as_bytes();
            assert(nb@ == str_bytes(els@[i as int].name@));
            self.write_byte_string(out, nb);
            let ghost ob1 = out@;
            let ghost mid = self.state();
            proof {
                let e1 = enc_byte_string(cur, str_bytes(sub[0].name));
                assert(ob1.subrange(ob.len() as int, ob1.len() as int) =~= e1.1);
            }
            let rr = self.write_value_element(out, &els[i].value);
            proof {
                lemma_wrote(rr, enc_value(mid, sub[0].value), self.state(), out@, ob1);
                lemma_assoc_step(cur, sub);
            }
            if let Err(e) = rr {
                return Err(e);
            }
            proof {
                let b1 = ob1.subrange(ob.len() as int, ob1.len() as int);
                let b2 = out@.subrange(ob1.len() as int, out@.len() as int);
                assert(ob1 =~= ob + b1);
                assert(out@ =~= ob + (b1 + b2));
                lemma_after_after(b, b1 + b2, enc_assoc(self.state(), all.subrange(i + 1, all.len() as int)));
                b = b + (b1 + b2);
                assert(out@ =~= o + b);
            }
            i += 1;
        }
        proof {
            assert(all.subrange(i as int, all.len() as int).len() == 0);
            assert(b =~= b + Seq::<u8>::empty());
        }
        Ok(())
    }

    /// Write the static property names of a class definition as strings.
    fn write_names(&mut self, out: &mut Vec<u8>, names: &Vec<String>)
        ensures
            final(self).state() == enc_names(old(self).state(), strings_view(names@)).0,
            final(out)@ == old(out)@ + enc_names(old(self).state(), strings_view(names@)).1,
    {
        let ghost all = strings_view(names@);
        let ghost st0 = self.state();
        let ghost o = old(out)@;
        let ghost mut b: Seq<u8> = Seq::empty();
        proof {
            assert(all.subrange(0, all.len() as int) =~= all);
        }
        let mut i: usize = 0;
        while i < names.len()
            invariant
                i <= names@.len(),
                all == strings_view(names@),
                out@ == o + b,
                o == old(out)@,
                st0 == old(self).state(),
                enc_names(st0, all).0 == enc_names(self.state(), all.subrange(i as int, all.len() as int)).0,
                enc_names(st0, all).1 == b + enc_names(self.state(), all.subrange(i as int, all.len() as int)).1,
            decreases names.len() - i,
        {
            let ghost sub = all.subrange(i as int, all.len() as int);
            let ghost ob = out@;
            proof {
                assert(sub[0] == names@[i as int]@);
                assert(sub.drop_first() =~= all.subrange(i + 1, all.len() as int));
            }
            let nb = names[i].as_str().as_bytes();
            assert(nb@ == str_bytes(names@[i as int]@));
            self.write_byte_string(out, nb);
            proof {
                let b1 = out@.subrange(ob.len() as int, out@.len() as int);
                assert(out@ =~= ob + b1);
                let rest = enc_names(self.state(), all.subrange(i + 1, all.len() as int)).1;
                assert(b + (b1 + rest) =~= (b + b1) + rest);
                b = b + b1;
                assert(out@ =~= o + b);
            }
            i += 1;
        }
        proof {
            assert(all.subrange(i as int, all.len() as int).len() == 0);
            assert(b =~= b + Seq::<u8>::empty());
        }
    }

    /// Write the values of the static properties `names`, each the value of the first child of
    /// that name.
    fn write_static(&mut self, out: &mut Vec<u8>, children: &Vec<Element>, names: &Vec<String>) -> (r: Result<(), EncodeError>)
        ensures
            wrote(r, enc_static(old(self).state(), elements_view(children@), strings_view(names@)), final(self).state(), final(out)@, old(out)@),
        decreases children, 2int, names@.len(),
    {
        let ghost cv = elements_view(children@);
        let ghost all = strings_view(names@);
        let ghost st0 = self.state();
        let ghost o = old(out)@;
        let ghost mut b: Seq<u8> = Seq::empty();
        proof {
            assert(all.subrange(0, all.len() as int) =~= all);
            lemma_after_empty(enc_static(st0, cv, all));
        }
        let mut i: usize = 0;
        while i < names.len()
            invariant
                i <= names@.len(),
                all == strings_view(names@),
                cv == elements_view(children@),
                out@ == o + b,
                o == old(out)@,
                st0 == old(self).state(),
                enc_static(st0, cv, all) == after(b, enc_static(self.state(), cv, all.subrange(i as int, all.len() as int))),
            decreases names.len() - i,
        {
            let ghost sub = all.subrange(i as int, all.len() as int);
            let ghost ob = out@;
            proof {
                assert(sub[0] == names@[i as int]@);
                assert(sub.drop_first() =~= all.subrange(i + 1, all.len() as int));
            }
            let j = match find_element(children, &names[i]) {
                Some(j) => j,
                None => {
                    return Err(EncodeError::MissingStaticProperty);
                },
            };
            let ghost cur = self.state();
            proof {
                assert(decreases_to!(children => children@[j as int]));
                assert(cv[j as int].value == children@[j as int].value@);
            }
            let rr = self.write_value_element(out, &children[j].value);
            proof {
                lemma_wrote(rr, enc_value(cur, cv[j as int].value), self.state(), out@, ob);
                lemma_static_step(cur, cv, sub, j as int);
            }
            if let Err(e) = rr {
                return Err(e);
            }
            proof {
                let b1 = out@.subrange(ob.len() as int, out@.len() as int);
                lemma_after_after(b, b1, enc_static(self.state(), cv, all.subrange(i + 1, all.len() as int)));
                b = b + b1;
                assert(out@ =~= o + b);
            }
            i += 1;
        }
        proof {
            assert(all.subrange(i as int, all.len() as int).len() == 0);
            assert(b =~= b + Seq::<u8>::empty());
        }
        Ok(())
    }

    /// Write the children whose names are not static properties, each as its name and value,
    /// then the empty name.
    fn write_dynamic(&mut self, out: &mut Vec<u8>, children: &Vec<Element>, statics: &Vec<String>) -> (r: Result<(), EncodeError>)
        ensures
            wrote(r, enc_dynamic(old(self).state(), elements_view(children@), strings_view(statics@), 0), final(self).state(), final(out)@, old(out)@),
        decreases children, 2int, children@.len(),
    {
        let ghost cv = elements_view(children@);
        let ghost sv = strings_view(statics@);
        let ghost st0 = self.state();
        let ghost o = old(out)@;
        let ghost mut b: Seq<u8> = Seq::empty();
        proof {
            lemma_after_empty(enc_dynamic(st0, cv, sv, 0));
        }
        let mut i: usize = 0;
        while i < children.len()
            invariant
                i <= children@.len(),
                cv == elements_view(children@),
                sv == strings_view(statics@),
                out@ == o + b,
                o == old(out)@,
                st0 == old(self).state(),
                enc_dynamic(st0, cv, sv, 0) == after(b, enc_dynamic(self.state(), cv, sv, i as int)),
            decreases children.len() - i,
        {
            let ghost ob = out@;
            let ghost cur = self.state();
            if !holds_name(statics, &children[i].name) {
                let nb = children[i].name.as_str().as_bytes();
                assert(nb@ == str_bytes(cv[i as int].name));
                self.write_byte_string(out, nb);
                let ghost ob1 = out@;
                let ghost mid = self.state();
                proof {
                    assert(decreases_to!(children => children@[i as int]));
                    let e1 = enc_byte_string(cur, str_bytes(cv[i as int].name));
                    assert(ob1.subrange(ob.len() as int, ob1.len() as int) =~= e1.1);
                }
                let rr = self.write_value_element(out, &children[i].value);
                proof {
                    lemma_wrote(rr, enc_value(mid, cv[i as int].value), self.state(), out@, ob1);
                    lemma_dynamic_step(cur, cv, sv, i as int);
                }
                if let Err(e) = rr {
                    return Err(e);
                }
                proof {
                    let b1 = ob1.subrange(ob.len() as int, ob1.len() as int);
                    let b2 = out@.subrange(ob1.len() as int, out@.len() as int);
                    assert(ob1 =~= ob + b1);
                    assert(out@ =~= ob + (b1 + b2));
                    lemma_after_after(b, b1 + b2, enc_dynamic(self.state(), cv, sv, i + 1));
                    b = b + (b1 + b2);
                    assert(out@ =~= o + b);
                }
            }
            i += 1;
        }
        let ghost ob = out@;
        let ghost cur_end = self.state();
        self.write_byte_string(out, &[]);
        proof {
            let e1 = enc_byte_string(cur_end, Seq::<u8>::empty());
            let b1 = out@.subrange(ob.len() as int, out@.len() as int);
            assert(b1 =~= e1.1);
            assert(out@ =~= o + (b + b1));
        }
        Ok(())
    }

    /// Write the properties of an object of class `def`.
    fn write_props(&mut self, out: &mut Vec<u8>, children: &Vec<Element>, def: &ClassDefinition) -> (r: Result<(), EncodeError>)
        ensures
            wrote(r, enc_props(old(self).state(), elements_view(children@), class_def_view(*def)), final(self).state(), final(out)@, old(out)@),
        decreases children, 3int, 0int,
    {
        let ghost o = old(out)@;
        let ghost st0 = self.state();
        let rr = self.write_static(out, children, &def.static_properties);
        proof {
            lemma_wrote(rr, enc_static(st0, elements_view(children@), strings_view(def.static_properties@)), self.state(), out@, o);
        }
        if let Err(e) = rr {
            return Err(e);
        }
        if def.attributes.dynamic {
            let ghost ob = out@;
            let ghost mid = self.state();
            let rr2 = self.write_dynamic(out, children, &def.static_properties);
            proof {
                lemma_wrote(rr2, enc_dynamic(mid, elements_view(children@), strings_view(def.static_properties@), 0), self.state(), out@, ob);
            }
            if let Err(e) = rr2 {
                return Err(e);
            }
            proof {
                let b1 = ob.subrange(o.len() as int, ob.len() as int);
                let b2 = out@.subrange(ob.len() as int, out@.len() as int);
                assert(out@ =~= o + (b1 + b2));
            }
        }
        Ok(())
    }
}

} // verus!

verus! {

impl AMF3Encoder {
    /// Write an ECMA array or a strict array.
    #[verifier::rlimit(30)]
    fn write_array(&mut self, out: &mut Vec<u8>, v: &Value) -> (r: Result<(), EncodeError>)
        requires
            v is ECMAArray || v is StrictArray,
        ensures
            wrote(r, enc_value(old(self).state(), v@), final(self).state(), final(out)@, old(out)@),
        decreases v, 8int, 1int,
    {
        let ghost o = old(out)@;
        let ghost st0 = self.state();
        proof { lemma_value_view_parts(*v); }
        match v {
            Value::ECMAArray { id, data } => {
                self.occupy(crate::types::copy_value(v), id.0, TypeMarker::Array);
                push_u8(out, 0x09);
                self.write_length(out, Length::Size(data.dense.len() as u32));
                let ghost o1 = out@;
                let ghost st1 = self.state();
                let rr = self.write_assoc(out, &data.elements);
                proof {
                    lemma_wrote(rr, enc_assoc(st1, elements_view(data.elements@)), self.state(), out@, o1);
                }
                if let Err(e) = rr {
                    return Err(e);
                }
                let ghost o2 = out@;
                let ghost st2 = self.state();
                self.write_byte_string(out, &[]);
                let ghost o3 = out@;
                let ghost st3 = self.state();
                let rr2 = self.write_values(out, &data.dense);
                proof {
                    lemma_wrote(rr2, enc_values(st3, values_view(data.dense@)), self.state(), out@, o3);
                }
                if let Err(e) = rr2 {
                    return Err(e);
                }
                proof {
                    let h = seq![0x09u8] + spec_write_length(Length::Size(data.dense@.len() as u32));
                    let b2 = o2.subrange(o1.len() as int, o2.len() as int);
                    let b3 = o3.subrange(o2.len() as int, o3.len() as int);
                    let b4 = out@.subrange(o3.len() as int, out@.len() as int);
                    assert(b3 =~= enc_byte_string(st2, Seq::<u8>::empty()).1);
                    assert(o1 =~= o + h);
                    assert(out@ =~= o + (h + ((b2 + b3) + b4)));
                }
                Ok(())
            },
            Value::StrictArray { id, values } => {
                self.occupy(crate::types::copy_value(v), id.0, TypeMarker::Array);
                push_u8(out, 0x09);
                self.write_length(out, Length::Size(values.len() as u32));
                let ghost o1 = out@;
                let ghost st1 = self.state();
                self.write_byte_string(out, &[]);
                let ghost o2 = out@;
                let ghost st2 = self.state();
                let rr = self.write_values(out, values);
                proof {
                    lemma_wrote(rr, enc_values(st2, values_view(values@)), self.state(), out@, o2);
                }
                if let Err(e) = rr {
                    return Err(e);
                }
                proof {
                    let h = seq![0x09u8] + spec_write_length(Length::Size(values@.len() as u32));
                    let b2 = o2.subrange(o1.len() as int, o2.len() as int);
                    let b3 = out@.subrange(o2.len() as int, out@.len() as int);
                    assert(b2 =~= enc_byte_string(st1, Seq::<u8>::empty()).1);
                    assert(o1 =~= o + h);
                    assert(out@ =~= o + ((h + b2) + b3));
                }
                Ok(())
            },
            _ => {
                assert(false);
                Ok(())
            },
        }
    }

    /// Write a vector of objects.
    #[verifier::rlimit(30)]
    fn write_vector_object(&mut self, out: &mut Vec<u8>, v: &Value) -> (r: Result<(), EncodeError>)
        requires
            v is VectorObject,
        ensures
            wrote(r, enc_value(old(self).state(), v@), final(self).state(), final(out)@, old(out)@),
        decreases v, 8int, 2int,
    {
        let ghost o = old(out)@;
        let ghost st0 = self.state();
        proof { lemma_value_view_parts(*v); }
        match v {
            Value::VectorObject { id, data } => {
                let len = Length::Size(data.values.len() as u32);
                self.occupy(crate::types::copy_value(v), id.0, TypeMarker::VectorObject);
                push_u8(out, 0x10);
                self.write_length(out, len);
                let ghost o1 = out@;
                assert(o1 =~= o + (seq![0x10u8] + spec_write_length(len)));
                {
                    push_u8(out, if data.fixed_length { 1 } else { 0 });
                    let ghost o2 = out@;
                    let ghost st2 = self.state();
                    let nb = data.object_type_name.as_str().as_bytes();
                    assert(nb@ == str_bytes(data.object_type_name@));
                    self.write_byte_string(out, nb);
                    let ghost o3 = out@;
                    let ghost st3 = self.state();
                    let rr = self.write_values(out, &data.values);
                    proof {
                        lemma_wrote(rr, enc_values(st3, values_view(data.values@)), self.state(), out@, o3);
                    }
                    if let Err(e) = rr {
                        return Err(e);
                    }
                    proof {
                        let b3 = o3.subrange(o2.len() as int, o3.len() as int);
                        let b4 = out@.subrange(o3.len() as int, out@.len() as int);
                        assert(b3 =~= enc_byte_string(st2, str_bytes(data.object_type_name@)).1);
                        assert(o2 =~= o1.push(if data.fixed_length { 1u8 } else { 0u8 }));
                        assert(out@ =~= o + ((seq![0x10u8] + spec_write_length(len) + seq![if data.fixed_length { 1u8 } else { 0u8 }] + b3) + b4));
                    }
                }
                Ok(())
            },
            _ => {
                assert(false);
                Ok(())
            },
        }
    }

    /// Write a dictionary.
    #[verifier::rlimit(30)]
    fn write_dictionary(&mut self, out: &mut Vec<u8>, v: &Value) -> (r: Result<(), EncodeError>)
        requires
            v is Dictionary,
        ensures
            wrote(r, enc_value(old(self).state(), v@), final(self).state(), final(out)@, old(out)@),
        decreases v, 8int, 3int,
    {
        let ghost o = old(out)@;
        let ghost st0 = self.state();
        proof { lemma_value_view_parts(*v); }
        match v {
            Value::Dictionary { id, data } => {
                let len = Length::Size(data.elements.len() as u32);
                self.occupy(crate::types::copy_value(v), id.0, TypeMarker::Dictionary);
                push_u8(out, 0x11);
                self.write_length(out, len);
                let ghost o1 = out@;
                assert(o1 =~= o + (seq![0x11u8] + spec_write_length(len)));
                {
                    push_u8(out, if data.weak_keys { 1 } else { 0 });
                    let ghost o2 = out@;
                    let ghost st2 = self.state();
                    let rr = self.write_entries(out, &data.elements);
                    proof {
                        lemma_wrote(rr, enc_entries(st2, entries_view(data.elements@)), self.state(), out@, o2);
                    }
                    if let Err(e) = rr {
                        return Err(e);
                    }
                    proof {
                        let b3 = out@.subrange(o2.len() as int, out@.len() as int);
                        assert(o2 =~= o1.push(if data.weak_keys { 1u8 } else { 0u8 }));
                        assert(out@ =~= o + ((seq![0x11u8] + spec_write_length(len) + seq![if data.weak_keys { 1u8 } else { 0u8 }]) + b3));
                    }
                }
                Ok(())
            },
            _ => {
                assert(false);
                Ok(())
            },
        }
    }
}

} // verus!

verus! {

impl AMF3Encoder {
    /// The index of the first class definition written so far that equals `def`.
    fn find_trait(&self, def: &ClassDefinition) -> (r: Option<usize>)
        ensures
            match first_trait(self.state().traits, class_def_view(*def), 0) {
                Some(i) => r matches Some(j) && j == i,
                None => r is None,
            },
    {
        let ghost tv = self.state().traits;
        let mut i: usize = 0;
        while i < self.trait_reference_table.len()
            invariant
                i <= self.trait_reference_table@.len(),
                tv == trait_table_view(self.trait_reference_table@),
                first_trait(tv, class_def_view(*def), 0) == first_trait(tv, class_def_view(*def), i as int),
            decreases self.trait_reference_table.len() - i,
        {
            if self.trait_reference_table[i].equals(def) {
                return Some(i);
            }
            i += 1;
        }
        None
    }

    /// Write the body of an object or external value `v` of class `def`.
    fn write_object_body(&mut self, out: &mut Vec<u8>, v: &Value, def: &ClassDefinition) -> (r: Result<(), EncodeError>)
        requires
            v is Object || v is Custom,
        ensures
            wrote(r, enc_object_body(old(self).state(), v@, class_def_view(*def)), final(self).state(), final(out)@, old(out)@),
        decreases v, 7int, 0int,
    {
        proof { lemma_value_view_parts(*v); }
        if def.attributes.external {
            match self.find_encoder(&def.name) {
                None => Err(EncodeError::NoExternalEncoder),
                Some(i) => match v {
                    Value::Custom(c) => {
                        let flex = match &self.external_encoders[i].1 {
                            ExternalEncoder::Flex(k) => Some(*k),
                            ExternalEncoder::Custom(_) => None,
                        };
                        match flex {
                            Some(k) => crate::extra::flex::write::flex_encode(self, out, &c.elements, k),
                            None => match &self.external_encoders[i].1 {
                                ExternalEncoder::Custom(e) => {
                                    let b = e.encode(&c.elements, def);
                                    push_all(out, b.as_slice());
                                    Ok(())
                                },
                                ExternalEncoder::Flex(_) => {
                                    assert(false);
                                    Err(EncodeError::NoExternalEncoder)
                                },
                            },
                        }
                    },
                    _ => Err(EncodeError::NoExternalElements),
                },
            }
        } else {
            match v {
                Value::Object { data, .. } => self.write_props(out, &data.elements, def),
                Value::Custom(c) => self.write_props(out, &c.dynamic_elements, def),
                _ => Ok(()),
            }
        }
    }

    /// Write the head of an object or external value, giving the class it is written with.
    #[verifier::rlimit(30)]
    fn write_object_head(&mut self, out: &mut Vec<u8>, v: &Value) -> (def: ClassDefinition)
        requires
            v is Object || v is Custom,
        ensures
            final(self).state() == enc_object_head(old(self).state(), v@).0,
            final(out)@ == old(out)@ + enc_object_head(old(self).state(), v@).1,
            class_def_view(def) == object_class(v@),
    {
        let ghost o = old(out)@;
        let ghost st0 = self.state();
        proof {
            lemma_value_view_parts(*v);
            reveal(enc_object_head);
        }
        let (idv, els, cd) = match v {
            Value::Object { id, data } => (id.0, crate::types::copy_elements(&data.elements), crate::types::copy_opt_class_def(&data.class_definition)),
            Value::Custom(c) => (-1i64, crate::types::copy_elements(&c.dynamic_elements), Some(c.class_definition.copy())),
            _ => (-1i64, Vec::new(), None),
        };
        let def = match &cd {
            Some(c) => c.copy(),
            None => ClassDefinition::default_with_name(String::new()),
        };
        proof {
            if cd is None {
                assert(strings_view(def.static_properties@) =~= Seq::<Seq<char>>::empty());
                assert(class_def_view(def) == default_class_def());
            }
            assert(class_def_view(def) == object_class(v@));
        }
        let obj = Value::Object { id: ObjectId(idv), data: crate::types::ObjectValue { elements: els, class_definition: cd } };
        proof { lemma_value_view_parts(obj); }
        self.occupy(obj, idv, TypeMarker::Object);
        push_u8(out, 0x0a);
        match self.find_trait(&def) {
            Some(t) => {
                self.write_int(out, ((((t as u32) << 1) << 1) | 1) as i32);
                assert(out@ =~= o + (seq![0x0au8] + spec_write_int(trait_ref_header(t as int))));
            },
            None => {
                let enc: u32 = (if def.attributes.external { 1u32 } else { 0u32 }) | (if def.attributes.dynamic { 2u32 } else { 0u32 });
                let header = ((((((def.static_properties.len() as u32) << 2) | enc) << 1) | 1) << 1) | 1;
                let ghost tv = self.state().traits;
                self.trait_reference_table.push(def.copy());
                proof {
                    assert(self.state().traits =~= tv.push(class_def_view(def)));
                }
                self.write_int(out, header as i32);
                let ghost o1 = out@;
                let ghost s2 = self.state();
                let nb = def.name.as_str().as_bytes();
                assert(nb@ == str_bytes(def.name@));
                self.write_byte_string(out, nb);
                let ghost o2 = out@;
                let ghost s3 = self.state();
                self.write_names(out, &def.static_properties);
                proof {
                    let e3 = enc_byte_string(s2, str_bytes(def.name@));
                    let e4 = enc_names(s3, strings_view(def.static_properties@));
                    assert(o1 =~= o + (seq![0x0au8] + spec_write_int(full_trait_header(class_def_view(def)))));
                    assert(out@ =~= o + (seq![0x0au8] + spec_write_int(full_trait_header(class_def_view(def))) + e3.1 + e4.1));
                }
            },
        }
        def
    }

    /// Write an object or external value.
    #[verifier::spinoff_prover]
    fn write_object(&mut self, out: &mut Vec<u8>, v: &Value) -> (r: Result<(), EncodeError>)
        requires
            v is Object || v is Custom,
        ensures
            wrote(r, enc_object(old(self).state(), v@), final(self).state(), final(out)@, old(out)@),
        decreases v, 8int, 0int,
    {
        let ghost o = old(out)@;
        let def = self.write_object_head(out, v);
        let ghost o1 = out@;
        let ghost mid = self.state();
        let ghost vv = v@;
        let ghost head = enc_object_head(old(self).state(), vv);
        let ghost body = enc_object_body(mid, vv, object_class(vv));
        let rr = self.write_object_body(out, v, &def);
        proof {
            lemma_wrote(rr, body, self.state(), out@, o1);
            lemma_object_step(old(self).state(), vv);
        }
        if let Err(e) = rr {
            return Err(e);
        }
        proof {
            let b2 = out@.subrange(o1.len() as int, out@.len() as int);
            assert(out@ =~= o + (head.1 + b2));
        }
        Ok(())
    }

    /// Write one value.
    pub fn write_value_element(&mut self, out: &mut Vec<u8>, v: &Value) -> (r: Result<(), EncodeError>)
        ensures
            wrote(r, enc_value(old(self).state(), v@), final(self).state(), final(out)@, old(out)@),
            (v@ is Reference || v@ is Amf3ObjectReference) && r is Err ==> final(out)@ == old(out)@
                && final(self).state() == old(self).state(),
        decreases v, 9int, 0int,
    {
        proof { lemma_value_view_parts(*v); }
        match v {
            Value::Number(_) | Value::Bool(_) | Value::String(_) | Value::Null | Value::Undefined
            | Value::Unsupported | Value::Integer(_) | Value::Reference(_) | Value::Amf3ObjectReference(_) => {
                self.write_scalar(out, v)
            },
            Value::AMF3(e) => self.write_value_element(out, e),
            Value::Date { .. } | Value::XML { .. } | Value::ByteArray(_) | Value::VectorInt(_)
            | Value::VectorUInt(_) | Value::VectorDouble(_) => {
                self.write_payload(out, v);
                Ok(())
            },
            Value::ECMAArray { .. } | Value::StrictArray { .. } => self.write_array(out, v),
            Value::VectorObject { .. } => self.write_vector_object(out, v),
            Value::Dictionary { .. } => self.write_dictionary(out, v),
            Value::Object { .. } | Value::Custom(_) => self.write_object(out, v),
        }
    }

    /// Write one named element: the name as a string, then the value.
    #[verifier::rlimit(30)]
    fn write_element(&mut self, out: &mut Vec<u8>, el: &Element) -> (r: Result<(), EncodeError>)
        ensures
            wrote(r, enc_element(old(self).state(), el@), final(self).state(), final(out)@, old(out)@),
    {
        let ghost o = old(out)@;
        let nb = el.name.as_str().as_bytes();
        assert(nb@ == str_bytes(el.name@));
        self.write_byte_string(out, nb);
        let ghost o1 = out@;
        let ghost mid = self.state();
        proof {
            let e1 = enc_byte_string(old(self).state(), str_bytes(el.name@));
            assert(o1.subrange(o.len() as int, o1.len() as int) =~= e1.1);
        }
        let rr = self.write_value_element(out, &el.value);
        proof {
            lemma_wrote(rr, enc_value(mid, el.value@), self.state(), out@, o1);
        }
        if let Err(e) = rr {
            return Err(e);
        }
        proof {
            let b1 = o1.subrange(o.len() as int, o1.len() as int);
            let b2 = out@.subrange(o1.len() as int, out@.len() as int);
            assert(o1 =~= o + b1);
            assert(out@ =~= o + (b1 + b2));
        }
        Ok(())
    }

    /// Write an AMF3 body: each element followed by a padding byte.
    #[verifier::rlimit(30)]
    pub fn write_body(&mut self, out: &mut Vec<u8>, els: &Vec<Element>) -> (r: Result<(), EncodeError>)
        ensures
            wrote(r, enc_body(old(self).state(), elements_view(els@)), final(self).state(), final(out)@, old(out)@),
    {
        let ghost all = elements_view(els@);
        let ghost st0 = self.state();
        let ghost o = old(out)@;
        let ghost mut b: Seq<u8> = Seq::empty();
        proof {
            assert(all.subrange(0, all.len() as int) =~= all);
            lemma_after_empty(enc_body(st0, all));
        }
        let mut i: usize = 0;
        while i < els.len()
            invariant
                i <= els@.len(),
                all == elements_view(els@),
                out@ == o + b,
                o == old(out)@,
                st0 == old(self).state(),
                enc_body(st0, all) == after(b, enc_body(self.state(), all.subrange(i as int, all.len() as int))),
            decreases els.len() - i,
        {
            let ghost sub = all.subrange(i as int, all.len() as int);
            let ghost ob = out@;
            proof {
                assert(sub[0] == els@[i as int]@);
                assert(sub.drop_first() =~= all.subrange(i + 1, all.len() as int));
            }
            let ghost cur = self.state();
            let rr = self.write_element(out, &els[i]);
            proof {
                lemma_wrote(rr, enc_element(cur, sub[0]), self.state(), out@, ob);
                lemma_body_step(cur, sub);
            }
            if let Err(e) = rr {
                return Err(e);
            }
            let ghost ob1 = out@;
            push_u8(out, 0x00);
            proof {
                let b1 = ob1.subrange(ob.len() as int, ob1.len() as int);
                assert(out@ =~= ob + (b1 + seq![0u8]));
                lemma_after_after(b, b1 + seq![0u8], enc_body(self.state(), all.subrange(i + 1, all.len() as int)));
                b = b + (b1 + seq![0u8]);
                assert(out@ =~= o + b);
            }
            i += 1;
        }
        proof {
            assert(all.subrange(i as int, all.len() as int).len() == 0);
            assert(b =~= b + Seq::<u8>::empty());
        }
        Ok(())
    }
}

impl Default for AMF3Encoder {
    fn default() -> (r: AMF3Encoder)
        ensures
            r.state() == AMF3Encoder::new_state(),
    {
        AMF3Encoder::new()
    }
}

} // verus!
