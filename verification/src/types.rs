//! Types used for representing Lso contents.
use vstd::prelude::*;

verus! {

/// The version of AMF being used
#[derive(Debug, Clone, Copy, PartialEq, Eq, Structural)]
pub enum AMFVersion {
    /// AMF0
    AMF0,
    /// AMF3
    AMF3,
}

/// The AMF version for a format-version byte: 0 is AMF0, 3 is AMF3, anything else is none.
pub open spec fn spec_amf_version(value: u8) -> Option<AMFVersion> {
    if value == 0 {
        Some(AMFVersion::AMF0)
    } else if value == 3 {
        Some(AMFVersion::AMF3)
    } else {
        None
    }
}

/// The format-version byte of an AMF version.
pub open spec fn spec_amf_version_byte(v: AMFVersion) -> u8 {
    match v {
        AMFVersion::AMF0 => 0,
        AMFVersion::AMF3 => 3,
    }
}

impl AMFVersion {
    /// Convert a format-version byte into an `AMFVersion`
    pub fn try_from_u8(value: u8) -> (r: Result<AMFVersion, ()>)
        ensures
            r == (match spec_amf_version(value) {
                Some(v) => Ok::<AMFVersion, ()>(v),
                None => Err(()),
            }),
    {
        match value {
            0 => Ok(AMFVersion::AMF0),
            3 => Ok(AMFVersion::AMF3),
            _ => Err(()),
        }
    }

    /// The format-version byte of this version
    pub fn to_u8(&self) -> (r: u8)
        ensures
            r == spec_amf_version_byte(*self),
    {
        match self {
            AMFVersion::AMF0 => 0,
            AMFVersion::AMF3 => 3,
        }
    }
}

/// Decoding the byte of a version gives the version back.
pub proof fn lemma_amf_version_roundtrip(v: AMFVersion)
    ensures
        spec_amf_version(spec_amf_version_byte(v)) == Some(v),
{
}

/// Encodes the possible attributes that can be given to a trait
#[derive(Debug, Clone, Copy, PartialEq, Eq, Structural)]
pub enum Attribute {
    /// If a trait is dynamic then the object it constructs may have additional properties other than the ones specified in the trait
    Dynamic,
    /// If a trait is external then it requires custom serialization and deserialization support
    External,
}

/// A set of `Attribute`s
#[derive(Debug, Clone, Copy, PartialEq, Eq, Structural)]
pub struct AttributeSet {
    /// Is `Attribute::Dynamic` in the set
    pub dynamic: bool,
    /// Is `Attribute::External` in the set
    pub external: bool,
}

impl AttributeSet {
    /// Is `a` in the set
    pub open spec fn has(self, a: Attribute) -> bool {
        match a {
            Attribute::Dynamic => self.dynamic,
            Attribute::External => self.external,
        }
    }

    /// The empty set
    pub fn empty() -> (r: AttributeSet)
        ensures
            !r.dynamic && !r.external,
    {
        AttributeSet { dynamic: false, external: false }
    }

    /// The set holding only `a`
    pub fn only(a: Attribute) -> (r: AttributeSet)
        ensures
            r.dynamic == (a == Attribute::Dynamic),
            r.external == (a == Attribute::External),
    {
        match a {
            Attribute::Dynamic => AttributeSet { dynamic: true, external: false },
            Attribute::External => AttributeSet { dynamic: false, external: true },
        }
    }

    /// Is `a` in the set
    pub fn contains(&self, a: Attribute) -> (r: bool)
        ensures
            r == self.has(a),
    {
        match a {
            Attribute::Dynamic => self.dynamic,
            Attribute::External => self.external,
        }
    }

    /// Add `a` to the set
    pub fn insert(&mut self, a: Attribute)
        ensures
            final(self).dynamic == (old(self).dynamic || a == Attribute::Dynamic),
            final(self).external == (old(self).external || a == Attribute::External),
    {
        match a {
            Attribute::Dynamic => self.dynamic = true,
            Attribute::External => self.external = true,
        }
    }

    /// Is the set empty
    pub fn is_empty(&self) -> (r: bool)
        ensures
            r == (!self.dynamic && !self.external),
    {
        !self.dynamic && !self.external
    }
}

/// The views of a sequence of strings.
pub open spec fn strings_view(v: Seq<String>) -> Seq<Seq<char>> {
    Seq::new(v.len(), |i: int| v[i]@)
}

/// A class definition (trait) used in AMF3
#[derive(Debug, Clone)]
pub struct ClassDefinition {
    /// The name of the class definition
    pub name: String,
    /// The attributes on this trait
    pub attributes: AttributeSet,
    /// The name of the static properties defined in this definition
    pub static_properties: Vec<String>,
}

/// The contents of a class definition.
pub struct ClassDefV {
    /// The class name
    pub name: Seq<char>,
    /// The attributes
    pub attributes: AttributeSet,
    /// The static property names, in order
    pub static_properties: Seq<Seq<char>>,
}

/// The contents of a class definition.
pub open spec fn class_def_view(c: ClassDefinition) -> ClassDefV {
    ClassDefV {
        name: c.name@,
        attributes: c.attributes,
        static_properties: strings_view(c.static_properties@),
    }
}

/// The contents of an optional class definition.
pub open spec fn opt_class_def_view(c: Option<ClassDefinition>) -> Option<ClassDefV> {
    match c {
        Some(c) => Some(class_def_view(c)),
        None => None,
    }
}

/// Compare two sequences of strings by their contents.
pub fn strings_eq(a: &Vec<String>, b: &Vec<String>) -> (r: bool)
    ensures
        r == (strings_view(a@) == strings_view(b@)),
{
    if a.len() != b.len() {
        proof {
            assert(strings_view(a@).len() != strings_view(b@).len());
        }
        return false;
    }
    let mut i: usize = 0;
    while i < a.len()
        invariant
            i <= a@.len(),
            a@.len() == b@.len(),
            forall|j: int| 0 <= j < i ==> (#[trigger] a@[j])@ == b@[j]@,
        decreases a.len() - i,
    {
        if a[i] != b[i] {
            proof {
                assert(strings_view(a@)[i as int] != strings_view(b@)[i as int]);
            }
            return false;
        }
        i += 1;
    }
    assert(strings_view(a@) =~= strings_view(b@));
    true
}

/// A copy of a vector of strings.
pub fn copy_strings(v: &Vec<String>) -> (r: Vec<String>)
    ensures
        r@ == v@,
        strings_view(r@) == strings_view(v@),
{
    let mut out: Vec<String> = Vec::new();
    let mut i: usize = 0;
    while i < v.len()
        invariant
            i <= v@.len(),
            out@ == v@.subrange(0, i as int),
        decreases v.len() - i,
    {
        out.push(v[i].clone());
        i += 1;
        assert(out@ =~= v@.subrange(0, i as int));
    }
    assert(v@.subrange(0, i as int) =~= v@);
    out
}

impl Default for ClassDefinition {
    /// The definition of the plain `Object` class: no attributes and no static properties
    fn default() -> (r: ClassDefinition)
        ensures
            r.name@ == "Object"@,
            r.attributes == (AttributeSet { dynamic: false, external: false }),
            r.static_properties@.len() == 0,
    {
        ClassDefinition::default_with_name("Object".to_string())
    }
}

impl ClassDefinition {
    /// Creates a new ClassDefinition with the given name, and no attributes or properties
    pub fn default_with_name(name: String) -> (r: ClassDefinition)
        ensures
            r.name == name,
            r.attributes == (AttributeSet { dynamic: false, external: false }),
            r.static_properties@.len() == 0,
    {
        ClassDefinition { name, attributes: AttributeSet::empty(), static_properties: Vec::new() }
    }

    /// Compare with another class definition
    pub fn equals(&self, other: &ClassDefinition) -> (r: bool)
        ensures
            r == (class_def_view(*self) == class_def_view(*other)),
    {
        self.name == other.name && self.attributes == other.attributes && strings_eq(
            &self.static_properties,
            &other.static_properties,
        )
    }

    /// A copy of this class definition
    pub fn copy(&self) -> (r: ClassDefinition)
        ensures
            class_def_view(r) == class_def_view(*self),
    {
        ClassDefinition {
            name: self.name.clone(),
            attributes: self.attributes,
            static_properties: copy_strings(&self.static_properties),
        }
    }
}

/// A reference to a previously written AMF0 object, by its index
#[derive(Debug, Clone, Copy, PartialEq, Eq, PartialOrd, Ord, Hash, Structural)]
pub struct Reference(pub u16);

/// A locally unique identifier for an Amf3 object
///
/// See the comment on `Value::Amf3ObjectReference` for details
#[derive(Debug, Clone, Copy, PartialEq, Eq, PartialOrd, Ord, Hash, Structural)]
pub struct ObjectId(pub i64);

impl ObjectId {
    /// An invalid object id
    ///
    /// Use this when the id of an object can't be known or will never need to be referenced (e.g. amf0).
    /// Unlike valid object ids, multiple objects with an invalid id are explicitly allowed.
    pub fn invalid() -> (r: ObjectId)
        ensures
            r == ObjectId(-1i64),
    {
        ObjectId(-1)
    }
}

/// Represent a named element
#[derive(Debug)]
pub struct Element {
    /// The name of the element
    pub name: String,
    /// The value of the element
    pub value: Value,
}

/// The data contained within a Value of type Object
#[derive(Debug)]
pub struct ObjectValue {
    /// The child elements of this Object
    pub elements: Vec<Element>,
    /// The class definition for this object, if it exists
    pub class_definition: Option<ClassDefinition>,
}

/// Represents the contents of a Custom object
#[derive(Debug)]
pub struct CustomObjectValue {
    /// The external elements
    pub elements: Vec<Element>,
    /// The dynamic elements
    pub dynamic_elements: Vec<Element>,
    /// The ClassDefinition assigned to this Custom object
    pub class_definition: ClassDefinition,
}

/// The data contained within a Dictionary
#[derive(Debug)]
pub struct DictionaryObjectValue {
    /// The contents of this Dictionary
    pub elements: Vec<DictionaryEntry>,
    /// Are the keys of this Dictionary weakly referenced
    pub weak_keys: bool,
}

/// Represents a Key-Value pair in an AMF Dictionary
#[derive(Debug)]
pub struct DictionaryEntry {
    /// The key
    pub key: Value,
    /// The value
    pub value: Value,
}

/// An AMF vector of a some subtype
#[derive(Debug, Clone)]
pub struct VectorPrimitiveValue<T> {
    /// The contents of this Vector
    pub values: Vec<T>,
    /// Is this vector of a fixed length
    pub fixed_length: bool,
}

/// An AMF vector of Objects
#[derive(Debug)]
pub struct VectorObjectValue {
    /// The contents of this Vector
    pub values: Vec<Value>,
    /// The name of the class this is a vector of
    pub object_type_name: String,
    /// Is this vector of a fixed length
    pub fixed_length: bool,
}

/// The contents of a ECMAArray object
#[derive(Debug)]
pub struct ECMAArrayObjectValue {
    /// The dense component of this ECMAArray
    pub dense: Vec<Value>,
    /// The non-dense component of this ECMAArray
    pub elements: Vec<Element>,
    /// The length of the array in AMF0, this can differ from the actual number of elements
    pub length: u32,
}

/// A single or compound value
///
/// Floating point numbers (`Number`, `Date` times and `VectorDouble` entries) are held as the
/// bits of their IEEE-754 double representation.
#[derive(Debug)]
pub enum Value {
    /// Represent the type number (amf0) and double (amf3), as the bits of an IEEE-754 double
    Number(u64),
    /// Represents the type boolean (amf0) and both the true/false type (amf3)
    Bool(bool),
    /// Represent both the string (amf0/3) and long string type (amf0)
    String(String),
    /// Represents the object type in both amf0 and amf3, class definition are only available with amf3
    Object {
        /// The unique id that will be used to refer back to this Object
        id: ObjectId,
        /// The data within this value
        data: ObjectValue,
    },
    /// Represent the null type
    Null,
    /// Represent the undefined type
    Undefined,
    /// Represent ECMA-Arrays (amf0) and associative arrays (amf3, even if they contain a dense part)
    ECMAArray {
        /// A unique identifier that will be used to refer back to this ECMAArray
        id: ObjectId,
        /// The data within this ECMAArray
        data: ECMAArrayObjectValue,
    },
    /// Represent a strict array (amf0) or a dense array (amf3)
    StrictArray {
        /// A unique identifier that will be used to refer back to this StrictArray
        id: ObjectId,
        /// The data within this StrictArray
        values: Vec<Value>,
    },
    /// Represent a timestamp
    Date {
        /// Milliseconds since the epoch, as the bits of an IEEE-754 double
        time: u64,
        /// The timezone identifier or UTC if missing
        timezone_or_utc: Option<u16>,
    },
    /// Represent the unsupported type
    Unsupported,
    /// Represent the XML type, (value, is_string)
    XML {
        /// The XML data
        value: String,
        /// Is this XML a string
        is_string: bool,
    },
    /// Represent an amf3 element embedded in an AMF0 file
    AMF3(Box<Value>),
    /// Represent the integer type (u29) (amf3)
    Integer(i32),
    /// Represent the bytearray type (amf3)
    ByteArray(Vec<u8>),
    /// Represent the int vector type (amf3)
    VectorInt(VectorPrimitiveValue<i32>),
    /// Represent the unsigned int vector type (amf3)
    VectorUInt(VectorPrimitiveValue<u32>),
    /// Represent the double vector type (amf3), as the bits of IEEE-754 doubles
    VectorDouble(VectorPrimitiveValue<u64>),
    /// Represent the object vector type (amf3)
    VectorObject {
        /// A unique identifier that will be used to refer back to this VectorObject
        id: ObjectId,
        /// The data in this Vector
        data: VectorObjectValue,
    },
    /// Represent the dictionary type (amf3)
    Dictionary {
        /// A unique identifier that will be used to refer back to this Dictionary
        id: ObjectId,
        /// The data contained within this Dictionary
        data: DictionaryObjectValue,
    },
    /// Represent an external object, such as from flex
    Custom(CustomObjectValue),
    /// Represent an existing value, stored by reference, the value here should be considered opaque
    Reference(Reference),
    /// A reference to a previously parsed element
    ///
    /// While traversing the graph of `Value` instances you should maintain a mapping of `ObjectId` to your internal
    /// representation of a value and consider this a reference to the exact same value.
    Amf3ObjectReference(ObjectId),
}

/// The contents of an `Element`.
pub struct ElementV {
    /// The name
    pub name: Seq<char>,
    /// The value
    pub value: ValueV,
}

/// The contents of a dictionary entry.
pub struct EntryV {
    /// The key
    pub key: ValueV,
    /// The value
    pub value: ValueV,
}

/// The contents of a `Value`: strings as character sequences and vectors as sequences.
#[allow(inconsistent_fields)]
pub enum ValueV {
    /// A number, as the bits of an IEEE-754 double
    Number(u64),
    /// A boolean
    Bool(bool),
    /// A string
    String(Seq<char>),
    /// An object
    Object { id: ObjectId, elements: Seq<ElementV>, class_definition: Option<ClassDefV> },
    /// Null
    Null,
    /// Undefined
    Undefined,
    /// An ECMA array
    ECMAArray { id: ObjectId, dense: Seq<ValueV>, elements: Seq<ElementV>, length: u32 },
    /// A strict array
    StrictArray { id: ObjectId, values: Seq<ValueV> },
    /// A date
    Date { time: u64, timezone_or_utc: Option<u16> },
    /// Unsupported
    Unsupported,
    /// XML
    XML { value: Seq<char>, is_string: bool },
    /// An embedded AMF3 value
    AMF3(Box<ValueV>),
    /// An integer
    Integer(i32),
    /// A byte array
    ByteArray(Seq<u8>),
    /// A vector of ints
    VectorInt { values: Seq<i32>, fixed_length: bool },
    /// A vector of unsigned ints
    VectorUInt { values: Seq<u32>, fixed_length: bool },
    /// A vector of doubles
    VectorDouble { values: Seq<u64>, fixed_length: bool },
    /// A vector of objects
    VectorObject { id: ObjectId, values: Seq<ValueV>, object_type_name: Seq<char>, fixed_length: bool },
    /// A dictionary
    Dictionary { id: ObjectId, elements: Seq<EntryV>, weak_keys: bool },
    /// An external object
    Custom { elements: Seq<ElementV>, dynamic_elements: Seq<ElementV>, class_definition: ClassDefV },
    /// An AMF0 reference
    Reference(u16),
    /// An AMF3 object reference
    Amf3ObjectReference(ObjectId),
}

/// The contents of a value.
pub open spec fn value_view(v: Value) -> ValueV
    decreases v,
{
    match v {
        Value::Number(x) => ValueV::Number(x),
        Value::Bool(b) => ValueV::Bool(b),
        Value::String(s) => ValueV::String(s@),
        Value::Object { id, data } => ValueV::Object {
            id,
            elements: Seq::new(
                data.elements@.len(),
                |i: int|
                    if 0 <= i < data.elements@.len() {
                        ElementV {
                            name: data.elements@[i].name@,
                            value: value_view(data.elements@[i].value),
                        }
                    } else {
                        ElementV { name: Seq::empty(), value: ValueV::Null }
                    },
            ),
            class_definition: opt_class_def_view(data.class_definition),
        },
        Value::Null => ValueV::Null,
        Value::Undefined => ValueV::Undefined,
        Value::ECMAArray { id, data } => ValueV::ECMAArray {
            id,
            dense: Seq::new(
                data.dense@.len(),
                |i: int|
                    if 0 <= i < data.dense@.len() {
                        value_view(data.dense@[i])
                    } else {
                        ValueV::Null
                    },
            ),
            elements: Seq::new(
                data.elements@.len(),
                |i: int|
                    if 0 <= i < data.elements@.len() {
                        ElementV {
                            name: data.elements@[i].name@,
                            value: value_view(data.elements@[i].value),
                        }
                    } else {
                        ElementV { name: Seq::empty(), value: ValueV::Null }
                    },
            ),
            length: data.length,
        },
        Value::StrictArray { id, values } => ValueV::StrictArray {
            id,
            values: Seq::new(
                values@.len(),
                |i: int|
                    if 0 <= i < values@.len() {
                        value_view(values@[i])
                    } else {
                        ValueV::Null
                    },
            ),
        },
        Value::Date { time, timezone_or_utc } => ValueV::Date { time, timezone_or_utc },
        Value::Unsupported => ValueV::Unsupported,
        Value::XML { value, is_string } => ValueV::XML { value: value@, is_string },
        Value::AMF3(b) => ValueV::AMF3(Box::new(value_view(*b))),
        Value::Integer(i) => ValueV::Integer(i),
        Value::ByteArray(b) => ValueV::ByteArray(b@),
        Value::VectorInt(v) => ValueV::VectorInt { values: v.values@, fixed_length: v.fixed_length },
        Value::VectorUInt(v) => ValueV::VectorUInt { values: v.values@, fixed_length: v.fixed_length },
        Value::VectorDouble(v) => ValueV::VectorDouble { values: v.values@, fixed_length: v.fixed_length },
        Value::VectorObject { id, data } => ValueV::VectorObject {
            id,
            values: Seq::new(
                data.values@.len(),
                |i: int|
                    if 0 <= i < data.values@.len() {
                        value_view(data.values@[i])
                    } else {
                        ValueV::Null
                    },
            ),
            object_type_name: data.object_type_name@,
            fixed_length: data.fixed_length,
        },
        Value::Dictionary { id, data } => ValueV::Dictionary {
            id,
            elements: Seq::new(
                data.elements@.len(),
                |i: int|
                    if 0 <= i < data.elements@.len() {
                        EntryV {
                            key: value_view(data.elements@[i].key),
                            value: value_view(data.elements@[i].value),
                        }
                    } else {
                        EntryV { key: ValueV::Null, value: ValueV::Null }
                    },
            ),
            weak_keys: data.weak_keys,
        },
        Value::Custom(c) => ValueV::Custom {
            elements: Seq::new(
                c.elements@.len(),
                |i: int|
                    if 0 <= i < c.elements@.len() {
                        ElementV { name: c.elements@[i].name@, value: value_view(c.elements@[i].value) }
                    } else {
                        ElementV { name: Seq::empty(), value: ValueV::Null }
                    },
            ),
            dynamic_elements: Seq::new(
                c.dynamic_elements@.len(),
                |i: int|
                    if 0 <= i < c.dynamic_elements@.len() {
                        ElementV {
                            name: c.dynamic_elements@[i].name@,
                            value: value_view(c.dynamic_elements@[i].value),
                        }
                    } else {
                        ElementV { name: Seq::empty(), value: ValueV::Null }
                    },
            ),
            class_definition: class_def_view(c.class_definition),
        },
        Value::Reference(r) => ValueV::Reference(r.0),
        Value::Amf3ObjectReference(id) => ValueV::Amf3ObjectReference(id),
    }
}

/// The contents of an element.
pub open spec fn element_view(e: Element) -> ElementV {
    ElementV { name: e.name@, value: value_view(e.value) }
}

/// The contents of a sequence of elements.
pub open spec fn elements_view(es: Seq<Element>) -> Seq<ElementV> {
    Seq::new(es.len(), |i: int| element_view(es[i]))
}

/// The contents of a sequence of values.
pub open spec fn values_view(vs: Seq<Value>) -> Seq<ValueV> {
    Seq::new(vs.len(), |i: int| value_view(vs[i]))
}

/// The contents of a sequence of dictionary entries.
pub open spec fn entries_view(es: Seq<DictionaryEntry>) -> Seq<EntryV> {
    Seq::new(es.len(), |i: int| EntryV { key: value_view(es[i].key), value: value_view(es[i].value) })
}

impl View for Value {
    type V = ValueV;

    open spec fn view(&self) -> ValueV {
        value_view(*self)
    }
}

impl View for Element {
    type V = ElementV;

    open spec fn view(&self) -> ElementV {
        element_view(*self)
    }
}

/// The views of the children of compound values, written with `elements_view` and `values_view`.
pub proof fn lemma_value_view_parts(v: Value)
    ensures
        v matches Value::Object { id, data } ==> v@ == (ValueV::Object {
            id,
            elements: elements_view(data.elements@),
            class_definition: opt_class_def_view(data.class_definition),
        }),
        v matches Value::ECMAArray { id, data } ==> v@ == (ValueV::ECMAArray {
            id,
            dense: values_view(data.dense@),
            elements: elements_view(data.elements@),
            length: data.length,
        }),
        v matches Value::StrictArray { id, values } ==> v@ == (ValueV::StrictArray {
            id,
            values: values_view(values@),
        }),
        v matches Value::VectorObject { id, data } ==> v@ == (ValueV::VectorObject {
            id,
            values: values_view(data.values@),
            object_type_name: data.object_type_name@,
            fixed_length: data.fixed_length,
        }),
        v matches Value::Dictionary { id, data } ==> v@ == (ValueV::Dictionary {
            id,
            elements: entries_view(data.elements@),
            weak_keys: data.weak_keys,
        }),
        v matches Value::Custom(c) ==> v@ == (ValueV::Custom {
            elements: elements_view(c.elements@),
            dynamic_elements: elements_view(c.dynamic_elements@),
            class_definition: class_def_view(c.class_definition),
        }),
{
    match v {
        Value::Object { id, data } => {
            assert(v@->Object_elements =~= elements_view(data.elements@));
        },
        Value::ECMAArray { id, data } => {
            assert(v@->dense =~= values_view(data.dense@));
            assert(v@->ECMAArray_elements =~= elements_view(data.elements@));
        },
        Value::StrictArray { id, values } => {
            assert(v@->StrictArray_values =~= values_view(values@));
        },
        Value::VectorObject { id, data } => {
            assert(v@->VectorObject_values =~= values_view(data.values@));
        },
        Value::Dictionary { id, data } => {
            assert(v@->Dictionary_elements =~= entries_view(data.elements@));
        },
        Value::Custom(c) => {
            assert(v@->Custom_elements =~= elements_view(c.elements@));
            assert(v@->dynamic_elements =~= elements_view(c.dynamic_elements@));
        },
        _ => {},
    }
}

} // verus!

verus! {

/// A copy of a sequence of elements.
pub fn copy_elements(es: &Vec<Element>) -> (r: Vec<Element>)
    ensures
        elements_view(r@) == elements_view(es@),
    decreases es,
{
    let mut out: Vec<Element> = Vec::new();
    let mut i: usize = 0;
    while i < es.len()
        invariant
            i <= es@.len(),
            out@.len() == i,
            forall|j: int| 0 <= j < i ==> element_view(#[trigger] out@[j]) == element_view(es@[j]),
        decreases es.len() - i,
    {
        proof {
            assert(decreases_to!(es => es@[i as int]));
        }
        let v = copy_value(&es[i].value);
        out.push(Element { name: es[i].name.clone(), value: v });
        i += 1;
    }
    assert(elements_view(out@) =~= elements_view(es@));
    out
}

/// A copy of a sequence of values.
pub fn copy_values(vs: &Vec<Value>) -> (r: Vec<Value>)
    ensures
        values_view(r@) == values_view(vs@),
    decreases vs,
{
    let mut out: Vec<Value> = Vec::new();
    let mut i: usize = 0;
    while i < vs.len()
        invariant
            i <= vs@.len(),
            out@.len() == i,
            forall|j: int| 0 <= j < i ==> value_view(#[trigger] out@[j]) == value_view(vs@[j]),
        decreases vs.len() - i,
    {
        proof {
            assert(decreases_to!(vs => vs@[i as int]));
        }
        let v = copy_value(&vs[i]);
        out.push(v);
        i += 1;
    }
    assert(values_view(out@) =~= values_view(vs@));
    out
}

/// A copy of a sequence of dictionary entries.
pub fn copy_entries(es: &Vec<DictionaryEntry>) -> (r: Vec<DictionaryEntry>)
    ensures
        r@.len() == es@.len(),
        forall|j: int|
            0 <= j < es@.len() ==> (#[trigger] r@[j]).key@ == es@[j].key@ && r@[j].value@ == es@[j].value@,
    decreases es,
{
    let mut out: Vec<DictionaryEntry> = Vec::new();
    let mut i: usize = 0;
    while i < es.len()
        invariant
            i <= es@.len(),
            out@.len() == i,
            forall|j: int|
                0 <= j < i ==> (#[trigger] out@[j]).key@ == es@[j].key@ && out@[j].value@ == es@[j].value@,
        decreases es.len() - i,
    {
        proof {
            assert(decreases_to!(es => es@[i as int]));
        }
        let k = copy_value(&es[i].key);
        let v = copy_value(&es[i].value);
        out.push(DictionaryEntry { key: k, value: v });
        i += 1;
    }
    out
}

/// A copy of a vector of plain values.
pub fn copy_vec<T: Copy>(v: &Vec<T>) -> (r: Vec<T>)
    ensures
        r@ == v@,
{
    let mut out: Vec<T> = Vec::new();
    let mut i: usize = 0;
    while i < v.len()
        invariant
            i <= v@.len(),
            out@ == v@.subrange(0, i as int),
        decreases v.len() - i,
    {
        out.push(v[i]);
        i += 1;
        assert(out@ =~= v@.subrange(0, i as int));
    }
    assert(v@.subrange(0, i as int) =~= v@);
    out
}

/// A copy of an optional class definition.
pub fn copy_opt_class_def(c: &Option<ClassDefinition>) -> (r: Option<ClassDefinition>)
    ensures
        opt_class_def_view(r) == opt_class_def_view(*c),
{
    match c {
        Some(c) => Some(c.copy()),
        None => None,
    }
}

/// A copy of a value.
pub fn copy_value(v: &Value) -> (r: Value)
    ensures
        r@ == v@,
    decreases v,
{
    proof { lemma_value_view_parts(*v); }
    let r = match v {
        Value::Number(x) => Value::Number(*x),
        Value::Bool(b) => Value::Bool(*b),
        Value::String(s) => Value::String(s.clone()),
        Value::Object { id, data } => Value::Object {
            id: *id,
            data: ObjectValue {
                elements: copy_elements(&data.elements),
                class_definition: copy_opt_class_def(&data.class_definition),
            },
        },
        Value::Null => Value::Null,
        Value::Undefined => Value::Undefined,
        Value::ECMAArray { id, data } => Value::ECMAArray {
            id: *id,
            data: ECMAArrayObjectValue {
                dense: copy_values(&data.dense),
                elements: copy_elements(&data.elements),
                length: data.length,
            },
        },
        Value::StrictArray { id, values } => Value::StrictArray { id: *id, values: copy_values(values) },
        Value::Date { time, timezone_or_utc } => Value::Date { time: *time, timezone_or_utc: *timezone_or_utc },
        Value::Unsupported => Value::Unsupported,
        Value::XML { value, is_string } => Value::XML { value: value.clone(), is_string: *is_string },
        Value::AMF3(b) => Value::AMF3(Box::new(copy_value(b))),
        Value::Integer(i) => Value::Integer(*i),
        Value::ByteArray(b) => Value::ByteArray(copy_vec(b)),
        Value::VectorInt(x) => Value::VectorInt(
            VectorPrimitiveValue { values: copy_vec(&x.values), fixed_length: x.fixed_length },
        ),
        Value::VectorUInt(x) => Value::VectorUInt(
            VectorPrimitiveValue { values: copy_vec(&x.values), fixed_length: x.fixed_length },
        ),
        Value::VectorDouble(x) => Value::VectorDouble(
            VectorPrimitiveValue { values: copy_vec(&x.values), fixed_length: x.fixed_length },
        ),
        Value::VectorObject { id, data } => Value::VectorObject {
            id: *id,
            data: VectorObjectValue {
                values: copy_values(&data.values),
                object_type_name: data.object_type_name.clone(),
                fixed_length: data.fixed_length,
            },
        },
        Value::Dictionary { id, data } => {
            let entries = copy_entries(&data.elements);
            let r = Value::Dictionary {
                id: *id,
                data: DictionaryObjectValue { elements: entries, weak_keys: data.weak_keys },
            };
            proof {
                assert(r@->Dictionary_elements =~= v@->Dictionary_elements);
            }
            r
        },
        Value::Custom(c) => Value::Custom(
            CustomObjectValue {
                elements: copy_elements(&c.elements),
                dynamic_elements: copy_elements(&c.dynamic_elements),
                class_definition: c.class_definition.copy(),
            },
        ),
        Value::Reference(x) => Value::Reference(*x),
        Value::Amf3ObjectReference(id) => Value::Amf3ObjectReference(*id),
    };
    proof { lemma_value_view_parts(r); }
    r
}

} // verus!

verus! {

impl AMFVersion {
    /// The name of this version, as its `Display` writes it
    pub fn to_string(&self) -> (r: String)
        ensures
            r@ == match *self {
                AMFVersion::AMF0 => "AMF0"@,
                AMFVersion::AMF3 => "AMF3"@,
            },
    {
        match self {
            AMFVersion::AMF0 => "AMF0".to_owned(),
            AMFVersion::AMF3 => "AMF3".to_owned(),
        }
    }
}

impl Element {
    /// Create a new Element
    pub fn new(name: String, value: Value) -> (r: Element)
        ensures
            r.name == name,
            r.value == value,
    {
        Element { name, value }
    }

    /// Get the Value of this element
    pub fn value(&self) -> (r: &Value)
        ensures
            *r == self.value,
    {
        &self.value
    }

    /// Get the name of this element
    pub fn name(&self) -> (r: &str)
        ensures
            r@ == self.name@,
    {
        self.name.as_str()
    }
}

/// The header of a lso file
#[derive(Debug)]
pub struct Header {
    /// The length of the lso in bytes
    pub length: u32,
    /// The name of the lso file
    pub name: String,
    /// The version of AMF used to encode the data
    pub format_version: AMFVersion,
}

impl Header {
    /// Create a new header with the given name and version, will have a size of 0 by default
    pub fn new(name: String, version: AMFVersion) -> (r: Header)
        ensures
            r.length == 0,
            r.name == name,
            r.format_version == version,
    {
        Header { length: 0, name, format_version: version }
    }
}

/// A container for lso files
#[derive(Debug)]
pub struct Lso {
    /// The header of this lso
    pub header: Header,
    /// The elements at the root level of this lso
    pub body: Vec<Element>,
}

/// The earlier name of `Lso`
pub type LSO = Lso;

impl Lso {
    /// Create a new Lso with a header with the given name and version and an empty body
    pub fn new_empty(name: String, version: AMFVersion) -> (r: Lso)
        ensures
            r.header.length == 0,
            r.header.name == name,
            r.header.format_version == version,
            r.body@.len() == 0,
    {
        Lso::new(Vec::new(), name, version)
    }

    /// Crate a new Lso with a header with the given name, version and body
    pub fn new(body: Vec<Element>, name: String, version: AMFVersion) -> (r: Lso)
        ensures
            r.header.length == 0,
            r.header.name == name,
            r.header.format_version == version,
            r.body == body,
    {
        Lso { header: Header::new(name, version), body }
    }

    /// The elements at the root level, in order
    pub fn into_elements(self) -> (r: Vec<Element>)
        ensures
            r == self.body,
    {
        self.body
    }
}

} // verus!
