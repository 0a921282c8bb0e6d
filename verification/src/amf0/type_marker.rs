//! Type markers used in AMF0.
use vstd::prelude::*;

verus! {

/// Type markers used in AMF0
#[derive(Debug, Clone, Copy, PartialEq, Eq, Structural)]
pub enum TypeMarker {
    /// Number
    Number,
    /// Boolean
    Boolean,
    /// String
    String,
    /// Object
    Object,
    /// Movie clip (reserved)
    MovieClip,
    /// Null
    Null,
    /// Undefined
    Undefined,
    /// Reference
    Reference,
    /// ECMA array
    ECMAArray,
    /// End of an object
    ObjectEnd,
    /// Strict array
    StrictArray,
    /// Date
    Date,
    /// Long string
    LongString,
    /// Unsupported
    Unsupported,
    /// Record set (reserved)
    RecordSet,
    /// XML document
    Xml,
    /// Typed object
    TypedObject,
    /// Switch to AMF3
    AMF3,
}

/// The byte that encodes a marker.
pub open spec fn marker_byte(m: TypeMarker) -> u8 {
    match m {
        TypeMarker::Number => 0x00,
        TypeMarker::Boolean => 0x01,
        TypeMarker::String => 0x02,
        TypeMarker::Object => 0x03,
        TypeMarker::MovieClip => 0x04,
        TypeMarker::Null => 0x05,
        TypeMarker::Undefined => 0x06,
        TypeMarker::Reference => 0x07,
        TypeMarker::ECMAArray => 0x08,
        TypeMarker::ObjectEnd => 0x09,
        TypeMarker::StrictArray => 0x0A,
        TypeMarker::Date => 0x0B,
        TypeMarker::LongString => 0x0C,
        TypeMarker::Unsupported => 0x0D,
        TypeMarker::RecordSet => 0x0E,
        TypeMarker::Xml => 0x0F,
        TypeMarker::TypedObject => 0x10,
        TypeMarker::AMF3 => 0x11,
    }
}

/// The marker a byte encodes, if any: the bytes 0x00 to 0x11 encode the markers in order.
pub open spec fn spec_marker(b: u8) -> Option<TypeMarker> {
    if b == 0x00 { Some(TypeMarker::Number) }
    else if b == 0x01 { Some(TypeMarker::Boolean) }
    else if b == 0x02 { Some(TypeMarker::String) }
    else if b == 0x03 { Some(TypeMarker::Object) }
    else if b == 0x04 { Some(TypeMarker::MovieClip) }
    else if b == 0x05 { Some(TypeMarker::Null) }
    else if b == 0x06 { Some(TypeMarker::Undefined) }
    else if b == 0x07 { Some(TypeMarker::Reference) }
    else if b == 0x08 { Some(TypeMarker::ECMAArray) }
    else if b == 0x09 { Some(TypeMarker::ObjectEnd) }
    else if b == 0x0A { Some(TypeMarker::StrictArray) }
    else if b == 0x0B { Some(TypeMarker::Date) }
    else if b == 0x0C { Some(TypeMarker::LongString) }
    else if b == 0x0D { Some(TypeMarker::Unsupported) }
    else if b == 0x0E { Some(TypeMarker::RecordSet) }
    else if b == 0x0F { Some(TypeMarker::Xml) }
    else if b == 0x10 { Some(TypeMarker::TypedObject) }
    else if b == 0x11 { Some(TypeMarker::AMF3) }
    else { None }
}

impl TypeMarker {
    /// The marker a byte encodes
    pub fn try_from_u8(value: u8) -> (r: Result<TypeMarker, ()>)
        ensures
            r == (match spec_marker(value) {
                Some(m) => Ok::<TypeMarker, ()>(m),
                None => Err(()),
            }),
    {
        match value {
            0x00 => Ok(TypeMarker::Number),
            0x01 => Ok(TypeMarker::Boolean),
            0x02 => Ok(TypeMarker::String),
            0x03 => Ok(TypeMarker::Object),
            0x04 => Ok(TypeMarker::MovieClip),
            0x05 => Ok(TypeMarker::Null),
            0x06 => Ok(TypeMarker::Undefined),
            0x07 => Ok(TypeMarker::Reference),
            0x08 => Ok(TypeMarker::ECMAArray),
            0x09 => Ok(TypeMarker::ObjectEnd),
            0x0A => Ok(TypeMarker::StrictArray),
            0x0B => Ok(TypeMarker::Date),
            0x0C => Ok(TypeMarker::LongString),
            0x0D => Ok(TypeMarker::Unsupported),
            0x0E => Ok(TypeMarker::RecordSet),
            0x0F => Ok(TypeMarker::Xml),
            0x10 => Ok(TypeMarker::TypedObject),
            0x11 => Ok(TypeMarker::AMF3),
            _ => Err(()),
        }
    }

    /// The byte that encodes this marker
    pub fn to_u8(&self) -> (r: u8)
        ensures
            r == marker_byte(*self),
    {
        match self {
            TypeMarker::Number => 0x00,
            TypeMarker::Boolean => 0x01,
            TypeMarker::String => 0x02,
            TypeMarker::Object => 0x03,
            TypeMarker::MovieClip => 0x04,
            TypeMarker::Null => 0x05,
            TypeMarker::Undefined => 0x06,
            TypeMarker::Reference => 0x07,
            TypeMarker::ECMAArray => 0x08,
            TypeMarker::ObjectEnd => 0x09,
            TypeMarker::StrictArray => 0x0A,
            TypeMarker::Date => 0x0B,
            TypeMarker::LongString => 0x0C,
            TypeMarker::Unsupported => 0x0D,
            TypeMarker::RecordSet => 0x0E,
            TypeMarker::Xml => 0x0F,
            TypeMarker::TypedObject => 0x10,
            TypeMarker::AMF3 => 0x11,
        }
    }
}

/// Every marker is read back from its byte.
pub proof fn lemma_marker_roundtrip(m: TypeMarker)
    ensures
        spec_marker(marker_byte(m)) == Some(m),
{
}

} // verus!
