//! Type markers used in AMF3.
use vstd::prelude::*;

verus! {

/// Type markers used in AMF3
#[derive(Debug, Clone, Copy, PartialEq, Eq, Structural)]
pub enum TypeMarker {
    /// Undefined
    Undefined,
    /// Null
    Null,
    /// Boolean false
    False,
    /// Boolean true
    True,
    /// Variable length integer
    Integer,
    /// Floating point number
    Number,
    /// String
    String,
    /// XML
    Xml,
    /// Date (always UTC)
    Date,
    /// Array
    Array,
    /// Object
    Object,
    /// XML string
    XmlString,
    /// Byte array
    ByteArray,
    /// Vector<Int>
    VectorInt,
    /// Vector<UInt>
    VectorUInt,
    /// Vector<Double>
    VectorDouble,
    /// Vector<Object>
    VectorObject,
    /// Dictionary
    Dictionary,
}

/// The byte that encodes a marker.
pub open spec fn marker_byte(m: TypeMarker) -> u8 {
    match m {
        TypeMarker::Undefined => 0x00,
        TypeMarker::Null => 0x01,
        TypeMarker::False => 0x02,
        TypeMarker::True => 0x03,
        TypeMarker::Integer => 0x04,
        TypeMarker::Number => 0x05,
        TypeMarker::String => 0x06,
        TypeMarker::Xml => 0x07,
        TypeMarker::Date => 0x08,
        TypeMarker::Array => 0x09,
        TypeMarker::Object => 0x0A,
        TypeMarker::XmlString => 0x0B,
        TypeMarker::ByteArray => 0x0C,
        TypeMarker::VectorInt => 0x0D,
        TypeMarker::VectorUInt => 0x0E,
        TypeMarker::VectorDouble => 0x0F,
        TypeMarker::VectorObject => 0x10,
        TypeMarker::Dictionary => 0x11,
    }
}

/// The marker a byte encodes, if any: the bytes 0x00 to 0x11 encode the markers in order.
pub open spec fn spec_marker(b: u8) -> Option<TypeMarker> {
    if b == 0x00 { Some(TypeMarker::Undefined) }
    else if b == 0x01 { Some(TypeMarker::Null) }
    else if b == 0x02 { Some(TypeMarker::False) }
    else if b == 0x03 { Some(TypeMarker::True) }
    else if b == 0x04 { Some(TypeMarker::Integer) }
    else if b == 0x05 { Some(TypeMarker::Number) }
    else if b == 0x06 { Some(TypeMarker::String) }
    else if b == 0x07 { Some(TypeMarker::Xml) }
    else if b == 0x08 { Some(TypeMarker::Date) }
    else if b == 0x09 { Some(TypeMarker::Array) }
    else if b == 0x0A { Some(TypeMarker::Object) }
    else if b == 0x0B { Some(TypeMarker::XmlString) }
    else if b == 0x0C { Some(TypeMarker::ByteArray) }
    else if b == 0x0D { Some(TypeMarker::VectorInt) }
    else if b == 0x0E { Some(TypeMarker::VectorUInt) }
    else if b == 0x0F { Some(TypeMarker::VectorDouble) }
    else if b == 0x10 { Some(TypeMarker::VectorObject) }
    else if b == 0x11 { Some(TypeMarker::Dictionary) }
    else { None }
}

impl TypeMarker {
    /// The marker a byte encodes
    pub fn try_from_u8(value: u8) -> (r: Result<TypeMarker, ()>)
        ensures
            r == (match spec_marker(value) {
                Some(m) => Ok::<TypeMarker, ()>(m),
                None => Err(()),
            }),
    {
        match value {
            0x00 => Ok(TypeMarker::Undefined),
            0x01 => Ok(TypeMarker::Null),
            0x02 => Ok(TypeMarker::False),
            0x03 => Ok(TypeMarker::True),
            0x04 => Ok(TypeMarker::Integer),
            0x05 => Ok(TypeMarker::Number),
            0x06 => Ok(TypeMarker::String),
            0x07 => Ok(TypeMarker::Xml),
            0x08 => Ok(TypeMarker::Date),
            0x09 => Ok(TypeMarker::Array),
            0x0A => Ok(TypeMarker::Object),
            0x0B => Ok(TypeMarker::XmlString),
            0x0C => Ok(TypeMarker::ByteArray),
            0x0D => Ok(TypeMarker::VectorInt),
            0x0E => Ok(TypeMarker::VectorUInt),
            0x0F => Ok(TypeMarker::VectorDouble),
            0x10 => Ok(TypeMarker::VectorObject),
            0x11 => Ok(TypeMarker::Dictionary),
            _ => Err(()),
        }
    }

    /// The byte that encodes this marker
    pub fn to_u8(&self) -> (r: u8)
        ensures
            r == marker_byte(*self),
    {
        match self {
            TypeMarker::Undefined => 0x00,
            TypeMarker::Null => 0x01,
            TypeMarker::False => 0x02,
            TypeMarker::True => 0x03,
            TypeMarker::Integer => 0x04,
            TypeMarker::Number => 0x05,
            TypeMarker::String => 0x06,
            TypeMarker::Xml => 0x07,
            TypeMarker::Date => 0x08,
            TypeMarker::Array => 0x09,
            TypeMarker::Object => 0x0A,
            TypeMarker::XmlString => 0x0B,
            TypeMarker::ByteArray => 0x0C,
            TypeMarker::VectorInt => 0x0D,
            TypeMarker::VectorUInt => 0x0E,
            TypeMarker::VectorDouble => 0x0F,
            TypeMarker::VectorObject => 0x10,
            TypeMarker::Dictionary => 0x11,
        }
    }
}

/// Every marker is read back from its byte.
pub proof fn lemma_marker_roundtrip(m: TypeMarker)
    ensures
        spec_marker(marker_byte(m)) == Some(m),
{
}

} // verus!
