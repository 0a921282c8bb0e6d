//! Error types for decoding and encoding.
use vstd::prelude::*;

verus! {

/// The reason a low-level parsing step failed.
#[derive(Debug, Clone, Copy, PartialEq, Eq, Structural)]
pub enum ErrorKind {
    /// The input ended before the value was complete
    Eof,
    /// A fixed byte sequence was expected and not found
    Tag,
    /// A decoded byte sequence was not valid UTF-8
    MapRes,
    /// A length or table index was out of range
    Digit,
    /// A declared length could not fit in the remaining input
    TooLarge,
    /// A property or key name was not valid UTF-8
    Alpha,
}

/// Enum for representing decoding errors
#[derive(Debug, Clone, PartialEq, Eq)]
pub enum Error {
    /// Out of bounds decoding
    OutOfBounds,
    /// Invalid Amf0 reference tag
    InvalidReference(u16),
    /// Invalid type marker
    UnsupportedType(u8),
    /// A low-level parsing step failed at the given position of the input
    Nom(usize, ErrorKind),
    /// Packet is too large (too many headers or messages)
    PacketTooLarge,
    /// Unable to find an object in the reference table
    ObjectMissingFromReferenceTable(u64),
    /// Encoding a value failed
    Encode(EncodeError),
}

/// The error produced when a parsing step fails at position `pos` for reason `kind`.
pub open spec fn nom_err(pos: int, kind: ErrorKind) -> Error {
    Error::Nom(pos as usize, kind)
}

} // verus!

verus! {

/// Enum for representing encoding errors
#[derive(Debug, Clone, Copy, PartialEq, Eq, Structural)]
pub enum EncodeError {
    /// An externalizable value's class has no registered encoder
    NoExternalEncoder,
    /// An externalizable value has no external elements, or too few for its encoder
    NoExternalElements,
    /// An object has no value for one of its class's static properties
    MissingStaticProperty,
    /// An AMF0 reference in an AMF3 stream
    Amf0Reference,
    /// A reference to an AMF3 object that was not written before, by its id
    UnresolvableReference(i64),
}

} // verus!
