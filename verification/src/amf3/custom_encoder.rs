//! Support for the externalizable classes that are read and written with custom codecs.
use vstd::prelude::*;
use crate::errors::Error;
use crate::types::{ClassDefV, ClassDefinition, Element, ElementV, class_def_view, elements_view};

verus! {

/// A decoding of the external body of an externalizable class, for users to implement and
/// register by class name. It reads the bytes of `s` from `pos` and gives the elements of the
/// body and the position where the body ends; what it gives is `spec_decode` of the bytes and
/// the position. An implementation in verified code is held to this; the decoder still refuses
/// a body said to end before `pos` or past the end of the bytes.
pub trait CustomDecoder {
    /// What decoding at `p` of `s` gives: the position after the body and its elements, or an
    /// error.
    spec fn spec_decode(&self, s: Seq<u8>, p: int) -> Result<(int, Seq<ElementV>), Error>;

    /// Decode the external body at `pos` of `s`.
    fn decode(&self, s: &[u8], pos: usize) -> (r: Result<(usize, Vec<Element>), Error>)
        requires
            pos <= s.len(),
        ensures
            match self.spec_decode(s@, pos as int) {
                Ok((e, els)) => r matches Ok((x, v)) && x == e && elements_view(v@) == els,
                Err(e) => r == Err::<(usize, Vec<Element>), Error>(e),
            };
}

/// An encoding of the external body of an externalizable class, for users to implement and
/// register by class name. It gives the bytes of the body for its elements and class
/// definition; what it gives is `spec_encode` of them. An implementation in verified code is
/// held to this.
pub trait CustomEncoder {
    /// The bytes of the external body of the elements `els` of class `def`.
    spec fn spec_encode(&self, els: Seq<ElementV>, def: ClassDefV) -> Seq<u8>;

    /// Encode the external body of `elements` of class `class_def`.
    fn encode(&self, elements: &Vec<Element>, class_def: &ClassDefinition) -> (r: Vec<u8>)
        ensures
            r@ == self.spec_encode(elements_view(elements@), class_def_view(*class_def));
}

/// The flex layouts of an external body that the library reads itself
#[derive(Debug, Clone, Copy, PartialEq, Eq, Structural)]
pub enum FlexDecoder {
    /// flex.messaging AbstractMessage layout
    AbstractMessage,
    /// flex.messaging AsyncMessage layout
    AsyncMessage,
    /// flex.messaging AcknowledgeMessage layout
    AcknowledgeMessage,
    /// flex.messaging CommandMessage layout
    CommandMessage,
    /// flex.messaging ArrayCollection layout: a single value
    ArrayCollection,
    /// flex.messaging ObjectProxy layout: a single value
    ObjectProxy,
}

/// The flex layouts of an external body that the library writes itself
#[derive(Debug, Clone, Copy, PartialEq, Eq, Structural)]
pub enum FlexEncoder {
    /// flex.messaging AbstractMessage layout
    AbstractMessage,
    /// flex.messaging AsyncMessage layout
    AsyncMessage,
    /// flex.messaging AcknowledgeMessage layout
    AcknowledgeMessage,
    /// flex.messaging CommandMessage layout
    CommandMessage,
    /// flex.messaging ArrayCollection layout: a single value
    ArrayCollection,
    /// flex.messaging ObjectProxy layout: a single value
    ObjectProxy,
}

/// A decoder registered for an externalizable class: a flex layout, or a user's decoder
pub enum ExternalDecoder {
    /// One of the flex layouts
    Flex(FlexDecoder),
    /// A decoder of the user's
    Custom(Box<dyn CustomDecoder>),
}

/// An encoder registered for an externalizable class: a flex layout, or a user's encoder
pub enum ExternalEncoder {
    /// One of the flex layouts
    Flex(FlexEncoder),
    /// An encoder of the user's
    Custom(Box<dyn CustomEncoder>),
}

/// What a user's decoder gives, as the library takes it: a body that would end before `p` or
/// past the end of the bytes is refused.
pub open spec fn custom_decoded(r: Result<(int, Seq<ElementV>), Error>, s: Seq<u8>, p: int) -> Result<(int, Seq<ElementV>), Error> {
    match r {
        Ok((e, els)) => if p <= e <= s.len() { Ok((e, els)) } else { Err(Error::OutOfBounds) },
        Err(x) => Err(x),
    }
}

/// Decode with a user's decoder, refusing a body that would end before `pos` or past the end of
/// the bytes.
pub fn custom_decode(d: &Box<dyn CustomDecoder>, s: &[u8], pos: usize) -> (r: Result<(usize, Vec<Element>), Error>)
    requires
        pos <= s.len(),
    ensures
        match custom_decoded(d.spec_decode(s@, pos as int), s@, pos as int) {
            Ok((e, els)) => r matches Ok((x, v)) && x == e && elements_view(v@) == els,
            Err(e) => r == Err::<(usize, Vec<Element>), Error>(e),
        },
{
    let (e, els) = d.decode(s, pos)?;
    if pos <= e && e <= s.len() {
        Ok((e, els))
    } else {
        Err(Error::OutOfBounds)
    }
}

} // verus!
