//! AMF packets: headers and messages, each carrying one AMF0 value.
use vstd::prelude::*;
use crate::types::{AMFVersion, Value, ValueV};

pub mod read;
pub mod write;

verus! {

/// An AMF Packet Header
#[derive(Debug)]
pub struct Header {
    /// The name of this header.
    pub name: String,
    /// If true, the endpoint must immediately abort and error if it does not understand this header.
    pub must_understand: bool,
    /// The value of this header.
    pub value: Value,
}

/// An AMF Packet Message
#[derive(Debug)]
pub struct Message {
    /// The target URI that this message is intended for.
    pub target_uri: String,
    /// The response URI for this message.
    pub response_uri: String,
    /// The contents of this message.
    pub contents: Value,
}

/// An AMF Packet
#[derive(Debug)]
pub struct Packet {
    /// The version of this packet. Does not affect serialization.
    pub version: AMFVersion,
    /// Any headers associated with every message inside this packet.
    pub headers: Vec<Header>,
    /// All messages included inside this packet.
    pub messages: Vec<Message>,
}

/// The contents of a packet header.
pub struct HeaderV {
    /// The name
    pub name: Seq<char>,
    /// The must-understand flag
    pub must_understand: bool,
    /// The value
    pub value: ValueV,
}

/// The contents of a packet message.
pub struct MessageV {
    /// The target URI
    pub target_uri: Seq<char>,
    /// The response URI
    pub response_uri: Seq<char>,
    /// The contents
    pub contents: ValueV,
}

/// The contents of a sequence of packet headers.
pub open spec fn headers_view(hs: Seq<Header>) -> Seq<HeaderV> {
    Seq::new(hs.len(), |i: int| HeaderV { name: hs[i].name@, must_understand: hs[i].must_understand, value: hs[i].value@ })
}

/// The contents of a sequence of packet messages.
pub open spec fn messages_view(ms: Seq<Message>) -> Seq<MessageV> {
    Seq::new(ms.len(), |i: int| MessageV { target_uri: ms[i].target_uri@, response_uri: ms[i].response_uri@, contents: ms[i].contents@ })
}

} // verus!
