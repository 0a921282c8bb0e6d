//! Reading and writing of the Adobe Flash Local Shared Object (LSO) file format and the AMF0/AMF3 data it holds.
use vstd::prelude::*;

pub mod bytes;
pub mod errors;
pub mod amf0;
pub mod amf3;
pub mod types;
pub mod extra;
pub mod equality;
pub mod decimal;
pub mod read;
pub mod write;
pub mod packet;
pub mod sol;
pub mod roundtrip;

verus! {

} // verus!
