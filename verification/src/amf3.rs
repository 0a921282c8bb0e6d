//! Reading and writing of the AMF3 format.
use vstd::prelude::*;

pub mod integer;
pub mod length;
pub mod element_cache;
pub mod type_marker;
pub mod custom_encoder;
pub mod read;
pub mod write;

verus! {

} // verus!
