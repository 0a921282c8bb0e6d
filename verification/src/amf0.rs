//! Reading and writing of the AMF0 format.
use vstd::prelude::*;

pub mod type_marker;
pub mod read;
pub mod write;
pub mod writer;

verus! {

} // verus!
