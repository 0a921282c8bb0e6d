//! Extra functionality such as decoders for popular external class formats.
use vstd::prelude::*;

pub mod flex;

verus! {

} // verus!
