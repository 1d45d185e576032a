//! A motion-keyed, type-tagged array container over a flat byte buffer, with
//! checked typed access, map/unmap sessions for bulk construction, and the
//! selection of the samples that time interpolation blends.
#![allow(non_snake_case)]
use vstd::prelude::*;

pub mod ai_types;
pub mod bytes;
pub mod ai_array;
pub mod ai_bbox;
pub mod ai_string;

verus! {

} // verus!
