//! Decoding of Minecraft chunk data: zero-copy views of the array types, the
//! bit-packed block and height arrays under both packing conventions, and the
//! chunk and section model that answers block, biome and height queries.
use vstd::prelude::*;

pub mod bits;
pub mod borrow;
pub mod error;
pub mod types;
pub mod pre18;

verus! {

} // verus!
