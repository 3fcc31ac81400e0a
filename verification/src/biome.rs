//! Biome identity, as the color lookup tables key it.

use vstd::prelude::*;

verus! {

/// A biome id: an index into the biome color tables.
#[derive(Clone, Debug, PartialEq, Eq, Structural)]
pub struct Biome(pub usize);

} // verus!
