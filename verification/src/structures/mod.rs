//! Static structure-placement data: spacing, offset range and salt per
//! structure type.

use vstd::prelude::*;

verus! {

/// How one structure type is laid out on the region grid.
#[derive(Clone, Copy, Debug)]
pub struct StructureConfig {
    /// Region size in chunks (structures attempt placement once per region).
    pub spacing: i32,
    /// Range of the random offset within a region, in chunks (spacing minus
    /// separation), passed straight to `next_int`.
    pub chunk_range: i32,
    pub salt: i64,
}

/// Swamp hut (witch hut) for post-1.13 versions. Its salt is 14357620; the
/// pre-1.13 salt 14357617, shared with desert pyramids, jungle temples and
/// igloos, predicts the wrong chunk in every region on a modern world.
pub open spec fn swamp_hut_spec() -> StructureConfig {
    StructureConfig { spacing: 32, chunk_range: 24, salt: 14357620 }
}

/// The swamp-hut configuration; see `swamp_hut_spec`.
#[verifier::when_used_as_spec(swamp_hut_spec)]
pub fn swamp_hut() -> (c: StructureConfig)
    ensures
        c == swamp_hut_spec(),
{
    StructureConfig { spacing: 32, chunk_range: 24, salt: 14357620 }
}

} // verus!
