//! The plant species, as types that name them.
use vstd::prelude::*;

verus! {

/// Compact three-branch template with seasonal leaf scaling
pub struct Bush;

/// Carrot: rosette of compound leaves, then an umbel on a tall stalk
pub struct Carrot;

/// Fern: fronds of alternating pinnae
pub struct Fern;

/// Lychnis: opposite-branching flowering herb
pub struct Lychnis;

/// Mycelis (wall lettuce): signal-driven flowering herb
pub struct Mycelis;

/// Tree: branching trunk with a crown of leaves
pub struct Tree;

/// Wildflower: stochastic branching with flower or seed heads
pub struct Wildflower;

} // verus!
