//! What can go wrong within a single tick.

use vstd::prelude::*;

verus! {

/// A fault local to one operation; none of them leaves the store half-changed.
#[derive(Clone, Copy, Debug, PartialEq, Eq, Structural)]
pub enum StoreError {
    /// A blender of speed zero was asked to blend.
    InvalidCapacity,
    /// The oldest order of an empty queue was asked for.
    EmptyQueue,
}

} // verus!
