//! Orders and the ingredients they are made of.

use vstd::prelude::*;

verus! {

/// One ingredient: a name and what it costs to blend, per unit of blender speed.
#[derive(Clone, Debug, PartialEq, Eq)]
pub struct Object {
    pub blend_ms_per_w: u32,
    pub name: String,
}

/// What one customer asked for: the ingredients, in the order given.
#[derive(Clone, Debug, PartialEq, Eq)]
pub struct Order {
    pub name: String,
    pub ingredients: Vec<Object>,
}

/// The time a blender of speed `speed` spends on `objects`: each ingredient
/// takes its cost divided by the speed, rounded down, and the times add up.
pub open spec fn blend_time(objects: Seq<Object>, speed: int) -> int
    recommends
        speed > 0,
    decreases objects.len(),
{
    if objects.len() == 0 {
        0
    } else {
        blend_time(objects.drop_last(), speed) + objects.last().blend_ms_per_w as int / speed
    }
}

/// Two ingredients take the sum of their two shares, each rounded down by
/// itself: an ingredient that costs less than the speed adds nothing.
pub proof fn lemma_blend_time_of_two(first: Object, second: Object, speed: int)
    requires
        speed > 0,
    ensures
        blend_time(seq![first, second], speed) == first.blend_ms_per_w as int / speed
            + second.blend_ms_per_w as int / speed,
{
    let both = seq![first, second];
    assert(both.drop_last() =~= seq![first]);
    assert(seq![first].drop_last() =~= Seq::<Object>::empty());
    reveal_with_fuel(blend_time, 3);
}

} // verus!
