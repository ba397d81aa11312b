use vstd::prelude::*;

verus! {

/// An identity that can be placed on the grid. Entities are compared and
/// keyed by their name; the room never owns more than placement bookkeeping.
#[derive(Debug, Clone, PartialEq, Eq)]
pub struct Entity {
    pub name: String,
}

} // verus!
