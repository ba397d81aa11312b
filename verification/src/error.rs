use vstd::prelude::*;

verus! {

/// The single error kind of the room: a referenced cell coordinate lies
/// outside the grid's fixed dimensions, or a mobile-entity lookup failed
/// (the entity was never placed, or was placed as static).
#[derive(Debug, Clone, Copy, PartialEq, Eq, Structural)]
pub enum MapError {
    OutOfBounds,
}

} // verus!
