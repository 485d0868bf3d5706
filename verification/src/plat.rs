use vstd::prelude::*;

verus! {

/// What an edge of a platform is: a floor that can be stood on, or a wall.
#[derive(Debug, Clone, Copy, PartialEq, Eq, Structural)]
pub enum EdgeFunc {
    Floor,
    Wall,
}

} // verus!
