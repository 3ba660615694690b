//! A single atomic movement capability of a piece type: a pair of direction
//! offsets plus a movement kind.

use vstd::prelude::*;

verus! {

/// The movement kinds of the piece-description language. `Leap` relocates to
/// an empty square, `Kill` captures an enemy occupant, `Run` slides along a
/// direction until blocked; `PawnFirst` and `Castle` are placeholders with no
/// computed effect.
#[derive(Clone, Copy, Debug, PartialEq, Eq, Structural)]
pub enum MoveRules {
    Leap,
    Kill,
    Run,
    PawnFirst,
    Castle,
}

/// One movement rule: `forward` and `left` are offsets relative to the
/// piece's forward-facing orientation (`forward` moves along rows, `left`
/// along columns), and `rules` is the movement kind.
#[derive(Clone, Copy, Debug, PartialEq, Eq, Structural)]
pub struct PieceMove {
    pub forward: i32,
    pub left: i32,
    pub rules: MoveRules,
}

impl PieceMove {
    pub fn new(forward: i32, left: i32, rules: MoveRules) -> (r: Self)
        ensures
            r == (PieceMove { forward, left, rules }),
    {
        Self { forward, left, rules }
    }

    /// A special (non-geometric) rule carries zero offsets.
    pub fn new_special(rules: MoveRules) -> (r: Self)
        ensures
            r == (PieceMove { forward: 0i32, left: 0i32, rules }),
    {
        Self { forward: 0, left: 0, rules }
    }

    pub fn forward(&self) -> (r: i32)
        ensures
            r == self.forward,
    {
        self.forward
    }

    pub fn left(&self) -> (r: i32)
        ensures
            r == self.left,
    {
        self.left
    }

    pub fn movement_type(&self) -> (r: &MoveRules)
        ensures
            *r == self.rules,
    {
        &self.rules
    }
}

} // verus!
