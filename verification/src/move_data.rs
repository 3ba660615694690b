//! A record of one move: who moved and between which squares. Kept by the
//! board for a future move-application step.

use vstd::prelude::*;

verus! {

/// One recorded move: the moving player's index and the source and
/// destination coordinates.
#[derive(Clone, Copy, Debug, PartialEq, Eq, Structural)]
pub struct MoveData {
    pub player: usize,
    pub from_x: i32,
    pub from_y: i32,
    pub to_x: i32,
    pub to_y: i32,
}

impl MoveData {
    pub fn new(player: usize, from_x: i32, from_y: i32, to_x: i32, to_y: i32) -> (r: Self)
        ensures
            r == (MoveData { player, from_x, from_y, to_x, to_y }),
    {
        Self { player, from_x, from_y, to_x, to_y }
    }

    pub fn player(&self) -> (r: usize)
        ensures
            r == self.player,
    {
        self.player
    }

    pub fn from_x(&self) -> (r: i32)
        ensures
            r == self.from_x,
    {
        self.from_x
    }

    pub fn from_y(&self) -> (r: i32)
        ensures
            r == self.from_y,
    {
        self.from_y
    }

    pub fn to_x(&self) -> (r: i32)
        ensures
            r == self.to_x,
    {
        self.to_x
    }

    pub fn to_y(&self) -> (r: i32)
        ensures
            r == self.to_y,
    {
        self.to_y
    }
}

} // verus!
