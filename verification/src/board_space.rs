//! One square of the board grid: its coordinates, shading, occupants, and
//! the transient flags the move generator and the input collaborator set.

use vstd::prelude::*;

use crate::errors::Error;
use crate::game_piece::GamePiece;
use crate::game_piece::GamePieceModel;

verus! {

/// The shading of a square, alternating over the grid by `(column + row) % 2`.
#[derive(Clone, Copy, Debug, PartialEq, Eq, Structural)]
pub enum SquareShade {
    Dark,
    Light,
}

/// The mathematical content of a board space.
pub struct SpaceModel {
    pub col: int,
    pub row: int,
    pub pieces: Seq<GamePieceModel>,
    pub hovered: bool,
    pub active: bool,
    pub avail_move: bool,
    pub avail_kill: bool,
    pub danger: bool,
    pub color: SquareShade,
}

/// One grid square: 0-based coordinates, the pieces standing on it, whether
/// the cursor is over it, whether it is playable at all, the move-generator
/// flags, and its shading.
#[derive(Debug)]
pub struct BoardSpace {
    pub horz_position: u32,
    pub vert_position: u32,
    pub game_pieces: Vec<GamePiece>,
    pub hovered: bool,
    pub is_active: bool,
    pub available_to_move: bool,
    pub available_to_kill: bool,
    pub is_danger: bool,
    pub color: SquareShade,
}

impl View for BoardSpace {
    type V = SpaceModel;

    open spec fn view(&self) -> SpaceModel {
        SpaceModel {
            col: self.horz_position as int,
            row: self.vert_position as int,
            pieces: self.game_pieces@.map_values(|p: GamePiece| p@),
            hovered: self.hovered,
            active: self.is_active,
            avail_move: self.available_to_move,
            avail_kill: self.available_to_kill,
            danger: self.is_danger,
            color: self.color,
        }
    }
}

/// The view of a freshly created space: unoccupied, active, no flags set.
pub open spec fn fresh_space(col: int, row: int, color: SquareShade) -> SpaceModel {
    SpaceModel {
        col,
        row,
        pieces: Seq::empty(),
        hovered: false,
        active: true,
        avail_move: false,
        avail_kill: false,
        danger: false,
        color,
    }
}

impl BoardSpace {
    pub fn new(horz: u32, vert: u32, color: SquareShade) -> (r: Result<BoardSpace, Error>)
        ensures
            r matches Ok(s) && s@ == fresh_space(horz as int, vert as int, color),
    {
        let s = BoardSpace {
            horz_position: horz,
            vert_position: vert,
            game_pieces: Vec::new(),
            hovered: false,
            is_active: true,
            available_to_move: false,
            available_to_kill: false,
            is_danger: false,
            color,
        };
        proof {
            assert(s@.pieces =~= Seq::<GamePieceModel>::empty());
        }
        Ok(s)
    }

    /// Clears the transient move-generation flags.
    pub fn reset_status(&mut self)
        ensures
            final(self)@ == (SpaceModel {
                avail_move: false,
                avail_kill: false,
                danger: false,
                ..old(self)@
            }),
    {
        self.available_to_move = false;
        self.available_to_kill = false;
        self.is_danger = false;
    }

    pub fn set_move_status(&mut self, status: bool)
        ensures
            final(self)@ == (SpaceModel { avail_move: status, ..old(self)@ }),
    {
        self.available_to_move = status;
    }

    pub fn set_kill_status(&mut self, status: bool)
        ensures
            final(self)@ == (SpaceModel { avail_kill: status, ..old(self)@ }),
    {
        self.available_to_kill = status;
    }

    pub fn set_danger_status(&mut self, status: bool)
        ensures
            final(self)@ == (SpaceModel { danger: status, ..old(self)@ }),
    {
        self.is_danger = status;
    }
}

} // verus!
