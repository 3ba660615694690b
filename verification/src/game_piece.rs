//! A piece standing on the board: which descriptor it instantiates, which
//! team owns it, and where it stands.

use vstd::prelude::*;

use crate::errors::Error;

verus! {

/// The mathematical content of a game piece.
pub struct GamePieceModel {
    pub piece_name: Seq<char>,
    pub team_name: Seq<char>,
    pub col: int,
    pub row: int,
    pub selected: bool,
}

/// One piece on the board: the name of its descriptor in the catalog, its
/// team, its 0-based grid coordinates (kept equal to those of the space that
/// holds it), and whether it is currently selected.
#[derive(Debug)]
pub struct GamePiece {
    pub piece_name: String,
    pub team_name: String,
    pub horz_position: u32,
    pub vert_position: u32,
    pub selected: bool,
}

impl View for GamePiece {
    type V = GamePieceModel;

    open spec fn view(&self) -> GamePieceModel {
        GamePieceModel {
            piece_name: self.piece_name@,
            team_name: self.team_name@,
            col: self.horz_position as int,
            row: self.vert_position as int,
            selected: self.selected,
        }
    }
}

impl GamePiece {
    pub fn new(piece: String, team: String, horz: u32, vert: u32) -> (r: Result<GamePiece, Error>)
        ensures
            r matches Ok(p) && p@ == (GamePieceModel {
                piece_name: piece@,
                team_name: team@,
                col: horz as int,
                row: vert as int,
                selected: false,
            }),
    {
        Ok(
            GamePiece {
                piece_name: piece,
                team_name: team,
                horz_position: horz,
                vert_position: vert,
                selected: false,
            },
        )
    }
}

} // verus!
