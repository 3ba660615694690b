//! A parsed piece descriptor: name, image key, movement rules and promotion
//! targets.

use vstd::prelude::*;

use crate::piece_move::PieceMove;

verus! {

/// The mathematical content of a piece descriptor.
pub struct PieceModel {
    pub name: Seq<char>,
    pub image_key: Seq<char>,
    pub move_set: Seq<PieceMove>,
    pub promotions: Seq<Seq<char>>,
}

/// A piece descriptor as parsed from one descriptor file: the piece's name,
/// the key of the image that draws it, its movement rules in file order, and
/// the names of the pieces it may promote to.
#[derive(Debug)]
pub struct Piece {
    pub name: String,
    pub image_key: String,
    pub move_set: Vec<PieceMove>,
    pub promotions: Vec<String>,
}

impl View for Piece {
    type V = PieceModel;

    open spec fn view(&self) -> PieceModel {
        PieceModel {
            name: self.name@,
            image_key: self.image_key@,
            move_set: self.move_set@,
            promotions: self.promotions@.map_values(|p: String| p@),
        }
    }
}

/// The descriptor every parse starts from: everything empty.
pub open spec fn empty_piece() -> PieceModel {
    PieceModel {
        name: Seq::empty(),
        image_key: Seq::empty(),
        move_set: Seq::empty(),
        promotions: Seq::empty(),
    }
}

impl Piece {
    pub fn new() -> (r: Self)
        ensures
            r@ == empty_piece(),
    {
        let r = Piece {
            name: String::new(),
            image_key: String::new(),
            move_set: Vec::new(),
            promotions: Vec::new(),
        };
        proof {
            assert(r@.promotions =~= Seq::<Seq<char>>::empty());
        }
        r
    }
}

} // verus!
