//! The game session: the piece catalog and the board, loaded together, and
//! the two input signals the core reacts to.

use vstd::prelude::*;

use crate::board::board_parse;
use crate::board::board_wf;
use crate::board::Board;
use crate::board_space::SpaceModel;
use crate::errors::Error;
use crate::move_gen::collect_board;
use crate::move_gen::kill_marks;
use crate::move_gen::move_marks;
use crate::move_gen::select_view;
use crate::move_gen::CollectOutcome;
use crate::piece::PieceModel;
use crate::piece_catalog::catalog_wf;
use crate::piece_catalog::spec_generate;
use crate::piece_catalog::CatalogOutcome;
use crate::piece_catalog::PieceCatalog;
use crate::text::texts_view;

verus! {

/// The state of one loaded game.
pub struct ChessGame {
    pub piece_catalog: PieceCatalog,
    pub board: Board,
}

/// A well-formed session: the catalog keyed by unique names and the board
/// grid well-formed.
pub open spec fn game_wf(g: ChessGame) -> bool {
    catalog_wf(g.piece_catalog@) && board_wf(g.board@)
}

impl ChessGame {
    /// A fresh session: an empty catalog and an empty board.
    pub fn new() -> (r: Result<ChessGame, Error>)
        ensures
            r matches Ok(g) && game_wf(g) && g.piece_catalog@ == Seq::<PieceModel>::empty()
                && g.board@.grid.len() == 0,
    {
        let piece_catalog = match PieceCatalog::new() {
            Ok(c) => c,
            Err(e) => {
                return Err(e);
            },
        };
        let board = match Board::new() {
            Ok(b) => b,
            Err(e) => {
                return Err(e);
            },
        };
        Ok(ChessGame { piece_catalog, board })
    }

    /// Loads a game: builds the catalog from the piece-descriptor texts,
    /// then the board from the board-description lines against that
    /// catalog. The first error aborts the load.
    pub fn load(&mut self, piece_texts: &Vec<String>, board_lines: &Vec<String>) -> (r: Result<
        (),
        Error,
    >)
        requires
            game_wf(*old(self)),
            forall|k: int|
                0 <= k < piece_texts@.len() ==> (#[trigger] piece_texts@[k])@.len() < usize::MAX,
            forall|k: int|
                0 <= k < board_lines@.len() ==> (#[trigger] board_lines@[k])@.len() < usize::MAX,
        ensures
            game_wf(*final(self)),
            match spec_generate(old(self).piece_catalog@, texts_view(piece_texts@), 0) {
                CatalogOutcome::Bad(l, t, cv) => ({
                    &&& r matches Err(e)
                    &&& e matches Error::InvalidFileFormat(f)
                    &&& f.line as nat == l
                    &&& f.token@ == t
                    &&& final(self).piece_catalog@ == cv
                    &&& final(self).board == old(self).board
                }),
                CatalogOutcome::Good(cv) => ({
                    &&& final(self).piece_catalog@ == cv
                    &&& match board_parse(old(self).board@, texts_view(board_lines@), 0, cv) {
                        crate::board::BoardOutcome::Good(b2) => r is Ok && final(self).board@ == b2,
                        crate::board::BoardOutcome::BadFormat(l, t, b2) => ({
                            &&& r matches Err(e)
                            &&& e matches Error::InvalidFileFormat(f)
                            &&& f.line as nat == l
                            &&& f.token@ == t
                            &&& final(self).board@ == b2
                        }),
                        crate::board::BoardOutcome::BadPiece(n, b2) => ({
                            &&& r matches Err(e)
                            &&& e matches Error::PieceNotFound(nf)
                            &&& nf.name@ == n
                            &&& final(self).board@ == b2
                        }),
                    }
                }),
            },
    {
        match self.piece_catalog.generate(piece_texts) {
            Ok(u) => {},
            Err(e) => {
                return Err(e);
            },
        }
        self.board.generate(board_lines, &self.piece_catalog)
    }

    /// Marks the space at the given 0-based board coordinates as hovered
    /// and every other space as not.
    pub fn mouse_hover(&mut self, col: u32, row: u32) -> (r: Result<(), Error>)
        requires
            game_wf(*old(self)),
        ensures
            game_wf(*final(self)),
            r is Ok,
            final(self).piece_catalog == old(self).piece_catalog,
            final(self).board@.name == old(self).board@.name,
            final(self).board@.width == old(self).board@.width,
            final(self).board@.height == old(self).board@.height,
            final(self).board@.players == old(self).board@.players,
            final(self).board@.dead == old(self).board@.dead,
            final(self).board@.moves == old(self).board@.moves,
            final(self).board@.grid.len() == old(self).board@.grid.len(),
            forall|i: int|
                0 <= i < old(self).board@.grid.len() ==> (#[trigger] final(self).board@.grid[i])
                    == (SpaceModel {
                    hovered: old(self).board@.grid[i].col == col as int && old(
                        self,
                    ).board@.grid[i].row == row as int,
                    ..old(self).board@.grid[i]
                }),
    {
        self.board.mouse_hover(col, row)
    }

    /// A left click: resolves the selection from the hovered flags and
    /// regenerates the availability flags for it against the catalog.
    pub fn mouse_left_click(&mut self) -> (r: Result<(), Error>)
        requires
            game_wf(*old(self)),
        ensures
            game_wf(*final(self)),
            final(self).piece_catalog == old(self).piece_catalog,
            match collect_board(select_view(old(self).board@), old(self).piece_catalog@, 0) {
                CollectOutcome::Missing(nm) => ({
                    &&& r matches Err(e)
                    &&& e matches Error::PieceNotFound(nf)
                    &&& nf.name@ == nm
                    &&& final(self).board@ == select_view(old(self).board@)
                }),
                CollectOutcome::Sel(sel) => ({
                    let b1 = select_view(old(self).board@);
                    &&& r is Ok
                    &&& final(self).board@.name == b1.name
                    &&& final(self).board@.width == b1.width
                    &&& final(self).board@.height == b1.height
                    &&& final(self).board@.players == b1.players
                    &&& final(self).board@.dead == b1.dead
                    &&& final(self).board@.moves == b1.moves
                    &&& final(self).board@.grid.len() == b1.grid.len()
                    &&& forall|i: int|
                        0 <= i < b1.grid.len() ==> (#[trigger] final(self).board@.grid[i])
                            == (SpaceModel {
                            avail_move: move_marks(b1, sel, b1.grid[i].col, b1.grid[i].row),
                            avail_kill: kill_marks(b1, sel, b1.grid[i].col, b1.grid[i].row),
                            danger: false,
                            ..b1.grid[i]
                        })
                }),
            },
    {
        self.board.mouse_left_click(&self.piece_catalog)
    }
}

} // verus!
