//! The move generator: given the selected pieces, marks every square a
//! `Leap` rule can reach as available to move, every square a `Kill` rule
//! can capture on as available to kill, and walks `Run` rules square by
//! square until blocked.

use vstd::prelude::*;

use crate::board::board_wf;
use crate::board::grid_index;
use crate::board::in_bounds;
use crate::board::lemma_grid_index;
use crate::board::space_model;
use crate::board::Board;
use crate::board::BoardModel;
use crate::board_space::BoardSpace;
use crate::board_space::SpaceModel;
use crate::errors::Error;
use crate::game_piece::GamePieceModel;
use crate::piece::PieceModel;
use crate::piece_catalog::catalog_wf;
use crate::piece_catalog::has_piece;
use crate::piece_catalog::piece_named;
use crate::piece_catalog::PieceCatalog;
use crate::piece_move::MoveRules;
use crate::piece_move::PieceMove;
use crate::text::str_eq;

use vstd::arithmetic::div_mod::lemma_fundamental_div_mod;

verus! {

/// The mathematical content of one selected piece: its movement rules, its
/// 0-based coordinates, and its team.
pub struct SelModel {
    pub moves: Seq<PieceMove>,
    pub col: int,
    pub row: int,
    pub team: Seq<char>,
}

/// One selected piece, as collected from the board for a generation pass.
pub struct SelectedPiece {
    pub moves: Vec<PieceMove>,
    pub horz_pos: u32,
    pub vert_pos: u32,
    pub team_name: String,
}

impl View for SelectedPiece {
    type V = SelModel;

    open spec fn view(&self) -> SelModel {
        SelModel {
            moves: self.moves@,
            col: self.horz_pos as int,
            row: self.vert_pos as int,
            team: self.team_name@,
        }
    }
}

/// The selected-piece views of a selection.
pub open spec fn sel_view(sel: Seq<SelectedPiece>) -> Seq<SelModel> {
    sel.map_values(|p: SelectedPiece| p@)
}

/// The square holds at least one piece.
pub open spec fn occupied(b: BoardModel, c: int, r: int) -> bool {
    space_model(b, c, r).pieces.len() > 0
}

/// The square holds at least one piece of another team.
pub open spec fn has_enemy(b: BoardModel, c: int, r: int, team: Seq<char>) -> bool {
    exists|k: int|
        0 <= k < space_model(b, c, r).pieces.len() && space_model(b, c, r).pieces[k].team_name
            != team
}

/// The column reached after `t` applications of the rule's offsets.
pub open spec fn step_col(p: SelModel, m: PieceMove, t: int) -> int {
    p.col + t * (m.left as int)
}

/// The row reached after `t` applications of the rule's offsets.
pub open spec fn step_row(p: SelModel, m: PieceMove, t: int) -> int {
    p.row + t * (m.forward as int)
}

/// Every square strictly before step `t` along the rule's direction is on
/// the board and empty.
pub open spec fn run_prefix_clear(b: BoardModel, p: SelModel, m: PieceMove, t: int) -> bool {
    forall|k: int|
        #![trigger step_col(p, m, k)]
        1 <= k < t ==> in_bounds(b, step_col(p, m, k), step_row(p, m, k)) && !occupied(
            b,
            step_col(p, m, k),
            step_row(p, m, k),
        )
}

/// This one rule of this one piece marks square `(c, r)` available to move:
/// a `Leap` onto an empty on-board target, or a `Run` that reaches the
/// square over empty on-board squares and finds it empty. Special rules and
/// a `Run` with zero offsets mark nothing.
pub open spec fn rule_move_contrib(
    b: BoardModel,
    p: SelModel,
    m: PieceMove,
    c: int,
    r: int,
) -> bool {
    if m.rules is Leap {
        c == p.col + m.left && r == p.row + m.forward && in_bounds(b, c, r) && !occupied(b, c, r)
    } else if m.rules is Run {
        (m.forward != 0 || m.left != 0) && exists|t: int|
            #![trigger step_col(p, m, t)]
            1 <= t && c == step_col(p, m, t) && r == step_row(p, m, t) && in_bounds(b, c, r)
                && !occupied(b, c, r) && run_prefix_clear(b, p, m, t)
    } else {
        false
    }
}

/// This one rule of this one piece marks square `(c, r)` available to kill:
/// a `Kill` onto an on-board target with an enemy occupant, or a `Run` that
/// reaches the square over empty on-board squares and finds an enemy on it.
pub open spec fn rule_kill_contrib(
    b: BoardModel,
    p: SelModel,
    m: PieceMove,
    c: int,
    r: int,
) -> bool {
    if m.rules is Kill {
        c == p.col + m.left && r == p.row + m.forward && in_bounds(b, c, r) && has_enemy(
            b,
            c,
            r,
            p.team,
        )
    } else if m.rules is Run {
        (m.forward != 0 || m.left != 0) && exists|t: int|
            #![trigger step_col(p, m, t)]
            1 <= t && c == step_col(p, m, t) && r == step_row(p, m, t) && in_bounds(b, c, r)
                && occupied(b, c, r) && has_enemy(b, c, r, p.team) && run_prefix_clear(b, p, m, t)
    } else {
        false
    }
}

/// Some rule of some selected piece marks square `(c, r)` available to move.
pub open spec fn move_marks(b: BoardModel, sel: Seq<SelModel>, c: int, r: int) -> bool {
    exists|a: int, j: int|
        #![trigger sel[a].moves[j]]
        0 <= a < sel.len() && 0 <= j < sel[a].moves.len() && rule_move_contrib(
            b,
            sel[a],
            sel[a].moves[j],
            c,
            r,
        )
}

/// Some rule of some selected piece marks square `(c, r)` available to kill.
pub open spec fn kill_marks(b: BoardModel, sel: Seq<SelModel>, c: int, r: int) -> bool {
    exists|a: int, j: int|
        #![trigger sel[a].moves[j]]
        0 <= a < sel.len() && 0 <= j < sel[a].moves.len() && rule_kill_contrib(
            b,
            sel[a],
            sel[a].moves[j],
            c,
            r,
        )
}

/// Two boards share their dimensions, their space coordinates and their
/// occupants; the transient flags may differ.
pub open spec fn same_config(b1: BoardModel, b2: BoardModel) -> bool {
    &&& b1.width == b2.width
    &&& b1.height == b2.height
    &&& b1.grid.len() == b2.grid.len()
    &&& forall|i: int|
        0 <= i < b1.grid.len() ==> (#[trigger] b1.grid[i]).col == b2.grid[i].col && b1.grid[i].row
            == b2.grid[i].row && b1.grid[i].pieces == b2.grid[i].pieces
}

/// A rule's contributions depend only on the board's configuration, never
/// on its transient flags.
pub proof fn lemma_contrib_same_config(
    b1: BoardModel,
    b2: BoardModel,
    p: SelModel,
    m: PieceMove,
    c: int,
    r: int,
)
    requires
        same_config(b1, b2),
        board_wf(b1),
        board_wf(b2),
    ensures
        rule_move_contrib(b1, p, m, c, r) == rule_move_contrib(b2, p, m, c, r),
        rule_kill_contrib(b1, p, m, c, r) == rule_kill_contrib(b2, p, m, c, r),
{
    assert forall|x: int, y: int| in_bounds(b1, x, y) implies in_bounds(b2, x, y) by {}
    assert forall|x: int, y: int| in_bounds(b2, x, y) implies in_bounds(b1, x, y) by {}
    assert forall|x: int, y: int| #![trigger space_model(b1, x, y)]
        in_bounds(b1, x, y) implies occupied(b1, x, y) == occupied(b2, x, y) && has_enemy(
        b1,
        x,
        y,
        p.team,
    ) == has_enemy(b2, x, y, p.team) by {
        lemma_grid_index(b1, x, y);
        lemma_grid_index(b2, x, y);
        assert(b1.grid[grid_index(b1, x, y)].pieces == b2.grid[grid_index(b2, x, y)].pieces);
    }
    assert forall|t: int| #![trigger step_col(p, m, t)]
        run_prefix_clear(b1, p, m, t) == run_prefix_clear(b2, p, m, t) by {
        if run_prefix_clear(b1, p, m, t) {
            assert forall|k: int| #![trigger step_col(p, m, k)]
                1 <= k < t implies in_bounds(b2, step_col(p, m, k), step_row(p, m, k)) && !occupied(
                b2,
                step_col(p, m, k),
                step_row(p, m, k),
            ) by {
                assert(in_bounds(b1, step_col(p, m, k), step_row(p, m, k)));
                if 0 <= grid_index(b1, step_col(p, m, k), step_row(p, m, k)) < b1.grid.len() {
                    assert(b1.grid[grid_index(b1, step_col(p, m, k), step_row(p, m, k))].pieces
                        == b2.grid[grid_index(b2, step_col(p, m, k), step_row(p, m, k))].pieces);
                }
            }
        }
        if run_prefix_clear(b2, p, m, t) {
            assert forall|k: int| #![trigger step_col(p, m, k)]
                1 <= k < t implies in_bounds(b1, step_col(p, m, k), step_row(p, m, k)) && !occupied(
                b1,
                step_col(p, m, k),
                step_row(p, m, k),
            ) by {
                assert(in_bounds(b2, step_col(p, m, k), step_row(p, m, k)));
                if 0 <= grid_index(b2, step_col(p, m, k), step_row(p, m, k)) < b2.grid.len() {
                    assert(b2.grid[grid_index(b2, step_col(p, m, k), step_row(p, m, k))].pieces
                        == b1.grid[grid_index(b1, step_col(p, m, k), step_row(p, m, k))].pieces);
                }
            }
        }
    }
    if rule_move_contrib(b1, p, m, c, r) || rule_move_contrib(b2, p, m, c, r) {
        if m.rules is Run {
            if rule_move_contrib(b1, p, m, c, r) {
                let t = choose|t: int|
                    #![trigger step_col(p, m, t)]
                    1 <= t && c == step_col(p, m, t) && r == step_row(p, m, t) && in_bounds(b1, c, r)
                        && !occupied(b1, c, r) && run_prefix_clear(b1, p, m, t);
                assert(1 <= t && c == step_col(p, m, t) && r == step_row(p, m, t) && in_bounds(
                    b2,
                    c,
                    r,
                ) && !occupied(b2, c, r) && run_prefix_clear(b2, p, m, t));
            }
            if rule_move_contrib(b2, p, m, c, r) {
                let t = choose|t: int|
                    #![trigger step_col(p, m, t)]
                    1 <= t && c == step_col(p, m, t) && r == step_row(p, m, t) && in_bounds(b2, c, r)
                        && !occupied(b2, c, r) && run_prefix_clear(b2, p, m, t);
                assert(1 <= t && c == step_col(p, m, t) && r == step_row(p, m, t) && in_bounds(
                    b1,
                    c,
                    r,
                ) && !occupied(b1, c, r) && run_prefix_clear(b1, p, m, t));
            }
        }
    }
    if rule_kill_contrib(b1, p, m, c, r) || rule_kill_contrib(b2, p, m, c, r) {
        if m.rules is Run {
            if rule_kill_contrib(b1, p, m, c, r) {
                let t = choose|t: int|
                    #![trigger step_col(p, m, t)]
                    1 <= t && c == step_col(p, m, t) && r == step_row(p, m, t) && in_bounds(b1, c, r)
                        && occupied(b1, c, r) && has_enemy(b1, c, r, p.team) && run_prefix_clear(
                        b1,
                        p,
                        m,
                        t,
                    );
                assert(1 <= t && c == step_col(p, m, t) && r == step_row(p, m, t) && in_bounds(
                    b2,
                    c,
                    r,
                ) && occupied(b2, c, r) && has_enemy(b2, c, r, p.team) && run_prefix_clear(
                    b2,
                    p,
                    m,
                    t,
                ));
            }
            if rule_kill_contrib(b2, p, m, c, r) {
                let t = choose|t: int|
                    #![trigger step_col(p, m, t)]
                    1 <= t && c == step_col(p, m, t) && r == step_row(p, m, t) && in_bounds(b2, c, r)
                        && occupied(b2, c, r) && has_enemy(b2, c, r, p.team) && run_prefix_clear(
                        b2,
                        p,
                        m,
                        t,
                    );
                assert(1 <= t && c == step_col(p, m, t) && r == step_row(p, m, t) && in_bounds(
                    b1,
                    c,
                    r,
                ) && occupied(b1, c, r) && has_enemy(b1, c, r, p.team) && run_prefix_clear(
                    b1,
                    p,
                    m,
                    t,
                ));
            }
        }
    }
}

/// Squares a `Run` rule has marked available to move within its first
/// `tmax` steps (exclusive).
pub open spec fn run_move_upto(
    b: BoardModel,
    p: SelModel,
    m: PieceMove,
    tmax: int,
    c: int,
    r: int,
) -> bool {
    exists|t: int|
        #![trigger step_col(p, m, t)]
        1 <= t < tmax && c == step_col(p, m, t) && r == step_row(p, m, t) && in_bounds(b, c, r)
            && !occupied(b, c, r) && run_prefix_clear(b, p, m, t)
}

/// A `Run` whose walked squares stay on the board takes at most one step
/// per square of the longer board side.
pub proof fn lemma_run_bound(b: BoardModel, p: SelModel, m: PieceMove, t: int)
    requires
        board_wf(b),
        m.forward != 0 || m.left != 0,
        t >= 1,
        in_bounds(b, step_col(p, m, 1), step_row(p, m, 1)),
        in_bounds(b, step_col(p, m, t), step_row(p, m, t)),
    ensures
        t <= 32768,
{
    if t > 1 {
        if m.left != 0 {
            let w = b.width;
            assert(t <= 32768) by (nonlinear_arith)
                requires
                    t >= 2,
                    m.left as int != 0,
                    -0x8000_0000 <= m.left as int <= 0x7FFF_FFFF,
                    0 <= w <= 32767,
                    0 <= p.col + 1 * (m.left as int) < w,
                    0 <= p.col + t * (m.left as int) < w,
            ;
        } else {
            let h = b.height;
            assert(t <= 32768) by (nonlinear_arith)
                requires
                    t >= 2,
                    m.forward as int != 0,
                    -0x8000_0000 <= m.forward as int <= 0x7FFF_FFFF,
                    0 <= h <= 32767,
                    0 <= p.row + 1 * (m.forward as int) < h,
                    0 <= p.row + t * (m.forward as int) < h,
            ;
        }
    }
}

/// On a well-formed board, a space's coordinates determine its flat index.
pub proof fn lemma_coords_determine_index(b: BoardModel, i: int)
    requires
        board_wf(b),
        0 <= i < b.grid.len(),
    ensures
        in_bounds(b, b.grid[i].col, b.grid[i].row),
        i == grid_index(b, b.grid[i].col, b.grid[i].row),
{
    assert(b.width > 0) by (nonlinear_arith)
        requires
            b.grid.len() == b.width * b.height,
            0 <= i < b.grid.len(),
            0 <= b.width,
    ;
    lemma_fundamental_div_mod(i, b.width);
    assert(0 <= i % b.width < b.width);
    assert(0 <= i / b.width < b.height) by (nonlinear_arith)
        requires
            0 <= i < b.width * b.height,
            0 < b.width,
            i == b.width * (i / b.width) + i % b.width,
            0 <= i % b.width < b.width,
    ;
}

/// Squares marked available to move by the rules strictly before rule `j`
/// of piece `a`, in selection order.
pub open spec fn move_marks_upto(
    b: BoardModel,
    sel: Seq<SelModel>,
    a: int,
    j: int,
    c: int,
    r: int,
) -> bool {
    exists|x: int, y: int|
        #![trigger sel[x].moves[y]]
        0 <= x < sel.len() && 0 <= y < sel[x].moves.len() && (x < a || (x == a && y < j))
            && rule_move_contrib(b, sel[x], sel[x].moves[y], c, r)
}

/// Squares marked available to kill by the rules strictly before rule `j`
/// of piece `a`, in selection order.
pub open spec fn kill_marks_upto(
    b: BoardModel,
    sel: Seq<SelModel>,
    a: int,
    j: int,
    c: int,
    r: int,
) -> bool {
    exists|x: int, y: int|
        #![trigger sel[x].moves[y]]
        0 <= x < sel.len() && 0 <= y < sel[x].moves.len() && (x < a || (x == a && y < j))
            && rule_kill_contrib(b, sel[x], sel[x].moves[y], c, r)
}

/// Processing one more rule adds exactly its own contribution.
pub proof fn lemma_marks_upto_step(
    b: BoardModel,
    sel: Seq<SelModel>,
    a: int,
    j: int,
    c: int,
    r: int,
)
    requires
        0 <= a < sel.len(),
        0 <= j < sel[a].moves.len(),
    ensures
        move_marks_upto(b, sel, a, j + 1, c, r) == (move_marks_upto(b, sel, a, j, c, r)
            || rule_move_contrib(b, sel[a], sel[a].moves[j], c, r)),
        kill_marks_upto(b, sel, a, j + 1, c, r) == (kill_marks_upto(b, sel, a, j, c, r)
            || rule_kill_contrib(b, sel[a], sel[a].moves[j], c, r)),
{
    if move_marks_upto(b, sel, a, j + 1, c, r) {
        let (x, y) = choose|x: int, y: int|
            #![trigger sel[x].moves[y]]
            0 <= x < sel.len() && 0 <= y < sel[x].moves.len() && (x < a || (x == a && y < j + 1))
                && rule_move_contrib(b, sel[x], sel[x].moves[y], c, r);
        if x == a && y == j {
        } else {
            assert(move_marks_upto(b, sel, a, j, c, r));
        }
    }
    if kill_marks_upto(b, sel, a, j + 1, c, r) {
        let (x, y) = choose|x: int, y: int|
            #![trigger sel[x].moves[y]]
            0 <= x < sel.len() && 0 <= y < sel[x].moves.len() && (x < a || (x == a && y < j + 1))
                && rule_kill_contrib(b, sel[x], sel[x].moves[y], c, r);
        if x == a && y == j {
        } else {
            assert(kill_marks_upto(b, sel, a, j, c, r));
        }
    }
}

/// Finishing a piece's rule list is starting the next piece's.
pub proof fn lemma_marks_upto_row_end(
    b: BoardModel,
    sel: Seq<SelModel>,
    a: int,
    c: int,
    r: int,
)
    requires
        0 <= a < sel.len(),
    ensures
        move_marks_upto(b, sel, a, sel[a].moves.len() as int, c, r) == move_marks_upto(
            b,
            sel,
            a + 1,
            0,
            c,
            r,
        ),
        kill_marks_upto(b, sel, a, sel[a].moves.len() as int, c, r) == kill_marks_upto(
            b,
            sel,
            a + 1,
            0,
            c,
            r,
        ),
{
}

/// Every rule of every piece processed is the full set of marks.
pub proof fn lemma_marks_upto_full(b: BoardModel, sel: Seq<SelModel>, c: int, r: int)
    ensures
        move_marks_upto(b, sel, sel.len() as int, 0, c, r) == move_marks(b, sel, c, r),
        kill_marks_upto(b, sel, sel.len() as int, 0, c, r) == kill_marks(b, sel, c, r),
{
}

/// A copy of a rule list.
fn copy_moves(v: &Vec<PieceMove>) -> (r: Vec<PieceMove>)
    ensures
        r@ == v@,
{
    let n = v.len();
    let mut out: Vec<PieceMove> = Vec::new();
    let mut i: usize = 0;
    while i < n
        invariant
            0 <= i <= n,
            n == v@.len(),
            out@ == v@.take(i as int),
        decreases n - i,
    {
        out.push(v[i]);
        proof {
            assert(v@.take(i + 1) =~= v@.take(i as int).push(v@[i as int]));
        }
        i = i + 1;
    }
    proof {
        assert(v@.take(n as int) =~= v@);
    }
    out
}

/// Whether some occupant of the space belongs to another team.
fn has_enemy_occupant(space: &BoardSpace, team: &String) -> (r: bool)
    ensures
        r == exists|k: int|
            0 <= k < space@.pieces.len() && space@.pieces[k].team_name != team@,
{
    let n = space.game_pieces.len();
    let mut i: usize = 0;
    while i < n
        invariant
            0 <= i <= n,
            n == space.game_pieces@.len(),
            forall|k: int| 0 <= k < i ==> (#[trigger] space@.pieces[k]).team_name == team@,
        decreases n - i,
    {
        if !str_eq(space.game_pieces[i].team_name.as_str(), team.as_str()) {
            proof {
                assert(space@.pieces[i as int].team_name != team@);
            }
            return true;
        }
        i = i + 1;
    }
    false
}

impl Board {
    /// Applies one movement rule of one selected piece, turning on the
    /// availability flags of exactly the squares the rule contributes.
    #[verifier::rlimit(100)]
    fn apply_rule(&mut self, sp: &SelectedPiece, mv: &PieceMove)
        requires
            board_wf(old(self)@),
        ensures
            board_wf(final(self)@),
            final(self)@.name == old(self)@.name,
            final(self)@.width == old(self)@.width,
            final(self)@.height == old(self)@.height,
            final(self)@.players == old(self)@.players,
            final(self)@.dead == old(self)@.dead,
            final(self)@.moves == old(self)@.moves,
            final(self)@.grid.len() == old(self)@.grid.len(),
            forall|i: int|
                0 <= i < old(self)@.grid.len() ==> (#[trigger] final(self)@.grid[i]) == (SpaceModel {
                    avail_move: old(self)@.grid[i].avail_move || rule_move_contrib(
                        old(self)@,
                        sp@,
                        *mv,
                        old(self)@.grid[i].col,
                        old(self)@.grid[i].row,
                    ),
                    avail_kill: old(self)@.grid[i].avail_kill || rule_kill_contrib(
                        old(self)@,
                        sp@,
                        *mv,
                        old(self)@.grid[i].col,
                        old(self)@.grid[i].row,
                    ),
                    ..old(self)@.grid[i]
                }),
    {
        let ghost b0 = self@;
        let ghost p = sp@;
        let ghost m = *mv;
        match mv.rules {
            MoveRules::Leap => {
                let tc: i64 = sp.horz_pos as i64 + mv.left as i64;
                let tr: i64 = sp.vert_pos as i64 + mv.forward as i64;
                if 0 <= tc && tc < self.width as i64 && 0 <= tr && tr < self.height as i64 {
                    proof {
                        lemma_grid_index(b0, tc as int, tr as int);
                        assert((tr as int) * b0.width + (tc as int) < 0x4000_0000int)
                            by (nonlinear_arith)
                            requires
                                0 <= (tc as int) < b0.width <= 32767,
                                0 <= (tr as int) < b0.height <= 32767,
                        ;
                    }
                    let idx: usize = (tr as usize) * (self.width as usize) + (tc as usize);
                    if self.grid[idx].game_pieces.len() == 0 {
                        self.grid[idx].available_to_move = true;
                    }
                }
                proof {
                    assert forall|i: int| 0 <= i < b0.grid.len() implies (#[trigger] self@.grid[i])
                        == (SpaceModel {
                        avail_move: b0.grid[i].avail_move || rule_move_contrib(
                            b0,
                            p,
                            m,
                            b0.grid[i].col,
                            b0.grid[i].row,
                        ),
                        avail_kill: b0.grid[i].avail_kill || rule_kill_contrib(
                            b0,
                            p,
                            m,
                            b0.grid[i].col,
                            b0.grid[i].row,
                        ),
                        ..b0.grid[i]
                    }) by {
                        lemma_coords_determine_index(b0, i);
                    }
                    assert(board_wf(self@));
                }
            },
            MoveRules::Kill => {
                let tc: i64 = sp.horz_pos as i64 + mv.left as i64;
                let tr: i64 = sp.vert_pos as i64 + mv.forward as i64;
                if 0 <= tc && tc < self.width as i64 && 0 <= tr && tr < self.height as i64 {
                    proof {
                        lemma_grid_index(b0, tc as int, tr as int);
                        assert((tr as int) * b0.width + (tc as int) < 0x4000_0000int)
                            by (nonlinear_arith)
                            requires
                                0 <= (tc as int) < b0.width <= 32767,
                                0 <= (tr as int) < b0.height <= 32767,
                        ;
                    }
                    let idx: usize = (tr as usize) * (self.width as usize) + (tc as usize);
                    if has_enemy_occupant(&self.grid[idx], &sp.team_name) {
                        self.grid[idx].available_to_kill = true;
                    }
                }
                proof {
                    assert forall|i: int| 0 <= i < b0.grid.len() implies (#[trigger] self@.grid[i])
                        == (SpaceModel {
                        avail_move: b0.grid[i].avail_move || rule_move_contrib(
                            b0,
                            p,
                            m,
                            b0.grid[i].col,
                            b0.grid[i].row,
                        ),
                        avail_kill: b0.grid[i].avail_kill || rule_kill_contrib(
                            b0,
                            p,
                            m,
                            b0.grid[i].col,
                            b0.grid[i].row,
                        ),
                        ..b0.grid[i]
                    }) by {
                        lemma_coords_determine_index(b0, i);
                    }
                    assert(board_wf(self@));
                }
            },
            MoveRules::Run => {
                if mv.forward == 0 && mv.left == 0 {
                    return ;
                }
                let mut cur_c: i64 = sp.horz_pos as i64;
                let mut cur_r: i64 = sp.vert_pos as i64;
                let mut t: u32 = 0;
                loop
                    invariant_except_break
                        0 <= t <= 32768,
                        cur_c as int == step_col(p, m, t as int),
                        cur_r as int == step_row(p, m, t as int),
                        run_prefix_clear(b0, p, m, t + 1),
                        forall|i: int|
                            0 <= i < b0.grid.len() ==> (#[trigger] self@.grid[i]) == (SpaceModel {
                                avail_move: b0.grid[i].avail_move || run_move_upto(
                                    b0,
                                    p,
                                    m,
                                    t + 1,
                                    b0.grid[i].col,
                                    b0.grid[i].row,
                                ),
                                ..b0.grid[i]
                            }),
                    invariant
                        board_wf(b0),
                        b0 == old(self)@,
                        p == sp@,
                        m == *mv,
                        m.rules is Run,
                        m.forward != 0 || m.left != 0,
                        board_wf(self@),
                        self@.name == b0.name,
                        self@.width == b0.width,
                        self@.height == b0.height,
                        self@.players == b0.players,
                        self@.dead == b0.dead,
                        self@.moves == b0.moves,
                        self@.grid.len() == b0.grid.len(),
                    ensures
                        board_wf(self@),
                        self@.name == b0.name,
                        self@.width == b0.width,
                        self@.height == b0.height,
                        self@.players == b0.players,
                        self@.dead == b0.dead,
                        self@.moves == b0.moves,
                        self@.grid.len() == b0.grid.len(),
                        forall|i: int|
                            0 <= i < b0.grid.len() ==> (#[trigger] self@.grid[i]) == (SpaceModel {
                                avail_move: b0.grid[i].avail_move || rule_move_contrib(
                                    b0,
                                    p,
                                    m,
                                    b0.grid[i].col,
                                    b0.grid[i].row,
                                ),
                                avail_kill: b0.grid[i].avail_kill || rule_kill_contrib(
                                    b0,
                                    p,
                                    m,
                                    b0.grid[i].col,
                                    b0.grid[i].row,
                                ),
                                ..b0.grid[i]
                            }),
                    decreases 40000 - t,
                {
                    proof {
                        if t >= 1 {
                            assert(in_bounds(b0, step_col(p, m, t as int), step_row(p, m, t as int)));
                        }
                        assert((cur_c as int) + (m.left as int) == step_col(p, m, t + 1))
                            by (nonlinear_arith)
                            requires
                                cur_c as int == step_col(p, m, t as int),
                                step_col(p, m, t as int) == p.col + (t as int) * (m.left as int),
                                step_col(p, m, t + 1) == p.col + (t + 1) * (m.left as int),
                        ;
                        assert((cur_r as int) + (m.forward as int) == step_row(p, m, t + 1))
                            by (nonlinear_arith)
                            requires
                                cur_r as int == step_row(p, m, t as int),
                                step_row(p, m, t as int) == p.row + (t as int) * (m.forward as int),
                                step_row(p, m, t + 1) == p.row + (t + 1) * (m.forward as int),
                        ;
                    }
                    cur_c = cur_c + mv.left as i64;
                    cur_r = cur_r + mv.forward as i64;
                    t = t + 1;
                    if !(0 <= cur_c && cur_c < self.width as i64 && 0 <= cur_r && cur_r
                        < self.height as i64) {
                        proof {
                            assert forall|i: int|
                                0 <= i < b0.grid.len() implies !rule_kill_contrib(
                                b0,
                                p,
                                m,
                                (#[trigger] b0.grid[i]).col,
                                b0.grid[i].row,
                            ) && (rule_move_contrib(b0, p, m, b0.grid[i].col, b0.grid[i].row)
                                == run_move_upto(b0, p, m, t as int, b0.grid[i].col, b0.grid[i].row)) by {
                                let c = b0.grid[i].col;
                                let r = b0.grid[i].row;
                                if rule_kill_contrib(b0, p, m, c, r) {
                                    let tw = choose|tw: int|
                                        #![trigger step_col(p, m, tw)]
                                        1 <= tw && c == step_col(p, m, tw) && r == step_row(
                                            p,
                                            m,
                                            tw,
                                        ) && in_bounds(b0, c, r) && occupied(b0, c, r) && has_enemy(
                                            b0,
                                            c,
                                            r,
                                            p.team,
                                        ) && run_prefix_clear(b0, p, m, tw);
                                    if tw < t {
                                        assert(!occupied(b0, step_col(p, m, tw), step_row(p, m, tw)));
                                    } else {
                                        assert(in_bounds(b0, step_col(p, m, t as int), step_row(p, m, t as int)));
                                    }
                                }
                                if rule_move_contrib(b0, p, m, c, r) {
                                    let tw = choose|tw: int|
                                        #![trigger step_col(p, m, tw)]
                                        1 <= tw && c == step_col(p, m, tw) && r == step_row(
                                            p,
                                            m,
                                            tw,
                                        ) && in_bounds(b0, c, r) && !occupied(b0, c, r)
                                            && run_prefix_clear(b0, p, m, tw);
                                    if tw >= t {
                                        if tw == t {
                                            assert(in_bounds(b0, step_col(p, m, t as int), step_row(p, m, t as int)));
                                        } else {
                                            assert(in_bounds(b0, step_col(p, m, t as int), step_row(p, m, t as int)));
                                        }
                                    }
                                    assert(run_move_upto(b0, p, m, t as int, c, r));
                                }
                                if run_move_upto(b0, p, m, t as int, c, r) {
                                    assert(rule_move_contrib(b0, p, m, c, r));
                                }
                            }
                        }
                        break;
                    }
                    proof {
                        lemma_grid_index(b0, cur_c as int, cur_r as int);
                        assert((cur_r as int) * b0.width + (cur_c as int) < 0x4000_0000int)
                            by (nonlinear_arith)
                            requires
                                0 <= (cur_c as int) < b0.width <= 32767,
                                0 <= (cur_r as int) < b0.height <= 32767,
                        ;
                        if t >= 2 {
                            assert(in_bounds(b0, step_col(p, m, 1), step_row(p, m, 1)));
                        }
                        lemma_run_bound(b0, p, m, t as int);
                    }
                    let idx: usize = (cur_r as usize) * (self.width as usize) + (cur_c as usize);
                    if self.grid[idx].game_pieces.len() == 0 {
                        let ghost gprev = self@;
                        self.grid[idx].available_to_move = true;
                        proof {
                            assert(forall|i: int|
                                0 <= i < b0.grid.len() && i != idx as int ==> (
                                #[trigger] self@.grid[i]) == gprev.grid[i]);
                            assert(self@.grid[idx as int] == (SpaceModel {
                                avail_move: true,
                                ..gprev.grid[idx as int]
                            }));
                            assert(self@.grid[idx as int].pieces == b0.grid[idx as int].pieces);
                            assert(!occupied(b0, cur_c as int, cur_r as int));
                            assert forall|i: int|
                                0 <= i < b0.grid.len() implies (#[trigger] self@.grid[i])
                                == (SpaceModel {
                                avail_move: b0.grid[i].avail_move || run_move_upto(
                                    b0,
                                    p,
                                    m,
                                    t + 1,
                                    b0.grid[i].col,
                                    b0.grid[i].row,
                                ),
                                ..b0.grid[i]
                            }) by {
                                let c = b0.grid[i].col;
                                let r = b0.grid[i].row;
                                lemma_coords_determine_index(b0, i);
                                if i == idx as int {
                                    assert(run_move_upto(b0, p, m, t + 1, c, r)) by {
                                        assert(1 <= (t as int) < t + 1 && c == step_col(p, m, t as int)
                                            && r == step_row(p, m, t as int) && in_bounds(b0, c, r)
                                            && !occupied(b0, c, r) && run_prefix_clear(b0, p, m, t as int));
                                    }
                                } else {
                                    assert(run_move_upto(b0, p, m, t + 1, c, r) == run_move_upto(
                                        b0,
                                        p,
                                        m,
                                        t as int,
                                        c,
                                        r,
                                    )) by {
                                        if run_move_upto(b0, p, m, t + 1, c, r) {
                                            let tw = choose|tw: int|
                                                #![trigger step_col(p, m, tw)]
                                                1 <= tw < t + 1 && c == step_col(p, m, tw) && r
                                                    == step_row(p, m, tw) && in_bounds(b0, c, r)
                                                    && !occupied(b0, c, r) && run_prefix_clear(
                                                    b0,
                                                    p,
                                                    m,
                                                    tw,
                                                );
                                            if tw == t {
                                                assert(i == grid_index(b0, c, r));
                                            }
                                            assert(run_move_upto(b0, p, m, t as int, c, r));
                                        }
                                    }
                                }
                            }
                            assert(run_prefix_clear(b0, p, m, t + 1));
                            assert(board_wf(self@));
                        }
                    } else {
                        if has_enemy_occupant(&self.grid[idx], &sp.team_name) {
                            self.grid[idx].available_to_kill = true;
                        }
                        proof {
                            assert(self@.grid[idx as int].pieces == b0.grid[idx as int].pieces);
                            assert(occupied(b0, cur_c as int, cur_r as int));
                            assert forall|i: int|
                                0 <= i < b0.grid.len() implies (#[trigger] self@.grid[i])
                                == (SpaceModel {
                                avail_move: b0.grid[i].avail_move || rule_move_contrib(
                                    b0,
                                    p,
                                    m,
                                    b0.grid[i].col,
                                    b0.grid[i].row,
                                ),
                                avail_kill: b0.grid[i].avail_kill || rule_kill_contrib(
                                    b0,
                                    p,
                                    m,
                                    b0.grid[i].col,
                                    b0.grid[i].row,
                                ),
                                ..b0.grid[i]
                            }) by {
                                let c = b0.grid[i].col;
                                let r = b0.grid[i].row;
                                lemma_coords_determine_index(b0, i);
                                assert(rule_move_contrib(b0, p, m, c, r) == run_move_upto(
                                    b0,
                                    p,
                                    m,
                                    t as int,
                                    c,
                                    r,
                                )) by {
                                    if rule_move_contrib(b0, p, m, c, r) {
                                        let tw = choose|tw: int|
                                            #![trigger step_col(p, m, tw)]
                                            1 <= tw && c == step_col(p, m, tw) && r == step_row(
                                                p,
                                                m,
                                                tw,
                                            ) && in_bounds(b0, c, r) && !occupied(b0, c, r)
                                                && run_prefix_clear(b0, p, m, tw);
                                        if tw == t {
                                            assert(i == grid_index(b0, c, r));
                                            assert(occupied(b0, c, r));
                                        } else if tw > t {
                                            assert(!occupied(b0, step_col(p, m, t as int), step_row(p, m, t as int)));
                                        }
                                        assert(run_move_upto(b0, p, m, t as int, c, r));
                                    }
                                    if run_move_upto(b0, p, m, t as int, c, r) {
                                        assert(rule_move_contrib(b0, p, m, c, r));
                                    }
                                }
                                assert(rule_kill_contrib(b0, p, m, c, r) == (i == idx as int
                                    && has_enemy(b0, cur_c as int, cur_r as int, p.team))) by {
                                    if rule_kill_contrib(b0, p, m, c, r) {
                                        let tw = choose|tw: int|
                                            #![trigger step_col(p, m, tw)]
                                            1 <= tw && c == step_col(p, m, tw) && r == step_row(
                                                p,
                                                m,
                                                tw,
                                            ) && in_bounds(b0, c, r) && occupied(b0, c, r)
                                                && has_enemy(b0, c, r, p.team) && run_prefix_clear(
                                                b0,
                                                p,
                                                m,
                                                tw,
                                            );
                                        if tw < t {
                                            assert(!occupied(b0, step_col(p, m, tw), step_row(p, m, tw)));
                                        } else if tw > t {
                                            assert(!occupied(b0, step_col(p, m, t as int), step_row(p, m, t as int)));
                                        }
                                        assert(i == grid_index(b0, c, r));
                                    }
                                    if i == idx as int && has_enemy(b0, cur_c as int, cur_r as int, p.team) {
                                        assert(1 <= t as int && c == step_col(p, m, t as int) && r
                                            == step_row(p, m, t as int) && in_bounds(b0, c, r)
                                            && occupied(b0, c, r) && has_enemy(b0, c, r, p.team)
                                            && run_prefix_clear(b0, p, m, t as int));
                                    }
                                }
                            }
                            assert(board_wf(self@));
                        }
                        break;
                    }
                }
            },
            MoveRules::PawnFirst => {
                proof {
                    assert forall|i: int| 0 <= i < b0.grid.len() implies (#[trigger] self@.grid[i])
                        == (SpaceModel {
                        avail_move: b0.grid[i].avail_move || false,
                        avail_kill: b0.grid[i].avail_kill || false,
                        ..b0.grid[i]
                    }) by {}
                }
            },
            MoveRules::Castle => {
                proof {
                    assert forall|i: int| 0 <= i < b0.grid.len() implies (#[trigger] self@.grid[i])
                        == (SpaceModel {
                        avail_move: b0.grid[i].avail_move || false,
                        avail_kill: b0.grid[i].avail_kill || false,
                        ..b0.grid[i]
                    }) by {}
                }
            },
        }
    }
}

impl Board {
    /// Runs a full generation pass for the given selection: every transient
    /// flag is cleared, then every rule of every selected piece marks the
    /// squares it contributes, so that afterwards a square is available to
    /// move (or kill) exactly when some rule of some selected piece marks
    /// it against the board as it stood before the pass.
    pub fn generate_moves_for(&mut self, pieces: Vec<SelectedPiece>)
        requires
            board_wf(old(self)@),
        ensures
            board_wf(final(self)@),
            final(self)@.name == old(self)@.name,
            final(self)@.width == old(self)@.width,
            final(self)@.height == old(self)@.height,
            final(self)@.players == old(self)@.players,
            final(self)@.dead == old(self)@.dead,
            final(self)@.moves == old(self)@.moves,
            final(self)@.grid.len() == old(self)@.grid.len(),
            forall|i: int|
                0 <= i < old(self)@.grid.len() ==> (#[trigger] final(self)@.grid[i]) == (SpaceModel {
                    avail_move: move_marks(
                        old(self)@,
                        sel_view(pieces@),
                        old(self)@.grid[i].col,
                        old(self)@.grid[i].row,
                    ),
                    avail_kill: kill_marks(
                        old(self)@,
                        sel_view(pieces@),
                        old(self)@.grid[i].col,
                        old(self)@.grid[i].row,
                    ),
                    danger: false,
                    ..old(self)@.grid[i]
                }),
    {
        let ghost b0 = self@;
        let ghost sv = sel_view(pieces@);
        let n = self.grid.len();
        let mut i: usize = 0;
        while i < n
            invariant
                0 <= i <= n,
                n == self.grid@.len(),
                self.name == old(self).name,
                self.width == old(self).width,
                self.height == old(self).height,
                self.players == old(self).players,
                self.dead_pieces == old(self).dead_pieces,
                self.moves == old(self).moves,
                self.grid@.len() == old(self).grid@.len(),
                b0 == old(self)@,
                forall|k: int|
                    0 <= k < i ==> (#[trigger] self.grid@[k])@ == (SpaceModel {
                        avail_move: false,
                        avail_kill: false,
                        danger: false,
                        ..old(self).grid@[k]@
                    }),
                forall|k: int|
                    i <= k < n ==> (#[trigger] self.grid@[k]) == old(self).grid@[k],
            decreases n - i,
        {
            self.grid[i].available_to_move = false;
            self.grid[i].available_to_kill = false;
            self.grid[i].is_danger = false;
            i = i + 1;
        }
        proof {
            assert forall|k: int| 0 <= k < b0.grid.len() implies (#[trigger] self@.grid[k])
                == (SpaceModel {
                avail_move: move_marks_upto(b0, sv, 0, 0, b0.grid[k].col, b0.grid[k].row),
                avail_kill: kill_marks_upto(b0, sv, 0, 0, b0.grid[k].col, b0.grid[k].row),
                danger: false,
                ..b0.grid[k]
            }) by {
                assert(self@.grid[k] == self.grid@[k]@);
                assert(b0.grid[k] == old(self).grid@[k]@);
            }
            assert(same_config(self@, b0));
            assert(board_wf(self@));
        }
        let m = pieces.len();
        let mut a: usize = 0;
        while a < m
            invariant
                0 <= a <= m,
                m == pieces@.len(),
                sv == sel_view(pieces@),
                b0 == old(self)@,
                board_wf(b0),
                board_wf(self@),
                same_config(self@, b0),
                self@.name == b0.name,
                self@.players == b0.players,
                self@.dead == b0.dead,
                self@.moves == b0.moves,
                forall|k: int|
                    0 <= k < b0.grid.len() ==> (#[trigger] self@.grid[k]) == (SpaceModel {
                        avail_move: move_marks_upto(
                            b0,
                            sv,
                            a as int,
                            0,
                            b0.grid[k].col,
                            b0.grid[k].row,
                        ),
                        avail_kill: kill_marks_upto(
                            b0,
                            sv,
                            a as int,
                            0,
                            b0.grid[k].col,
                            b0.grid[k].row,
                        ),
                        danger: false,
                        ..b0.grid[k]
                    }),
            decreases m - a,
        {
            let rules = pieces[a].moves.len();
            let mut j: usize = 0;
            while j < rules
                invariant
                    0 <= a < m,
                    0 <= j <= rules,
                    m == pieces@.len(),
                    rules == pieces@[a as int].moves@.len(),
                    sv == sel_view(pieces@),
                    b0 == old(self)@,
                    board_wf(b0),
                    board_wf(self@),
                    same_config(self@, b0),
                    self@.name == b0.name,
                    self@.players == b0.players,
                    self@.dead == b0.dead,
                    self@.moves == b0.moves,
                    forall|k: int|
                        0 <= k < b0.grid.len() ==> (#[trigger] self@.grid[k]) == (SpaceModel {
                            avail_move: move_marks_upto(
                                b0,
                                sv,
                                a as int,
                                j as int,
                                b0.grid[k].col,
                                b0.grid[k].row,
                            ),
                            avail_kill: kill_marks_upto(
                                b0,
                                sv,
                                a as int,
                                j as int,
                                b0.grid[k].col,
                                b0.grid[k].row,
                            ),
                            danger: false,
                            ..b0.grid[k]
                        }),
                decreases rules - j,
            {
                let mv = pieces[a].moves[j];
                let ghost bpre = self@;
                proof {
                    assert(sv[a as int] == pieces@[a as int]@);
                    assert(sv[a as int].moves[j as int] == mv);
                }
                self.apply_rule(&pieces[a], &mv);
                proof {
                    assert forall|k: int| 0 <= k < b0.grid.len() implies (#[trigger] self@.grid[k])
                        == (SpaceModel {
                        avail_move: move_marks_upto(
                            b0,
                            sv,
                            a as int,
                            j + 1,
                            b0.grid[k].col,
                            b0.grid[k].row,
                        ),
                        avail_kill: kill_marks_upto(
                            b0,
                            sv,
                            a as int,
                            j + 1,
                            b0.grid[k].col,
                            b0.grid[k].row,
                        ),
                        danger: false,
                        ..b0.grid[k]
                    }) by {
                        let c = b0.grid[k].col;
                        let r = b0.grid[k].row;
                        assert(bpre.grid[k] == (SpaceModel {
                            avail_move: move_marks_upto(b0, sv, a as int, j as int, c, r),
                            avail_kill: kill_marks_upto(b0, sv, a as int, j as int, c, r),
                            danger: false,
                            ..b0.grid[k]
                        }));
                        assert(bpre.grid[k].col == c && bpre.grid[k].row == r);
                        lemma_contrib_same_config(bpre, b0, sv[a as int], mv, c, r);
                        lemma_marks_upto_step(b0, sv, a as int, j as int, c, r);
                    }
                    assert(same_config(self@, b0));
                }
                j = j + 1;
            }
            proof {
                assert forall|k: int| 0 <= k < b0.grid.len() implies (#[trigger] self@.grid[k])
                    == (SpaceModel {
                    avail_move: move_marks_upto(
                        b0,
                        sv,
                        a + 1,
                        0,
                        b0.grid[k].col,
                        b0.grid[k].row,
                    ),
                    avail_kill: kill_marks_upto(
                        b0,
                        sv,
                        a + 1,
                        0,
                        b0.grid[k].col,
                        b0.grid[k].row,
                    ),
                    danger: false,
                    ..b0.grid[k]
                }) by {
                    lemma_marks_upto_row_end(b0, sv, a as int, b0.grid[k].col, b0.grid[k].row);
                }
            }
            a = a + 1;
        }
        proof {
            assert forall|k: int| 0 <= k < b0.grid.len() implies (#[trigger] self@.grid[k])
                == (SpaceModel {
                avail_move: move_marks(b0, sv, b0.grid[k].col, b0.grid[k].row),
                avail_kill: kill_marks(b0, sv, b0.grid[k].col, b0.grid[k].row),
                danger: false,
                ..b0.grid[k]
            }) by {
                lemma_marks_upto_full(b0, sv, b0.grid[k].col, b0.grid[k].row);
            }
        }
    }
}

/// A space after selection resolution: each occupant's `selected` flag set
/// to the space's `hovered` flag.
pub open spec fn select_space(sp: SpaceModel) -> SpaceModel {
    SpaceModel {
        pieces: sp.pieces.map_values(
            |g: GamePieceModel| GamePieceModel { selected: sp.hovered, ..g },
        ),
        ..sp
    }
}

/// The board after selection resolution.
pub open spec fn select_view(b: BoardModel) -> BoardModel {
    BoardModel { grid: b.grid.map_values(|sp: SpaceModel| select_space(sp)), ..b }
}

/// What collecting the selected pieces yields: the selection in grid order,
/// or the first selected piece name absent from the catalog.
pub enum CollectOutcome {
    Sel(Seq<SelModel>),
    Missing(Seq<char>),
}

/// Prepends a selected piece to a successful collection.
pub open spec fn sel_cons(s: SelModel, rest: CollectOutcome) -> CollectOutcome {
    match rest {
        CollectOutcome::Sel(ss) => CollectOutcome::Sel(seq![s] + ss),
        CollectOutcome::Missing(n) => CollectOutcome::Missing(n),
    }
}

/// Joins two collections in order; the first missing name wins.
pub open spec fn coll_join(a: CollectOutcome, b: CollectOutcome) -> CollectOutcome {
    match a {
        CollectOutcome::Missing(n) => CollectOutcome::Missing(n),
        CollectOutcome::Sel(s1) => match b {
            CollectOutcome::Missing(n) => CollectOutcome::Missing(n),
            CollectOutcome::Sel(s2) => CollectOutcome::Sel(s1 + s2),
        },
    }
}

/// The selected occupants of one space from position `k` on, each resolved
/// against the catalog.
pub open spec fn collect_space(sp: SpaceModel, cat: Seq<PieceModel>, k: int) -> CollectOutcome
    decreases sp.pieces.len() - k when 0 <= k <= sp.pieces.len()
{
    if k >= sp.pieces.len() {
        CollectOutcome::Sel(Seq::empty())
    } else {
        let gp = sp.pieces[k];
        if !gp.selected {
            collect_space(sp, cat, k + 1)
        } else if !has_piece(cat, gp.piece_name) {
            CollectOutcome::Missing(gp.piece_name)
        } else {
            sel_cons(
                SelModel {
                    moves: piece_named(cat, gp.piece_name).move_set,
                    col: gp.col,
                    row: gp.row,
                    team: gp.team_name,
                },
                collect_space(sp, cat, k + 1),
            )
        }
    }
}

/// The selected occupants of the whole grid from space `i` on, in grid
/// order.
pub open spec fn collect_board(b: BoardModel, cat: Seq<PieceModel>, i: int) -> CollectOutcome
    decreases b.grid.len() - i when 0 <= i <= b.grid.len()
{
    if i >= b.grid.len() {
        CollectOutcome::Sel(Seq::empty())
    } else {
        coll_join(collect_space(b.grid[i], cat, 0), collect_board(b, cat, i + 1))
    }
}

pub proof fn lemma_coll_join_cons(acc: Seq<SelModel>, s: SelModel, x: CollectOutcome, y: CollectOutcome)
    ensures
        coll_join(CollectOutcome::Sel(acc), coll_join(sel_cons(s, x), y)) == coll_join(
            CollectOutcome::Sel(acc.push(s)),
            coll_join(x, y),
        ),
{
    match x {
        CollectOutcome::Sel(s1) => {
            match y {
                CollectOutcome::Sel(s2) => {
                    assert(acc + (seq![s] + s1 + s2) =~= acc.push(s) + (s1 + s2));
                },
                CollectOutcome::Missing(n) => {},
            }
        },
        CollectOutcome::Missing(n) => {},
    }
}

pub proof fn lemma_coll_join_empty(acc: Seq<SelModel>, y: CollectOutcome)
    ensures
        coll_join(CollectOutcome::Sel(acc), coll_join(CollectOutcome::Sel(Seq::empty()), y))
            == coll_join(CollectOutcome::Sel(acc), y),
        coll_join(CollectOutcome::Sel(acc), CollectOutcome::Sel(Seq::empty()))
            == CollectOutcome::Sel(acc),
{
    match y {
        CollectOutcome::Sel(s2) => {
            assert(Seq::<SelModel>::empty() + s2 =~= s2);
        },
        CollectOutcome::Missing(n) => {},
    }
    assert(acc + Seq::<SelModel>::empty() =~= acc);
}

impl Board {
    /// Resolves the selection and runs a generation pass: a click transfers
    /// each space's `hovered` flag onto each of its occupants' `selected`
    /// flag, the selected pieces are collected in grid order against the
    /// catalog, and the availability flags are regenerated for them. A
    /// selected piece name absent from the catalog aborts the pass with a
    /// piece-not-found error, leaving the flags as they were.
    pub fn generate_moves_for_selection(&mut self, pieces: &PieceCatalog) -> (r: Result<(), Error>)
        requires
            board_wf(old(self)@),
            catalog_wf(pieces@),
        ensures
            board_wf(final(self)@),
            match collect_board(select_view(old(self)@), pieces@, 0) {
                CollectOutcome::Missing(nm) => ({
                    &&& r matches Err(e)
                    &&& e matches Error::PieceNotFound(nf)
                    &&& nf.name@ == nm
                    &&& final(self)@ == select_view(old(self)@)
                }),
                CollectOutcome::Sel(sel) => ({
                    let b1 = select_view(old(self)@);
                    &&& r is Ok
                    &&& final(self)@.name == b1.name
                    &&& final(self)@.width == b1.width
                    &&& final(self)@.height == b1.height
                    &&& final(self)@.players == b1.players
                    &&& final(self)@.dead == b1.dead
                    &&& final(self)@.moves == b1.moves
                    &&& final(self)@.grid.len() == b1.grid.len()
                    &&& forall|i: int|
                        0 <= i < b1.grid.len() ==> (#[trigger] final(self)@.grid[i]) == (SpaceModel {
                            avail_move: move_marks(b1, sel, b1.grid[i].col, b1.grid[i].row),
                            avail_kill: kill_marks(b1, sel, b1.grid[i].col, b1.grid[i].row),
                            danger: false,
                            ..b1.grid[i]
                        })
                }),
            },
    {
        let ghost b0 = self@;
        let ghost b1 = select_view(self@);
        let n = self.grid.len();
        let mut i: usize = 0;
        while i < n
            invariant
                0 <= i <= n,
                n == self.grid@.len(),
                self.name == old(self).name,
                self.width == old(self).width,
                self.height == old(self).height,
                self.players == old(self).players,
                self.dead_pieces == old(self).dead_pieces,
                self.moves == old(self).moves,
                self.grid@.len() == old(self).grid@.len(),
                b0 == old(self)@,
                b1 == select_view(old(self)@),
                forall|k: int|
                    0 <= k < i ==> (#[trigger] self.grid@[k])@ == select_space(
                        old(self).grid@[k]@,
                    ),
                forall|k: int|
                    i <= k < n ==> (#[trigger] self.grid@[k]) == old(self).grid@[k],
            decreases n - i,
        {
            let hov = self.grid[i].hovered;
            let plen = self.grid[i].game_pieces.len();
            let mut k: usize = 0;
            while k < plen
                invariant
                    0 <= k <= plen,
                    0 <= i < n,
                    n == self.grid@.len(),
                    self.name == old(self).name,
                    self.width == old(self).width,
                    self.height == old(self).height,
                    self.players == old(self).players,
                    self.dead_pieces == old(self).dead_pieces,
                    self.moves == old(self).moves,
                    self.grid@.len() == old(self).grid@.len(),
                    plen == self.grid@[i as int].game_pieces@.len(),
                    hov == old(self).grid@[i as int].hovered,
                    self.grid@[i as int].horz_position == old(self).grid@[i as int].horz_position,
                    self.grid@[i as int].vert_position == old(self).grid@[i as int].vert_position,
                    self.grid@[i as int].hovered == old(self).grid@[i as int].hovered,
                    self.grid@[i as int].is_active == old(self).grid@[i as int].is_active,
                    self.grid@[i as int].available_to_move == old(self).grid@[
                        i as int
                    ].available_to_move,
                    self.grid@[i as int].available_to_kill == old(self).grid@[
                        i as int
                    ].available_to_kill,
                    self.grid@[i as int].is_danger == old(self).grid@[i as int].is_danger,
                    self.grid@[i as int].color == old(self).grid@[i as int].color,
                    forall|q: int|
                        0 <= q < k ==> (#[trigger] self.grid@[i as int].game_pieces@[q])@
                            == (GamePieceModel {
                            selected: hov,
                            ..old(self).grid@[i as int].game_pieces@[q]@
                        }),
                    forall|q: int|
                        k <= q < plen ==> (#[trigger] self.grid@[i as int].game_pieces@[q])
                            == old(self).grid@[i as int].game_pieces@[q],
                    forall|q: int|
                        0 <= q < i ==> (#[trigger] self.grid@[q])@ == select_space(
                            old(self).grid@[q]@,
                        ),
                    forall|q: int|
                        i < q < n ==> (#[trigger] self.grid@[q]) == old(self).grid@[q],
                decreases plen - k,
            {
                self.grid[i].game_pieces[k].selected = hov;
                k = k + 1;
            }
            proof {
                assert(self.grid@[i as int]@.pieces =~= select_space(old(self).grid@[i as int]@).pieces);
                assert(self.grid@[i as int]@ == select_space(old(self).grid@[i as int]@));
            }
            i = i + 1;
        }
        proof {
            assert forall|k: int| 0 <= k < b1.grid.len() implies (#[trigger] self@.grid[k])
                == b1.grid[k] by {
                assert(self@.grid[k] == self.grid@[k]@);
                assert(b1.grid[k] == select_space(old(self).grid@[k]@));
            }
            assert(self@.grid =~= b1.grid);
            assert(self@ == b1);
            assert forall|q: int|
                0 <= q < b1.grid.len() implies (#[trigger] b1.grid[q]).col == b0.grid[q].col
                && b1.grid[q].row == b0.grid[q].row && b1.grid[q].pieces.len()
                == b0.grid[q].pieces.len() by {
                assert(b1.grid[q] == select_space(b0.grid[q]));
            }
            assert forall|q: int, w: int|
                0 <= q < b1.grid.len() && 0 <= w < b1.grid[q].pieces.len() implies (
            #[trigger] b1.grid[q].pieces[w]).col == b0.grid[q].pieces[w].col
                && b1.grid[q].pieces[w].row == b0.grid[q].pieces[w].row by {
                assert(b1.grid[q] == select_space(b0.grid[q]));
            }
            assert(board_wf(self@));
        }
        // Collect the selected pieces in grid order.
        let ghost cat = pieces@;
        let mut sel: Vec<SelectedPiece> = Vec::new();
        let mut i2: usize = 0;
        proof {
            assert(coll_join(
                CollectOutcome::Sel(sel_view(sel@)),
                collect_board(b1, cat, 0),
            ) == collect_board(b1, cat, 0)) by {
                assert(sel_view(sel@) =~= Seq::<SelModel>::empty());
                match collect_board(b1, cat, 0) {
                    CollectOutcome::Sel(s2) => {
                        assert(Seq::<SelModel>::empty() + s2 =~= s2);
                    },
                    CollectOutcome::Missing(nm) => {},
                }
            }
        }
        while i2 < n
            invariant
                0 <= i2 <= n,
                n == self.grid@.len(),
                self@ == b1,
                board_wf(b1),
                catalog_wf(cat),
                cat == pieces@,
                b1 == select_view(old(self)@),
                collect_board(b1, cat, 0) == coll_join(
                    CollectOutcome::Sel(sel_view(sel@)),
                    collect_board(b1, cat, i2 as int),
                ),
            decreases n - i2,
        {
            let plen = self.grid[i2].game_pieces.len();
            let mut k: usize = 0;
            while k < plen
                invariant
                    0 <= k <= plen,
                    0 <= i2 < n,
                    n == self.grid@.len(),
                    self@ == b1,
                    board_wf(b1),
                    catalog_wf(cat),
                    cat == pieces@,
                    b1 == select_view(old(self)@),
                    plen == self.grid@[i2 as int].game_pieces@.len(),
                    collect_board(b1, cat, 0) == coll_join(
                        CollectOutcome::Sel(sel_view(sel@)),
                        coll_join(
                            collect_space(b1.grid[i2 as int], cat, k as int),
                            collect_board(b1, cat, i2 + 1),
                        ),
                    ),
                decreases plen - k,
            {
                proof {
                    assert(b1.grid[i2 as int] == self.grid@[i2 as int]@);
                    assert(b1.grid[i2 as int].pieces[k as int] == self.grid@[
                        i2 as int
                    ].game_pieces@[k as int]@);
                }
                let gp_selected = self.grid[i2].game_pieces[k].selected;
                if gp_selected {
                    let gp_name = &self.grid[i2].game_pieces[k].piece_name;
                    let found = match pieces.get_piece(gp_name.as_str()) {
                        Ok(p) => p,
                        Err(e) => {
                            return Err(e);
                        },
                    };
                    let sp_new = SelectedPiece {
                        moves: copy_moves(&found.move_set),
                        horz_pos: self.grid[i2].game_pieces[k].horz_position,
                        vert_pos: self.grid[i2].game_pieces[k].vert_position,
                        team_name: self.grid[i2].game_pieces[k].team_name.clone(),
                    };
                    let ghost gpm = b1.grid[i2 as int].pieces[k as int];
                    proof {
                        assert(sp_new@ == (SelModel {
                            moves: piece_named(cat, gpm.piece_name).move_set,
                            col: gpm.col,
                            row: gpm.row,
                            team: gpm.team_name,
                        }));
                        assert(collect_space(b1.grid[i2 as int], cat, k as int) == sel_cons(
                            sp_new@,
                            collect_space(b1.grid[i2 as int], cat, k + 1),
                        ));
                        lemma_coll_join_cons(
                            sel_view(sel@),
                            sp_new@,
                            collect_space(b1.grid[i2 as int], cat, k + 1),
                            collect_board(b1, cat, i2 + 1),
                        );
                        assert(sel_view(sel@.push(sp_new)) =~= sel_view(sel@).push(sp_new@));
                    }
                    sel.push(sp_new);
                } else {
                    proof {
                        assert(collect_space(b1.grid[i2 as int], cat, k as int) == collect_space(
                            b1.grid[i2 as int],
                            cat,
                            k + 1,
                        ));
                    }
                }
                k = k + 1;
            }
            proof {
                assert(collect_space(b1.grid[i2 as int], cat, plen as int)
                    == CollectOutcome::Sel(Seq::empty()));
                lemma_coll_join_empty(sel_view(sel@), collect_board(b1, cat, i2 + 1));
                assert(collect_board(b1, cat, i2 as int) == coll_join(
                    collect_space(b1.grid[i2 as int], cat, 0),
                    collect_board(b1, cat, i2 + 1),
                ));
            }
            i2 = i2 + 1;
        }
        proof {
            assert(collect_board(b1, cat, n as int) == CollectOutcome::Sel(Seq::empty()));
            lemma_coll_join_empty(sel_view(sel@), CollectOutcome::Sel(Seq::empty()));
            assert(collect_board(b1, cat, 0) == CollectOutcome::Sel(sel_view(sel@)));
        }
        self.generate_moves_for(sel);
        Ok(())
    }

    /// A left click: resolves the selection from the hovered flags and
    /// regenerates the availability flags for it.
    pub fn mouse_left_click(&mut self, pieces: &PieceCatalog) -> (r: Result<(), Error>)
        requires
            board_wf(old(self)@),
            catalog_wf(pieces@),
        ensures
            board_wf(final(self)@),
            match collect_board(select_view(old(self)@), pieces@, 0) {
                CollectOutcome::Missing(nm) => ({
                    &&& r matches Err(e)
                    &&& e matches Error::PieceNotFound(nf)
                    &&& nf.name@ == nm
                    &&& final(self)@ == select_view(old(self)@)
                }),
                CollectOutcome::Sel(sel) => ({
                    let b1 = select_view(old(self)@);
                    &&& r is Ok
                    &&& final(self)@.name == b1.name
                    &&& final(self)@.width == b1.width
                    &&& final(self)@.height == b1.height
                    &&& final(self)@.players == b1.players
                    &&& final(self)@.dead == b1.dead
                    &&& final(self)@.moves == b1.moves
                    &&& final(self)@.grid.len() == b1.grid.len()
                    &&& forall|i: int|
                        0 <= i < b1.grid.len() ==> (#[trigger] final(self)@.grid[i]) == (SpaceModel {
                            avail_move: move_marks(b1, sel, b1.grid[i].col, b1.grid[i].row),
                            avail_kill: kill_marks(b1, sel, b1.grid[i].col, b1.grid[i].row),
                            danger: false,
                            ..b1.grid[i]
                        })
                }),
            },
    {
        self.generate_moves_for_selection(pieces)
    }
}

} // verus!
