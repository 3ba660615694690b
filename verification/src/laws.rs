//! Laws of the library, stated and proved once for all inputs: what the
//! parsed move set contains, that separators and token positions do not
//! change a successful parse, and how the generated flags relate to
//! occupancy and teams.

use vstd::prelude::*;

use crate::board::board_wf;
use crate::board::in_bounds;
use crate::board::BoardModel;
use crate::move_gen::has_enemy;
use crate::move_gen::kill_marks;
use crate::move_gen::lemma_contrib_same_config;
use crate::move_gen::move_marks;
use crate::move_gen::occupied;
use crate::move_gen::rule_kill_contrib;
use crate::move_gen::rule_move_contrib;
use crate::move_gen::same_config;
use crate::move_gen::SelModel;
use crate::piece::empty_piece;
use crate::piece::PieceModel;
use crate::piece_catalog::apply_stmt;
use crate::piece_catalog::parse_stmts;
use crate::piece_catalog::piece_from;
use crate::piece_catalog::spec_lex;
use crate::piece_catalog::spec_stmt;
use crate::piece_catalog::wf_tokens;
use crate::piece_catalog::ParseOutcome;
use crate::piece_catalog::StatementModel;
use crate::piece_catalog::StmtOutcome;
use crate::piece_catalog::TokenModel;
use crate::piece_move::PieceMove;
use crate::text::dash_run_end;
use crate::text::lemma_dash_run_end;

verus! {

/// The movement rules that a statement list produces, in statement order:
/// one rule per `Leap`, `Kill` or `Run` statement with its exact offsets,
/// and one zero-offset rule per `Special` statement.
pub open spec fn stmts_moves(ss: Seq<StatementModel>, i: int) -> Seq<PieceMove>
    decreases ss.len() - i when 0 <= i <= ss.len()
{
    if i >= ss.len() {
        Seq::empty()
    } else {
        match ss[i] {
            StatementModel::Move { kind, forward, left } => seq![
                PieceMove { forward: forward as i32, left: left as i32, rules: kind },
            ] + stmts_moves(ss, i + 1),
            StatementModel::SpecialMove { kind } => seq![
                PieceMove { forward: 0i32, left: 0i32, rules: kind },
            ] + stmts_moves(ss, i + 1),
            _ => stmts_moves(ss, i + 1),
        }
    }
}

proof fn lemma_piece_from_moves(p: PieceModel, ss: Seq<StatementModel>, i: int)
    requires
        0 <= i <= ss.len(),
    ensures
        piece_from(p, ss, i).move_set == p.move_set + stmts_moves(ss, i),
    decreases ss.len() - i,
{
    if i >= ss.len() {
        assert(p.move_set + Seq::<PieceMove>::empty() =~= p.move_set);
    } else {
        lemma_piece_from_moves(apply_stmt(p, ss[i]), ss, i + 1);
        match ss[i] {
            StatementModel::Move { kind, forward, left } => {
                let m = PieceMove { forward: forward as i32, left: left as i32, rules: kind };
                assert(p.move_set.push(m) + stmts_moves(ss, i + 1) =~= p.move_set + (seq![m]
                    + stmts_moves(ss, i + 1)));
            },
            StatementModel::SpecialMove { kind } => {
                let m = PieceMove { forward: 0i32, left: 0i32, rules: kind };
                assert(p.move_set.push(m) + stmts_moves(ss, i + 1) =~= p.move_set + (seq![m]
                    + stmts_moves(ss, i + 1)));
            },
            _ => {},
        }
    }
}

/// Round trip of the move statements: the move set of a parsed descriptor
/// holds exactly one rule per movement statement, in file order, with the
/// statement's own kind and offsets.
pub proof fn lemma_move_set_round_trip(ss: Seq<StatementModel>)
    ensures
        piece_from(empty_piece(), ss, 0).move_set == stmts_moves(ss, 0),
{
    lemma_piece_from_moves(empty_piece(), ss, 0);
    assert(empty_piece().move_set + stmts_moves(ss, 0) =~= stmts_moves(ss, 0));
}

/// Comment skipping in the lexer: a separator line (a run of dashes closed
/// by a newline) contributes no token; lexing continues after the newline,
/// one line later.
pub proof fn lemma_separator_line_skipped(s: Seq<char>, i: int, line: nat)
    requires
        0 <= i < s.len(),
        s[i] == '-',
        dash_run_end(s, i + 1) < s.len(),
        s[dash_run_end(s, i + 1)] == '\n',
    ensures
        spec_lex(s, i, line) == spec_lex(s, dash_run_end(s, i + 1) + 1, line + 1),
{
    lemma_dash_run_end(s, i + 1);
    let j = dash_run_end(s, i + 1);
    assert(spec_lex(s, i, line) == spec_lex(s, j, line));
    assert(spec_lex(s, j, line) == spec_lex(s, j + 1, line + 1));
}

/// Comment skipping in the parser: a successful parse depends only on the
/// kinds of the tokens, never on the lines they were read on; so token
/// lists that differ only in line numbers (as lexing with and without
/// separator lines produces) parse to the same statements.
pub proof fn lemma_parse_ignores_token_lines(ts1: Seq<TokenModel>, ts2: Seq<TokenModel>, i: int)
    requires
        wf_tokens(ts1),
        ts1.len() == ts2.len(),
        forall|k: int| 0 <= k < ts1.len() ==> (#[trigger] ts1[k]).kind == ts2[k].kind,
        0 <= i < ts1.len(),
    ensures
        parse_stmts(ts1, i) matches ParseOutcome::Stmts(ss) ==> parse_stmts(ts2, i)
            == ParseOutcome::Stmts(ss),
    decreases ts1.len() - i,
{
    assert forall|k: int| 0 <= k < ts2.len() - 1 implies !((#[trigger] ts2[k].kind) is EndOfFile) by {
        assert(ts1[k].kind == ts2[k].kind);
    }
    assert(ts1[ts1.len() - 1].kind == ts2[ts2.len() - 1].kind);
    assert(wf_tokens(ts2));
    if parse_stmts(ts1, i) matches ParseOutcome::Stmts(ss) {
        if ts1[i].kind is EndOfFile {
        } else {
            match spec_stmt(ts1, i) {
                StmtOutcome::Good(st, next) => {
                    crate::piece_catalog::lemma_spec_stmt_next(ts1, i);
                    assert(spec_stmt(ts2, i) == StmtOutcome::Good(st, next));
                    lemma_parse_ignores_token_lines(ts1, ts2, next);
                },
                StmtOutcome::Bad(l, t) => {},
            }
        }
    }
}

/// Leap never lands on an occupied square and Run never slides onto one:
/// an occupied square is never marked available to move, by any selection.
pub proof fn lemma_occupied_never_available_to_move(
    b: BoardModel,
    sel: Seq<SelModel>,
    c: int,
    r: int,
)
    requires
        in_bounds(b, c, r),
        occupied(b, c, r),
    ensures
        !move_marks(b, sel, c, r),
{
    assert forall|a: int, j: int|
        0 <= a < sel.len() && 0 <= j < sel[a].moves.len() implies !rule_move_contrib(
        b,
        sel[a],
        #[trigger] sel[a].moves[j],
        c,
        r,
    ) by {}
}

/// A square occupied only by teammates of every selected piece is never
/// marked available to kill.
pub proof fn lemma_same_team_never_available_to_kill(
    b: BoardModel,
    sel: Seq<SelModel>,
    c: int,
    r: int,
)
    requires
        forall|a: int| 0 <= a < sel.len() ==> !has_enemy(b, c, r, (#[trigger] sel[a]).team),
    ensures
        !kill_marks(b, sel, c, r),
{
    assert forall|a: int, j: int|
        0 <= a < sel.len() && 0 <= j < sel[a].moves.len() implies !rule_kill_contrib(
        b,
        sel[a],
        #[trigger] sel[a].moves[j],
        c,
        r,
    ) by {}
}

/// A `Kill` rule whose on-board target holds an opposing occupant does mark
/// the target available to kill.
pub proof fn lemma_enemy_target_available_to_kill(
    b: BoardModel,
    sel: Seq<SelModel>,
    a: int,
    j: int,
)
    requires
        0 <= a < sel.len(),
        0 <= j < sel[a].moves.len(),
        sel[a].moves[j].rules is Kill,
        in_bounds(b, sel[a].col + sel[a].moves[j].left, sel[a].row + sel[a].moves[j].forward),
        has_enemy(
            b,
            sel[a].col + sel[a].moves[j].left,
            sel[a].row + sel[a].moves[j].forward,
            sel[a].team,
        ),
    ensures
        kill_marks(
            b,
            sel,
            sel[a].col + sel[a].moves[j].left,
            sel[a].row + sel[a].moves[j].forward,
        ),
{
    let c = sel[a].col + sel[a].moves[j].left;
    let r = sel[a].row + sel[a].moves[j].forward;
    assert(rule_kill_contrib(b, sel[a], sel[a].moves[j], c, r));
}

/// Full-board reset: the marks of a generation pass depend only on the
/// board's configuration (dimensions, coordinates and occupants), never on
/// the transient flags a previous pass left behind. Together with the
/// generator's contract, two passes from boards that differ only in their
/// flags end with identical flags.
pub proof fn lemma_marks_depend_on_configuration_only(
    b1: BoardModel,
    b2: BoardModel,
    sel: Seq<SelModel>,
    c: int,
    r: int,
)
    requires
        same_config(b1, b2),
        board_wf(b1),
        board_wf(b2),
    ensures
        move_marks(b1, sel, c, r) == move_marks(b2, sel, c, r),
        kill_marks(b1, sel, c, r) == kill_marks(b2, sel, c, r),
{
    assert forall|a: int, j: int|
        0 <= a < sel.len() && 0 <= j < sel[a].moves.len() implies (rule_move_contrib(
        b1,
        sel[a],
        #[trigger] sel[a].moves[j],
        c,
        r,
    ) == rule_move_contrib(b2, sel[a], sel[a].moves[j], c, r)) && (rule_kill_contrib(
        b1,
        sel[a],
        sel[a].moves[j],
        c,
        r,
    ) == rule_kill_contrib(b2, sel[a], sel[a].moves[j], c, r)) by {
        lemma_contrib_same_config(b1, b2, sel[a], sel[a].moves[j], c, r);
    }
}

} // verus!
