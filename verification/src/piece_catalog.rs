//! The piece-descriptor language: a lexer for its tokens, a parser for its
//! statements, and the catalog that keys parsed descriptors by piece name.
//!
//! A descriptor is line-oriented text. Runs of dashes are separators (a dash
//! run immediately followed by digits reads as a negative number), `:` is a
//! token of its own, digit runs are numbers, and words are either keywords or
//! free text, with `_` standing for a space.

use vstd::prelude::*;

use crate::errors::Error;
use crate::errors::InvalidFormatError;
use crate::errors::PieceNotFoundError;
use crate::piece::empty_piece;
use crate::piece::Piece;
use crate::piece::PieceModel;
use crate::piece_move::MoveRules;
use crate::piece_move::PieceMove;
use crate::text::dash_run_end;
use crate::text::digit_run_end;
use crate::text::digits_val;
use crate::text::exec_is_blank;
use crate::text::exec_is_digit;
use crate::text::exec_is_letter;
use crate::text::exec_is_word_char;
use crate::text::is_blank;
use crate::text::is_digit;
use crate::text::is_letter;
use crate::text::lemma_dash_run_end;
use crate::text::lemma_digit_run_end;
use crate::text::lemma_digit_run_end_step;
use crate::text::lemma_digits_val_nonneg;
use crate::text::lemma_word_run_end;
use crate::text::lemma_word_run_end_step;
use crate::text::push_char;
use crate::text::str_eq;
use crate::text::texts_view;
use crate::text::underscore_to_space;
use crate::text::word_run_end;

verus! {

/// The kinds of token the piece-descriptor lexer produces.
#[derive(Debug)]
pub enum PieceTokenKind {
    NameKeyword,
    ImageKeyword,
    LeapKeyword,
    KillKeyword,
    SpecialKeyword,
    RunKeyword,
    PromotionKeyword,
    Colon,
    Number(i32),
    Text(String),
    EndOfFile,
}

/// One token: the 1-based line it was read on, its source text, and its kind.
#[derive(Debug)]
pub struct PieceToken {
    pub line: usize,
    pub text: String,
    pub kind: PieceTokenKind,
}

/// The mathematical content of a token kind.
pub enum TokenKindModel {
    NameKeyword,
    ImageKeyword,
    LeapKeyword,
    KillKeyword,
    SpecialKeyword,
    RunKeyword,
    PromotionKeyword,
    Colon,
    Number(int),
    Text(Seq<char>),
    EndOfFile,
}

/// The mathematical content of a token.
pub struct TokenModel {
    pub line: nat,
    pub text: Seq<char>,
    pub kind: TokenKindModel,
}

impl View for PieceTokenKind {
    type V = TokenKindModel;

    open spec fn view(&self) -> TokenKindModel {
        match self {
            PieceTokenKind::NameKeyword => TokenKindModel::NameKeyword,
            PieceTokenKind::ImageKeyword => TokenKindModel::ImageKeyword,
            PieceTokenKind::LeapKeyword => TokenKindModel::LeapKeyword,
            PieceTokenKind::KillKeyword => TokenKindModel::KillKeyword,
            PieceTokenKind::SpecialKeyword => TokenKindModel::SpecialKeyword,
            PieceTokenKind::RunKeyword => TokenKindModel::RunKeyword,
            PieceTokenKind::PromotionKeyword => TokenKindModel::PromotionKeyword,
            PieceTokenKind::Colon => TokenKindModel::Colon,
            PieceTokenKind::Number(n) => TokenKindModel::Number(*n as int),
            PieceTokenKind::Text(s) => TokenKindModel::Text(s@),
            PieceTokenKind::EndOfFile => TokenKindModel::EndOfFile,
        }
    }
}

impl View for PieceToken {
    type V = TokenModel;

    open spec fn view(&self) -> TokenModel {
        TokenModel { line: self.line as nat, text: self.text@, kind: self.kind@ }
    }
}

/// The token views of a token list.
pub open spec fn tokens_view(ts: Seq<PieceToken>) -> Seq<TokenModel> {
    ts.map_values(|t: PieceToken| t@)
}

/// What lexing yields: the full token list, or the line and text of the
/// first offending input.
pub enum LexOutcome {
    Toks(Seq<TokenModel>),
    Fail(nat, Seq<char>),
}

/// Prepends a token to a successful lex; an error swallows it.
pub open spec fn lex_cons(t: TokenModel, rest: LexOutcome) -> LexOutcome {
    match rest {
        LexOutcome::Toks(ts) => LexOutcome::Toks(seq![t] + ts),
        LexOutcome::Fail(l, x) => LexOutcome::Fail(l, x),
    }
}

/// Appends an already-lexed prefix to the outcome of lexing the remainder.
pub open spec fn lex_join(pre: Seq<TokenModel>, rest: LexOutcome) -> LexOutcome {
    match rest {
        LexOutcome::Toks(ts) => LexOutcome::Toks(pre + ts),
        LexOutcome::Fail(l, x) => LexOutcome::Fail(l, x),
    }
}

/// The keyword (or free text) a word reads as. `_` has already been replaced
/// by a space in `w`, so no keyword can contain an underscore.
pub open spec fn word_kind(w: Seq<char>) -> TokenKindModel {
    if w == "Name"@ {
        TokenKindModel::NameKeyword
    } else if w == "Image"@ {
        TokenKindModel::ImageKeyword
    } else if w == "Run"@ {
        TokenKindModel::RunKeyword
    } else if w == "Leap"@ {
        TokenKindModel::LeapKeyword
    } else if w == "Kill"@ {
        TokenKindModel::KillKeyword
    } else if w == "Special"@ {
        TokenKindModel::SpecialKeyword
    } else if w == "Promotion"@ {
        TokenKindModel::PromotionKeyword
    } else {
        TokenKindModel::Text(w)
    }
}

/// The text of the word starting at `i` and running to `j`, with `_` turned
/// into a space.
pub open spec fn word_text(s: Seq<char>, i: int, j: int) -> Seq<char> {
    Seq::new((j - i) as nat, |k: int| underscore_to_space(s[i + k]))
}

/// The lexer itself, from position `i` at line `line`: skips whitespace,
/// counts newlines, skips dash runs (reading a dash run immediately followed
/// by digits as one negative number), and produces colon, number, keyword and
/// text tokens, ending every successful lex with an end-of-file token.
/// A number whose magnitude does not fit a signed 32-bit offset, or any
/// character that fits no token, fails the lex with that line and text.
pub open spec fn spec_lex(s: Seq<char>, i: int, line: nat) -> LexOutcome
    decreases s.len() - i when 0 <= i <= s.len()
{
    if i >= s.len() {
        LexOutcome::Toks(
            seq![TokenModel { line, text: Seq::empty(), kind: TokenKindModel::EndOfFile }],
        )
    } else {
        let c = s[i];
        if c == '\n' {
            spec_lex(s, i + 1, line + 1)
        } else if is_blank(c) {
            spec_lex(s, i + 1, line)
        } else if c == ':' {
            lex_cons(
                TokenModel { line, text: seq![':'], kind: TokenKindModel::Colon },
                spec_lex(s, i + 1, line),
            )
        } else if c == '-' {
            let j = dash_run_end(s, i + 1);
            proof {
                lemma_dash_run_end(s, i + 1);
            }
            if j < s.len() && is_digit(s[j]) {
                let k = digit_run_end(s, j + 1);
                proof {
                    lemma_digit_run_end(s, j + 1);
                }
                let v = digits_val(s, j, k);
                let text = seq!['-'] + s.subrange(j, k);
                if v <= 0x8000_0000 {
                    lex_cons(
                        TokenModel { line, text, kind: TokenKindModel::Number(-v) },
                        spec_lex(s, k, line),
                    )
                } else {
                    LexOutcome::Fail(line, text)
                }
            } else {
                spec_lex(s, j, line)
            }
        } else if is_digit(c) {
            let k = digit_run_end(s, i + 1);
            proof {
                lemma_digit_run_end(s, i + 1);
            }
            let v = digits_val(s, i, k);
            let text = s.subrange(i, k);
            if v <= 0x7FFF_FFFF {
                lex_cons(
                    TokenModel { line, text, kind: TokenKindModel::Number(v) },
                    spec_lex(s, k, line),
                )
            } else {
                LexOutcome::Fail(line, text)
            }
        } else if is_letter(c) {
            let j = word_run_end(s, i + 1);
            proof {
                lemma_word_run_end(s, i + 1);
            }
            let w = word_text(s, i, j);
            lex_cons(TokenModel { line, text: w, kind: word_kind(w) }, spec_lex(s, j, line))
        } else {
            LexOutcome::Fail(line, seq![c])
        }
    }
}

/// A well-formed token list: non-empty, ends with the end-of-file token, and
/// holds no other end-of-file token.
pub open spec fn wf_tokens(ts: Seq<TokenModel>) -> bool {
    &&& ts.len() >= 1
    &&& ts[ts.len() - 1].kind is EndOfFile
    &&& forall|k: int| 0 <= k < ts.len() - 1 ==> !((#[trigger] ts[k].kind) is EndOfFile)
}

/// Joining a prefix with a cons is joining the extended prefix.
pub proof fn lemma_lex_join_cons(pre: Seq<TokenModel>, t: TokenModel, rest: LexOutcome)
    ensures
        lex_join(pre, lex_cons(t, rest)) == lex_join(pre.push(t), rest),
{
    match rest {
        LexOutcome::Toks(ts) => {
            assert(pre + (seq![t] + ts) =~= pre.push(t) + ts);
        },
        LexOutcome::Fail(l, x) => {},
    }
}

pub proof fn lemma_tokens_view_push(ts: Seq<PieceToken>, t: PieceToken)
    ensures
        tokens_view(ts.push(t)) == tokens_view(ts).push(t@),
{
    assert(tokens_view(ts.push(t)) =~= tokens_view(ts).push(t@));
}

/// Every successful lex yields a well-formed token list.
pub proof fn lemma_spec_lex_wf(s: Seq<char>, i: int, line: nat)
    requires
        0 <= i <= s.len(),
    ensures
        spec_lex(s, i, line) matches LexOutcome::Toks(ts) ==> wf_tokens(ts),
    decreases s.len() - i,
{
    if i >= s.len() {
    } else {
        let c = s[i];
        if c == '\n' {
            lemma_spec_lex_wf(s, i + 1, line + 1);
        } else if is_blank(c) {
            lemma_spec_lex_wf(s, i + 1, line);
        } else if c == ':' {
            lemma_spec_lex_wf(s, i + 1, line);
        } else if c == '-' {
            let j = dash_run_end(s, i + 1);
            lemma_dash_run_end(s, i + 1);
            if j < s.len() && is_digit(s[j]) {
                let k = digit_run_end(s, j + 1);
                lemma_digit_run_end(s, j + 1);
                lemma_spec_lex_wf(s, k, line);
            } else {
                lemma_spec_lex_wf(s, j, line);
            }
        } else if is_digit(c) {
            let k = digit_run_end(s, i + 1);
            lemma_digit_run_end(s, i + 1);
            lemma_spec_lex_wf(s, k, line);
        } else if is_letter(c) {
            let j = word_run_end(s, i + 1);
            lemma_word_run_end(s, i + 1);
            lemma_spec_lex_wf(s, j, line);
        }
    }
}

/// The mathematical content of one statement of a piece descriptor.
pub enum StatementModel {
    Name { name: Seq<char> },
    Image { image_path: Seq<char> },
    Move { kind: MoveRules, forward: int, left: int },
    SpecialMove { kind: MoveRules },
    Promotion { name: Seq<char> },
}

/// One parsed statement of a piece descriptor.
#[derive(Debug)]
pub enum PieceStatement {
    Name { name: String },
    Image { image_path: String },
    Move { kind: MoveRules, forward: i32, left: i32 },
    SpecialMove { kind: MoveRules },
    Promotion { name: String },
}

impl View for PieceStatement {
    type V = StatementModel;

    open spec fn view(&self) -> StatementModel {
        match self {
            PieceStatement::Name { name } => StatementModel::Name { name: name@ },
            PieceStatement::Image { image_path } => StatementModel::Image {
                image_path: image_path@,
            },
            PieceStatement::Move { kind, forward, left } => StatementModel::Move {
                kind: *kind,
                forward: *forward as int,
                left: *left as int,
            },
            PieceStatement::SpecialMove { kind } => StatementModel::SpecialMove { kind: *kind },
            PieceStatement::Promotion { name } => StatementModel::Promotion { name: name@ },
        }
    }
}

/// What parsing one statement yields: the statement and the position just
/// after it, or the line and text of the offending token.
pub enum StmtOutcome {
    Good(StatementModel, int),
    Bad(nat, Seq<char>),
}

/// Parses the single statement starting at token `i`: a keyword, a colon,
/// then the keyword's arguments (text for `Name`, `Image`, `Special` and
/// `Promotion`; two numbers for `Leap`, `Kill` and `Run`). A `Special`
/// argument must be `Castle` or `PawnFirst`. Any token out of place fails
/// with that token's line and text.
pub open spec fn spec_stmt(ts: Seq<TokenModel>, i: int) -> StmtOutcome {
    let t0 = ts[i];
    if t0.kind is NameKeyword || t0.kind is ImageKeyword || t0.kind is PromotionKeyword {
        let t1 = ts[i + 1];
        if !(t1.kind is Colon) {
            StmtOutcome::Bad(t1.line, t1.text)
        } else {
            let t2 = ts[i + 2];
            match t2.kind {
                TokenKindModel::Text(w) => {
                    if t0.kind is NameKeyword {
                        StmtOutcome::Good(StatementModel::Name { name: w }, i + 3)
                    } else if t0.kind is ImageKeyword {
                        StmtOutcome::Good(StatementModel::Image { image_path: w }, i + 3)
                    } else {
                        StmtOutcome::Good(StatementModel::Promotion { name: w }, i + 3)
                    }
                },
                _ => StmtOutcome::Bad(t2.line, t2.text),
            }
        }
    } else if t0.kind is LeapKeyword || t0.kind is KillKeyword || t0.kind is RunKeyword {
        let kind = if t0.kind is LeapKeyword {
            MoveRules::Leap
        } else if t0.kind is KillKeyword {
            MoveRules::Kill
        } else {
            MoveRules::Run
        };
        let t1 = ts[i + 1];
        if !(t1.kind is Colon) {
            StmtOutcome::Bad(t1.line, t1.text)
        } else {
            let t2 = ts[i + 2];
            match t2.kind {
                TokenKindModel::Number(f) => {
                    let t3 = ts[i + 3];
                    match t3.kind {
                        TokenKindModel::Number(l) => StmtOutcome::Good(
                            StatementModel::Move { kind, forward: f, left: l },
                            i + 4,
                        ),
                        _ => StmtOutcome::Bad(t3.line, t3.text),
                    }
                },
                _ => StmtOutcome::Bad(t2.line, t2.text),
            }
        }
    } else if t0.kind is SpecialKeyword {
        let t1 = ts[i + 1];
        if !(t1.kind is Colon) {
            StmtOutcome::Bad(t1.line, t1.text)
        } else {
            let t2 = ts[i + 2];
            match t2.kind {
                TokenKindModel::Text(w) => {
                    if w == "Castle"@ {
                        StmtOutcome::Good(
                            StatementModel::SpecialMove { kind: MoveRules::Castle },
                            i + 3,
                        )
                    } else if w == "PawnFirst"@ {
                        StmtOutcome::Good(
                            StatementModel::SpecialMove { kind: MoveRules::PawnFirst },
                            i + 3,
                        )
                    } else {
                        StmtOutcome::Bad(t2.line, t2.text)
                    }
                },
                _ => StmtOutcome::Bad(t2.line, t2.text),
            }
        }
    } else {
        StmtOutcome::Bad(t0.line, t0.text)
    }
}

/// A parsed statement starts past its first token and ends at a token no
/// later than the end-of-file token.
pub proof fn lemma_spec_stmt_next(ts: Seq<TokenModel>, i: int)
    requires
        wf_tokens(ts),
        0 <= i < ts.len(),
        !(ts[i].kind is EndOfFile),
    ensures
        spec_stmt(ts, i) matches StmtOutcome::Good(st, next) ==> i < next <= ts.len() - 1,
{
    assert(i < ts.len() - 1);
    match spec_stmt(ts, i) {
        StmtOutcome::Good(st, next) => {
            assert(!(ts[i + 1].kind is EndOfFile) ==> i + 1 < ts.len() - 1);
            assert(!(ts[i + 2].kind is EndOfFile) ==> i + 2 < ts.len() - 1);
            assert(!(ts[i + 3].kind is EndOfFile) ==> i + 3 < ts.len() - 1);
        },
        StmtOutcome::Bad(l, t) => {},
    }
}

/// What parsing a statement list yields: the statements in order, or the
/// line and text of the first offending token.
pub enum ParseOutcome {
    Stmts(Seq<StatementModel>),
    Fail(nat, Seq<char>),
}

/// Prepends a statement to a successful parse; an error swallows it.
pub open spec fn stmt_cons(st: StatementModel, rest: ParseOutcome) -> ParseOutcome {
    match rest {
        ParseOutcome::Stmts(ss) => ParseOutcome::Stmts(seq![st] + ss),
        ParseOutcome::Fail(l, t) => ParseOutcome::Fail(l, t),
    }
}

/// Appends an already-parsed prefix to the outcome of parsing the remainder.
pub open spec fn stmt_join(pre: Seq<StatementModel>, rest: ParseOutcome) -> ParseOutcome {
    match rest {
        ParseOutcome::Stmts(ss) => ParseOutcome::Stmts(pre + ss),
        ParseOutcome::Fail(l, t) => ParseOutcome::Fail(l, t),
    }
}

pub proof fn lemma_stmt_join_cons(pre: Seq<StatementModel>, st: StatementModel, rest: ParseOutcome)
    ensures
        stmt_join(pre, stmt_cons(st, rest)) == stmt_join(pre.push(st), rest),
{
    match rest {
        ParseOutcome::Stmts(ss) => {
            assert(pre + (seq![st] + ss) =~= pre.push(st) + ss);
        },
        ParseOutcome::Fail(l, t) => {},
    }
}

/// Parses statements from token `i` until the end-of-file token.
pub open spec fn parse_stmts(ts: Seq<TokenModel>, i: int) -> ParseOutcome
    decreases ts.len() - i when wf_tokens(ts) && 0 <= i < ts.len()
{
    if ts[i].kind is EndOfFile {
        ParseOutcome::Stmts(Seq::empty())
    } else {
        match spec_stmt(ts, i) {
            StmtOutcome::Good(st, next) => {
                proof {
                    lemma_spec_stmt_next(ts, i);
                }
                stmt_cons(st, parse_stmts(ts, next))
            },
            StmtOutcome::Bad(l, t) => ParseOutcome::Fail(l, t),
        }
    }
}

/// Folding one statement into a descriptor under construction: `Name` and
/// `Image` overwrite, the move statements append to the move set (special
/// moves with zero offsets), `Promotion` appends a promotion target.
pub open spec fn apply_stmt(p: PieceModel, st: StatementModel) -> PieceModel {
    match st {
        StatementModel::Name { name } => PieceModel { name, ..p },
        StatementModel::Image { image_path } => PieceModel { image_key: image_path, ..p },
        StatementModel::Move { kind, forward, left } => PieceModel {
            move_set: p.move_set.push(
                PieceMove { forward: forward as i32, left: left as i32, rules: kind },
            ),
            ..p
        },
        StatementModel::SpecialMove { kind } => PieceModel {
            move_set: p.move_set.push(PieceMove { forward: 0i32, left: 0i32, rules: kind }),
            ..p
        },
        StatementModel::Promotion { name } => PieceModel {
            promotions: p.promotions.push(name),
            ..p
        },
    }
}

/// The descriptor built by folding the statements from `i` on into `p`.
pub open spec fn piece_from(p: PieceModel, ss: Seq<StatementModel>, i: int) -> PieceModel
    decreases ss.len() - i when 0 <= i <= ss.len()
{
    if i >= ss.len() {
        p
    } else {
        piece_from(apply_stmt(p, ss[i]), ss, i + 1)
    }
}

/// Folding one more statement applies it to the fold of the rest.
pub proof fn lemma_piece_from_push(p: PieceModel, ss: Seq<StatementModel>, st: StatementModel)
    ensures
        piece_from(p, ss.push(st), 0) == apply_stmt(piece_from(p, ss, 0), st),
    decreases ss.len(),
{
    lemma_piece_from_push_at(p, ss, st, 0);
}

proof fn lemma_piece_from_push_at(
    p: PieceModel,
    ss: Seq<StatementModel>,
    st: StatementModel,
    i: int,
)
    requires
        0 <= i <= ss.len(),
    ensures
        piece_from(p, ss.push(st), i) == apply_stmt(piece_from(p, ss, i), st),
    decreases ss.len() - i,
{
    if i < ss.len() {
        assert(ss.push(st)[i] == ss[i]);
        lemma_piece_from_push_at(apply_stmt(p, ss[i]), ss, st, i + 1);
    } else {
        assert(ss.push(st)[i] == st);
        assert(piece_from(p, ss.push(st), i) == piece_from(apply_stmt(p, st), ss.push(st), i + 1));
    }
}

/// What reading a whole descriptor text yields: the descriptor, or the line
/// and text of the first offending input.
pub enum ReadOutcome {
    Good(PieceModel),
    Bad(nat, Seq<char>),
}

/// The full pipeline on one descriptor text: lex, parse, fold.
pub open spec fn spec_read_piece(s: Seq<char>) -> ReadOutcome {
    match spec_lex(s, 0, 1) {
        LexOutcome::Fail(l, t) => ReadOutcome::Bad(l, t),
        LexOutcome::Toks(ts) => match parse_stmts(ts, 0) {
            ParseOutcome::Fail(l, t) => ReadOutcome::Bad(l, t),
            ParseOutcome::Stmts(ss) => ReadOutcome::Good(piece_from(empty_piece(), ss, 0)),
        },
    }
}

/// The descriptor views of a descriptor list.
pub open spec fn pieces_view(v: Seq<Piece>) -> Seq<PieceModel> {
    v.map_values(|p: Piece| p@)
}

/// No two catalog entries share a name.
pub open spec fn catalog_wf(cv: Seq<PieceModel>) -> bool {
    forall|a: int, b: int| 0 <= a < b < cv.len() ==> cv[a].name != cv[b].name
}

/// Some catalog entry bears this name.
pub open spec fn has_piece(cv: Seq<PieceModel>, name: Seq<char>) -> bool {
    exists|k: int| 0 <= k < cv.len() && cv[k].name == name
}

/// The position of the entry bearing this name (unique in a well-formed
/// catalog).
pub open spec fn piece_index(cv: Seq<PieceModel>, name: Seq<char>) -> int {
    choose|k: int| 0 <= k < cv.len() && cv[k].name == name
}

/// The entry bearing this name.
pub open spec fn piece_named(cv: Seq<PieceModel>, name: Seq<char>) -> PieceModel {
    cv[piece_index(cv, name)]
}

/// Inserting a descriptor keyed by its name: the last parse of a name wins,
/// so any entry already bearing the name leaves the catalog.
pub open spec fn spec_add(cv: Seq<PieceModel>, pm: PieceModel) -> Seq<PieceModel> {
    if has_piece(cv, pm.name) {
        cv.remove(piece_index(cv, pm.name)).push(pm)
    } else {
        cv.push(pm)
    }
}

pub proof fn lemma_spec_add_wf(cv: Seq<PieceModel>, pm: PieceModel)
    requires
        catalog_wf(cv),
    ensures
        catalog_wf(spec_add(cv, pm)),
        has_piece(spec_add(cv, pm), pm.name),
        piece_named(spec_add(cv, pm), pm.name) == pm,
        forall|n: Seq<char>|
            n != pm.name ==> (#[trigger] has_piece(spec_add(cv, pm), n)) == has_piece(cv, n),
        forall|n: Seq<char>|
            n != pm.name && has_piece(cv, n) ==> #[trigger] piece_named(spec_add(cv, pm), n)
                == piece_named(cv, n),
{
    let out = spec_add(cv, pm);
    if has_piece(cv, pm.name) {
        let i = piece_index(cv, pm.name);
        let trimmed = cv.remove(i);
        assert(forall|k: int|
            0 <= k < trimmed.len() ==> #[trigger] trimmed[k] == if k < i {
                cv[k]
            } else {
                cv[k + 1]
            });
        assert(out[out.len() - 1] == pm);
        assert(forall|k: int| 0 <= k < out.len() - 1 ==> #[trigger] out[k] == trimmed[k]);
        assert forall|k: int| 0 <= k < out.len() - 1 implies (#[trigger] out[k]).name != pm.name by {
            if k < i {
                assert(out[k] == cv[k]);
            } else {
                assert(out[k] == cv[k + 1]);
            }
        }
        assert(catalog_wf(out));
        assert(has_piece(out, pm.name));
        let kw = piece_index(out, pm.name);
        assert(0 <= kw < out.len() && out[kw].name == pm.name);
        assert(piece_named(out, pm.name) == pm);
        assert forall|n: Seq<char>| n != pm.name implies (#[trigger] has_piece(out, n))
            == has_piece(cv, n) by {
            if has_piece(out, n) {
                let k = piece_index(out, n);
                assert(0 <= k < out.len() && out[k].name == n);
                if k < i {
                    assert(cv[k].name == n);
                } else if k < out.len() - 1 {
                    assert(cv[k + 1].name == n);
                }
                assert(has_piece(cv, n));
            }
            if has_piece(cv, n) {
                let k = piece_index(cv, n);
                assert(0 <= k < cv.len() && cv[k].name == n);
                if k < i {
                    assert(out[k].name == n);
                } else {
                    assert(out[k - 1].name == n);
                }
                assert(has_piece(out, n));
            }
        }
        assert forall|n: Seq<char>| n != pm.name && has_piece(cv, n) implies #[trigger] piece_named(
            out,
            n,
        ) == piece_named(cv, n) by {
            let ko = piece_index(cv, n);
            assert(0 <= ko < cv.len() && cv[ko].name == n);
            let kn = if ko < i {
                ko
            } else {
                ko - 1
            };
            assert(out[kn] == cv[ko]);
            assert(has_piece(out, n));
            let kw = piece_index(out, n);
            assert(0 <= kw < out.len() && out[kw].name == n);
            assert(kw == kn);
        }
    } else {
        assert(out[out.len() - 1] == pm);
        assert forall|k: int| 0 <= k < out.len() - 1 implies (#[trigger] out[k]).name != pm.name by {
            assert(out[k] == cv[k]);
        }
        assert(catalog_wf(out));
        let kw = piece_index(out, pm.name);
        assert(0 <= kw < out.len() && out[kw].name == pm.name);
        assert(piece_named(out, pm.name) == pm);
        assert forall|n: Seq<char>| n != pm.name implies (#[trigger] has_piece(out, n))
            == has_piece(cv, n) by {
            if has_piece(out, n) {
                let k = piece_index(out, n);
                assert(0 <= k < out.len() && out[k].name == n);
                assert(cv[k].name == n);
                assert(has_piece(cv, n));
            }
            if has_piece(cv, n) {
                let k = piece_index(cv, n);
                assert(out[k].name == n);
                assert(has_piece(out, n));
            }
        }
        assert forall|n: Seq<char>| n != pm.name && has_piece(cv, n) implies #[trigger] piece_named(
            out,
            n,
        ) == piece_named(cv, n) by {
            let ko = piece_index(cv, n);
            assert(out[ko] == cv[ko]);
            assert(has_piece(out, n));
            let kw = piece_index(out, n);
            assert(0 <= kw < out.len() && out[kw].name == n);
            assert(kw == ko);
        }
    }
}

/// What building a catalog from a list of descriptor texts yields: the final
/// entries, or the failing text's error line and text together with the
/// entries inserted before the failure.
pub enum CatalogOutcome {
    Good(Seq<PieceModel>),
    Bad(nat, Seq<char>, Seq<PieceModel>),
}

/// The descriptor texts read in order, each parsed descriptor inserted under
/// its name; the first malformed text aborts the build.
pub open spec fn spec_generate(
    cv: Seq<PieceModel>,
    texts: Seq<Seq<char>>,
    i: int,
) -> CatalogOutcome
    decreases texts.len() - i when 0 <= i <= texts.len()
{
    if i >= texts.len() {
        CatalogOutcome::Good(cv)
    } else {
        match spec_read_piece(texts[i]) {
            ReadOutcome::Bad(l, t) => CatalogOutcome::Bad(l, t, cv),
            ReadOutcome::Good(pm) => spec_generate(spec_add(cv, pm), texts, i + 1),
        }
    }
}

/// The catalog of parsed piece descriptors. The list is keyed by piece name:
/// well-formedness says no two entries share a name.
#[derive(Debug)]
pub struct PieceCatalog {
    pub catalog: Vec<Piece>,
}

impl View for PieceCatalog {
    type V = Seq<PieceModel>;

    open spec fn view(&self) -> Seq<PieceModel> {
        pieces_view(self.catalog@)
    }
}

pub proof fn lemma_pieces_view_push(v: Seq<Piece>, p: Piece)
    ensures
        pieces_view(v.push(p)) == pieces_view(v).push(p@),
{
    assert(pieces_view(v.push(p)) =~= pieces_view(v).push(p@));
}

pub proof fn lemma_pieces_view_remove(v: Seq<Piece>, i: int)
    requires
        0 <= i < v.len(),
    ensures
        pieces_view(v.remove(i)) == pieces_view(v).remove(i),
{
    assert(pieces_view(v.remove(i)) =~= pieces_view(v).remove(i));
}

impl PieceCatalog {
    /// An empty catalog.
    pub fn new() -> (r: Result<PieceCatalog, Error>)
        ensures
            r matches Ok(c) && c@ == Seq::<PieceModel>::empty() && catalog_wf(c@),
    {
        let c = PieceCatalog { catalog: Vec::new() };
        proof {
            assert(c@ =~= Seq::<PieceModel>::empty());
        }
        Ok(c)
    }

    /// Inserts a parsed descriptor under its name; a descriptor already
    /// bearing the name is replaced (the last parse wins).
    pub fn add_piece(&mut self, piece: Piece)
        requires
            catalog_wf(old(self)@),
        ensures
            final(self)@ == spec_add(old(self)@, piece@),
            catalog_wf(final(self)@),
    {
        proof {
            lemma_spec_add_wf(self@, piece@);
        }
        let ghost cv = self@;
        let n = self.catalog.len();
        let mut i: usize = 0;
        loop
            invariant
                0 <= i <= n,
            n == self.catalog@.len(),
                cv == self@,
                catalog_wf(cv),
                forall|k: int| 0 <= k < i ==> (#[trigger] cv[k]).name != piece@.name,
            ensures
                0 <= i <= n,
                n == self.catalog@.len(),
                cv == self@,
                i < n ==> cv[i as int].name == piece@.name,
                forall|k: int| 0 <= k < i ==> (#[trigger] cv[k]).name != piece@.name,
            decreases n - i,
        {
            if i == n {
                break;
            }
            if str_eq(self.catalog[i].name.as_str(), piece.name.as_str()) {
                proof {
                    assert(cv[i as int].name == piece@.name);
                }
                break;
            }
            i = i + 1;
        }
        if i < n {
            proof {
                assert(has_piece(cv, piece@.name));
                assert(piece_index(cv, piece@.name) == i as int);
                lemma_pieces_view_remove(self.catalog@, i as int);
            }
            self.catalog.remove(i);
            proof {
                lemma_pieces_view_push(self.catalog@, piece);
            }
            self.catalog.push(piece);
        } else {
            proof {
                assert(!has_piece(cv, piece@.name));
                lemma_pieces_view_push(self.catalog@, piece);
            }
            self.catalog.push(piece);
        }
    }

    /// Looks a descriptor up by name: the named entry where one exists, and
    /// a piece-not-found error carrying the name where none does.
    pub fn get_piece(&self, piece_name: &str) -> (r: Result<&Piece, Error>)
        requires
            catalog_wf(self@),
        ensures
            has_piece(self@, piece_name@) ==> ({
                &&& r matches Ok(p)
                &&& p@ == piece_named(self@, piece_name@)
            }),
            !has_piece(self@, piece_name@) ==> ({
                &&& r matches Err(e)
                &&& e matches Error::PieceNotFound(nf)
                &&& nf.name@ == piece_name@
            }),
    {
        let ghost cv = self@;
        let n = self.catalog.len();
        let mut i: usize = 0;
        loop
            invariant
                0 <= i <= n,
                n == self.catalog@.len(),
                cv == self@,
                catalog_wf(cv),
                forall|k: int| 0 <= k < i ==> (#[trigger] cv[k]).name != piece_name@,
            ensures
                0 <= i <= n,
                n == self.catalog@.len(),
                cv == self@,
                i < n ==> cv[i as int].name == piece_name@,
                forall|k: int| 0 <= k < i ==> (#[trigger] cv[k]).name != piece_name@,
            decreases n - i,
        {
            if i == n {
                break;
            }
            if str_eq(self.catalog[i].name.as_str(), piece_name) {
                break;
            }
            i = i + 1;
        }
        if i < n {
            proof {
                assert(has_piece(cv, piece_name@));
                assert(piece_index(cv, piece_name@) == i as int);
            }
            Ok(&self.catalog[i])
        } else {
            proof {
                assert(!has_piece(cv, piece_name@));
            }
            Err(
                Error::PieceNotFound(
                    PieceNotFoundError { name: piece_name.to_owned() },
                ),
            )
        }
    }

    /// Builds the catalog from a list of descriptor texts, one text per
    /// descriptor file, inserting each parsed descriptor under its name; the
    /// first malformed text aborts the build with its format error, leaving
    /// the descriptors inserted before it.
    #[verifier::loop_isolation(false)]
    pub fn generate(&mut self, texts: &Vec<String>) -> (r: Result<(), Error>)
        requires
            catalog_wf(old(self)@),
            forall|k: int| 0 <= k < texts@.len() ==> (#[trigger] texts@[k])@.len() < usize::MAX,
        ensures
            catalog_wf(final(self)@),
            match spec_generate(old(self)@, texts_view(texts@), 0) {
                CatalogOutcome::Good(cv) => r matches Ok(u) && final(self)@ == cv,
                CatalogOutcome::Bad(l, t, cv) => {
                    &&& r matches Err(e)
                    &&& e matches Error::InvalidFileFormat(f)
                    &&& f.line as nat == l
                    &&& f.token@ == t
                    &&& final(self)@ == cv
                },
            },
    {
        let ghost tv = texts_view(texts@);
        let ghost cv0 = self@;
        let n = texts.len();
        let mut i: usize = 0;
        while i < n
            invariant
                0 <= i <= n,
                catalog_wf(self@),
                spec_generate(cv0, tv, 0) == spec_generate(self@, tv, i as int),
            decreases n - i,
        {
            proof {
                assert(tv[i as int] == texts@[i as int]@);
            }
            let piece = match Self::read_piece(texts[i].as_str()) {
                Ok(p) => p,
                Err(e) => {
                    proof {
                        assert(spec_generate(self@, tv, i as int) == CatalogOutcome::Bad(
                            e.line as nat,
                            e.token@,
                            self@,
                        ));
                    }
                    return Err(Error::InvalidFileFormat(e));
                },
            };
            self.add_piece(piece);
            i = i + 1;
        }
        proof {
            assert(spec_generate(self@, tv, n as int) == CatalogOutcome::Good(self@));
        }
        Ok(())
    }

    /// Parses a `Name : Text` statement starting at token `i`.
    pub fn piece_name_statement(tokens: &Vec<PieceToken>, i: usize) -> (r: Result<
        (PieceStatement, usize),
        InvalidFormatError,
    >)
        requires
            wf_tokens(tokens_view(tokens@)),
            i < tokens@.len(),
            tokens@[i as int].kind@ is NameKeyword,
        ensures
            match spec_stmt(tokens_view(tokens@), i as int) {
                StmtOutcome::Good(st, next) => r matches Ok(p) && p.0@ == st && p.1 as int == next,
                StmtOutcome::Bad(l, t) => r matches Err(e) && e.line as nat == l && e.token@ == t,
            },
    {
        let ghost ts = tokens_view(tokens@);
        proof {
            assert(tokens.len() == tokens@.len());
            assert(ts[i as int] == tokens@[i as int]@);
            assert(ts[ts.len() - 1].kind is EndOfFile);
            assert(i + 1 < ts.len());
        }
        let t1 = &tokens[i + 1];
        match &t1.kind {
            PieceTokenKind::Colon => {},
            _ => {
                return Err(InvalidFormatError::new(t1.line, t1.text.clone()));
            },
        }
        proof {
            assert(ts[i + 1] == tokens@[i + 1]@);
            assert(i + 2 < ts.len());
        }
        let t2 = &tokens[i + 2];
        match &t2.kind {
            PieceTokenKind::Text(w) => Ok((PieceStatement::Name { name: w.clone() }, i + 3)),
            _ => Err(InvalidFormatError::new(t2.line, t2.text.clone())),
        }
    }

    /// Parses an `Image : Text` statement starting at token `i`.
    pub fn piece_image_statement(tokens: &Vec<PieceToken>, i: usize) -> (r: Result<
        (PieceStatement, usize),
        InvalidFormatError,
    >)
        requires
            wf_tokens(tokens_view(tokens@)),
            i < tokens@.len(),
            tokens@[i as int].kind@ is ImageKeyword,
        ensures
            match spec_stmt(tokens_view(tokens@), i as int) {
                StmtOutcome::Good(st, next) => r matches Ok(p) && p.0@ == st && p.1 as int == next,
                StmtOutcome::Bad(l, t) => r matches Err(e) && e.line as nat == l && e.token@ == t,
            },
    {
        let ghost ts = tokens_view(tokens@);
        proof {
            assert(tokens.len() == tokens@.len());
            assert(ts[i as int] == tokens@[i as int]@);
            assert(ts[ts.len() - 1].kind is EndOfFile);
            assert(i + 1 < ts.len());
        }
        let t1 = &tokens[i + 1];
        match &t1.kind {
            PieceTokenKind::Colon => {},
            _ => {
                return Err(InvalidFormatError::new(t1.line, t1.text.clone()));
            },
        }
        proof {
            assert(ts[i + 1] == tokens@[i + 1]@);
            assert(i + 2 < ts.len());
        }
        let t2 = &tokens[i + 2];
        match &t2.kind {
            PieceTokenKind::Text(w) => Ok((PieceStatement::Image { image_path: w.clone() }, i + 3)),
            _ => Err(InvalidFormatError::new(t2.line, t2.text.clone())),
        }
    }

    /// Parses a `Promotion : Text` statement starting at token `i`.
    pub fn piece_promotion_statement(tokens: &Vec<PieceToken>, i: usize) -> (r: Result<
        (PieceStatement, usize),
        InvalidFormatError,
    >)
        requires
            wf_tokens(tokens_view(tokens@)),
            i < tokens@.len(),
            tokens@[i as int].kind@ is PromotionKeyword,
        ensures
            match spec_stmt(tokens_view(tokens@), i as int) {
                StmtOutcome::Good(st, next) => r matches Ok(p) && p.0@ == st && p.1 as int == next,
                StmtOutcome::Bad(l, t) => r matches Err(e) && e.line as nat == l && e.token@ == t,
            },
    {
        let ghost ts = tokens_view(tokens@);
        proof {
            assert(tokens.len() == tokens@.len());
            assert(ts[i as int] == tokens@[i as int]@);
            assert(ts[ts.len() - 1].kind is EndOfFile);
            assert(i + 1 < ts.len());
        }
        let t1 = &tokens[i + 1];
        match &t1.kind {
            PieceTokenKind::Colon => {},
            _ => {
                return Err(InvalidFormatError::new(t1.line, t1.text.clone()));
            },
        }
        proof {
            assert(ts[i + 1] == tokens@[i + 1]@);
            assert(i + 2 < ts.len());
        }
        let t2 = &tokens[i + 2];
        match &t2.kind {
            PieceTokenKind::Text(w) => Ok((PieceStatement::Promotion { name: w.clone() }, i + 3)),
            _ => Err(InvalidFormatError::new(t2.line, t2.text.clone())),
        }
    }

    /// Parses a `(Leap|Kill|Run) : Number Number` statement starting at
    /// token `i`.
    pub fn piece_move_statement(tokens: &Vec<PieceToken>, i: usize) -> (r: Result<
        (PieceStatement, usize),
        InvalidFormatError,
    >)
        requires
            wf_tokens(tokens_view(tokens@)),
            i < tokens@.len(),
            tokens@[i as int].kind@ is LeapKeyword || tokens@[i as int].kind@ is KillKeyword
                || tokens@[i as int].kind@ is RunKeyword,
        ensures
            match spec_stmt(tokens_view(tokens@), i as int) {
                StmtOutcome::Good(st, next) => r matches Ok(p) && p.0@ == st && p.1 as int == next,
                StmtOutcome::Bad(l, t) => r matches Err(e) && e.line as nat == l && e.token@ == t,
            },
    {
        let ghost ts = tokens_view(tokens@);
        proof {
            assert(tokens.len() == tokens@.len());
            assert(ts[i as int] == tokens@[i as int]@);
            assert(ts[ts.len() - 1].kind is EndOfFile);
            assert(i + 1 < ts.len());
        }
        let kind = match &tokens[i].kind {
            PieceTokenKind::KillKeyword => MoveRules::Kill,
            PieceTokenKind::LeapKeyword => MoveRules::Leap,
            _ => MoveRules::Run,
        };
        let t1 = &tokens[i + 1];
        match &t1.kind {
            PieceTokenKind::Colon => {},
            _ => {
                return Err(InvalidFormatError::new(t1.line, t1.text.clone()));
            },
        }
        proof {
            assert(ts[i + 1] == tokens@[i + 1]@);
            assert(i + 2 < ts.len());
        }
        let t2 = &tokens[i + 2];
        let forward = match &t2.kind {
            PieceTokenKind::Number(f) => *f,
            _ => {
                return Err(InvalidFormatError::new(t2.line, t2.text.clone()));
            },
        };
        proof {
            assert(ts[i + 2] == tokens@[i + 2]@);
            assert(i + 3 < ts.len());
        }
        let t3 = &tokens[i + 3];
        let left = match &t3.kind {
            PieceTokenKind::Number(l) => *l,
            _ => {
                return Err(InvalidFormatError::new(t3.line, t3.text.clone()));
            },
        };
        Ok((PieceStatement::Move { kind, forward, left }, i + 4))
    }

    /// Parses a `Special : Text` statement starting at token `i`; the text
    /// must be `Castle` or `PawnFirst`.
    pub fn piece_special_move_statement(tokens: &Vec<PieceToken>, i: usize) -> (r: Result<
        (PieceStatement, usize),
        InvalidFormatError,
    >)
        requires
            wf_tokens(tokens_view(tokens@)),
            i < tokens@.len(),
            tokens@[i as int].kind@ is SpecialKeyword,
        ensures
            match spec_stmt(tokens_view(tokens@), i as int) {
                StmtOutcome::Good(st, next) => r matches Ok(p) && p.0@ == st && p.1 as int == next,
                StmtOutcome::Bad(l, t) => r matches Err(e) && e.line as nat == l && e.token@ == t,
            },
    {
        let ghost ts = tokens_view(tokens@);
        proof {
            assert(tokens.len() == tokens@.len());
            assert(ts[i as int] == tokens@[i as int]@);
            assert(ts[ts.len() - 1].kind is EndOfFile);
            assert(i + 1 < ts.len());
        }
        let t1 = &tokens[i + 1];
        match &t1.kind {
            PieceTokenKind::Colon => {},
            _ => {
                return Err(InvalidFormatError::new(t1.line, t1.text.clone()));
            },
        }
        proof {
            assert(ts[i + 1] == tokens@[i + 1]@);
            assert(i + 2 < ts.len());
        }
        let t2 = &tokens[i + 2];
        match &t2.kind {
            PieceTokenKind::Text(w) => {
                if str_eq(w.as_str(), "Castle") {
                    Ok((PieceStatement::SpecialMove { kind: MoveRules::Castle }, i + 3))
                } else if str_eq(w.as_str(), "PawnFirst") {
                    Ok((PieceStatement::SpecialMove { kind: MoveRules::PawnFirst }, i + 3))
                } else {
                    Err(InvalidFormatError::new(t2.line, t2.text.clone()))
                }
            },
            _ => Err(InvalidFormatError::new(t2.line, t2.text.clone())),
        }
    }

    /// Parses the statement starting at token `i`, dispatching on its first
    /// token; a first token that opens no statement is a format error.
    pub fn piece_statement(tokens: &Vec<PieceToken>, i: usize) -> (r: Result<
        (PieceStatement, usize),
        InvalidFormatError,
    >)
        requires
            wf_tokens(tokens_view(tokens@)),
            i < tokens@.len(),
        ensures
            match spec_stmt(tokens_view(tokens@), i as int) {
                StmtOutcome::Good(st, next) => r matches Ok(p) && p.0@ == st && p.1 as int == next,
                StmtOutcome::Bad(l, t) => r matches Err(e) && e.line as nat == l && e.token@ == t,
            },
    {
        let ghost ts = tokens_view(tokens@);
        proof {
            assert(ts[i as int] == tokens@[i as int]@);
        }
        let t0 = &tokens[i];
        match &t0.kind {
            PieceTokenKind::NameKeyword => Self::piece_name_statement(tokens, i),
            PieceTokenKind::ImageKeyword => Self::piece_image_statement(tokens, i),
            PieceTokenKind::PromotionKeyword => Self::piece_promotion_statement(tokens, i),
            PieceTokenKind::LeapKeyword => Self::piece_move_statement(tokens, i),
            PieceTokenKind::KillKeyword => Self::piece_move_statement(tokens, i),
            PieceTokenKind::RunKeyword => Self::piece_move_statement(tokens, i),
            PieceTokenKind::SpecialKeyword => Self::piece_special_move_statement(tokens, i),
            _ => Err(InvalidFormatError::new(t0.line, t0.text.clone())),
        }
    }

    /// Parses a whole token list into a descriptor: statements are read in
    /// order until the end-of-file token and folded into an initially empty
    /// descriptor, exactly as `parse_stmts` and `piece_from` say.
    pub fn parse_piece(tokens: Vec<PieceToken>) -> (r: Result<Piece, InvalidFormatError>)
        requires
            wf_tokens(tokens_view(tokens@)),
        ensures
            match parse_stmts(tokens_view(tokens@), 0) {
                ParseOutcome::Stmts(ss) => r matches Ok(p) && p@ == piece_from(
                    empty_piece(),
                    ss,
                    0,
                ),
                ParseOutcome::Fail(l, t) => r matches Err(e) && e.line as nat == l && e.token@
                    == t,
            },
    {
        let ghost ts = tokens_view(tokens@);
        let mut piece = Piece::new();
        let ghost mut done: Seq<StatementModel> = Seq::empty();
        let mut pos: usize = 0;
        proof {
            match parse_stmts(ts, 0) {
                ParseOutcome::Stmts(ss) => {
                    assert(done + ss =~= ss);
                },
                ParseOutcome::Fail(l, t) => {},
            }
        }
        loop
            invariant
                wf_tokens(ts),
                ts == tokens_view(tokens@),
                0 <= pos < ts.len(),
                parse_stmts(ts, 0) == stmt_join(done, parse_stmts(ts, pos as int)),
                piece@ == piece_from(empty_piece(), done, 0),
            decreases ts.len() - pos,
        {
            let is_eof = match &tokens[pos].kind {
                PieceTokenKind::EndOfFile => true,
                _ => false,
            };
            if is_eof {
                proof {
                    assert(ts[pos as int] == tokens@[pos as int]@);
                    assert(parse_stmts(ts, pos as int) == ParseOutcome::Stmts(
                        Seq::<StatementModel>::empty(),
                    ));
                    assert(done + Seq::<StatementModel>::empty() =~= done);
                }
                return Ok(piece);
            }
            let (st, next) = match Self::piece_statement(&tokens, pos) {
                Ok(p) => p,
                Err(e) => {
                    return Err(e);
                },
            };
            let ghost stm = st@;
            let ghost prev = piece@;
            proof {
                assert(ts[pos as int] == tokens@[pos as int]@);
                lemma_spec_stmt_next(ts, pos as int);
                lemma_stmt_join_cons(done, stm, parse_stmts(ts, next as int));
                lemma_piece_from_push(empty_piece(), done, stm);
            }
            match st {
                PieceStatement::Name { name } => {
                    piece.name = name;
                },
                PieceStatement::Image { image_path } => {
                    piece.image_key = image_path;
                },
                PieceStatement::Move { kind, forward, left } => {
                    piece.move_set.push(PieceMove::new(forward, left, kind));
                },
                PieceStatement::SpecialMove { kind } => {
                    piece.move_set.push(PieceMove::new_special(kind));
                },
                PieceStatement::Promotion { name } => {
                    piece.promotions.push(name);
                },
            }
            proof {
                assert(piece@.promotions =~= apply_stmt(prev, stm).promotions);
                assert(piece@ == apply_stmt(prev, stm));
                done = done.push(stm);
            }
            pos = next;
        }
    }

    /// Reads one descriptor text end to end: lex, parse, fold.
    pub fn read_piece(input: &str) -> (r: Result<Piece, InvalidFormatError>)
        requires
            input@.len() < usize::MAX,
        ensures
            match spec_read_piece(input@) {
                ReadOutcome::Good(pm) => r matches Ok(p) && p@ == pm,
                ReadOutcome::Bad(l, t) => r matches Err(e) && e.line as nat == l && e.token@ == t,
            },
    {
        let tokens = match Self::lex_piece(input) {
            Ok(ts) => ts,
            Err(e) => {
                return Err(e);
            },
        };
        proof {
            lemma_spec_lex_wf(input@, 0, 1);
        }
        Self::parse_piece(tokens)
    }

    /// Lexes a whole piece-descriptor text into tokens, or reports the line
    /// and text of the first offending input, exactly as `spec_lex` says.
    pub fn lex_piece(input: &str) -> (r: Result<Vec<PieceToken>, InvalidFormatError>)
        requires
            input@.len() < usize::MAX,
        ensures
            match spec_lex(input@, 0, 1) {
                LexOutcome::Toks(ts) => r matches Ok(v) && tokens_view(v@) == ts,
                LexOutcome::Fail(l, t) => r matches Err(e) && e.line as nat == l && e.token@ == t,
            },
    {
        let ghost s = input@;
        let n = input.unicode_len();
        let mut tokens: Vec<PieceToken> = Vec::new();
        let mut pos: usize = 0;
        let mut line: usize = 1;
        loop
            invariant
                0 <= pos <= n,
                n == s.len() < usize::MAX,
                s == input@,
                1 <= line <= 1 + pos,
                spec_lex(s, 0, 1) == lex_join(tokens_view(tokens@), spec_lex(s, pos as int, line as nat)),
            decreases n - pos,
        {
            if pos == n {
                let eof = PieceToken { line, text: String::new(), kind: PieceTokenKind::EndOfFile };
                proof {
                    lemma_tokens_view_push(tokens@, eof);
                    assert(tokens_view(tokens@).push(eof@) =~= tokens_view(tokens@) + seq![eof@]);
                }
                tokens.push(eof);
                return Ok(tokens);
            }
            let c = input.get_char(pos);
            if c == '\n' {
                pos = pos + 1;
                line = line + 1;
            } else if exec_is_blank(c) {
                pos = pos + 1;
            } else if c == ':' {
                let tok = PieceToken {
                    line,
                    text: String::from_str(":"),
                    kind: PieceTokenKind::Colon,
                };
                proof {
                    reveal_strlit(":");
                    assert(tok@.text =~= seq![':']);
                    lemma_lex_join_cons(tokens_view(tokens@), tok@, spec_lex(s, pos + 1, line as nat));
                    lemma_tokens_view_push(tokens@, tok);
                }
                tokens.push(tok);
                pos = pos + 1;
            } else if c == '-' {
                let mut j: usize = pos + 1;
                loop
                    invariant
                        pos + 1 <= j <= n,
                        n == s.len() < usize::MAX,
                        s == input@,
                        dash_run_end(s, pos + 1) == dash_run_end(s, j as int),
                    ensures
                        pos + 1 <= j <= n,
                        j == dash_run_end(s, pos + 1),
                    decreases n - j,
                {
                    if j == n {
                        break;
                    }
                    if input.get_char(j) != '-' {
                        break;
                    }
                    j = j + 1;
                }
                let mut is_number = false;
                if j < n {
                    if exec_is_digit(input.get_char(j)) {
                        is_number = true;
                    }
                }
                if is_number {
                    proof {
                        lemma_digit_run_end(s, j as int);
                    }
                    let (end, val, over) = crate::text::scan_number(input, j);
                    proof {
                        lemma_digit_run_end_step(s, j as int);
                    }
                    let digits = input.substring_char(j, end);
                    let mut text = String::from_str("-");
                    text.append(digits);
                    proof {
                        reveal_strlit("-");
                        assert(text@ =~= seq!['-'] + s.subrange(j as int, end as int));
                    }
                    if over {
                        proof {
                            lemma_digits_val_nonneg(s, j as int, end as int);
                        }
                        return Err(InvalidFormatError::new(line, text));
                    }
                    let value: i64 = -(val as i64);
                    let tok = PieceToken {
                        line,
                        text,
                        kind: PieceTokenKind::Number(value as i32),
                    };
                    proof {
                        lemma_lex_join_cons(tokens_view(tokens@), tok@, spec_lex(s, end as int, line as nat));
                        lemma_tokens_view_push(tokens@, tok);
                    }
                    tokens.push(tok);
                    pos = end;
                } else {
                    pos = j;
                }
            } else if exec_is_digit(c) {
                proof {
                    lemma_digit_run_end(s, pos as int);
                }
                let (end, val, over) = crate::text::scan_number(input, pos);
                proof {
                    lemma_digit_run_end_step(s, pos as int);
                }
                if over || val > 0x7FFF_FFFF {
                    let text = input.substring_char(pos, end).to_owned();
                    proof {
                        if over {
                            lemma_digits_val_nonneg(s, pos as int, end as int);
                        }
                    }
                    return Err(InvalidFormatError::new(line, text));
                }
                let text = input.substring_char(pos, end).to_owned();
                let tok = PieceToken { line, text, kind: PieceTokenKind::Number(val as i32) };
                proof {
                    lemma_lex_join_cons(tokens_view(tokens@), tok@, spec_lex(s, end as int, line as nat));
                    lemma_tokens_view_push(tokens@, tok);
                }
                tokens.push(tok);
                pos = end;
            } else if exec_is_letter(c) {
                let mut word = String::new();
                push_char(&mut word, c);
                let mut j: usize = pos + 1;
                proof {
                    assert(word@ =~= word_text(s, pos as int, pos + 1));
                }
                loop
                    invariant
                        pos + 1 <= j <= n,
                        n == s.len() < usize::MAX,
                        s == input@,
                        word_run_end(s, pos + 1) == word_run_end(s, j as int),
                        word@ == word_text(s, pos as int, j as int),
                    ensures
                        pos + 1 <= j <= n,
                        j == word_run_end(s, pos + 1),
                        word@ == word_text(s, pos as int, j as int),
                    decreases n - j,
                {
                    if j == n {
                        break;
                    }
                    let d = input.get_char(j);
                    if !exec_is_word_char(d) {
                        break;
                    }
                    let t = if d == '_' {
                        ' '
                    } else {
                        d
                    };
                    proof {
                        lemma_word_run_end_step(s, j as int);
                        assert(word_text(s, pos as int, j + 1) =~= word_text(
                            s,
                            pos as int,
                            j as int,
                        ).push(underscore_to_space(s[j as int])));
                    }
                    push_char(&mut word, t);
                    j = j + 1;
                }
                let kind: PieceTokenKind = if str_eq(word.as_str(), "Name") {
                    PieceTokenKind::NameKeyword
                } else if str_eq(word.as_str(), "Image") {
                    PieceTokenKind::ImageKeyword
                } else if str_eq(word.as_str(), "Run") {
                    PieceTokenKind::RunKeyword
                } else if str_eq(word.as_str(), "Leap") {
                    PieceTokenKind::LeapKeyword
                } else if str_eq(word.as_str(), "Kill") {
                    PieceTokenKind::KillKeyword
                } else if str_eq(word.as_str(), "Special") {
                    PieceTokenKind::SpecialKeyword
                } else if str_eq(word.as_str(), "Promotion") {
                    PieceTokenKind::PromotionKeyword
                } else {
                    PieceTokenKind::Text(word.clone())
                };
                let tok = PieceToken { line, text: word, kind };
                proof {
                    assert(tok@.kind == word_kind(tok@.text));
                    lemma_lex_join_cons(
                        tokens_view(tokens@),
                        tok@,
                        spec_lex(s, word_run_end(s, pos + 1), line as nat),
                    );
                    lemma_tokens_view_push(tokens@, tok);
                }
                tokens.push(tok);
                pos = j;
            } else {
                let mut text = String::new();
                push_char(&mut text, c);
                proof {
                    assert(text@ =~= seq![c]);
                }
                return Err(InvalidFormatError::new(line, text));
            }
        }
    }
}

} // verus!
