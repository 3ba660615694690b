//! The board: a flat grid of spaces indexed by `row * width + column`, the
//! players, and the parser that builds the initial position from a
//! board-description text.

use vstd::prelude::*;

use vstd::arithmetic::div_mod::lemma_fundamental_div_mod_converse;

use crate::board_space::fresh_space;
use crate::board_space::BoardSpace;
use crate::board_space::SpaceModel;
use crate::board_space::SquareShade;
use crate::errors::Error;
use crate::errors::InvalidFormatError;
use crate::game_piece::GamePiece;
use crate::game_piece::GamePieceModel;
use crate::move_data::MoveData;
use crate::piece::PieceModel;
use crate::piece_catalog::catalog_wf;
use crate::piece_catalog::has_piece;
use crate::piece_catalog::piece_named;
use crate::piece_catalog::PieceCatalog;
use crate::text::field_u32;
use crate::text::join_fields;
use crate::text::join_fields_from;
use crate::text::parse_u32_field;
use crate::text::spec_fields;
use crate::text::spec_starts_with;
use crate::text::split_fields;
use crate::text::str_starts_with;
use crate::text::texts_view;

verus! {

/// The widest board a description may ask for, per dimension. The cap keeps
/// every flat grid index within the range of a signed 32-bit integer.
pub const MAX_BOARD_DIM: u32 = 32767;

/// The space views of a grid.
pub open spec fn spaces_view(g: Seq<BoardSpace>) -> Seq<SpaceModel> {
    g.map_values(|s: BoardSpace| s@)
}

/// The mathematical content of a board.
pub struct BoardModel {
    pub name: Seq<char>,
    pub width: int,
    pub height: int,
    pub grid: Seq<SpaceModel>,
    pub players: Seq<Seq<char>>,
    pub dead: Seq<GamePieceModel>,
    pub moves: Seq<MoveData>,
}

/// The board: its display name, its dimensions, the grid of spaces stored
/// row by row (`row * width + column`), the player names in file order, the
/// captured pieces, and the recorded moves.
pub struct Board {
    pub name: String,
    pub grid: Vec<BoardSpace>,
    pub width: u32,
    pub height: u32,
    pub players: Vec<String>,
    pub dead_pieces: Vec<GamePiece>,
    pub moves: Vec<MoveData>,
}

impl View for Board {
    type V = BoardModel;

    open spec fn view(&self) -> BoardModel {
        BoardModel {
            name: self.name@,
            width: self.width as int,
            height: self.height as int,
            grid: spaces_view(self.grid@),
            players: texts_view(self.players@),
            dead: self.dead_pieces@.map_values(|p: GamePiece| p@),
            moves: self.moves@,
        }
    }
}

/// The coordinates lie on the board.
pub open spec fn in_bounds(b: BoardModel, c: int, r: int) -> bool {
    0 <= c < b.width && 0 <= r < b.height
}

/// The flat index of the space at column `c`, row `r`.
pub open spec fn grid_index(b: BoardModel, c: int, r: int) -> int {
    r * b.width + c
}

/// The space at column `c`, row `r`.
pub open spec fn space_model(b: BoardModel, c: int, r: int) -> SpaceModel {
    b.grid[grid_index(b, c, r)]
}

/// A well-formed board: dimensions within the cap, a full `width * height`
/// grid whose space at flat index `i` carries coordinates
/// `(i % width, i / width)`, and every occupant carrying the coordinates of
/// the space that holds it.
pub open spec fn board_wf(b: BoardModel) -> bool {
    &&& 0 <= b.width <= MAX_BOARD_DIM
    &&& 0 <= b.height <= MAX_BOARD_DIM
    &&& b.grid.len() == b.width * b.height
    &&& forall|i: int|
        0 <= i < b.grid.len() ==> (#[trigger] b.grid[i]).col == i % b.width && b.grid[i].row == i
            / b.width
    &&& forall|i: int, k: int|
        0 <= i < b.grid.len() && 0 <= k < b.grid[i].pieces.len() ==> (
        #[trigger] b.grid[i].pieces[k]).col == b.grid[i].col && b.grid[i].pieces[k].row
            == b.grid[i].row
}

/// On a well-formed board, the flat index of in-bounds coordinates is a
/// valid grid position carrying exactly those coordinates.
pub proof fn lemma_grid_index(b: BoardModel, c: int, r: int)
    requires
        board_wf(b),
        in_bounds(b, c, r),
    ensures
        0 <= grid_index(b, c, r) < b.grid.len(),
        b.grid[grid_index(b, c, r)].col == c,
        b.grid[grid_index(b, c, r)].row == r,
{
    let i = grid_index(b, c, r);
    assert(i < b.width * b.height && 0 <= i) by (nonlinear_arith)
        requires
            0 <= c < b.width,
            0 <= r < b.height,
            i == r * b.width + c,
    ;
    lemma_fundamental_div_mod_converse(i, b.width, r, c);
}

impl Board {
    /// An empty board: no name, no grid, no players.
    pub fn new() -> (r: Result<Board, Error>)
        ensures
            r matches Ok(b) && board_wf(b@) && b@ == (BoardModel {
                name: Seq::empty(),
                width: 0,
                height: 0,
                grid: Seq::empty(),
                players: Seq::empty(),
                dead: Seq::empty(),
                moves: Seq::empty(),
            }),
    {
        let b = Board {
            name: String::new(),
            grid: Vec::new(),
            width: 0,
            height: 0,
            players: Vec::new(),
            dead_pieces: Vec::new(),
            moves: Vec::new(),
        };
        proof {
            assert(b@.grid =~= Seq::<SpaceModel>::empty());
            assert(b@.players =~= Seq::<Seq<char>>::empty());
            assert(b@.dead =~= Seq::<GamePieceModel>::empty());
        }
        Ok(b)
    }

    /// The flat index of the space addressed by 1-based coordinates, or `-1`
    /// for coordinates off the board.
    pub fn find_board_space_index(&self, horz_pos: u32, vert_pos: u32) -> (r: i32)
        requires
            board_wf(self@),
        ensures
            1 <= horz_pos <= self@.width && 1 <= vert_pos <= self@.height ==> r == grid_index(
                self@,
                horz_pos - 1,
                vert_pos - 1,
            ),
            !(1 <= horz_pos <= self@.width && 1 <= vert_pos <= self@.height) ==> r == -1,
    {
        if 1 <= horz_pos && horz_pos <= self.width && 1 <= vert_pos && vert_pos <= self.height {
            proof {
                lemma_grid_index(self@, horz_pos - 1, vert_pos - 1);
                assert((vert_pos - 1) * self@.width + (horz_pos - 1) < 0x4000_0000int)
                    by (nonlinear_arith)
                    requires
                        0 <= horz_pos - 1 < self@.width <= 32767,
                        0 <= vert_pos - 1 < self@.height <= 32767,
                ;
            }
            let idx: u32 = (vert_pos - 1) * self.width + (horz_pos - 1);
            idx as i32
        } else {
            -1
        }
    }

    /// A reference to the space at 0-based in-bounds coordinates.
    pub fn space_at(&self, col: u32, row: u32) -> (r: &BoardSpace)
        requires
            board_wf(self@),
            col < self@.width,
            row < self@.height,
        ensures
            r@ == space_model(self@, col as int, row as int),
    {
        proof {
            lemma_grid_index(self@, col as int, row as int);
            assert((row as int) * self@.width + (col as int) < 0x4000_0000int) by (nonlinear_arith)
                requires
                    0 <= col < self@.width <= 32767,
                    0 <= row < self@.height <= 32767,
            ;
        }
        let idx: usize = (row as usize) * (self.width as usize) + (col as usize);
        &self.grid[idx]
    }
}

/// The grid a `Size` line materializes: `w * h` fresh spaces stored row by
/// row, shaded dark where `(column + row)` is even.
pub open spec fn fresh_grid(w: int, h: int) -> Seq<SpaceModel> {
    Seq::new(
        (w * h) as nat,
        |i: int|
            fresh_space(
                i % w,
                i / w,
                if (i % w + i / w) % 2 == 0 {
                    SquareShade::Dark
                } else {
                    SquareShade::Light
                },
            ),
    )
}

/// What applying one description line to a board yields: the stepped board,
/// a format error carrying the line number and the whole line, or a missing
/// piece name; the error outcomes keep the board as it was.
pub enum BoardOutcome {
    Good(BoardModel),
    BadFormat(nat, Seq<char>, BoardModel),
    BadPiece(Seq<char>, BoardModel),
}

/// One line of a board description applied to a board under construction.
/// Comment lines (leading `-`) and unrecognized lines change nothing.
/// `Name` takes the rest of the line, space-joined; `Size` sets the
/// dimensions and materializes a fresh grid; `Player` appends a player
/// name; `Disabled` deactivates the addressed space; `Piece` resolves its
/// descriptor in the catalog and places a new piece on the addressed space.
/// `Disabled` and `Piece` address squares by 1-based coordinates and are
/// ignored when the addressed square is off the board. Missing or
/// unreadable fields, and dimensions beyond the cap, are format errors
/// carrying the 1-based line number and the whole line.
pub open spec fn board_step(
    b: BoardModel,
    line: Seq<char>,
    ln: nat,
    cat: Seq<PieceModel>,
) -> BoardOutcome {
    let fs = spec_fields(line);
    if line.len() > 0 && line[0] == '-' {
        BoardOutcome::Good(b)
    } else if spec_starts_with(line, "Name"@) {
        BoardOutcome::Good(BoardModel { name: join_fields(fs, 1), ..b })
    } else if spec_starts_with(line, "Size"@) {
        if fs.len() < 3 {
            BoardOutcome::BadFormat(ln, line, b)
        } else {
            match (field_u32(fs[1]), field_u32(fs[2])) {
                (Some(w), Some(h)) => {
                    if w <= MAX_BOARD_DIM && h <= MAX_BOARD_DIM {
                        BoardOutcome::Good(
                            BoardModel { width: w, height: h, grid: fresh_grid(w, h), ..b },
                        )
                    } else {
                        BoardOutcome::BadFormat(ln, line, b)
                    }
                },
                _ => BoardOutcome::BadFormat(ln, line, b),
            }
        }
    } else if spec_starts_with(line, "Player"@) {
        if fs.len() < 2 {
            BoardOutcome::BadFormat(ln, line, b)
        } else {
            BoardOutcome::Good(BoardModel { players: b.players.push(fs[1]), ..b })
        }
    } else if spec_starts_with(line, "Disabled"@) {
        if fs.len() < 3 {
            BoardOutcome::BadFormat(ln, line, b)
        } else {
            match (field_u32(fs[1]), field_u32(fs[2])) {
                (Some(c), Some(r)) => {
                    if 1 <= c <= b.width && 1 <= r <= b.height {
                        let idx = grid_index(b, c - 1, r - 1);
                        let sp = b.grid[idx];
                        BoardOutcome::Good(
                            BoardModel {
                                grid: b.grid.update(idx, SpaceModel { active: false, ..sp }),
                                ..b
                            },
                        )
                    } else {
                        BoardOutcome::Good(b)
                    }
                },
                _ => BoardOutcome::BadFormat(ln, line, b),
            }
        }
    } else if spec_starts_with(line, "Piece"@) {
        if fs.len() < 5 {
            BoardOutcome::BadFormat(ln, line, b)
        } else {
            match (field_u32(fs[1]), field_u32(fs[2])) {
                (Some(c), Some(r)) => {
                    if !has_piece(cat, fs[4]) {
                        BoardOutcome::BadPiece(fs[4], b)
                    } else if 1 <= c <= b.width && 1 <= r <= b.height {
                        let idx = grid_index(b, c - 1, r - 1);
                        let sp = b.grid[idx];
                        let gp = GamePieceModel {
                            piece_name: piece_named(cat, fs[4]).name,
                            team_name: fs[3],
                            col: c - 1,
                            row: r - 1,
                            selected: false,
                        };
                        BoardOutcome::Good(
                            BoardModel {
                                grid: b.grid.update(idx, SpaceModel { pieces: sp.pieces.push(gp), ..sp }),
                                ..b
                            },
                        )
                    } else {
                        BoardOutcome::Good(b)
                    }
                },
                _ => BoardOutcome::BadFormat(ln, line, b),
            }
        }
    } else {
        BoardOutcome::Good(b)
    }
}

/// The lines of a board description applied in order from line `i`; the
/// first failing line aborts the build.
pub open spec fn board_parse(
    b: BoardModel,
    lines: Seq<Seq<char>>,
    i: int,
    cat: Seq<PieceModel>,
) -> BoardOutcome
    decreases lines.len() - i when 0 <= i <= lines.len()
{
    if i >= lines.len() {
        BoardOutcome::Good(b)
    } else {
        match board_step(b, lines[i], (i + 1) as nat, cat) {
            BoardOutcome::Good(b2) => board_parse(b2, lines, i + 1, cat),
            BoardOutcome::BadFormat(l, t, b2) => BoardOutcome::BadFormat(l, t, b2),
            BoardOutcome::BadPiece(n, b2) => BoardOutcome::BadPiece(n, b2),
        }
    }
}

/// A parsed number field is non-negative.
pub proof fn lemma_field_u32_nonneg(f: Seq<char>)
    ensures
        field_u32(f) matches Some(v) ==> v >= 0,
{
    if field_u32(f) is Some {
        crate::text::lemma_digits_val_nonneg(f, 0, f.len() as int);
    }
}

/// A fresh grid is well-formed board content for its dimensions.
pub proof fn lemma_fresh_grid_wf(w: int, h: int)
    requires
        0 <= w,
        0 <= h,
    ensures
        fresh_grid(w, h).len() == w * h,
        forall|i: int|
            0 <= i < w * h ==> (#[trigger] fresh_grid(w, h)[i]).col == i % w && fresh_grid(
                w,
                h,
            )[i].row == i / w,
        forall|i: int| 0 <= i < w * h ==> (#[trigger] fresh_grid(w, h)[i]).pieces.len() == 0,
{
    assert((w * h) as nat == w * h) by (nonlinear_arith)
        requires
            0 <= w,
            0 <= h,
    ;
}

/// Every outcome of a line step carries a well-formed board.
pub proof fn lemma_board_step_wf(b: BoardModel, line: Seq<char>, ln: nat, cat: Seq<PieceModel>)
    requires
        board_wf(b),
    ensures
        board_step(b, line, ln, cat) matches BoardOutcome::Good(b2) ==> board_wf(b2),
        board_step(b, line, ln, cat) matches BoardOutcome::BadFormat(l, t, b2) ==> board_wf(b2),
        board_step(b, line, ln, cat) matches BoardOutcome::BadPiece(n, b2) ==> board_wf(b2),
{
    let fs = spec_fields(line);
    if line.len() > 0 && line[0] == '-' {
    } else if spec_starts_with(line, "Name"@) {
    } else if spec_starts_with(line, "Size"@) {
        if fs.len() >= 3 {
            match (field_u32(fs[1]), field_u32(fs[2])) {
                (Some(w), Some(h)) => {
                    lemma_field_u32_nonneg(fs[1]);
                    lemma_field_u32_nonneg(fs[2]);
                    if w <= MAX_BOARD_DIM && h <= MAX_BOARD_DIM {
                        lemma_fresh_grid_wf(w, h);
                    }
                },
                _ => {},
            }
        }
    } else if spec_starts_with(line, "Player"@) {
    } else if spec_starts_with(line, "Disabled"@) {
        if fs.len() >= 3 {
            match (field_u32(fs[1]), field_u32(fs[2])) {
                (Some(c), Some(r)) => {
                    if 1 <= c <= b.width && 1 <= r <= b.height {
                        lemma_grid_index(b, c - 1, r - 1);
                    }
                },
                _ => {},
            }
        }
    } else if spec_starts_with(line, "Piece"@) {
        if fs.len() >= 5 {
            match (field_u32(fs[1]), field_u32(fs[2])) {
                (Some(c), Some(r)) => {
                    if has_piece(cat, fs[4]) && 1 <= c <= b.width && 1 <= r <= b.height {
                        lemma_grid_index(b, c - 1, r - 1);
                    }
                },
                _ => {},
            }
        }
    } else {
    }
}

/// Builds the grid a `Size` line asks for: `w * h` fresh spaces in row
/// order, shaded by `(column + row) % 2`.
fn build_fresh_grid(w: u32, h: u32) -> (r: Vec<BoardSpace>)
    requires
        w <= MAX_BOARD_DIM,
        h <= MAX_BOARD_DIM,
    ensures
        spaces_view(r@) == fresh_grid(w as int, h as int),
{
    let ghost gw = w as int;
    let ghost gh = h as int;
    proof {
        lemma_fresh_grid_wf(gw, gh);
        assert((gw * gh) <= 32767 * 32767) by (nonlinear_arith)
            requires
                0 <= gw <= 32767,
                0 <= gh <= 32767,
        ;
    }
    let mut grid: Vec<BoardSpace> = Vec::new();
    let mut rr: u32 = 0;
    while rr < h
        invariant
            0 <= rr <= h,
            w <= MAX_BOARD_DIM,
            h <= MAX_BOARD_DIM,
            gw == w as int,
            gh == h as int,
            grid@.len() == rr * gw,
            forall|j: int| 0 <= j < grid@.len() ==> (#[trigger] grid@[j])@ == fresh_grid(gw, gh)[j],
        decreases h - rr,
    {
        let mut cc: u32 = 0;
        proof {
            assert(rr * gw + gw <= gw * gh) by (nonlinear_arith)
                requires
                    0 <= rr < gh,
                    0 <= gw,
            ;
        }
        while cc < w
            invariant
                0 <= cc <= w,
                0 <= rr < h,
                w <= MAX_BOARD_DIM,
                h <= MAX_BOARD_DIM,
                gw == w as int,
                gh == h as int,
                rr * gw + gw <= gw * gh,
                grid@.len() == rr * gw + cc,
                forall|j: int| 0 <= j < grid@.len() ==> (#[trigger] grid@[j])@ == fresh_grid(gw, gh)[j],
            decreases w - cc,
        {
            let shade = if (cc + rr) % 2 == 0 {
                SquareShade::Dark
            } else {
                SquareShade::Light
            };
            let sp = match BoardSpace::new(cc, rr, shade) {
                Ok(s) => s,
                Err(e) => {
                    return Vec::new();
                },
            };
            let ghost idx = rr * gw + cc;
            proof {
                lemma_fundamental_div_mod_converse(idx, gw, rr as int, cc as int);
                assert(idx < gw * gh) by (nonlinear_arith)
                    requires
                        0 <= cc < gw,
                        0 <= rr < gh,
                        idx == rr * gw + cc,
                ;
                assert(fresh_grid(gw, gh)[idx] == fresh_space(
                    cc as int,
                    rr as int,
                    if (cc as int + rr as int) % 2 == 0 {
                        SquareShade::Dark
                    } else {
                        SquareShade::Light
                    },
                ));
                assert((cc + rr) % 2 == (cc as int + rr as int) % 2);
                assert(sp@ == fresh_grid(gw, gh)[idx]);
            }
            grid.push(sp);
            cc = cc + 1;
        }
        proof {
            assert((rr + 1) * gw == rr * gw + gw) by (nonlinear_arith);
        }
        rr = rr + 1;
    }
    proof {
        assert(gh * gw == gw * gh) by (nonlinear_arith);
        assert(spaces_view(grid@) =~= fresh_grid(gw, gh));
    }
    grid
}

impl Board {
    /// Applies one line of a board description to the board, exactly as
    /// `board_step` says: `Name`, `Size`, `Player`, `Disabled` and `Piece`
    /// lines take effect, comment and unrecognized lines are ignored, and a
    /// malformed line or an unknown piece name is the matching error.
    #[verifier::loop_isolation(false)]
    #[verifier::rlimit(50)]
    pub fn apply_board_line(
        &mut self,
        line: &str,
        line_num: usize,
        chess_pieces: &PieceCatalog,
    ) -> (r: Result<(), Error>)
        requires
            board_wf(old(self)@),
            catalog_wf(chess_pieces@),
            line@.len() < usize::MAX,
        ensures
            board_wf(final(self)@),
            match board_step(old(self)@, line@, line_num as nat, chess_pieces@) {
                BoardOutcome::Good(b2) => r is Ok && final(self)@ == b2,
                BoardOutcome::BadFormat(l, t, b2) => ({
                    &&& r matches Err(e)
                    &&& e matches Error::InvalidFileFormat(f)
                    &&& f.line as nat == l
                    &&& f.token@ == t
                    &&& final(self)@ == b2
                }),
                BoardOutcome::BadPiece(n, b2) => ({
                    &&& r matches Err(e)
                    &&& e matches Error::PieceNotFound(nf)
                    &&& nf.name@ == n
                    &&& final(self)@ == b2
                }),
            },
    {
        proof {
            lemma_board_step_wf(self@, line@, line_num as nat, chess_pieces@);
        }
        let ghost b0 = self@;
        let ghost fs = spec_fields(line@);
        let n_chars = line.unicode_len();
        if n_chars > 0 {
            if line.get_char(0) == '-' {
                return Ok(());
            }
        }
        let fields = split_fields(line);
        if str_starts_with(line, "Name") {
            let joined = join_fields_from(&fields, 1);
            self.name = joined;
            return Ok(());
        }
        if str_starts_with(line, "Size") {
            if fields.len() < 3 {
                return Err(
                    Error::InvalidFileFormat(InvalidFormatError::new(line_num, line.to_owned())),
                );
            }
            proof {
                assert(fields@[1]@ == fs[1]);
                assert(fields@[2]@ == fs[2]);
            }
            let w_opt = parse_u32_field(fields[1].as_str());
            let h_opt = parse_u32_field(fields[2].as_str());
            let w: u32;
            let h: u32;
            match (w_opt, h_opt) {
                (Some(a), Some(b)) => {
                    w = a;
                    h = b;
                },
                _ => {
                    return Err(
                        Error::InvalidFileFormat(
                            InvalidFormatError::new(line_num, line.to_owned()),
                        ),
                    );
                },
            }
            if w > MAX_BOARD_DIM || h > MAX_BOARD_DIM {
                return Err(
                    Error::InvalidFileFormat(InvalidFormatError::new(line_num, line.to_owned())),
                );
            }
            self.width = w;
            self.height = h;
            self.grid = build_fresh_grid(w, h);
            proof {
                assert(self@ == (BoardModel {
                    width: w as int,
                    height: h as int,
                    grid: fresh_grid(w as int, h as int),
                    ..b0
                }));
            }
            return Ok(());
        }
        if str_starts_with(line, "Player") {
            if fields.len() < 2 {
                return Err(
                    Error::InvalidFileFormat(InvalidFormatError::new(line_num, line.to_owned())),
                );
            }
            proof {
                assert(fields@[1]@ == fs[1]);
            }
            let player = fields[1].clone();
            self.players.push(player);
            proof {
                assert(texts_view(self.players@) =~= texts_view(old(self).players@).push(fs[1]));
                assert(self@ == (BoardModel { players: b0.players.push(fs[1]), ..b0 }));
            }
            return Ok(());
        }
        if str_starts_with(line, "Disabled") {
            if fields.len() < 3 {
                return Err(
                    Error::InvalidFileFormat(InvalidFormatError::new(line_num, line.to_owned())),
                );
            }
            proof {
                assert(fields@[1]@ == fs[1]);
                assert(fields@[2]@ == fs[2]);
            }
            let c_opt = parse_u32_field(fields[1].as_str());
            let r_opt = parse_u32_field(fields[2].as_str());
            let c: u32;
            let r: u32;
            match (c_opt, r_opt) {
                (Some(a), Some(b)) => {
                    c = a;
                    r = b;
                },
                _ => {
                    return Err(
                        Error::InvalidFileFormat(
                            InvalidFormatError::new(line_num, line.to_owned()),
                        ),
                    );
                },
            }
            let idx = self.find_board_space_index(c, r);
            if idx >= 0 {
                proof {
                    lemma_grid_index(self@, c - 1, r - 1);
                }
                let ghost gprev = self.grid@;
                self.grid[idx as usize].is_active = false;
                proof {
                    assert(spaces_view(self.grid@) =~= b0.grid.update(
                        idx as int,
                        SpaceModel { active: false, ..b0.grid[idx as int] },
                    ));
                    assert(self@ == (BoardModel {
                        grid: b0.grid.update(
                            idx as int,
                            SpaceModel { active: false, ..b0.grid[idx as int] },
                        ),
                        ..b0
                    }));
                }
            }
            return Ok(());
        }
        if str_starts_with(line, "Piece") {
            if fields.len() < 5 {
                return Err(
                    Error::InvalidFileFormat(InvalidFormatError::new(line_num, line.to_owned())),
                );
            }
            proof {
                assert(fields@[1]@ == fs[1]);
                assert(fields@[2]@ == fs[2]);
                assert(fields@[3]@ == fs[3]);
                assert(fields@[4]@ == fs[4]);
            }
            let c_opt = parse_u32_field(fields[1].as_str());
            let r_opt = parse_u32_field(fields[2].as_str());
            let c: u32;
            let r: u32;
            match (c_opt, r_opt) {
                (Some(a), Some(b)) => {
                    c = a;
                    r = b;
                },
                _ => {
                    return Err(
                        Error::InvalidFileFormat(
                            InvalidFormatError::new(line_num, line.to_owned()),
                        ),
                    );
                },
            }
            let piece = match chess_pieces.get_piece(fields[4].as_str()) {
                Ok(p) => p,
                Err(e) => {
                    return Err(e);
                },
            };
            let idx = self.find_board_space_index(c, r);
            if idx >= 0 {
                proof {
                    lemma_grid_index(self@, c - 1, r - 1);
                }
                let team = fields[3].clone();
                let piece_name = piece.name.clone();
                let gp = match GamePiece::new(piece_name, team, c - 1, r - 1) {
                    Ok(g) => g,
                    Err(e) => {
                        return Err(e);
                    },
                };
                let ghost gpm = gp@;
                let ghost sp = b0.grid[idx as int];
                self.grid[idx as usize].game_pieces.push(gp);
                proof {
                    assert(self.grid@[idx as int]@.pieces =~= sp.pieces.push(gpm));
                    assert(self.grid@[idx as int]@ == (SpaceModel {
                        pieces: sp.pieces.push(gpm),
                        ..sp
                    }));
                    assert(spaces_view(self.grid@) =~= b0.grid.update(
                        idx as int,
                        SpaceModel { pieces: sp.pieces.push(gpm), ..sp },
                    ));
                    assert(self@ == (BoardModel {
                        grid: b0.grid.update(idx as int, SpaceModel { pieces: sp.pieces.push(gpm), ..sp }),
                        ..b0
                    }));
                }
            }
            return Ok(());
        }
        Ok(())
    }

    /// Builds the board from the lines of one board-description file, read
    /// in order against the given piece catalog, exactly as `board_parse`
    /// says; the first failing line aborts the build and leaves the board
    /// as the preceding lines left it.
    #[verifier::loop_isolation(false)]
    pub fn generate(&mut self, lines: &Vec<String>, chess_pieces: &PieceCatalog) -> (r: Result<
        (),
        Error,
    >)
        requires
            board_wf(old(self)@),
            catalog_wf(chess_pieces@),
            forall|k: int| 0 <= k < lines@.len() ==> (#[trigger] lines@[k])@.len() < usize::MAX,
        ensures
            board_wf(final(self)@),
            match board_parse(old(self)@, texts_view(lines@), 0, chess_pieces@) {
                BoardOutcome::Good(b2) => r is Ok && final(self)@ == b2,
                BoardOutcome::BadFormat(l, t, b2) => ({
                    &&& r matches Err(e)
                    &&& e matches Error::InvalidFileFormat(f)
                    &&& f.line as nat == l
                    &&& f.token@ == t
                    &&& final(self)@ == b2
                }),
                BoardOutcome::BadPiece(n, b2) => ({
                    &&& r matches Err(e)
                    &&& e matches Error::PieceNotFound(nf)
                    &&& nf.name@ == n
                    &&& final(self)@ == b2
                }),
            },
    {
        let ghost lv = texts_view(lines@);
        let ghost b0 = self@;
        let n = lines.len();
        let mut i: usize = 0;
        while i < n
            invariant
                0 <= i <= n,
                board_wf(self@),
                board_parse(b0, lv, 0, chess_pieces@) == board_parse(
                    self@,
                    lv,
                    i as int,
                    chess_pieces@,
                ),
            decreases n - i,
        {
            proof {
                assert(lv[i as int] == lines@[i as int]@);
            }
            match self.apply_board_line(lines[i].as_str(), i + 1, chess_pieces) {
                Ok(u) => {},
                Err(e) => {
                    return Err(e);
                },
            }
            i = i + 1;
        }
        proof {
            assert(board_parse(self@, lv, n as int, chess_pieces@) == BoardOutcome::Good(self@));
        }
        Ok(())
    }
}

/// The occupants of the spaces before position `i`, in grid order.
pub open spec fn pieces_upto(grid: Seq<SpaceModel>, i: int) -> Seq<GamePieceModel>
    decreases i when i <= grid.len()
{
    if i <= 0 {
        Seq::empty()
    } else {
        pieces_upto(grid, i - 1) + grid[i - 1].pieces
    }
}

impl Board {
    /// Every piece on the board, in grid order.
    pub fn collect_game_pieces(&self) -> (r: Vec<&GamePiece>)
        ensures
            r@.map_values(|p: &GamePiece| p@) == pieces_upto(self@.grid, self@.grid.len() as int),
    {
        let mut game_pieces: Vec<&GamePiece> = Vec::new();
        let n = self.grid.len();
        proof {
            assert(game_pieces@.map_values(|p: &GamePiece| p@) =~= pieces_upto(self@.grid, 0));
        }
        let mut i: usize = 0;
        while i < n
            invariant
                0 <= i <= n,
                n == self.grid@.len(),
                game_pieces@.map_values(|p: &GamePiece| p@) == pieces_upto(self@.grid, i as int),
            decreases n - i,
        {
            let space = &self.grid[i];
            let m = space.game_pieces.len();
            let mut k: usize = 0;
            proof {
                assert(game_pieces@.map_values(|p: &GamePiece| p@) + self@.grid[i as int].pieces.take(0)
                    =~= pieces_upto(self@.grid, i as int));
            }
            while k < m
                invariant
                    0 <= k <= m,
                    0 <= i < n,
                    n == self.grid@.len(),
                    m == space.game_pieces@.len(),
                    space == &self.grid@[i as int],
                    game_pieces@.map_values(|p: &GamePiece| p@) == pieces_upto(self@.grid, i as int)
                        + self@.grid[i as int].pieces.take(k as int),
                decreases m - k,
            {
                let gp = &space.game_pieces[k];
                let ghost before = game_pieces@;
                game_pieces.push(gp);
                proof {
                    assert(self@.grid[i as int].pieces[k as int] == gp@);
                    assert(game_pieces@.map_values(|p: &GamePiece| p@) =~= before.map_values(
                        |p: &GamePiece| p@,
                    ).push(gp@));
                    assert(self@.grid[i as int].pieces.take(k + 1) =~= self@.grid[
                        i as int
                    ].pieces.take(k as int).push(gp@));
                    assert(game_pieces@.map_values(|p: &GamePiece| p@) =~= pieces_upto(
                        self@.grid,
                        i as int,
                    ) + self@.grid[i as int].pieces.take(k + 1));
                }
                k = k + 1;
            }
            proof {
                assert(self@.grid[i as int].pieces.take(m as int) =~= self@.grid[i as int].pieces);
                assert(pieces_upto(self@.grid, i + 1) == pieces_upto(self@.grid, i as int)
                    + self@.grid[i as int].pieces);
            }
            i = i + 1;
        }
        game_pieces
    }

    /// Marks exactly the space at the given 0-based coordinates as hovered
    /// and every other space as not hovered; everything else on the board is
    /// untouched. Coordinates off the board clear every hovered flag.
    pub fn mouse_hover(&mut self, col: u32, row: u32) -> (r: Result<(), Error>)
        requires
            board_wf(old(self)@),
        ensures
            r is Ok,
            board_wf(final(self)@),
            final(self)@.name == old(self)@.name,
            final(self)@.width == old(self)@.width,
            final(self)@.height == old(self)@.height,
            final(self)@.players == old(self)@.players,
            final(self)@.dead == old(self)@.dead,
            final(self)@.moves == old(self)@.moves,
            final(self)@.grid.len() == old(self)@.grid.len(),
            forall|i: int|
                0 <= i < old(self)@.grid.len() ==> (#[trigger] final(self)@.grid[i]) == (SpaceModel {
                    hovered: old(self)@.grid[i].col == col as int && old(self)@.grid[i].row
                        == row as int,
                    ..old(self)@.grid[i]
                }),
    {
        let n = self.grid.len();
        let mut i: usize = 0;
        while i < n
            invariant
                0 <= i <= n,
                n == self.grid@.len(),
                self.name == old(self).name,
                self.width == old(self).width,
                self.height == old(self).height,
                self.players == old(self).players,
                self.dead_pieces == old(self).dead_pieces,
                self.moves == old(self).moves,
                self.grid@.len() == old(self).grid@.len(),
                forall|k: int|
                    0 <= k < i ==> (#[trigger] self.grid@[k])@ == (SpaceModel {
                        hovered: old(self).grid@[k]@.col == col as int && old(self).grid@[k]@.row
                            == row as int,
                        ..old(self).grid@[k]@
                    }),
                forall|k: int|
                    i <= k < n ==> (#[trigger] self.grid@[k]) == old(self).grid@[k],
            decreases n - i,
        {
            let ghost gprev = self.grid@;
            let hit = self.grid[i].horz_position == col && self.grid[i].vert_position == row;
            self.grid[i].hovered = hit;
            proof {
                assert(self.grid@ == gprev.update(
                    i as int,
                    BoardSpace { hovered: hit, ..gprev[i as int] },
                ));
                assert(spaces_view(self.grid@)[i as int] == self.grid@[i as int]@);
                assert(self.grid@[i as int]@ == (SpaceModel {
                    hovered: hit,
                    ..gprev[i as int]@
                }));
                assert(forall|k: int|
                    0 <= k < n && k != i ==> (#[trigger] self.grid@[k]) == gprev[k]);
            }
            i = i + 1;
        }
        proof {
            let bm = self@;
            let om = old(self)@;
            assert forall|q: int| 0 <= q < bm.grid.len() implies (#[trigger] bm.grid[q]).col
                == om.grid[q].col && bm.grid[q].row == om.grid[q].row && bm.grid[q].pieces
                == om.grid[q].pieces by {
                assert(bm.grid[q] == self.grid@[q]@);
                assert(om.grid[q] == old(self).grid@[q]@);
            }
            assert forall|q: int|
                0 <= q < bm.grid.len() implies (#[trigger] bm.grid[q]).col == q % bm.width
                && bm.grid[q].row == q / bm.width by {
                assert(om.grid[q].col == q % om.width && om.grid[q].row == q / om.width);
            }
            assert forall|q: int, k: int|
                0 <= q < bm.grid.len() && 0 <= k < bm.grid[q].pieces.len() implies (
            #[trigger] bm.grid[q].pieces[k]).col == bm.grid[q].col && bm.grid[q].pieces[k].row
                == bm.grid[q].row by {
                assert(om.grid[q].pieces[k].col == om.grid[q].col && om.grid[q].pieces[k].row
                    == om.grid[q].row);
            }
            assert(board_wf(self@));
        }
        Ok(())
    }
}

} // verus!
