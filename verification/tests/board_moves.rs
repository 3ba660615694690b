use chess_engine::board::Board;
use chess_engine::board_space::SquareShade;
use chess_engine::chess_game::ChessGame;
use chess_engine::move_data::MoveData;
use chess_engine::move_gen::SelectedPiece;
use chess_engine::piece_catalog::PieceCatalog;
use chess_engine::piece_move::MoveRules;
use chess_engine::piece_move::PieceMove;

fn strings(lines: &[&str]) -> Vec<String> {
    lines.iter().map(|s| s.to_string()).collect()
}

fn space_index(board: &Board, col: u32, row: u32) -> usize {
    (row * board.width + col) as usize
}

#[test]
fn board_file_builds_the_position() {
    let mut catalog = PieceCatalog::new().unwrap();
    catalog
        .generate(&strings(&["Name: Rook\nLeap: 0 1\nKill: 0 1"]))
        .unwrap();
    let mut board = Board::new().unwrap();
    board
        .generate(
            &strings(&[
                "Name: Classic Chess",
                "Size: 8 8",
                "Player: white",
                "Player: black",
                "Piece: 1 1 white Rook",
                "Piece: 8 8 black Rook",
                "Disabled: 3 4",
            ]),
            &catalog,
        )
        .unwrap();
    assert_eq!(board.name, "Classic Chess");
    assert_eq!(board.width, 8);
    assert_eq!(board.height, 8);
    assert_eq!(board.grid.len(), 64);
    assert_eq!(board.players, vec!["white".to_string(), "black".to_string()]);
    let first = &board.grid[space_index(&board, 0, 0)];
    assert_eq!(first.game_pieces.len(), 1);
    assert_eq!(first.game_pieces[0].piece_name, "Rook");
    assert_eq!(first.game_pieces[0].team_name, "white");
    assert_eq!(first.game_pieces[0].horz_position, 0);
    assert_eq!(first.game_pieces[0].vert_position, 0);
    let last = &board.grid[space_index(&board, 7, 7)];
    assert_eq!(last.game_pieces.len(), 1);
    assert_eq!(last.game_pieces[0].team_name, "black");
    assert!(!board.grid[space_index(&board, 2, 3)].is_active);
    assert!(board.grid[space_index(&board, 3, 2)].is_active);
}

#[test]
fn board_file_ignores_comments_and_unknown_lines() {
    let catalog = PieceCatalog::new().unwrap();
    let mut board = Board::new().unwrap();
    board
        .generate(
            &strings(&["---- a separator", "Size: 2 3", "", "Something else entirely"]),
            &catalog,
        )
        .unwrap();
    assert_eq!(board.width, 2);
    assert_eq!(board.height, 3);
    assert_eq!(board.grid.len(), 6);
}

#[test]
fn board_file_unknown_piece_is_error() {
    let catalog = PieceCatalog::new().unwrap();
    let mut board = Board::new().unwrap();
    let e = board
        .generate(&strings(&["Size: 2 2", "Piece: 1 1 white Ghost"]), &catalog)
        .unwrap_err();
    match e {
        chess_engine::errors::Error::PieceNotFound(nf) => assert_eq!(nf.name, "Ghost"),
        _ => panic!("expected a piece-not-found error"),
    }
}

#[test]
fn board_file_bad_size_is_error() {
    let catalog = PieceCatalog::new().unwrap();
    let mut board = Board::new().unwrap();
    let e = board.generate(&strings(&["Name: X", "Size: 8"]), &catalog).unwrap_err();
    match e {
        chess_engine::errors::Error::InvalidFileFormat(f) => {
            assert_eq!(f.line, 2);
            assert_eq!(f.token, "Size: 8");
        },
        _ => panic!("expected a format error"),
    }
}

#[test]
fn board_file_off_board_placement_is_skipped() {
    let mut catalog = PieceCatalog::new().unwrap();
    catalog.generate(&strings(&["Name: Rook"])).unwrap();
    let mut board = Board::new().unwrap();
    board
        .generate(&strings(&["Size: 2 2", "Piece: 5 5 white Rook", "Piece: 0 1 white Rook"]), &catalog)
        .unwrap();
    for space in &board.grid {
        assert!(space.game_pieces.is_empty());
    }
}

#[test]
fn find_board_space_index_is_one_based() {
    let catalog = PieceCatalog::new().unwrap();
    let mut board = Board::new().unwrap();
    board.generate(&strings(&["Size: 4 3"]), &catalog).unwrap();
    assert_eq!(board.find_board_space_index(1, 1), 0);
    assert_eq!(board.find_board_space_index(4, 3), 11);
    assert_eq!(board.find_board_space_index(2, 3), 9);
    assert_eq!(board.find_board_space_index(5, 1), -1);
    assert_eq!(board.find_board_space_index(0, 1), -1);
}

#[test]
fn mouse_hover_marks_exactly_one_space() {
    let catalog = PieceCatalog::new().unwrap();
    let mut board = Board::new().unwrap();
    board.generate(&strings(&["Size: 3 3"]), &catalog).unwrap();
    board.mouse_hover(1, 2).unwrap();
    for space in &board.grid {
        let expected = space.horz_position == 1 && space.vert_position == 2;
        assert_eq!(space.hovered, expected);
    }
    board.mouse_hover(0, 0).unwrap();
    for space in &board.grid {
        let expected = space.horz_position == 0 && space.vert_position == 0;
        assert_eq!(space.hovered, expected);
    }
}

fn selected(moves: Vec<PieceMove>, col: u32, row: u32, team: &str) -> SelectedPiece {
    SelectedPiece { moves, horz_pos: col, vert_pos: row, team_name: team.to_string() }
}

#[test]
fn leap_off_the_board_marks_nothing() {
    let catalog = PieceCatalog::new().unwrap();
    let mut board = Board::new().unwrap();
    board.generate(&strings(&["Size: 2 2"]), &catalog).unwrap();
    let sel = selected(vec![PieceMove::new(1, 1, MoveRules::Leap)], 1, 1, "white");
    board.generate_moves_for(vec![sel]);
    for space in &board.grid {
        assert!(!space.available_to_move);
        assert!(!space.available_to_kill);
        assert!(!space.is_danger);
    }
}

#[test]
fn leap_marks_only_its_empty_target() {
    let catalog = PieceCatalog::new().unwrap();
    let mut board = Board::new().unwrap();
    board.generate(&strings(&["Size: 3 3"]), &catalog).unwrap();
    let sel = selected(vec![PieceMove::new(1, 1, MoveRules::Leap)], 0, 0, "white");
    board.generate_moves_for(vec![sel]);
    for space in &board.grid {
        let expected = space.horz_position == 1 && space.vert_position == 1;
        assert_eq!(space.available_to_move, expected);
        assert!(!space.available_to_kill);
    }
}

#[test]
fn leap_onto_an_occupied_square_marks_nothing() {
    let mut catalog = PieceCatalog::new().unwrap();
    catalog.generate(&strings(&["Name: Pawn"])).unwrap();
    let mut board = Board::new().unwrap();
    board
        .generate(&strings(&["Size: 3 3", "Piece: 2 2 black Pawn"]), &catalog)
        .unwrap();
    let sel = selected(vec![PieceMove::new(1, 1, MoveRules::Leap)], 0, 0, "white");
    board.generate_moves_for(vec![sel]);
    for space in &board.grid {
        assert!(!space.available_to_move);
        assert!(!space.available_to_kill);
    }
}

#[test]
fn kill_respects_teams() {
    let mut catalog = PieceCatalog::new().unwrap();
    catalog.generate(&strings(&["Name: Pawn"])).unwrap();
    let mut board = Board::new().unwrap();
    board
        .generate(&strings(&["Size: 3 3", "Piece: 2 2 white Pawn"]), &catalog)
        .unwrap();
    let friendly = selected(vec![PieceMove::new(1, 1, MoveRules::Kill)], 0, 0, "white");
    board.generate_moves_for(vec![friendly]);
    for space in &board.grid {
        assert!(!space.available_to_kill);
        assert!(!space.available_to_move);
    }
    let hostile = selected(vec![PieceMove::new(1, 1, MoveRules::Kill)], 0, 0, "black");
    board.generate_moves_for(vec![hostile]);
    for space in &board.grid {
        let expected = space.horz_position == 1 && space.vert_position == 1;
        assert_eq!(space.available_to_kill, expected);
        assert!(!space.available_to_move);
    }
}

#[test]
fn run_slides_until_blocked() {
    let mut catalog = PieceCatalog::new().unwrap();
    catalog.generate(&strings(&["Name: Pawn"])).unwrap();
    let mut board = Board::new().unwrap();
    board
        .generate(&strings(&["Size: 6 1", "Piece: 5 1 black Pawn"]), &catalog)
        .unwrap();
    let runner = selected(vec![PieceMove::new(0, 1, MoveRules::Run)], 0, 0, "white");
    board.generate_moves_for(vec![runner]);
    // Squares 1..=3 on the row are empty and reachable; square 4 holds the
    // enemy and is flagged for a kill; square 5 lies beyond the blocker.
    for space in &board.grid {
        let col = space.horz_position;
        assert_eq!(space.available_to_move, col >= 1 && col <= 3);
        assert_eq!(space.available_to_kill, col == 4);
    }
}

#[test]
fn run_to_the_board_edge() {
    let catalog = PieceCatalog::new().unwrap();
    let mut board = Board::new().unwrap();
    board.generate(&strings(&["Size: 4 4"]), &catalog).unwrap();
    let runner = selected(vec![PieceMove::new(1, 1, MoveRules::Run)], 0, 0, "white");
    board.generate_moves_for(vec![runner]);
    for space in &board.grid {
        let expected = space.horz_position == space.vert_position && space.horz_position >= 1;
        assert_eq!(space.available_to_move, expected);
        assert!(!space.available_to_kill);
    }
}

#[test]
fn special_rules_mark_nothing() {
    let catalog = PieceCatalog::new().unwrap();
    let mut board = Board::new().unwrap();
    board.generate(&strings(&["Size: 3 3"]), &catalog).unwrap();
    let sel = selected(
        vec![PieceMove::new_special(MoveRules::Castle), PieceMove::new_special(MoveRules::PawnFirst)],
        1,
        1,
        "white",
    );
    board.generate_moves_for(vec![sel]);
    for space in &board.grid {
        assert!(!space.available_to_move);
        assert!(!space.available_to_kill);
    }
}

#[test]
fn generation_resets_previous_flags() {
    let mut game = ChessGame::new().unwrap();
    game.load(
        &strings(&["Name: Jumper\nLeap: 0 1"]),
        &strings(&["Size: 4 4", "Piece: 1 1 white Jumper", "Piece: 1 4 black Jumper"]),
    )
    .unwrap();
    game.mouse_hover(0, 0).unwrap();
    game.mouse_left_click().unwrap();
    let idx_first = space_index(&game.board, 1, 0);
    assert!(game.board.grid[idx_first].available_to_move);
    game.mouse_hover(0, 3).unwrap();
    game.mouse_left_click().unwrap();
    let idx_second = space_index(&game.board, 1, 3);
    assert!(!game.board.grid[idx_first].available_to_move);
    assert!(game.board.grid[idx_second].available_to_move);
}

#[test]
fn end_to_end_selection_scenario() {
    let pieces = strings(&["Name: Jumper\nLeap: 0 1"]);
    let mut game = ChessGame::new().unwrap();
    game.load(
        &pieces,
        &strings(&["Size: 2 2", "Piece: 1 1 white Jumper", "Piece: 2 1 black Jumper"]),
    )
    .unwrap();
    game.mouse_hover(0, 0).unwrap();
    game.mouse_left_click().unwrap();
    for space in &game.board.grid {
        assert!(!space.available_to_move);
        assert!(!space.available_to_kill);
    }
    let mut game = ChessGame::new().unwrap();
    game.load(&pieces, &strings(&["Size: 2 2", "Piece: 1 1 white Jumper"])).unwrap();
    game.mouse_hover(0, 0).unwrap();
    game.mouse_left_click().unwrap();
    for space in &game.board.grid {
        let expected = space.horz_position == 1 && space.vert_position == 0;
        assert_eq!(space.available_to_move, expected);
        assert!(!space.available_to_kill);
    }
}

#[test]
fn selection_follows_hover() {
    let mut game = ChessGame::new().unwrap();
    game.load(
        &strings(&["Name: Jumper\nLeap: 0 1"]),
        &strings(&["Size: 2 2", "Piece: 1 1 white Jumper", "Piece: 1 2 black Jumper"]),
    )
    .unwrap();
    game.mouse_hover(0, 1).unwrap();
    game.mouse_left_click().unwrap();
    let first = &game.board.grid[space_index(&game.board, 0, 0)];
    let second = &game.board.grid[space_index(&game.board, 0, 1)];
    assert!(!first.game_pieces[0].selected);
    assert!(second.game_pieces[0].selected);
}

#[test]
fn move_data_keeps_its_fields() {
    let m = MoveData::new(1, 2, 3, 4, 5);
    assert_eq!(m.player(), 1);
    assert_eq!(m.from_x(), 2);
    assert_eq!(m.from_y(), 3);
    assert_eq!(m.to_x(), 4);
    assert_eq!(m.to_y(), 5);
}

#[test]
fn space_at_returns_the_addressed_space() {
    let catalog = PieceCatalog::new().unwrap();
    let mut board = Board::new().unwrap();
    board.generate(&strings(&["Size: 4 3"]), &catalog).unwrap();
    let space = board.space_at(2, 1);
    assert_eq!(space.horz_position, 2);
    assert_eq!(space.vert_position, 1);
}

#[test]
fn collect_game_pieces_walks_the_grid_in_order() {
    let mut catalog = PieceCatalog::new().unwrap();
    catalog.generate(&strings(&["Name: Pawn"])).unwrap();
    let mut board = Board::new().unwrap();
    board
        .generate(
            &strings(&["Size: 3 3", "Piece: 3 3 black Pawn", "Piece: 1 1 white Pawn"]),
            &catalog,
        )
        .unwrap();
    let pieces = board.collect_game_pieces();
    assert_eq!(pieces.len(), 2);
    assert_eq!(pieces[0].team_name, "white");
    assert_eq!(pieces[1].team_name, "black");
}

#[test]
fn load_propagates_a_bad_descriptor() {
    let mut game = ChessGame::new().unwrap();
    let e = game
        .load(&strings(&["Name King"]), &strings(&["Size: 2 2"]))
        .unwrap_err();
    match e {
        chess_engine::errors::Error::InvalidFileFormat(f) => {
            assert_eq!(f.line, 1);
            assert_eq!(f.token, "King");
        },
        _ => panic!("expected a format error"),
    }
}

#[test]
fn board_squares_alternate_shading() {
    let catalog = PieceCatalog::new().unwrap();
    let mut board = Board::new().unwrap();
    board.generate(&strings(&["Size: 2 2"]), &catalog).unwrap();
    for space in &board.grid {
        let expected = if (space.horz_position + space.vert_position) % 2 == 0 {
            SquareShade::Dark
        } else {
            SquareShade::Light
        };
        assert_eq!(space.color, expected);
    }
}
