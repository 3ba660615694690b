use chess_engine::piece_catalog::PieceCatalog;
use chess_engine::piece_catalog::PieceTokenKind;
use chess_engine::piece_move::MoveRules;

#[test]
fn lex_stuff() {
    let data = "
            Name: King
            ";
    let tokens = PieceCatalog::lex_piece(data).unwrap();
    assert_eq!(tokens.len(), 4);
    assert_eq!(tokens[0].line, 2);
    assert_eq!(tokens[0].text, "Name");
    assert!(matches!(tokens[0].kind, PieceTokenKind::NameKeyword));
    assert_eq!(tokens[1].line, 2);
    assert_eq!(tokens[1].text, ":");
    assert!(matches!(tokens[1].kind, PieceTokenKind::Colon));
    assert_eq!(tokens[2].line, 2);
    assert_eq!(tokens[2].text, "King");
    match &tokens[2].kind {
        PieceTokenKind::Text(w) => assert_eq!(w, "King"),
        _ => panic!("expected a text token"),
    }
    assert_eq!(tokens[3].line, 3);
    assert_eq!(tokens[3].text, "");
    assert!(matches!(tokens[3].kind, PieceTokenKind::EndOfFile));
}

#[test]
fn parse_name_statement() {
    let data = "Name: King";
    let piece = PieceCatalog::parse_piece(PieceCatalog::lex_piece(data).unwrap()).unwrap();
    assert_eq!(piece.name, "King");
    assert_eq!(piece.image_key, "");
    assert!(piece.move_set.is_empty());
    assert!(piece.promotions.is_empty());
}

#[test]
fn parse_move_statement() {
    let data = "Leap: -1 1";
    let tokens = PieceCatalog::lex_piece(data).unwrap();
    let piece = PieceCatalog::parse_piece(tokens).unwrap();
    let _ = piece;
}

#[test]
fn read_basic_piece() {
    let data = "
            ----------------------------
            Name: King
            Image: King.png
            ----------------------------
            Leap: 1 1
            Leap: 1 -1
            Leap: -1 1
            Leap: -1 -1
            Leap: 1 1
            Leap: 1 -1
            Leap: -1 1
            Leap: -1 -1
            ----------------------------
            Kill: 1 1
            Kill: 1 -1
            Kill: -1 1
            Kill: -1 -1
            Kill: 1 1
            Kill: 1 -1
            Kill: -1 1
            Kill: -1 -1
            ----------------------------
            Special: Castle
            ----------------------------
        ";
    let piece = PieceCatalog::read_piece(data).unwrap();
    assert_eq!(piece.name, "King");
    assert_eq!(piece.image_key, "King.png");
    assert_eq!(piece.move_set.len(), 17);
    let expected: [(i32, i32); 8] =
        [(1, 1), (1, -1), (-1, 1), (-1, -1), (1, 1), (1, -1), (-1, 1), (-1, -1)];
    for (i, (f, l)) in expected.iter().enumerate() {
        assert_eq!(piece.move_set[i].forward, *f);
        assert_eq!(piece.move_set[i].left, *l);
        assert!(matches!(piece.move_set[i].rules, MoveRules::Leap));
    }
    for (i, (f, l)) in expected.iter().enumerate() {
        assert_eq!(piece.move_set[8 + i].forward, *f);
        assert_eq!(piece.move_set[8 + i].left, *l);
        assert!(matches!(piece.move_set[8 + i].rules, MoveRules::Kill));
    }
    assert_eq!(piece.move_set[16].forward, 0);
    assert_eq!(piece.move_set[16].left, 0);
    assert!(matches!(piece.move_set[16].rules, MoveRules::Castle));
    assert!(piece.promotions.is_empty());
}

#[test]
fn name_with_space() {
    let data = "Name: King_Killer";
    let tokens = PieceCatalog::lex_piece(data).unwrap();
    let piece = PieceCatalog::parse_piece(tokens).unwrap();
    assert_eq!(piece.name, "King Killer");
    assert_eq!(piece.image_key, "");
    assert!(piece.move_set.is_empty());
    assert!(piece.promotions.is_empty());
}

#[test]
fn promotion_statement() {
    let data = "Name: Pawn\nPromotion: Queen\nPromotion: Rook";
    let piece = PieceCatalog::read_piece(data).unwrap();
    assert_eq!(piece.name, "Pawn");
    assert_eq!(piece.promotions, vec!["Queen".to_string(), "Rook".to_string()]);
}

#[test]
fn special_pawn_first() {
    let data = "Special: PawnFirst";
    let piece = PieceCatalog::read_piece(data).unwrap();
    assert_eq!(piece.move_set.len(), 1);
    assert_eq!(piece.move_set[0].forward, 0);
    assert_eq!(piece.move_set[0].left, 0);
    assert!(matches!(piece.move_set[0].rules, MoveRules::PawnFirst));
}

#[test]
fn special_unknown_is_error() {
    let data = "Special: Teleport";
    let e = PieceCatalog::read_piece(data).unwrap_err();
    assert_eq!(e.line, 1);
    assert_eq!(e.token, "Teleport");
}

#[test]
fn format_error_reports_line() {
    let data = "Name: King\nName Foo";
    let e = PieceCatalog::read_piece(data).unwrap_err();
    assert_eq!(e.line, 2);
    assert_eq!(e.token, "Foo");
}

#[test]
fn lexical_error_reports_character() {
    let data = "Name: King\n\nLeap: 1 %";
    let e = PieceCatalog::read_piece(data).unwrap_err();
    assert_eq!(e.line, 3);
    assert_eq!(e.token, "%");
}

#[test]
fn number_out_of_range_is_error() {
    let data = "Leap: 99999999999 1";
    let e = PieceCatalog::read_piece(data).unwrap_err();
    assert_eq!(e.line, 1);
    assert_eq!(e.token, "99999999999");
}

#[test]
fn multi_digit_numbers() {
    let data = "Leap: 12 -34";
    let piece = PieceCatalog::read_piece(data).unwrap();
    assert_eq!(piece.move_set.len(), 1);
    assert_eq!(piece.move_set[0].forward, 12);
    assert_eq!(piece.move_set[0].left, -34);
}

#[test]
fn separators_do_not_change_the_parse() {
    let plain = "Name: King\nImage: King.png\nLeap: 1 1\nKill: -1 0";
    let with_separators =
        "----\nName: King\n----------\nImage: King.png\n--\nLeap: 1 1\n----\nKill: -1 0\n------\n";
    let a = PieceCatalog::read_piece(plain).unwrap();
    let b = PieceCatalog::read_piece(with_separators).unwrap();
    assert_eq!(a.name, b.name);
    assert_eq!(a.image_key, b.image_key);
    assert_eq!(a.move_set.len(), b.move_set.len());
    for i in 0..a.move_set.len() {
        assert_eq!(a.move_set[i].forward, b.move_set[i].forward);
        assert_eq!(a.move_set[i].left, b.move_set[i].left);
        assert_eq!(a.move_set[i].rules, b.move_set[i].rules);
    }
    assert_eq!(a.promotions, b.promotions);
}

#[test]
fn catalog_last_parse_wins() {
    let mut catalog = PieceCatalog::new().unwrap();
    let texts = vec![
        "Name: King\nImage: Old.png".to_string(),
        "Name: Rook\nLeap: 1 0".to_string(),
        "Name: King\nImage: New.png".to_string(),
    ];
    catalog.generate(&texts).unwrap();
    let king = catalog.get_piece("King").unwrap();
    assert_eq!(king.image_key, "New.png");
    let rook = catalog.get_piece("Rook").unwrap();
    assert_eq!(rook.move_set.len(), 1);
}

#[test]
fn catalog_missing_piece_is_error() {
    let catalog = PieceCatalog::new().unwrap();
    let e = catalog.get_piece("Queen").unwrap_err();
    match e {
        chess_engine::errors::Error::PieceNotFound(nf) => assert_eq!(nf.name, "Queen"),
        _ => panic!("expected a piece-not-found error"),
    }
}

#[test]
fn catalog_bad_file_aborts_build() {
    let mut catalog = PieceCatalog::new().unwrap();
    let texts = vec!["Name: King".to_string(), "Nonsense here".to_string()];
    let e = catalog.generate(&texts).unwrap_err();
    match e {
        chess_engine::errors::Error::InvalidFileFormat(f) => {
            assert_eq!(f.line, 1);
            assert_eq!(f.token, "Nonsense");
        },
        _ => panic!("expected a format error"),
    }
}
