use en_croissant::fen::{
    castling_field, determine_en_passant, generate_fen_from_board_data, locate_square,
    piece_symbol, place_pieces, placement, render_fen, Board, BoardData, BoardFlags, FenError,
};
use en_croissant::pieces::PieceMap;

fn piece_map(pieces: &[(&str, &str)]) -> PieceMap {
    let mut map = PieceMap::new();
    for (square, piece) in pieces {
        map.insert(square.to_string(), piece.to_string());
    }
    map
}

fn snapshot(pieces: &[(&str, &str)], moves: usize, castling: bool) -> BoardData {
    BoardData {
        game_id: "game-1".to_string(),
        pieces: piece_map(pieces),
        move_list: (0..moves).map(|i| format!("m{}", i)).collect(),
        raw_move_text: None,
        variant: "standard".to_string(),
        flags: BoardFlags {
            possible_castling: castling,
            possible_en_passant: false,
            board_flipped: false,
        },
        board_orientation: "white".to_string(),
        board_layout: None,
        timestamp: 0,
    }
}

fn fen_of(pieces: &[(&str, &str)], moves: usize) -> String {
    generate_fen_from_board_data(&snapshot(pieces, moves, false)).unwrap().fen
}

#[test]
fn kings_and_rooks_at_home_give_all_castling_rights() {
    let data = snapshot(
        &[("e1", "wK"), ("h1", "wR"), ("a1", "wR"), ("e8", "bK"), ("h8", "bR"), ("a8", "bR")],
        0,
        true,
    );
    let result = generate_fen_from_board_data(&data).unwrap();
    assert_eq!(result.fen, "r3k2r/8/8/8/8/8/8/R3K2R w KQkq - 0 1");
    let fields: Vec<&str> = result.fen.split(' ').collect();
    assert_eq!(fields[2], "KQkq");
    assert_eq!(fields[1], "w");
    assert_eq!(castling_field(&data.pieces), "KQkq");
}

#[test]
fn three_moves_give_black_to_move_in_move_two() {
    let data = snapshot(&[("e1", "wK"), ("e8", "bK")], 3, false);
    let result = generate_fen_from_board_data(&data).unwrap();
    let fields: Vec<&str> = result.fen.split(' ').collect();
    assert_eq!(fields[1], "b");
    assert_eq!(fields[5], "2");
    assert_eq!(result.fen, "4k3/8/8/8/8/8/8/4K3 b - - 0 2");
}

#[test]
fn empty_board_is_eight_empty_ranks() {
    assert_eq!(fen_of(&[], 0), "8/8/8/8/8/8/8/8 w - - 0 1");
}

#[test]
fn starting_position() {
    let mut pieces: Vec<(String, String)> = Vec::new();
    let back = ["R", "N", "B", "Q", "K", "B", "N", "R"];
    for (i, file) in "abcdefgh".chars().enumerate() {
        pieces.push((format!("{}1", file), format!("w{}", back[i])));
        pieces.push((format!("{}2", file), "wP".to_string()));
        pieces.push((format!("{}7", file), "bP".to_string()));
        pieces.push((format!("{}8", file), format!("b{}", back[i])));
    }
    let pairs: Vec<(&str, &str)> = pieces.iter().map(|(s, p)| (s.as_str(), p.as_str())).collect();
    assert_eq!(
        fen_of(&pairs, 0),
        "rnbqkbnr/pppppppp/8/8/8/8/PPPPPPPP/RNBQKBNR w KQkq - 0 1"
    );
}

#[test]
fn empty_runs_are_counted_between_pieces() {
    assert_eq!(
        fen_of(&[("a1", "wR"), ("c1", "wB"), ("h1", "wK"), ("b5", "bP")], 0),
        "8/8/8/1p6/8/8/8/R1B4K w - - 0 1"
    );
}

#[test]
fn colour_decides_the_case_of_the_symbol() {
    assert_eq!(fen_of(&[("a1", "wk")], 0), "8/8/8/8/8/8/8/K7 w - - 0 1");
    assert_eq!(fen_of(&[("d8", "bQ")], 0), "3q4/8/8/8/8/8/8/8 w - - 0 1");
    assert_eq!(fen_of(&[("d8", "xN")], 0), "3n4/8/8/8/8/8/8/8 w - - 0 1");
    assert_eq!(piece_symbol("wq"), Some("Q".to_string()));
    assert_eq!(piece_symbol("bQ"), Some("q".to_string()));
    assert_eq!(piece_symbol("wKing"), Some("K".to_string()));
    assert_eq!(piece_symbol("w"), None);
    assert_eq!(piece_symbol(""), None);
}

#[test]
fn uppercase_mapping_may_give_two_characters() {
    assert_eq!(piece_symbol("w\u{df}"), Some("SS".to_string()));
    assert_eq!(fen_of(&[("a1", "w\u{df}")], 0), "8/8/8/8/8/8/8/SS7 w - - 0 1");
}

#[test]
fn a_name_that_is_no_square_is_malformed() {
    let names = [
        "e",
        "e9",
        "e10",
        "i1",
        "a9",
        "a0",
        "A1",
        "",
        "z9",
        "1e",
        "\u{e9}",
        "\u{20ac}",
        "\u{e9}\u{e9}",
        "a\u{e9}",
    ];
    for name in names {
        let alone = snapshot(&[(name, "wK")], 0, false);
        assert_eq!(generate_fen_from_board_data(&alone).err(), Some(FenError::MalformedSquare));
        let among = snapshot(&[("e1", "wK"), (name, "bQ"), ("e8", "bK")], 0, false);
        assert_eq!(generate_fen_from_board_data(&among).err(), Some(FenError::MalformedSquare));
        assert_eq!(place_pieces(&piece_map(&[(name, "wK")])).err(), Some(FenError::MalformedSquare));
    }
}

#[test]
fn every_square_name_is_read() {
    for (row, rank) in "87654321".chars().enumerate() {
        for (file, letter) in "abcdefgh".chars().enumerate() {
            let name = format!("{}{}", letter, rank);
            assert_eq!(locate_square(&name), Ok((row, file)));
            let board = place_pieces(&piece_map(&[(name.as_str(), "wN")])).unwrap();
            assert_eq!(board.cell(row, file), Some(&"N".to_string()));
        }
    }
}

#[test]
fn piece_code_too_short_is_malformed() {
    let data = snapshot(&[("e1", "w")], 0, false);
    assert_eq!(generate_fen_from_board_data(&data).err(), Some(FenError::MalformedSquare));
    let data = snapshot(&[("a8", "bR"), ("h1", "")], 0, false);
    assert_eq!(generate_fen_from_board_data(&data).err(), Some(FenError::MalformedSquare));
}

#[test]
fn square_names_are_located_from_the_eighth_rank_down() {
    assert_eq!(locate_square("a8"), Ok((0, 0)));
    assert_eq!(locate_square("h8"), Ok((0, 7)));
    assert_eq!(locate_square("a1"), Ok((7, 0)));
    assert_eq!(locate_square("e4"), Ok((4, 4)));
    assert_eq!(locate_square("h1"), Ok((7, 7)));
    assert_eq!(locate_square("i4"), Err(FenError::MalformedSquare));
    assert_eq!(locate_square("e9"), Err(FenError::MalformedSquare));
    assert_eq!(locate_square("e0"), Err(FenError::MalformedSquare));
    assert_eq!(locate_square("E4"), Err(FenError::MalformedSquare));
    assert_eq!(locate_square("e"), Err(FenError::MalformedSquare));
    assert_eq!(locate_square("e44"), Err(FenError::MalformedSquare));
    assert_eq!(locate_square("\u{80}"), Err(FenError::MalformedSquare));
}

#[test]
fn en_passant_is_never_reported() {
    let mut data = snapshot(&[("e4", "wP"), ("d4", "bP")], 1, false);
    data.flags.possible_en_passant = true;
    assert_eq!(determine_en_passant(&data), "-");
    let result = generate_fen_from_board_data(&data).unwrap();
    assert_eq!(result.fen, "8/8/8/8/3pP3/8/8/8 b - - 0 1");
}

#[test]
fn castling_rights_follow_the_placement_alone() {
    let all = [("e1", "wK"), ("h1", "wR"), ("a1", "wR"), ("e8", "bK"), ("h8", "bR"), ("a8", "bR")];
    assert_eq!(castling_field(&piece_map(&all)), "KQkq");
    assert_eq!(castling_field(&piece_map(&[("e1", "wK"), ("h1", "wR"), ("e8", "bK"), ("a8", "bR")])), "Kq");
    assert_eq!(castling_field(&piece_map(&[("h1", "wR"), ("a1", "wR"), ("e8", "bK")])), "-");
    assert_eq!(castling_field(&piece_map(&[("e1", "wk"), ("h1", "wR")])), "-");
    assert_eq!(castling_field(&piece_map(&[("e1", "bK"), ("h1", "wR")])), "-");
    assert_eq!(castling_field(&piece_map(&[])), "-");
    let without_flag = snapshot(&all, 0, false);
    let fen = generate_fen_from_board_data(&without_flag).unwrap().fen;
    assert_eq!(fen, "r3k2r/8/8/8/8/8/8/R3K2R w KQkq - 0 1");
}

#[test]
fn move_count_gives_side_and_move_number() {
    let expected = [(0, "w", "1"), (1, "b", "1"), (2, "w", "2"), (3, "b", "2"), (40, "w", "21"), (199, "b", "100")];
    for (moves, side, number) in expected {
        let fen = fen_of(&[], moves);
        let fields: Vec<&str> = fen.split(' ').collect();
        assert_eq!(fields.len(), 6);
        assert_eq!(fields[1], side);
        assert_eq!(fields[3], "-");
        assert_eq!(fields[4], "0");
        assert_eq!(fields[5], number);
    }
}

#[test]
fn variant_and_game_are_carried_over() {
    let mut data = snapshot(&[("e1", "wK")], 0, false);
    data.variant = "chess960".to_string();
    data.game_id = "abc-42".to_string();
    let result = generate_fen_from_board_data(&data).unwrap();
    assert_eq!(result.variant, "chess960");
    assert_eq!(result.game_id, "abc-42");
}

#[test]
fn derivation_is_repeatable() {
    let data = snapshot(&[("e1", "wK"), ("d8", "bQ"), ("c3", "wN")], 5, false);
    let first = generate_fen_from_board_data(&data).unwrap();
    let second = generate_fen_from_board_data(&data).unwrap();
    assert_eq!(first, second);
}

#[test]
fn rendering_a_board_directly() {
    let board = Board::empty()
        .place(0, 4, "k".to_string())
        .place(7, 4, "K".to_string())
        .place(7, 7, "R".to_string())
        .place(8, 0, "Q".to_string())
        .place(0, 8, "Q".to_string());
    assert_eq!(placement(&board), "4k3/8/8/8/8/8/8/4K2R");
    assert_eq!(render_fen(&board, "K", "-", 7), "4k3/8/8/8/8/8/8/4K2R b K - 0 4");
    assert_eq!(board.cell(7, 7), Some(&"R".to_string()));
    assert_eq!(board.cell(3, 3), Some(&String::new()));
    assert_eq!(board.cell(8, 0), None);
    let cleared = board.place(7, 7, String::new());
    assert_eq!(placement(&cleared), "4k3/8/8/8/8/8/8/4K3");
}

#[test]
fn piece_map_keeps_one_piece_for_each_square() {
    let mut map = PieceMap::new();
    assert_eq!(map.len(), 0);
    assert_eq!(map.get("e1"), None);
    map.insert("e1".to_string(), "wK".to_string());
    map.insert("e8".to_string(), "bK".to_string());
    map.insert("e1".to_string(), "wQ".to_string());
    assert_eq!(map.len(), 2);
    assert_eq!(map.get("e1"), Some(&"wQ".to_string()));
    assert_eq!(map.get("e8"), Some(&"bK".to_string()));
    assert_eq!(map.get("e2"), None);
    assert_eq!(fen_of(&[("e1", "wK"), ("e1", "wQ")], 0), "8/8/8/8/8/8/8/4Q3 w - - 0 1");
}
