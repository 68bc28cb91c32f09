use chess::{check_check, code_square, decode_position, Board, Colour, Game, GameState, Piece};

fn empty_board() -> Board {
    [[None; 8]; 8]
}

fn sorted(moves: Option<Vec<String>>) -> Vec<String> {
    let mut m = moves.unwrap();
    m.sort();
    m
}

fn count_pieces(board: &Board) -> usize {
    board.iter().map(|row| row.iter().filter(|s| s.is_some()).count()).sum()
}

fn king_square(board: &Board, c: Colour) -> (usize, usize) {
    for r in 0..8 {
        for f in 0..8 {
            if board[r][f] == Some(Piece::King(c)) {
                return (r, f);
            }
        }
    }
    panic!("no king");
}

#[test]
fn pinned_pawn_keeps_to_the_pin_line() {
    let mut game = Game::new();
    game.board = [[None, None, None, None, None, None, None, None],
        [None, None, Some(Piece::Rook(Colour::White)), None, None, None, None, None],
        [None, None, None, None, Some(Piece::King(Colour::White)), None, None, Some(Piece::Bishop(Colour::White))],
        [None, Some(Piece::Pawn(Colour::White)), None, Some(Piece::Pawn(Colour::White)), None, None, None, None],
        [None, None, Some(Piece::Queen(Colour::Black)), None, None, None, None, None],
        [None, Some(Piece::Knight(Colour::White)), Some(Piece::King(Colour::Black)), None, None, None, None, None],
        [None, None, None, Some(Piece::Pawn(Colour::Black)), Some(Piece::Queen(Colour::White)), None, None, None],
        [None, None, None, None, None, Some(Piece::Knight(Colour::Black)), None, None]];
    assert_eq!(sorted(game.get_possible_moves("d4".to_string())), vec!["c5".to_string()]);
}

#[test]
fn checkmate_sequence_ends_the_game() {
    let mut game = Game::new();
    let moves = [("a2", "a4"), ("h7", "h5"), ("b1", "c3"), ("e7", "e6"), ("g1", "h3"), ("d8", "h4"),
        ("c3", "d5"), ("f8", "c5"), ("d5", "c7"), ("e8", "e7"), ("c7", "a8"), ("g8", "f6"),
        ("a1", "a3"), ("f6", "e4"), ("d2", "d3"), ("c5", "f2"), ("h3", "f2"), ("h4", "f2")];
    let mut last = None;
    for (from, to) in moves.iter() {
        last = game.make_move(from.to_string(), to.to_string());
        assert!(last.is_some(), "{}-{} refused", from, to);
    }
    assert_eq!(last, Some(GameState::GameOver));
    assert_eq!(game.get_game_state(), GameState::GameOver);
    // a finished game takes no more moves
    assert_eq!(game.make_move("e1".to_string(), "d2".to_string()), None);
    assert_eq!(game.make_move("a3".to_string(), "b3".to_string()), None);
}

#[test]
fn promotion_defaults_to_queen_then_follows_choice() {
    let mut game = Game::new();
    let mut board = empty_board();
    board[6][0] = Some(Piece::Pawn(Colour::White));
    board[6][1] = Some(Piece::Pawn(Colour::White));
    board[2][4] = Some(Piece::King(Colour::White));
    board[4][4] = Some(Piece::King(Colour::Black));
    board[1][7] = Some(Piece::Pawn(Colour::Black));
    game.board = board;
    assert_eq!(game.make_move("a7".to_string(), "a8".to_string()), Some(GameState::InProgress));
    assert_eq!(game.board[7][0], Some(Piece::Queen(Colour::White)));
    assert_eq!(game.make_move("h2".to_string(), "h1".to_string()), Some(GameState::InProgress));
    assert_eq!(game.board[0][7], Some(Piece::Queen(Colour::Black)));
    game.set_promotion("kn".to_string());
    assert_eq!(game.make_move("b7".to_string(), "b8".to_string()), Some(GameState::InProgress));
    assert_eq!(game.board[7][1], Some(Piece::Knight(Colour::White)));
}

#[test]
fn unknown_promotion_choice_is_a_queen() {
    let mut game = Game::new();
    let mut board = empty_board();
    board[6][0] = Some(Piece::Pawn(Colour::White));
    board[0][4] = Some(Piece::King(Colour::White));
    board[4][7] = Some(Piece::King(Colour::Black));
    game.board = board;
    game.set_promotion("r".to_string());
    game.set_promotion("K".to_string());
    game.make_move("a7".to_string(), "a8".to_string());
    assert_eq!(game.board[7][0], Some(Piece::Queen(Colour::White)));
}

#[test]
fn choice_belongs_to_the_side_to_move() {
    let mut game = Game::new();
    let mut board = empty_board();
    board[1][0] = Some(Piece::Pawn(Colour::Black));
    board[6][7] = Some(Piece::Pawn(Colour::White));
    board[2][4] = Some(Piece::King(Colour::White));
    board[4][4] = Some(Piece::King(Colour::Black));
    game.board = board;
    game.set_promotion("r".to_string());
    assert_eq!(game.make_move("h7".to_string(), "h8".to_string()), Some(GameState::InProgress));
    assert_eq!(game.board[7][7], Some(Piece::Rook(Colour::White)));
    assert_eq!(game.make_move("a2".to_string(), "a1".to_string()), Some(GameState::InProgress));
    assert_eq!(game.board[0][0], Some(Piece::Queen(Colour::Black)));
}

#[test]
fn notation_round_trip() {
    for r in 0..8usize {
        for f in 0..8usize {
            let name = code_square((r, f));
            assert_eq!(name.len(), 2);
            assert_eq!(decode_position(&name), Some((r, f)));
        }
    }
    assert_eq!(code_square((0, 0)), "a1".to_string());
    assert_eq!(code_square((3, 4)), "e4".to_string());
    assert_eq!(code_square((7, 7)), "h8".to_string());
    assert_eq!(decode_position(&"e2".to_string()), Some((1, 4)));
}

#[test]
fn malformed_notation_is_refused() {
    let mut game = Game::new();
    for bad in ["", "e", "e22", "i2", "a9", "a0", "E2", "2e"] {
        assert_eq!(decode_position(&bad.to_string()), None);
        assert_eq!(game.get_possible_moves(bad.to_string()), None);
        assert_eq!(game.make_move(bad.to_string(), "e4".to_string()), None);
        assert_eq!(game.make_move("e2".to_string(), bad.to_string()), None);
    }
    assert_eq!(game.active, Colour::White);
}

#[test]
fn only_the_side_to_move_has_moves() {
    let mut game = Game::new();
    assert_eq!(game.get_possible_moves("e7".to_string()), None);
    assert_eq!(game.get_possible_moves("e4".to_string()), None);
    assert_eq!(sorted(game.get_possible_moves("e2".to_string())), vec!["e3".to_string(), "e4".to_string()]);
    assert_eq!(sorted(game.get_possible_moves("g1".to_string())), vec!["f3".to_string(), "h3".to_string()]);
    assert_eq!(game.get_possible_moves("a1".to_string()), Some(vec![]));
    assert_eq!(game.make_move("e7".to_string(), "e5".to_string()), None);
    assert_eq!(game.make_move("e2".to_string(), "e5".to_string()), None);
    assert_eq!(game.make_move("e2".to_string(), "e4".to_string()), Some(GameState::InProgress));
    assert_eq!(game.active, Colour::Black);
    assert_eq!(game.get_possible_moves("e4".to_string()), None);
    assert_eq!(sorted(game.get_possible_moves("e7".to_string())), vec!["e5".to_string(), "e6".to_string()]);
}

#[test]
fn same_query_gives_same_moves() {
    let game = Game::new();
    for name in ["b1", "e2", "d1", "a1", "h2"] {
        assert_eq!(game.get_possible_moves(name.to_string()), game.get_possible_moves(name.to_string()));
    }
}

#[test]
fn capture_removes_exactly_one_piece() {
    let mut game = Game::new();
    assert_eq!(count_pieces(&game.board), 32);
    game.make_move("e2".to_string(), "e4".to_string());
    game.make_move("d7".to_string(), "d5".to_string());
    assert_eq!(count_pieces(&game.board), 32);
    assert_eq!(game.make_move("e4".to_string(), "d5".to_string()), Some(GameState::InProgress));
    assert_eq!(count_pieces(&game.board), 31);
    assert_eq!(game.board[4][3], Some(Piece::Pawn(Colour::White)));
    assert_eq!(game.board[3][4], None);
}

#[test]
fn check_leaves_the_king_attacked() {
    let mut game = Game::new();
    game.make_move("e2".to_string(), "e4".to_string());
    game.make_move("f7".to_string(), "f6".to_string());
    assert_eq!(game.make_move("d1".to_string(), "h5".to_string()), Some(GameState::Check));
    let k = king_square(&game.board, Colour::Black);
    assert!(check_check(&game.board, k, Colour::Black));
    // only moves that lift the check remain
    assert_eq!(sorted(game.get_possible_moves("g7".to_string())), vec!["g6".to_string()]);
    assert_eq!(game.get_possible_moves("e8".to_string()), Some(vec![]));
    assert_eq!(game.get_possible_moves("a7".to_string()), Some(vec![]));
    assert_eq!(game.make_move("a7".to_string(), "a6".to_string()), None);
    assert_eq!(game.make_move("g7".to_string(), "g6".to_string()), Some(GameState::InProgress));
}

#[test]
fn double_check_leaves_only_king_moves() {
    let mut game = Game::new();
    let mut board = empty_board();
    board[0][4] = Some(Piece::King(Colour::White));
    board[7][4] = Some(Piece::Rook(Colour::Black));
    board[2][3] = Some(Piece::Knight(Colour::Black));
    board[3][0] = Some(Piece::Rook(Colour::White));
    board[4][1] = Some(Piece::Bishop(Colour::White));
    board[7][7] = Some(Piece::King(Colour::Black));
    game.board = board;
    game.state = GameState::Check;
    // the rook could block the file, and the bishop could take the knight, but two checkers remain
    assert_eq!(game.get_possible_moves("a4".to_string()), Some(vec![]));
    assert_eq!(game.get_possible_moves("b5".to_string()), Some(vec![]));
    assert_eq!(sorted(game.get_possible_moves("e1".to_string())), vec!["d1".to_string(), "d2".to_string(), "f1".to_string()]);
    // with one checker gone, the bishop may take the knight
    game.board[7][4] = None;
    assert_eq!(sorted(game.get_possible_moves("b5".to_string())), vec!["d3".to_string()]);
    assert_eq!(game.get_possible_moves("a4".to_string()), Some(vec![]));
}

#[test]
fn stalemate_is_not_game_over() {
    let mut game = Game::new();
    let mut board = empty_board();
    board[7][0] = Some(Piece::King(Colour::Black));
    board[5][2] = Some(Piece::King(Colour::White));
    board[4][1] = Some(Piece::Queen(Colour::White));
    game.board = board;
    assert_eq!(game.make_move("b5".to_string(), "b6".to_string()), Some(GameState::InProgress));
    assert_eq!(game.get_possible_moves("a8".to_string()), Some(vec![]));
}

#[test]
fn king_may_not_step_along_the_checking_line() {
    let mut game = Game::new();
    let mut board = empty_board();
    board[0][4] = Some(Piece::King(Colour::White));
    board[0][0] = Some(Piece::Rook(Colour::Black));
    board[7][7] = Some(Piece::King(Colour::Black));
    game.board = board;
    game.state = GameState::Check;
    assert_eq!(sorted(game.get_possible_moves("e1".to_string())), vec!["d2".to_string(), "e2".to_string(), "f2".to_string()]);
}

#[test]
fn piece_codes() {
    assert_eq!(Piece::Knight(Colour::White).dis(), "Kn ".to_string());
    assert_eq!(Piece::Knight(Colour::Black).dis(), "kn ".to_string());
    assert_eq!(Piece::Queen(Colour::Black).dis(), "q  ".to_string());
    assert_eq!(Piece::Pawn(Colour::White).unwrap(), Colour::White);
}
