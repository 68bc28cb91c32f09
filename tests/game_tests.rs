use chess::{Colour, Game, GameState, Piece};

// check test framework
#[test]
fn it_works() {
    assert_eq!(2 + 2, 4);
}


// check that game state is in progress after initialisation
#[test]
fn game_in_progress_after_init() {

    let game = Game::new();

    println!("{:?}", game);

    assert_eq!(game.get_game_state(), GameState::InProgress);
}

// check available moves for all kinds of pieces
#[test]
fn all_legal_moves_gotten() {
    
    let mut game = Game::new();

    game.board =    [[None,None,None,None,None,None,None,None],
                    [None,None,Some(Piece::Rook(Colour::White)),None,None,None,None,None],
                    [None,None,None,None,Some(Piece::King(Colour::White)),None,None,Some(Piece::Bishop(Colour::White))],
                    [None,Some(Piece::Pawn(Colour::White)),None,Some(Piece::Pawn(Colour::White)),None,None,None,None],
                    [None,None,Some(Piece::Queen(Colour::Black)),None,None,None,None,None],
                    [None,Some(Piece::Knight(Colour::White)),Some(Piece::King(Colour::Black)),None,None,None,None,None],
                    [None,None,None,Some(Piece::Pawn(Colour::Black)),Some(Piece::Queen(Colour::White)),None,None,None],
                    [None,None,None,None,None,Some(Piece::Knight(Colour::Black)),None,None]];
    let mut moves = game.get_possible_moves("c2".to_string()).unwrap();
    moves.sort();
    assert_eq!(moves, vec!["a2".to_string(), "b2".to_string(), "c1".to_string(), "c3".to_string(), "c4".to_string(), "c5".to_string(), "d2".to_string(), "e2".to_string(), "f2".to_string(), "g2".to_string(), "h2".to_string()]);
    
    moves = game.get_possible_moves("h3".to_string()).unwrap();
    moves.sort();
    assert_eq!(moves, vec!["d7".to_string(), "e6".to_string(), "f1".to_string(), "f5".to_string(), "g2".to_string(), "g4".to_string()]);

    moves = game.get_possible_moves("b6".to_string()).unwrap();
    moves.sort();
    assert_eq!(moves, vec!["a4".to_string(), "a8".to_string(), "c4".to_string(), "c8".to_string(), "d5".to_string(), "d7".to_string()]);

    moves = game.get_possible_moves("e7".to_string()).unwrap();
    moves.sort();
    assert_eq!(moves, vec!["c5".to_string(), "d6".to_string(), "d7".to_string(), "d8".to_string(), "e4".to_string(), "e5".to_string(), "e6".to_string(), "e8".to_string(), "f6".to_string(), "f7".to_string(), "f8".to_string(), "g5".to_string(), "g7".to_string(), "h4".to_string(), "h7".to_string()]);
    
    moves = game.get_possible_moves("b4".to_string()).unwrap();
    moves.sort();
    assert_eq!(moves, vec!["b5".to_string(), "c5".to_string()]);

    // pin
    moves = game.get_possible_moves("d4".to_string()).unwrap();
    moves.sort();
    assert_eq!(moves, vec!["c5".to_string()]);
    
    game.active = Colour::Black;
    
    moves = game.get_possible_moves("c6".to_string()).unwrap();
    moves.sort();
    assert_eq!(moves, vec!["b5".to_string(), "b6".to_string(), "b7".to_string(), "c7".to_string()]); 
    
    // pin
    moves = game.get_possible_moves("c5".to_string()).unwrap();
    moves.sort();
    assert_eq!(moves, vec!["c2".to_string(), "c3".to_string(), "c4".to_string()]); 
    
    moves = game.get_possible_moves("d7".to_string()).unwrap();
    moves.sort();
    assert_eq!(moves, vec!["d5".to_string(), "d6".to_string()]); 
    
    moves = game.get_possible_moves("f8".to_string()).unwrap();
    moves.sort();
    assert_eq!(moves, vec!["e6".to_string(), "g6".to_string(), "h7".to_string()]); 
    
    // resolving checks

    game.board = [[None,None,None,None,None,None,None,None],
    [None,None,None,None,None,None,None,None],
    [None,None,Some(Piece::King(Colour::White)),None,None,None,None,None],
    [None,None,None,Some(Piece::Bishop(Colour::White)),None,None,None,None],
    [None,None,None,None,None,None,None,None],
    [None,None,None,None,None,None,None,None],
    [None,None,None,Some(Piece::Knight(Colour::Black)),None,None,Some(Piece::King(Colour::Black)),None],
    [None,None,None,None,None,None,None,None]];
    game.state = GameState::Check;
    game.active = Colour::Black;

    moves = game.get_possible_moves("d7".to_string()).unwrap();
    moves.sort();
    assert_eq!(moves, vec!["e5".to_string(), "f6".to_string()]);

    moves = game.get_possible_moves("g7".to_string()).unwrap();
    moves.sort();
    assert_eq!(moves, vec!["f7".to_string(), "f8".to_string(), "g6".to_string(), "g8".to_string(), "h6".to_string(), "h7".to_string()]);

    game.board = [[None,None,None,None,None,None,None,None],
    [None,None,None,None,None,Some(Piece::Bishop(Colour::White)),None,None],
    [None,None,Some(Piece::King(Colour::White)),None,None,None,None,None],
    [None,None,None,None,None,None,None,None],
    [None,None,None,None,None,None,None,None],
    [None,None,None,None,None,None,None,None],
    [None,None,None,None,None,None,Some(Piece::King(Colour::Black)),None],
    [None,None,Some(Piece::Rook(Colour::Black)),None,None,None,None,None]];
    game.state = GameState::Check;
    game.active = Colour::White;

    moves = game.get_possible_moves("f2".to_string()).unwrap();
    moves.sort();
    assert_eq!(moves, vec!["c5".to_string()]);

    moves = game.get_possible_moves("c3".to_string()).unwrap();
    moves.sort();
    assert_eq!(moves, vec!["b2".to_string(), "b3".to_string(), "b4".to_string(), "d2".to_string(), "d3".to_string(), "d4".to_string()]);
}

#[test]
fn move_piece() {
    let mut game = Game::new();
    assert_ne!(game.make_move("a2".to_string(), "a4".to_string()), None);
    assert_ne!(game.make_move("h7".to_string(), "h5".to_string()), None);
    assert_ne!(game.make_move("b1".to_string(), "c3".to_string()), None);
    assert_ne!(game.make_move("e7".to_string(), "e6".to_string()), None);
    assert_ne!(game.make_move("g1".to_string(), "h3".to_string()), None);
    assert_ne!(game.make_move("d8".to_string(), "h4".to_string()), None);
    assert_ne!(game.make_move("c3".to_string(), "d5".to_string()), None);
    assert_ne!(game.make_move("f8".to_string(), "c5".to_string()), None);
    assert_ne!(game.make_move("d5".to_string(), "c7".to_string()), None);
    assert_eq!(game.state, GameState::Check);
    assert_ne!(game.make_move("e8".to_string(), "e7".to_string()), None);
    assert_eq!(game.state, GameState::InProgress);
    assert_ne!(game.make_move("c7".to_string(), "a8".to_string()), None);
    assert_ne!(game.make_move("g8".to_string(), "f6".to_string()), None);
    assert_ne!(game.make_move("a1".to_string(), "a3".to_string()), None);
    assert_ne!(game.make_move("f6".to_string(), "e4".to_string()), None);
    assert_ne!(game.make_move("d2".to_string(), "d3".to_string()), None);
    assert_ne!(game.make_move("c5".to_string(), "f2".to_string()), None);
    assert_eq!(game.state, GameState::Check);
    assert_ne!(game.make_move("h3".to_string(), "f2".to_string()), None);
    assert_eq!(game.state, GameState::InProgress);
    assert_ne!(game.make_move("h4".to_string(), "f2".to_string()), None);
    assert_eq!(game.state, GameState::GameOver);

    println!("{:?}", game);
}

#[test]
fn promotion() {
    let mut game = Game::new();

    game.board = [[None,None,None,None,None,None,None,Some(Piece::King(Colour::Black))],
    [Some(Piece::Pawn(Colour::Black)),Some(Piece::Pawn(Colour::Black)),Some(Piece::Pawn(Colour::Black)),Some(Piece::Pawn(Colour::Black)),Some(Piece::Pawn(Colour::Black)),Some(Piece::Pawn(Colour::Black)),Some(Piece::Pawn(Colour::Black)),Some(Piece::Pawn(Colour::Black))],
    [None,None,None,None,None,None,None,None],
    [None,None,None,None,None,None,None,None],
    [None,None,None,None,None,None,None,None],
    [None,None,None,None,None,None,None,None],
    [Some(Piece::Pawn(Colour::White)),Some(Piece::Pawn(Colour::White)),Some(Piece::Pawn(Colour::White)),Some(Piece::Pawn(Colour::White)),Some(Piece::Pawn(Colour::White)),Some(Piece::Pawn(Colour::White)),Some(Piece::Pawn(Colour::White)),Some(Piece::Pawn(Colour::White))],
    [None,None,None,None,None,None,None,Some(Piece::King(Colour::White))]];

    game.make_move("a7".to_string(), "a8".to_string());
    assert_eq!(game.board[7][0], Some(Piece::Queen(Colour::White)));

    game.make_move("a2".to_string(), "a1".to_string());
    assert_eq!(game.board[0][0], Some(Piece::Queen(Colour::Black)));

    game.set_promotion("kn".to_string());
    game.make_move("b7".to_string(), "b8".to_string());
    assert_eq!(game.board[7][1], Some(Piece::Knight(Colour::White)));

    game.set_promotion("kn".to_string());
    game.make_move("b2".to_string(), "b1".to_string());
    assert_eq!(game.board[0][1], Some(Piece::Knight(Colour::Black)));

    game.set_promotion("r".to_string());
    game.make_move("c7".to_string(), "c8".to_string());
    assert_eq!(game.board[7][2], Some(Piece::Rook(Colour::White)));

    game.set_promotion("r".to_string());
    game.make_move("c2".to_string(), "c1".to_string());
    assert_eq!(game.board[0][2], Some(Piece::Rook(Colour::Black)));

    game.set_promotion("b".to_string());
    game.make_move("d7".to_string(), "d8".to_string());
    assert_eq!(game.board[7][3], Some(Piece::Bishop(Colour::White)));

    game.set_promotion("b".to_string());
    game.make_move("d2".to_string(), "d1".to_string());
    assert_eq!(game.board[0][3], Some(Piece::Bishop(Colour::Black)));

    println!("{:?}", game);
}
