use chess_moves::board::{
    get_tile_color, tile_center, tile_color, BoardPosition, Piece, PlacedPiece, Player, TileColor,
};
use chess_moves::game::{positions_of, possible_moves_of, select_piece, GameState};
use chess_moves::layout::{atlas_index, starting_pieces};

fn placed(piece: Piece, player: Player, x: i32, y: i32) -> PlacedPiece {
    PlacedPiece { piece, player, position: BoardPosition::new(x, y) }
}

fn full_board() -> Vec<PlacedPiece> {
    let mut v = starting_pieces(&Player::White);
    v.extend(starting_pieces(&Player::Black));
    v
}

#[test]
fn board_position_new_keeps_coordinates() {
    let p = BoardPosition::new(3, 5);
    assert_eq!((p.x, p.y), (3, 5));
}

#[test]
fn tile_colours_alternate() {
    assert_eq!(get_tile_color(0, 0), TileColor::Green);
    assert_eq!(get_tile_color(1, 0), TileColor::LimeGreen);
    assert_eq!(get_tile_color(0, 1), TileColor::LimeGreen);
    assert_eq!(get_tile_color(7, 7), TileColor::Green);
    assert_eq!(get_tile_color(6, 7), TileColor::LimeGreen);
    assert_eq!(get_tile_color(8, 0), TileColor::Green);
    assert_eq!(get_tile_color(100, 9), TileColor::LimeGreen);
}

#[test]
fn selected_tile_is_yellow() {
    let sel = Some(BoardPosition::new(2, 3));
    assert_eq!(tile_color(&BoardPosition::new(2, 3), sel), TileColor::Yellow);
    assert_eq!(tile_color(&BoardPosition::new(2, 4), sel), TileColor::Green);
    assert_eq!(tile_color(&BoardPosition::new(2, 3), None), TileColor::LimeGreen);
}

#[test]
fn tile_centres() {
    assert_eq!(tile_center(0), 30);
    assert_eq!(tile_center(7), 450);
    assert_eq!(tile_center(-1), -30);
}

#[test]
fn white_starting_layout() {
    let w = starting_pieces(&Player::White);
    assert_eq!(w.len(), 16);
    assert!(w.contains(&placed(Piece::King, Player::White, 4, 0)));
    assert!(w.contains(&placed(Piece::Queen, Player::White, 3, 0)));
    assert!(w.contains(&placed(Piece::Knight, Player::White, 1, 0)));
    assert!(w.contains(&placed(Piece::Knight, Player::White, 6, 0)));
    assert!(w.contains(&placed(Piece::Bishop, Player::White, 2, 0)));
    assert!(w.contains(&placed(Piece::Bishop, Player::White, 5, 0)));
    assert!(w.contains(&placed(Piece::Rook, Player::White, 0, 0)));
    assert!(w.contains(&placed(Piece::Rook, Player::White, 7, 0)));
    for i in 0..8 {
        assert!(w.contains(&placed(Piece::Pawn, Player::White, i, 1)));
    }
}

#[test]
fn black_starting_layout() {
    let b = starting_pieces(&Player::Black);
    assert_eq!(b.len(), 16);
    assert!(b.contains(&placed(Piece::King, Player::Black, 4, 7)));
    assert!(b.contains(&placed(Piece::Queen, Player::Black, 3, 7)));
    assert!(b.contains(&placed(Piece::Knight, Player::Black, 1, 7)));
    assert!(b.contains(&placed(Piece::Knight, Player::Black, 6, 7)));
    assert!(b.contains(&placed(Piece::Bishop, Player::Black, 2, 7)));
    assert!(b.contains(&placed(Piece::Bishop, Player::Black, 5, 7)));
    assert!(b.contains(&placed(Piece::Rook, Player::Black, 0, 7)));
    assert!(b.contains(&placed(Piece::Rook, Player::Black, 7, 7)));
    for i in 0..8 {
        assert!(b.contains(&placed(Piece::Pawn, Player::Black, i, 6)));
    }
}

#[test]
fn sprite_sheet_indices() {
    assert_eq!(atlas_index(&Piece::King, &Player::White), 0);
    assert_eq!(atlas_index(&Piece::Queen, &Player::White), 1);
    assert_eq!(atlas_index(&Piece::Knight, &Player::White), 2);
    assert_eq!(atlas_index(&Piece::Pawn, &Player::White), 3);
    assert_eq!(atlas_index(&Piece::Bishop, &Player::White), 4);
    assert_eq!(atlas_index(&Piece::Rook, &Player::White), 5);
    assert_eq!(atlas_index(&Piece::King, &Player::Black), 6);
    assert_eq!(atlas_index(&Piece::Rook, &Player::Black), 11);
}

#[test]
fn selection_picks_piece_of_side_to_move() {
    let board = full_board();
    let i = select_piece(&board, &Player::White, 4, 0).unwrap();
    assert_eq!(board[i], placed(Piece::King, Player::White, 4, 0));
    assert_eq!(select_piece(&board, &Player::White, 4, 7), None);
    assert_eq!(select_piece(&board, &Player::White, 4, 4), None);
    let j = select_piece(&board, &Player::Black, 4, 7).unwrap();
    assert_eq!(board[j], placed(Piece::King, Player::Black, 4, 7));
    let k = select_piece(&board, &Player::Black, 3, 7).unwrap();
    assert_eq!(board[k], placed(Piece::Queen, Player::Black, 3, 7));
}

#[test]
fn positions_split_by_side() {
    let board = vec![
        placed(Piece::Rook, Player::White, 0, 0),
        placed(Piece::Pawn, Player::Black, 1, 6),
        placed(Piece::King, Player::White, 4, 0),
    ];
    assert_eq!(positions_of(&board, &Player::White), vec![BoardPosition::new(0, 0), BoardPosition::new(4, 0)]);
    assert_eq!(positions_of(&board, &Player::Black), vec![BoardPosition::new(1, 6)]);
}

#[test]
fn moves_at_the_start_of_a_game() {
    let board = full_board();
    let knight = board.iter().position(|p| *p == placed(Piece::Knight, Player::White, 1, 0)).unwrap();
    let mut m = possible_moves_of(&board, knight);
    m.sort();
    assert_eq!(m, vec![(0, 2), (2, 2)]);
    let rook = board.iter().position(|p| *p == placed(Piece::Rook, Player::Black, 7, 7)).unwrap();
    assert!(possible_moves_of(&board, rook).is_empty());
    let pawn = board.iter().position(|p| *p == placed(Piece::Pawn, Player::Black, 3, 6)).unwrap();
    let mut m = possible_moves_of(&board, pawn);
    m.sort();
    assert_eq!(m, vec![(3, 4), (3, 5)]);
}

#[test]
fn game_state_population_happens_once() {
    let mut g = GameState::new();
    assert_eq!(g.current_turn, Player::White);
    assert_eq!(g.selected, None);
    assert!(g.begin_population());
    assert!(!g.begin_population());
    assert!(g.population_done);
}

#[test]
fn clicks_select_and_clear() {
    let board = full_board();
    let mut g = GameState::new();
    assert_eq!(g.click(&board, 0, 1), Some(BoardPosition::new(0, 1)));
    let i = g.selected.unwrap();
    assert_eq!(board[i], placed(Piece::Pawn, Player::White, 0, 1));
    assert_eq!(g.click(&board, 0, 6), None);
    assert_eq!(g.selected, None);
    g.click(&board, 0, 1);
    assert_eq!(g.click(&Vec::new(), 5, 5), None);
    assert_eq!(g.selected, Some(i));
}
