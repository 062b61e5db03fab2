use chess_moves::board::{BoardPosition, Piece, Player};
use chess_moves::moves::{get_allies_and_enemies, get_possible_moves};

fn pos(x: i32, y: i32) -> BoardPosition {
    BoardPosition::new(x, y)
}

fn sorted(mut v: Vec<(i32, i32)>) -> Vec<(i32, i32)> {
    v.sort();
    v
}

fn moves(
    piece: Piece,
    at: (i32, i32),
    player: Player,
    whites: &[(i32, i32)],
    blacks: &[(i32, i32)],
) -> Vec<(i32, i32)> {
    let w: Vec<BoardPosition> = whites.iter().map(|&(x, y)| pos(x, y)).collect();
    let b: Vec<BoardPosition> = blacks.iter().map(|&(x, y)| pos(x, y)).collect();
    sorted(get_possible_moves(&piece, &pos(at.0, at.1), &player, &w, &b))
}

fn has_no_duplicates(v: &[(i32, i32)]) -> bool {
    let mut s = v.to_vec();
    s.sort();
    s.dedup();
    s.len() == v.len()
}

#[test]
fn rook_in_corner_on_empty_board() {
    let got = moves(Piece::Rook, (0, 0), Player::White, &[(0, 0)], &[]);
    let mut want: Vec<(i32, i32)> = (1..8).map(|i| (i, 0)).collect();
    want.extend((1..8).map(|i| (0, i)));
    assert_eq!(got.len(), 14);
    assert_eq!(got, sorted(want));
}

#[test]
fn bishop_stops_before_friendly_piece() {
    let got = moves(Piece::Bishop, (3, 3), Player::White, &[(3, 3), (5, 5)], &[]);
    let want = vec![
        (4, 4),
        (4, 2),
        (5, 1),
        (6, 0),
        (2, 4),
        (1, 5),
        (0, 6),
        (2, 2),
        (1, 1),
        (0, 0),
    ];
    assert_eq!(got, sorted(want));
    assert!(!got.contains(&(5, 5)));
    assert!(!got.contains(&(6, 6)));
}

#[test]
fn white_pawn_on_start_rank_with_empty_board() {
    let got = moves(Piece::Pawn, (4, 1), Player::White, &[(4, 1)], &[]);
    assert_eq!(got, sorted(vec![(4, 2), (4, 3)]));
}

#[test]
fn white_pawn_steps_and_captures_together() {
    let got = moves(Piece::Pawn, (4, 1), Player::White, &[(4, 1)], &[(5, 2), (3, 2)]);
    assert_eq!(got, sorted(vec![(4, 2), (4, 3), (5, 2), (3, 2)]));
}

#[test]
fn knight_in_corner() {
    let got = moves(Piece::Knight, (0, 0), Player::White, &[(0, 0)], &[]);
    assert_eq!(got, sorted(vec![(1, 2), (2, 1)]));
}

#[test]
fn knight_in_centre_skips_friendly_and_takes_enemy() {
    let got = moves(Piece::Knight, (4, 4), Player::White, &[(4, 4), (5, 6), (2, 3)], &[(6, 5)]);
    let want = vec![(3, 6), (6, 5), (6, 3), (5, 2), (3, 2), (2, 5)];
    assert_eq!(got, sorted(want));
}

#[test]
fn knight_jumps_each_offset_on_a_crowded_board() {
    // Friendly pieces on four of the eight targets, enemy pieces on the other four.
    let allies = [(5, 6), (6, 3), (3, 2), (2, 5)];
    let enemies = [(3, 6), (6, 5), (5, 2), (2, 3)];
    let mut whites = vec![(4, 4)];
    whites.extend_from_slice(&allies);
    let got = moves(Piece::Knight, (4, 4), Player::White, &whites, &enemies);
    assert_eq!(got, sorted(enemies.to_vec()));
}

#[test]
fn black_knight_uses_black_as_friendly() {
    let got = moves(Piece::Knight, (0, 0), Player::Black, &[(1, 2)], &[(0, 0), (2, 1)]);
    assert_eq!(got, vec![(1, 2)]);
}

#[test]
fn rook_captures_enemy_and_stops() {
    let got = moves(Piece::Rook, (0, 0), Player::White, &[(0, 0), (0, 3)], &[(4, 0)]);
    let want = vec![(1, 0), (2, 0), (3, 0), (4, 0), (0, 1), (0, 2)];
    assert_eq!(got, sorted(want));
    assert!(!got.contains(&(5, 0)));
    assert!(!got.contains(&(0, 3)));
    assert!(!got.contains(&(0, 4)));
}

#[test]
fn rook_in_centre_on_empty_board() {
    let got = moves(Piece::Rook, (3, 4), Player::Black, &[], &[(3, 4)]);
    assert_eq!(got.len(), 14);
    assert!(has_no_duplicates(&got));
    assert!(got.iter().all(|&(x, y)| (x == 3) != (y == 4)));
}

#[test]
fn bishop_ray_ends_on_enemy() {
    let got = moves(Piece::Bishop, (0, 0), Player::White, &[(0, 0)], &[(3, 3), (5, 5)]);
    assert_eq!(got, vec![(1, 1), (2, 2), (3, 3)]);
}

#[test]
fn bishop_boxed_in_by_friends() {
    let got = moves(Piece::Bishop, (3, 3), Player::White, &[(3, 3), (4, 4), (2, 2), (4, 2), (2, 4)], &[]);
    assert!(got.is_empty());
}

#[test]
fn black_pawn_moves_down_the_board() {
    let got = moves(Piece::Pawn, (2, 6), Player::Black, &[(1, 5)], &[(2, 6)]);
    assert_eq!(got, sorted(vec![(2, 5), (2, 4), (1, 5)]));
}

#[test]
fn pawn_blocked_ahead() {
    let got = moves(Piece::Pawn, (4, 3), Player::White, &[(4, 3)], &[(4, 4)]);
    assert!(got.is_empty());
}

#[test]
fn pawn_off_start_rank_has_no_double_step() {
    let got = moves(Piece::Pawn, (4, 3), Player::White, &[(4, 3)], &[]);
    assert_eq!(got, vec![(4, 4)]);
}

#[test]
fn pawn_double_step_needs_empty_destination() {
    let got = moves(Piece::Pawn, (4, 1), Player::White, &[(4, 1)], &[(4, 3)]);
    assert_eq!(got, vec![(4, 2)]);
}

#[test]
fn pawn_double_step_does_not_look_at_the_square_between() {
    let got = moves(Piece::Pawn, (4, 1), Player::White, &[(4, 1), (4, 2)], &[]);
    assert_eq!(got, vec![(4, 3)]);
}

#[test]
fn pawn_capture_independent_of_blocked_step() {
    let got = moves(Piece::Pawn, (4, 4), Player::White, &[(4, 4), (4, 5)], &[(5, 5)]);
    assert_eq!(got, vec![(5, 5)]);
}

#[test]
fn pawn_does_not_capture_own_piece_diagonally() {
    let got = moves(Piece::Pawn, (4, 4), Player::White, &[(4, 4), (3, 5), (5, 5)], &[]);
    assert_eq!(got, vec![(4, 5)]);
}

#[test]
fn pawn_on_edge_file_has_one_capture_side() {
    let got = moves(Piece::Pawn, (0, 3), Player::White, &[(0, 3)], &[(1, 4)]);
    assert_eq!(got, sorted(vec![(0, 4), (1, 4)]));
}

#[test]
fn pawn_on_last_rank_does_not_step_off_the_board() {
    let got = moves(Piece::Pawn, (4, 7), Player::White, &[(4, 7)], &[]);
    assert!(got.is_empty());
    let got = moves(Piece::Pawn, (4, 0), Player::Black, &[], &[(4, 0)]);
    assert!(got.is_empty());
}

#[test]
fn white_pawn_mirrors_black_pawn() {
    // White pawn on (2, 1), white piece on (1, 2), black pieces on (3, 2) and (2, 3).
    let white = moves(Piece::Pawn, (2, 1), Player::White, &[(2, 1), (1, 2)], &[(3, 2), (2, 3)]);
    // The same board reflected, with the sides swapped.
    let black = moves(Piece::Pawn, (2, 6), Player::Black, &[(3, 5), (2, 4)], &[(2, 6), (1, 5)]);
    let reflected: Vec<(i32, i32)> = black.iter().map(|&(x, y)| (x, 7 - y)).collect();
    assert_eq!(white, sorted(reflected));
    assert_eq!(white, sorted(vec![(2, 2), (3, 2)]));
}

#[test]
fn pawn_mirror_on_empty_board() {
    for r in 0..8 {
        for x in 0..8 {
            let white = moves(Piece::Pawn, (x, r), Player::White, &[(x, r)], &[]);
            let black = moves(Piece::Pawn, (x, 7 - r), Player::Black, &[], &[(x, 7 - r)]);
            let reflected: Vec<(i32, i32)> = black.iter().map(|&(a, b)| (a, 7 - b)).collect();
            assert_eq!(white, sorted(reflected));
        }
    }
}

#[test]
fn same_inputs_give_same_moves() {
    let whites = [(3, 3), (5, 5), (1, 0)];
    let blacks = [(3, 6), (0, 3)];
    for piece in [Piece::Knight, Piece::Bishop, Piece::Rook, Piece::Pawn] {
        let a = moves(piece, (3, 3), Player::White, &whites, &blacks);
        let b = moves(piece, (3, 3), Player::White, &whites, &blacks);
        assert_eq!(a, b);
    }
}

#[test]
fn king_and_queen_have_no_moves() {
    assert!(moves(Piece::King, (4, 4), Player::White, &[(4, 4)], &[]).is_empty());
    assert!(moves(Piece::Queen, (4, 4), Player::Black, &[], &[(4, 4)]).is_empty());
}

#[test]
fn piece_off_the_board_has_no_moves() {
    assert!(moves(Piece::Rook, (8, 0), Player::White, &[], &[]).is_empty());
    assert!(moves(Piece::Knight, (-1, 3), Player::White, &[], &[]).is_empty());
    assert!(moves(Piece::Pawn, (i32::MAX, i32::MIN), Player::Black, &[], &[]).is_empty());
}

#[test]
fn pawn_ignores_enemy_listed_off_the_board() {
    let got = moves(Piece::Pawn, (0, 3), Player::White, &[(0, 3)], &[(-1, 4)]);
    assert_eq!(got, vec![(0, 4)]);
}

#[test]
fn no_duplicates_on_a_busy_board() {
    let whites = [(2, 2), (6, 1), (0, 7)];
    let blacks = [(5, 5), (2, 6), (7, 3), (1, 1)];
    for x in 0..8 {
        for y in 0..8 {
            for piece in [Piece::Knight, Piece::Bishop, Piece::Rook, Piece::Pawn] {
                for player in [Player::White, Player::Black] {
                    let got = moves(piece, (x, y), player, &whites, &blacks);
                    assert!(has_no_duplicates(&got));
                    assert!(got.iter().all(|&(a, b)| (0..8).contains(&a) && (0..8).contains(&b)));
                }
            }
        }
    }
}

#[test]
fn allies_and_enemies_follow_the_owner() {
    let w = vec![pos(0, 0)];
    let b = vec![pos(7, 7), pos(6, 6)];
    let (allies, enemies) = get_allies_and_enemies(&Player::White, &w, &b);
    assert_eq!(allies, &w);
    assert_eq!(enemies, &b);
    let (allies, enemies) = get_allies_and_enemies(&Player::Black, &w, &b);
    assert_eq!(allies, &b);
    assert_eq!(enemies, &w);
}
