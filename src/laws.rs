//! Properties of the move generator that relate its results across squares,
//! rays, calls and sides, proved from its contract.

use vstd::prelude::*;
use crate::board::{all_on_board, in_bounds, occupied, BoardPosition, Piece, Player, BOARD_SIZE};
use crate::moves::{
    allies_of, direction, enemies_of, forward, home_rank, is_knight_jump, is_move, is_slide_move, knight_offset,
    lemma_rays_disjoint, lists_possible_moves, pawn_start_rank, ray_capture, ray_open, ray_reaches,
    ray_square,
};

verus! {

/// Whether `moves` holds the square `(x, y)`.
pub open spec fn listed(moves: Seq<(i32, i32)>, x: int, y: int) -> bool {
    exists|i: int| 0 <= i < moves.len() && moves[i].0 as int == x && moves[i].1 as int == y
}

/// The board seen from the other side: every square reflected across the middle of the board.
pub open spec fn mirror(ps: Seq<BoardPosition>) -> Seq<BoardPosition> {
    ps.map_values(|p: BoardPosition| BoardPosition { x: p.x, y: (BOARD_SIZE - 1 - p.y) as i32 })
}

/// A list of the generator names exactly its destinations.
pub proof fn lemma_listed_iff_move(
    moves: Seq<(i32, i32)>,
    piece: Piece,
    o: BoardPosition,
    player: Player,
    whites: Seq<BoardPosition>,
    blacks: Seq<BoardPosition>,
)
    requires
        lists_possible_moves(moves, piece, o, player, whites, blacks),
    ensures
        forall|x: int, y: int|
            #[trigger] listed(moves, x, y) <==> is_move(
                piece,
                o,
                player,
                allies_of(player, whites, blacks),
                enemies_of(player, whites, blacks),
                x,
                y,
            ),
{
    let allies = allies_of(player, whites, blacks);
    let enemies = enemies_of(player, whites, blacks);
    assert forall|x: int, y: int| #[trigger] listed(moves, x, y) <==> is_move(piece, o, player, allies, enemies, x, y) by {
        if listed(moves, x, y) {
            let i = choose|i: int| 0 <= i < moves.len() && moves[i].0 as int == x && moves[i].1 as int == y;
            assert(is_move(piece, o, player, allies, enemies, moves[i].0 as int, moves[i].1 as int));
        }
        if is_move(piece, o, player, allies, enemies, x, y) {
            assert(moves.contains((x as i32, y as i32)));
            let i = choose|i: int| 0 <= i < moves.len() && moves[i] == (x as i32, y as i32);
            assert(in_bounds(x, y)) by {
                if piece == Piece::Bishop || piece == Piece::Rook {
                    let t = choose|t: int|
                        0 <= t < 4 && #[trigger] is_slide_move(
                            o,
                            direction(piece, t),
                            allies,
                            enemies,
                            x,
                            y,
                        );
                    let k = choose|k: int|
                        #[trigger] ray_reaches(o, direction(piece, t), allies, enemies, k) && ray_square(
                            o,
                            direction(piece, t),
                            k,
                        ) == (x, y);
                    assert(ray_open(o, direction(piece, t), allies, k));
                }
            }
            assert(listed(moves, x, y));
        }
    }
}

/// A knight lands on each of its eight jumps exactly when the square is on the
/// board and holds no piece of its own side, and goes nowhere else.
pub proof fn lemma_knight_jumps(
    moves: Seq<(i32, i32)>,
    o: BoardPosition,
    player: Player,
    whites: Seq<BoardPosition>,
    blacks: Seq<BoardPosition>,
)
    requires
        in_bounds(o.x as int, o.y as int),
        lists_possible_moves(moves, Piece::Knight, o, player, whites, blacks),
    ensures
        forall|i: int|
            0 <= i < 8 ==> {
                let sq = (o.x + #[trigger] knight_offset(i).0, o.y + knight_offset(i).1);
                listed(moves, sq.0, sq.1) <==> in_bounds(sq.0, sq.1) && !occupied(
                    allies_of(player, whites, blacks),
                    sq.0,
                    sq.1,
                )
            },
        forall|x: int, y: int| #[trigger] listed(moves, x, y) ==> is_knight_jump(x - o.x, y - o.y),
{
    lemma_listed_iff_move(moves, Piece::Knight, o, player, whites, blacks);
    assert forall|i: int| 0 <= i < 8 implies {
        let sq = (o.x + #[trigger] knight_offset(i).0, o.y + knight_offset(i).1);
        listed(moves, sq.0, sq.1) <==> in_bounds(sq.0, sq.1) && !occupied(
            allies_of(player, whites, blacks),
            sq.0,
            sq.1,
        )
    } by {
        let sq = (o.x + knight_offset(i).0, o.y + knight_offset(i).1);
        assert(listed(moves, sq.0, sq.1) <==> is_move(
            Piece::Knight,
            o,
            player,
            allies_of(player, whites, blacks),
            enemies_of(player, whites, blacks),
            sq.0,
            sq.1,
        ));
    }
}

/// Along any ray of a bishop or a rook, a square holding a piece of its own
/// side and every square beyond it are never destinations; an enemy piece
/// that the walk reaches is a destination, and nothing beyond it is.
pub proof fn lemma_ray_stops(
    moves: Seq<(i32, i32)>,
    piece: Piece,
    o: BoardPosition,
    player: Player,
    whites: Seq<BoardPosition>,
    blacks: Seq<BoardPosition>,
    t: int,
    k: int,
)
    requires
        piece == Piece::Bishop || piece == Piece::Rook,
        in_bounds(o.x as int, o.y as int),
        0 <= t < 4,
        1 <= k,
        lists_possible_moves(moves, piece, o, player, whites, blacks),
    ensures
        ({
            let sq = ray_square(o, direction(piece, t), k);
            occupied(allies_of(player, whites, blacks), sq.0, sq.1)
        }) ==> forall|j: int|
            k <= j ==> !#[trigger] listed(
                moves,
                ray_square(o, direction(piece, t), j).0,
                ray_square(o, direction(piece, t), j).1,
            ),
        ray_reaches(
            o,
            direction(piece, t),
            allies_of(player, whites, blacks),
            enemies_of(player, whites, blacks),
            k,
        ) && ray_capture(o, direction(piece, t), enemies_of(player, whites, blacks), k) ==> {
            &&& listed(
                moves,
                ray_square(o, direction(piece, t), k).0,
                ray_square(o, direction(piece, t), k).1,
            )
            &&& forall|j: int|
                k < j ==> !#[trigger] listed(
                    moves,
                    ray_square(o, direction(piece, t), j).0,
                    ray_square(o, direction(piece, t), j).1,
                )
        },
{
    let allies = allies_of(player, whites, blacks);
    let enemies = enemies_of(player, whites, blacks);
    let d = direction(piece, t);
    lemma_listed_iff_move(moves, piece, o, player, whites, blacks);
    // A listed square of this ray is reached along it, at its own distance.
    assert forall|j: int| 1 <= j && #[trigger] listed(moves, ray_square(o, d, j).0, ray_square(o, d, j).1)
        implies ray_reaches(o, d, allies, enemies, j) by {
        let sq = ray_square(o, d, j);
        assert(is_move(piece, o, player, allies, enemies, sq.0, sq.1));
        let t2 = choose|t2: int|
            0 <= t2 < 4 && #[trigger] is_slide_move(o, direction(piece, t2), allies, enemies, sq.0, sq.1);
        let k2 = choose|k2: int|
            #[trigger] ray_reaches(o, direction(piece, t2), allies, enemies, k2) && ray_square(
                o,
                direction(piece, t2),
                k2,
            ) == sq;
        lemma_rays_disjoint(piece, o, t, j, t2, k2);
    }
    let sq = ray_square(o, d, k);
    if occupied(allies, sq.0, sq.1) {
        assert forall|j: int| k <= j implies !#[trigger] listed(
            moves,
            ray_square(o, d, j).0,
            ray_square(o, d, j).1,
        ) by {
            if listed(moves, ray_square(o, d, j).0, ray_square(o, d, j).1) {
                assert(ray_reaches(o, d, allies, enemies, j));
                assert(ray_open(o, d, allies, k));
            }
        }
    }
    if ray_reaches(o, d, allies, enemies, k) && ray_capture(o, d, enemies, k) {
        assert(is_slide_move(o, d, allies, enemies, sq.0, sq.1));
        assert(is_move(piece, o, player, allies, enemies, sq.0, sq.1));
        assert forall|j: int| k < j implies !#[trigger] listed(
            moves,
            ray_square(o, d, j).0,
            ray_square(o, d, j).1,
        ) by {
            if listed(moves, ray_square(o, d, j).0, ray_square(o, d, j).1) {
                assert(ray_reaches(o, d, allies, enemies, j));
                assert(!ray_capture(o, d, enemies, k));
            }
        }
    }
}

/// Whether neither side holds `(x, y)`.
pub open spec fn empty_square(
    whites: Seq<BoardPosition>,
    blacks: Seq<BoardPosition>,
    x: int,
    y: int,
) -> bool {
    !occupied(whites, x, y) && !occupied(blacks, x, y)
}

/// A pawn steps ahead exactly when the square ahead is on the board and empty.
/// (A pawn on its own side's back rank is left out: the step is refused there.)
pub proof fn lemma_pawn_step(
    moves: Seq<(i32, i32)>,
    o: BoardPosition,
    player: Player,
    whites: Seq<BoardPosition>,
    blacks: Seq<BoardPosition>,
)
    requires
        in_bounds(o.x as int, o.y as int),
        o.y != home_rank(player),
        lists_possible_moves(moves, Piece::Pawn, o, player, whites, blacks),
    ensures
        listed(moves, o.x as int, o.y + forward(player)) <==> in_bounds(
            o.x as int,
            o.y + forward(player),
        ) && empty_square(whites, blacks, o.x as int, o.y + forward(player)),
{
    lemma_listed_iff_move(moves, Piece::Pawn, o, player, whites, blacks);
}

/// A pawn advances two squares exactly when it stands on its starting rank and
/// both the square ahead and the one after it are empty. (Left out: a pawn on
/// its starting rank with the square ahead taken and the one after it empty,
/// which is still offered the double step.)
pub proof fn lemma_pawn_double_step(
    moves: Seq<(i32, i32)>,
    o: BoardPosition,
    player: Player,
    whites: Seq<BoardPosition>,
    blacks: Seq<BoardPosition>,
)
    requires
        in_bounds(o.x as int, o.y as int),
        !(o.y == pawn_start_rank(player) && !empty_square(whites, blacks, o.x as int, o.y + forward(player))
            && empty_square(whites, blacks, o.x as int, o.y + 2 * forward(player))),
        lists_possible_moves(moves, Piece::Pawn, o, player, whites, blacks),
    ensures
        listed(moves, o.x as int, o.y + 2 * forward(player)) <==> o.y == pawn_start_rank(player)
            && empty_square(whites, blacks, o.x as int, o.y + forward(player)) && empty_square(
            whites,
            blacks,
            o.x as int,
            o.y + 2 * forward(player),
        ),
{
    lemma_listed_iff_move(moves, Piece::Pawn, o, player, whites, blacks);
}

/// A pawn captures diagonally ahead on either side exactly when an enemy piece
/// stands there, whatever else it may do.
pub proof fn lemma_pawn_captures(
    moves: Seq<(i32, i32)>,
    o: BoardPosition,
    player: Player,
    whites: Seq<BoardPosition>,
    blacks: Seq<BoardPosition>,
)
    requires
        in_bounds(o.x as int, o.y as int),
        all_on_board(whites),
        all_on_board(blacks),
        lists_possible_moves(moves, Piece::Pawn, o, player, whites, blacks),
    ensures
        listed(moves, o.x + 1, o.y + forward(player)) <==> occupied(
            enemies_of(player, whites, blacks),
            o.x + 1,
            o.y + forward(player),
        ),
        listed(moves, o.x - 1, o.y + forward(player)) <==> occupied(
            enemies_of(player, whites, blacks),
            o.x - 1,
            o.y + forward(player),
        ),
{
    let enemies = enemies_of(player, whites, blacks);
    lemma_listed_iff_move(moves, Piece::Pawn, o, player, whites, blacks);
    assert forall|x: int, y: int| #[trigger] occupied(enemies, x, y) implies in_bounds(x, y) by {
        let i = choose|i: int| 0 <= i < enemies.len() && enemies[i].x == x && enemies[i].y == y;
    }
}

/// Calling the generator twice on the same inputs gives the same squares.
pub proof fn lemma_same_inputs_same_moves(
    first: Seq<(i32, i32)>,
    second: Seq<(i32, i32)>,
    piece: Piece,
    o: BoardPosition,
    player: Player,
    whites: Seq<BoardPosition>,
    blacks: Seq<BoardPosition>,
)
    requires
        lists_possible_moves(first, piece, o, player, whites, blacks),
        lists_possible_moves(second, piece, o, player, whites, blacks),
    ensures
        first.to_set() == second.to_set(),
        first.len() == second.len(),
{
    lemma_listed_iff_move(first, piece, o, player, whites, blacks);
    lemma_listed_iff_move(second, piece, o, player, whites, blacks);
    assert forall|m: (i32, i32)| first.contains(m) <==> second.contains(m) by {
        if first.contains(m) {
            let i = choose|i: int| 0 <= i < first.len() && first[i] == m;
            assert(listed(first, m.0 as int, m.1 as int));
            let j = choose|j: int|
                0 <= j < second.len() && second[j].0 as int == m.0 as int && second[j].1 as int == m.1 as int;
            assert(second[j] == m);
        }
        if second.contains(m) {
            let i = choose|i: int| 0 <= i < second.len() && second[i] == m;
            assert(listed(second, m.0 as int, m.1 as int));
            let j = choose|j: int|
                0 <= j < first.len() && first[j].0 as int == m.0 as int && first[j].1 as int == m.1 as int;
            assert(first[j] == m);
        }
    }
    assert(first.to_set() =~= second.to_set());
    first.unique_seq_to_set();
    second.unique_seq_to_set();
}

/// Reflecting the board across its middle maps a square of `ps` to a square of
/// `mirror(ps)` and back.
pub proof fn lemma_mirror_occupied(ps: Seq<BoardPosition>, x: int, y: int)
    requires
        all_on_board(ps),
    ensures
        occupied(mirror(ps), x, BOARD_SIZE - 1 - y) <==> occupied(ps, x, y),
{
    let m = mirror(ps);
    if occupied(ps, x, y) {
        let i = choose|i: int| 0 <= i < ps.len() && ps[i].x == x && ps[i].y == y;
        assert(m[i].x == x && m[i].y == BOARD_SIZE - 1 - y);
    }
    if occupied(m, x, BOARD_SIZE - 1 - y) {
        let i = choose|i: int| 0 <= i < m.len() && m[i].x == x && m[i].y == BOARD_SIZE - 1 - y;
        assert(ps[i].x == x && ps[i].y == y);
    }
}

/// A white pawn on rank `r` has the moves of a black pawn on rank
/// `BOARD_SIZE - 1 - r` of the reflected board, reflected: the sides swap and
/// every square `(a, b)` becomes `(a, BOARD_SIZE - 1 - b)`.
pub proof fn lemma_pawn_mirror(
    white_moves: Seq<(i32, i32)>,
    black_moves: Seq<(i32, i32)>,
    file: i32,
    r: i32,
    whites: Seq<BoardPosition>,
    blacks: Seq<BoardPosition>,
)
    requires
        in_bounds(file as int, r as int),
        all_on_board(whites),
        all_on_board(blacks),
        lists_possible_moves(
            white_moves,
            Piece::Pawn,
            BoardPosition { x: file, y: r },
            Player::White,
            whites,
            blacks,
        ),
        lists_possible_moves(
            black_moves,
            Piece::Pawn,
            BoardPosition { x: file, y: (BOARD_SIZE - 1 - r) as i32 },
            Player::Black,
            mirror(blacks),
            mirror(whites),
        ),
    ensures
        forall|a: int, b: int|
            #[trigger] listed(white_moves, a, b) <==> listed(black_moves, a, BOARD_SIZE - 1 - b),
{
    let ow = BoardPosition { x: file, y: r };
    let ob = BoardPosition { x: file, y: (BOARD_SIZE - 1 - r) as i32 };
    lemma_listed_iff_move(white_moves, Piece::Pawn, ow, Player::White, whites, blacks);
    lemma_listed_iff_move(black_moves, Piece::Pawn, ob, Player::Black, mirror(blacks), mirror(whites));
    assert forall|a: int, b: int|
        #[trigger] listed(white_moves, a, b) <==> listed(black_moves, a, BOARD_SIZE - 1 - b) by {
        lemma_mirror_occupied(whites, a, b);
        lemma_mirror_occupied(blacks, a, b);
        assert(listed(black_moves, a, BOARD_SIZE - 1 - b) <==> is_move(
            Piece::Pawn,
            ob,
            Player::Black,
            mirror(whites),
            mirror(blacks),
            a,
            BOARD_SIZE - 1 - b,
        ));
    }
}

} // verus!
