use vstd::prelude::*;
use crate::board::{
    in_bounds, is_occupied, occupied, on_board, BoardPosition, Piece, Player, BOARD_SIZE,
};

verus! {

/// The rank step of a pawn of `player`: White moves up the board, Black down.
pub open spec fn forward(player: Player) -> int {
    match player {
        Player::White => 1,
        Player::Black => -1,
    }
}

/// The rank from which a pawn of `player` may advance two squares.
pub open spec fn pawn_start_rank(player: Player) -> int {
    match player {
        Player::White => 1,
        Player::Black => BOARD_SIZE - 2,
    }
}

/// The rank on which the pieces of `player` stand at the start, behind its pawns.
pub open spec fn home_rank(player: Player) -> int {
    match player {
        Player::White => 0,
        Player::Black => BOARD_SIZE - 1,
    }
}

/// The pieces of the same side as `player`.
pub open spec fn allies_of(
    player: Player,
    whites: Seq<BoardPosition>,
    blacks: Seq<BoardPosition>,
) -> Seq<BoardPosition> {
    match player {
        Player::White => whites,
        Player::Black => blacks,
    }
}

/// The pieces of the side opposing `player`.
pub open spec fn enemies_of(
    player: Player,
    whites: Seq<BoardPosition>,
    blacks: Seq<BoardPosition>,
) -> Seq<BoardPosition> {
    match player {
        Player::White => blacks,
        Player::Black => whites,
    }
}

pub open spec fn abs(a: int) -> int {
    if a < 0 {
        -a
    } else {
        a
    }
}

/// Whether `(dx, dy)` is one of the eight knight jumps.
pub open spec fn is_knight_jump(dx: int, dy: int) -> bool {
    (abs(dx) == 1 && abs(dy) == 2) || (abs(dx) == 2 && abs(dy) == 1)
}

/// The knight jumps, in the order in which they are tried.
pub open spec fn knight_offset(i: int) -> (int, int) {
    if i == 0 {
        (1, 2)
    } else if i == 1 {
        (-1, 2)
    } else if i == 2 {
        (2, 1)
    } else if i == 3 {
        (2, -1)
    } else if i == 4 {
        (1, -2)
    } else if i == 5 {
        (-1, -2)
    } else if i == 6 {
        (-2, 1)
    } else {
        (-2, -1)
    }
}

/// The `t`-th of the four ray directions of a sliding piece: diagonals for
/// a bishop, files and ranks for a rook.
pub open spec fn direction(piece: Piece, t: int) -> (int, int) {
    match piece {
        Piece::Rook => if t == 0 {
            (0, 1)
        } else if t == 1 {
            (0, -1)
        } else if t == 2 {
            (1, 0)
        } else {
            (-1, 0)
        },
        _ => if t == 0 {
            (1, 1)
        } else if t == 1 {
            (1, -1)
        } else if t == 2 {
            (-1, 1)
        } else {
            (-1, -1)
        },
    }
}

/// `k` steps of `d`, where each coordinate of a direction is -1, 0 or 1.
pub open spec fn steps(k: int, d: int) -> int {
    if d > 0 {
        k
    } else if d < 0 {
        -k
    } else {
        0
    }
}

/// The square `k` steps away from `o` along the direction `d`.
pub open spec fn ray_square(o: BoardPosition, d: (int, int), k: int) -> (int, int) {
    (o.x + steps(k, d.0), o.y + steps(k, d.1))
}

/// Whether the walk from `o` along `d` may pass or stop on its `k`-th square:
/// that square is on the board and holds no friendly piece.
pub open spec fn ray_open(o: BoardPosition, d: (int, int), allies: Seq<BoardPosition>, k: int) -> bool {
    let sq = ray_square(o, d, k);
    in_bounds(sq.0, sq.1) && !occupied(allies, sq.0, sq.1)
}

/// Whether the `k`-th square of the walk from `o` along `d` holds an enemy piece.
pub open spec fn ray_capture(o: BoardPosition, d: (int, int), enemies: Seq<BoardPosition>, k: int) -> bool {
    let sq = ray_square(o, d, k);
    occupied(enemies, sq.0, sq.1)
}

/// Whether a sliding piece on `o` reaches the `k`-th square along `d`: every
/// square up to it is open, and none before it holds an enemy piece.
pub open spec fn ray_reaches(
    o: BoardPosition,
    d: (int, int),
    allies: Seq<BoardPosition>,
    enemies: Seq<BoardPosition>,
    k: int,
) -> bool {
    &&& 1 <= k
    &&& forall|j: int| 1 <= j <= k ==> #[trigger] ray_open(o, d, allies, j)
    &&& forall|j: int| 1 <= j < k ==> !#[trigger] ray_capture(o, d, enemies, j)
}

/// Whether a sliding piece on `o` reaches `(x, y)` along `d`.
pub open spec fn is_slide_move(
    o: BoardPosition,
    d: (int, int),
    allies: Seq<BoardPosition>,
    enemies: Seq<BoardPosition>,
    x: int,
    y: int,
) -> bool {
    exists|k: int| #[trigger] ray_reaches(o, d, allies, enemies, k) && ray_square(o, d, k) == (x, y)
}

/// Whether a bishop or rook on `o` reaches `(x, y)` along one of its first `n` rays.
pub open spec fn slide_reaches(
    piece: Piece,
    o: BoardPosition,
    allies: Seq<BoardPosition>,
    enemies: Seq<BoardPosition>,
    n: int,
    x: int,
    y: int,
) -> bool {
    exists|t: int| 0 <= t < n && #[trigger] is_slide_move(o, direction(piece, t), allies, enemies, x, y)
}

/// Whether a pawn of `player` on `o` may move to `(x, y)`: one step ahead onto
/// an empty square (from a rank strictly between the first and the last), two
/// steps ahead from its starting rank onto an empty square (the square passed
/// over is not looked at), or one step diagonally ahead onto an enemy piece.
pub open spec fn is_pawn_move(
    o: BoardPosition,
    player: Player,
    allies: Seq<BoardPosition>,
    enemies: Seq<BoardPosition>,
    x: int,
    y: int,
) -> bool {
    let d = forward(player);
    let empty = !occupied(allies, x, y) && !occupied(enemies, x, y);
    ||| x == o.x && y == o.y + d && 0 < o.y < BOARD_SIZE - 1 && empty
    ||| x == o.x && y == o.y + 2 * d && o.y == pawn_start_rank(player) && empty
    ||| (x == o.x + 1 || x == o.x - 1) && y == o.y + d && in_bounds(x, y) && occupied(enemies, x, y)
}

/// Whether a `piece` of `player` on `o` may move to `(x, y)`, given the
/// squares held by its own side (`allies`) and by the other (`enemies`).
/// A piece off the board, a king and a queen have no moves.
pub open spec fn is_move(
    piece: Piece,
    o: BoardPosition,
    player: Player,
    allies: Seq<BoardPosition>,
    enemies: Seq<BoardPosition>,
    x: int,
    y: int,
) -> bool {
    &&& in_bounds(o.x as int, o.y as int)
    &&& match piece {
        Piece::King | Piece::Queen => false,
        Piece::Knight => is_knight_jump(x - o.x, y - o.y) && in_bounds(x, y) && !occupied(allies, x, y),
        Piece::Pawn => is_pawn_move(o, player, allies, enemies, x, y),
        Piece::Bishop | Piece::Rook => slide_reaches(piece, o, allies, enemies, 4, x, y),
    }
}

/// Whether `moves` lists every destination of the piece exactly once, and nothing else.
pub open spec fn lists_moves(
    moves: Seq<(i32, i32)>,
    piece: Piece,
    o: BoardPosition,
    player: Player,
    allies: Seq<BoardPosition>,
    enemies: Seq<BoardPosition>,
) -> bool {
    &&& moves.no_duplicates()
    &&& forall|i: int|
        0 <= i < moves.len() ==> is_move(piece, o, player, allies, enemies, #[trigger] moves[i].0 as int, moves[i].1 as int)
    &&& forall|x: int, y: int|
        #[trigger] is_move(piece, o, player, allies, enemies, x, y) ==> moves.contains((x as i32, y as i32))
}

/// The first `n` squares of the walk from `o` along `d`.
pub open spec fn ray_seq(o: BoardPosition, d: (int, int), n: int) -> Seq<(i32, i32)> {
    Seq::new(
        n as nat,
        |i: int| ((ray_square(o, d, i + 1).0) as i32, (ray_square(o, d, i + 1).1) as i32),
    )
}

/// Appends the squares that a sliding piece on `o` reaches along `(dx, dy)`,
/// nearest first, and returns how many there are.
fn slide(
    moves: &mut Vec<(i32, i32)>,
    o: &BoardPosition,
    dx: i32,
    dy: i32,
    allies: &Vec<BoardPosition>,
    enemies: &Vec<BoardPosition>,
) -> (n: usize)
    requires
        in_bounds(o.x as int, o.y as int),
        -1 <= dx <= 1,
        -1 <= dy <= 1,
        dx != 0 || dy != 0,
    ensures
        final(moves)@ == old(moves)@ + ray_seq(*o, (dx as int, dy as int), n as int),
        forall|k: int|
            #[trigger] ray_reaches(*o, (dx as int, dy as int), allies@, enemies@, k) <==> 1 <= k <= n,
{
    let ghost d = (dx as int, dy as int);
    let ghost start = moves@;
    let mut path = true;
    let mut chain: i32 = 1;
    let mut x: i32 = o.x + dx;
    let mut y: i32 = o.y + dy;
    while path
        invariant
            in_bounds(o.x as int, o.y as int),
            d == (dx as int, dy as int),
            -1 <= dx <= 1,
            -1 <= dy <= 1,
            dx != 0 || dy != 0,
            1 <= chain <= BOARD_SIZE,
            (x as int, y as int) == ray_square(*o, d, chain as int),
            moves@ == start + ray_seq(*o, d, chain - 1),
            forall|j: int| 1 <= j < chain ==> #[trigger] ray_open(*o, d, allies@, j),
            forall|j: int| 1 <= j < chain - 1 ==> !#[trigger] ray_capture(*o, d, enemies@, j),
            path ==> chain == 1 || !ray_capture(*o, d, enemies@, chain - 1),
            !path ==> (chain > 1 && ray_capture(*o, d, enemies@, chain - 1)) || !ray_open(
                *o,
                d,
                allies@,
                chain as int,
            ),
        decreases (if path { BOARD_SIZE + 1 - chain } else { 0 }),
    {
        if !is_occupied(allies, x, y) && on_board(x, y) {
            moves.push((x, y));
            assert(moves@ =~= start + ray_seq(*o, d, chain as int));
            if is_occupied(enemies, x, y) {
                path = false;
            }
            chain = chain + 1;
            x = x + dx;
            y = y + dy;
        } else {
            path = false;
        }
    }
    assert forall|k: int| #[trigger] ray_reaches(*o, d, allies@, enemies@, k) <==> 1 <= k < chain by {
        if 1 <= k < chain {
            assert(ray_reaches(*o, d, allies@, enemies@, k));
        } else if k >= chain && ray_reaches(*o, d, allies@, enemies@, k) {
            if chain > 1 && ray_capture(*o, d, enemies@, chain - 1) {
                assert(!ray_capture(*o, d, enemies@, chain - 1));
            } else {
                assert(ray_open(*o, d, allies@, chain as int));
            }
        }
    }
    (chain - 1) as usize
}

/// Two rays of one sliding piece meet only where they are the same ray at the same distance.
pub proof fn lemma_rays_disjoint(piece: Piece, o: BoardPosition, t1: int, k1: int, t2: int, k2: int)
    requires
        piece == Piece::Bishop || piece == Piece::Rook,
        0 <= t1 < 4,
        0 <= t2 < 4,
        1 <= k1,
        1 <= k2,
        ray_square(o, direction(piece, t1), k1) == ray_square(o, direction(piece, t2), k2),
    ensures
        t1 == t2,
        k1 == k2,
{
}

/// The direction of the `i`-th ray of a sliding piece.
fn ray_direction(piece: &Piece, i: usize) -> (r: (i32, i32))
    requires
        i < 4,
    ensures
        (r.0 as int, r.1 as int) == direction(*piece, i as int),
{
    match piece {
        Piece::Rook => match i {
            0 => (0, 1),
            1 => (0, -1),
            2 => (1, 0),
            _ => (-1, 0),
        },
        _ => match i {
            0 => (1, 1),
            1 => (1, -1),
            2 => (-1, 1),
            _ => (-1, -1),
        },
    }
}

/// The moves of a bishop or a rook: each of its four rays walked in turn.
fn sliding_moves(
    piece: &Piece,
    o: &BoardPosition,
    player: &Player,
    allies: &Vec<BoardPosition>,
    enemies: &Vec<BoardPosition>,
) -> (moves: Vec<(i32, i32)>)
    requires
        *piece == Piece::Bishop || *piece == Piece::Rook,
        in_bounds(o.x as int, o.y as int),
    ensures
        lists_moves(moves@, *piece, *o, *player, allies@, enemies@),
{
    let mut moves: Vec<(i32, i32)> = Vec::new();
    let mut i: usize = 0;
    while i < 4
        invariant
            *piece == Piece::Bishop || *piece == Piece::Rook,
            in_bounds(o.x as int, o.y as int),
            i <= 4,
            moves@.no_duplicates(),
            forall|m: int|
                0 <= m < moves@.len() ==> slide_reaches(
                    *piece,
                    *o,
                    allies@,
                    enemies@,
                    i as int,
                    #[trigger] moves@[m].0 as int,
                    moves@[m].1 as int,
                ),
            forall|t: int, k: int|
                0 <= t < i && #[trigger] ray_reaches(*o, direction(*piece, t), allies@, enemies@, k)
                    ==> moves@.contains(
                    (
                        (ray_square(*o, direction(*piece, t), k).0) as i32,
                        (ray_square(*o, direction(*piece, t), k).1) as i32,
                    ),
                ),
        decreases 4 - i,
    {
        let ghost before = moves@;
        let dir = ray_direction(piece, i);
        let ghost d = direction(*piece, i as int);
        let n = slide(&mut moves, o, dir.0, dir.1, allies, enemies);
        let ghost seg = ray_seq(*o, d, n as int);
        assert(moves@ == before + seg);
        assert forall|q: int| 0 <= q < seg.len() implies ray_reaches(*o, d, allies@, enemies@, q + 1)
            && (seg[q].0 as int, seg[q].1 as int) == ray_square(*o, d, q + 1) by {
            assert(ray_reaches(*o, d, allies@, enemies@, q + 1));
            assert(ray_open(*o, d, allies@, q + 1));
        }
        assert forall|a: int, b: int| 0 <= a < b < moves@.len() implies moves@[a] != moves@[b] by {
            if b >= before.len() {
                let qb = b - before.len();
                if a >= before.len() {
                    let qa = a - before.len();
                    if moves@[a] == moves@[b] {
                        lemma_rays_disjoint(*piece, *o, i as int, qa + 1, i as int, qb + 1);
                    }
                } else {
                    let t2 = choose|t2: int|
                        0 <= t2 < i && #[trigger] is_slide_move(
                            *o,
                            direction(*piece, t2),
                            allies@,
                            enemies@,
                            before[a].0 as int,
                            before[a].1 as int,
                        );
                    let k2 = choose|k2: int|
                        #[trigger] ray_reaches(*o, direction(*piece, t2), allies@, enemies@, k2)
                            && ray_square(*o, direction(*piece, t2), k2) == (
                            before[a].0 as int,
                            before[a].1 as int,
                        );
                    if moves@[a] == moves@[b] {
                        lemma_rays_disjoint(*piece, *o, i as int, qb + 1, t2, k2);
                    }
                }
            } else {
                assert(before[a] != before[b]);
            }
        }
        assert forall|m: int| 0 <= m < moves@.len() implies slide_reaches(
            *piece,
            *o,
            allies@,
            enemies@,
            i + 1,
            #[trigger] moves@[m].0 as int,
            moves@[m].1 as int,
        ) by {
            if m >= before.len() {
                let q = m - before.len();
                assert(ray_reaches(*o, d, allies@, enemies@, q + 1));
                assert(is_slide_move(*o, d, allies@, enemies@, moves@[m].0 as int, moves@[m].1 as int));
            } else {
                assert(moves@[m] == before[m]);
            }
        }
        assert forall|t: int, k: int|
            0 <= t < i + 1 && #[trigger] ray_reaches(*o, direction(*piece, t), allies@, enemies@, k)
                implies moves@.contains(
            (
                (ray_square(*o, direction(*piece, t), k).0) as i32,
                (ray_square(*o, direction(*piece, t), k).1) as i32,
            ),
        ) by {
            if t == i {
                assert(moves@[before.len() + k - 1] == seg[k - 1]);
            } else {
                let w = choose|w: int|
                    0 <= w < before.len() && before[w] == (
                        (ray_square(*o, direction(*piece, t), k).0) as i32,
                        (ray_square(*o, direction(*piece, t), k).1) as i32,
                    );
                assert(moves@[w] == before[w]);
            }
        }
        i = i + 1;
    }
    assert forall|x: int, y: int| #[trigger] is_move(*piece, *o, *player, allies@, enemies@, x, y)
        implies moves@.contains((x as i32, y as i32)) by {
        let t = choose|t: int|
            0 <= t < 4 && #[trigger] is_slide_move(*o, direction(*piece, t), allies@, enemies@, x, y);
        let k = choose|k: int|
            #[trigger] ray_reaches(*o, direction(*piece, t), allies@, enemies@, k) && ray_square(
                *o,
                direction(*piece, t),
                k,
            ) == (x, y);
        assert(ray_reaches(*o, direction(*piece, t), allies@, enemies@, k));
    }
    assert forall|m: int| 0 <= m < moves@.len() implies is_move(
        *piece,
        *o,
        *player,
        allies@,
        enemies@,
        #[trigger] moves@[m].0 as int,
        moves@[m].1 as int,
    ) by {
    }
    moves
}

/// The `i`-th knight jump.
fn knight_jump(i: usize) -> (r: (i32, i32))
    requires
        i < 8,
    ensures
        (r.0 as int, r.1 as int) == knight_offset(i as int),
{
    match i {
        0 => (1, 2),
        1 => (-1, 2),
        2 => (2, 1),
        3 => (2, -1),
        4 => (1, -2),
        5 => (-1, -2),
        6 => (-2, 1),
        _ => (-2, -1),
    }
}

/// The moves of a knight: each jump that lands on the board and not on a friendly piece.
fn knight_moves(
    o: &BoardPosition,
    player: &Player,
    allies: &Vec<BoardPosition>,
    enemies: &Vec<BoardPosition>,
) -> (moves: Vec<(i32, i32)>)
    requires
        in_bounds(o.x as int, o.y as int),
    ensures
        lists_moves(moves@, Piece::Knight, *o, *player, allies@, enemies@),
{
    let mut moves: Vec<(i32, i32)> = Vec::new();
    let mut i: usize = 0;
    while i < 8
        invariant
            in_bounds(o.x as int, o.y as int),
            i <= 8,
            forall|m: int|
                0 <= m < moves@.len() ==> exists|j: int|
                    0 <= j < i && (#[trigger] moves@[m].0 - o.x, moves@[m].1 - o.y) == knight_offset(j),
            forall|m: int|
                0 <= m < moves@.len() ==> is_move(
                    Piece::Knight,
                    *o,
                    *player,
                    allies@,
                    enemies@,
                    #[trigger] moves@[m].0 as int,
                    moves@[m].1 as int,
                ),
            moves@.no_duplicates(),
            forall|j: int|
                0 <= j < i ==> {
                    let sq = (o.x + #[trigger] knight_offset(j).0, o.y + knight_offset(j).1);
                    in_bounds(sq.0, sq.1) && !occupied(allies@, sq.0, sq.1) ==> moves@.contains(
                        (sq.0 as i32, sq.1 as i32),
                    )
                },
        decreases 8 - i,
    {
        let jump = knight_jump(i);
        let x = o.x + jump.0;
        let y = o.y + jump.1;
        if on_board(x, y) && !is_occupied(allies, x, y) {
            let ghost before = moves@;
            moves.push((x, y));
            assert forall|a: int, b: int| 0 <= a < b < moves@.len() implies moves@[a] != moves@[b] by {
                if b == before.len() {
                    let j = choose|j: int|
                        0 <= j < i && (#[trigger] before[a].0 - o.x, before[a].1 - o.y) == knight_offset(j);
                    assert(moves@[a] == before[a]);
                } else {
                    assert(before[a] != before[b]);
                }
            }
            assert forall|j: int| 0 <= j < i + 1 implies {
                let sq = (o.x + #[trigger] knight_offset(j).0, o.y + knight_offset(j).1);
                in_bounds(sq.0, sq.1) && !occupied(allies@, sq.0, sq.1) ==> moves@.contains(
                    (sq.0 as i32, sq.1 as i32),
                )
            } by {
                if j == i {
                    assert(moves@[before.len() as int] == (x, y));
                } else {
                    let sq = (o.x + knight_offset(j).0, o.y + knight_offset(j).1);
                    if in_bounds(sq.0, sq.1) && !occupied(allies@, sq.0, sq.1) {
                        let w = choose|w: int| 0 <= w < before.len() && before[w] == (sq.0 as i32, sq.1 as i32);
                        assert(moves@[w] == before[w]);
                    }
                }
            }
            assert forall|m: int| 0 <= m < moves@.len() implies exists|j: int|
                0 <= j < i + 1 && (#[trigger] moves@[m].0 - o.x, moves@[m].1 - o.y) == knight_offset(j) by {
                if m == before.len() {
                    assert((moves@[m].0 - o.x, moves@[m].1 - o.y) == knight_offset(i as int));
                } else {
                    assert(moves@[m] == before[m]);
                }
            }
        }
        i = i + 1;
    }
    assert forall|x: int, y: int| #[trigger] is_move(Piece::Knight, *o, *player, allies@, enemies@, x, y)
        implies moves@.contains((x as i32, y as i32)) by {
        let dx = x - o.x;
        let dy = y - o.y;
        let j = if dx == 1 && dy == 2 {
            0
        } else if dx == -1 && dy == 2 {
            1
        } else if dx == 2 && dy == 1 {
            2
        } else if dx == 2 && dy == -1 {
            3
        } else if dx == 1 && dy == -2 {
            4
        } else if dx == -1 && dy == -2 {
            5
        } else if dx == -2 && dy == 1 {
            6
        } else {
            7
        };
        assert(knight_offset(j) == (dx, dy));
        assert(in_bounds(x, y) && !occupied(allies@, x, y));
        assert((o.x + knight_offset(j).0, o.y + knight_offset(j).1) == (x, y));
    }
    moves
}

proof fn lemma_push_keeps(s: Seq<(i32, i32)>, a: (i32, i32))
    ensures
        s.push(a).contains(a),
        forall|e: (i32, i32)| s.contains(e) ==> #[trigger] s.push(a).contains(e),
{
    assert(s.push(a)[s.len() as int] == a);
    assert forall|e: (i32, i32)| s.contains(e) implies #[trigger] s.push(a).contains(e) by {
        let w = choose|w: int| 0 <= w < s.len() && s[w] == e;
        assert(s.push(a)[w] == e);
    }
}

/// The moves of a pawn: the step ahead, the double step and the two captures,
/// each offered on its own condition.
fn pawn_moves(
    o: &BoardPosition,
    player: &Player,
    allies: &Vec<BoardPosition>,
    enemies: &Vec<BoardPosition>,
) -> (moves: Vec<(i32, i32)>)
    requires
        in_bounds(o.x as int, o.y as int),
    ensures
        lists_moves(moves@, Piece::Pawn, *o, *player, allies@, enemies@),
{
    let dir: i32 = match player {
        Player::White => 1,
        Player::Black => -1,
    };
    let start: i32 = match player {
        Player::White => 1,
        Player::Black => BOARD_SIZE - 2,
    };
    let ahead = o.y + dir;
    let two_ahead = o.y + 2 * dir;
    let step = !is_occupied(allies, o.x, ahead) && !is_occupied(enemies, o.x, ahead) && o.y
        < BOARD_SIZE - 1 && o.y > 0;
    let double = !is_occupied(allies, o.x, two_ahead) && !is_occupied(enemies, o.x, two_ahead)
        && o.y == start;
    let right = on_board(o.x + 1, ahead) && is_occupied(enemies, o.x + 1, ahead);
    let left = on_board(o.x - 1, ahead) && is_occupied(enemies, o.x - 1, ahead);
    let ghost c0 = (o.x, ahead);
    let ghost c1 = (o.x, two_ahead);
    let ghost c2 = ((o.x + 1) as i32, ahead);
    let ghost c3 = ((o.x - 1) as i32, ahead);
    let mut moves: Vec<(i32, i32)> = Vec::new();
    if step {
        proof {
            lemma_push_keeps(moves@, c0);
        }
        moves.push((o.x, ahead));
    }
    if double {
        proof {
            lemma_push_keeps(moves@, c1);
        }
        moves.push((o.x, two_ahead));
    }
    if right {
        proof {
            lemma_push_keeps(moves@, c2);
        }
        moves.push((o.x + 1, ahead));
    }
    if left {
        proof {
            lemma_push_keeps(moves@, c3);
        }
        moves.push((o.x - 1, ahead));
    }
    assert(step ==> moves@.contains(c0));
    assert(double ==> moves@.contains(c1));
    assert(right ==> moves@.contains(c2));
    assert(left ==> moves@.contains(c3));
    assert forall|x: int, y: int| #[trigger] is_move(Piece::Pawn, *o, *player, allies@, enemies@, x, y)
        implies moves@.contains((x as i32, y as i32)) by {
        if x == o.x && y == ahead {
            assert(step);
        } else if x == o.x && y == two_ahead {
            assert(double);
        } else if x == o.x + 1 {
            assert(right);
        } else {
            assert(left);
        }
    }
    moves
}

/// Splits the two sides' squares into those of `piece_player`'s side and those of the other.
pub fn get_allies_and_enemies<'a>(
    piece_player: &Player,
    white_pieces_positions: &'a Vec<BoardPosition>,
    black_pieces_positions: &'a Vec<BoardPosition>,
) -> (r: (&'a Vec<BoardPosition>, &'a Vec<BoardPosition>))
    ensures
        r.0@ == allies_of(*piece_player, white_pieces_positions@, black_pieces_positions@),
        r.1@ == enemies_of(*piece_player, white_pieces_positions@, black_pieces_positions@),
{
    match piece_player {
        Player::White => (white_pieces_positions, black_pieces_positions),
        Player::Black => (black_pieces_positions, white_pieces_positions),
    }
}

/// Whether `moves` lists exactly the destinations of a `piece` of `player` on
/// `o`, where White holds `whites` and Black holds `blacks`.
pub open spec fn lists_possible_moves(
    moves: Seq<(i32, i32)>,
    piece: Piece,
    o: BoardPosition,
    player: Player,
    whites: Seq<BoardPosition>,
    blacks: Seq<BoardPosition>,
) -> bool {
    lists_moves(
        moves,
        piece,
        o,
        player,
        allies_of(player, whites, blacks),
        enemies_of(player, whites, blacks),
    )
}

/// The squares that a `piece_type` of `piece_player` on `piece_position` may
/// move to, each once, in no particular order. Moves that would leave the own
/// king in check are not excluded. A king, a queen, and a piece off the board
/// have none.
pub fn get_possible_moves(
    piece_type: &Piece,
    piece_position: &BoardPosition,
    piece_player: &Player,
    white_pieces_positions: &Vec<BoardPosition>,
    black_pieces_positions: &Vec<BoardPosition>,
) -> (possible_moves: Vec<(i32, i32)>)
    ensures
        lists_possible_moves(
            possible_moves@,
            *piece_type,
            *piece_position,
            *piece_player,
            white_pieces_positions@,
            black_pieces_positions@,
        ),
{
    let (allies_positions, enemies_positions) = get_allies_and_enemies(
        piece_player,
        white_pieces_positions,
        black_pieces_positions,
    );
    if !on_board(piece_position.x, piece_position.y) {
        return Vec::new();
    }
    match piece_type {
        Piece::King | Piece::Queen => Vec::new(),
        Piece::Knight => knight_moves(piece_position, piece_player, allies_positions, enemies_positions),
        Piece::Pawn => pawn_moves(piece_position, piece_player, allies_positions, enemies_positions),
        Piece::Bishop | Piece::Rook => sliding_moves(
            piece_type,
            piece_position,
            piece_player,
            allies_positions,
            enemies_positions,
        ),
    }
}

} // verus!
