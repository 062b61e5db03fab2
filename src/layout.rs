//! The pieces at the start of a game, and where their pictures sit in the sprite sheet.

use vstd::prelude::*;
use crate::board::{BoardPosition, Piece, PlacedPiece, Player, BOARD_SIZE};
use crate::moves::{home_rank, pawn_start_rank};

verus! {

/// The piece that stands on `file` of a side's home rank: the same for both
/// sides, so that the two kings face each other on one file.
pub open spec fn back_rank_piece(file: int) -> Piece {
    if file == 0 || file == 7 {
        Piece::Rook
    } else if file == 1 || file == 6 {
        Piece::Knight
    } else if file == 2 || file == 5 {
        Piece::Bishop
    } else if file == 3 {
        Piece::Queen
    } else {
        Piece::King
    }
}

/// The piece of `player` that stands on `(x, y)` at the start, if any: its
/// back rank on its home rank, and a pawn on every file of its pawn rank.
pub open spec fn starting_piece(player: Player, x: int, y: int) -> Option<Piece> {
    if !(0 <= x < BOARD_SIZE) {
        None
    } else if y == home_rank(player) {
        Some(back_rank_piece(x))
    } else if y == pawn_start_rank(player) {
        Some(Piece::Pawn)
    } else {
        None
    }
}

/// Whether `pieces` is the full starting set of `player`: each piece of it
/// once, where `starting_piece` puts it, and no two on one square.
pub open spec fn is_starting_set(pieces: Seq<PlacedPiece>, player: Player) -> bool {
    &&& pieces.len() == 2 * BOARD_SIZE
    &&& forall|i: int|
        0 <= i < pieces.len() ==> (#[trigger] pieces[i]).player == player && starting_piece(
            player,
            pieces[i].position.x as int,
            pieces[i].position.y as int,
        ) == Some(pieces[i].piece)
    &&& forall|x: int, y: int|
        (#[trigger] starting_piece(player, x, y)).is_some() ==> exists|i: int|
            0 <= i < pieces.len() && pieces[i].position.x == x && pieces[i].position.y == y
    &&& forall|i: int, j: int|
        0 <= i < j < pieces.len() ==> (#[trigger] pieces[i]).position != (#[trigger] pieces[j]).position
}

fn back_rank(file: i32) -> (r: Piece)
    requires
        0 <= file < BOARD_SIZE,
    ensures
        r == back_rank_piece(file as int),
{
    if file == 0 || file == 7 {
        Piece::Rook
    } else if file == 1 || file == 6 {
        Piece::Knight
    } else if file == 2 || file == 5 {
        Piece::Bishop
    } else if file == 3 {
        Piece::Queen
    } else {
        Piece::King
    }
}

/// The pieces of `player` at the start of a game.
pub fn starting_pieces(player: &Player) -> (pieces: Vec<PlacedPiece>)
    ensures
        is_starting_set(pieces@, *player),
{
    let (home, pawns): (i32, i32) = match player {
        Player::White => (0, 1),
        Player::Black => (BOARD_SIZE - 1, BOARD_SIZE - 2),
    };
    let mut pieces: Vec<PlacedPiece> = Vec::new();
    let mut file: i32 = 0;
    while file < BOARD_SIZE
        invariant
            0 <= file <= BOARD_SIZE,
            home == home_rank(*player),
            pieces@.len() == file,
            forall|i: int|
                0 <= i < file ==> #[trigger] pieces@[i] == (PlacedPiece {
                    piece: back_rank_piece(i),
                    player: *player,
                    position: BoardPosition { x: i as i32, y: home },
                }),
        decreases BOARD_SIZE - file,
    {
        let piece = back_rank(file);
        pieces.push(PlacedPiece { piece, player: *player, position: BoardPosition::new(file, home) });
        file = file + 1;
    }
    let mut file: i32 = 0;
    while file < BOARD_SIZE
        invariant
            0 <= file <= BOARD_SIZE,
            home == home_rank(*player),
            pawns == pawn_start_rank(*player),
            pieces@.len() == BOARD_SIZE + file,
            forall|i: int|
                0 <= i < BOARD_SIZE ==> #[trigger] pieces@[i] == (PlacedPiece {
                    piece: back_rank_piece(i),
                    player: *player,
                    position: BoardPosition { x: i as i32, y: home },
                }),
            forall|i: int|
                0 <= i < file ==> #[trigger] pieces@[BOARD_SIZE + i] == (PlacedPiece {
                    piece: Piece::Pawn,
                    player: *player,
                    position: BoardPosition { x: i as i32, y: pawns },
                }),
        decreases BOARD_SIZE - file,
    {
        pieces.push(
            PlacedPiece { piece: Piece::Pawn, player: *player, position: BoardPosition::new(file, pawns) },
        );
        file = file + 1;
    }
    assert forall|i: int| 0 <= i < pieces@.len() implies (#[trigger] pieces@[i]).player == *player
        && starting_piece(*player, pieces@[i].position.x as int, pieces@[i].position.y as int) == Some(
        pieces@[i].piece,
    ) by {
        if i >= BOARD_SIZE {
            assert(pieces@[BOARD_SIZE + (i - BOARD_SIZE)] == pieces@[i]);
        }
    }
    assert forall|x: int, y: int| (#[trigger] starting_piece(*player, x, y)).is_some() implies exists|i: int|
        0 <= i < pieces@.len() && pieces@[i].position.x == x && pieces@[i].position.y == y by {
        if y == home_rank(*player) {
            assert(pieces@[x].position.x == x && pieces@[x].position.y == y);
        } else {
            assert(pieces@[BOARD_SIZE + x].position.x == x && pieces@[BOARD_SIZE + x].position.y == y);
        }
    }
    assert forall|i: int, j: int| 0 <= i < j < pieces@.len() implies (#[trigger] pieces@[i]).position
        != (#[trigger] pieces@[j]).position by {
        if i >= BOARD_SIZE {
            assert(pieces@[BOARD_SIZE + (i - BOARD_SIZE)] == pieces@[i]);
        }
        if j >= BOARD_SIZE {
            assert(pieces@[BOARD_SIZE + (j - BOARD_SIZE)] == pieces@[j]);
        }
    }
    pieces
}

/// The column of `piece` in the sprite sheet.
pub open spec fn sprite_column(piece: Piece) -> int {
    match piece {
        Piece::King => 0,
        Piece::Queen => 1,
        Piece::Knight => 2,
        Piece::Pawn => 3,
        Piece::Bishop => 4,
        Piece::Rook => 5,
    }
}

/// The index of the picture of a `piece` of `player` in the sprite sheet: the
/// white pieces fill its first row of six, the black pieces its second.
pub fn atlas_index(piece: &Piece, player: &Player) -> (r: usize)
    ensures
        r == sprite_column(*piece) + (if *player == Player::Black {
            6int
        } else {
            0int
        }),
{
    let column: usize = match piece {
        Piece::King => 0,
        Piece::Queen => 1,
        Piece::Knight => 2,
        Piece::Pawn => 3,
        Piece::Bishop => 4,
        Piece::Rook => 5,
    };
    match player {
        Player::White => column,
        Player::Black => column + 6,
    }
}

} // verus!
