use vstd::prelude::*;

verus! {

/// Number of files and ranks on the board.
pub const BOARD_SIZE: i32 = 8;

/// Width and height of a square on screen, in pixels.
pub const PIECE_SIZE: i32 = 60;

/// A square of the board, as (file, rank); both are in `0..BOARD_SIZE` on the board.
#[derive(Clone, Copy, Debug, PartialEq, Eq, Structural, Hash)]
pub struct BoardPosition {
    pub x: i32,
    pub y: i32,
}

impl BoardPosition {
    pub fn new(x: i32, y: i32) -> (r: Self)
        ensures
            r.x == x,
            r.y == y,
    {
        Self { x, y }
    }
}

#[derive(Clone, Copy, Debug, PartialEq, Eq, Structural, Hash)]
pub enum Piece {
    King,
    Queen,
    Knight,
    Pawn,
    Bishop,
    Rook,
}

/// The two sides. White advances towards higher ranks, Black towards lower ones.
#[derive(Clone, Copy, Debug, PartialEq, Eq, Structural, Hash)]
pub enum Player {
    White,
    Black,
}

/// A piece standing on the board.
#[derive(Clone, Copy, Debug, PartialEq, Eq, Structural, Hash)]
pub struct PlacedPiece {
    pub piece: Piece,
    pub player: Player,
    pub position: BoardPosition,
}

/// Whether `(x, y)` lies on the board.
pub open spec fn in_bounds(x: int, y: int) -> bool {
    0 <= x < BOARD_SIZE && 0 <= y < BOARD_SIZE
}

/// Whether some position of `ps` is the square `(x, y)`.
pub open spec fn occupied(ps: Seq<BoardPosition>, x: int, y: int) -> bool {
    exists|i: int| 0 <= i < ps.len() && ps[i].x == x && ps[i].y == y
}

/// Whether every position of `ps` lies on the board.
pub open spec fn all_on_board(ps: Seq<BoardPosition>) -> bool {
    forall|i: int| 0 <= i < ps.len() ==> in_bounds(ps[i].x as int, ps[i].y as int)
}

/// Whether `(x, y)` lies on the board.
pub fn on_board(x: i32, y: i32) -> (r: bool)
    ensures
        r == in_bounds(x as int, y as int),
{
    0 <= x && x < BOARD_SIZE && 0 <= y && y < BOARD_SIZE
}

/// Whether `ps` holds the square `(x, y)`.
pub fn is_occupied(ps: &Vec<BoardPosition>, x: i32, y: i32) -> (r: bool)
    ensures
        r == occupied(ps@, x as int, y as int),
{
    let mut i: usize = 0;
    while i < ps.len()
        invariant
            i <= ps@.len(),
            forall|j: int| 0 <= j < i ==> !(ps@[j].x == x && ps@[j].y == y),
        decreases ps@.len() - i,
    {
        if ps[i].x == x && ps[i].y == y {
            return true;
        }
        i = i + 1;
    }
    false
}

/// The colours in which a tile of the board is drawn.
#[derive(Clone, Copy, Debug, PartialEq, Eq, Structural, Hash)]
pub enum TileColor {
    Green,
    LimeGreen,
    /// The tile under the selected piece.
    Yellow,
}

/// The colour of a tile: lime green where `x + y` is odd, green where it is even.
pub open spec fn checker_color(x: int, y: int) -> TileColor {
    if (x + y) % 2 == 1 {
        TileColor::LimeGreen
    } else {
        TileColor::Green
    }
}

pub fn get_tile_color(x: i32, y: i32) -> (r: TileColor)
    requires
        0 <= x,
        0 <= y,
    ensures
        r == checker_color(x as int, y as int),
{
    if (x % 2 == 1 && y % 2 != 1) || (x % 2 != 1 && y % 2 == 1) {
        TileColor::LimeGreen
    } else {
        TileColor::Green
    }
}

/// The colour of `tile` while `selected` is the square of the selected piece, if any.
pub fn tile_color(tile: &BoardPosition, selected: Option<BoardPosition>) -> (r: TileColor)
    requires
        0 <= tile.x,
        0 <= tile.y,
    ensures
        r == (if selected == Some(*tile) {
            TileColor::Yellow
        } else {
            checker_color(tile.x as int, tile.y as int)
        }),
{
    match selected {
        Some(pos) => if pos.x == tile.x && pos.y == tile.y {
            TileColor::Yellow
        } else {
            get_tile_color(tile.x, tile.y)
        },
        None => get_tile_color(tile.x, tile.y),
    }
}

/// The screen coordinate of the centre of the tiles in file or rank `coord`.
pub fn tile_center(coord: i32) -> (r: i32)
    requires
        i32::MIN <= coord * PIECE_SIZE + PIECE_SIZE / 2 <= i32::MAX,
    ensures
        r == coord * PIECE_SIZE + PIECE_SIZE / 2,
{
    coord * PIECE_SIZE + (PIECE_SIZE / 2)
}

} // verus!
