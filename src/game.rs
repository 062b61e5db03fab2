//! The state of a game between frames, and the decisions made on it: which
//! piece a click selects, and where the selected piece may go.

use vstd::prelude::*;
use crate::board::{BoardPosition, PlacedPiece, Player};
use crate::moves::{get_possible_moves, lists_possible_moves};

verus! {

/// Whether a click on `(x, y)` while `turn` is to move picks `p`.
pub open spec fn selectable(p: PlacedPiece, turn: Player, x: int, y: int) -> bool {
    p.player == turn && p.position.x == x && p.position.y == y
}

/// The first piece of `turn` that stands on `(x, y)`, if any.
pub open spec fn first_selectable(s: Seq<PlacedPiece>, turn: Player, x: int, y: int) -> Option<usize> {
    if exists|i: int| 0 <= i < s.len() && selectable(#[trigger] s[i], turn, x, y) {
        let i = choose|i: int|
            0 <= i < s.len() && selectable(#[trigger] s[i], turn, x, y) && forall|j: int|
                0 <= j < i ==> !selectable(#[trigger] s[j], turn, x, y);
        Some(i as usize)
    } else {
        None
    }
}

/// The squares of the pieces of `player`, in the order of `s`.
pub open spec fn positions_owned(s: Seq<PlacedPiece>, player: Player) -> Seq<BoardPosition>
    decreases s.len(),
{
    if s.len() == 0 {
        Seq::empty()
    } else {
        let rest = positions_owned(s.drop_last(), player);
        if s.last().player == player {
            rest.push(s.last().position)
        } else {
            rest
        }
    }
}

/// The index of the piece that a click on `(x, y)` selects while `turn` is to
/// move: the first piece of `turn` on that square, or none.
pub fn select_piece(pieces: &Vec<PlacedPiece>, turn: &Player, x: i32, y: i32) -> (r: Option<usize>)
    ensures
        match r {
            Some(i) => i < pieces@.len() && selectable(pieces@[i as int], *turn, x as int, y as int)
                && forall|j: int| 0 <= j < i ==> !selectable(#[trigger] pieces@[j], *turn, x as int, y as int),
            None => forall|j: int|
                0 <= j < pieces@.len() ==> !selectable(#[trigger] pieces@[j], *turn, x as int, y as int),
        },
        r == first_selectable(pieces@, *turn, x as int, y as int),
{
    let mut i: usize = 0;
    while i < pieces.len()
        invariant
            i <= pieces@.len(),
            forall|j: int| 0 <= j < i ==> !selectable(#[trigger] pieces@[j], *turn, x as int, y as int),
        decreases pieces@.len() - i,
    {
        let p = &pieces[i];
        if p.player == *turn && p.position.x == x && p.position.y == y {
            proof {
                let s = pieces@;
                let k = choose|k: int|
                    0 <= k < s.len() && selectable(#[trigger] s[k], *turn, x as int, y as int) && forall|j: int|
                        0 <= j < k ==> !selectable(#[trigger] s[j], *turn, x as int, y as int);
                if k < i {
                } else if k > i {
                    assert(!selectable(s[i as int], *turn, x as int, y as int));
                }
            }
            return Some(i);
        }
        i = i + 1;
    }
    None
}

/// The squares of the pieces of `player`, in the order of `pieces`.
pub fn positions_of(pieces: &Vec<PlacedPiece>, player: &Player) -> (r: Vec<BoardPosition>)
    ensures
        r@ == positions_owned(pieces@, *player),
{
    let mut r: Vec<BoardPosition> = Vec::new();
    let mut i: usize = 0;
    while i < pieces.len()
        invariant
            i <= pieces@.len(),
            r@ == positions_owned(pieces@.subrange(0, i as int), *player),
        decreases pieces@.len() - i,
    {
        assert(pieces@.subrange(0, i + 1).drop_last() =~= pieces@.subrange(0, i as int));
        if pieces[i].player == *player {
            r.push(pieces[i].position);
        }
        i = i + 1;
    }
    assert(pieces@.subrange(0, pieces@.len() as int) =~= pieces@);
    r
}

/// The destinations of the `index`-th of `pieces`, with every other piece of
/// the list standing where it is.
pub fn possible_moves_of(pieces: &Vec<PlacedPiece>, index: usize) -> (r: Vec<(i32, i32)>)
    requires
        index < pieces@.len(),
    ensures
        lists_possible_moves(
            r@,
            pieces@[index as int].piece,
            pieces@[index as int].position,
            pieces@[index as int].player,
            positions_owned(pieces@, Player::White),
            positions_owned(pieces@, Player::Black),
        ),
{
    let whites = positions_of(pieces, &Player::White);
    let blacks = positions_of(pieces, &Player::Black);
    let p = &pieces[index];
    get_possible_moves(&p.piece, &p.position, &p.player, &whites, &blacks)
}

/// What persists between frames: whether the pieces have been placed, whose
/// turn it is, and which piece (by its index in the list of pieces) is selected.
pub struct GameState {
    pub population_done: bool,
    pub current_turn: Player,
    pub selected: Option<usize>,
}

impl GameState {
    /// A game whose pieces are yet to be placed, with White to move and nothing selected.
    pub fn new() -> (r: Self)
        ensures
            !r.population_done,
            r.current_turn == Player::White,
            r.selected == None::<usize>,
    {
        GameState { population_done: false, current_turn: Player::White, selected: None }
    }

    /// Whether the pieces are to be placed now; from then on they count as placed.
    pub fn begin_population(&mut self) -> (r: bool)
        ensures
            r == !old(self).population_done,
            final(self).population_done,
            final(self).current_turn == old(self).current_turn,
            final(self).selected == old(self).selected,
    {
        let r = !self.population_done;
        self.population_done = true;
        r
    }

    /// A click on `(x, y)`: selects the first piece of the side to move on
    /// that square, or clears the selection if there is none. With no pieces at
    /// all the selection stays as it was. Returns the square of the piece
    /// selected by this click.
    pub fn click(&mut self, pieces: &Vec<PlacedPiece>, x: i32, y: i32) -> (r: Option<BoardPosition>)
        ensures
            final(self).population_done == old(self).population_done,
            final(self).current_turn == old(self).current_turn,
            pieces@.len() == 0 ==> final(self).selected == old(self).selected && r == None::<BoardPosition>,
            pieces@.len() > 0 ==> final(self).selected == first_selectable(
                pieces@,
                old(self).current_turn,
                x as int,
                y as int,
            ),
            pieces@.len() > 0 ==> match final(self).selected {
                Some(i) => r == Some(pieces@[i as int].position),
                None => r == None::<BoardPosition>,
            },
    {
        if pieces.len() == 0 {
            return None;
        }
        let chosen = select_piece(pieces, &self.current_turn, x, y);
        self.selected = chosen;
        match chosen {
            Some(i) => Some(pieces[i].position),
            None => None,
        }
    }
}

} // verus!
