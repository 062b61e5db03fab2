//! Pseudo-legal move generation for chess pieces on an 8×8 board, together
//! with the small pieces of game logic that surround it: the starting layout,
//! tile colouring, piece selection and the turn/selection state.

pub mod board;
pub mod moves;
pub mod laws;
pub mod layout;
pub mod game;
