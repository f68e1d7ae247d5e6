//! A ball-sort puzzle engine.
//!
//! A puzzle is a row of glasses, each a bounded stack of coloured balls. The
//! player selects a glass and then names a target; the run of equally
//! coloured balls on top of the selected glass moves onto the target if the
//! rules allow it.
//!
//! Every executable function carries a contract over a mathematical model:
//! a [`Glass`] is viewed as a [`Column`], a [`Game`] as a [`Board`].

pub mod ball;
pub mod deal;
pub mod game;
pub mod glass;
pub mod render;

pub use ball::Ball;
pub use game::{Board, Game, MoveError};
pub use glass::{Column, Glass, GlassError};
