//! Move selection for a grid game played by several snakes at once: a
//! one-turn simulator, a position evaluator, a multi-snake tree search and an
//! iterative-deepening driver, all with checked contracts.

use vstd::prelude::*;

pub mod types;
pub mod board;
pub mod flood;
pub mod snake;
pub mod score_factors;
pub mod game;
pub mod evaluate;
pub mod memo;
pub mod clock;
pub mod brain;
pub mod strangle;
pub mod bench;
