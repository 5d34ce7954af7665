//! What the evaluator measures about one snake, and the utility it derives.

use vstd::prelude::*;
use crate::snake::SnakeID;

verus! {

/// How a snake left the game.
#[derive(Debug, Clone, Copy, PartialEq, Eq, Structural)]
pub enum DeathKind {
    /// Starved, left the board, hit a body or lost a head-on collision.
    Normal,
    /// Our own snake, given up in a head-on collision with an equally long
    /// rival.
    Honourable,
}

/// The largest magnitude a factor may have for its utility to be computed.
pub const MAX_FACTOR: i64 = 1_000_000_000;

/// The deepest search depth a utility can be computed for.
pub const MAX_SCORE_DEPTH: u64 = 1_000_000_000_000_000;

pub const AVAILABLE_SQUARES_WEIGHT: i64 = 2500;
pub const CENTER_DIST_WEIGHT: i64 = 250;
pub const DEPTH_WEIGHT: i64 = 100;
pub const HEALTH_WEIGHT: i64 = 200;
pub const LENGTH_WEIGHT: i64 = 5000;
pub const REMAINING_OPPONENTS_WEIGHT: i64 = 10_000;
pub const NORMAL_DEATH_SCORE: i64 = -100_000_000;
pub const HONOURABLE_DEATH_SCORE: i64 = -50_000_000;
pub const WIN_SCORE: i64 = 10_000_000;

/// The measurements from which one snake's utility is computed.
#[derive(Debug, Clone, Copy, PartialEq, Eq, Structural)]
pub struct ScoreFactors {
    pub snake_id: SnakeID,
    pub health: i64,
    pub length: i64,
    pub center_dist: i64,
    pub dead: bool,
    pub death_kind: DeathKind,
    pub remaining_opponents: i64,
    pub available_squares: i64,
    pub multisnake: bool,
}

pub open spec fn bounded(v: i64) -> bool {
    -MAX_FACTOR <= v <= MAX_FACTOR
}

impl ScoreFactors {
    /// Every factor lies within `MAX_FACTOR`.
    pub open spec fn wf(self) -> bool {
        &&& bounded(self.health)
        &&& bounded(self.length)
        &&& bounded(self.center_dist)
        &&& bounded(self.remaining_opponents)
        &&& bounded(self.available_squares)
    }

    /// The utility at search depth `depth`: dying later beats dying sooner,
    /// winning sooner beats winning later, and otherwise a weighted sum.
    pub open spec fn score_spec(self, depth: int) -> int {
        if self.dead {
            match self.death_kind {
                DeathKind::Normal => NORMAL_DEATH_SCORE + depth * DEPTH_WEIGHT,
                DeathKind::Honourable => HONOURABLE_DEATH_SCORE + depth * DEPTH_WEIGHT,
            }
        } else if self.remaining_opponents == 0 && self.multisnake {
            WIN_SCORE - depth * DEPTH_WEIGHT
        } else {
            self.health * HEALTH_WEIGHT + self.length * LENGTH_WEIGHT - self.center_dist
                * CENTER_DIST_WEIGHT - self.remaining_opponents * REMAINING_OPPONENTS_WEIGHT
                + self.available_squares * AVAILABLE_SQUARES_WEIGHT + depth * DEPTH_WEIGHT
        }
    }

    pub open spec fn alive_spec(
        snake_id: SnakeID,
        health: i64,
        length: i64,
        center_dist: i64,
        remaining_opponents: i64,
        available_squares: i64,
        multisnake: bool,
    ) -> ScoreFactors {
        ScoreFactors {
            snake_id,
            health,
            length,
            center_dist,
            dead: false,
            death_kind: DeathKind::Normal,
            remaining_opponents,
            available_squares,
            multisnake,
        }
    }

    pub open spec fn dead_spec(snake_id: SnakeID, death_kind: DeathKind, multisnake: bool) -> ScoreFactors {
        ScoreFactors {
            snake_id,
            health: 0,
            length: 0,
            center_dist: 0,
            dead: true,
            death_kind,
            remaining_opponents: 0,
            available_squares: 0,
            multisnake,
        }
    }

    /// Factors of a snake that is still in the game.
    pub fn alive(
        snake_id: SnakeID,
        health: i64,
        length: i64,
        center_dist: i64,
        remaining_opponents: i64,
        available_squares: i64,
        multisnake: bool,
    ) -> (r: ScoreFactors)
        ensures
            r == Self::alive_spec(
                snake_id,
                health,
                length,
                center_dist,
                remaining_opponents,
                available_squares,
                multisnake,
            ),
    {
        ScoreFactors {
            snake_id,
            health,
            length,
            center_dist,
            dead: false,
            death_kind: DeathKind::Normal,
            remaining_opponents,
            available_squares,
            multisnake,
        }
    }

    /// Factors of a snake that has left the game.
    pub fn dead(snake_id: SnakeID, death_kind: DeathKind, multisnake: bool) -> (r: ScoreFactors)
        ensures
            r == Self::dead_spec(snake_id, death_kind, multisnake),
            r.wf(),
    {
        ScoreFactors {
            snake_id,
            health: 0,
            length: 0,
            center_dist: 0,
            dead: true,
            death_kind,
            remaining_opponents: 0,
            available_squares: 0,
            multisnake,
        }
    }

    /// The utility of these factors at search depth `depth`.
    pub fn calculate(&self, depth: u64) -> (r: i64)
        requires
            self.wf(),
            depth <= MAX_SCORE_DEPTH,
        ensures
            r == self.score_spec(depth as int),
    {
        let depth = depth as i64;
        if self.dead {
            match self.death_kind {
                DeathKind::Normal => NORMAL_DEATH_SCORE + depth * DEPTH_WEIGHT,
                DeathKind::Honourable => HONOURABLE_DEATH_SCORE + depth * DEPTH_WEIGHT,
            }
        } else if self.remaining_opponents == 0 && self.multisnake {
            WIN_SCORE - depth * DEPTH_WEIGHT
        } else {
            self.health * HEALTH_WEIGHT + self.length * LENGTH_WEIGHT - self.center_dist
                * CENTER_DIST_WEIGHT - self.remaining_opponents * REMAINING_OPPONENTS_WEIGHT
                + self.available_squares * AVAILABLE_SQUARES_WEIGHT + depth * DEPTH_WEIGHT
        }
    }
}

} // verus!
