//! A snake as the search sees it: a stable slot, a body and its health.

use std::collections::VecDeque;
use vstd::prelude::*;
use crate::board::Board;
use crate::types::{
    lemma_no_turn_onto_neck, all_directions, between_spec, neighbour_spec, opposite_spec, Coord,
    Direction,
};

verus! {

/// Position of a snake in the game's list when the game was built; slot
/// `ME` is the snake the search plays for.
pub type SnakeID = usize;

/// The slot of the snake the search plays for.
pub const ME: SnakeID = 0;

/// The most segments, counted together with the food on the board, that a
/// body may have.
pub const MAX_LEN: usize = 1_000_000_000;

/// The largest health magnitude a snake may carry.
pub const MAX_ABS_HEALTH: i64 = 1_000_000_000;

/// A snake's value: slot, body front (head) to back (tail), and health.
pub struct SnakeModel {
    pub id: SnakeID,
    pub body: Seq<Coord>,
    pub health: i64,
}

impl SnakeModel {
    pub open spec fn head(self) -> Coord {
        self.body[0]
    }

    /// Non-empty body lying on the board, health within range.
    pub open spec fn wf_on(self, board: Board) -> bool {
        &&& self.body.len() >= 1
        &&& forall|k: int| 0 <= k < self.body.len() ==> board.contains_spec(#[trigger] self.body[k])
        &&& -MAX_ABS_HEALTH <= self.health <= MAX_ABS_HEALTH
    }

    /// The direction the snake last moved in, read from head and neck.
    pub open spec fn facing_spec(self) -> Option<Direction> {
        between_spec(self.body[1], self.body[0])
    }

    /// Moving in `d` stays on the board and does not turn back onto the
    /// neck (whenever there is a neck to turn back onto).
    pub open spec fn is_legal(self, board: Board, d: Direction) -> bool {
        &&& board.contains_spec(neighbour_spec(self.head(), d))
        &&& !(self.body.len() >= 2 && self.facing_spec() == Some(opposite_spec(d)))
    }

    /// The legal directions, in the order left, right, up, down.
    pub open spec fn legal_directions(self, board: Board) -> Seq<Direction> {
        all_directions().filter(|d: Direction| self.is_legal(board, d))
    }
}

/// A snake on the board; the body runs from head (front) to tail (back).
#[derive(Debug)]
pub struct Snake {
    pub id: SnakeID,
    pub body: VecDeque<Coord>,
    pub health: i64,
}

impl View for Snake {
    type V = SnakeModel;

    open spec fn view(&self) -> SnakeModel {
        SnakeModel { id: self.id, body: self.body@, health: self.health }
    }
}

impl PartialEq for Snake {
    /// Two snakes are the same snake when they hold the same slot.
    fn eq(&self, other: &Snake) -> (r: bool) {
        self.id == other.id
    }
}

impl vstd::std_specs::cmp::PartialEqSpecImpl for Snake {
    open spec fn obeys_eq_spec() -> bool {
        true
    }

    open spec fn eq_spec(&self, other: &Snake) -> bool {
        self.id == other.id
    }
}

impl Snake {
    /// An exact copy of the snake.
    pub fn duplicate(&self) -> (r: Snake)
        ensures
            r@ == self@,
    {
        let mut body: VecDeque<Coord> = VecDeque::new();
        let mut k: usize = 0;
        while k < self.body.len()
            invariant
                k <= self.body@.len(),
                body@ == self.body@.take(k as int),
            decreases self.body@.len() - k,
        {
            body.push_back(self.body[k]);
            k += 1;
            assert(body@ =~= self.body@.take(k as int));
        }
        assert(body@ =~= self.body@);
        Snake { id: self.id, body, health: self.health }
    }

    /// The direction from the neck to the head.
    pub fn facing(&self) -> (r: Option<Direction>)
        requires
            self.body@.len() >= 2,
            i64::MIN < self.body@[0].x - self.body@[1].x <= i64::MAX,
            i64::MIN < self.body@[0].y - self.body@[1].y <= i64::MAX,
        ensures
            r == self@.facing_spec(),
    {
        Direction::between(&self.body[1], &self.body[0])
    }

    /// The directions the snake may take this turn: on the board, and not
    /// back onto its own neck.
    pub fn possible_directions(&self, board: &Board) -> (r: Vec<Direction>)
        requires
            board.wf(),
            self@.wf_on(*board),
        ensures
            r@ == self@.legal_directions(*board),
            forall|i: int|
                0 <= i < r@.len() ==> board.contains_spec(neighbour_spec(self@.head(), #[trigger] r@[i])),
            forall|i: int|
                #![trigger r@[i]]
                0 <= i < r@.len() && self.body@.len() >= 2 && self@.facing_spec() is Some
                    ==> r@[i] != opposite_spec(self@.facing_spec()->0),
            forall|i: int|
                #![trigger r@[i]]
                0 <= i < r@.len() && self.body@.len() >= 2 && crate::flood::adjacent(self.body@[0], self.body@[1])
                    ==> neighbour_spec(self.body@[0], r@[i]) != self.body@[1],
    {
        let all = Direction::iter();
        let facing = if self.body.len() >= 2 {
            assert(board.contains_spec(self.body@[0]) && board.contains_spec(self.body@[1]));
            self.facing()
        } else {
            None
        };
        let mut r: Vec<Direction> = Vec::new();
        let mut k: usize = 0;
        let ghost p = |d: Direction| self@.is_legal(*board, d);
        while k < all.len()
            invariant
                k <= all@.len(),
                all@ == all_directions(),
                r@ == all@.take(k as int).filter(p),
                p == (|d: Direction| self@.is_legal(*board, d)),
                self.body@.len() >= 2 ==> facing == self@.facing_spec(),
                self.body@.len() < 2 ==> facing.is_none(),
                board.wf(),
                self@.wf_on(*board),
            decreases all@.len() - k,
        {
            let d = all[k];
            let head = self.body[0];
            let next = head.neighbour(d);
            let reverses = match facing {
                Some(f) => f.opposite() == d,
                None => false,
            };
            proof {
                assert(all@.take(k + 1) =~= all@.take(k as int).push(d));
                all@.take(k as int).lemma_filter_push(d, p);
            }
            if !reverses && board.contains(next) {
                r.push(d);
            }
            k += 1;
        }
        assert(all@.take(4) =~= all@);
        proof {
            assert forall|i: int| 0 <= i < r@.len() implies p(#[trigger] r@[i]) by {
                all@.lemma_filter_pred(p, i);
            }
            if self.body@.len() >= 2 && crate::flood::adjacent(self.body@[0], self.body@[1]) {
                assert forall|i: int| 0 <= i < r@.len() implies neighbour_spec(self.body@[0], #[trigger] r@[i]) != self.body@[1] by {
                    assert(p(r@[i]));
                    lemma_no_turn_onto_neck(self.body@[1], self.body@[0], r@[i]);
                }
            }
        }
        r
    }
}

} // verus!
