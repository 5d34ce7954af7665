//! Random starting positions for measuring the search.

use std::collections::VecDeque;
use rand::rngs::ThreadRng;
use rand::Rng;
use vstd::prelude::*;
use crate::board::{Board, MAX_DIM};
use crate::game::{snakes_view, Game};
use crate::snake::{Snake, SnakeID, SnakeModel};
use crate::types::Coord;

verus! {

/// `rand::rngs::ThreadRng`, carried through as an opaque value.
#[verifier::external_type_specification]
#[verifier::external_body]
pub struct ExThreadRng(rand::rngs::ThreadRng);

/// Relies on `rand::thread_rng`: a handle on the thread's random number
/// generator.
#[verifier::external_body]
fn random_source() -> ThreadRng {
    rand::thread_rng()
}

/// Relies on `rand::Rng::gen_range`: a value drawn from `low..high`, which
/// must not be empty (the call panics on an empty range).
#[verifier::external_body]
fn draw(rng: &mut ThreadRng, low: i64, high: i64) -> (r: i64)
    requires
        low < high,
    ensures
        low <= r < high,
{
    rng.gen_range(low..high)
}

/// The starting snake of slot `id` among `num_players`: a vertical line in
/// its own column, from `y = 2` up to `y = board_height - 3`, full health.
pub open spec fn start_snake(id: int, board_width: int, board_height: int, num_players: int) -> SnakeModel {
    let spacing = board_width / num_players;
    let x = spacing / 2 + spacing * id;
    SnakeModel {
        id: id as SnakeID,
        body: Seq::new(
            (if board_height > 4 { board_height - 4 } else { 0 }) as nat,
            |k: int| Coord { x: x as i64, y: (2 + k) as i64 },
        ),
        health: 100,
    }
}

/// The starting snake of slot `id` among `num_players`.
pub fn make_snake(id: SnakeID, board_width: i64, board_height: i64, num_players: u64) -> (r: Snake)
    requires
        1 <= board_width <= MAX_DIM,
        1 <= board_height <= MAX_DIM,
        id < num_players <= MAX_DIM,
    ensures
        r@ == start_snake(id as int, board_width as int, board_height as int, num_players as int),
{
    let n = num_players as i64;
    let spacing = board_width / n;
    let offset = spacing / 2;
    assert(0 <= spacing * (id as int) <= board_width) by (nonlinear_arith)
        requires
            spacing == board_width / n,
            0 <= id < n,
            1 <= board_width,
            n >= 1,
    {
        assert(spacing * n <= board_width);
        assert(spacing * (id as int) <= spacing * n);
    }
    let xpos = offset + spacing * (id as i64);
    let mut body: VecDeque<Coord> = VecDeque::new();
    let mut y: i64 = 2;
    while y < board_height - 2
        invariant
            2 <= y,
            y <= board_height - 2 || y == 2,
            1 <= board_height <= MAX_DIM,
            body@ == Seq::new((y - 2) as nat, |k: int| Coord { x: xpos, y: (2 + k) as i64 }),
        decreases board_height - y,
    {
        body.push_back(Coord { x: xpos, y });
        y += 1;
        assert(body@ =~= Seq::new((y - 2) as nat, |k: int| Coord { x: xpos, y: (2 + k) as i64 }));
    }
    let r = Snake { id, body, health: 100 };
    assert(r@.body =~= start_snake(id as int, board_width as int, board_height as int, num_players as int).body);
    r
}

/// A game of `num_players` starting snakes side by side on a
/// `board_width` by `board_height` board, with up to four food cells placed
/// at random and no hazards.
pub fn make_game(num_players: u64, board_width: i64, board_height: i64) -> (r: Game)
    requires
        1 <= board_width <= MAX_DIM,
        1 <= board_height <= MAX_DIM,
        num_players <= MAX_DIM,
    ensures
        r@.snakes == Seq::new(
            num_players as nat,
            |i: int| start_snake(i, board_width as int, board_height as int, num_players as int),
        ),
        r@.prev_snakes == r@.snakes,
        r@.food.len() <= 4,
        forall|i: int| 0 <= i < r@.food.len() ==> r.board.contains_spec(#[trigger] r@.food[i]),
        r@.prev_food == r@.food,
        r@.hazards.len() == 0,
        r.board == (Board { width: board_width, height: board_height }),
        r.multisnake == (num_players > 1),
{
    let mut rng = random_source();
    let mut snakes: Vec<Snake> = Vec::new();
    let mut i: u64 = 0;
    while i < num_players
        invariant
            i <= num_players <= MAX_DIM,
            1 <= board_width <= MAX_DIM,
            1 <= board_height <= MAX_DIM,
            snakes_view(snakes@) == Seq::new(
                i as nat,
                |j: int| start_snake(j, board_width as int, board_height as int, num_players as int),
            ),
        decreases num_players - i,
    {
        let s = make_snake(i as SnakeID, board_width, board_height, num_players);
        proof {
            assert(snakes_view(snakes@.push(s)) =~= snakes_view(snakes@).push(s@));
        }
        snakes.push(s);
        i += 1;
        assert(snakes_view(snakes@) =~= Seq::new(
            i as nat,
            |j: int| start_snake(j, board_width as int, board_height as int, num_players as int),
        ));
    }
    let food_end = draw(&mut rng, 0, 10);
    let mut food: Vec<Coord> = Vec::new();
    let mut k: i64 = 5;
    while k < food_end
        invariant
            5 <= k,
            k <= food_end || k == 5,
            food_end < 10,
            food@.len() == k - 5,
            1 <= board_width,
            1 <= board_height,
            forall|j: int| 0 <= j < food@.len() ==> 0 <= (#[trigger] food@[j]).x < board_width && 0 <= food@[j].y < board_height,
        decreases food_end - k,
    {
        let x = draw(&mut rng, 0, board_width);
        let y = draw(&mut rng, 0, board_height);
        food.push(Coord { x, y });
        k += 1;
    }
    let board = Board { width: board_width, height: board_height };
    Game::new(snakes, food, Vec::new(), board)
}

} // verus!
