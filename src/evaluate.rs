//! The evaluator: the factors of one snake's position after a turn, and the
//! scores of every snake when the search stops.

use std::collections::HashMap;
use vstd::prelude::*;
use crate::board::{Board, MAX_DIM};
use crate::flood::{flood_fill, lemma_enclosed_fill, lemma_fill_bounded, lemma_open_but_seed_fill, open_cell, reachable_set};
use crate::game::{body_covers, calculate_free_space, has_id, occupied, snakes_view, Game, GameModel};
use crate::score_factors::{DeathKind, ScoreFactors};
use crate::snake::{Snake, SnakeID, SnakeModel, MAX_LEN};
use crate::types::{manhattan_distance, manhattan_spec, neighbour_spec, Coord, Direction};

verus! {

broadcast use vstd::std_specs::hash::group_hash_axioms;

/// Reachable squares are only counted in games of at most this many snakes.
pub const MAX_SNAKES_FOR_SQUARES: usize = 4;

/// The centre cell of the board.
pub open spec fn center_of(board: Board) -> Coord {
    Coord { x: (board.width / 2) as i64, y: (board.height / 2) as i64 }
}

/// The free-space map of a game: cells not under a snake's body past its
/// head and not a hazard.
pub open spec fn free_map(g: GameModel) -> Seq<bool> {
    Seq::new(g.board.area() as nat, |k: int| !exists|c: Coord| g.board.contains_spec(c) && g.board.index_of(c) == k && occupied(g.snakes, g.hazards, c))
}

/// The cells `s` can still reach in `g`, counted only when the game has at
/// most `MAX_SNAKES_FOR_SQUARES` snakes.
pub open spec fn available_squares_spec(g: GameModel, s: SnakeModel) -> int {
    if g.snakes.len() <= MAX_SNAKES_FOR_SQUARES {
        reachable_set(free_map(g), g.board, s.head()).len() as int
    } else {
        0
    }
}

/// The evaluator's factors for snake `s` in game `g`; a snake that is not
/// in the game gets dead factors of kind `kind`.
pub open spec fn score_spec(g: GameModel, s: SnakeModel, kind: DeathKind) -> ScoreFactors {
    if !has_id(g.snakes, s.id) {
        ScoreFactors::dead_spec(s.id, kind, g.multisnake)
    } else {
        ScoreFactors::alive_spec(
            s.id,
            s.health,
            s.body.len() as i64,
            manhattan_spec(s.head(), center_of(g.board)) as i64,
            (g.snakes.len() - 1) as i64,
            available_squares_spec(g, s) as i64,
            g.multisnake,
        )
    }
}

/// Two free-space maps that agree on every cell of the board are the same.
proof fn lemma_free_map(g: GameModel, free: Seq<bool>)
    requires
        g.board.wf(),
        free.len() == g.board.area(),
        forall|c: Coord|
            g.board.contains_spec(c) ==> #[trigger] free[g.board.index_of(c)] == !occupied(g.snakes, g.hazards, c),
    ensures
        free == free_map(g),
{
    let b = g.board;
    b.lemma_area_bounded();
    assert forall|k: int| 0 <= k < free.len() implies free[k] == #[trigger] free_map(g)[k] by {
        let w = b.width as int;
        vstd::arithmetic::div_mod::lemma_fundamental_div_mod(k, w);
        let c = Coord { x: (k % w) as i64, y: (k / w) as i64 };
        assert(0 <= k % w < w) by (nonlinear_arith)
            requires
                w > 0,
        ;
        assert(0 <= k / w < b.height) by (nonlinear_arith)
            requires
                w > 0,
                0 <= k < w * b.height,
                k == w * (k / w) + k % w,
                0 <= k % w < w,
        ;
        assert(b.index_of(c) == k) by (nonlinear_arith)
            requires
                k == w * (k / w) + k % w,
                c.x == k % w,
                c.y == k / w,
                b.index_of(c) == c.y * w + c.x,
        ;
        assert(b.contains_spec(c));
        assert(free[b.index_of(c)] == !occupied(g.snakes, g.hazards, c));
        if exists|c2: Coord| b.contains_spec(c2) && b.index_of(c2) == k && occupied(g.snakes, g.hazards, c2) {
            let c2 = choose|c2: Coord| b.contains_spec(c2) && b.index_of(c2) == k && occupied(g.snakes, g.hazards, c2);
            b.lemma_index_injective(c, c2);
        }
    }
    assert(free =~= free_map(g));
}

/// Whether a snake with slot `id` is in `snakes`.
pub fn contains_id(snakes: &Vec<Snake>, id: SnakeID) -> (r: bool)
    ensures
        r == has_id(snakes_view(snakes@), id),
{
    let ghost v = snakes_view(snakes@);
    let mut j: usize = 0;
    while j < snakes.len()
        invariant
            v == snakes_view(snakes@),
            j <= snakes@.len(),
            forall|jj: int| 0 <= jj < j ==> (#[trigger] v[jj]).id != id,
        decreases snakes@.len() - j,
    {
        assert(v[j as int] == snakes@[j as int]@);
        if snakes[j].id == id {
            assert(v[j as int].id == id);
            return true;
        }
        j += 1;
    }
    false
}

impl Game {
    /// The evaluator's factors for `snake` in this game: dead factors of
    /// kind `death_kind` when no snake of its slot is left, otherwise its
    /// health, length, distance to the centre, number of opponents and, in
    /// games of at most four snakes, the number of cells it can reach.
    pub fn score(&self, snake: &Snake, death_kind: DeathKind) -> (r: ScoreFactors)
        requires
            self@.wf(),
            snake@.wf_on(self.board),
            snake.body@.len() <= MAX_LEN,
        ensures
            r == score_spec(self@, snake@, death_kind),
            r.wf(),
    {
        if !contains_id(&self.snakes, snake.id) {
            return ScoreFactors::dead(snake.id, death_kind, self.multisnake);
        }
        let head = snake.body[0];
        let center = Coord { x: self.board.width / 2, y: self.board.height / 2 };
        let center_dist = manhattan_distance(head, center);
        let available_squares: i64 = if self.snakes.len() <= MAX_SNAKES_FOR_SQUARES {
            let free = calculate_free_space(&self.snakes, &self.hazards, &self.board);
            proof {
                lemma_free_map(self@, free@);
                lemma_fill_bounded(free@, self.board, head);
                self.board.lemma_area_bounded();
            }
            flood_fill(&free, &self.board, head) as i64
        } else {
            0
        };
        proof {
            let j = choose|j: int| 0 <= j < self@.snakes.len() && #[trigger] self@.snakes[j].id == snake.id;
            assert(manhattan_spec(head, center) <= 4 * MAX_DIM);
        }
        ScoreFactors::alive(
            snake.id,
            snake.health,
            snake.body.len() as i64,
            center_dist,
            (self.snakes.len() - 1) as i64,
            available_squares,
            self.multisnake,
        )
    }
}

/// The snake of `s` with slot `id`.
pub open spec fn snake_with_id(s: Seq<SnakeModel>, id: SnakeID) -> SnakeModel {
    s[choose|i: int| 0 <= i < s.len() && #[trigger] s[i].id == id]
}

/// The kind of death recorded first for slot `id`, normal when none is.
pub open spec fn kind_of(deaths: Seq<(SnakeID, DeathKind)>, id: SnakeID) -> DeathKind
    decreases deaths.len(),
{
    if deaths.len() == 0 {
        DeathKind::Normal
    } else if deaths[0].0 == id {
        deaths[0].1
    } else {
        kind_of(deaths.drop_first(), id)
    }
}

/// The scores when the search stops after a turn: the evaluator's factors
/// for every snake still in the game, and dead factors, of the kind the
/// turn recorded, for every snake that was in it before the turn.
pub open spec fn terminal_scores(g: GameModel, deaths: Seq<(SnakeID, DeathKind)>) -> Map<SnakeID, ScoreFactors> {
    Map::new(
        |id: SnakeID| has_id(g.snakes, id) || has_id(g.prev_snakes, id),
        |id: SnakeID|
            if has_id(g.snakes, id) {
                score_spec(g, snake_with_id(g.snakes, id), DeathKind::Normal)
            } else {
                ScoreFactors::dead_spec(id, kind_of(deaths, id), g.multisnake)
            },
    )
}

/// Every factor set of a score map can be turned into a utility.
pub open spec fn scores_wf(m: Map<SnakeID, ScoreFactors>) -> bool {
    forall|id: SnakeID| #[trigger] m.contains_key(id) ==> m[id].wf()
}

/// The kind of death recorded first for slot `id`, normal when none is.
pub fn death_kind_for(deaths: &Vec<(SnakeID, DeathKind)>, id: SnakeID) -> (r: DeathKind)
    ensures
        r == kind_of(deaths@, id),
{
    let mut j: usize = 0;
    assert(deaths@.skip(0) =~= deaths@);
    while j < deaths.len()
        invariant
            j <= deaths@.len(),
            kind_of(deaths@, id) == kind_of(deaths@.skip(j as int), id),
        decreases deaths@.len() - j,
    {
        let (k, kind) = deaths[j];
        if k == id {
            return kind;
        }
        assert(deaths@.skip(j as int)[0] == deaths@[j as int]);
        assert(deaths@.skip(j as int).drop_first() =~= deaths@.skip(j + 1));
        j += 1;
    }
    assert(deaths@.skip(j as int).len() == 0);
    DeathKind::Normal
}

impl Game {
    /// The scores of every snake when the search stops after the turn that
    /// produced this game and eliminated `deaths`.
    pub fn final_scores(&self, deaths: &Vec<(SnakeID, DeathKind)>) -> (r: HashMap<SnakeID, ScoreFactors>)
        requires
            self@.wf(),
        ensures
            r@ == terminal_scores(self@, deaths@),
            scores_wf(r@),
    {
        let ghost g = self@;
        let mut scores: HashMap<SnakeID, ScoreFactors> = HashMap::new();
        let mut i: usize = 0;
        while i < self.snakes.len()
            invariant
                g == self@,
                g.wf(),
                i <= g.snakes.len(),
                scores@ == Map::new(
                    |id: SnakeID| has_id(g.snakes.take(i as int), id),
                    |id: SnakeID| score_spec(g, snake_with_id(g.snakes, id), DeathKind::Normal),
                ),
                scores_wf(scores@),
            decreases g.snakes.len() - i,
        {
            let s = &self.snakes[i];
            assert(g.snakes[i as int] == s@);
            assert(s@.wf_on(self.board) && s.body@.len() <= MAX_LEN);
            let f = self.score(s, DeathKind::Normal);
            proof {
                assert(snake_with_id(g.snakes, s.id) == s@) by {
                    let k = choose|k: int| 0 <= k < g.snakes.len() && #[trigger] g.snakes[k].id == s.id;
                    assert(g.snakes[i as int].id == s.id);
                    if k < i {
                        assert(g.snakes[k].id < g.snakes[i as int].id);
                    } else if k > i {
                        assert(g.snakes[i as int].id < g.snakes[k].id);
                    }
                }
            }
            scores.insert(s.id, f);
            proof {
                let t = g.snakes.take(i + 1);
                let t0 = g.snakes.take(i as int);
                assert forall|id: SnakeID| has_id(t, id) == (has_id(t0, id) || id == s.id) by {
                    if has_id(t, id) {
                        let k = choose|k: int| 0 <= k < t.len() && #[trigger] t[k].id == id;
                        if k < i {
                            assert(t0[k].id == id);
                        }
                    }
                    if has_id(t0, id) {
                        let k = choose|k: int| 0 <= k < t0.len() && #[trigger] t0[k].id == id;
                        assert(t[k].id == id);
                    }
                    if id == s.id {
                        assert(t[i as int].id == id);
                    }
                }
                assert(scores@ =~= Map::new(
                    |id: SnakeID| has_id(g.snakes.take(i + 1), id),
                    |id: SnakeID| score_spec(g, snake_with_id(g.snakes, id), DeathKind::Normal),
                ));
            }
            i += 1;
        }
        assert(g.snakes.take(i as int) =~= g.snakes);
        let mut j: usize = 0;
        while j < self.prev_snakes.len()
            invariant
                g == self@,
                g.wf(),
                j <= g.prev_snakes.len(),
                scores@ == Map::new(
                    |id: SnakeID| has_id(g.snakes, id) || has_id(g.prev_snakes.take(j as int), id),
                    |id: SnakeID|
                        if has_id(g.snakes, id) {
                            score_spec(g, snake_with_id(g.snakes, id), DeathKind::Normal)
                        } else {
                            ScoreFactors::dead_spec(id, kind_of(deaths@, id), g.multisnake)
                        },
                ),
                scores_wf(scores@),
            decreases g.prev_snakes.len() - j,
        {
            let id = self.prev_snakes[j].id;
            assert(g.prev_snakes[j as int].id == id);
            let ghost t = g.prev_snakes.take(j + 1);
            let ghost t0 = g.prev_snakes.take(j as int);
            proof {
                assert forall|x: SnakeID| has_id(t, x) == (has_id(t0, x) || x == id) by {
                    if has_id(t, x) {
                        let k = choose|k: int| 0 <= k < t.len() && #[trigger] t[k].id == x;
                        if k < j {
                            assert(t0[k].id == x);
                        }
                    }
                    if has_id(t0, x) {
                        let k = choose|k: int| 0 <= k < t0.len() && #[trigger] t0[k].id == x;
                        assert(t[k].id == x);
                    }
                    if x == id {
                        assert(t[j as int].id == x);
                    }
                }
            }
            if !scores.contains_key(&id) {
                let kind = death_kind_for(deaths, id);
                let f = ScoreFactors::dead(id, kind, self.multisnake);
                scores.insert(id, f);
            }
            proof {
                assert(scores@ =~= Map::new(
                    |x: SnakeID| has_id(g.snakes, x) || has_id(g.prev_snakes.take(j + 1), x),
                    |x: SnakeID|
                        if has_id(g.snakes, x) {
                            score_spec(g, snake_with_id(g.snakes, x), DeathKind::Normal)
                        } else {
                            ScoreFactors::dead_spec(x, kind_of(deaths@, x), g.multisnake)
                        },
                ));
            }
            j += 1;
        }
        assert(g.prev_snakes.take(j as int) =~= g.prev_snakes);
        assert(scores@ =~= terminal_scores(g, deaths@));
        scores
    }
}

/// The free-space map of a game marks a cell of the board free exactly when
/// it is not occupied.
pub proof fn lemma_free_map_at(g: GameModel, c: Coord)
    requires
        g.board.wf(),
        g.board.contains_spec(c),
    ensures
        free_map(g)[g.board.index_of(c)] == !occupied(g.snakes, g.hazards, c),
{
    let b = g.board;
    b.lemma_index_in_range(c);
    let k = b.index_of(c);
    if exists|c2: Coord| b.contains_spec(c2) && b.index_of(c2) == k && occupied(g.snakes, g.hazards, c2) {
        let c2 = choose|c2: Coord| b.contains_spec(c2) && b.index_of(c2) == k && occupied(g.snakes, g.hazards, c2);
        b.lemma_index_injective(c, c2);
    }
}

/// A lone snake whose segments are all stacked on its head, on a board
/// without hazards, can reach every cell of the board.
pub proof fn lemma_open_board_squares(g: GameModel)
    requires
        g.wf(),
        g.snakes.len() == 1,
        g.hazards.len() == 0,
        forall|k: int| 0 <= k < g.snakes[0].body.len() ==> #[trigger] g.snakes[0].body[k] == g.snakes[0].head(),
    ensures
        available_squares_spec(g, g.snakes[0]) == g.board.width * g.board.height,
{
    let s = g.snakes[0];
    let b = g.board;
    assert(s.wf_on(b));
    assert forall|x: Coord| b.contains_spec(x) && x != s.head() implies #[trigger] open_cell(free_map(g), b, x) by {
        lemma_free_map_at(g, x);
        if body_covers(g.snakes, x) {
            let (i, k) = choose|i: int, k: int| 0 <= i < g.snakes.len() && 1 <= k < g.snakes[i].body.len() && #[trigger] g.snakes[i].body[k] == x;
            assert(i == 0);
        }
    }
    lemma_open_but_seed_fill(free_map(g), b, s.head());
}

/// A snake of a game with at most four snakes whose every neighbouring cell
/// on the board is occupied can reach only its own head cell.
pub proof fn lemma_enclosed_squares(g: GameModel, i: int)
    requires
        g.wf(),
        0 <= i < g.snakes.len(),
        g.snakes.len() <= MAX_SNAKES_FOR_SQUARES,
        forall|d: Direction|
            g.board.contains_spec(#[trigger] neighbour_spec(g.snakes[i].head(), d)) ==> occupied(
                g.snakes,
                g.hazards,
                neighbour_spec(g.snakes[i].head(), d),
            ),
    ensures
        available_squares_spec(g, g.snakes[i]) == 1,
{
    let h = g.snakes[i].head();
    assert forall|d: Direction| !open_cell(free_map(g), g.board, #[trigger] neighbour_spec(h, d)) by {
        if g.board.contains_spec(neighbour_spec(h, d)) {
            lemma_free_map_at(g, neighbour_spec(h, d));
        }
    }
    lemma_enclosed_fill(free_map(g), g.board, h);
}

} // verus!
