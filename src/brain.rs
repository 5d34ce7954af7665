//! The multi-snake search: each snake in turn picks the move that is best
//! for itself, and the world advances once every snake has picked.

use std::collections::HashMap;
use std::time::{Duration, Instant};
use vstd::prelude::*;
use crate::clock::time_is_up;
use crate::evaluate::{contains_id, scores_wf, terminal_scores};
use crate::game::{deaths_spec, has_id, lemma_has_id_take, lemma_step_wf, step_spec, Game, GameModel, MAX_SNAKES};
use crate::memo::KnownScores;
use crate::score_factors::{DeathKind, ScoreFactors, MAX_SCORE_DEPTH};
use crate::snake::{SnakeID, ME};
use crate::types::Direction;

verus! {

broadcast use vstd::std_specs::hash::group_hash_axioms;

/// Scores of the snakes, by slot.
pub type BigbrainScores = HashMap<SnakeID, ScoreFactors>;

/// What a search node hands back: the scores of the line it settled on,
/// the direction chosen at the node (none where the search stopped), and the
/// depth at which that line ended.
pub struct BigbrainResult {
    pub scores: BigbrainScores,
    pub direction: Option<Direction>,
    pub depth: u64,
}

/// A search node's result as a value.
pub struct SearchModel {
    pub scores: Map<SnakeID, ScoreFactors>,
    pub direction: Option<Direction>,
    pub depth: int,
}

impl View for BigbrainResult {
    type V = SearchModel;

    open spec fn view(&self) -> SearchModel {
        SearchModel { scores: self.scores@, direction: self.direction, depth: self.depth as int }
    }
}

impl BigbrainResult {
    /// A result where the search stopped without choosing a direction.
    pub fn inner(scores: BigbrainScores, depth: u64) -> (r: BigbrainResult)
        ensures
            r.scores@ == scores@,
            r.direction.is_none(),
            r.depth == depth,
    {
        BigbrainResult { scores, direction: None, depth }
    }

    /// A result that chose `direction`.
    pub fn outer(scores: BigbrainScores, direction: Direction, depth: u64) -> (r: BigbrainResult)
        ensures
            r.scores@ == scores@,
            r.direction == Some(direction),
            r.depth == depth,
    {
        BigbrainResult { scores, direction: Some(direction), depth }
    }
}

/// How deep to search, and how long the whole search may take.
pub struct BigbrainOptions {
    pub max_depth: u64,
    pub time_limit: Duration,
}

/// The search stops after a turn that removed our own snake, that left at
/// most one snake in a game that began with several, or that reached the
/// deepest turn asked for.
pub open spec fn should_exit_spec(g: GameModel, depth: int, max_depth: int) -> bool {
    ||| !has_id(g.snakes, ME)
    ||| (g.multisnake && g.snakes.len() <= 1)
    ||| depth == max_depth
}

/// The snake that decides after the snake at `idx`.
pub open spec fn next_index(g: GameModel, idx: int) -> int {
    if idx + 1 < g.snakes.len() {
        idx + 1
    } else {
        0
    }
}

/// The depth of the next decision: one deeper once every snake has decided.
pub open spec fn next_depth(g: GameModel, idx: int, depth: int) -> int {
    if next_index(g, idx) == 0 {
        depth + 1
    } else {
        depth
    }
}

/// The utility for slot `id` of a result.
pub open spec fn own_score(r: SearchModel, id: SnakeID) -> int {
    r.scores[id].score_spec(r.depth)
}

/// A result in which slot `id` has a score, dead factors being filled in
/// when it had none.
pub open spec fn with_own_score(r: SearchModel, id: SnakeID, multisnake: bool) -> SearchModel {
    if r.scores.contains_key(id) {
        r
    } else {
        SearchModel {
            scores: r.scores.insert(id, ScoreFactors::dead_spec(id, DeathKind::Normal, multisnake)),
            direction: r.direction,
            depth: r.depth,
        }
    }
}

/// Dead factors for every snake of the game.
pub open spec fn all_dead_scores(g: GameModel) -> Map<SnakeID, ScoreFactors> {
    Map::new(
        |id: SnakeID| has_id(g.snakes, id),
        |id: SnakeID| ScoreFactors::dead_spec(id, DeathKind::Normal, g.multisnake),
    )
}

/// The arguments a search node can be asked about: a playable game, a snake
/// of it to decide, a depth within the limit (below it unless the node
/// closes a turn), and a direction for exactly the snakes that decided
/// earlier in the turn.
pub open spec fn node_ok(
    g: GameModel,
    idx: int,
    depth: int,
    moves: Map<SnakeID, Direction>,
    max_depth: int,
) -> bool {
    &&& g.wf()
    &&& 0 <= idx < g.snakes.len()
    &&& 1 <= max_depth <= MAX_SCORE_DEPTH
    &&& 0 <= depth <= max_depth
    &&& (depth < max_depth || (idx == 0 && depth > 0))
    &&& (idx == 0 && depth > 0 ==> g.complete_moves(moves))
    &&& (!(idx == 0 && depth > 0) ==> forall|id: SnakeID|
        #[trigger] moves.contains_key(id) <==> has_id(g.snakes.take(idx), id))
}

/// The result of the search node where the snake at `idx` decides at
/// `depth`, the snakes before it having chosen `moves`. A node that closes a
/// turn first advances the game and stops, with the final scores, where
/// `should_exit_spec` says so. (The fallbacks for arguments outside
/// `node_ok`, and for a game that a turn would leave unplayable, keep the
/// definition total; no node that `bigbrain` explores reaches them.)
pub open spec fn search(
    g: GameModel,
    idx: int,
    depth: int,
    moves: Map<SnakeID, Direction>,
    max_depth: int,
) -> SearchModel
    decreases max_depth - depth, MAX_SNAKES - idx, 2int, 0int,
{
    if !(g.wf() && 0 <= idx < g.snakes.len() && 0 <= depth <= max_depth) {
        SearchModel { scores: Map::empty(), direction: None, depth }
    } else if idx == 0 && depth > 0 {
        let n = step_spec(g, moves);
        if should_exit_spec(n, depth, max_depth) || !(n.wf() && n.snakes.len() > 0) {
            SearchModel { scores: terminal_scores(n, deaths_spec(g, moves)), direction: None, depth }
        } else {
            choose_move(n, 0, depth, Map::empty(), max_depth)
        }
    } else {
        choose_move(g, idx, depth, moves, max_depth)
    }
}

/// The snake at `idx` takes, among its legal directions in order, the first
/// one whose result scores strictly best for itself; with no legal
/// direction it goes up and every snake is scored dead.
pub open spec fn choose_move(
    g: GameModel,
    idx: int,
    depth: int,
    moves: Map<SnakeID, Direction>,
    max_depth: int,
) -> SearchModel
    decreases max_depth - depth, MAX_SNAKES - idx, 1int, 0int,
{
    if !(g.wf() && 0 <= idx < g.snakes.len() && 0 <= depth <= max_depth) {
        SearchModel { scores: Map::empty(), direction: None, depth }
    } else {
        let dirs = g.snakes[idx].legal_directions(g.board);
        match best_among(g, idx, depth, moves, max_depth, dirs.len() as int) {
            None => SearchModel { scores: all_dead_scores(g), direction: Some(Direction::Up), depth },
            Some((r, d)) => SearchModel { scores: r.scores, direction: Some(d), depth: r.depth },
        }
    }
}

/// The best result, for the snake at `idx`, among its first `n` legal
/// directions, with the direction that gave it; a later direction replaces
/// the best so far only when it scores strictly higher.
pub open spec fn best_among(
    g: GameModel,
    idx: int,
    depth: int,
    moves: Map<SnakeID, Direction>,
    max_depth: int,
    n: int,
) -> Option<(SearchModel, Direction)>
    decreases max_depth - depth, MAX_SNAKES - idx, 0int, n,
{
    if n <= 0 || !(g.wf() && 0 <= idx < g.snakes.len() && 0 <= depth <= max_depth) {
        None
    } else {
        let prev = best_among(g, idx, depth, moves, max_depth, n - 1);
        let s = g.snakes[idx];
        let d = s.legal_directions(g.board)[n - 1];
        let ni = next_index(g, idx);
        let nd = next_depth(g, idx, depth);
        if nd > max_depth {
            prev
        } else {
            let child = with_own_score(search(g, ni, nd, moves.insert(s.id, d), max_depth), s.id, g.multisnake);
            match prev {
                None => Some((child, d)),
                Some((b, bd)) => if own_score(child, s.id) > own_score(b, s.id) {
                    Some((child, d))
                } else {
                    prev
                },
            }
        }
    }
}

/// Whether the search stops after the turn that produced `game`.
pub fn should_exit(game: &Game, depth: u64, max_depth: u64) -> (r: bool)
    ensures
        r == should_exit_spec(game@, depth as int, max_depth as int),
{
    !contains_id(&game.snakes, ME) || (game.multisnake && game.snakes.len() <= 1) || depth == max_depth
}

/// Dead factors for every snake of the game.
fn dead_scores(game: &Game) -> (r: BigbrainScores)
    ensures
        r@ == all_dead_scores(game@),
        scores_wf(r@),
{
    let ghost g = game@;
    let mut scores: BigbrainScores = HashMap::new();
    let mut i: usize = 0;
    while i < game.snakes.len()
        invariant
            g == game@,
            i <= g.snakes.len(),
            scores@ == Map::new(
                |id: SnakeID| has_id(g.snakes.take(i as int), id),
                |id: SnakeID| ScoreFactors::dead_spec(id, DeathKind::Normal, g.multisnake),
            ),
            scores_wf(scores@),
        decreases g.snakes.len() - i,
    {
        let id = game.snakes[i].id;
        assert(g.snakes[i as int].id == id);
        let f = ScoreFactors::dead(id, DeathKind::Normal, game.multisnake);
        scores.insert(id, f);
        proof {
            let t = g.snakes.take(i + 1);
            let t0 = g.snakes.take(i as int);
            assert forall|x: SnakeID| has_id(t, x) == (has_id(t0, x) || x == id) by {
                if has_id(t, x) {
                    let k = choose|k: int| 0 <= k < t.len() && #[trigger] t[k].id == x;
                    if k < i {
                        assert(t0[k].id == x);
                    }
                }
                if has_id(t0, x) {
                    let k = choose|k: int| 0 <= k < t0.len() && #[trigger] t0[k].id == x;
                    assert(t[k].id == x);
                }
                if x == id {
                    assert(t[i as int].id == x);
                }
            }
            assert(scores@ =~= Map::new(
                |x: SnakeID| has_id(g.snakes.take(i + 1), x),
                |x: SnakeID| ScoreFactors::dead_spec(x, DeathKind::Normal, g.multisnake),
            ));
        }
        i += 1;
    }
    assert(g.snakes.take(i as int) =~= g.snakes);
    assert(scores@ =~= all_dead_scores(g));
    scores
}

fn copy_deaths(v: &Vec<(SnakeID, DeathKind)>) -> (r: Vec<(SnakeID, DeathKind)>)
    ensures
        r@ == v@,
{
    let mut r: Vec<(SnakeID, DeathKind)> = Vec::new();
    let mut i: usize = 0;
    while i < v.len()
        invariant
            i <= v@.len(),
            r@ == v@.take(i as int),
        decreases v@.len() - i,
    {
        let (id, kind) = v[i];
        r.push((id, kind));
        i += 1;
        assert(r@ =~= v@.take(i as int));
    }
    assert(r@ =~= v@);
    r
}

/// A search result as a value, together with the direction that gave it.
pub open spec fn best_view(b: Option<(BigbrainResult, Direction)>) -> Option<(SearchModel, Direction)> {
    match b {
        None => None,
        Some((r, d)) => Some((r@, d)),
    }
}

/// The search node where the snake at `snake_index` decides at `depth`, the
/// snakes before it in the turn having chosen `moves`. Final scores are
/// shared through `known_scores`. Returns `None` when the time limit,
/// measured from `start`, ran out during the search; otherwise exactly the
/// node's result as `search` gives it.
pub fn bigbrain(
    game: &Game,
    snake_index: usize,
    depth: u64,
    moves: &HashMap<SnakeID, Direction>,
    known_scores: &mut KnownScores,
    start: Instant,
    options: &BigbrainOptions,
) -> (r: Option<BigbrainResult>)
    requires
        node_ok(game@, snake_index as int, depth as int, moves@, options.max_depth as int),
        old(known_scores).wf(),
    ensures
        final(known_scores).wf(),
        forall|gm: GameModel, d: Seq<(SnakeID, DeathKind)>|
            #[trigger] old(known_scores).files(gm, d) ==> final(known_scores).files(gm, d),
        r matches Some(res) ==> {
            &&& res@ == search(game@, snake_index as int, depth as int, moves@, options.max_depth as int)
            &&& scores_wf(res.scores@)
            &&& res.depth <= options.max_depth
        },
    decreases options.max_depth - depth, MAX_SNAKES - snake_index,
{
    if time_is_up(&start, &options.time_limit) {
        return None;
    }
    let ghost g = game@;
    let ghost max = options.max_depth as int;
    let cur: Game;
    let cur_moves: HashMap<SnakeID, Direction>;
    if snake_index == 0 && depth > 0 {
        let (next, deaths) = game.step(moves);
        proof {
            lemma_step_wf(g, moves@);
        }
        if should_exit(&next, depth, options.max_depth) {
            let scores = match known_scores.lookup(&next, &deaths) {
                Some(found) => found,
                None => {
                    let computed = next.final_scores(&deaths);
                    known_scores.record(next.duplicate(), copy_deaths(&deaths), computed.clone());
                    computed
                },
            };
            return Some(BigbrainResult::inner(scores, depth));
        }
        proof {
            if next@.snakes.len() == 0 {
                assert(!has_id(next@.snakes, ME));
            }
        }
        cur = next;
        cur_moves = HashMap::new();
    } else {
        cur = game.duplicate();
        cur_moves = moves.clone();
    }
    let ghost cg = cur@;
    let ghost cm = cur_moves@;
    proof {
        if snake_index == 0 && depth > 0 {
            assert(cg == step_spec(g, moves@));
            assert(search(g, 0, depth as int, moves@, max) == choose_move(cg, 0, depth as int, Map::empty(), max));
            assert(cm == Map::<SnakeID, Direction>::empty());
        } else {
            assert(search(g, snake_index as int, depth as int, moves@, max) == choose_move(cg, snake_index as int, depth as int, cm, max));
        }
    }
    let snake = &cur.snakes[snake_index];
    assert(cg.snakes[snake_index as int] == snake@);
    let id = snake.id;
    let dirs = snake.possible_directions(&cur.board);
    let next_snake_index: usize = if snake_index + 1 < cur.snakes.len() { snake_index + 1 } else { 0 };
    let next_search_depth: u64 = if next_snake_index == 0 { depth + 1 } else { depth };
    let mut best: Option<(BigbrainResult, Direction)> = None;
    let mut k: usize = 0;
    while k < dirs.len()
        invariant
            cg == cur@,
            cm == cur_moves@,
            cg.wf(),
            snake_index < cg.snakes.len(),
            id == cg.snakes[snake_index as int].id,
            dirs@ == cg.snakes[snake_index as int].legal_directions(cg.board),
            next_snake_index as int == next_index(cg, snake_index as int),
            next_search_depth as int == next_depth(cg, snake_index as int, depth as int),
            next_search_depth <= options.max_depth,
            max == options.max_depth as int,
            1 <= max <= MAX_SCORE_DEPTH,
            depth < max,
            forall|x: SnakeID| #[trigger] cm.contains_key(x) <==> has_id(cg.snakes.take(snake_index as int), x),
            k <= dirs@.len(),
            known_scores.wf(),
            forall|gm: GameModel, dd: Seq<(SnakeID, DeathKind)>|
                #[trigger] old(known_scores).files(gm, dd) ==> known_scores.files(gm, dd),
            best_view(best) == best_among(cg, snake_index as int, depth as int, cm, max, k as int),
            best matches Some((b, bd)) ==> scores_wf(b.scores@) && b.depth <= options.max_depth && b.scores@.contains_key(id),
        decreases dirs@.len() - k,
    {
        let d = dirs[k];
        let mut child_moves = cur_moves.clone();
        child_moves.insert(id, d);
        proof {
            assert(child_moves@ == cm.insert(id, d));
            assert forall|x: SnakeID| #[trigger] child_moves@.contains_key(x) <==> has_id(cg.snakes.take(snake_index + 1), x) by {
                lemma_has_id_take(cg.snakes, snake_index as int, x);
            }
            if next_snake_index == 0 {
                assert(cg.snakes.take(snake_index + 1) =~= cg.snakes);
                assert forall|j: int| 0 <= j < cg.snakes.len() implies child_moves@.contains_key(#[trigger] cg.snakes[j].id) by {
                    assert(has_id(cg.snakes, cg.snakes[j].id));
                }
            }
        }
        let res = bigbrain(&cur, next_snake_index, next_search_depth, &child_moves, known_scores, start, options);
        let mut res = match res {
            None => return None,
            Some(r) => r,
        };
        if !res.scores.contains_key(&id) {
            res.scores.insert(id, ScoreFactors::dead(id, DeathKind::Normal, cur.multisnake));
        }
        let ghost child = res@;
        assert(child == with_own_score(search(cg, next_snake_index as int, next_search_depth as int, cm.insert(id, d), max), id, cg.multisnake));
        best = match best {
            None => Some((res, d)),
            Some((b, bd)) => {
                let new_score = match res.scores.get(&id) {
                    Some(f) => f.calculate(res.depth),
                    None => 0,
                };
                let old_score = match b.scores.get(&id) {
                    Some(f) => f.calculate(b.depth),
                    None => 0,
                };
                if new_score > old_score {
                    Some((res, d))
                } else {
                    Some((b, bd))
                }
            },
        };
        k += 1;
    }
    assert(dirs@.len() as int == dirs@.len());
    match best {
        None => {
            let scores = dead_scores(&cur);
            Some(BigbrainResult::outer(scores, Direction::Up, depth))
        },
        Some((b, d)) => Some(BigbrainResult::outer(b.scores, d, b.depth)),
    }
}

} // verus!
