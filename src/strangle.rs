//! The strategy: build the game from a turn's snapshot, then deepen the
//! search turn by turn until the time runs out.

use std::collections::{HashMap, VecDeque};
use std::time::{Duration, Instant};
use vstd::prelude::*;
use crate::board::{Board, MAX_DIM};
use crate::brain::{bigbrain, search, BigbrainOptions, BigbrainResult, SearchModel};
use crate::clock::{from_millis, now, time_is_up};
use crate::game::{snakes_view, Game, GameModel, MAX_SNAKES};
use crate::memo::KnownScores;
use crate::score_factors::MAX_SCORE_DEPTH;
use crate::snake::{Snake, SnakeID, SnakeModel, MAX_ABS_HEALTH, MAX_LEN, ME};
use crate::types::{Coord, Direction};

verus! {

broadcast use vstd::std_specs::hash::group_hash_axioms;

/// How long one decision may take, in milliseconds.
pub const TIME_LIMIT_MS: u64 = 400;

/// One snake of a turn's snapshot.
pub struct SnakeInfo {
    pub id: String,
    pub body: Vec<Coord>,
    pub health: i64,
}

/// A decoded turn: the board, food and hazard cells, every snake, and the
/// identifier of the snake we play.
pub struct Snapshot {
    pub width: i64,
    pub height: i64,
    pub food: Vec<Coord>,
    pub hazards: Vec<Coord>,
    pub snakes: Vec<SnakeInfo>,
    pub you: String,
}

/// Why no direction could be chosen.
#[derive(Debug, Clone, Copy, PartialEq, Eq, Structural)]
pub enum MoveError {
    /// Our own identifier is not among the snakes.
    MissingSelf,
    /// A snake has no body.
    EmptyBody,
    /// The board is too large, a snake or hazard lies off it, or a snake
    /// exceeds the size, length or health the engine can count.
    OutOfRange,
    /// Not even a one-turn search finished before the time ran out.
    NoResult,
}

/// The strategy that searches deeper and deeper until its time is up.
pub struct Strangle;

/// Our snake is in the snapshot.
pub open spec fn has_self(s: Snapshot) -> bool {
    exists|i: int| 0 <= i < s.snakes@.len() && (#[trigger] s.snakes@[i]).id@ == s.you@
}

/// The first position of our snake in the snapshot.
pub open spec fn self_index(s: Snapshot) -> int {
    choose|i: int|
        0 <= i < s.snakes@.len() && (#[trigger] s.snakes@[i]).id@ == s.you@ && forall|j: int|
            0 <= j < i ==> s.snakes@[j].id@ != s.you@
}

/// The snapshot's snakes with ours swapped to the front.
pub open spec fn ordered_infos(s: Snapshot) -> Seq<SnakeInfo> {
    let k = self_index(s);
    s.snakes@.update(0, s.snakes@[k]).update(k, s.snakes@[0])
}

/// The snake at position `i` of the reordered list takes slot `i`.
pub open spec fn snapshot_snakes(s: Snapshot) -> Seq<SnakeModel> {
    let infos = ordered_infos(s);
    Seq::new(
        infos.len(),
        |i: int| SnakeModel { id: i as SnakeID, body: infos[i].body@, health: infos[i].health },
    )
}

/// The game a snapshot describes, our snake in slot `ME`.
pub open spec fn snapshot_game(s: Snapshot) -> GameModel {
    GameModel {
        snakes: snapshot_snakes(s),
        prev_snakes: snapshot_snakes(s),
        food: s.food@,
        prev_food: s.food@,
        hazards: s.hazards@,
        board: Board { width: s.width, height: s.height },
        multisnake: s.snakes@.len() > 1,
    }
}

pub open spec fn some_body_empty(s: Snapshot) -> bool {
    exists|i: int| 0 <= i < s.snakes@.len() && (#[trigger] s.snakes@[i]).body@.len() == 0
}

/// Finds our snake in the snapshot.
fn find_self(s: &Snapshot) -> (r: Option<usize>)
    ensures
        r is None <==> !has_self(*s),
        r matches Some(k) ==> k == self_index(*s) && k < s.snakes@.len(),
{
    let mut i: usize = 0;
    while i < s.snakes.len()
        invariant
            i <= s.snakes@.len(),
            forall|j: int| 0 <= j < i ==> s.snakes@[j].id@ != s.you@,
        decreases s.snakes@.len() - i,
    {
        if s.snakes[i].id == s.you {
            proof {
                let k = self_index(*s);
                assert(s.snakes@[i as int].id@ == s.you@);
                if k < i {
                    assert(s.snakes@[k].id@ != s.you@);
                } else if k > i {
                    assert(s.snakes@[i as int].id@ != s.you@);
                }
            }
            return Some(i);
        }
        i += 1;
    }
    None
}

fn copy_body(body: &Vec<Coord>) -> (r: VecDeque<Coord>)
    ensures
        r@ == body@,
{
    let mut r: VecDeque<Coord> = VecDeque::new();
    let mut k: usize = 0;
    while k < body.len()
        invariant
            k <= body@.len(),
            r@ == body@.take(k as int),
        decreases body@.len() - k,
    {
        r.push_back(body[k]);
        k += 1;
        assert(r@ =~= body@.take(k as int));
    }
    assert(r@ =~= body@);
    r
}

impl Game {
    /// The game a snapshot describes, our snake first; the snapshot is
    /// refused when our snake is missing, a body is empty, or a value is
    /// outside what the engine can count.
    pub fn from_snapshot(s: &Snapshot) -> (r: Result<Game, MoveError>)
        ensures
            r == Err::<Game, MoveError>(MoveError::MissingSelf) <==> !has_self(*s),
            r == Err::<Game, MoveError>(MoveError::EmptyBody) <==> has_self(*s) && some_body_empty(*s),
            r == Err::<Game, MoveError>(MoveError::OutOfRange) <==> has_self(*s) && !some_body_empty(*s)
                && !snapshot_game(*s).wf(),
            r is Ok <==> has_self(*s) && !some_body_empty(*s) && snapshot_game(*s).wf(),
            r matches Ok(g) ==> g@ == snapshot_game(*s) && g@.snakes.len() >= 1,
            !(r matches Err(MoveError::NoResult)),
    {
        let k = match find_self(s) {
            None => return Err(MoveError::MissingSelf),
            Some(k) => k,
        };
        assert(has_self(*s));
        let ghost infos = ordered_infos(*s);
        let ghost want = snapshot_snakes(*s);
        let n = s.snakes.len();
        let mut i: usize = 0;
        while i < n
            invariant
                n == s.snakes@.len(),
                i <= n,
                has_self(*s),
                forall|j: int| 0 <= j < i ==> s.snakes@[j].body@.len() > 0,
            decreases n - i,
        {
            if s.snakes[i].body.len() == 0 {
                assert(some_body_empty(*s)) by {
                    assert(s.snakes@[i as int].body@.len() == 0);
                }
                return Err(MoveError::EmptyBody);
            }
            i += 1;
        }
        assert(!some_body_empty(*s));
        let board = Board { width: s.width, height: s.height };
        let mut snakes: Vec<Snake> = Vec::new();
        let mut in_range = 1 <= s.width && s.width <= MAX_DIM && 1 <= s.height && s.height <= MAX_DIM
            && n <= MAX_SNAKES;
        let mut i: usize = 0;
        while i < n
            invariant
                n == s.snakes@.len(),
                i <= n,
                k < n,
                k == self_index(*s),
                forall|j: int| 0 <= j < n ==> s.snakes@[j].body@.len() > 0,
                infos == ordered_infos(*s),
                want == snapshot_snakes(*s),
                board == (Board { width: s.width, height: s.height }),
                snakes_view(snakes@) == want.take(i as int),
                in_range == (board.wf() && n <= MAX_SNAKES && forall|j: int| 0 <= j < i ==> (#[trigger] want[j]).wf_on(board) && want[j].body.len() + s.food@.len() <= MAX_LEN),
            decreases n - i,
        {
            let src: usize = if i == 0 { k } else if i == k { 0 } else { i };
            assert(infos[i as int] == s.snakes@[src as int]);
            let info = &s.snakes[src];
            let body = copy_body(&info.body);
            let snake = Snake { id: i, body, health: info.health };
            assert(snake@ == want[i as int]);
            let mut on_board = true;
            let mut q: usize = 0;
            while q < info.body.len()
                invariant
                    q <= info.body@.len(),
                    on_board == forall|p: int| 0 <= p < q ==> board.contains_spec(#[trigger] info.body@[p]),
                decreases info.body@.len() - q,
            {
                if !board.contains(info.body[q]) {
                    on_board = false;
                }
                q += 1;
            }
            let fits = on_board && -MAX_ABS_HEALTH <= info.health && info.health <= MAX_ABS_HEALTH
                && info.body.len() <= MAX_LEN && s.food.len() <= MAX_LEN - info.body.len();
            proof {
                assert(fits == (want[i as int].wf_on(board) && want[i as int].body.len() + s.food@.len() <= MAX_LEN)) by {
                    assert(want[i as int].body == info.body@);
                    assert(info.body@.len() > 0);
                }
            }
            in_range = in_range && fits;
            proof {
                assert(snakes_view(snakes@.push(snake)) =~= snakes_view(snakes@).push(snake@));
                assert(want.take(i + 1) =~= want.take(i as int).push(want[i as int]));
            }
            snakes.push(snake);
            i += 1;
        }
        assert(want.take(n as int) =~= want);
        proof {
            ids_ascending_of(want, n);
        }
        let mut hazards_on_board = true;
        let mut q: usize = 0;
        while q < s.hazards.len()
            invariant
                q <= s.hazards@.len(),
                n == s.snakes@.len(),
                want == snapshot_snakes(*s),
                want.len() == n,
                crate::game::ids_ascending(want),
                board == (Board { width: s.width, height: s.height }),
                snakes_view(snakes@) == want,
                in_range == (board.wf() && n <= MAX_SNAKES && forall|j: int| 0 <= j < n ==> (#[trigger] want[j]).wf_on(board) && want[j].body.len() + s.food@.len() <= MAX_LEN),
                hazards_on_board == forall|p: int| 0 <= p < q ==> board.contains_spec(#[trigger] s.hazards@[p]),
            decreases s.hazards@.len() - q,
        {
            if !board.contains(s.hazards[q]) {
                hazards_on_board = false;
            }
            q += 1;
        }
        if !in_range || !hazards_on_board {
            proof {
                let gm = snapshot_game(*s);
                assert(gm.snakes == want);
                if !hazards_on_board {
                    let p = choose|p: int| 0 <= p < s.hazards@.len() && !board.contains_spec(#[trigger] s.hazards@[p]);
                    assert(!gm.board.contains_spec(gm.hazards[p]));
                }
            }
            return Err(MoveError::OutOfRange);
        }
        let food = crate::game::copy_coords(&s.food);
        let hazards = crate::game::copy_coords(&s.hazards);
        let g = Game::new(snakes, food, hazards, board);
        assert(g@ =~= snapshot_game(*s));
        Ok(g)
    }
}

/// Slots given by position rise with the position.
proof fn ids_ascending_of(want: Seq<SnakeModel>, n: usize)
    requires
        want.len() == n,
        forall|i: int| 0 <= i < want.len() ==> (#[trigger] want[i]).id == i as SnakeID,
    ensures
        crate::game::ids_ascending(want),
{
}

/// The direction the search from the root chooses when it looks
/// `max_depth` turns ahead.
pub open spec fn root_direction(g: GameModel, max_depth: int) -> Option<Direction> {
    search(g, 0, 0, Map::empty(), max_depth).direction
}

/// A search result as a value.
pub open spec fn kept_view(r: Option<BigbrainResult>) -> Option<SearchModel> {
    match r {
        Some(res) => Some(res@),
        None => None,
    }
}

/// What iterative deepening does with the outcome of the search at `depth`:
/// a completed search replaces the kept result, and deepening goes on only
/// when that search reached the depth it was given; a search cut short by
/// the clock (`None`) leaves the kept result and ends the deepening.
pub fn after_depth(depth: u64, outcome: Option<BigbrainResult>, kept: Option<BigbrainResult>) -> (r: (
    Option<BigbrainResult>,
    bool,
))
    ensures
        outcome is None ==> kept_view(r.0) == kept_view(kept) && !r.1,
        outcome matches Some(o) ==> kept_view(r.0) == Some(o@) && r.1 == (o.depth >= depth),
{
    match outcome {
        None => (kept, false),
        Some(o) => {
            let go_on = o.depth >= depth;
            (Some(o), go_on)
        },
    }
}

/// Iterative deepening: searches one turn ahead, then two, and so on, all
/// depths sharing one cache of final scores, until the time limit measured
/// from `start` runs out; a depth cut short by the clock is discarded, and
/// a search that ends before the depth it was given ends the deepening (see
/// `after_depth`). Returns the direction of the deepest completed search:
/// that of some depth `k >= 1` whose shallower searches all reached their
/// full depth, so a direction is only ever returned when at least the
/// one-turn search completed; `NoResult` otherwise.
pub fn deepen(game: &Game, start: Instant, time_limit: Duration) -> (r: Result<Direction, MoveError>)
    requires
        game@.wf(),
        game@.snakes.len() >= 1,
    ensures
        r matches Ok(d) ==> exists|k: int|
            1 <= k <= MAX_SCORE_DEPTH && root_direction(game@, k) == Some(d) && forall|j: int|
                1 <= j < k ==> #[trigger] search(game@, 0, 0, Map::empty(), j).depth == j,
        r matches Err(e) ==> e == MoveError::NoResult,
{
    let mut known_scores = KnownScores::new();
    let mut result: Option<BigbrainResult> = None;
    let ghost mut found_depth: int = 0;
    let mut depth: u64 = 1;
    let mut go_on = true;
    while go_on && depth <= MAX_SCORE_DEPTH && !time_is_up(&start, &time_limit)
        invariant
            game@.wf(),
            game@.snakes.len() >= 1,
            1 <= depth <= MAX_SCORE_DEPTH + 1,
            known_scores.wf(),
            result is None ==> depth == 1,
            result matches Some(res) ==> {
                &&& 1 <= found_depth <= depth
                &&& found_depth <= MAX_SCORE_DEPTH
                &&& res@ == search(game@, 0, 0, Map::empty(), found_depth)
                &&& forall|j: int| 1 <= j < found_depth ==> #[trigger] search(game@, 0, 0, Map::empty(), j).depth == j
            },
            go_on ==> (result matches Some(res) ==> res.depth as int == found_depth && found_depth + 1 == depth),
        decreases MAX_SCORE_DEPTH + 1 - depth, if go_on { 1int } else { 0int },
    {
        let options = BigbrainOptions { max_depth: depth, time_limit };
        let moves: HashMap<SnakeID, Direction> = HashMap::new();
        let outcome = bigbrain(game, 0, 0, &moves, &mut known_scores, start, &options);
        let ghost completed = outcome is Some;
        let ghost old_found = found_depth;
        let ghost old_view = kept_view(result);
        proof {
            if completed {
                found_depth = depth as int;
                assert forall|j: int| 1 <= j < found_depth implies #[trigger] search(game@, 0, 0, Map::empty(), j).depth == j by {
                    if j == old_found {
                        assert(old_view is Some);
                    }
                }
            }
        }
        let (kept, more) = after_depth(depth, outcome, result);
        result = kept;
        go_on = more;
        if go_on {
            depth += 1;
        }
    }
    match result {
        Some(res) => match res.direction {
            Some(d) => {
                assert(root_direction(game@, found_depth) == Some(d));
                Ok(d)
            },
            None => Err(MoveError::NoResult),
        },
        None => Err(MoveError::NoResult),
    }
}

impl Strangle {
    /// The direction to move this turn: the snapshot is turned into a game
    /// (failing as `Game::from_snapshot` does), then searched by iterative
    /// deepening for at most `TIME_LIMIT_MS` milliseconds.
    pub fn get_movement(&self, snapshot: Snapshot) -> (r: Result<Direction, MoveError>)
        ensures
            r == Err::<Direction, MoveError>(MoveError::MissingSelf) <==> !has_self(snapshot),
            r == Err::<Direction, MoveError>(MoveError::EmptyBody) <==> has_self(snapshot) && some_body_empty(snapshot),
            r == Err::<Direction, MoveError>(MoveError::OutOfRange) <==> has_self(snapshot) && !some_body_empty(snapshot)
                && !snapshot_game(snapshot).wf(),
            r matches Ok(d) ==> exists|k: int|
                1 <= k <= MAX_SCORE_DEPTH && root_direction(snapshot_game(snapshot), k) == Some(d)
                    && forall|j: int|
                    1 <= j < k ==> #[trigger] search(snapshot_game(snapshot), 0, 0, Map::empty(), j).depth == j,
    {
        let start = now();
        let limit = from_millis(TIME_LIMIT_MS);
        let game = match Game::from_snapshot(&snapshot) {
            Ok(g) => g,
            Err(e) => return Err(e),
        };
        deepen(&game, start, limit)
    }
}

} // verus!
