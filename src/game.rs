//! The shared world and its one-turn simulator.

use std::collections::HashMap;
use vstd::prelude::*;
use crate::board::Board;
use crate::score_factors::DeathKind;
use crate::snake::{Snake, SnakeID, SnakeModel, MAX_LEN, ME};
use crate::types::{neighbour_spec, Coord, Direction};

verus! {

broadcast use vstd::seq_lib::group_filter_ensures, Board::lemma_index_in_range;

/// Health a snake is restored to when it eats.
pub const MAX_HEALTH: i64 = 100;

/// The most snakes a game may hold.
pub const MAX_SNAKES: usize = 1_000_000;

/// How many snakes are in a game.
pub enum Type {
    Solo,
    Duel,
    Triple,
    Quadruple,
    TooMany,
}

/// A game's value.
pub struct GameModel {
    pub snakes: Seq<SnakeModel>,
    pub prev_snakes: Seq<SnakeModel>,
    pub food: Seq<Coord>,
    pub prev_food: Seq<Coord>,
    pub hazards: Seq<Coord>,
    pub board: Board,
    pub multisnake: bool,
}

pub open spec fn snakes_view(v: Seq<Snake>) -> Seq<SnakeModel> {
    v.map_values(|s: Snake| s@)
}

/// The slots of a list of snakes rise strictly from front to back.
pub open spec fn ids_ascending(s: Seq<SnakeModel>) -> bool {
    forall|i: int, j: int| 0 <= i < j < s.len() ==> s[i].id < s[j].id
}

/// `id` is the slot of some snake of `s`.
pub open spec fn has_id(s: Seq<SnakeModel>, id: SnakeID) -> bool {
    exists|i: int| 0 <= i < s.len() && #[trigger] s[i].id == id
}

impl GameModel {
    /// A playable game: a valid board, snakes and hazards lying on it, the
    /// snakes in ascending slot order, and sizes small enough that every count fits its type.
    pub open spec fn wf(self) -> bool {
        &&& self.board.wf()
        &&& self.snakes.len() <= MAX_SNAKES
        &&& ids_ascending(self.snakes)
        &&& forall|i: int| 0 <= i < self.hazards.len() ==> self.board.contains_spec(#[trigger] self.hazards[i])
        &&& forall|i: int|
            0 <= i < self.snakes.len() ==> (#[trigger] self.snakes[i]).wf_on(self.board)
                && self.snakes[i].body.len() + self.food.len() <= MAX_LEN
    }

    /// `moves` holds exactly one direction for each snake of the game, and
    /// none for any other slot.
    pub open spec fn complete_moves(self, moves: Map<SnakeID, Direction>) -> bool {
        &&& forall|i: int| 0 <= i < self.snakes.len() ==> moves.contains_key(#[trigger] self.snakes[i].id)
        &&& forall|id: SnakeID| #[trigger] moves.contains_key(id) ==> has_id(self.snakes, id)
    }
}

/// A turn of the game: the snakes (slot `ME` first when present), the food
/// and hazard cells, the board, and whether the game began with more than one
/// snake. `prev_snakes` and `prev_food` hold the state before the last turn.
pub struct Game {
    pub snakes: Vec<Snake>,
    pub prev_snakes: Vec<Snake>,
    pub food: Vec<Coord>,
    pub prev_food: Vec<Coord>,
    pub hazards: Vec<Coord>,
    pub board: Board,
    pub multisnake: bool,
}

impl View for Game {
    type V = GameModel;

    open spec fn view(&self) -> GameModel {
        GameModel {
            snakes: snakes_view(self.snakes@),
            prev_snakes: snakes_view(self.prev_snakes@),
            food: self.food@,
            prev_food: self.prev_food@,
            hazards: self.hazards@,
            board: self.board,
            multisnake: self.multisnake,
        }
    }
}

/// An exact copy of a list of cells.
pub fn copy_coords(v: &Vec<Coord>) -> (r: Vec<Coord>)
    ensures
        r@ == v@,
{
    let mut r: Vec<Coord> = Vec::new();
    let mut i: usize = 0;
    while i < v.len()
        invariant
            i <= v@.len(),
            r@ == v@.take(i as int),
        decreases v@.len() - i,
    {
        r.push(v[i]);
        i += 1;
        assert(r@ =~= v@.take(i as int));
    }
    assert(r@ =~= v@);
    r
}

/// An exact copy of a list of snakes.
pub fn copy_snakes(v: &Vec<Snake>) -> (r: Vec<Snake>)
    ensures
        snakes_view(r@) == snakes_view(v@),
{
    let mut r: Vec<Snake> = Vec::new();
    let mut i: usize = 0;
    while i < v.len()
        invariant
            i <= v@.len(),
            r@.len() == i,
            snakes_view(r@) == snakes_view(v@).take(i as int),
        decreases v@.len() - i,
    {
        let ghost old_r = r@;
        let d = v[i].duplicate();
        r.push(d);
        proof {
            assert(r@ == old_r.push(d));
            assert forall|j: int| 0 <= j < i + 1 implies snakes_view(r@)[j] == snakes_view(v@)[j] by {
                if j < i {
                    assert(snakes_view(old_r)[j] == snakes_view(v@).take(i as int)[j]);
                    assert(r@[j] == old_r[j]);
                } else {
                    assert(r@[j] == d);
                }
            }
        }
        i += 1;
        assert(snakes_view(r@) =~= snakes_view(v@).take(i as int));
    }
    assert(snakes_view(r@) =~= snakes_view(v@));
    r
}

impl Game {
    /// A game at its first turn: the previous state is the current one, and
    /// it is a multi-snake game when it holds more than one snake.
    pub fn new(snakes: Vec<Snake>, food: Vec<Coord>, hazards: Vec<Coord>, board: Board) -> (r: Game)
        ensures
            r@.snakes == snakes_view(snakes@),
            r@.prev_snakes == snakes_view(snakes@),
            r@.food == food@,
            r@.prev_food == food@,
            r@.hazards == hazards@,
            r.board == board,
            r.multisnake == (snakes@.len() > 1),
    {
        let multisnake = snakes.len() > 1;
        let prev_snakes = copy_snakes(&snakes);
        let prev_food = copy_coords(&food);
        Game { snakes, prev_snakes, food, prev_food, hazards, board, multisnake }
    }

    /// An exact copy of the game.
    pub fn duplicate(&self) -> (r: Game)
        ensures
            r@ == self@,
    {
        Game {
            snakes: copy_snakes(&self.snakes),
            prev_snakes: copy_snakes(&self.prev_snakes),
            food: copy_coords(&self.food),
            prev_food: copy_coords(&self.prev_food),
            hazards: copy_coords(&self.hazards),
            board: self.board,
            multisnake: self.multisnake,
        }
    }

    /// Classifies the game by its number of snakes.
    pub fn game_type(&self) -> (r: Type)
        requires
            self.snakes@.len() > 0,
        ensures
            self.snakes@.len() == 1 <==> r is Solo,
            self.snakes@.len() == 2 <==> r is Duel,
            self.snakes@.len() == 3 <==> r is Triple,
            self.snakes@.len() == 4 <==> r is Quadruple,
            self.snakes@.len() > 4 <==> r is TooMany,
    {
        match self.snakes.len() {
            1 => Type::Solo,
            2 => Type::Duel,
            3 => Type::Triple,
            4 => Type::Quadruple,
            _ => Type::TooMany,
        }
    }
}

/// Some snake of `ms` has a segment other than its head on `c`.
pub open spec fn body_covers(ms: Seq<SnakeModel>, c: Coord) -> bool {
    exists|i: int, k: int| 0 <= i < ms.len() && 1 <= k < ms[i].body.len() && #[trigger] ms[i].body[k] == c
}

/// A cell is occupied when a snake's body (past its head) or a hazard lies
/// on it.
pub open spec fn occupied(ms: Seq<SnakeModel>, hazards: Seq<Coord>, c: Coord) -> bool {
    body_covers(ms, c) || hazards.contains(c)
}

proof fn lemma_take_push_contains(s: Seq<Coord>, h: int, c: Coord)
    requires
        0 <= h < s.len(),
    ensures
        s.take(h + 1).contains(c) <==> (s.take(h).contains(c) || c == s[h]),
{
    if s.take(h).contains(c) {
        let j = choose|j: int| 0 <= j < h && s.take(h)[j] == c;
        assert(s.take(h + 1)[j] == c);
    }
    if c == s[h] {
        assert(s.take(h + 1)[h] == c);
    }
    let t = s.take(h + 1);
    if t.contains(c) {
        let j = choose|j: int| 0 <= j < t.len() && t[j] == c;
        if j < h {
            assert(s.take(h)[j] == c);
        }
    }
}

/// Marks each cell of the board free (`true`) or occupied (`false`).
pub fn calculate_free_space(snakes: &Vec<Snake>, hazards: &Vec<Coord>, board: &Board) -> (r: Vec<bool>)
    requires
        board.wf(),
        forall|i: int| 0 <= i < hazards@.len() ==> board.contains_spec(#[trigger] hazards@[i]),
    ensures
        r@.len() == board.area(),
        forall|c: Coord|
            board.contains_spec(c) ==> #[trigger] r@[board.index_of(c)] == !occupied(
                snakes_view(snakes@),
                hazards@,
                c,
            ),
{
    let ghost ms = snakes_view(snakes@);
    let n = board.cell_count();
    let mut free: Vec<bool> = Vec::new();
    while free.len() < n
        invariant
            free@.len() <= n,
            forall|k: int| 0 <= k < free@.len() ==> free@[k],
        decreases n - free@.len(),
    {
        free.push(true);
    }
    assert forall|c: Coord| board.contains_spec(c) implies #[trigger] free@[board.index_of(c)] == !body_covers(ms.take(0), c) by {
        assert(free@[board.index_of(c)]);
    }
    let mut i: usize = 0;
    while i < snakes.len()
        invariant
            board.wf(),
            n == board.area(),
            free@.len() == n,
            ms == snakes_view(snakes@),
            i <= snakes@.len(),
            forall|c: Coord|
                board.contains_spec(c) ==> #[trigger] free@[board.index_of(c)] == !body_covers(ms.take(i as int), c),
        decreases snakes@.len() - i,
    {
        let snake = &snakes[i];
        let mut k: usize = 1;
        while k < snake.body.len()
            invariant
                board.wf(),
                n == board.area(),
                free@.len() == n,
                ms == snakes_view(snakes@),
                i < snakes@.len(),
                *snake == snakes@[i as int],
                1 <= k,
                k <= snake.body@.len() || k == 1,
                forall|c: Coord|
                    board.contains_spec(c) ==> #[trigger] free@[board.index_of(c)] == !(body_covers(ms.take(i as int), c)
                        || exists|kk: int| 1 <= kk < k && snake.body@[kk] == c),
            decreases snake.body@.len() - k,
        {
            let part = snake.body[k];
            if board.contains(part) {
                let pi = board.index(part);
                free.set(pi, false);
                proof {
                    assert forall|c: Coord| board.contains_spec(c) implies #[trigger] free@[board.index_of(c)] == !(body_covers(ms.take(i as int), c)
                        || exists|kk: int| 1 <= kk < k + 1 && snake.body@[kk] == c) by {
                        board.lemma_index_in_range(c);
                        if board.index_of(c) == board.index_of(part) {
                            board.lemma_index_injective(c, part);
                        }
                        if c != part {
                            if exists|kk: int| 1 <= kk < k + 1 && snake.body@[kk] == c {
                                let kk = choose|kk: int| 1 <= kk < k + 1 && snake.body@[kk] == c;
                                assert(kk < k);
                            }
                        }
                    }
                }
            } else {
                proof {
                    assert forall|c: Coord| board.contains_spec(c) implies #[trigger] free@[board.index_of(c)] == !(body_covers(ms.take(i as int), c)
                        || exists|kk: int| 1 <= kk < k + 1 && snake.body@[kk] == c) by {
                        if exists|kk: int| 1 <= kk < k + 1 && snake.body@[kk] == c {
                            let kk = choose|kk: int| 1 <= kk < k + 1 && snake.body@[kk] == c;
                            assert(kk < k);
                        }
                    }
                }
            }
            k += 1;
        }
        proof {
            let t = ms.take(i + 1);
            let t0 = ms.take(i as int);
            assert(t[i as int] == snake@);
            assert forall|c: Coord| board.contains_spec(c) implies #[trigger] free@[board.index_of(c)] == !body_covers(t, c) by {
                let own = exists|kk: int| 1 <= kk < k && snake.body@[kk] == c;
                assert(free@[board.index_of(c)] == !(body_covers(t0, c) || own));
                assert(k == snake.body@.len() || snake.body@.len() == 0);
                if body_covers(t, c) {
                    let (i2, k2) = choose|i2: int, k2: int| 0 <= i2 < t.len() && 1 <= k2 < t[i2].body.len() && #[trigger] t[i2].body[k2] == c;
                    if i2 < i {
                        assert(t0[i2] == t[i2]);
                        assert(t0[i2].body[k2] == c);
                        assert(body_covers(t0, c));
                    } else {
                        assert(i2 == i);
                        assert(snake.body@[k2] == c);
                        assert(own);
                    }
                }
                if body_covers(t0, c) {
                    let (i2, k2) = choose|i2: int, k2: int| 0 <= i2 < t0.len() && 1 <= k2 < t0[i2].body.len() && #[trigger] t0[i2].body[k2] == c;
                    assert(t[i2] == t0[i2]);
                    assert(t[i2].body[k2] == c);
                    assert(body_covers(t, c));
                }
                if own {
                    let kk = choose|kk: int| 1 <= kk < k && snake.body@[kk] == c;
                    assert(kk < snake.body@.len());
                    assert(t[i as int].body == snake.body@);
                    assert(t[i as int].body[kk] == c);
                    assert(0 <= i < t.len());
                    assert(body_covers(t, c));
                }
            }
        }
        i += 1;
    }
    assert(ms.take(snakes@.len() as int) =~= ms);
    let mut h: usize = 0;
    while h < hazards.len()
        invariant
            board.wf(),
            n == board.area(),
            free@.len() == n,
            ms == snakes_view(snakes@),
            h <= hazards@.len(),
            forall|i: int| 0 <= i < hazards@.len() ==> board.contains_spec(#[trigger] hazards@[i]),
            forall|c: Coord|
                board.contains_spec(c) ==> #[trigger] free@[board.index_of(c)] == !(body_covers(ms, c) || hazards@.take(h as int).contains(c)),
        decreases hazards@.len() - h,
    {
        let hz = hazards[h];
        proof {
            assert(hazards@.take(h + 1) =~= hazards@.take(h as int).push(hz));
        }
        let hi = board.index(hz);
        free.set(hi, false);
        proof {
            assert forall|c: Coord| board.contains_spec(c) implies #[trigger] free@[board.index_of(c)] == !(body_covers(ms, c) || hazards@.take(h + 1).contains(c)) by {
                board.lemma_index_in_range(c);
                if board.index_of(c) == board.index_of(hz) {
                    board.lemma_index_injective(c, hz);
                }
                lemma_take_push_contains(hazards@, h as int, c);
            }
        }
        h += 1;
    }
    assert(hazards@.take(hazards@.len() as int) =~= hazards@);
    free
}

/// A snake after its move: a new head one cell along `d`, the tail segment
/// dropped, one point of health spent.
pub open spec fn move_snake(s: SnakeModel, d: Direction) -> SnakeModel {
    SnakeModel {
        id: s.id,
        body: seq![neighbour_spec(s.head(), d)] + s.body.drop_last(),
        health: (s.health - 1) as i64,
    }
}

pub open spec fn move_fn(moves: Map<SnakeID, Direction>) -> spec_fn(SnakeModel) -> SnakeModel {
    |s: SnakeModel| move_snake(s, moves[s.id])
}

/// Every snake of the game after its move.
pub open spec fn moved_snakes(g: GameModel, moves: Map<SnakeID, Direction>) -> Seq<SnakeModel> {
    g.snakes.map_values(move_fn(moves))
}

/// A moved snake that neither starved, left the board, nor ran into an
/// occupied cell.
pub open spec fn survives_alone(ms: Seq<SnakeModel>, hazards: Seq<Coord>, board: Board, s: SnakeModel) -> bool {
    &&& s.health > 0
    &&& board.contains_spec(s.head())
    &&& !occupied(ms, hazards, s.head())
}

pub open spec fn alone_pred(ms: Seq<SnakeModel>, hazards: Seq<Coord>, board: Board) -> spec_fn(SnakeModel) -> bool {
    |s: SnakeModel| survives_alone(ms, hazards, board, s)
}

/// `t` wins the head-on collision with `s`: the longer snake wins, and of two
/// equally long snakes `s` loses unless `t` is our own snake.
pub open spec fn beats(t: SnakeModel, s: SnakeModel) -> bool {
    &&& t.id != s.id
    &&& t.head() == s.head()
    &&& (t.body.len() > s.body.len() || (t.body.len() == s.body.len() && t.id != ME))
}

pub open spec fn loses_head_on(sv: Seq<SnakeModel>, s: SnakeModel) -> bool {
    exists|j: int| 0 <= j < sv.len() && beats(#[trigger] sv[j], s)
}

pub open spec fn standing_pred(sv: Seq<SnakeModel>) -> spec_fn(SnakeModel) -> bool {
    |s: SnakeModel| !loses_head_on(sv, s)
}

/// Another snake of `sv` as long as `s` has its head on the same cell.
pub open spec fn ties_with_rival(sv: Seq<SnakeModel>, s: SnakeModel) -> bool {
    exists|j: int|
        0 <= j < sv.len() && (#[trigger] sv[j]).id != s.id && sv[j].head() == s.head() && sv[j].body.len()
            == s.body.len()
}

/// A surviving snake whose head is on food regains full health and grows
/// by repeating its tail segment.
pub open spec fn feed(s: SnakeModel, food: Seq<Coord>) -> SnakeModel {
    if food.contains(s.head()) {
        SnakeModel { id: s.id, body: s.body.push(s.body.last()), health: MAX_HEALTH }
    } else {
        s
    }
}

pub open spec fn feed_fn(food: Seq<Coord>) -> spec_fn(SnakeModel) -> SnakeModel {
    |s: SnakeModel| feed(s, food)
}

/// Some snake of `sv` has its head on `c`.
pub open spec fn head_at(sv: Seq<SnakeModel>, c: Coord) -> bool {
    exists|j: int| 0 <= j < sv.len() && (#[trigger] sv[j]).head() == c
}

pub open spec fn uneaten_pred(sv: Seq<SnakeModel>) -> spec_fn(Coord) -> bool {
    |c: Coord| !head_at(sv, c)
}

/// The moved snakes that survive on their own.
pub open spec fn first_survivors(g: GameModel, moves: Map<SnakeID, Direction>) -> Seq<SnakeModel> {
    let ms = moved_snakes(g, moves);
    ms.filter(alone_pred(ms, g.hazards, g.board))
}

/// The snakes that also survive the head-on collisions.
pub open spec fn final_survivors(g: GameModel, moves: Map<SnakeID, Direction>) -> Seq<SnakeModel> {
    let sv = first_survivors(g, moves);
    sv.filter(standing_pred(sv))
}

/// The game after one turn in which every snake moves as `moves` says.
pub open spec fn step_spec(g: GameModel, moves: Map<SnakeID, Direction>) -> GameModel {
    let sv = final_survivors(g, moves);
    GameModel {
        snakes: sv.map_values(feed_fn(g.food)),
        prev_snakes: moved_snakes(g, moves),
        food: g.food.filter(uneaten_pred(sv)),
        prev_food: g.food,
        hazards: g.hazards,
        board: g.board,
        multisnake: g.multisnake,
    }
}

pub open spec fn died(ms: Seq<SnakeModel>, sv: Seq<SnakeModel>, hazards: Seq<Coord>, board: Board, s: SnakeModel) -> bool {
    !survives_alone(ms, hazards, board, s) || loses_head_on(sv, s)
}

pub open spec fn died_pred(ms: Seq<SnakeModel>, sv: Seq<SnakeModel>, hazards: Seq<Coord>, board: Board) -> spec_fn(SnakeModel) -> bool {
    |s: SnakeModel| died(ms, sv, hazards, board, s)
}

/// A snake of `sv` longer than `s` has its head on the same cell.
pub open spec fn longer_on_cell(sv: Seq<SnakeModel>, s: SnakeModel) -> bool {
    exists|j: int|
        0 <= j < sv.len() && (#[trigger] sv[j]).head() == s.head() && sv[j].body.len() > s.body.len()
}

/// Our own snake dies honourably when it survived on its own, met an
/// equally long rival head-on, and no longer snake reached the same cell;
/// every other death is normal.
pub open spec fn death_kind_spec(ms: Seq<SnakeModel>, sv: Seq<SnakeModel>, hazards: Seq<Coord>, board: Board, s: SnakeModel) -> DeathKind {
    if s.id == ME && survives_alone(ms, hazards, board, s) && ties_with_rival(sv, s) && !longer_on_cell(sv, s) {
        DeathKind::Honourable
    } else {
        DeathKind::Normal
    }
}

pub open spec fn death_entry_fn(ms: Seq<SnakeModel>, sv: Seq<SnakeModel>, hazards: Seq<Coord>, board: Board) -> spec_fn(SnakeModel) -> (SnakeID, DeathKind) {
    |s: SnakeModel| (s.id, death_kind_spec(ms, sv, hazards, board, s))
}

/// Slot and kind of death of each snake eliminated in the turn, in slot order.
pub open spec fn deaths_spec(g: GameModel, moves: Map<SnakeID, Direction>) -> Seq<(SnakeID, DeathKind)> {
    let ms = moved_snakes(g, moves);
    let sv = first_survivors(g, moves);
    ms.filter(died_pred(ms, sv, g.hazards, g.board)).map_values(death_entry_fn(ms, sv, g.hazards, g.board))
}

proof fn lemma_view_push(v: Seq<Snake>, x: Snake)
    ensures
        snakes_view(v.push(x)) == snakes_view(v).push(x@),
{
    assert(snakes_view(v.push(x)) =~= snakes_view(v).push(x@));
}

proof fn lemma_take_push<A>(s: Seq<A>, i: int)
    requires
        0 <= i < s.len(),
    ensures
        s.take(i + 1) == s.take(i).push(s[i]),
{
    assert(s.take(i + 1) =~= s.take(i).push(s[i]));
}

proof fn lemma_map_push<A, B>(s: Seq<A>, x: A, f: spec_fn(A) -> B)
    ensures
        s.push(x).map_values(f) == s.map_values(f).push(f(x)),
{
    assert(s.push(x).map_values(f) =~= s.map_values(f).push(f(x)));
}

/// Every snake moved one cell as `moves` says.
fn move_all(snakes: &Vec<Snake>, moves: &HashMap<SnakeID, Direction>, board: &Board) -> (r: Vec<Snake>)
    requires
        board.wf(),
        forall|i: int| 0 <= i < snakes@.len() ==> (#[trigger] snakes@[i])@.wf_on(*board),
        forall|i: int| 0 <= i < snakes@.len() ==> moves@.contains_key(#[trigger] snakes@[i].id),
    ensures
        snakes_view(r@) == snakes_view(snakes@).map_values(move_fn(moves@)),
{
    broadcast use vstd::std_specs::hash::group_hash_axioms;
    let ghost sv = snakes_view(snakes@);
    let mut r: Vec<Snake> = Vec::new();
    let mut i: usize = 0;
    while i < snakes.len()
        invariant
            board.wf(),
            forall|i: int| 0 <= i < snakes@.len() ==> (#[trigger] snakes@[i])@.wf_on(*board),
            forall|i: int| 0 <= i < snakes@.len() ==> moves@.contains_key(#[trigger] snakes@[i].id),
            sv == snakes_view(snakes@),
            i <= snakes@.len(),
            snakes_view(r@) == sv.map_values(move_fn(moves@)).take(i as int),
        decreases snakes@.len() - i,
    {
        let mut s = snakes[i].duplicate();
        assert(snakes@[i as int]@.wf_on(*board));
        assert(moves@.contains_key(snakes@[i as int].id));
        let d = match moves.get(&s.id) {
            Some(d) => *d,
            None => {
                proof {
                    assert(false);
                }
                Direction::Up
            },
        };
        let ghost old_body = s.body@;
        let head = s.body[0];
        let next = head.neighbour(d);
        s.body.push_front(next);
        s.body.pop_back();
        s.health = s.health - 1;
        proof {
            assert(s.body@ =~= seq![neighbour_spec(old_body[0], d)] + old_body.drop_last());
            assert(s@ == move_snake(snakes@[i as int]@, moves@[snakes@[i as int].id]));
            lemma_view_push(r@, s);
            lemma_take_push(sv.map_values(move_fn(moves@)), i as int);
        }
        r.push(s);
        i += 1;
    }
    assert(sv.map_values(move_fn(moves@)).take(i as int) =~= sv.map_values(move_fn(moves@)));
    r
}

/// Whether a moved snake survives on its own, read from the free-space map.
fn alive_alone(free: &Vec<bool>, board: &Board, s: &Snake, Ghost(ms): Ghost<Seq<SnakeModel>>, Ghost(hazards): Ghost<Seq<Coord>>) -> (r: bool)
    requires
        board.wf(),
        s.body@.len() >= 1,
        free@.len() == board.area(),
        forall|c: Coord|
            board.contains_spec(c) ==> #[trigger] free@[board.index_of(c)] == !occupied(ms, hazards, c),
    ensures
        r == survives_alone(ms, hazards, *board, s@),
{
    let head = s.body[0];
    if s.health > 0 && board.contains(head) {
        let hi = board.index(head);
        free[hi]
    } else {
        false
    }
}

/// Whether `s` loses a head-on collision with a snake of `sv`.
fn head_on_loss(sv: &Vec<Snake>, s: &Snake) -> (r: bool)
    requires
        s.body@.len() >= 1,
        forall|j: int| 0 <= j < sv@.len() ==> (#[trigger] sv@[j]).body@.len() >= 1,
    ensures
        r == loses_head_on(snakes_view(sv@), s@),
{
    let ghost v = snakes_view(sv@);
    let mut j: usize = 0;
    while j < sv.len()
        invariant
            v == snakes_view(sv@),
            j <= sv@.len(),
            s.body@.len() >= 1,
            forall|j: int| 0 <= j < sv@.len() ==> (#[trigger] sv@[j]).body@.len() >= 1,
            forall|jj: int| 0 <= jj < j ==> !beats(#[trigger] v[jj], s@),
        decreases sv@.len() - j,
    {
        let t = &sv[j];
        assert(v[j as int] == t@);
        let t_len = t.body.len();
        let s_len = s.body.len();
        if t.id != s.id && t.body[0] == s.body[0] && (t_len > s_len || (t_len == s_len && t.id != ME)) {
            return true;
        }
        j += 1;
    }
    false
}

/// Whether a snake of `sv` as long as `s` has its head on the same cell.
fn ties_rival(sv: &Vec<Snake>, s: &Snake) -> (r: bool)
    requires
        s.body@.len() >= 1,
        forall|j: int| 0 <= j < sv@.len() ==> (#[trigger] sv@[j]).body@.len() >= 1,
    ensures
        r == ties_with_rival(snakes_view(sv@), s@),
{
    let ghost v = snakes_view(sv@);
    let mut j: usize = 0;
    while j < sv.len()
        invariant
            v == snakes_view(sv@),
            j <= sv@.len(),
            s.body@.len() >= 1,
            forall|j: int| 0 <= j < sv@.len() ==> (#[trigger] sv@[j]).body@.len() >= 1,
            forall|jj: int|
                0 <= jj < j ==> !((#[trigger] v[jj]).id != s@.id && v[jj].head() == s@.head()
                    && v[jj].body.len() == s@.body.len()),
        decreases sv@.len() - j,
    {
        let t = &sv[j];
        assert(v[j as int] == t@);
        if t.id != s.id && t.body[0] == s.body[0] && t.body.len() == s.body.len() {
            return true;
        }
        j += 1;
    }
    false
}

/// Whether a snake of `sv` longer than `s` has its head on the same cell.
fn longer_rival(sv: &Vec<Snake>, s: &Snake) -> (r: bool)
    requires
        s.body@.len() >= 1,
        forall|j: int| 0 <= j < sv@.len() ==> (#[trigger] sv@[j]).body@.len() >= 1,
    ensures
        r == longer_on_cell(snakes_view(sv@), s@),
{
    let ghost v = snakes_view(sv@);
    let mut j: usize = 0;
    while j < sv.len()
        invariant
            v == snakes_view(sv@),
            j <= sv@.len(),
            s.body@.len() >= 1,
            forall|j: int| 0 <= j < sv@.len() ==> (#[trigger] sv@[j]).body@.len() >= 1,
            forall|jj: int|
                0 <= jj < j ==> !((#[trigger] v[jj]).head() == s@.head() && v[jj].body.len() > s@.body.len()),
        decreases sv@.len() - j,
    {
        let t = &sv[j];
        assert(v[j as int] == t@);
        if t.body[0] == s.body[0] && t.body.len() > s.body.len() {
            return true;
        }
        j += 1;
    }
    false
}

/// The slots of the first `i + 1` snakes are those of the first `i` and
/// the slot of snake `i`.
pub proof fn lemma_has_id_take(s: Seq<SnakeModel>, i: int, x: SnakeID)
    requires
        0 <= i < s.len(),
    ensures
        has_id(s.take(i + 1), x) == (has_id(s.take(i), x) || x == s[i].id),
{
    let t = s.take(i + 1);
    let t0 = s.take(i);
    if has_id(t, x) {
        let k = choose|k: int| 0 <= k < t.len() && #[trigger] t[k].id == x;
        if k < i {
            assert(t0[k].id == x);
        }
    }
    if has_id(t0, x) {
        let k = choose|k: int| 0 <= k < t0.len() && #[trigger] t0[k].id == x;
        assert(t[k].id == x);
    }
    if x == s[i].id {
        assert(t[i].id == x);
    }
}

/// Whether `c` is among `cells`.
pub fn contains_coord(cells: &Vec<Coord>, c: Coord) -> (r: bool)
    ensures
        r == cells@.contains(c),
{
    let mut j: usize = 0;
    while j < cells.len()
        invariant
            j <= cells@.len(),
            forall|jj: int| 0 <= jj < j ==> cells@[jj] != c,
        decreases cells@.len() - j,
    {
        if cells[j] == c {
            return true;
        }
        j += 1;
    }
    false
}

/// Whether some snake of `sv` has its head on `c`.
fn head_on_cell(sv: &Vec<Snake>, c: Coord) -> (r: bool)
    requires
        forall|j: int| 0 <= j < sv@.len() ==> (#[trigger] sv@[j]).body@.len() >= 1,
    ensures
        r == head_at(snakes_view(sv@), c),
{
    let ghost v = snakes_view(sv@);
    let mut j: usize = 0;
    while j < sv.len()
        invariant
            v == snakes_view(sv@),
            j <= sv@.len(),
            forall|j: int| 0 <= j < sv@.len() ==> (#[trigger] sv@[j]).body@.len() >= 1,
            forall|jj: int| 0 <= jj < j ==> (#[trigger] v[jj]).head() != c,
        decreases sv@.len() - j,
    {
        assert(v[j as int] == sv@[j as int]@);
        if sv[j].body[0] == c {
            return true;
        }
        j += 1;
    }
    false
}

impl Game {
    /// Advances the game by one turn in which every snake moves as `moves`
    /// says: all snakes move, those that starve, leave the board or run into
    /// an occupied cell are removed, head-on collisions are settled, and the
    /// survivors on food eat it. Returns the new game and, in slot order,
    /// each eliminated snake with how it died.
    pub fn step(&self, moves: &HashMap<SnakeID, Direction>) -> (r: (Game, Vec<(SnakeID, DeathKind)>))
        requires
            self@.wf(),
            self@.complete_moves(moves@),
        ensures
            r.0@ == step_spec(self@, moves@),
            r.1@ == deaths_spec(self@, moves@),
            r.0@.snakes.len() <= self@.snakes.len(),
    {
        let ghost g = self@;
        let ghost mv = moves@;
        let board = self.board;
        proof {
            assert forall|i: int| 0 <= i < self.snakes@.len() implies (#[trigger] self.snakes@[i])@.wf_on(board) by {
                assert(g.snakes[i] == self.snakes@[i]@);
            }
            assert forall|i: int| 0 <= i < self.snakes@.len() implies moves@.contains_key(#[trigger] self.snakes@[i].id) by {
                assert(g.snakes[i] == self.snakes@[i]@);
                assert(moves@.contains_key(g.snakes[i].id));
            }
        }
        proof {
            assert forall|i: int| 0 <= i < self.hazards@.len() implies board.contains_spec(#[trigger] self.hazards@[i]) by {
                assert(g.hazards[i] == self.hazards@[i]);
            }
        }
        // every snake moves
        let moved = move_all(&self.snakes, moves, &board);
        let ghost ms = moved_snakes(g, mv);
        assert(snakes_view(moved@) == ms);
        proof {
            assert forall|i: int| 0 <= i < moved@.len() implies (#[trigger] moved@[i]).body@.len() >= 1 by {
                assert(ms[i] == moved@[i]@);
            }
        }
        let free = calculate_free_space(&moved, &self.hazards, &board);

        // snakes that starve, leave the board or hit an occupied cell
        let ghost pa = alone_pred(ms, g.hazards, board);
        let mut alone: Vec<bool> = Vec::new();
        let mut first: Vec<Snake> = Vec::new();
        let mut i: usize = 0;
        while i < moved.len()
            invariant
                board.wf(),
                board == g.board,
                ms == snakes_view(moved@),
                pa == alone_pred(ms, g.hazards, board),
                forall|i: int| 0 <= i < moved@.len() ==> (#[trigger] moved@[i]).body@.len() >= 1,
                free@.len() == board.area(),
                forall|c: Coord|
                    board.contains_spec(c) ==> #[trigger] free@[board.index_of(c)] == !occupied(ms, g.hazards, c),
                i <= moved@.len(),
                alone@.len() == i,
                forall|j: int| 0 <= j < i ==> #[trigger] alone@[j] == survives_alone(ms, g.hazards, board, ms[j]),
                snakes_view(first@) == ms.take(i as int).filter(pa),
                forall|j: int| 0 <= j < first@.len() ==> (#[trigger] first@[j]).body@.len() >= 1,
            decreases moved@.len() - i,
        {
            let ok = alive_alone(&free, &board, &moved[i], Ghost(ms), Ghost(g.hazards));
            assert(ms[i as int] == moved@[i as int]@);
            proof {
                lemma_take_push(ms, i as int);
                ms.take(i as int).lemma_filter_push(ms[i as int], pa);
            }
            alone.push(ok);
            if ok {
                let d = moved[i].duplicate();
                proof {
                    lemma_view_push(first@, d);
                }
                first.push(d);
            }
            i += 1;
        }
        assert(ms.take(moved@.len() as int) =~= ms);
        let ghost sv1 = snakes_view(first@);
        assert(sv1 == first_survivors(g, mv));

        // head-on collisions
        let ghost ps = standing_pred(sv1);
        let mut standing: Vec<Snake> = Vec::new();
        let mut i: usize = 0;
        while i < first.len()
            invariant
                sv1 == snakes_view(first@),
                ps == standing_pred(sv1),
                forall|j: int| 0 <= j < first@.len() ==> (#[trigger] first@[j]).body@.len() >= 1,
                i <= first@.len(),
                snakes_view(standing@) == sv1.take(i as int).filter(ps),
                forall|j: int| 0 <= j < standing@.len() ==> (#[trigger] standing@[j]).body@.len() >= 1,
            decreases first@.len() - i,
        {
            let lost = head_on_loss(&first, &first[i]);
            assert(sv1[i as int] == first@[i as int]@);
            proof {
                lemma_take_push(sv1, i as int);
                sv1.take(i as int).lemma_filter_push(sv1[i as int], ps);
            }
            if !lost {
                let d = first[i].duplicate();
                proof {
                    lemma_view_push(standing@, d);
                }
                standing.push(d);
            }
            i += 1;
        }
        assert(sv1.take(first@.len() as int) =~= sv1);
        let ghost sv2 = snakes_view(standing@);
        assert(sv2 == final_survivors(g, mv));

        // survivors on food eat it
        let ghost ff = feed_fn(g.food);
        let mut fed: Vec<Snake> = Vec::new();
        let mut i: usize = 0;
        while i < standing.len()
            invariant
                sv2 == snakes_view(standing@),
                ff == feed_fn(g.food),
                g.food == self.food@,
                forall|j: int| 0 <= j < standing@.len() ==> (#[trigger] standing@[j]).body@.len() >= 1,
                i <= standing@.len(),
                snakes_view(fed@) == sv2.map_values(ff).take(i as int),
            decreases standing@.len() - i,
        {
            let mut s = standing[i].duplicate();
            assert(sv2[i as int] == standing@[i as int]@);
            let ghost before = s@;
            if contains_coord(&self.food, s.body[0]) {
                let tail = s.body[s.body.len() - 1];
                s.body.push_back(tail);
                s.health = MAX_HEALTH;
            }
            proof {
                assert(s@ == feed(before, g.food)) by {
                    if g.food.contains(before.head()) {
                        assert(s.body@ =~= before.body.push(before.body.last()));
                    }
                }
                lemma_view_push(fed@, s);
                lemma_take_push(sv2.map_values(ff), i as int);
            }
            fed.push(s);
            i += 1;
        }
        assert(sv2.map_values(ff).take(standing@.len() as int) =~= sv2.map_values(ff));

        // eaten food disappears
        let ghost pu = uneaten_pred(sv2);
        let mut food: Vec<Coord> = Vec::new();
        let mut i: usize = 0;
        while i < self.food.len()
            invariant
                sv2 == snakes_view(standing@),
                pu == uneaten_pred(sv2),
                forall|j: int| 0 <= j < standing@.len() ==> (#[trigger] standing@[j]).body@.len() >= 1,
                i <= self.food@.len(),
                food@ == self.food@.take(i as int).filter(pu),
            decreases self.food@.len() - i,
        {
            let c = self.food[i];
            let eaten = head_on_cell(&standing, c);
            proof {
                lemma_take_push(self.food@, i as int);
                self.food@.take(i as int).lemma_filter_push(c, pu);
            }
            if !eaten {
                food.push(c);
            }
            i += 1;
        }
        assert(self.food@.take(self.food@.len() as int) =~= self.food@);

        // how each eliminated snake died
        let ghost pd = died_pred(ms, sv1, g.hazards, board);
        let ghost fk = death_entry_fn(ms, sv1, g.hazards, board);
        let mut deaths: Vec<(SnakeID, DeathKind)> = Vec::new();
        let mut i: usize = 0;
        while i < moved.len()
            invariant
                ms == snakes_view(moved@),
                sv1 == snakes_view(first@),
                pd == died_pred(ms, sv1, g.hazards, board),
                fk == death_entry_fn(ms, sv1, g.hazards, board),
                forall|i: int| 0 <= i < moved@.len() ==> (#[trigger] moved@[i]).body@.len() >= 1,
                forall|j: int| 0 <= j < first@.len() ==> (#[trigger] first@[j]).body@.len() >= 1,
                alone@.len() == moved@.len(),
                forall|j: int| 0 <= j < moved@.len() ==> #[trigger] alone@[j] == survives_alone(ms, g.hazards, board, ms[j]),
                i <= moved@.len(),
                deaths@ == ms.take(i as int).filter(pd).map_values(fk),
            decreases moved@.len() - i,
        {
            let s = &moved[i];
            assert(ms[i as int] == s@);
            let ok = alone[i];
            let lost = head_on_loss(&first, s);
            proof {
                lemma_take_push(ms, i as int);
                ms.take(i as int).lemma_filter_push(s@, pd);
            }
            if !ok || lost {
                let kind = if s.id == ME && ok && ties_rival(&first, s) && !longer_rival(&first, s) {
                    DeathKind::Honourable
                } else {
                    DeathKind::Normal
                };
                proof {
                    lemma_map_push(ms.take(i as int).filter(pd), s@, fk);
                }
                deaths.push((s.id, kind));
            }
            i += 1;
        }
        assert(ms.take(moved@.len() as int) =~= ms);

        let prev_food = copy_coords(&self.food);
        let hazards = copy_coords(&self.hazards);
        let next = Game {
            snakes: fed,
            prev_snakes: moved,
            food,
            prev_food,
            hazards,
            board,
            multisnake: self.multisnake,
        };
        (next, deaths)
    }
}

proof fn lemma_filter_keeps_ascending(s: Seq<SnakeModel>, p: spec_fn(SnakeModel) -> bool)
    requires
        ids_ascending(s),
    ensures
        ids_ascending(s.filter(p)),
    decreases s.len(),
{
    reveal(Seq::filter);
    if s.len() > 0 {
        let rest = s.drop_last();
        assert(ids_ascending(rest));
        lemma_filter_keeps_ascending(rest, p);
        if p(s.last()) {
            let f = rest.filter(p);
            assert forall|i: int| 0 <= i < f.len() implies f[i].id < s.last().id by {
                assert(f.contains(f[i]));
                rest.lemma_filter_contains_rev(p, f[i]);
                let k = choose|k: int| 0 <= k < rest.len() && rest[k] == f[i];
                assert(s[k] == rest[k]);
            }
            assert(s.filter(p) == f.push(s.last()));
        }
    }
}

proof fn lemma_filter_drops_one(s: Seq<Coord>, p: spec_fn(Coord) -> bool, x: Coord)
    requires
        s.contains(x),
        !p(x),
    ensures
        s.filter(p).len() < s.len(),
    decreases s.len(),
{
    reveal(Seq::filter);
    let rest = s.drop_last();
    if s.last() == x {
        rest.lemma_filter_len(p);
    } else {
        let k = choose|k: int| 0 <= k < s.len() && s[k] == x;
        assert(rest[k] == x);
        lemma_filter_drops_one(rest, p, x);
    }
}

/// A snake left standing after a turn is one of the moved snakes and
/// survived on its own.
proof fn lemma_final_survivor_origin(g: GameModel, moves: Map<SnakeID, Direction>, i: int)
    requires
        0 <= i < final_survivors(g, moves).len(),
    ensures
        exists|k: int|
            0 <= k < g.snakes.len() && final_survivors(g, moves)[i] == move_snake(
                #[trigger] g.snakes[k],
                moves[g.snakes[k].id],
            ),
        survives_alone(moved_snakes(g, moves), g.hazards, g.board, final_survivors(g, moves)[i]),
{
    let ms = moved_snakes(g, moves);
    let sv1 = first_survivors(g, moves);
    let sv2 = final_survivors(g, moves);
    let s = sv2[i];
    assert(sv2.contains(s));
    sv1.lemma_filter_contains_rev(standing_pred(sv1), s);
    let j = choose|j: int| 0 <= j < sv1.len() && sv1[j] == s;
    assert(alone_pred(ms, g.hazards, g.board)(sv1[j]));
    assert(sv1.contains(s));
    ms.lemma_filter_contains_rev(alone_pred(ms, g.hazards, g.board), s);
    let k = choose|k: int| 0 <= k < ms.len() && ms[k] == s;
    assert(ms[k] == move_snake(g.snakes[k], moves[g.snakes[k].id]));
}

/// A turn keeps a playable game playable.
pub proof fn lemma_step_wf(g: GameModel, moves: Map<SnakeID, Direction>)
    requires
        g.wf(),
        g.complete_moves(moves),
    ensures
        step_spec(g, moves).wf(),
{
    let ms = moved_snakes(g, moves);
    let sv1 = first_survivors(g, moves);
    let sv2 = final_survivors(g, moves);
    let n = step_spec(g, moves);
    assert(ids_ascending(ms)) by {
        assert forall|i: int, j: int| 0 <= i < j < ms.len() implies ms[i].id < ms[j].id by {
            assert(ms[i].id == g.snakes[i].id && ms[j].id == g.snakes[j].id);
        }
    }
    lemma_filter_keeps_ascending(ms, alone_pred(ms, g.hazards, g.board));
    lemma_filter_keeps_ascending(sv1, standing_pred(sv1));
    assert(ids_ascending(n.snakes)) by {
        assert forall|i: int, j: int| 0 <= i < j < n.snakes.len() implies n.snakes[i].id < n.snakes[j].id by {
            assert(n.snakes[i].id == sv2[i].id && n.snakes[j].id == sv2[j].id);
        }
    }
    assert forall|i: int| 0 <= i < n.snakes.len() implies (#[trigger] n.snakes[i]).wf_on(n.board)
        && n.snakes[i].body.len() + n.food.len() <= MAX_LEN by {
        lemma_final_survivor_origin(g, moves, i);
        let k = choose|k: int|
            0 <= k < g.snakes.len() && sv2[i] == move_snake(#[trigger] g.snakes[k], moves[g.snakes[k].id]);
        let old = g.snakes[k];
        let s = sv2[i];
        assert(old.wf_on(g.board));
        assert forall|q: int| 0 <= q < s.body.len() implies g.board.contains_spec(#[trigger] s.body[q]) by {
            if q > 0 {
                assert(s.body[q] == old.body[q - 1]);
            }
        }
        assert(n.snakes[i] == feed(s, g.food));
        if g.food.contains(s.head()) {
            assert(head_at(sv2, s.head()));
            lemma_filter_drops_one(g.food, uneaten_pred(sv2), s.head());
            let fs = feed(s, g.food);
            assert forall|q: int| 0 <= q < fs.body.len() implies g.board.contains_spec(#[trigger] fs.body[q]) by {
                if q < s.body.len() {
                    assert(fs.body[q] == s.body[q]);
                } else {
                    assert(fs.body[q] == s.body[s.body.len() - 1]);
                }
            }
        } else {
            g.food.lemma_filter_len(uneaten_pred(sv2));
        }
    }
}

/// A turn never adds snakes to the game.
pub proof fn lemma_step_never_adds_snakes(g: GameModel, moves: Map<SnakeID, Direction>)
    ensures
        step_spec(g, moves).snakes.len() <= g.snakes.len(),
{
    let ms = moved_snakes(g, moves);
    let sv1 = first_survivors(g, moves);
    ms.lemma_filter_len(alone_pred(ms, g.hazards, g.board));
    sv1.lemma_filter_len(standing_pred(sv1));
}

/// A turn is a function of the game and the moves: equal inputs give equal
/// games and equal eliminations.
pub proof fn lemma_step_deterministic(
    g1: GameModel,
    g2: GameModel,
    m1: Map<SnakeID, Direction>,
    m2: Map<SnakeID, Direction>,
)
    requires
        g1 == g2,
        m1 == m2,
    ensures
        step_spec(g1, m1) == step_spec(g2, m2),
        deaths_spec(g1, m1) == deaths_spec(g2, m2),
{
}

/// A moved snake that is eliminated in the turn appears among the deaths
/// with the kind `death_kind_spec` gives it.
proof fn lemma_death_recorded(g: GameModel, moves: Map<SnakeID, Direction>, a: int)
    requires
        0 <= a < moved_snakes(g, moves).len(),
        died(
            moved_snakes(g, moves),
            first_survivors(g, moves),
            g.hazards,
            g.board,
            moved_snakes(g, moves)[a],
        ),
    ensures
        deaths_spec(g, moves).contains(
            (
                moved_snakes(g, moves)[a].id,
                death_kind_spec(
                    moved_snakes(g, moves),
                    first_survivors(g, moves),
                    g.hazards,
                    g.board,
                    moved_snakes(g, moves)[a],
                ),
            ),
        ),
{
    let ms = moved_snakes(g, moves);
    let sv1 = first_survivors(g, moves);
    let pd = died_pred(ms, sv1, g.hazards, g.board);
    let fk = death_entry_fn(ms, sv1, g.hazards, g.board);
    ms.lemma_filter_contains(pd, a);
    let f = ms.filter(pd);
    let idx = choose|idx: int| 0 <= idx < f.len() && f[idx] == ms[a];
    assert(f.map_values(fk)[idx] == fk(ms[a]));
}

/// A snake left in the game after a turn with slot `id` is the moved snake
/// of that slot, and it did not lose a head-on collision.
proof fn lemma_remaining_snake(g: GameModel, moves: Map<SnakeID, Direction>, i: int)
    requires
        g.wf(),
        0 <= i < step_spec(g, moves).snakes.len(),
    ensures
        exists|k: int|
            0 <= k < g.snakes.len() && #[trigger] moved_snakes(g, moves)[k].id == step_spec(g, moves).snakes[i].id
                && moved_snakes(g, moves)[k] == final_survivors(g, moves)[i],
        !loses_head_on(first_survivors(g, moves), final_survivors(g, moves)[i]),
{
    let sv1 = first_survivors(g, moves);
    lemma_final_survivor_origin(g, moves, i);
    let k = choose|k: int|
        0 <= k < g.snakes.len() && final_survivors(g, moves)[i] == move_snake(#[trigger] g.snakes[k], moves[g.snakes[k].id]);
    assert(moved_snakes(g, moves)[k] == final_survivors(g, moves)[i]);
    assert(step_spec(g, moves).snakes[i] == feed(final_survivors(g, moves)[i], g.food));
    assert(moved_snakes(g, moves)[k].id == step_spec(g, moves).snakes[i].id);
    sv1.lemma_filter_pred(standing_pred(sv1), i);
}

/// Equal-length head-on collision between the moved snakes `a` and `b`, both
/// of which survived on their own and met no third snake on that cell: when
/// `a` is our own snake it dies honourably and `b` stays in the game; when
/// neither is ours both die a normal death.
pub proof fn lemma_equal_head_on(g: GameModel, moves: Map<SnakeID, Direction>, a: int, b: int)
    requires
        g.wf(),
        g.complete_moves(moves),
        0 <= a < g.snakes.len(),
        0 <= b < g.snakes.len(),
        a != b,
        survives_alone(moved_snakes(g, moves), g.hazards, g.board, moved_snakes(g, moves)[a]),
        survives_alone(moved_snakes(g, moves), g.hazards, g.board, moved_snakes(g, moves)[b]),
        moved_snakes(g, moves)[a].head() == moved_snakes(g, moves)[b].head(),
        moved_snakes(g, moves)[a].body.len() == moved_snakes(g, moves)[b].body.len(),
        forall|k: int|
            0 <= k < g.snakes.len() && k != a && k != b && survives_alone(
                moved_snakes(g, moves),
                g.hazards,
                g.board,
                #[trigger] moved_snakes(g, moves)[k],
            ) ==> moved_snakes(g, moves)[k].head() != moved_snakes(g, moves)[a].head(),
    ensures
        g.snakes[a].id == ME ==> {
            &&& !has_id(step_spec(g, moves).snakes, ME)
            &&& deaths_spec(g, moves).contains((ME, DeathKind::Honourable))
            &&& has_id(step_spec(g, moves).snakes, g.snakes[b].id)
        },
        g.snakes[a].id != ME && g.snakes[b].id != ME ==> {
            &&& !has_id(step_spec(g, moves).snakes, g.snakes[a].id)
            &&& !has_id(step_spec(g, moves).snakes, g.snakes[b].id)
            &&& deaths_spec(g, moves).contains((g.snakes[a].id, DeathKind::Normal))
            &&& deaths_spec(g, moves).contains((g.snakes[b].id, DeathKind::Normal))
        },
{
    let ms = moved_snakes(g, moves);
    let sv1 = first_survivors(g, moves);
    let sv2 = final_survivors(g, moves);
    let n = step_spec(g, moves);
    let pa = alone_pred(ms, g.hazards, g.board);
    assert(ms[a].id == g.snakes[a].id && ms[b].id == g.snakes[b].id);
    assert(ms[a].id != ms[b].id) by {
        if a < b {
            assert(g.snakes[a].id < g.snakes[b].id);
        } else {
            assert(g.snakes[b].id < g.snakes[a].id);
        }
    }
    ms.lemma_filter_contains(pa, a);
    ms.lemma_filter_contains(pa, b);
    let ja = choose|j: int| 0 <= j < sv1.len() && sv1[j] == ms[a];
    let jb = choose|j: int| 0 <= j < sv1.len() && sv1[j] == ms[b];
    // a snake of the first survivors on the collision cell is `a` or `b`
    assert forall|j: int| 0 <= j < sv1.len() && (#[trigger] sv1[j]).head() == ms[a].head() implies sv1[j] == ms[a]
        || sv1[j] == ms[b] by {
        ms.lemma_filter_pred(pa, j);
        assert(sv1.contains(sv1[j]));
        ms.lemma_filter_contains_rev(pa, sv1[j]);
        let k = choose|k: int| 0 <= k < ms.len() && ms[k] == sv1[j];
    }
    // a slot in the new game belongs to a moved snake that did not lose
    assert forall|id: SnakeID| #[trigger] has_id(n.snakes, id) implies exists|k: int|
        0 <= k < g.snakes.len() && ms[k].id == id && !loses_head_on(sv1, ms[k]) by {
        let i = choose|i: int| 0 <= i < n.snakes.len() && #[trigger] n.snakes[i].id == id;
        lemma_remaining_snake(g, moves, i);
        let k = choose|k: int|
            0 <= k < g.snakes.len() && #[trigger] ms[k].id == n.snakes[i].id && ms[k] == sv2[i];
    }
    // distinct slots
    assert forall|k: int| 0 <= k < g.snakes.len() && #[trigger] ms[k].id == ms[a].id implies k == a by {
        if k < a {
            assert(g.snakes[k].id < g.snakes[a].id);
        } else if k > a {
            assert(g.snakes[a].id < g.snakes[k].id);
        }
    }
    assert forall|k: int| 0 <= k < g.snakes.len() && #[trigger] ms[k].id == ms[b].id implies k == b by {
        if k < b {
            assert(g.snakes[k].id < g.snakes[b].id);
        } else if k > b {
            assert(g.snakes[b].id < g.snakes[k].id);
        }
    }
    if g.snakes[a].id == ME {
        assert(beats(sv1[jb], ms[a]));
        assert(loses_head_on(sv1, ms[a]));
        assert(!has_id(n.snakes, ME));
        assert(ties_with_rival(sv1, ms[a])) by {
            assert(sv1[jb].id != ms[a].id);
        }
        assert(!longer_on_cell(sv1, ms[a])) by {
            assert forall|j: int| 0 <= j < sv1.len() && (#[trigger] sv1[j]).head() == ms[a].head() implies sv1[j].body.len() <= ms[a].body.len() by {
                assert(sv1[j] == ms[a] || sv1[j] == ms[b]);
            }
        }
        lemma_death_recorded(g, moves, a);
        assert(!loses_head_on(sv1, ms[b])) by {
            assert forall|j: int| 0 <= j < sv1.len() implies !beats(#[trigger] sv1[j], ms[b]) by {
                if sv1[j].head() == ms[a].head() {
                    assert(sv1[j] == ms[a] || sv1[j] == ms[b]);
                }
            }
        }
        let pst = standing_pred(sv1);
        sv1.lemma_filter_contains(pst, jb);
        let i = choose|i: int| 0 <= i < sv2.len() && sv2[i] == ms[b];
        assert(n.snakes[i].id == ms[b].id);
        assert(has_id(n.snakes, g.snakes[b].id));
    }
    if g.snakes[a].id != ME && g.snakes[b].id != ME {
        assert(beats(sv1[jb], ms[a]));
        assert(beats(sv1[ja], ms[b]));
        assert(!has_id(n.snakes, g.snakes[a].id));
        assert(!has_id(n.snakes, g.snakes[b].id));
        lemma_death_recorded(g, moves, a);
        lemma_death_recorded(g, moves, b);
    }
}

/// A snake with one point of health left is eliminated in the next turn,
/// with a normal death, whatever it moves onto: starvation is settled before
/// food is eaten.
pub proof fn lemma_last_health_point(g: GameModel, moves: Map<SnakeID, Direction>, a: int)
    requires
        g.wf(),
        g.complete_moves(moves),
        0 <= a < g.snakes.len(),
        g.snakes[a].health == 1,
    ensures
        !has_id(step_spec(g, moves).snakes, g.snakes[a].id),
        deaths_spec(g, moves).contains((g.snakes[a].id, DeathKind::Normal)),
{
    let ms = moved_snakes(g, moves);
    let n = step_spec(g, moves);
    assert(ms[a].health == 0);
    assert(!survives_alone(ms, g.hazards, g.board, ms[a]));
    lemma_death_recorded(g, moves, a);
    if has_id(n.snakes, g.snakes[a].id) {
        let i = choose|i: int| 0 <= i < n.snakes.len() && #[trigger] n.snakes[i].id == g.snakes[a].id;
        lemma_remaining_snake(g, moves, i);
        lemma_final_survivor_origin(g, moves, i);
        let k = choose|k: int|
            0 <= k < g.snakes.len() && #[trigger] ms[k].id == n.snakes[i].id && ms[k] == final_survivors(g, moves)[i];
        assert(ms[k].id == g.snakes[k].id);
        if k < a {
            assert(g.snakes[k].id < g.snakes[a].id);
        } else if k > a {
            assert(g.snakes[a].id < g.snakes[k].id);
        }
    }
}

} // verus!
