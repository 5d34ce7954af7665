//! The cache of final scores shared by every depth of a search.

use std::collections::{HashMap, VecDeque};
use vstd::prelude::*;
use crate::evaluate::{scores_wf, terminal_scores};
use crate::game::{snakes_view, Game, GameModel};
use crate::score_factors::{DeathKind, ScoreFactors};
use crate::snake::{Snake, SnakeID, SnakeModel};
use crate::types::Coord;

verus! {

broadcast use vstd::std_specs::hash::group_hash_axioms;

/// A game reached after a turn, the eliminations of that turn, and the final
/// scores they give.
pub struct MemoEntry {
    pub game: Game,
    pub deaths: Vec<(SnakeID, DeathKind)>,
    pub scores: HashMap<SnakeID, ScoreFactors>,
}

impl MemoEntry {
    /// The entry holds the final scores of its game and eliminations.
    pub open spec fn wf(&self) -> bool {
        &&& self.game@.wf()
        &&& self.scores@ == terminal_scores(self.game@, self.deaths@)
        &&& scores_wf(self.scores@)
    }
}

/// Final scores already computed, filed under a hash of the game; a lookup
/// compares the whole game and the eliminations, so a hash collision never
/// hands out another state's scores.
pub struct KnownScores {
    pub table: HashMap<u64, Vec<MemoEntry>>,
}

pub fn coords_equal(a: &Vec<Coord>, b: &Vec<Coord>) -> (r: bool)
    ensures
        r == (a@ == b@),
{
    if a.len() != b.len() {
        return false;
    }
    let mut i: usize = 0;
    while i < a.len()
        invariant
            a@.len() == b@.len(),
            i <= a@.len(),
            forall|k: int| 0 <= k < i ==> a@[k] == b@[k],
        decreases a@.len() - i,
    {
        if a[i] != b[i] {
            return false;
        }
        i += 1;
    }
    assert(a@ =~= b@);
    true
}

fn body_equal(a: &VecDeque<Coord>, b: &VecDeque<Coord>) -> (r: bool)
    ensures
        r == (a@ == b@),
{
    if a.len() != b.len() {
        return false;
    }
    let mut i: usize = 0;
    while i < a.len()
        invariant
            a@.len() == b@.len(),
            i <= a@.len(),
            forall|k: int| 0 <= k < i ==> a@[k] == b@[k],
        decreases a@.len() - i,
    {
        if a[i] != b[i] {
            return false;
        }
        i += 1;
    }
    assert(a@ =~= b@);
    true
}

fn snakes_equal(a: &Vec<Snake>, b: &Vec<Snake>) -> (r: bool)
    ensures
        r == (snakes_view(a@) == snakes_view(b@)),
{
    let ghost va = snakes_view(a@);
    let ghost vb = snakes_view(b@);
    if a.len() != b.len() {
        assert(va.len() != vb.len());
        return false;
    }
    let mut i: usize = 0;
    while i < a.len()
        invariant
            va == snakes_view(a@),
            vb == snakes_view(b@),
            a@.len() == b@.len(),
            i <= a@.len(),
            forall|k: int| 0 <= k < i ==> va[k] == vb[k],
        decreases a@.len() - i,
    {
        assert(va[i as int] == a@[i as int]@ && vb[i as int] == b@[i as int]@);
        if a[i].id != b[i].id || a[i].health != b[i].health || !body_equal(&a[i].body, &b[i].body) {
            return false;
        }
        i += 1;
    }
    assert(va =~= vb);
    true
}

fn deaths_equal(a: &Vec<(SnakeID, DeathKind)>, b: &Vec<(SnakeID, DeathKind)>) -> (r: bool)
    ensures
        r == (a@ == b@),
{
    if a.len() != b.len() {
        return false;
    }
    let mut i: usize = 0;
    while i < a.len()
        invariant
            a@.len() == b@.len(),
            i <= a@.len(),
            forall|k: int| 0 <= k < i ==> a@[k] == b@[k],
        decreases a@.len() - i,
    {
        let (ia, ka) = a[i];
        let (ib, kb) = b[i];
        if ia != ib || ka != kb {
            return false;
        }
        i += 1;
    }
    assert(a@ =~= b@);
    true
}

/// Whether two games are the same state.
pub fn games_equal(a: &Game, b: &Game) -> (r: bool)
    ensures
        r == (a@ == b@),
{
    a.board == b.board && a.multisnake == b.multisnake && snakes_equal(&a.snakes, &b.snakes)
        && snakes_equal(&a.prev_snakes, &b.prev_snakes) && coords_equal(&a.food, &b.food)
        && coords_equal(&a.prev_food, &b.prev_food) && coords_equal(&a.hazards, &b.hazards)
}

pub const HASH_SEED: u64 = 0xcbf2_9ce4_8422_2325;
pub const HASH_PRIME: u64 = 0x0100_0000_01b3;

pub open spec fn mix(h: u64, v: u64) -> u64 {
    (h ^ v).wrapping_mul(HASH_PRIME)
}

/// Folds a snake's slot, health, length and head into `h`.
pub open spec fn mix_snake(h: u64, s: SnakeModel) -> u64 {
    let h1 = mix(mix(mix(h, s.id as u64), s.health as u64), s.body.len() as u64);
    if s.body.len() > 0 {
        mix(mix(h1, s.head().x as u64), s.head().y as u64)
    } else {
        h1
    }
}

pub open spec fn snakes_hash(s: Seq<SnakeModel>) -> u64
    decreases s.len(),
{
    if s.len() == 0 {
        HASH_SEED
    } else {
        mix_snake(snakes_hash(s.drop_last()), s.last())
    }
}

/// The hash a game is filed under: its snakes, then the number of food cells.
pub open spec fn hash_of(g: GameModel) -> u64 {
    mix(snakes_hash(g.snakes), g.food.len() as u64)
}

fn mix_in(h: u64, v: u64) -> (r: u64)
    ensures
        r == mix(h, v),
{
    (h ^ v).wrapping_mul(HASH_PRIME)
}

/// The hash a game is filed under.
pub fn state_hash(game: &Game) -> (r: u64)
    ensures
        r == hash_of(game@),
{
    let ghost v = snakes_view(game.snakes@);
    let mut h: u64 = HASH_SEED;
    let mut i: usize = 0;
    while i < game.snakes.len()
        invariant
            v == snakes_view(game.snakes@),
            i <= game.snakes@.len(),
            h == snakes_hash(v.take(i as int)),
        decreases game.snakes@.len() - i,
    {
        let s = &game.snakes[i];
        assert(v[i as int] == s@);
        h = mix_in(h, s.id as u64);
        h = mix_in(h, s.health as u64);
        h = mix_in(h, s.body.len() as u64);
        if s.body.len() > 0 {
            h = mix_in(h, s.body[0].x as u64);
            h = mix_in(h, s.body[0].y as u64);
        }
        assert(v.take(i + 1).drop_last() =~= v.take(i as int));
        i += 1;
    }
    assert(v.take(i as int) =~= v);
    mix_in(h, game.food.len() as u64)
}

impl KnownScores {
    /// Every entry holds the final scores of its own game and eliminations,
    /// and is filed under the hash of its game.
    pub open spec fn wf(&self) -> bool {
        forall|h: u64, i: int|
            #![trigger self.table@[h]@[i]]
            self.table@.contains_key(h) && 0 <= i < self.table@[h]@.len() ==> self.table@[h]@[i].wf()
                && hash_of(self.table@[h]@[i].game@) == h
    }

    /// Scores for this game and these eliminations are filed.
    pub open spec fn files(&self, g: GameModel, deaths: Seq<(SnakeID, DeathKind)>) -> bool {
        let h = hash_of(g);
        &&& self.table@.contains_key(h)
        &&& exists|i: int|
            0 <= i < self.table@[h]@.len() && (#[trigger] self.table@[h]@[i]).game@ == g
                && self.table@[h]@[i].deaths@ == deaths
    }

    /// An empty cache.
    pub fn new() -> (r: KnownScores)
        ensures
            r.wf(),
            r.table@ == Map::<u64, Vec<MemoEntry>>::empty(),
    {
        KnownScores { table: HashMap::new() }
    }

    /// The final scores filed for this game and these eliminations, if any.
    pub fn lookup(&self, game: &Game, deaths: &Vec<(SnakeID, DeathKind)>) -> (r: Option<HashMap<SnakeID, ScoreFactors>>)
        requires
            self.wf(),
        ensures
            r is Some <==> self.files(game@, deaths@),
            r matches Some(m) ==> m@ == terminal_scores(game@, deaths@) && scores_wf(m@),
    {
        let h = state_hash(game);
        match self.table.get(&h) {
            None => None,
            Some(bucket) => {
                let mut i: usize = 0;
                while i < bucket.len()
                    invariant
                        self.wf(),
                        self.table@.contains_key(h),
                        h == hash_of(game@),
                        *bucket == self.table@[h],
                        i <= bucket@.len(),
                        forall|j: int| 0 <= j < i ==> !((#[trigger] bucket@[j]).game@ == game@ && bucket@[j].deaths@ == deaths@),
                    decreases bucket@.len() - i,
                {
                    let e = &bucket[i];
                    assert(self.table@[h]@[i as int].wf());
                    if games_equal(&e.game, game) && deaths_equal(&e.deaths, deaths) {
                        assert(bucket@[i as int].game@ == game@);
                        return Some(e.scores.clone());
                    }
                    i += 1;
                }
                proof {
                    if self.files(game@, deaths@) {
                        let j = choose|j: int|
                            0 <= j < self.table@[h]@.len() && (#[trigger] self.table@[h]@[j]).game@ == game@
                                && self.table@[h]@[j].deaths@ == deaths@;
                        assert(bucket@[j].game@ == game@);
                    }
                }
                None
            },
        }
    }

    /// Files the final scores of a game and its eliminations.
    pub fn record(&mut self, game: Game, deaths: Vec<(SnakeID, DeathKind)>, scores: HashMap<SnakeID, ScoreFactors>)
        requires
            old(self).wf(),
            game@.wf(),
            scores@ == terminal_scores(game@, deaths@),
            scores_wf(scores@),
        ensures
            final(self).wf(),
            final(self).files(game@, deaths@),
            forall|g: GameModel, d: Seq<(SnakeID, DeathKind)>| old(self).files(g, d) ==> final(self).files(g, d),
    {
        let h = state_hash(&game);
        let ghost gv = game@;
        let ghost dv = deaths@;
        let mut bucket = match self.table.remove(&h) {
            Some(b) => b,
            None => Vec::new(),
        };
        let ghost old_bucket = bucket@;
        proof {
            assert forall|i: int| 0 <= i < bucket@.len() implies (#[trigger] bucket@[i]).wf() && hash_of(bucket@[i].game@) == h by {
                assert(old(self).table@.contains_key(h));
                assert(old(self).table@[h]@[i].wf());
            }
        }
        let entry = MemoEntry { game, deaths, scores };
        bucket.push(entry);
        proof {
            assert forall|i: int| 0 <= i < bucket@.len() implies (#[trigger] bucket@[i]).wf() && hash_of(bucket@[i].game@) == h by {
                if i < old_bucket.len() {
                    assert(bucket@[i] == old_bucket[i]);
                }
            }
        }
        self.table.insert(h, bucket);
        proof {
            assert forall|k: u64, i: int|
                #![trigger self.table@[k]@[i]]
                self.table@.contains_key(k) && 0 <= i < self.table@[k]@.len() implies self.table@[k]@[i].wf()
                    && hash_of(self.table@[k]@[i].game@) == k by {
                if k != h {
                    assert(old(self).table@.contains_key(k));
                    assert(old(self).table@[k]@[i].wf());
                }
            }
            let last = self.table@[h]@.len() - 1;
            assert(self.table@[h]@[last].game@ == gv && self.table@[h]@[last].deaths@ == dv);
            assert(self.files(gv, dv));
            assert forall|g: GameModel, d: Seq<(SnakeID, DeathKind)>| old(self).files(g, d) implies self.files(g, d) by {
                let hg = hash_of(g);
                let j = choose|j: int|
                    0 <= j < old(self).table@[hg]@.len() && (#[trigger] old(self).table@[hg]@[j]).game@ == g
                        && old(self).table@[hg]@[j].deaths@ == d;
                if hg == h {
                    assert(self.table@[h]@[j] == old_bucket[j]);
                } else {
                    assert(self.table@[hg]@[j] == old(self).table@[hg]@[j]);
                }
            }
        }
    }
}

} // verus!
