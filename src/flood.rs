//! Reachable-space analysis: how many cells a snake can still get to.

use vstd::prelude::*;
use vstd::set_lib::{lemma_int_range, lemma_len_subset, lemma_map_size, set_int_range};
use vstd::arithmetic::div_mod::lemma_fundamental_div_mod;
use crate::board::Board;
use crate::types::{manhattan_spec, neighbour_spec, Coord, Direction};

verus! {

/// Two cells share an edge.
pub open spec fn adjacent(a: Coord, b: Coord) -> bool {
    manhattan_spec(a, b) == 1
}

/// A cell that a walk may enter: on the board and marked free.
pub open spec fn open_cell(free: Seq<bool>, board: Board, c: Coord) -> bool {
    board.contains_spec(c) && free[board.index_of(c)]
}

/// `p` is a walk from `seed`: it starts there and every later step moves to
/// an adjacent open cell.
pub open spec fn is_walk(free: Seq<bool>, board: Board, seed: Coord, p: Seq<Coord>) -> bool {
    &&& p.len() >= 1
    &&& p[0] == seed
    &&& forall|i: int|
        1 <= i < p.len() ==> open_cell(free, board, #[trigger] p[i]) && adjacent(p[i - 1], p[i])
}

pub open spec fn reachable(free: Seq<bool>, board: Board, seed: Coord, c: Coord) -> bool {
    exists|p: Seq<Coord>| #[trigger] is_walk(free, board, seed, p) && p.last() == c
}

/// The cells reachable from `seed`, the seed included.
pub open spec fn reachable_set(free: Seq<bool>, board: Board, seed: Coord) -> Set<Coord> {
    Set::new(|c: Coord| reachable(free, board, seed, c))
}

/// All cells of the board.
pub open spec fn board_cells(board: Board) -> Set<Coord> {
    Set::new(|c: Coord| board.contains_spec(c))
}

/// Every adjacent cell is the neighbour in some direction.
pub proof fn lemma_adjacent_is_neighbour(a: Coord, b: Coord)
    requires
        adjacent(a, b),
    ensures
        b == neighbour_spec(a, Direction::Left) || b == neighbour_spec(a, Direction::Right)
            || b == neighbour_spec(a, Direction::Up) || b == neighbour_spec(a, Direction::Down),
{
}

/// A set of board cells has at most as many members as the board has cells,
/// and exactly as many when it holds them all.
pub proof fn lemma_cells_len(board: Board, s: Set<Coord>)
    requires
        board.wf(),
        forall|c: Coord| #[trigger] s.contains(c) ==> board.contains_spec(c),
    ensures
        s.finite(),
        s.len() <= board.area(),
        s == board_cells(board) ==> s.len() == board.area(),
{
    board.lemma_area_bounded();
    let f = |c: Coord| board.index_of(c);
    let all = board_cells(board);
    let range = set_int_range(0, board.area());
    lemma_int_range(0, board.area());
    assert forall|c1: Coord, c2: Coord|
        all.contains(c1) && all.contains(c2) && #[trigger] f(c1) == #[trigger] f(c2) implies c1
        == c2 by {
        board.lemma_index_injective(c1, c2);
    }
    assert forall|k: int| range.contains(k) implies #[trigger] all.map(f).contains(k) by {
        let w = board.width as int;
        lemma_fundamental_div_mod(k, w);
        let c = Coord { x: (k % w) as i64, y: (k / w) as i64 };
        assert(0 <= k % w < w) by (nonlinear_arith)
            requires
                w > 0,
        ;
        assert(0 <= k / w < board.height) by (nonlinear_arith)
            requires
                w > 0,
                0 <= k < w * board.height,
                k == w * (k / w) + k % w,
                0 <= k % w < w,
        ;
        assert(f(c) == k) by (nonlinear_arith)
            requires
                k == w * (k / w) + k % w,
                c.x == k % w,
                c.y == k / w,
                f(c) == c.y * w + c.x,
        ;
        assert(all.contains(c));
    }
    assert forall|k: int| #[trigger] all.map(f).contains(k) implies range.contains(k) by {
        let c = choose|c: Coord| all.contains(c) && f(c) == k;
        board.lemma_index_in_range(c);
    }
    assert(all.map(f) =~= range);
    lemma_len_subset(all.map(f), range);
    assert(all.finite()) by {
        let g = |k: int| Coord { x: (k % board.width as int) as i64, y: (k / board.width as int) as i64 };
        assert forall|c: Coord| all.contains(c) implies #[trigger] range.map(g).contains(c) by {
            board.lemma_index_in_range(c);
            let k = f(c);
            assert(range.contains(k));
            let w = board.width as int;
            assert(k % w == c.x && k / w == c.y) by (nonlinear_arith)
                requires
                    k == c.y * w + c.x,
                    0 <= c.x < w,
                    0 <= c.y,
            {
                vstd::arithmetic::div_mod::lemma_fundamental_div_mod_converse(k, w, c.y as int, c.x as int);
            }
        }
        range.lemma_map_finite(g);
        vstd::set_lib::lemma_len_subset(all, range.map(g));
    }
    lemma_map_size(all, range, f);
    lemma_len_subset(s, all);
}

/// Every walk from `seed` stays inside a set that holds the seed and is closed
/// under stepping to an adjacent open cell.
proof fn lemma_walks_stay_inside(free: Seq<bool>, board: Board, seed: Coord, s: Set<Coord>, p: Seq<Coord>, i: int)
    requires
        is_walk(free, board, seed, p),
        0 <= i < p.len(),
        s.contains(seed),
        forall|a: Coord, b: Coord|
            #[trigger] s.contains(a) && adjacent(a, b) && open_cell(free, board, b) ==> #[trigger] s.contains(b),
    ensures
        s.contains(p[i]),
    decreases i,
{
    if i > 0 {
        lemma_walks_stay_inside(free, board, seed, s, p, i - 1);
        assert(open_cell(free, board, p[i]) && adjacent(p[i - 1], p[i]));
    }
}

#[verifier::rlimit(40)]
/// Counts the cells reachable from `seed` through adjacent free cells of the
/// board, the seed included (breadth-first, each cell visited once).
pub fn flood_fill(free: &Vec<bool>, board: &Board, seed: Coord) -> (r: usize)
    requires
        board.wf(),
        free@.len() == board.area(),
        board.contains_spec(seed),
    ensures
        r == reachable_set(free@, *board, seed).len(),
{
    let n = board.cell_count();
    let mut visited: Vec<bool> = Vec::new();
    while visited.len() < n
        invariant
            visited@.len() <= n,
            forall|k: int| 0 <= k < visited@.len() ==> !visited@[k],
        decreases n - visited@.len(),
    {
        visited.push(false);
    }
    let ghost fr = free@;
    let ghost b = *board;
    let seed_index = board.index(seed);
    visited.set(seed_index, true);
    let mut queue: Vec<Coord> = Vec::new();
    queue.push(seed);
    let ghost mut seen: Set<Coord> = set![seed];
    proof {
        assert forall|c: Coord| b.contains_spec(c) implies (seen.contains(c) <==> visited@[b.index_of(c)]) by {
            if visited@[b.index_of(c)] {
                b.lemma_index_in_range(c);
                b.lemma_index_injective(c, seed);
            }
        }
        let w = seq![seed];
        assert(is_walk(fr, b, seed, w));
    }
    let mut head: usize = 0;
    while head < queue.len()
        invariant
            b == *board,
            fr == free@,
            b.wf(),
            fr.len() == b.area(),
            visited@.len() == n,
            n == b.area(),
            seen.finite(),
            seen.len() == queue@.len(),
            head <= queue@.len(),
            seen.contains(seed),
            forall|c: Coord| #[trigger] seen.contains(c) ==> b.contains_spec(c),
            forall|c: Coord| b.contains_spec(c) ==> (seen.contains(c) <==> #[trigger] visited@[b.index_of(c)]),
            forall|j: int| 0 <= j < queue@.len() ==> seen.contains(#[trigger] queue@[j]),
            forall|c: Coord| #[trigger] seen.contains(c) ==> exists|j: int| 0 <= j < queue@.len() && queue@[j] == c,
            forall|c: Coord| #[trigger] seen.contains(c) ==> reachable(fr, b, seed, c),
            forall|j: int, c: Coord|
                0 <= j < head && adjacent(#[trigger] queue@[j], c) && open_cell(fr, b, c) ==> #[trigger] seen.contains(c),
        decreases n - queue@.len(), queue@.len() - head,
    {
        proof {
            lemma_cells_len(b, seen);
        }
        let u = queue[head];
        let dirs = crate::types::Direction::iter();
        let mut k: usize = 0;
        let ghost qlen0 = queue@.len();
        while k < dirs.len()
            invariant
                b == *board,
                fr == free@,
                b.wf(),
                fr.len() == b.area(),
                visited@.len() == n,
                n == b.area(),
                seen.finite(),
                seen.len() == queue@.len(),
                head < qlen0 <= queue@.len(),
                u == queue@[head as int],
                dirs@ == crate::types::all_directions(),
                k <= dirs@.len(),
                seen.contains(seed),
                forall|c: Coord| #[trigger] seen.contains(c) ==> b.contains_spec(c),
                forall|c: Coord| b.contains_spec(c) ==> (seen.contains(c) <==> #[trigger] visited@[b.index_of(c)]),
                forall|j: int| 0 <= j < queue@.len() ==> seen.contains(#[trigger] queue@[j]),
                forall|c: Coord| #[trigger] seen.contains(c) ==> exists|j: int| 0 <= j < queue@.len() && queue@[j] == c,
                forall|c: Coord| #[trigger] seen.contains(c) ==> reachable(fr, b, seed, c),
                forall|j: int, c: Coord|
                    0 <= j < head && adjacent(#[trigger] queue@[j], c) && open_cell(fr, b, c) ==> #[trigger] seen.contains(c),
                forall|kk: int| 0 <= kk < k && open_cell(fr, b, neighbour_spec(u, #[trigger] dirs@[kk])) ==> seen.contains(neighbour_spec(u, dirs@[kk])),
            decreases dirs@.len() - k,
        {
            let d = dirs[k];
            assert(seen.contains(u));
            let c = u.neighbour(d);
            if board.contains(c) {
                let ci = board.index(c);
                if free[ci] && !visited[ci] {
                    proof {
                        assert(!seen.contains(c));
                        lemma_cells_len(b, seen.insert(c));
                        let p = choose|p: Seq<Coord>| #[trigger] is_walk(fr, b, seed, p) && p.last() == u;
                        let p2 = p.push(c);
                        assert(is_walk(fr, b, seed, p2)) by {
                            assert forall|i: int| 1 <= i < p2.len() implies open_cell(fr, b, #[trigger] p2[i]) && adjacent(p2[i - 1], p2[i]) by {
                                if i < p.len() {
                                    assert(p2[i] == p[i] && p2[i - 1] == p[i - 1]);
                                }
                            }
                        }
                        assert(p2.last() == c);
                    }
                    let ghost oq = queue@;
                    visited.set(ci, true);
                    queue.push(c);
                    proof {
                        let old_seen = seen;
                        seen = seen.insert(c);
                        assert forall|cc: Coord| b.contains_spec(cc) implies (seen.contains(cc) <==> #[trigger] visited@[b.index_of(cc)]) by {
                            if cc != c {
                                b.lemma_index_in_range(cc);
                                b.lemma_index_in_range(c);
                                if b.index_of(cc) == b.index_of(c) {
                                    b.lemma_index_injective(cc, c);
                                }
                            }
                        }
                        assert forall|cc: Coord| #[trigger] seen.contains(cc) implies exists|j: int| 0 <= j < queue@.len() && queue@[j] == cc by {
                            if cc == c {
                                assert(queue@[queue@.len() - 1] == c);
                            } else {
                                assert(old_seen.contains(cc));
                                let j = choose|j: int| 0 <= j < oq.len() && oq[j] == cc;
                                assert(queue@[j] == cc);
                            }
                        }
                        assert forall|j: int| 0 <= j < queue@.len() implies seen.contains(#[trigger] queue@[j]) by {
                            if j < queue@.len() - 1 {
                                assert(old_seen.contains(queue@[j]));
                            }
                        }
                    }
                }
            }
            k += 1;
        }
        proof {
            assert forall|j: int, c: Coord|
                0 <= j < head + 1 && adjacent(#[trigger] queue@[j], c) && open_cell(fr, b, c) implies #[trigger] seen.contains(c) by {
                if j == head {
                    lemma_adjacent_is_neighbour(u, c);
                    assert(dirs@[0] == Direction::Left && dirs@[1] == Direction::Right);
                    assert(dirs@[2] == Direction::Up && dirs@[3] == Direction::Down);
                }
            }
        }
        head += 1;
        proof {
            lemma_cells_len(b, seen);
        }
    }
    proof {
        let rs = reachable_set(fr, b, seed);
        assert forall|a: Coord, c: Coord|
            #[trigger] seen.contains(a) && adjacent(a, c) && open_cell(fr, b, c) implies #[trigger] seen.contains(c) by {
            let j = choose|j: int| 0 <= j < queue@.len() && queue@[j] == a;
        }
        assert forall|c: Coord| rs.contains(c) implies seen.contains(c) by {
            let p = choose|p: Seq<Coord>| #[trigger] is_walk(fr, b, seed, p) && p.last() == c;
            lemma_walks_stay_inside(fr, b, seed, seen, p, p.len() - 1);
        }
        assert(seen =~= rs);
    }
    queue.len()
}

/// On a board where every cell but the seed is open, each cell of the
/// board is reachable.
proof fn lemma_open_board_reaches(free: Seq<bool>, board: Board, seed: Coord, c: Coord)
    requires
        board.wf(),
        forall|x: Coord| board.contains_spec(x) && x != seed ==> #[trigger] open_cell(free, board, x),
        board.contains_spec(seed),
        board.contains_spec(c),
    ensures
        reachable(free, board, seed, c),
    decreases manhattan_spec(seed, c),
{
    if c == seed {
        let p = seq![seed];
        assert(is_walk(free, board, seed, p));
    } else {
        let prev = if c.x > seed.x {
            Coord { x: (c.x - 1) as i64, y: c.y }
        } else if c.x < seed.x {
            Coord { x: (c.x + 1) as i64, y: c.y }
        } else if c.y > seed.y {
            Coord { x: c.x, y: (c.y - 1) as i64 }
        } else {
            Coord { x: c.x, y: (c.y + 1) as i64 }
        };
        lemma_open_board_reaches(free, board, seed, prev);
        let p = choose|p: Seq<Coord>| #[trigger] is_walk(free, board, seed, p) && p.last() == prev;
        let p2 = p.push(c);
        assert(open_cell(free, board, c));
        assert(is_walk(free, board, seed, p2)) by {
            assert forall|i: int| 1 <= i < p2.len() implies open_cell(free, board, #[trigger] p2[i]) && adjacent(p2[i - 1], p2[i]) by {
                if i < p.len() {
                    assert(p2[i] == p[i] && p2[i - 1] == p[i - 1]);
                }
            }
        }
        assert(p2.last() == c);
    }
}

/// Flood-fill on a board where every cell but the seed is open counts every
/// cell of the board.
pub proof fn lemma_open_but_seed_fill(free: Seq<bool>, board: Board, seed: Coord)
    requires
        board.wf(),
        forall|x: Coord| board.contains_spec(x) && x != seed ==> #[trigger] open_cell(free, board, x),
        board.contains_spec(seed),
    ensures
        reachable_set(free, board, seed).len() == board.width * board.height,
{
    let rs = reachable_set(free, board, seed);
    assert forall|c: Coord| board_cells(board).contains(c) implies rs.contains(c) by {
        lemma_open_board_reaches(free, board, seed, c);
    }
    assert forall|c: Coord| rs.contains(c) implies board_cells(board).contains(c) by {
        let p = choose|p: Seq<Coord>| #[trigger] is_walk(free, board, seed, p) && p.last() == c;
        if p.len() > 1 {
            assert(open_cell(free, board, p[p.len() - 1]));
        }
    }
    assert(rs =~= board_cells(board));
    lemma_cells_len(board, rs);
}

/// Flood-fill on a board with no obstructions counts every cell of the board.
pub proof fn lemma_open_board_fill(free: Seq<bool>, board: Board, seed: Coord)
    requires
        board.wf(),
        free.len() == board.area(),
        forall|k: int| 0 <= k < free.len() ==> free[k],
        board.contains_spec(seed),
    ensures
        reachable_set(free, board, seed).len() == board.width * board.height,
{
    assert forall|x: Coord| board.contains_spec(x) && x != seed implies #[trigger] open_cell(free, board, x) by {
        board.lemma_index_in_range(x);
    }
    lemma_open_but_seed_fill(free, board, seed);
}

/// Flood-fill from a seed whose every neighbour is off the board or taken
/// counts the seed alone.
pub proof fn lemma_enclosed_fill(free: Seq<bool>, board: Board, seed: Coord)
    requires
        forall|d: Direction| !open_cell(free, board, #[trigger] neighbour_spec(seed, d)),
    ensures
        reachable_set(free, board, seed).len() == 1,
{
    let rs = reachable_set(free, board, seed);
    assert forall|c: Coord| rs.contains(c) implies c == seed by {
        let p = choose|p: Seq<Coord>| #[trigger] is_walk(free, board, seed, p) && p.last() == c;
        if p.len() > 1 {
            assert(open_cell(free, board, p[1]) && adjacent(p[0], p[1]));
            lemma_adjacent_is_neighbour(seed, p[1]);
            assert(!open_cell(free, board, neighbour_spec(seed, Direction::Left)));
            assert(!open_cell(free, board, neighbour_spec(seed, Direction::Right)));
            assert(!open_cell(free, board, neighbour_spec(seed, Direction::Up)));
            assert(!open_cell(free, board, neighbour_spec(seed, Direction::Down)));
        }
    }
    let p = seq![seed];
    assert(is_walk(free, board, seed, p));
    assert(rs.contains(seed));
    assert(rs =~= set![seed]);
}

/// Flood-fill never counts more cells than the board has.
pub proof fn lemma_fill_bounded(free: Seq<bool>, board: Board, seed: Coord)
    requires
        board.wf(),
        board.contains_spec(seed),
    ensures
        1 <= reachable_set(free, board, seed).len() <= board.area(),
{
    let rs = reachable_set(free, board, seed);
    assert forall|c: Coord| #[trigger] rs.contains(c) implies board.contains_spec(c) by {
        let p = choose|p: Seq<Coord>| #[trigger] is_walk(free, board, seed, p) && p.last() == c;
        if p.len() > 1 {
            assert(open_cell(free, board, p[p.len() - 1]));
        }
    }
    lemma_cells_len(board, rs);
    let w = seq![seed];
    assert(is_walk(free, board, seed, w));
    assert(rs.contains(seed));
    vstd::set_lib::lemma_set_empty_equivalency_len(rs);
}

} // verus!
