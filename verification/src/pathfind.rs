//! A* path finding over the tile grid, with 4-way moves of cost 10.
use vstd::prelude::*;
use crate::world::{WorldMap, MAP_W, MAP_H, manhattan};

verus! {

/// Two tiles are adjacent when they differ by one step on one axis.
pub open spec fn adjacent(a: (usize, usize), b: (usize, usize)) -> bool {
    manhattan(a.0 as int, a.1 as int, b.0 as int, b.1 as int) == 1
}

/// `path` is a walk that a hero on `start` can follow: each tile is
/// adjacent to the one before it (the first to `start`) and every tile is
/// walkable.
pub open spec fn valid_walk(map: &WorldMap, start: (usize, usize), path: Seq<(usize, usize)>) -> bool {
    &&& path.len() > 0 ==> adjacent(start, path[0])
    &&& forall|i: int| 0 <= i < path.len() - 1 ==> #[trigger] adjacent(path[i], path[i + 1])
    &&& forall|i: int| 0 <= i < path.len() ==> map.walkable(#[trigger] path[i].0 as int, path[i].1 as int)
}

/// `goal` can be reached from `start` by some non-empty walk.
pub open spec fn reachable(map: &WorldMap, start: (usize, usize), goal: (usize, usize)) -> bool {
    exists|p: Seq<(usize, usize)>|
        #[trigger] valid_walk(map, start, p) && p.len() > 0 && p.last() == goal
}

/// No walk from `start` to `goal` is shorter than `len` steps.
pub open spec fn no_shorter_walk(map: &WorldMap, start: (usize, usize), goal: (usize, usize), len: int) -> bool {
    forall|q: Seq<(usize, usize)>|
        #[trigger] valid_walk(map, start, q) && q.len() > 0 && q.last() == goal ==> len <= q.len()
}

/// The search runs over the map extended by one row and one column, so that
/// a start just past the right or bottom edge is handled like any other.
const EXT_W: usize = 201;
const EXT_N: usize = 40401;

struct Node {
    tile: (usize, usize),
    cost: u32,
    heuristic: u32,
}

spec fn ext(x: int, y: int) -> bool {
    0 <= x < EXT_W && 0 <= y < EXT_W
}

spec fn ix(x: int, y: int) -> int {
    y * EXT_W + x
}

spec fn gv(g: Seq<u32>, x: int, y: int) -> u32 {
    g[ix(x, y)]
}

spec fn reached(g: Seq<u32>, x: int, y: int) -> bool {
    ext(x, y) && gv(g, x, y) != u32::MAX
}

/// Same as `reached`; used only to trigger the closure invariant.
spec fn settled(g: Seq<u32>, x: int, y: int) -> bool {
    reached(g, x, y)
}

spec fn parent_of(cf: Seq<(usize, usize)>, x: int, y: int) -> (usize, usize) {
    cf[ix(x, y)]
}

spec fn parent_ok(map: &WorldMap, g: Seq<u32>, cf: Seq<(usize, usize)>, x: int, y: int) -> bool {
    let p = parent_of(cf, x, y);
    &&& ext(p.0 as int, p.1 as int)
    &&& manhattan(p.0 as int, p.1 as int, x, y) == 1
    &&& reached(g, p.0 as int, p.1 as int)
    &&& gv(g, p.0 as int, p.1 as int) + 10 <= gv(g, x, y)
    &&& map.walkable(x, y)
}

/// The open list holds an entry for `(x, y)` queued at cost `c`.
spec fn has_entry(o: Seq<Node>, x: int, y: int, c: int) -> bool {
    exists|i: int| 0 <= i < o.len() && (#[trigger] o[i]).tile.0 == x && o[i].tile.1 == y && o[i].cost == c
}

/// The step from `(x, y)` to `(nx, ny)` has been tried: when `(nx, ny)` is
/// walkable its best known cost is at most one step more than that of `(x, y)`.
spec fn relaxed_step(map: &WorldMap, g: Seq<u32>, x: int, y: int, nx: int, ny: int) -> bool {
    map.walkable(nx, ny) ==> reached(g, nx, ny) && gv(g, nx, ny) <= gv(g, x, y) + 10
}

spec fn expanded(map: &WorldMap, g: Seq<u32>, x: int, y: int) -> bool {
    &&& relaxed_step(map, g, x, y, x, y - 1)
    &&& relaxed_step(map, g, x, y, x, y + 1)
    &&& relaxed_step(map, g, x, y, x - 1, y)
    &&& relaxed_step(map, g, x, y, x + 1, y)
}

spec fn node_ok(g: Seq<u32>, n: Node) -> bool {
    &&& ext(n.tile.0 as int, n.tile.1 as int)
    &&& reached(g, n.tile.0 as int, n.tile.1 as int)
    &&& n.cost >= gv(g, n.tile.0 as int, n.tile.1 as int)
    &&& n.cost <= 404010
    &&& n.heuristic <= 4000
}

spec fn seq_sum(s: Seq<u32>) -> int
    decreases s.len(),
{
    if s.len() == 0 {
        0
    } else {
        seq_sum(s.drop_last()) + s.last()
    }
}

spec fn count_reached(s: Seq<u32>) -> int
    decreases s.len(),
{
    if s.len() == 0 {
        0
    } else {
        count_reached(s.drop_last()) + if s.last() != u32::MAX {
            1int
        } else {
            0int
        }
    }
}

proof fn lemma_sum_update(s: Seq<u32>, i: int, v: u32)
    requires
        0 <= i < s.len(),
    ensures
        seq_sum(s.update(i, v)) == seq_sum(s) - s[i] + v,
        count_reached(s.update(i, v)) == count_reached(s) - (if s[i] != u32::MAX {
            1int
        } else {
            0int
        }) + (if v != u32::MAX {
            1int
        } else {
            0int
        }),
    decreases s.len(),
{
    let t = s.update(i, v);
    if i == s.len() - 1 {
        assert(t.drop_last() =~= s.drop_last());
    } else {
        assert(t.drop_last() =~= s.drop_last().update(i, v));
        lemma_sum_update(s.drop_last(), i, v);
    }
}

proof fn lemma_count_bound(s: Seq<u32>)
    ensures
        0 <= count_reached(s) <= s.len(),
        seq_sum(s) >= 0,
    decreases s.len(),
{
    if s.len() > 0 {
        lemma_count_bound(s.drop_last());
    }
}

proof fn lemma_sum_bound(s: Seq<u32>)
    ensures
        seq_sum(s) <= s.len() * u32::MAX,
    decreases s.len(),
{
    if s.len() > 0 {
        lemma_sum_bound(s.drop_last());
    }
}

proof fn lemma_count_all_unreached(s: Seq<u32>)
    requires
        forall|i: int| 0 <= i < s.len() ==> s[i] == u32::MAX,
    ensures
        count_reached(s) == 0,
    decreases s.len(),
{
    if s.len() > 0 {
        lemma_count_all_unreached(s.drop_last());
    }
}

spec fn search_inv(
    map: &WorldMap,
    start: (usize, usize),
    goal: (usize, usize),
    g: Seq<u32>,
    cf: Seq<(usize, usize)>,
    o: Seq<Node>,
    skip: Option<(int, int)>,
) -> bool {
    &&& map.wf()
    &&& g.len() == EXT_N
    &&& cf.len() == EXT_N
    &&& ext(start.0 as int, start.1 as int)
    &&& map.walkable(goal.0 as int, goal.1 as int)
    &&& start != goal
    &&& gv(g, start.0 as int, start.1 as int) == 0
    &&& 1 <= count_reached(g) <= EXT_N
    &&& forall|x: int, y: int| #[trigger] reached(g, x, y) ==> gv(g, x, y) <= 10 * (count_reached(g) - 1)
    &&& forall|x: int, y: int|
        #![trigger parent_of(cf, x, y)]
        reached(g, x, y) && !(x == start.0 && y == start.1) ==> parent_ok(map, g, cf, x, y)
    &&& forall|i: int| 0 <= i < o.len() ==> node_ok(g, #[trigger] o[i])
    &&& forall|i: int|
        0 <= i < o.len() ==> (#[trigger] o[i]).heuristic == 10 * manhattan(
            o[i].tile.0 as int,
            o[i].tile.1 as int,
            goal.0 as int,
            goal.1 as int,
        )
    &&& forall|x: int, y: int|
        #[trigger] settled(g, x, y) ==> skip == Some((x, y)) || has_entry(o, x, y, gv(g, x, y) as int)
            || (!(x == goal.0 && y == goal.1) && expanded(map, g, x, y))
}

/// The search state: best known costs, predecessors and the open list.
type SearchState = (Seq<u32>, Seq<(usize, usize)>, Seq<Node>);

/// The estimate of an open entry: cost so far plus heuristic.
spec fn node_f(n: Node) -> int {
    n.cost + n.heuristic
}

/// The index of the first entry with the smallest estimate among the first
/// `j` entries of the open list.
spec fn best_upto(o: Seq<Node>, j: int) -> int
    decreases j,
{
    if j <= 1 {
        0
    } else {
        let b = best_upto(o, j - 1);
        if node_f(o[j - 1]) < node_f(o[b]) {
            j - 1
        } else {
            b
        }
    }
}

/// The step from `cur` (cost `cg`) to `(nx, ny)` applied to the state:
/// a walkable tile of the map whose cost it lowers gets the new cost, `cur`
/// as predecessor and a new open entry.
spec fn relax_step(map: &WorldMap, st: SearchState, cur: (usize, usize), cg: u32, nx: int, ny: int, goal: (usize, usize)) -> SearchState {
    if nx < 0 || ny < 0 || nx >= MAP_W || ny >= MAP_H || !map.walkable(nx, ny) {
        st
    } else {
        let i = ix(nx, ny);
        let new_g = cg + 10;
        if new_g < st.0[i] {
            (
                st.0.update(i, new_g as u32),
                st.1.update(i, cur),
                st.2.push(
                    Node {
                        tile: (nx as usize, ny as usize),
                        cost: new_g as u32,
                        heuristic: (10 * manhattan(nx, ny, goal.0 as int, goal.1 as int)) as u32,
                    },
                ),
            )
        } else {
            st
        }
    }
}

/// Expanding tile `c`: the steps up, down, left and right, in that order,
/// all from `c`'s cost before the first of them.
spec fn expand_step(map: &WorldMap, st: SearchState, c: (usize, usize), goal: (usize, usize)) -> SearchState {
    let cg = st.0[ix(c.0 as int, c.1 as int)];
    let x = c.0 as int;
    let y = c.1 as int;
    let s1 = relax_step(map, st, c, cg, x, y - 1, goal);
    let s2 = relax_step(map, s1, c, cg, x, y + 1, goal);
    let s3 = relax_step(map, s2, c, cg, x - 1, y, goal);
    relax_step(map, s3, c, cg, x + 1, y, goal)
}

/// The walk from `start` to `t` read back along the predecessors, at most
/// `n` steps long.
spec fn trace_back(cf: Seq<(usize, usize)>, start: (usize, usize), t: (usize, usize), n: nat) -> Seq<(usize, usize)>
    decreases n,
{
    if n == 0 || t == start {
        Seq::empty()
    } else {
        trace_back(cf, start, cf[ix(t.0 as int, t.1 as int)], (n - 1) as nat).push(t)
    }
}

/// More steps than any walk read back from a search can have.
spec fn trace_fuel() -> nat {
    100000
}

/// More rounds than any search takes.
spec fn search_fuel() -> nat {
    (1 + 2 * EXT_N * u32::MAX) as nat
}

/// The outcome of running the search from state `st` for at most `fuel`
/// rounds: each round takes the first open entry with the smallest
/// estimate; the walk is read back when that entry is the goal, and
/// otherwise its tile is expanded. No walk when the open list runs out.
spec fn search_from(map: &WorldMap, start: (usize, usize), goal: (usize, usize), st: SearchState, fuel: nat) -> Seq<(usize, usize)>
    decreases fuel,
{
    if st.2.len() == 0 || fuel == 0 {
        Seq::empty()
    } else {
        let b = best_upto(st.2, st.2.len() as int);
        let c = st.2[b].tile;
        if c == goal {
            trace_back(st.1, start, goal, trace_fuel())
        } else {
            search_from(map, start, goal, expand_step(map, (st.0, st.1, st.2.remove(b)), c, goal), (fuel - 1) as nat)
        }
    }
}

/// The state the search starts from: only `start` reached, at cost 0, and
/// queued.
spec fn initial_state(start: (usize, usize), goal: (usize, usize)) -> SearchState {
    (
        Seq::new(EXT_N as nat, |i: int| if i == ix(start.0 as int, start.1 as int) { 0u32 } else { u32::MAX }),
        Seq::new(EXT_N as nat, |i: int| (0usize, 0usize)),
        seq![
            Node {
                tile: start,
                cost: 0,
                heuristic: (10 * manhattan(start.0 as int, start.1 as int, goal.0 as int, goal.1 as int)) as u32,
            },
        ],
    )
}

/// The walk that the search returns for `start` and `goal` on `map`: none
/// when `start` is the goal, the goal cannot be stood on, or `start` lies
/// beyond the map's extended border; otherwise the outcome of the search
/// from its initial state, which breaks ties between equal estimates by
/// taking the entry queued first.
pub closed spec fn astar_walk(map: &WorldMap, start: (usize, usize), goal: (usize, usize)) -> Seq<(usize, usize)> {
    if start == goal || !map.walkable(goal.0 as int, goal.1 as int) || start.0 > MAP_W || start.1 > MAP_H {
        Seq::empty()
    } else {
        search_from(map, start, goal, initial_state(start, goal), search_fuel())
    }
}

/// Ten times the Manhattan distance between two tiles.
fn heuristic(a: (usize, usize), b: (usize, usize)) -> (r: u32)
    requires
        a.0 <= MAP_W,
        a.1 <= MAP_H,
        b.0 <= MAP_W,
        b.1 <= MAP_H,
    ensures
        r == 10 * manhattan(a.0 as int, a.1 as int, b.0 as int, b.1 as int),
        r <= 4000,
{
    let dx = if a.0 >= b.0 {
        (a.0 - b.0) as u32
    } else {
        (b.0 - a.0) as u32
    };
    let dy = if a.1 >= b.1 {
        (a.1 - b.1) as u32
    } else {
        (b.1 - a.1) as u32
    };
    (dx + dy) * 10
}


/// Tries the step from `cur` (whose cost so far is `cg`) to `(nx, ny)`:
/// when that tile is walkable and the step improves its best known cost,
/// records the cost and `cur` as its predecessor and queues it.
fn relax(
    map: &WorldMap,
    g: &mut Vec<u32>,
    cf: &mut Vec<(usize, usize)>,
    open: &mut Vec<Node>,
    cur: (usize, usize),
    cg: u32,
    nx: i32,
    ny: i32,
    start: (usize, usize),
    goal: (usize, usize),
)
    requires
        search_inv(map, start, goal, old(g)@, old(cf)@, old(open)@, Some((cur.0 as int, cur.1 as int))),
        ext(cur.0 as int, cur.1 as int),
        reached(old(g)@, cur.0 as int, cur.1 as int),
        gv(old(g)@, cur.0 as int, cur.1 as int) == cg,
        manhattan(cur.0 as int, cur.1 as int, nx as int, ny as int) == 1,
    ensures
        search_inv(map, start, goal, final(g)@, final(cf)@, final(open)@, Some((cur.0 as int, cur.1 as int))),
        gv(final(g)@, cur.0 as int, cur.1 as int) == cg,
        forall|a: int| 0 <= a < EXT_N ==> #[trigger] final(g)@[a] <= old(g)@[a],
        forall|x: int, y: int| reached(old(g)@, x, y) ==> #[trigger] reached(final(g)@, x, y),
        map.walkable(nx as int, ny as int) ==> reached(final(g)@, nx as int, ny as int) && gv(
            final(g)@,
            nx as int,
            ny as int,
        ) <= cg + 10,
        final(open)@.len() + 2 * seq_sum(final(g)@) <= old(open)@.len() + 2 * seq_sum(old(g)@),
        (final(g)@, final(cf)@, final(open)@) == relax_step(
            map,
            (old(g)@, old(cf)@, old(open)@),
            cur,
            cg,
            nx as int,
            ny as int,
            goal,
        ),
{
    if nx < 0 || ny < 0 || nx >= MAP_W as i32 || ny >= MAP_H as i32 {
        return;
    }
    let ux = nx as usize;
    let uy = ny as usize;
    if !map.is_walkable(ux, uy) {
        return;
    }
    let i = uy * EXT_W + ux;
    let new_g = cg + 10;
    if new_g < g[i] {
        let ghost g0 = g@;
        let ghost cf0 = cf@;
        let ghost o0 = open@;
        proof {
            lemma_sum_update(g0, i as int, new_g);
        }
        g.set(i, new_g);
        cf.set(i, cur);
        let h = heuristic((ux, uy), goal);
        let node = Node { tile: (ux, uy), cost: new_g, heuristic: h };
        open.push(node);
        proof {
            lemma_relax_update(map, start, goal, g0, cf0, o0, cur, cg, ux, uy, h);
        }
    }
}

/// The state after a successful relaxation of the step from `cur` to
/// `(ux, uy)` still satisfies the search invariant.
proof fn lemma_relax_update(
    map: &WorldMap,
    start: (usize, usize),
    goal: (usize, usize),
    g0: Seq<u32>,
    cf0: Seq<(usize, usize)>,
    o0: Seq<Node>,
    cur: (usize, usize),
    cg: u32,
    ux: usize,
    uy: usize,
    h: u32,
)
    requires
        search_inv(map, start, goal, g0, cf0, o0, Some((cur.0 as int, cur.1 as int))),
        ext(cur.0 as int, cur.1 as int),
        reached(g0, cur.0 as int, cur.1 as int),
        gv(g0, cur.0 as int, cur.1 as int) == cg,
        manhattan(cur.0 as int, cur.1 as int, ux as int, uy as int) == 1,
        map.walkable(ux as int, uy as int),
        cg + 10 < gv(g0, ux as int, uy as int),
        h == 10 * manhattan(ux as int, uy as int, goal.0 as int, goal.1 as int),
        h <= 4000,
    ensures
        ({
            let i = ix(ux as int, uy as int);
            let g1 = g0.update(i, (cg + 10) as u32);
            &&& search_inv(
                map,
                start,
                goal,
                g1,
                cf0.update(i, cur),
                o0.push(Node { tile: (ux, uy), cost: (cg + 10) as u32, heuristic: h }),
                Some((cur.0 as int, cur.1 as int)),
            )
            &&& forall|a: int| 0 <= a < EXT_N ==> #[trigger] g1[a] <= g0[a]
            &&& forall|x: int, y: int| reached(g0, x, y) ==> #[trigger] reached(g1, x, y)
        }),
{
    let i = ix(ux as int, uy as int);
    let new_g = (cg + 10) as u32;
    let g1 = g0.update(i, new_g);
    let cf1 = cf0.update(i, cur);
    let o1 = o0.push(Node { tile: (ux, uy), cost: new_g, heuristic: h });
    lemma_sum_update(g0, i, new_g);
    lemma_count_bound(g1);
    assert forall|a: int| 0 <= a < EXT_N implies #[trigger] g1[a] <= g0[a] by {
        if a != i {
            assert(g1[a] == g0[a]);
        }
    }
    assert forall|x: int, y: int| reached(g0, x, y) implies #[trigger] reached(g1, x, y) by {
        if x != ux as int || y != uy as int {
            assert(ix(x, y) != i);
        }
    }
    assert forall|x: int, y: int| #[trigger] reached(g1, x, y) implies gv(g1, x, y) <= 10 * (
    count_reached(g1) - 1) by {
        assert(reached(g0, cur.0 as int, cur.1 as int));
        if x != ux as int || y != uy as int {
            assert(ix(x, y) != i);
            assert(reached(g0, x, y));
        } else if g0[i] != u32::MAX {
            assert(reached(g0, x, y));
        }
    }
    lemma_relax_parents(map, start, goal, g0, cf0, o0, cur, ux, uy, new_g);
    lemma_relax_queue(map, start, goal, g0, cf0, o0, cur, ux, uy, new_g, h);
    assert(ix(cur.0 as int, cur.1 as int) != i);
    assert(ix(start.0 as int, start.1 as int) != i);
}

proof fn lemma_relax_parents(
    map: &WorldMap,
    start: (usize, usize),
    goal: (usize, usize),
    g0: Seq<u32>,
    cf0: Seq<(usize, usize)>,
    o0: Seq<Node>,
    cur: (usize, usize),
    ux: usize,
    uy: usize,
    new_g: u32,
)
    requires
        search_inv(map, start, goal, g0, cf0, o0, Some((cur.0 as int, cur.1 as int))),
        ext(cur.0 as int, cur.1 as int),
        reached(g0, cur.0 as int, cur.1 as int),
        gv(g0, cur.0 as int, cur.1 as int) + 10 == new_g,
        manhattan(cur.0 as int, cur.1 as int, ux as int, uy as int) == 1,
        map.walkable(ux as int, uy as int),
        new_g < gv(g0, ux as int, uy as int),
    ensures
        ({
            let i = ix(ux as int, uy as int);
            let g1 = g0.update(i, new_g);
            let cf1 = cf0.update(i, cur);
            forall|x: int, y: int|
                #![trigger parent_of(cf1, x, y)]
                reached(g1, x, y) && !(x == start.0 && y == start.1) ==> parent_ok(map, g1, cf1, x, y)
        }),
{
    let i = ix(ux as int, uy as int);
    let g1 = g0.update(i, new_g);
    let cf1 = cf0.update(i, cur);
    assert forall|x: int, y: int|
        reached(g1, x, y) && !(x == start.0 && y == start.1) implies #[trigger] parent_ok(
        map,
        g1,
        cf1,
        x,
        y,
    ) by {
        if x != ux as int || y != uy as int {
            assert(ix(x, y) != i);
            assert(reached(g0, x, y));
            assert(parent_of(cf1, x, y) == parent_of(cf0, x, y));
            assert(parent_ok(map, g0, cf0, x, y));
            let p = parent_of(cf0, x, y);
            if p.0 as int != ux as int || p.1 as int != uy as int {
                assert(ix(p.0 as int, p.1 as int) != i);
            }
        } else {
            assert(parent_of(cf1, x, y) == cur);
            assert(ix(cur.0 as int, cur.1 as int) != i);
        }
    }
}

proof fn lemma_relax_queue(
    map: &WorldMap,
    start: (usize, usize),
    goal: (usize, usize),
    g0: Seq<u32>,
    cf0: Seq<(usize, usize)>,
    o0: Seq<Node>,
    cur: (usize, usize),
    ux: usize,
    uy: usize,
    new_g: u32,
    h: u32,
)
    requires
        search_inv(map, start, goal, g0, cf0, o0, Some((cur.0 as int, cur.1 as int))),
        ext(cur.0 as int, cur.1 as int),
        map.walkable(ux as int, uy as int),
        new_g < gv(g0, ux as int, uy as int),
        new_g <= 404010,
        h == 10 * manhattan(ux as int, uy as int, goal.0 as int, goal.1 as int),
        h <= 4000,
    ensures
        ({
            let i = ix(ux as int, uy as int);
            let g1 = g0.update(i, new_g);
            let o1 = o0.push(Node { tile: (ux, uy), cost: new_g, heuristic: h });
            &&& forall|k: int| 0 <= k < o1.len() ==> node_ok(g1, #[trigger] o1[k])
            &&& forall|k: int|
                0 <= k < o1.len() ==> (#[trigger] o1[k]).heuristic == 10 * manhattan(
                    o1[k].tile.0 as int,
                    o1[k].tile.1 as int,
                    goal.0 as int,
                    goal.1 as int,
                )
            &&& forall|x: int, y: int|
                #[trigger] settled(g1, x, y) ==> Some((cur.0 as int, cur.1 as int)) == Some((x, y))
                    || has_entry(o1, x, y, gv(g1, x, y) as int) || (!(x == goal.0 && y == goal.1)
                    && expanded(map, g1, x, y))
        }),
{
    let i = ix(ux as int, uy as int);
    let g1 = g0.update(i, new_g);
    let o1 = o0.push(Node { tile: (ux, uy), cost: new_g, heuristic: h });
    assert forall|a: int| 0 <= a < EXT_N implies #[trigger] g1[a] <= g0[a] by {
        if a != i {
            assert(g1[a] == g0[a]);
        }
    }
    assert forall|k: int| 0 <= k < o1.len() implies node_ok(g1, #[trigger] o1[k]) by {
        if k < o0.len() {
            assert(o1[k] == o0[k]);
            assert(node_ok(g0, o0[k]));
            let t = o0[k].tile;
            assert(g1[ix(t.0 as int, t.1 as int)] <= g0[ix(t.0 as int, t.1 as int)]);
        }
    }
    assert forall|k: int| 0 <= k < o1.len() implies (#[trigger] o1[k]).heuristic == 10 * manhattan(
        o1[k].tile.0 as int,
        o1[k].tile.1 as int,
        goal.0 as int,
        goal.1 as int,
    ) by {
        if k < o0.len() {
            assert(o1[k] == o0[k]);
        }
    }
    assert forall|x: int, y: int| #[trigger] settled(g1, x, y) implies Some((cur.0 as int, cur.1 as int)) == Some(
        (x, y),
    ) || has_entry(o1, x, y, gv(g1, x, y) as int) || (!(x == goal.0 && y == goal.1) && expanded(
        map,
        g1,
        x,
        y,
    )) by {
        if x == ux as int && y == uy as int {
            assert(o1[o0.len() as int].tile == (ux, uy));
            assert(o1[o0.len() as int].cost == gv(g1, x, y));
        } else {
            assert(ix(x, y) != i);
            assert(settled(g0, x, y));
            assert(gv(g1, x, y) == gv(g0, x, y));
            if has_entry(o0, x, y, gv(g0, x, y) as int) {
                let k = choose|k: int|
                    0 <= k < o0.len() && (#[trigger] o0[k]).tile.0 == x && o0[k].tile.1 == y && o0[k].cost
                        == gv(g0, x, y);
                assert(o1[k] == o0[k]);
            } else if !(Some((cur.0 as int, cur.1 as int)) == Some((x, y))) {
                assert(expanded(map, g0, x, y));
                lemma_expanded_kept(map, g0, g1, x, y);
            }
        }
    }
}

/// Lowering costs of other tiles keeps a tile expanded.
proof fn lemma_expanded_kept(map: &WorldMap, g0: Seq<u32>, g1: Seq<u32>, x: int, y: int)
    requires
        g0.len() == EXT_N,
        g1.len() == EXT_N,
        ext(x, y),
        expanded(map, g0, x, y),
        gv(g1, x, y) == gv(g0, x, y),
        forall|a: int| 0 <= a < EXT_N ==> #[trigger] g1[a] <= g0[a],
    ensures
        expanded(map, g1, x, y),
{
    if map.walkable(x, y - 1) {
        assert(g1[ix(x, y - 1)] <= g0[ix(x, y - 1)]);
    }
    if map.walkable(x, y + 1) {
        assert(g1[ix(x, y + 1)] <= g0[ix(x, y + 1)]);
    }
    if map.walkable(x - 1, y) {
        assert(g1[ix(x - 1, y)] <= g0[ix(x - 1, y)]);
    }
    if map.walkable(x + 1, y) {
        assert(g1[ix(x + 1, y)] <= g0[ix(x + 1, y)]);
    }
}


proof fn lemma_walk_stays_reached(
    map: &WorldMap,
    start: (usize, usize),
    goal: (usize, usize),
    g: Seq<u32>,
    cf: Seq<(usize, usize)>,
    o: Seq<Node>,
    p: Seq<(usize, usize)>,
    k: int,
)
    requires
        search_inv(map, start, goal, g, cf, o, None),
        o.len() == 0,
        valid_walk(map, start, p),
        0 <= k < p.len(),
    ensures
        reached(g, p[k].0 as int, p[k].1 as int),
    decreases k,
{
    let (px, py) = if k == 0 {
        (start.0 as int, start.1 as int)
    } else {
        lemma_walk_stays_reached(map, start, goal, g, cf, o, p, k - 1);
        let i = k - 1;
        assert(adjacent(p[i], p[i + 1]));
        (p[k - 1].0 as int, p[k - 1].1 as int)
    };
    assert(settled(g, px, py));
    assert(!has_entry(o, px, py, gv(g, px, py) as int));
    assert(map.walkable(p[k].0 as int, p[k].1 as int));
}

/// Along a walk, the Manhattan distance to its last tile is at most the
/// number of steps left.
proof fn lemma_walk_manhattan(q: Seq<(usize, usize)>, i: int)
    requires
        forall|j: int| 0 <= j < q.len() - 1 ==> #[trigger] adjacent(q[j], q[j + 1]),
        0 <= i < q.len(),
    ensures
        manhattan(q[i].0 as int, q[i].1 as int, q.last().0 as int, q.last().1 as int) <= q.len() - 1 - i,
    decreases q.len() - i,
{
    if i < q.len() - 1 {
        lemma_walk_manhattan(q, i + 1);
        assert(adjacent(q[i], q[i + 1]));
    }
}

/// While the goal has not been taken from the open list, every walk `q`
/// from the start to the goal has an open entry on it whose estimate is at
/// most the walk's cost: following the walk from a tile reached within the
/// walk's cost, either that tile is queued at its best known cost, or it has
/// been expanded and the next tile is reached within the walk's cost too.
proof fn lemma_cheap_entry(
    map: &WorldMap,
    start: (usize, usize),
    goal: (usize, usize),
    g: Seq<u32>,
    cf: Seq<(usize, usize)>,
    o: Seq<Node>,
    q: Seq<(usize, usize)>,
    i: int,
) -> (k: int)
    requires
        search_inv(map, start, goal, g, cf, o, None),
        q.len() >= 2,
        q[0] == start,
        q.last() == goal,
        forall|j: int| 0 <= j < q.len() - 1 ==> #[trigger] adjacent(q[j], q[j + 1]),
        forall|j: int| 1 <= j < q.len() ==> map.walkable(#[trigger] q[j].0 as int, q[j].1 as int),
        0 <= i < q.len(),
        reached(g, q[i].0 as int, q[i].1 as int),
        gv(g, q[i].0 as int, q[i].1 as int) <= 10 * i,
    ensures
        0 <= k < o.len(),
        o[k].cost + o[k].heuristic <= 10 * (q.len() - 1),
    decreases q.len() - i,
{
    let x = q[i].0 as int;
    let y = q[i].1 as int;
    assert(settled(g, x, y));
    if has_entry(o, x, y, gv(g, x, y) as int) {
        let k = choose|k: int|
            0 <= k < o.len() && (#[trigger] o[k]).tile.0 == x && o[k].tile.1 == y && o[k].cost == gv(g, x, y);
        lemma_walk_manhattan(q, i);
        k
    } else {
        assert(i < q.len() - 1);
        assert(adjacent(q[i], q[i + 1]));
        let nx = q[i + 1].0 as int;
        let ny = q[i + 1].1 as int;
        assert(map.walkable(nx, ny));
        assert(expanded(map, g, x, y));
        if nx == x && ny == y - 1 {
            assert(relaxed_step(map, g, x, y, x, y - 1));
        } else if nx == x && ny == y + 1 {
            assert(relaxed_step(map, g, x, y, x, y + 1));
        } else if nx == x - 1 && ny == y {
            assert(relaxed_step(map, g, x, y, x - 1, y));
        } else {
            assert(nx == x + 1 && ny == y);
            assert(relaxed_step(map, g, x, y, x + 1, y));
        }
        lemma_cheap_entry(map, start, goal, g, cf, o, q, i + 1)
    }
}

/// A shortest-first (A*) search for a walk from `start` to `goal`.
///
/// Returns the tiles to step on in order, ending with `goal` and not
/// including `start`: a walk with no more steps than any other walk to the
/// goal. Returns no tiles when `start` is the goal, when the goal cannot be
/// stood on, or when no walk reaches it. The walk is exactly `astar_walk`:
/// among open entries with equal estimates the one queued first is taken.
pub fn astar(map: &WorldMap, start: (usize, usize), goal: (usize, usize)) -> (r: Vec<(usize, usize)>)
    requires
        map.wf(),
    ensures
        r@.len() > 0 ==> valid_walk(map, start, r@) && r@.last() == goal,
        r@.len() == 0 <==> (start == goal || !map.walkable(goal.0 as int, goal.1 as int) || !reachable(
            map,
            start,
            goal,
        )),
        r@.len() > 0 ==> no_shorter_walk(map, start, goal, r@.len() as int),
        r@ == astar_walk(map, start, goal),
{
    if (start.0 == goal.0 && start.1 == goal.1) || !map.is_walkable(goal.0, goal.1) {
        return Vec::new();
    }
    if start.0 > MAP_W || start.1 > MAP_H {
        proof {
            assert forall|p: Seq<(usize, usize)>|
                #[trigger] valid_walk(map, start, p) && p.len() > 0 implies p.last() != goal by {
                assert(map.walkable(p[0].0 as int, p[0].1 as int));
                assert(adjacent(start, p[0]));
            }
        }
        return Vec::new();
    }
    let mut g: Vec<u32> = Vec::new();
    let mut cf: Vec<(usize, usize)> = Vec::new();
    let mut k: usize = 0;
    while k < EXT_N
        invariant
            k <= EXT_N,
            g@.len() == k,
            cf@.len() == k,
            forall|j: int| 0 <= j < k ==> #[trigger] g@[j] == u32::MAX,
            forall|j: int| 0 <= j < k ==> #[trigger] cf@[j] == (0usize, 0usize),
        decreases EXT_N - k,
    {
        g.push(u32::MAX);
        cf.push((0, 0));
        k = k + 1;
    }
    let si = start.1 * EXT_W + start.0;
    proof {
        lemma_count_all_unreached(g@);
        lemma_sum_update(g@, si as int, 0);
    }
    g.set(si, 0);
    let mut open: Vec<Node> = Vec::new();
    let h0 = heuristic(start, goal);
    open.push(Node { tile: start, cost: 0, heuristic: h0 });
    proof {
        assert forall|x: int, y: int| #[trigger] reached(g@, x, y) implies x == start.0 && y == start.1 by {
            if x != start.0 || y != start.1 {
                assert(ix(x, y) != si);
            }
        }
        assert(open@[0].tile == start);
        assert(search_inv(map, start, goal, g@, cf@, open@, None));
        let init = initial_state(start, goal);
        assert(g@ =~= init.0);
        assert(cf@ =~= init.1);
        assert(open@ =~= init.2);
        lemma_sum_bound(g@);
    }
    let ghost mut fuel: nat = search_fuel();
    while open.len() > 0
        invariant
            search_inv(map, start, goal, g@, cf@, open@, None),
            open@.len() + 2 * seq_sum(g@) <= fuel,
            search_from(map, start, goal, initial_state(start, goal), search_fuel()) == search_from(
                map,
                start,
                goal,
                (g@, cf@, open@),
                fuel,
            ),
            !(start.0 == goal.0 && start.1 == goal.1),
            map.walkable(goal.0 as int, goal.1 as int),
            start.0 <= MAP_W,
            start.1 <= MAP_H,
        decreases open@.len() + 2 * seq_sum(g@),
    {
        let ghost cf0 = cf@;
        let ghost g0 = g@;
        let ghost o0 = open@;
        let ghost sum0 = seq_sum(g@);
        proof {
            lemma_count_bound(g@);
        }
        proof {
            assert(node_ok(g@, o0[0]));
        }
        let mut best: usize = 0;
        let mut best_f: u32 = open[0].cost + open[0].heuristic;
        let mut j: usize = 1;
        while j < open.len()
            invariant
                open@ == o0,
                o0.len() > 0,
                best < o0.len(),
                1 <= j <= o0.len(),
                best_f == o0[best as int].cost + o0[best as int].heuristic,
                best == best_upto(o0, j as int),
                forall|i: int| 0 <= i < j ==> best_f <= (#[trigger] o0[i]).cost + o0[i].heuristic,
                forall|i: int| 0 <= i < o0.len() ==> node_ok(g@, #[trigger] o0[i]),
            decreases o0.len() - j,
        {
            assert(node_ok(g@, o0[j as int]));
            let f = open[j].cost + open[j].heuristic;
            if f < best_f {
                best = j;
                best_f = f;
            }
            j = j + 1;
        }
        let current = open.remove(best);
        let c = current.tile;
        proof {
            assert(node_ok(g@, o0[best as int]));
        }
        if c.0 == goal.0 && c.1 == goal.1 {
            let mut path: Vec<(usize, usize)> = Vec::new();
            let mut t = goal;
            while !(t.0 == start.0 && t.1 == start.1)
                invariant
                    search_inv(map, start, goal, g@, cf@, o0, None),
                    reached(g@, t.0 as int, t.1 as int),
                    reached(g@, goal.0 as int, goal.1 as int),
                    10 * path@.len() + gv(g@, t.0 as int, t.1 as int) <= gv(g@, goal.0 as int, goal.1 as int),
                    path@.len() < trace_fuel(),
                    trace_back(cf@, start, goal, trace_fuel()) == trace_back(
                        cf@,
                        start,
                        t,
                        (trace_fuel() - path@.len()) as nat,
                    ) + path@,
                    path@.len() == 0 ==> t == goal,
                    path@.len() > 0 ==> adjacent(t, path@[0]) && path@.last() == goal,
                    forall|i: int| 0 <= i < path@.len() - 1 ==> #[trigger] adjacent(path@[i], path@[i + 1]),
                    forall|i: int| 0 <= i < path@.len() ==> map.walkable(#[trigger] path@[i].0 as int, path@[i].1 as int),
                decreases gv(g@, t.0 as int, t.1 as int),
            {
                let ghost before = path@;
                let ghost t0 = t;
                assert(parent_of(cf@, t.0 as int, t.1 as int) == cf@[ix(t.0 as int, t.1 as int)]);
                assert(parent_ok(map, g@, cf@, t.0 as int, t.1 as int));
                proof {
                    lemma_count_bound(g@);
                    assert(reached(g@, goal.0 as int, goal.1 as int));
                    assert(gv(g@, goal.0 as int, goal.1 as int) <= 10 * (count_reached(g@) - 1));
                }
                path.insert(0, t);
                t = cf[t.1 * EXT_W + t.0];
                proof {
                    let n = (trace_fuel() - before.len()) as nat;
                    assert(trace_back(cf@, start, t0, n) == trace_back(cf@, start, t, (n - 1) as nat).push(t0));
                    assert(trace_back(cf@, start, t, (n - 1) as nat).push(t0) + before =~= trace_back(
                        cf@,
                        start,
                        t,
                        (n - 1) as nat,
                    ) + path@);
                    assert forall|i: int| 0 <= i < path@.len() - 1 implies #[trigger] adjacent(path@[i], path@[i + 1]) by {
                        if i > 0 {
                            let j = i - 1;
                            assert(adjacent(before[j], before[j + 1]));
                            assert(path@[i] == before[j]);
                            assert(path@[i + 1] == before[j + 1]);
                        }
                    }
                    assert forall|i: int| 0 <= i < path@.len() implies map.walkable(#[trigger] path@[i].0 as int, path@[i].1 as int) by {
                        if i > 0 {
                            assert(path@[i] == before[i - 1]);
                        }
                    }
                }
            }
            proof {
                assert(trace_back(cf@, start, t, (trace_fuel() - path@.len()) as nat) =~= Seq::<(usize, usize)>::empty());
                assert(path@ =~= trace_back(cf@, start, goal, trace_fuel()));
                assert(c == goal);
                assert(valid_walk(map, start, path@));
                let fb = o0[best as int];
                assert(fb.tile == goal);
                assert(fb.heuristic == 0);
                assert forall|p: Seq<(usize, usize)>|
                    #[trigger] valid_walk(map, start, p) && p.len() > 0 && p.last() == goal implies path@.len()
                    <= p.len() by {
                    let q = seq![start] + p;
                    assert forall|jj: int| 0 <= jj < q.len() - 1 implies #[trigger] adjacent(q[jj], q[jj + 1]) by {
                        if jj == 0 {
                            assert(q[1] == p[0]);
                        } else {
                            let pj = jj - 1;
                            assert(q[jj] == p[pj]);
                            assert(q[jj + 1] == p[pj + 1]);
                            assert(adjacent(p[pj], p[pj + 1]));
                        }
                    }
                    assert forall|jj: int| 1 <= jj < q.len() implies map.walkable(#[trigger] q[jj].0 as int, q[jj].1 as int) by {
                        assert(q[jj] == p[jj - 1]);
                    }
                    assert(q.last() == p.last());
                    assert(settled(g@, start.0 as int, start.1 as int));
                    let k = lemma_cheap_entry(map, start, goal, g@, cf@, o0, q, 0);
                    assert(best_f <= o0[k].cost + o0[k].heuristic);
                }
            }
            return path;
        }
        let cg = g[c.1 * EXT_W + c.0];
        proof {
            assert forall|x: int, y: int| #[trigger] settled(g@, x, y) implies Some((c.0 as int, c.1 as int))
                == Some((x, y)) || has_entry(open@, x, y, gv(g@, x, y) as int) || (!(x == goal.0 && y == goal.1)
                && expanded(map, g@, x, y)) by {
                if has_entry(o0, x, y, gv(g@, x, y) as int) && !(x == c.0 && y == c.1) {
                    let i = choose|i: int|
                        0 <= i < o0.len() && (#[trigger] o0[i]).tile.0 == x && o0[i].tile.1 == y && o0[i].cost
                            == gv(g@, x, y);
                    if i < best {
                        assert(open@[i] == o0[i]);
                    } else {
                        assert(open@[i - 1] == o0[i]);
                    }
                }
            }
            assert forall|i: int| 0 <= i < open@.len() implies node_ok(g@, #[trigger] open@[i]) by {
                if i < best {
                    assert(open@[i] == o0[i]);
                } else {
                    assert(open@[i] == o0[i + 1]);
                }
            }
            assert forall|i: int| 0 <= i < open@.len() implies (#[trigger] open@[i]).heuristic == 10 * manhattan(
                open@[i].tile.0 as int,
                open@[i].tile.1 as int,
                goal.0 as int,
                goal.1 as int,
            ) by {
                if i < best {
                    assert(open@[i] == o0[i]);
                } else {
                    assert(open@[i] == o0[i + 1]);
                }
            }
            assert(search_inv(map, start, goal, g@, cf@, open@, Some((c.0 as int, c.1 as int))));
        }
        let cx = c.0 as i32;
        let cy = c.1 as i32;
        let ghost m1 = open@.len() + 2 * seq_sum(g@);
        assert(m1 < o0.len() + 2 * sum0);
        let ghost st0: SearchState = (g@, cf@, open@);
        proof {
            assert(open@ =~= o0.remove(best as int));
            assert(g@ == g0 && cf@ == cf0);
            assert(cg == g0[ix(c.0 as int, c.1 as int)]);
        }
        relax(map, &mut g, &mut cf, &mut open, c, cg, cx, cy - 1, start, goal);
        let ghost ga = g@;
        relax(map, &mut g, &mut cf, &mut open, c, cg, cx, cy + 1, start, goal);
        let ghost gb = g@;
        relax(map, &mut g, &mut cf, &mut open, c, cg, cx - 1, cy, start, goal);
        let ghost gc = g@;
        relax(map, &mut g, &mut cf, &mut open, c, cg, cx + 1, cy, start, goal);
        proof {
            lemma_count_bound(g@);
            let x = c.0 as int;
            let y = c.1 as int;
            if map.walkable(x, y - 1) {
                let a = ix(x, y - 1);
                assert(g@[a] <= gc[a] && gc[a] <= gb[a] && gb[a] <= ga[a]);
            }
            if map.walkable(x, y + 1) {
                let a = ix(x, y + 1);
                assert(g@[a] <= gc[a] && gc[a] <= gb[a]);
            }
            if map.walkable(x - 1, y) {
                let a = ix(x - 1, y);
                assert(g@[a] <= gc[a]);
            }
            assert(expanded(map, g@, x, y));
            assert forall|x2: int, y2: int| #[trigger] settled(g@, x2, y2) implies None::<(int, int)>
                == Some((x2, y2)) || has_entry(open@, x2, y2, gv(g@, x2, y2) as int) || (!(x2 == goal.0 && y2
                == goal.1) && expanded(map, g@, x2, y2)) by {
            }
            assert((g@, cf@, open@) == expand_step(map, st0, c, goal));
            assert(c != goal);
            assert(best_upto(o0, o0.len() as int) == best);
            assert(search_from(map, start, goal, (g0, cf0, o0), fuel) == search_from(
                map,
                start,
                goal,
                (g@, cf@, open@),
                (fuel - 1) as nat,
            ));
            fuel = (fuel - 1) as nat;
        }
    }
    proof {
        assert forall|p: Seq<(usize, usize)>|
            #[trigger] valid_walk(map, start, p) && p.len() > 0 implies p.last() != goal by {
            lemma_walk_stays_reached(map, start, goal, g@, cf@, open@, p, p.len() - 1);
            if p.last() == goal {
                assert(settled(g@, goal.0 as int, goal.1 as int));
            }
        }
    }
    Vec::new()
}

} // verus!
