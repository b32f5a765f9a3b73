//! Rooms and corridors: a square grid of rooms whose doors come from a
//! spanning tree of the grid (every room is reachable by construction), plus a
//! share of the remaining walls reopened as loops against dead ends.

use vstd::prelude::*;
use crate::run_graph::{splitmix_next_state, splitmix_output};

verus! {

/// SplitMix64 step used by the room planner (same stream as the run graph).
pub fn mix(state: &mut u64) -> (r: u64)
    ensures
        *final(state) == splitmix_next_state(*old(state)),
        r == splitmix_output(*old(state)),
{
    crate::run_graph::splitmix64(state)
}

/// A wall between two neighbouring cells of the grid; `a < b`.
#[derive(Debug, Clone, Copy, PartialEq, Eq, Hash, Structural)]
pub struct Edge {
    pub a: u32,
    pub b: u32,
    /// `true`: the cells sit side by side along X (the wall between runs along Z).
    pub horizontal: bool,
}

/// The walls of cell `id` towards its right and upper neighbours, in that order.
pub open spec fn cell_edges(n: int, id: int) -> Seq<Edge> {
    let row = id / n;
    let col = id % n;
    let h: Seq<Edge> = if col + 1 < n {
        seq![Edge { a: id as u32, b: (id + 1) as u32, horizontal: true }]
    } else {
        Seq::empty()
    };
    let v: Seq<Edge> = if row + 1 < n {
        seq![Edge { a: id as u32, b: (id + n) as u32, horizontal: false }]
    } else {
        Seq::empty()
    };
    h + v
}

/// The walls of cells `0..k`, cell by cell.
pub open spec fn grid_edges_upto(n: int, k: int) -> Seq<Edge>
    decreases k,
{
    if k <= 0 {
        Seq::empty()
    } else {
        grid_edges_upto(n, k - 1) + cell_edges(n, k - 1)
    }
}

/// Every wall of the `n × n` grid, in a stable order.
pub open spec fn grid_edges(n: int) -> Seq<Edge> {
    grid_edges_upto(n, n * n)
}

/// `e` is a wall between two neighbouring cells of the `n × n` grid.
pub open spec fn is_grid_edge(n: int, e: Edge) -> bool {
    &&& 0 <= e.a < n * n
    &&& if e.horizontal {
        (e.a as int) % n + 1 < n && e.b == e.a + 1
    } else {
        (e.a as int) / n + 1 < n && e.b == e.a + n
    }
}

/// Grid sizes for which every index computation fits in `u32`.
pub open spec fn grid_fits(n: int) -> bool {
    1 <= n && n * n <= u32::MAX
}

proof fn lemma_row_col(n: int, row: int, col: int)
    requires
        0 <= row,
        0 <= col < n,
    ensures
        (row * n + col) / n == row,
        (row * n + col) % n == col,
{
    vstd::arithmetic::div_mod::lemma_fundamental_div_mod_converse(row * n + col, n, row, col);
}

/// All the walls of the grid, cell by cell (right wall, then upper wall).
pub fn all_edges(n: u32) -> (v: Vec<Edge>)
    requires
        grid_fits(n as int),
    ensures
        v@ == grid_edges(n as int),
{
    let mut v: Vec<Edge> = Vec::new();
    let mut row: u32 = 0;
    proof {
        assert(0 * n as int == 0) by (nonlinear_arith);
    }
    while row < n
        invariant
            grid_fits(n as int),
            row <= n,
            v@ == grid_edges_upto(n as int, row * n),
        decreases n - row,
    {
        let mut col: u32 = 0;
        proof {
            assert(row * n + n <= n * n) by (nonlinear_arith)
                requires row < n;
        }
        while col < n
            invariant
                grid_fits(n as int),
                row < n,
                col <= n,
                row * n + n <= n * n,
                v@ == grid_edges_upto(n as int, row * n + col),
            decreases n - col,
        {
            let id = row * n + col;
            proof {
                lemma_row_col(n as int, row as int, col as int);
                assert(row * n + n <= n * n);
            }
            let ghost before = v@;
            if col + 1 < n {
                v.push(Edge { a: id, b: id + 1, horizontal: true });
            }
            if row + 1 < n {
                proof {
                    assert((row + 1) * n + n <= n * n) by (nonlinear_arith)
                        requires row + 1 < n;
                    assert((row + 1) * n == row * n + n) by (nonlinear_arith);
                }
                v.push(Edge { a: id, b: id + n, horizontal: false });
            }
            assert(v@ =~= before + cell_edges(n as int, id as int));
            col += 1;
        }
        proof {
            assert((row + 1) * n == row * n + n) by (nonlinear_arith);
        }
        row += 1;
    }
    v
}


proof fn lemma_cell_edges_facts(n: int, id: int)
    requires
        grid_fits(n),
        0 <= id < n * n,
    ensures
        forall|i: int| 0 <= i < cell_edges(n, id).len() ==> is_grid_edge(n, #[trigger] cell_edges(n, id)[i])
            && cell_edges(n, id)[i].a == id,
        forall|e: Edge| is_grid_edge(n, e) && e.a == id ==> cell_edges(n, id).contains(e),
{
    let row = id / n;
    let col = id % n;
    vstd::arithmetic::div_mod::lemma_fundamental_div_mod(id, n);
    assert(id == n * row + col);
    assert(0 <= col < n) by {
        vstd::arithmetic::div_mod::lemma_mod_bound(id, n);
    }
    assert(n <= n * n) by (nonlinear_arith)
        requires n >= 1;
    assert(row + 1 < n ==> id + n < n * n) by (nonlinear_arith)
        requires id == n * row + col, 0 <= col < n, row >= 0;
    let ce = cell_edges(n, id);
    assert forall|e: Edge| is_grid_edge(n, e) && e.a == id implies ce.contains(e) by {
        if e.horizontal {
            let h = Edge { a: id as u32, b: (id + 1) as u32, horizontal: true };
            assert(ce[0] == h);
            assert(e == h);
        } else {
            let v = Edge { a: id as u32, b: (id + n) as u32, horizontal: false };
            if col + 1 < n {
                assert(ce[1] == v);
            } else {
                assert(ce[0] == v);
            }
            assert(e == v);
        }
    }
}

/// The walls listed for cells `0..k` are exactly the grid walls starting below `k`.
proof fn lemma_grid_edges_upto_facts(n: int, k: int)
    requires
        grid_fits(n),
        0 <= k <= n * n,
    ensures
        forall|i: int| 0 <= i < grid_edges_upto(n, k).len() ==>
            is_grid_edge(n, #[trigger] grid_edges_upto(n, k)[i]) && grid_edges_upto(n, k)[i].a < k,
        forall|e: Edge| is_grid_edge(n, e) && e.a < k ==> grid_edges_upto(n, k).contains(e),
    decreases k,
{
    if k > 0 {
        lemma_grid_edges_upto_facts(n, k - 1);
        lemma_cell_edges_facts(n, k - 1);
        let prev = grid_edges_upto(n, k - 1);
        let ce = cell_edges(n, k - 1);
        let cur = grid_edges_upto(n, k);
        assert(cur == prev + ce);
        assert forall|i: int| 0 <= i < cur.len() implies is_grid_edge(n, #[trigger] cur[i]) && cur[i].a < k by {
            if i < prev.len() {
                assert(cur[i] == prev[i]);
            } else {
                assert(cur[i] == ce[i - prev.len()]);
            }
        }
        assert forall|e: Edge| is_grid_edge(n, e) && e.a < k implies cur.contains(e) by {
            if e.a < k - 1 {
                let i = choose|i: int| 0 <= i < prev.len() && prev[i] == e;
                assert(cur[i] == e);
            } else {
                let i = choose|i: int| 0 <= i < ce.len() && ce[i] == e;
                assert(cur[prev.len() + i] == e);
            }
        }
    }
}

/// The grid wall list holds every grid wall and nothing else.
pub proof fn lemma_grid_edges_exact(n: int)
    requires
        grid_fits(n),
    ensures
        forall|i: int| 0 <= i < grid_edges(n).len() ==> is_grid_edge(n, #[trigger] grid_edges(n)[i]),
        forall|e: Edge| is_grid_edge(n, e) ==> grid_edges(n).contains(e),
{
    assert(n * n >= 0) by (nonlinear_arith) requires n >= 1;
    lemma_grid_edges_upto_facts(n, n * n);
}

// ─── Seeded shuffle ─────────────────────────────────────────────────────────

/// Fisher–Yates from index `i` down to 1, drawing from state `rng`.
pub open spec fn shuffle_down(s: Seq<Edge>, rng: u64, i: int) -> Seq<Edge>
    decreases i,
{
    if i <= 0 || i >= s.len() {
        s
    } else {
        let j = (splitmix_output(rng) as int) % (i + 1);
        shuffle_down(s.update(i, s[j]).update(j, s[i]), splitmix_next_state(rng), i - 1)
    }
}

/// The seeded shuffle of the walls (Fisher–Yates over the whole list).
pub open spec fn shuffle_spec(s: Seq<Edge>, rng: u64) -> Seq<Edge> {
    shuffle_down(s, rng, s.len() - 1)
}

/// A shuffle keeps the length and every element.
pub proof fn lemma_shuffle_keeps(s: Seq<Edge>, rng: u64, i: int)
    ensures
        shuffle_down(s, rng, i).len() == s.len(),
        forall|e: Edge| s.contains(e) ==> shuffle_down(s, rng, i).contains(e),
    decreases i,
{
    if !(i <= 0 || i >= s.len()) {
        let j = (splitmix_output(rng) as int) % (i + 1);
        let s2 = s.update(i, s[j]).update(j, s[i]);
        assert(0 <= j <= i) by {
            vstd::arithmetic::div_mod::lemma_mod_bound(splitmix_output(rng) as int, i + 1);
        }
        assert forall|e: Edge| s.contains(e) implies s2.contains(e) by {
            let k = choose|k: int| 0 <= k < s.len() && s[k] == e;
            if k == i {
                assert(s2[j] == e);
            } else if k == j {
                assert(s2[i] == e);
            } else {
                assert(s2[k] == e);
            }
        }
        lemma_shuffle_keeps(s2, splitmix_next_state(rng), i - 1);
    }
}

/// Shuffles `edges` in place with the seeded Fisher–Yates.
fn shuffle_edges(edges: &mut Vec<Edge>, rng: &mut u64)
    ensures
        final(edges)@ == shuffle_spec(old(edges)@, *old(rng)),
{
    let len = edges.len();
    if len < 2 {
        return;
    }
    let mut i: usize = len - 1;
    while i >= 1
        invariant
            1 <= len,
            i < len,
            edges@.len() == len,
            shuffle_spec(old(edges)@, *old(rng)) == shuffle_down(edges@, *rng, i as int),
        decreases i,
    {
        let j = (mix(rng) % (i as u64 + 1)) as usize;
        let ei = edges[i];
        let ej = edges[j];
        edges.set(i, ej);
        edges.set(j, ei);
        if i == 1 {
            assert(shuffle_down(edges@, *rng, 0) == edges@);
            return;
        }
        i -= 1;
    }
}


// ─── Connectivity ───────────────────────────────────────────────────────────

/// `e` joins cells `x` and `y` (in either direction).
pub open spec fn edge_joins(e: Edge, x: int, y: int) -> bool {
    (e.a == x && e.b == y) || (e.a == y && e.b == x)
}

/// Some open wall joins `x` and `y`.
pub open spec fn linked(open: Seq<Edge>, x: int, y: int) -> bool {
    exists|i: int| 0 <= i < open.len() && #[trigger] edge_joins(open[i], x, y)
}

/// `p` is a walk through open walls.
pub open spec fn is_walk(open: Seq<Edge>, p: Seq<int>) -> bool {
    p.len() >= 1 && forall|i: int| 0 <= i < p.len() - 1 ==> #[trigger] linked(open, p[i], p[i + 1])
}

/// Cell `y` can be reached from cell `x` through open walls.
pub open spec fn reachable(open: Seq<Edge>, x: int, y: int) -> bool {
    exists|p: Seq<int>| #[trigger] is_walk(open, p) && p[0] == x && p.last() == y
}

/// Every cell of the `n × n` grid can be reached from every other one.
pub open spec fn grid_connected(open: Seq<Edge>, n: int) -> bool {
    forall|x: int, y: int| 0 <= x < n * n && 0 <= y < n * n ==> #[trigger] reachable(open, x, y)
}

proof fn lemma_reachable_refl(open: Seq<Edge>, x: int)
    ensures
        reachable(open, x, x),
{
    let p = seq![x];
    assert(is_walk(open, p));
}

proof fn lemma_linked_more(open: Seq<Edge>, more: Seq<Edge>, x: int, y: int)
    requires
        linked(open, x, y),
    ensures
        linked(open + more, x, y),
{
    let i = choose|i: int| 0 <= i < open.len() && #[trigger] edge_joins(open[i], x, y);
    assert((open + more)[i] == open[i]);
    assert(edge_joins((open + more)[i], x, y));
}

/// Opening more walls keeps every reachable pair reachable.
proof fn lemma_reachable_more(open: Seq<Edge>, more: Seq<Edge>, x: int, y: int)
    requires
        reachable(open, x, y),
    ensures
        reachable(open + more, x, y),
{
    let p = choose|p: Seq<int>| #[trigger] is_walk(open, p) && p[0] == x && p.last() == y;
    assert forall|i: int| 0 <= i < p.len() - 1 implies #[trigger] linked(open + more, p[i], p[i + 1]) by {
        assert(linked(open, p[i], p[i + 1]));
        lemma_linked_more(open, more, p[i], p[i + 1]);
    }
    assert(is_walk(open + more, p));
}

/// Two walks joined by an open wall make a walk.
proof fn lemma_reachable_join(open: Seq<Edge>, x: int, a: int, b: int, y: int)
    requires
        reachable(open, x, a),
        linked(open, a, b),
        reachable(open, b, y),
    ensures
        reachable(open, x, y),
{
    let p1 = choose|p: Seq<int>| #[trigger] is_walk(open, p) && p[0] == x && p.last() == a;
    let p2 = choose|p: Seq<int>| #[trigger] is_walk(open, p) && p[0] == b && p.last() == y;
    let p = p1 + p2;
    assert forall|i: int| 0 <= i < p.len() - 1 implies #[trigger] linked(open, p[i], p[i + 1]) by {
        if i < p1.len() - 1 {
            assert(p[i] == p1[i] && p[i + 1] == p1[i + 1]);
            assert(linked(open, p1[i], p1[i + 1]));
        } else if i == p1.len() - 1 {
            assert(p[i] == a && p[i + 1] == b);
        } else {
            let k = i - p1.len();
            assert(p[i] == p2[k] && p[i + 1] == p2[k + 1]);
            assert(linked(open, p2[k], p2[k + 1]));
        }
    }
    assert(is_walk(open, p));
    assert(p[0] == x);
    assert(p.last() == y);
}

// ─── Spanning tree (union by component labels) ──────────────────────────────

/// Moves every cell labelled `from` to label `to`.
pub open spec fn relabel(labels: Seq<usize>, from: usize, to: usize) -> Seq<usize> {
    labels.map_values(|l: usize| if l == from { to } else { l })
}

/// Kruskal over the first `k` walls of `edges`: component labels, the walls
/// opened (they join two components) and the walls kept closed.
pub open spec fn kruskal(edges: Seq<Edge>, cells: nat, k: nat) -> (Seq<usize>, Seq<Edge>, Seq<Edge>)
    decreases k,
{
    if k == 0 {
        (Seq::new(cells, |i: int| i as usize), Seq::empty(), Seq::empty())
    } else {
        let prev = kruskal(edges, cells, (k - 1) as nat);
        let e = edges[k - 1];
        let la = prev.0[e.a as int];
        let lb = prev.0[e.b as int];
        if la != lb {
            (relabel(prev.0, la, lb), prev.1.push(e), prev.2)
        } else {
            (prev.0, prev.1, prev.2.push(e))
        }
    }
}

/// Walls whose both cells are below `cells`.
pub open spec fn edges_within(edges: Seq<Edge>, cells: nat) -> bool {
    forall|i: int| 0 <= i < edges.len() ==> (#[trigger] edges[i]).a < cells && edges[i].b < cells
}

/// The invariant of the spanning-tree construction after `k` walls: equal
/// labels are reachable through opened walls, every processed wall joins two
/// equally labelled cells, and every processed wall was opened or kept.
proof fn lemma_kruskal_invariant(edges: Seq<Edge>, cells: nat, k: nat)
    requires
        edges_within(edges, cells),
        cells <= usize::MAX,
        k <= edges.len(),
    ensures
        kruskal(edges, cells, k).0.len() == cells,
        forall|x: int, y: int| 0 <= x < cells && 0 <= y < cells
            && kruskal(edges, cells, k).0[x] == kruskal(edges, cells, k).0[y]
            ==> #[trigger] reachable(kruskal(edges, cells, k).1, x, y),
        forall|i: int| 0 <= i < k ==> kruskal(edges, cells, k).0[(#[trigger] edges[i]).a as int]
            == kruskal(edges, cells, k).0[edges[i].b as int],
        forall|i: int| 0 <= i < k ==> kruskal(edges, cells, k).1.contains(#[trigger] edges[i])
            || kruskal(edges, cells, k).2.contains(edges[i]),
        forall|i: int| 0 <= i < kruskal(edges, cells, k).1.len() ==> edges.contains(#[trigger] kruskal(edges, cells, k).1[i]),
        forall|i: int| 0 <= i < kruskal(edges, cells, k).2.len() ==> edges.contains(#[trigger] kruskal(edges, cells, k).2[i]),
    decreases k,
{
    let cur = kruskal(edges, cells, k);
    if k == 0 {
        assert forall|x: int, y: int| 0 <= x < cells && 0 <= y < cells && cur.0[x] == cur.0[y]
            implies #[trigger] reachable(cur.1, x, y) by {
            assert(x == y);
            lemma_reachable_refl(cur.1, x);
        }
    } else {
        lemma_kruskal_invariant(edges, cells, (k - 1) as nat);
        let prev = kruskal(edges, cells, (k - 1) as nat);
        let e = edges[k - 1];
        assert(e.a < cells && e.b < cells);
        let la = prev.0[e.a as int];
        let lb = prev.0[e.b as int];
        if la != lb {
            let lab = relabel(prev.0, la, lb);
            let open = prev.1.push(e);
            assert(cur.0 == lab && cur.1 == open && cur.2 == prev.2);
            assert(open == prev.1 + seq![e]);
            assert(open[open.len() - 1] == e);
            assert(linked(open, e.a as int, e.b as int)) by {
                assert(edge_joins(open[open.len() - 1], e.a as int, e.b as int));
            }
            assert forall|x: int, y: int| 0 <= x < cells && 0 <= y < cells && lab[x] == lab[y]
                implies #[trigger] reachable(open, x, y) by {
                let px = prev.0[x];
                let py = prev.0[y];
                if px == la && py == la {
                    assert(reachable(prev.1, x, y));
                    lemma_reachable_more(prev.1, seq![e], x, y);
                } else if px != la && py != la {
                    assert(reachable(prev.1, x, y));
                    lemma_reachable_more(prev.1, seq![e], x, y);
                } else if px == la {
                    assert(py == lb);
                    assert(reachable(prev.1, x, e.a as int));
                    assert(reachable(prev.1, e.b as int, y));
                    lemma_reachable_more(prev.1, seq![e], x, e.a as int);
                    lemma_reachable_more(prev.1, seq![e], e.b as int, y);
                    lemma_reachable_join(open, x, e.a as int, e.b as int, y);
                } else {
                    assert(px == lb);
                    assert(reachable(prev.1, x, e.b as int));
                    assert(reachable(prev.1, e.a as int, y));
                    lemma_reachable_more(prev.1, seq![e], x, e.b as int);
                    lemma_reachable_more(prev.1, seq![e], e.a as int, y);
                    assert(linked(open, e.b as int, e.a as int)) by {
                        assert(edge_joins(open[open.len() - 1], e.b as int, e.a as int));
                    }
                    lemma_reachable_join(open, x, e.b as int, e.a as int, y);
                }
            }
            assert forall|i: int| 0 <= i < k implies lab[(#[trigger] edges[i]).a as int] == lab[edges[i].b as int] by {
                if i < k - 1 {
                    assert(prev.0[edges[i].a as int] == prev.0[edges[i].b as int]);
                }
            }
            assert forall|i: int| 0 <= i < k implies open.contains(#[trigger] edges[i]) || cur.2.contains(edges[i]) by {
                if i < k - 1 {
                    if prev.1.contains(edges[i]) {
                        let j = choose|j: int| 0 <= j < prev.1.len() && prev.1[j] == edges[i];
                        assert(open[j] == edges[i]);
                    }
                } else {
                    assert(open[open.len() - 1] == edges[i]);
                }
            }
            assert forall|i: int| 0 <= i < open.len() implies edges.contains(#[trigger] open[i]) by {
                if i < prev.1.len() {
                    assert(open[i] == prev.1[i]);
                } else {
                    assert(edges[k - 1] == open[i]);
                }
            }
        } else {
            let rest = prev.2.push(e);
            assert(cur.0 == prev.0 && cur.1 == prev.1 && cur.2 == rest);
            assert forall|i: int| 0 <= i < k implies cur.1.contains(#[trigger] edges[i]) || rest.contains(edges[i]) by {
                if i < k - 1 {
                    if prev.2.contains(edges[i]) {
                        let j = choose|j: int| 0 <= j < prev.2.len() && prev.2[j] == edges[i];
                        assert(rest[j] == edges[i]);
                    }
                } else {
                    assert(rest[rest.len() - 1] == edges[i]);
                }
            }
            assert forall|i: int| 0 <= i < rest.len() implies edges.contains(#[trigger] rest[i]) by {
                if i < prev.2.len() {
                    assert(rest[i] == prev.2[i]);
                } else {
                    assert(edges[k - 1] == rest[i]);
                }
            }
            assert forall|i: int| 0 <= i < k implies cur.0[(#[trigger] edges[i]).a as int] == cur.0[edges[i].b as int] by {
            }
        }
    }
}


/// Labels that agree across every grid wall are all equal to the label of cell 0.
proof fn lemma_grid_labels_uniform(n: int, lab: Seq<usize>)
    requires
        grid_fits(n),
        lab.len() == n * n,
        forall|e: Edge| is_grid_edge(n, e) ==> #[trigger] lab[e.a as int] == lab[e.b as int],
    ensures
        forall|id: int| 0 <= id < n * n ==> #[trigger] lab[id] == lab[0],
{
    assert forall|id: int| 0 <= id < n * n implies #[trigger] lab[id] == lab[0] by {
        let row = id / n;
        let col = id % n;
        vstd::arithmetic::div_mod::lemma_fundamental_div_mod(id, n);
        vstd::arithmetic::div_mod::lemma_mod_bound(id, n);
        assert(0 <= row < n) by (nonlinear_arith)
            requires id == n * row + col, 0 <= col < n, 0 <= id < n * n, n >= 1;
        lemma_grid_row_uniform(n, lab, row, col);
        lemma_grid_column_uniform(n, lab, row);
        assert(id == row * n + col) by (nonlinear_arith)
            requires id == n * row + col;
    }
}

proof fn lemma_grid_row_uniform(n: int, lab: Seq<usize>, row: int, col: int)
    requires
        grid_fits(n),
        lab.len() == n * n,
        0 <= row < n,
        0 <= col < n,
        forall|e: Edge| is_grid_edge(n, e) ==> #[trigger] lab[e.a as int] == lab[e.b as int],
    ensures
        lab[row * n + col] == lab[row * n],
    decreases col,
{
    if col > 0 {
        lemma_grid_row_uniform(n, lab, row, col - 1);
        let a = row * n + col - 1;
        assert(row * n + n <= n * n) by (nonlinear_arith)
            requires 0 <= row < n;
        lemma_row_col(n, row, col - 1);
        let e = Edge { a: a as u32, b: (a + 1) as u32, horizontal: true };
        assert(is_grid_edge(n, e));
        assert(lab[e.a as int] == lab[e.b as int]);
    } else {
        assert(row * n + 0 == row * n);
    }
}

proof fn lemma_grid_column_uniform(n: int, lab: Seq<usize>, row: int)
    requires
        grid_fits(n),
        lab.len() == n * n,
        0 <= row < n,
        forall|e: Edge| is_grid_edge(n, e) ==> #[trigger] lab[e.a as int] == lab[e.b as int],
    ensures
        lab[row * n] == lab[0],
    decreases row,
{
    if row > 0 {
        lemma_grid_column_uniform(n, lab, row - 1);
        let a = (row - 1) * n;
        assert(a + n == row * n) by (nonlinear_arith)
            requires a == (row - 1) * n;
        assert(row * n < n * n) by (nonlinear_arith)
            requires row < n, n >= 1;
        assert(0 <= a) by (nonlinear_arith)
            requires a == (row - 1) * n, row >= 1, n >= 1;
        lemma_row_col(n, row - 1, 0);
        let e = Edge { a: a as u32, b: (a + n) as u32, horizontal: false };
        assert(is_grid_edge(n, e));
        assert(lab[e.a as int] == lab[e.b as int]);
    } else {
        assert(0 * n == 0) by (nonlinear_arith);
    }
}

/// The salt mixed into the seed of the room planner.
pub const ROOMS_SALT: u64 = 0x524F_4F4D_5F47_454E;

/// The walls of the grid in the seeded order in which the tree considers them.
pub open spec fn shuffled_grid(n: int, seed: u64) -> Seq<Edge> {
    shuffle_spec(grid_edges(n), seed ^ ROOMS_SALT)
}

/// The spanning tree and the remaining walls, for grid size `n` and `seed`.
pub open spec fn tree_split(n: int, seed: u64) -> (Seq<usize>, Seq<Edge>, Seq<Edge>) {
    let s = shuffled_grid(n, seed);
    kruskal(s, (n * n) as nat, s.len())
}

/// How many of the remaining walls are reopened as loops: `extra`, at most all.
pub open spec fn loops_taken(n: int, seed: u64, extra: nat) -> int {
    let rest = tree_split(n, seed).2;
    if extra <= rest.len() { extra as int } else { rest.len() as int }
}

/// The tree and the loops: the spanning tree, then the first `extra` remaining walls.
pub open spec fn tree_and_loops(n: int, seed: u64, extra: nat) -> Seq<Edge> {
    let t = tree_split(n, seed);
    t.1 + t.2.take(loops_taken(n, seed, extra))
}

/// The remaining walls still closed after the loops, in the order drawn.
pub open spec fn still_closed(n: int, seed: u64, extra: nat) -> Seq<Edge> {
    let rest = tree_split(n, seed).2;
    rest.subrange(loops_taken(n, seed, extra), rest.len() as int)
}

/// The open walls: the spanning tree and the loops; when loops are asked for,
/// every room left with a single door then gets a second one, room by room,
/// from the walls still closed.
pub open spec fn open_edges_spec(n: int, seed: u64, extra: nat) -> Seq<Edge> {
    if extra == 0 {
        tree_and_loops(n, seed, extra)
    } else {
        second_doors_upto(tree_and_loops(n, seed, extra), still_closed(n, seed, extra), (n * n) as nat)
    }
}

proof fn lemma_shuffled_grid_facts(n: int, seed: u64)
    requires
        grid_fits(n),
    ensures
        edges_within(shuffled_grid(n, seed), (n * n) as nat),
        forall|e: Edge| is_grid_edge(n, e) ==> shuffled_grid(n, seed).contains(e),
        forall|e: Edge| shuffled_grid(n, seed).contains(e) ==> is_grid_edge(n, e),
{
    lemma_grid_edges_exact(n);
    let g = grid_edges(n);
    let s = shuffled_grid(n, seed);
    lemma_shuffle_keeps(g, seed ^ ROOMS_SALT, g.len() - 1);
    lemma_shuffle_elements(g, seed ^ ROOMS_SALT, g.len() - 1);
    assert forall|e: Edge| s.contains(e) implies is_grid_edge(n, e) by {
        assert(g.contains(e));
        let j = choose|j: int| 0 <= j < g.len() && g[j] == e;
        assert(is_grid_edge(n, g[j]));
    }
    assert forall|i: int| 0 <= i < s.len() implies (#[trigger] s[i]).a < n * n && s[i].b < n * n by {
        assert(s.contains(s[i]));
        assert(is_grid_edge(n, s[i]));
        let a = s[i].a as int;
        vstd::arithmetic::div_mod::lemma_fundamental_div_mod(a, n);
        vstd::arithmetic::div_mod::lemma_mod_bound(a, n);
        let q = a / n;
        let r = a % n;
        assert(q < n) by (nonlinear_arith)
            requires a == n * q + r, 0 <= r < n, a < n * n, n >= 1;
        if !s[i].horizontal {
            assert(a + n < n * n) by (nonlinear_arith)
                requires a == n * q + r, q + 1 < n, 0 <= r < n;
        } else {
            assert(a + 1 < n * n) by (nonlinear_arith)
                requires a == n * q + r, q < n, 0 <= r, r + 1 < n;
        }
    }
}

/// A shuffle only holds elements of its input.
proof fn lemma_shuffle_elements(s: Seq<Edge>, rng: u64, i: int)
    ensures
        forall|e: Edge| shuffle_down(s, rng, i).contains(e) ==> s.contains(e),
    decreases i,
{
    if !(i <= 0 || i >= s.len()) {
        let j = (splitmix_output(rng) as int) % (i + 1);
        assert(0 <= j <= i) by {
            vstd::arithmetic::div_mod::lemma_mod_bound(splitmix_output(rng) as int, i + 1);
        }
        let s2 = s.update(i, s[j]).update(j, s[i]);
        lemma_shuffle_elements(s2, splitmix_next_state(rng), i - 1);
        assert forall|e: Edge| s2.contains(e) implies s.contains(e) by {
            let k = choose|k: int| 0 <= k < s2.len() && s2[k] == e;
            if k == j {
                assert(s[i] == e);
            } else if k == i {
                assert(s[j] == e);
            } else {
                assert(s[k] == e);
            }
        }
    }
}

/// The open walls are the tree and the loops followed by walls still closed
/// after the loops.
proof fn lemma_open_edges_extend(n: int, seed: u64, extra: nat)
    ensures
        ({
            let o = open_edges_spec(n, seed, extra);
            let b = tree_and_loops(n, seed, extra);
            &&& o.len() >= b.len()
            &&& o == b + o.subrange(b.len() as int, o.len() as int)
            &&& forall|k: int| b.len() <= k < o.len() ==> still_closed(n, seed, extra).contains(#[trigger] o[k])
        }),
{
    let o = open_edges_spec(n, seed, extra);
    let b = tree_and_loops(n, seed, extra);
    if extra == 0 {
        assert(o.subrange(b.len() as int, o.len() as int) =~= Seq::<Edge>::empty());
        assert(o =~= b + Seq::<Edge>::empty());
    } else {
        lemma_second_doors_upto(b, still_closed(n, seed, extra), (n * n) as nat);
    }
}

/// Every room of the grid can be reached from every other room through the
/// open walls, whatever the seed and however many loops are added.
pub proof fn lemma_rooms_connected(n: int, seed: u64, extra: nat)
    requires
        grid_fits(n),
    ensures
        grid_connected(open_edges_spec(n, seed, extra), n),
{
    let s = shuffled_grid(n, seed);
    let cells = (n * n) as nat;
    lemma_shuffled_grid_facts(n, seed);
    lemma_kruskal_invariant(s, cells, s.len());
    let t = tree_split(n, seed);
    let lab = t.0;
    assert forall|e: Edge| is_grid_edge(n, e) implies #[trigger] lab[e.a as int] == lab[e.b as int] by {
        let i = choose|i: int| 0 <= i < s.len() && s[i] == e;
        assert(lab[s[i].a as int] == lab[s[i].b as int]);
    }
    lemma_grid_labels_uniform(n, lab);
    let o = open_edges_spec(n, seed, extra);
    let b = tree_and_loops(n, seed, extra);
    lemma_open_edges_extend(n, seed, extra);
    let more = o.subrange(t.1.len() as int, o.len() as int);
    assert(o =~= t.1 + more) by {
        assert forall|k: int| 0 <= k < t.1.len() implies o[k] == t.1[k] by {
            assert(o[k] == b[k]);
        }
    }
    assert forall|x: int, y: int| 0 <= x < n * n && 0 <= y < n * n implies
        #[trigger] reachable(open_edges_spec(n, seed, extra), x, y) by {
        assert(lab[x] == lab[0] && lab[y] == lab[0]);
        assert(reachable(t.1, x, y));
        lemma_reachable_more(t.1, more, x, y);
    }
}

/// Each wall the tree opens merges two components: the walls opened plus
/// the distinct labels always make up the number of cells.
proof fn lemma_kruskal_tree_count(edges: Seq<Edge>, cells: nat, k: nat)
    requires
        edges_within(edges, cells),
        cells <= usize::MAX,
        k <= edges.len(),
    ensures
        kruskal(edges, cells, k).1.len() + kruskal(edges, cells, k).0.to_set().len() == cells,
    decreases k,
{
    broadcast use vstd::seq_lib::seq_to_set_is_finite;
    lemma_kruskal_invariant(edges, cells, k);
    let cur = kruskal(edges, cells, k);
    if k == 0 {
        let ids = Seq::new(cells, |i: int| i as usize);
        assert(ids.no_duplicates()) by {
            assert forall|i: int, j: int| 0 <= i < ids.len() && 0 <= j < ids.len() && i != j
                implies ids[i] != ids[j] by {
            }
        }
        ids.unique_seq_to_set();
    } else {
        lemma_kruskal_tree_count(edges, cells, (k - 1) as nat);
        lemma_kruskal_invariant(edges, cells, (k - 1) as nat);
        let prev = kruskal(edges, cells, (k - 1) as nat);
        let e = edges[k - 1];
        assert(e.a < cells && e.b < cells);
        let la = prev.0[e.a as int];
        let lb = prev.0[e.b as int];
        if la != lb {
            let lab = relabel(prev.0, la, lb);
            let old_set = prev.0.to_set();
            assert(old_set.contains(la) && old_set.contains(lb));
            assert(lab.to_set() =~= old_set.remove(la)) by {
                assert forall|x: usize| lab.to_set().contains(x) implies old_set.remove(la).contains(x) by {
                    let i = choose|i: int| 0 <= i < lab.len() && lab[i] == x;
                    assert(prev.0.contains(prev.0[i]));
                }
                assert forall|x: usize| old_set.remove(la).contains(x) implies lab.to_set().contains(x) by {
                    let i = choose|i: int| 0 <= i < prev.0.len() && prev.0[i] == x;
                    assert(lab[i] == x);
                    assert(lab.contains(x));
                }
            }
            vstd::set::axiom_set_remove_len(old_set, la);
        }
    }
}

/// The tree opens one wall less than there are rooms: it links the `n²`
/// rooms with `n² − 1` doors, none of which closes a cycle.
pub proof fn lemma_tree_has_one_wall_less_than_rooms(n: int, seed: u64)
    requires
        grid_fits(n),
    ensures
        tree_split(n, seed).1.len() == n * n - 1,
{
    broadcast use vstd::seq_lib::seq_to_set_is_finite;
    let s = shuffled_grid(n, seed);
    let cells = (n * n) as nat;
    lemma_shuffled_grid_facts(n, seed);
    lemma_kruskal_invariant(s, cells, s.len());
    lemma_kruskal_tree_count(s, cells, s.len());
    let t = tree_split(n, seed);
    let lab = t.0;
    assert forall|e: Edge| is_grid_edge(n, e) implies #[trigger] lab[e.a as int] == lab[e.b as int] by {
        let i = choose|i: int| 0 <= i < s.len() && s[i] == e;
        assert(lab[s[i].a as int] == lab[s[i].b as int]);
    }
    lemma_grid_labels_uniform(n, lab);
    assert(n * n >= 1) by (nonlinear_arith)
        requires n >= 1;
    assert(lab.to_set() =~= set![lab[0]]) by {
        assert forall|x: usize| lab.to_set().contains(x) implies x == lab[0] by {
            let i = choose|i: int| 0 <= i < lab.len() && lab[i] == x;
        }
        assert(lab.contains(lab[0]));
    }
    assert(set![lab[0]].len() == 1) by {
        vstd::set::axiom_set_insert_len(Set::<usize>::empty(), lab[0]);
    }
}

/// The doors begin with the spanning tree (one wall less than there are
/// rooms), followed by exactly the requested number of loops, `extra` or all
/// the remaining walls if fewer, in the order they were drawn; second doors
/// only come after them, and none when no loop is requested.
pub proof fn lemma_open_walls_are_tree_then_loops(n: int, seed: u64, extra: nat)
    requires
        grid_fits(n),
    ensures
        ({
            let t = tree_split(n, seed);
            let o = open_edges_spec(n, seed, extra);
            let m: int = if extra <= t.2.len() { extra as int } else { t.2.len() as int };
            &&& t.1.len() == n * n - 1
            &&& o.len() >= n * n - 1 + m
            &&& o.subrange(0, t.1.len() + m) == t.1 + t.2.subrange(0, m)
            &&& extra == 0 ==> o == t.1
        }),
{
    let t = tree_split(n, seed);
    let o = open_edges_spec(n, seed, extra);
    let b = tree_and_loops(n, seed, extra);
    let m: int = if extra <= t.2.len() { extra as int } else { t.2.len() as int };
    lemma_tree_has_one_wall_less_than_rooms(n, seed);
    lemma_open_edges_extend(n, seed, extra);
    assert(b.len() == t.1.len() + m);
    assert(o.subrange(0, t.1.len() + m) =~= t.1 + t.2.subrange(0, m)) by {
        assert forall|k: int| 0 <= k < t.1.len() + m implies o[k] == (t.1 + t.2.subrange(0, m))[k] by {
            assert(o[k] == b[k]);
        }
    }
    if extra == 0 {
        assert(t.2.take(0) =~= Seq::<Edge>::empty());
        assert(o =~= t.1);
    }
}

/// Every open wall is a wall of the grid.
pub proof fn lemma_open_edges_are_grid_walls(n: int, seed: u64, extra: nat)
    requires
        grid_fits(n),
    ensures
        forall|i: int| 0 <= i < open_edges_spec(n, seed, extra).len() ==>
            is_grid_edge(n, #[trigger] open_edges_spec(n, seed, extra)[i]),
{
    let s = shuffled_grid(n, seed);
    lemma_shuffled_grid_facts(n, seed);
    lemma_kruskal_invariant(s, (n * n) as nat, s.len());
    let t = tree_split(n, seed);
    let o = open_edges_spec(n, seed, extra);
    let b = tree_and_loops(n, seed, extra);
    let x = loops_taken(n, seed, extra);
    lemma_open_edges_extend(n, seed, extra);
    assert forall|i: int| 0 <= i < o.len() implies is_grid_edge(n, #[trigger] o[i]) by {
        if i < t.1.len() {
            assert(o[i] == b[i]);
            assert(b[i] == t.1[i]);
            assert(s.contains(t.1[i]));
        } else if i < b.len() {
            assert(o[i] == b[i]);
            assert(b[i] == t.2[i - t.1.len()]);
            assert(s.contains(t.2[i - t.1.len()]));
        } else {
            let c = still_closed(n, seed, extra);
            assert(c.contains(o[i]));
            let j = choose|j: int| 0 <= j < c.len() && c[j] == o[i];
            assert(c[j] == t.2[x + j]);
            assert(s.contains(t.2[x + j]));
        }
    }
}

/// When every remaining wall is reopened, every wall of the grid is open.
pub proof fn lemma_full_loops_open_every_wall(n: int, seed: u64, extra: nat)
    requires
        grid_fits(n),
        extra >= tree_split(n, seed).2.len(),
    ensures
        forall|e: Edge| is_grid_edge(n, e) ==> open_edges_spec(n, seed, extra).contains(e),
{
    let s = shuffled_grid(n, seed);
    lemma_shuffled_grid_facts(n, seed);
    lemma_kruskal_invariant(s, (n * n) as nat, s.len());
    let t = tree_split(n, seed);
    let o = open_edges_spec(n, seed, extra);
    lemma_open_edges_extend(n, seed, extra);
    assert(t.2.take(t.2.len() as int) =~= t.2);
    assert(still_closed(n, seed, extra).len() == 0);
    assert(o.len() == tree_and_loops(n, seed, extra).len()) by {
        if o.len() > tree_and_loops(n, seed, extra).len() {
            assert(still_closed(n, seed, extra).contains(o[tree_and_loops(n, seed, extra).len() as int]));
        }
    }
    assert(o =~= t.1 + t.2);
    assert forall|e: Edge| is_grid_edge(n, e) implies o.contains(e) by {
        let i = choose|i: int| 0 <= i < s.len() && s[i] == e;
        assert(t.1.contains(s[i]) || t.2.contains(s[i]));
        if t.1.contains(e) {
            let j = choose|j: int| 0 <= j < t.1.len() && t.1[j] == e;
            assert(o[j] == e);
        } else {
            let j = choose|j: int| 0 <= j < t.2.len() && t.2[j] == e;
            assert(o[t.1.len() + j] == e);
        }
    }
}


// ─── Second doors ───────────────────────────────────────────────────────────

/// `e` is a wall of cell `c`.
pub open spec fn touches(e: Edge, c: int) -> bool {
    e.a == c || e.b == c
}

/// Cell `c` has two different open walls: it is no dead end.
pub open spec fn has_two_doors(open: Seq<Edge>, c: int) -> bool {
    exists|i: int, j: int| #![trigger open[i], open[j]]
        0 <= i < open.len() && 0 <= j < open.len() && open[i] != open[j]
            && touches(open[i], c) && touches(open[j], c)
}

/// Walks `closed` from index `j` and opens each wall of cell `c` not yet
/// open, as long as `c` has fewer than two doors.
pub open spec fn second_door_from(open: Seq<Edge>, closed: Seq<Edge>, c: int, j: nat) -> Seq<Edge>
    decreases closed.len() - j,
{
    if j >= closed.len() {
        open
    } else {
        let e = closed[j as int];
        let next = if !has_two_doors(open, c) && touches(e, c) && !open.contains(e) {
            open.push(e)
        } else {
            open
        };
        second_door_from(next, closed, c, j + 1)
    }
}

/// Cells `0..k` in turn get a second door from `closed`.
pub open spec fn second_doors_upto(open: Seq<Edge>, closed: Seq<Edge>, k: nat) -> Seq<Edge>
    decreases k,
{
    if k == 0 {
        open
    } else {
        second_door_from(second_doors_upto(open, closed, (k - 1) as nat), closed, k - 1, 0)
    }
}

/// Opening more walls after `open` keeps its walls and its rooms with two doors.
proof fn lemma_more_keeps(open: Seq<Edge>, more: Seq<Edge>)
    ensures
        forall|e: Edge| open.contains(e) ==> (open + more).contains(e),
        forall|c: int| has_two_doors(open, c) ==> #[trigger] has_two_doors(open + more, c),
{
    assert forall|e: Edge| open.contains(e) implies (open + more).contains(e) by {
        let i = choose|i: int| 0 <= i < open.len() && open[i] == e;
        assert((open + more)[i] == e);
    }
    assert forall|c: int| has_two_doors(open, c) implies #[trigger] has_two_doors(open + more, c) by {
        let (i, j) = choose|i: int, j: int| #![trigger open[i], open[j]]
            0 <= i < open.len() && 0 <= j < open.len() && open[i] != open[j]
                && touches(open[i], c) && touches(open[j], c);
        assert((open + more)[i] == open[i] && (open + more)[j] == open[j]);
    }
}

/// Giving second doors only appends walls taken from `closed`.
proof fn lemma_second_door_from_appends(open: Seq<Edge>, closed: Seq<Edge>, c: int, j: nat)
    ensures
        ({
            let r = second_door_from(open, closed, c, j);
            &&& r.len() >= open.len()
            &&& r == open + r.subrange(open.len() as int, r.len() as int)
            &&& forall|k: int| open.len() <= k < r.len() ==> closed.contains(#[trigger] r[k])
        }),
    decreases closed.len() - j,
{
    let r = second_door_from(open, closed, c, j);
    if j >= closed.len() {
        assert(r.subrange(open.len() as int, r.len() as int) =~= Seq::<Edge>::empty());
        assert(r =~= open + Seq::<Edge>::empty());
    } else {
        let e = closed[j as int];
        let next = if !has_two_doors(open, c) && touches(e, c) && !open.contains(e) {
            open.push(e)
        } else {
            open
        };
        lemma_second_door_from_appends(next, closed, c, j + 1);
        assert(r == second_door_from(next, closed, c, j + 1));
        assert forall|k: int| open.len() <= k < r.len() implies closed.contains(#[trigger] r[k]) by {
            if k < next.len() {
                assert(next[k] == e);
                assert(closed[j as int] == e);
            }
        }
        assert(r =~= open + r.subrange(open.len() as int, r.len() as int)) by {
            assert forall|k: int| 0 <= k < open.len() implies r[k] == open[k] by {
                assert(r[k] == next[k]);
            }
        }
    }
}

/// After walking `closed` from `j`, cell `c` has two doors, or every wall of
/// `c` in `closed[j..]` is open.
proof fn lemma_second_door_from_outcome(open: Seq<Edge>, closed: Seq<Edge>, c: int, j: nat)
    ensures
        has_two_doors(second_door_from(open, closed, c, j), c)
            || forall|i: int| j <= i < closed.len() && touches(closed[i], c)
                ==> second_door_from(open, closed, c, j).contains(#[trigger] closed[i]),
    decreases closed.len() - j,
{
    if j < closed.len() {
        let e = closed[j as int];
        let next = if !has_two_doors(open, c) && touches(e, c) && !open.contains(e) {
            open.push(e)
        } else {
            open
        };
        let r = second_door_from(open, closed, c, j);
        assert(r == second_door_from(next, closed, c, j + 1));
        lemma_second_door_from_outcome(next, closed, c, j + 1);
        lemma_second_door_from_appends(next, closed, c, j + 1);
        lemma_more_keeps(next, r.subrange(next.len() as int, r.len() as int));
        assert(next =~= open + next.subrange(open.len() as int, next.len() as int));
        lemma_more_keeps(open, next.subrange(open.len() as int, next.len() as int));
        if !has_two_doors(r, c) {
            assert(!has_two_doors(open, c));
            if touches(e, c) {
                if !open.contains(e) {
                    assert(next[open.len() as int] == e);
                    assert(next.contains(e));
                }
                assert(next.contains(e));
                assert(r.contains(e));
            }
            assert forall|i: int| j <= i < closed.len() && touches(closed[i], c)
                implies r.contains(#[trigger] closed[i]) by {
                if i == j {
                    assert(closed[i] == e);
                }
            }
        }
    }
}

/// Second doors for cells `0..k` only append walls from `closed`, and every
/// cell below `k` that has two distinct walls, each open or in `closed`, ends
/// with two doors.
proof fn lemma_second_doors_upto(open: Seq<Edge>, closed: Seq<Edge>, k: nat)
    ensures
        ({
            let r = second_doors_upto(open, closed, k);
            &&& r.len() >= open.len()
            &&& r == open + r.subrange(open.len() as int, r.len() as int)
            &&& forall|m: int| open.len() <= m < r.len() ==> closed.contains(#[trigger] r[m])
            &&& forall|c: int| 0 <= c < k && (exists|w1: Edge, w2: Edge| #![trigger touches(w1, c), touches(w2, c)]
                w1 != w2 && touches(w1, c) && touches(w2, c)
                && (open.contains(w1) || closed.contains(w1)) && (open.contains(w2) || closed.contains(w2)))
                ==> #[trigger] has_two_doors(r, c)
        }),
    decreases k,
{
    let r = second_doors_upto(open, closed, k);
    if k == 0 {
        assert(r.subrange(open.len() as int, r.len() as int) =~= Seq::<Edge>::empty());
        assert(r =~= open + Seq::<Edge>::empty());
    } else {
        let prev = second_doors_upto(open, closed, (k - 1) as nat);
        lemma_second_doors_upto(open, closed, (k - 1) as nat);
        let c0 = k - 1;
        lemma_second_door_from_appends(prev, closed, c0, 0);
        lemma_second_door_from_outcome(prev, closed, c0, 0);
        assert(r == second_door_from(prev, closed, c0, 0));
        let tail = r.subrange(prev.len() as int, r.len() as int);
        lemma_more_keeps(prev, tail);
        lemma_more_keeps(open, prev.subrange(open.len() as int, prev.len() as int));
        assert(r =~= open + r.subrange(open.len() as int, r.len() as int)) by {
            assert forall|m: int| 0 <= m < open.len() implies r[m] == open[m] by {
                assert(r[m] == prev[m]);
                assert(prev[m] == open[m]);
            }
        }
        assert forall|m: int| open.len() <= m < r.len() implies closed.contains(#[trigger] r[m]) by {
            if m < prev.len() {
                assert(r[m] == prev[m]);
            }
        }
        assert forall|c: int| 0 <= c < k && (exists|w1: Edge, w2: Edge| #![trigger touches(w1, c), touches(w2, c)]
            w1 != w2 && touches(w1, c) && touches(w2, c)
            && (open.contains(w1) || closed.contains(w1)) && (open.contains(w2) || closed.contains(w2)))
            implies #[trigger] has_two_doors(r, c) by {
            if c < c0 {
                assert(has_two_doors(prev, c));
            } else if !has_two_doors(r, c) {
                let (w1, w2) = choose|w1: Edge, w2: Edge| #![trigger touches(w1, c), touches(w2, c)]
                    w1 != w2 && touches(w1, c) && touches(w2, c)
                    && (open.contains(w1) || closed.contains(w1)) && (open.contains(w2) || closed.contains(w2));
                assert(r.contains(w1)) by {
                    if open.contains(w1) {
                        lemma_more_keeps(open, r.subrange(open.len() as int, r.len() as int));
                    } else {
                        let i = choose|i: int| 0 <= i < closed.len() && closed[i] == w1;
                        assert(r.contains(closed[i]));
                    }
                }
                assert(r.contains(w2)) by {
                    if open.contains(w2) {
                        lemma_more_keeps(open, r.subrange(open.len() as int, r.len() as int));
                    } else {
                        let i = choose|i: int| 0 <= i < closed.len() && closed[i] == w2;
                        assert(r.contains(closed[i]));
                    }
                }
                let i1 = choose|i: int| 0 <= i < r.len() && r[i] == w1;
                let i2 = choose|i: int| 0 <= i < r.len() && r[i] == w2;
                assert(r[i1] != r[i2] && touches(r[i1], c) && touches(r[i2], c));
                assert(false);
            }
        }
    }
}

/// A cell of a grid of side at least 2 has a wall along X and a wall along Z.
proof fn lemma_cell_has_two_walls(n: int, c: int)
    requires
        grid_fits(n),
        n >= 2,
        0 <= c < n * n,
    ensures
        exists|w1: Edge, w2: Edge| #![trigger touches(w1, c), touches(w2, c)]
            w1 != w2 && touches(w1, c) && touches(w2, c) && is_grid_edge(n, w1) && is_grid_edge(n, w2),
{
    let row = c / n;
    let col = c % n;
    vstd::arithmetic::div_mod::lemma_fundamental_div_mod(c, n);
    vstd::arithmetic::div_mod::lemma_mod_bound(c, n);
    assert(c == row * n + col) by (nonlinear_arith)
        requires c == n * (c / n) + c % n, row == c / n, col == c % n;
    assert(0 <= row < n) by (nonlinear_arith)
        requires c == row * n + col, 0 <= col < n, 0 <= c < n * n, n >= 2;
    let w1 = if col + 1 < n {
        Edge { a: c as u32, b: (c + 1) as u32, horizontal: true }
    } else {
        Edge { a: (c - 1) as u32, b: c as u32, horizontal: true }
    };
    let w2 = if row + 1 < n {
        Edge { a: c as u32, b: (c + n) as u32, horizontal: false }
    } else {
        Edge { a: (c - n) as u32, b: c as u32, horizontal: false }
    };
    if col + 1 < n {
        assert(c % n == col);
    } else {
        lemma_row_col(n, row, col - 1);
        assert((c - 1) % n == col - 1);
    }
    if row + 1 < n {
        assert(c + n < n * n) by (nonlinear_arith)
            requires c == row * n + col, 0 <= col < n, row + 1 < n;
        lemma_row_col(n, row, col);
    } else {
        assert(c - n == (row - 1) * n + col) by (nonlinear_arith)
            requires c == row * n + col;
        lemma_row_col(n, row - 1, col);
    }
    assert(w1 != w2 && touches(w1, c) && touches(w2, c) && is_grid_edge(n, w1) && is_grid_edge(n, w2));
}

/// When loops are asked for, no room is a dead end: on a grid of side at
/// least 2, every room has at least two different open walls.
pub proof fn lemma_every_room_has_two_doors(n: int, seed: u64, extra: nat)
    requires
        grid_fits(n),
        n >= 2,
        extra >= 1,
    ensures
        forall|c: int| 0 <= c < n * n ==> #[trigger] has_two_doors(open_edges_spec(n, seed, extra), c),
{
    let s = shuffled_grid(n, seed);
    lemma_shuffled_grid_facts(n, seed);
    lemma_kruskal_invariant(s, (n * n) as nat, s.len());
    let t = tree_split(n, seed);
    let b = tree_and_loops(n, seed, extra);
    let closed = still_closed(n, seed, extra);
    let x = loops_taken(n, seed, extra);
    assert forall|e: Edge| is_grid_edge(n, e) implies #[trigger] b.contains(e) || closed.contains(e) by {
        let i = choose|i: int| 0 <= i < s.len() && s[i] == e;
        assert(t.1.contains(s[i]) || t.2.contains(s[i]));
        if t.1.contains(e) {
            let j = choose|j: int| 0 <= j < t.1.len() && t.1[j] == e;
            assert(b[j] == e);
        } else {
            let j = choose|j: int| 0 <= j < t.2.len() && t.2[j] == e;
            if j < x {
                assert(b[t.1.len() + j] == e);
            } else {
                assert(closed[j - x] == e);
            }
        }
    }
    lemma_second_doors_upto(b, closed, (n * n) as nat);
    assert forall|c: int| 0 <= c < n * n implies #[trigger] has_two_doors(open_edges_spec(n, seed, extra), c) by {
        lemma_cell_has_two_walls(n, c);
        let (w1, w2) = choose|w1: Edge, w2: Edge| #![trigger touches(w1, c), touches(w2, c)]
            w1 != w2 && touches(w1, c) && touches(w2, c) && is_grid_edge(n, w1) && is_grid_edge(n, w2);
        assert(b.contains(w1) || closed.contains(w1));
        assert(b.contains(w2) || closed.contains(w2));
        assert(touches(w1, c) && touches(w2, c));
        assert(open_edges_spec(n, seed, extra) == second_doors_upto(b, closed, (n * n) as nat));
    }
}

proof fn lemma_kruskal_labels_len(edges: Seq<Edge>, cells: nat, k: nat)
    requires
        k <= edges.len(),
    ensures
        kruskal(edges, cells, k).0.len() == cells,
    decreases k,
{
    if k > 0 {
        lemma_kruskal_labels_len(edges, cells, (k - 1) as nat);
    }
}

/// Splits `edges` into the walls of a spanning tree (each joins two cells not
/// yet connected) and the walls that would close a loop, in input order.
fn spanning_split(edges: &Vec<Edge>, cells: usize) -> (r: (Vec<Edge>, Vec<Edge>))
    requires
        edges_within(edges@, cells as nat),
    ensures
        r.0@ == kruskal(edges@, cells as nat, edges@.len()).1,
        r.1@ == kruskal(edges@, cells as nat, edges@.len()).2,
{
    let mut labels: Vec<usize> = Vec::new();
    let mut i: usize = 0;
    while i < cells
        invariant
            i <= cells,
            labels@ == Seq::new(i as nat, |j: int| j as usize),
        decreases cells - i,
    {
        labels.push(i);
        i += 1;
    }
    let mut open: Vec<Edge> = Vec::new();
    let mut rest: Vec<Edge> = Vec::new();
    let mut k: usize = 0;
    while k < edges.len()
        invariant
            k <= edges@.len(),
            edges_within(edges@, cells as nat),
            labels@ == kruskal(edges@, cells as nat, k as nat).0,
            labels@.len() == cells,
            open@ == kruskal(edges@, cells as nat, k as nat).1,
            rest@ == kruskal(edges@, cells as nat, k as nat).2,
        decreases edges@.len() - k,
    {
        let e = edges[k];
        assert(edges@[k as int] == e);
        let la = labels[e.a as usize];
        let lb = labels[e.b as usize];
        if la != lb {
            let ghost before = labels@;
            let mut x: usize = 0;
            while x < cells
                invariant
                    x <= cells,
                    labels@.len() == cells,
                    before.len() == cells,
                    forall|y: int| 0 <= y < x ==> #[trigger] labels@[y] == (if before[y] == la { lb } else { before[y] }),
                    forall|y: int| x <= y < cells ==> #[trigger] labels@[y] == before[y],
                decreases cells - x,
            {
                if labels[x] == la {
                    labels.set(x, lb);
                }
                x += 1;
            }
            assert(labels@ =~= relabel(before, la, lb));
            open.push(e);
        } else {
            rest.push(e);
        }
        k += 1;
        proof {
            lemma_kruskal_labels_len(edges@, cells as nat, k as nat);
        }
    }
    (open, rest)
}

/// Chooses the open walls (the doors) of an `n × n` room grid: a spanning tree
/// of the grid drawn from `seed`, then `extra_of(remaining)` of the remaining
/// walls (at most all of them) reopened as loops. When loops are asked for,
/// each room still left with a single door then gets a second one from the
/// walls still closed, so that no room is a dead end.
pub fn pick_open_edges<F: Fn(usize) -> usize>(n: u32, seed: u64, extra_of: F) -> (open: Vec<Edge>)
    requires
        grid_fits(n as int),
        forall|r: usize| extra_of.requires((r,)),
    ensures
        exists|x: usize| #[trigger] extra_of.ensures((tree_split(n as int, seed).2.len() as usize,), x)
            && open@ == open_edges_spec(n as int, seed, x as nat),
{
    let mut edges = all_edges(n);
    let mut rng: u64 = seed ^ ROOMS_SALT;
    shuffle_edges(&mut edges, &mut rng);
    let cells: usize = (n * n) as usize;
    proof {
        lemma_shuffled_grid_facts(n as int, seed);
    }
    let (mut open, rest) = spanning_split(&edges, cells);
    let extra = extra_of(rest.len());
    let take: usize = if extra <= rest.len() { extra } else { rest.len() };
    let ghost tree = open@;
    let mut i: usize = 0;
    while i < take
        invariant
            take <= rest@.len(),
            i <= take,
            open@ == tree + rest@.take(i as int),
        decreases take - i,
    {
        open.push(rest[i]);
        i += 1;
        assert(open@ =~= tree + rest@.take(i as int));
    }
    proof {
        assert(edges@ == shuffled_grid(n as int, seed));
        assert(cells as nat == (n as int * n as int) as nat);
        assert(rest@ == tree_split(n as int, seed).2);
        assert(tree == tree_split(n as int, seed).1);
        assert(open@ == tree_and_loops(n as int, seed, extra as nat));
        assert(extra_of.ensures((tree_split(n as int, seed).2.len() as usize,), extra));
    }
    if extra > 0 {
        let mut closed: Vec<Edge> = Vec::new();
        let mut k: usize = take;
        while k < rest.len()
            invariant
                take <= k <= rest@.len(),
                closed@ == rest@.subrange(take as int, k as int),
            decreases rest@.len() - k,
        {
            closed.push(rest[k]);
            k += 1;
            assert(closed@ =~= rest@.subrange(take as int, k as int));
        }
        let ghost base = open@;
        let cells32: u32 = n * n;
        let mut c: u32 = 0;
        while c < cells32
            invariant
                c <= cells32,
                open@ == second_doors_upto(base, closed@, c as nat),
            decreases cells32 - c,
        {
            give_second_door(&mut open, &closed, c);
            c += 1;
        }
        proof {
            assert(closed@ == still_closed(n as int, seed, extra as nat));
            assert(cells32 as nat == (n as int * n as int) as nat);
        }
    }
    open
}

/// Whether `open` holds the wall `e`.
fn holds_edge(open: &Vec<Edge>, e: Edge) -> (b: bool)
    ensures
        b == open@.contains(e),
{
    let mut i: usize = 0;
    while i < open.len()
        invariant
            i <= open@.len(),
            forall|j: int| 0 <= j < i ==> open@[j] != e,
        decreases open@.len() - i,
    {
        let f = open[i];
        if f.a == e.a && f.b == e.b && f.horizontal == e.horizontal {
            assert(open@[i as int] == e);
            return true;
        }
        i += 1;
    }
    false
}

/// Whether cell `c` has two different open walls.
fn two_doors(open: &Vec<Edge>, c: u32) -> (b: bool)
    ensures
        b == has_two_doors(open@, c as int),
{
    let mut first: Option<usize> = None;
    let mut i: usize = 0;
    while i < open.len()
        invariant
            i <= open@.len(),
            first is None ==> forall|k: int| 0 <= k < i ==> !touches(#[trigger] open@[k], c as int),
            first matches Some(f) ==> f < i && touches(open@[f as int], c as int)
                && forall|k: int| 0 <= k < i && touches(#[trigger] open@[k], c as int) ==> open@[k] == open@[f as int],
        decreases open@.len() - i,
    {
        let e = open[i];
        if e.a == c || e.b == c {
            match first {
                None => {
                    first = Some(i);
                },
                Some(f) => {
                    let g = open[f];
                    if !(g.a == e.a && g.b == e.b && g.horizontal == e.horizontal) {
                        assert(open@[f as int] != open@[i as int]);
                        return true;
                    }
                },
            }
        }
        i += 1;
    }
    proof {
        if has_two_doors(open@, c as int) {
            let (x, y) = choose|x: int, y: int| #![trigger open@[x], open@[y]]
                0 <= x < open@.len() && 0 <= y < open@.len() && open@[x] != open@[y]
                    && touches(open@[x], c as int) && touches(open@[y], c as int);
            assert(touches(open@[x], c as int));
            assert(touches(open@[y], c as int));
        }
    }
    false
}

/// Gives cell `c` a second door from `closed` (see [`second_door_from`]).
fn give_second_door(open: &mut Vec<Edge>, closed: &Vec<Edge>, c: u32)
    ensures
        final(open)@ == second_door_from(old(open)@, closed@, c as int, 0),
{
    let ghost target = second_door_from(open@, closed@, c as int, 0);
    let mut j: usize = 0;
    while j < closed.len()
        invariant
            j <= closed@.len(),
            second_door_from(open@, closed@, c as int, j as nat) == target,
        decreases closed@.len() - j,
    {
        let e = closed[j];
        if e.a == c || e.b == c {
            if !two_doors(open, c) && !holds_edge(open, e) {
                open.push(e);
            }
        }
        j += 1;
    }
}


// ─── Door widths and grid size ──────────────────────────────────────────────

/// Brings a door width (in wall modules) to the parity of the cell, so that the
/// two wall pieces beside a centred door are whole modules: a door of the wrong
/// parity loses one module (never gains one), and is at least one module.
pub fn snap_corridor_parity(requested: u32, cell_modules: u32) -> (w: u32)
    ensures
        cell_modules % 2 == requested % 2 ==> w == if requested >= 1 { requested } else { 1 },
        cell_modules % 2 != requested % 2 ==> w == if requested >= 2 { (requested - 1) as u32 } else { 1 },
{
    if (cell_modules % 2) == (requested % 2) {
        if requested >= 1 { requested } else { 1 }
    } else {
        let down = requested.saturating_sub(1);
        if down >= 1 { down } else { 1 }
    }
}

/// The snap never widens a door, keeps at least one module, and, for any
/// request of two modules or more, gives the parity of the cell.
pub proof fn lemma_snap_never_widens(requested: u32, cell_modules: u32, w: u32)
    requires
        cell_modules % 2 == requested % 2 ==> w == if requested >= 1 { requested } else { 1 },
        cell_modules % 2 != requested % 2 ==> w == if requested >= 2 { (requested - 1) as u32 } else { 1 },
    ensures
        1 <= w,
        requested >= 1 ==> w <= requested,
        requested >= 2 ==> w % 2 == cell_modules % 2,
{
}

/// The grid size and door width a genome asks for, made safe: 2 to 8 rooms per
/// side (a 1 × 1 grid has neither rooms nor corridors), a door of 1 to 4
/// modules snapped to the parity of the cell.
pub fn normalized_grid(rooms_per_side: u32, corridor_modules: u32, cell_modules: u32) -> (r: (u32, u32))
    ensures
        r.0 == if rooms_per_side < 2 { 2 } else if rooms_per_side > 8 { 8 } else { rooms_per_side },
        ({
            let c: u32 = if corridor_modules < 1 { 1 } else if corridor_modules > 4 { 4 } else { corridor_modules };
            &&& cell_modules % 2 == c % 2 ==> r.1 == c
            &&& cell_modules % 2 != c % 2 ==> r.1 == if c >= 2 { (c - 1) as u32 } else { 1 }
        }),
        2 <= r.0 <= 8,
        1 <= r.1 <= 4,
{
    let side = if rooms_per_side < 2 { 2 } else if rooms_per_side > 8 { 8 } else { rooms_per_side };
    let c = if corridor_modules < 1 { 1 } else if corridor_modules > 4 { 4 } else { corridor_modules };
    (side, snap_corridor_parity(c, cell_modules))
}

// ─── Interior walls ─────────────────────────────────────────────────────────

/// Some open wall has the same two cells as `e`.
pub open spec fn is_door(open: Seq<Edge>, e: Edge) -> bool {
    exists|i: int| 0 <= i < open.len() && (#[trigger] open[i]).a == e.a && open[i].b == e.b
}

/// Whether `open` holds a wall between cells `a` and `b`.
fn has_door(open: &Vec<Edge>, e: Edge) -> (b: bool)
    ensures
        b == is_door(open@, e),
{
    let mut i: usize = 0;
    while i < open.len()
        invariant
            i <= open@.len(),
            forall|j: int| 0 <= j < i ==> !((#[trigger] open@[j]).a == e.a && open@[j].b == e.b),
        decreases open@.len() - i,
    {
        if open[i].a == e.a && open[i].b == e.b {
            assert(open@[i as int].a == e.a && open@[i as int].b == e.b);
            return true;
        }
        i += 1;
    }
    false
}

/// Every interior wall of the grid, in grid order, with whether it holds a door.
pub fn interior_walls(n: u32, open: &Vec<Edge>) -> (w: Vec<(Edge, bool)>)
    requires
        grid_fits(n as int),
    ensures
        w@.len() == grid_edges(n as int).len(),
        forall|i: int| 0 <= i < w@.len() ==> #[trigger] w@[i] == (
            grid_edges(n as int)[i],
            is_door(open@, grid_edges(n as int)[i]),
        ),
{
    let edges = all_edges(n);
    let mut w: Vec<(Edge, bool)> = Vec::new();
    let mut i: usize = 0;
    while i < edges.len()
        invariant
            edges@ == grid_edges(n as int),
            i <= edges@.len(),
            w@.len() == i,
            forall|j: int| 0 <= j < i ==> #[trigger] w@[j] == (edges@[j], is_door(open@, edges@[j])),
        decreases edges@.len() - i,
    {
        let e = edges[i];
        let d = has_door(open, e);
        w.push((e, d));
        i += 1;
    }
    w
}

} // verus!
