//! Routing enemies: A* search over the empty tiles, the shortest corridor
//! between the entrance and the exit, and the loop that enemies follow.

use vstd::prelude::*;
use vstd::set_lib::{lemma_int_range, lemma_len_subset, set_int_range};
use vstd::arithmetic::div_mod::lemma_fundamental_div_mod_converse;
use crate::grid::{
    GridSize, Position, Tile, TileKind, Terrain, ArrowDir, DirRole, passable, kind_at, is_walk, reaches, is_pos_walk,
    lemma_walk_push, lemma_cell_coords, lemma_index_pos, lemma_pos_index, lemma_adjacent_step,
    lemma_walk_single,
};

verus! {

/// Distance label of a cell that has not been reached.
pub const UNREACHED: u32 = 0xFFFF_FFFF;

/// Sum of the distance labels.
spec fn gsum(g: Seq<u32>) -> int
    decreases g.len(),
{
    if g.len() == 0 {
        0
    } else {
        gsum(g.drop_last()) + g.last()
    }
}

proof fn lemma_gsum_update(g: Seq<u32>, i: int, v: u32)
    requires
        0 <= i < g.len(),
    ensures
        gsum(g.update(i, v)) == gsum(g) - g[i] + v,
    decreases g.len(),
{
    let u = g.update(i, v);
    if i == g.len() - 1 {
        assert(u.drop_last() =~= g.drop_last());
    } else {
        lemma_gsum_update(g.drop_last(), i, v);
        assert(u.drop_last() =~= g.drop_last().update(i, v));
    }
}

proof fn lemma_gsum_nonneg(g: Seq<u32>)
    ensures
        gsum(g) >= 0,
    decreases g.len(),
{
    if g.len() > 0 {
        lemma_gsum_nonneg(g.drop_last());
    }
}

/// A sequence of distinct cells of an `n`-cell grid has at most `n` elements.
pub proof fn lemma_distinct_bound(s: Seq<int>, n: int)
    requires
        n >= 0,
        s.no_duplicates(),
        forall|k: int| 0 <= k < s.len() ==> 0 <= #[trigger] s[k] < n,
    ensures
        s.len() <= n,
{
    s.unique_seq_to_set();
    lemma_int_range(0, n);
    assert forall|x: int| s.to_set().contains(x) implies set_int_range(0, n).contains(x) by {
        let k = choose|k: int| 0 <= k < s.len() && s[k] == x;
        assert(0 <= s[k] < n);
    }
    lemma_len_subset(s.to_set(), set_int_range(0, n));
}

/// `w` is a walk of distinct empty cells from `s` to `i` whose length
/// matches the label of `i`, and no cell on it has a label larger than its
/// position on the walk.
spec fn walk_ok(gs: GridSize, tiles: Seq<Tile>, s: int, g: Seq<u32>, w: Seq<int>, i: int) -> bool {
    &&& is_walk(gs, tiles, Terrain::EmptyOnly, w)
    &&& w[0] == s
    &&& w.last() == i
    &&& w.len() == g[i] + 1
    &&& w.no_duplicates()
    &&& forall|k: int| 0 <= k < w.len() ==> g[#[trigger] w[k]] <= k
}

/// Manhattan distance from cell `i` to position `goal`.
pub open spec fn manhattan(gs: GridSize, i: int, goal: Position) -> int {
    let x = i % (gs.width as int);
    let y = i / (gs.width as int);
    (if x >= goal.x { x - goal.x } else { goal.x - x }) + (if y >= goal.y { y - goal.y } else { goal.y - y })
}

/// Cell `i` waits in the open list with an estimate no larger than its
/// label plus its distance to the goal.
spec fn queued(gs: GridSize, goal: Position, g: Seq<u32>, open: Seq<(u32, usize)>, i: int) -> bool {
    exists|k: int| 0 <= k < open.len() && #[trigger] open[k].1 == i && open[k].0 <= g[i] + manhattan(gs, i, goal)
}

/// Every empty neighbour of `i` has a label at most one more than `i`'s.
spec fn nbrs_settled(gs: GridSize, tiles: Seq<Tile>, g: Seq<u32>, i: int) -> bool {
    forall|j: int|
        #![trigger gs.step(i, j)]
        gs.step(i, j) && passable(Terrain::EmptyOnly, kind_at(tiles, j)) ==> g[j] <= g[i] + 1
}

/// Sizes of the search arrays, and the start labelled 0 without parent.
spec fn inv_shape(
    gs: GridSize,
    tiles: Seq<Tile>,
    s: int,
    g: Seq<u32>,
    parent: Seq<Option<usize>>,
    walks: Seq<Seq<int>>,
) -> bool {
    &&& g.len() == gs.cells()
    &&& parent.len() == gs.cells()
    &&& walks.len() == gs.cells()
    &&& tiles.len() == gs.cells()
    &&& 0 <= s < gs.cells()
    &&& g[s] == 0
    &&& parent[s] is None
}

/// Labelled cells are empty; every labelled cell but the start has a parent.
#[verifier::opaque]
spec fn inv_labels(gs: GridSize, tiles: Seq<Tile>, s: int, g: Seq<u32>, parent: Seq<Option<usize>>) -> bool {
    &&& forall|i: int| 0 <= i < gs.cells() && #[trigger] g[i] != UNREACHED ==> passable(Terrain::EmptyOnly, kind_at(tiles, i))
    &&& forall|i: int| 0 <= i < gs.cells() && i != s ==> (#[trigger] g[i] != UNREACHED <==> parent[i] is Some)
}

/// A parent is a labelled neighbour with a smaller label.
#[verifier::opaque]
spec fn inv_parents(gs: GridSize, g: Seq<u32>, parent: Seq<Option<usize>>) -> bool {
    forall|i: int|
        0 <= i < gs.cells() && #[trigger] parent[i] is Some ==> {
            let p = parent[i]->0 as int;
            &&& 0 <= p < gs.cells()
            &&& g[p] != UNREACHED
            &&& gs.step(p, i)
            &&& g[p] < g[i]
        }
}

/// The open list holds labelled cells only, each with an estimate no
/// smaller than its label plus its distance to the goal.
#[verifier::opaque]
spec fn inv_open(gs: GridSize, goal: Position, g: Seq<u32>, open: Seq<(u32, usize)>) -> bool {
    forall|k: int|
        0 <= k < open.len() ==> (#[trigger] open[k]).1 < gs.cells() && g[open[k].1 as int] != UNREACHED && open[k].0
            >= g[open[k].1 as int] + manhattan(gs, open[k].1 as int, goal)
}

/// Every labelled cell has a witness walk.
#[verifier::opaque]
spec fn inv_walks(gs: GridSize, tiles: Seq<Tile>, s: int, g: Seq<u32>, walks: Seq<Seq<int>>) -> bool {
    forall|i: int| 0 <= i < gs.cells() && #[trigger] g[i] != UNREACHED ==> walk_ok(gs, tiles, s, g, walks[i], i)
}

/// Every labelled cell other than `exempt` waits in the open list or has
/// its empty neighbours labelled at most one more than itself.
#[verifier::opaque]
spec fn inv_complete(
    gs: GridSize,
    goal: Position,
    tiles: Seq<Tile>,
    g: Seq<u32>,
    open: Seq<(u32, usize)>,
    exempt: int,
) -> bool {
    forall|i: int|
        0 <= i < gs.cells() && i != exempt && #[trigger] g[i] != UNREACHED ==> (queued(gs, goal, g, open, i)
            || nbrs_settled(gs, tiles, g, i))
}

/// The bookkeeping of the search.
spec fn search_inv(
    gs: GridSize,
    goal: Position,
    tiles: Seq<Tile>,
    s: int,
    g: Seq<u32>,
    parent: Seq<Option<usize>>,
    walks: Seq<Seq<int>>,
    open: Seq<(u32, usize)>,
    exempt: int,
) -> bool {
    &&& inv_shape(gs, tiles, s, g, parent, walks)
    &&& inv_labels(gs, tiles, s, g, parent)
    &&& inv_parents(gs, g, parent)
    &&& inv_open(gs, goal, g, open)
    &&& inv_walks(gs, tiles, s, g, walks)
    &&& inv_complete(gs, goal, tiles, g, open, exempt)
}

/// Manhattan distance from cell `i` to the goal position.
fn estimate(gs: GridSize, i: u32, goal: Position) -> (r: u32)
    requires
        gs.wf(),
        0 <= i < gs.cells(),
        gs.in_bounds(goal),
    ensures
        r + 2 <= gs.width + gs.height,
        r == manhattan(gs, i as int, goal),
{
    proof {
        lemma_cell_coords(gs, i as int);
    }
    let x = i % gs.width;
    let y = i / gs.width;
    let dx = if x >= goal.x { x - goal.x } else { goal.x - x };
    let dy = if y >= goal.y { y - goal.y } else { goal.y - y };
    dx + dy
}

/// Labels are bounded by the number of cells.
proof fn lemma_label_bound(gs: GridSize, tiles: Seq<Tile>, s: int, g: Seq<u32>, walks: Seq<Seq<int>>, i: int)
    requires
        inv_walks(gs, tiles, s, g, walks),
        g.len() == gs.cells(),
        0 <= i < gs.cells(),
        g[i] != UNREACHED,
    ensures
        g[i] + 1 <= gs.cells(),
        walk_ok(gs, tiles, s, g, walks[i], i),
{
    reveal(inv_walks);
    lemma_distinct_bound(walks[i], gs.cells());
}

/// The walk of `ci` extended by `ni` is a witness for `ni`'s new label.
proof fn lemma_extended_walk(gs: GridSize, tiles: Seq<Tile>, s: int, g0: Seq<u32>, wc: Seq<int>, ci: int, ni: int)
    requires
        walk_ok(gs, tiles, s, g0, wc, ci),
        gs.step(ci, ni),
        g0.len() == gs.cells(),
        g0[ci] + 1 < g0[ni],
        passable(Terrain::EmptyOnly, kind_at(tiles, ni)),
    ensures
        g0[ci] + 2 <= gs.cells(),
        walk_ok(gs, tiles, s, g0.update(ni, (g0[ci] + 1) as u32), wc.push(ni), ni),
{
    let n = gs.cells();
    let wn = wc.push(ni);
    let g1 = g0.update(ni, (g0[ci] + 1) as u32);
    // ni is not on ci's walk: every cell there has a label at most its
    // position, which is below the new label.
    assert forall|k: int| 0 <= k < wc.len() implies wc[k] != ni by {
        assert(g0[wc[k]] <= k);
    }
    lemma_walk_push(gs, tiles, Terrain::EmptyOnly, wc, ni);
    assert(wn.no_duplicates()) by {
        assert forall|a: int, b: int| 0 <= a < wn.len() && 0 <= b < wn.len() && a != b implies wn[a] != wn[b] by {
            if a < wc.len() && b < wc.len() {
                assert(wn[a] == wc[a] && wn[b] == wc[b]);
            }
        }
    }
    assert forall|k: int| 0 <= k < wn.len() implies 0 <= #[trigger] wn[k] < n by {
        if k < wc.len() {
            assert(wn[k] == wc[k]);
        }
    }
    lemma_distinct_bound(wn, n);
    assert forall|k: int| 0 <= k < wn.len() implies g1[#[trigger] wn[k]] <= k by {
        if k < wc.len() {
            assert(wn[k] == wc[k]);
            assert(g0[wc[k]] <= k);
        }
    }
}

/// Labelling `ni` one more than `ci` (an improvement), with `ci` as its
/// parent, extending `ci`'s walk and queueing `ni` with its label plus its
/// distance to the goal, keeps the bookkeeping.
proof fn lemma_relax_step(
    gs: GridSize,
    goal: Position,
    tiles: Seq<Tile>,
    s: int,
    g0: Seq<u32>,
    p0: Seq<Option<usize>>,
    w0: Seq<Seq<int>>,
    o0: Seq<(u32, usize)>,
    ci: usize,
    ni: usize,
    f: u32,
)
    requires
        search_inv(gs, goal, tiles, s, g0, p0, w0, o0, ci as int),
        gs.step(ci as int, ni as int),
        g0[ci as int] != UNREACHED,
        g0[ci as int] + 1 < g0[ni as int],
        passable(Terrain::EmptyOnly, kind_at(tiles, ni as int)),
        f == g0[ci as int] + 1 + manhattan(gs, ni as int, goal),
    ensures
        search_inv(
            gs,
            goal,
            tiles,
            s,
            g0.update(ni as int, (g0[ci as int] + 1) as u32),
            p0.update(ni as int, Some(ci)),
            w0.update(ni as int, w0[ci as int].push(ni as int)),
            o0.push((f, ni)),
            ci as int,
        ),
{
    let n = gs.cells();
    let g1 = g0.update(ni as int, (g0[ci as int] + 1) as u32);
    let p1 = p0.update(ni as int, Some(ci));
    let o1 = o0.push((f, ni));
    let wc = w0[ci as int];
    let w1 = w0.update(ni as int, wc.push(ni as int));
    lemma_label_bound(gs, tiles, s, g0, w0, ci as int);
    lemma_extended_walk(gs, tiles, s, g0, wc, ci as int, ni as int);
    assert(inv_labels(gs, tiles, s, g1, p1)) by {
        reveal(inv_labels);
    }
    assert(inv_parents(gs, g1, p1)) by {
        reveal(inv_parents);
        assert forall|i: int|
            0 <= i < n && #[trigger] p1[i] is Some implies {
            let p = p1[i]->0 as int;
            &&& 0 <= p < n
            &&& g1[p] != UNREACHED
            &&& gs.step(p, i)
            &&& g1[p] < g1[i]
        } by {
            if i != ni as int {
                let p = p1[i]->0 as int;
                assert(g0[p] < g0[i]);
            }
        }
    }
    assert(inv_open(gs, goal, g1, o1)) by {
        reveal(inv_open);
        assert forall|k: int| 0 <= k < o1.len() implies (#[trigger] o1[k]).1 < n && g1[o1[k].1 as int] != UNREACHED
            && o1[k].0 >= g1[o1[k].1 as int] + manhattan(gs, o1[k].1 as int, goal) by {
            if k < o0.len() {
                assert(o1[k] == o0[k]);
            }
        }
    }
    assert(inv_walks(gs, tiles, s, g1, w1)) by {
        reveal(inv_walks);
        assert forall|i: int| 0 <= i < n && #[trigger] g1[i] != UNREACHED implies walk_ok(gs, tiles, s, g1, w1[i], i) by {
            if i != ni as int {
                let w = w0[i];
                assert(walk_ok(gs, tiles, s, g0, w, i));
                assert forall|k: int| 0 <= k < w.len() implies g1[#[trigger] w[k]] <= k by {
                    assert(g0[w[k]] <= k);
                }
            }
        }
    }
    assert(inv_complete(gs, goal, tiles, g1, o1, ci as int)) by {
        reveal(inv_complete);
        assert forall|i: int|
            0 <= i < n && i != ci as int && #[trigger] g1[i] != UNREACHED implies (queued(gs, goal, g1, o1, i)
                || nbrs_settled(gs, tiles, g1, i)) by {
            if i == ni as int {
                assert(o1[o1.len() - 1].1 == ni);
            } else if queued(gs, goal, g0, o0, i) {
                let k = choose|k: int|
                    0 <= k < o0.len() && #[trigger] o0[k].1 == i && o0[k].0 <= g0[i] + manhattan(gs, i, goal);
                assert(o1[k] == o0[k]);
            } else {
                assert(nbrs_settled(gs, tiles, g0, i));
                assert forall|j: int|
                    #![trigger gs.step(i, j)]
                    gs.step(i, j) && passable(Terrain::EmptyOnly, kind_at(tiles, j)) implies g1[j] <= g1[i] + 1 by {
                    assert(g0[j] <= g0[i] + 1);
                }
            }
        }
    }
}

/// Offers `ci`'s neighbour `ni` a label one larger than `ci`'s; when that
/// improves it, records `ci` as its parent and queues it.
fn relax(
    gs: GridSize,
    tiles: &Vec<Tile>,
    s: Ghost<int>,
    goal: Position,
    ci: usize,
    ni: usize,
    g: &mut Vec<u32>,
    parent: &mut Vec<Option<usize>>,
    open: &mut Vec<(u32, usize)>,
    walks: Ghost<Seq<Seq<int>>>,
) -> (new_walks: Ghost<Seq<Seq<int>>>)
    requires
        gs.wf(),
        gs.in_bounds(goal),
        search_inv(gs, goal, tiles@, s@, old(g)@, old(parent)@, walks@, old(open)@, ci as int),
        gs.step(ci as int, ni as int),
        old(g)@[ci as int] != UNREACHED,
    ensures
        search_inv(gs, goal, tiles@, s@, final(g)@, final(parent)@, new_walks@, final(open)@, ci as int),
        final(g)@[ci as int] == old(g)@[ci as int],
        passable(Terrain::EmptyOnly, kind_at(tiles@, ni as int)) ==> final(g)@[ni as int] <= old(g)@[ci as int] + 1,
        final(g)@.len() == old(g)@.len(),
        forall|i: int| 0 <= i < gs.cells() ==> #[trigger] final(g)@[i] <= old(g)@[i],
        (gsum(final(g)@) < gsum(old(g)@) && final(open)@.len() == old(open)@.len() + 1) || (final(g)@
            == old(g)@ && final(open)@ == old(open)@),
{
    if !matches!(tiles[ni].kind, TileKind::Empty) {
        return walks;
    }
    proof {
        lemma_label_bound(gs, tiles@, s@, g@, walks@, ci as int);
    }
    let g_here = g[ci];
    let tentative = g_here + 1;
    if tentative < g[ni] {
        proof {
            lemma_extended_walk(gs, tiles@, s@, g@, walks@[ci as int], ci as int, ni as int);
            lemma_cell_coords(gs, ni as int);
            lemma_gsum_update(g@, ni as int, tentative);
        }
        let h = estimate(gs, ni as u32, goal);
        let ghost nw = walks@.update(ni as int, walks@[ci as int].push(ni as int));
        let ghost g0 = g@;
        let ghost p0 = parent@;
        let ghost o0 = open@;
        g.set(ni, tentative);
        parent.set(ni, Some(ci));
        open.push((tentative + h, ni));
        proof {
            lemma_relax_step(gs, goal, tiles@, s@, g0, p0, walks@, o0, ci, ni, (tentative + h) as u32);
        }
        return Ghost(nw);
    }
    proof {
        // no change: the labels of the neighbour and all others stay
        assert(g@ == old(g)@);
    }
    walks
}

/// Removes and returns the cell of the open-list entry with the least
/// estimate; among equal estimates, the largest cell index.
fn take_best(open: &mut Vec<(u32, usize)>) -> (ci: usize)
    requires
        old(open)@.len() > 0,
    ensures
        exists|b: int|
            0 <= b < old(open)@.len() && old(open)@[b].1 == ci && final(open)@ == old(open)@.remove(b) && forall|k: int|
                0 <= k < old(open)@.len() ==> old(open)@[b].0 <= #[trigger] old(open)@[k].0,
{
    let mut b: usize = 0;
    let mut j: usize = 1;
    while j < open.len()
        invariant
            0 <= b < open@.len(),
            1 <= j <= open@.len(),
            forall|k: int| 0 <= k < j ==> open@[b as int].0 <= #[trigger] open@[k].0,
        decreases open@.len() - j,
    {
        let (fj, ij) = open[j];
        let (fb, ib) = open[b];
        if fj < fb || (fj == fb && ij > ib) {
            b = j;
        }
        j += 1;
    }
    let ghost o = open@;
    let (_f, ci) = open.remove(b);
    assert(o[b as int].1 == ci);
    ci
}

/// Taking an entry out of the open list exempts only its cell.
proof fn lemma_inv_after_take(
    gs: GridSize,
    goal: Position,
    tiles: Seq<Tile>,
    s: int,
    g: Seq<u32>,
    parent: Seq<Option<usize>>,
    walks: Seq<Seq<int>>,
    open0: Seq<(u32, usize)>,
    b: int,
    ci: int,
)
    requires
        search_inv(gs, goal, tiles, s, g, parent, walks, open0, -1),
        0 <= b < open0.len(),
        open0[b].1 == ci,
    ensures
        search_inv(gs, goal, tiles, s, g, parent, walks, open0.remove(b), ci),
        0 <= ci < gs.cells(),
        g[ci] != UNREACHED,
{
    let n = gs.cells();
    let open = open0.remove(b);
    reveal(inv_open);
    assert(inv_complete(gs, goal, tiles, g, open, ci)) by {
        reveal(inv_complete);
        assert forall|i: int|
            0 <= i < n && i != ci && #[trigger] g[i] != UNREACHED implies (queued(gs, goal, g, open, i)
                || nbrs_settled(gs, tiles, g, i)) by {
            if queued(gs, goal, g, open0, i) {
                let kk = choose|kk: int|
                    0 <= kk < open0.len() && #[trigger] open0[kk].1 == i && open0[kk].0 <= g[i] + manhattan(gs, i, goal);
                if kk < b {
                    assert(open[kk] == open0[kk]);
                } else {
                    assert(open[kk - 1] == open0[kk]);
                }
            }
        }
    }
    assert forall|kk: int| 0 <= kk < open.len() implies (#[trigger] open[kk]).1 < n && g[open[kk].1 as int] != UNREACHED
        && open[kk].0 >= g[open[kk].1 as int] + manhattan(gs, open[kk].1 as int, goal) by {
        if kk < b {
            assert(open[kk] == open0[kk]);
        } else {
            assert(open[kk] == open0[kk + 1]);
        }
    }
    assert((open0[b]).1 < n);
}

/// A cell whose empty neighbours are settled needs no exemption.
proof fn lemma_unexempt(
    gs: GridSize,
    goal: Position,
    tiles: Seq<Tile>,
    s: int,
    g: Seq<u32>,
    parent: Seq<Option<usize>>,
    walks: Seq<Seq<int>>,
    open: Seq<(u32, usize)>,
    ci: int,
)
    requires
        search_inv(gs, goal, tiles, s, g, parent, walks, open, ci),
        nbrs_settled(gs, tiles, g, ci),
    ensures
        search_inv(gs, goal, tiles, s, g, parent, walks, open, -1),
{
    reveal(inv_complete);
}

/// Expands cell `ci`: offers each of its neighbours (right, left, down, up)
/// a label one larger than its own.
fn expand(
    gs: GridSize,
    tiles: &Vec<Tile>,
    s: Ghost<int>,
    goal: Position,
    ci: usize,
    g: &mut Vec<u32>,
    parent: &mut Vec<Option<usize>>,
    open: &mut Vec<(u32, usize)>,
    walks: Ghost<Seq<Seq<int>>>,
) -> (new_walks: Ghost<Seq<Seq<int>>>)
    requires
        gs.wf(),
        gs.in_bounds(goal),
        search_inv(gs, goal, tiles@, s@, old(g)@, old(parent)@, walks@, old(open)@, ci as int),
        0 <= ci < gs.cells(),
        old(g)@[ci as int] != UNREACHED,
    ensures
        search_inv(gs, goal, tiles@, s@, final(g)@, final(parent)@, new_walks@, final(open)@, -1),
        2 * gsum(final(g)@) + final(open)@.len() <= 2 * gsum(old(g)@) + old(open)@.len(),
{
    let ghost g0 = g@;
    let ghost open0 = open@;
    let mut walks = walks;
    let w = gs.width;
    proof {
        lemma_cell_coords(gs, ci as int);
    }
    let cx = (ci as u32) % w;
    let cy = (ci as u32) / w;
    if cx + 1 < w {
        walks = relax(gs, tiles, s, goal, ci, ci + 1, g, parent, open, walks);
    }
    assert(2 * gsum(g@) + open@.len() <= 2 * gsum(g0) + open0.len());
    if cx > 0 {
        walks = relax(gs, tiles, s, goal, ci, ci - 1, g, parent, open, walks);
    }
    assert(2 * gsum(g@) + open@.len() <= 2 * gsum(g0) + open0.len());
    if cy + 1 < gs.height {
        walks = relax(gs, tiles, s, goal, ci, ci + (w as usize), g, parent, open, walks);
    }
    assert(2 * gsum(g@) + open@.len() <= 2 * gsum(g0) + open0.len());
    if cy > 0 {
        walks = relax(gs, tiles, s, goal, ci, ci - (w as usize), g, parent, open, walks);
    }
    assert(2 * gsum(g@) + open@.len() <= 2 * gsum(g0) + open0.len());
    proof {
        assert forall|jj: int|
            #![trigger gs.step(ci as int, jj)]
            gs.step(ci as int, jj) && passable(Terrain::EmptyOnly, kind_at(tiles@, jj)) implies g@[jj]
                <= g@[ci as int] + 1 by {
        }
        lemma_unexempt(gs, goal, tiles@, s@, g@, parent@, walks@, open@, ci as int);
    }
    walks
}

/// A step between cells moves one column or one row.
proof fn lemma_step_coords(gs: GridSize, i: int, j: int)
    requires
        gs.step(i, j),
    ensures
        ({
            let w = gs.width as int;
            let (xi, yi, xj, yj) = (i % w, i / w, j % w, j / w);
            ||| (xj == xi + 1 && yj == yi)
            ||| (xj == xi - 1 && yj == yi)
            ||| (xj == xi && yj == yi + 1)
            ||| (xj == xi && yj == yi - 1)
        }),
{
    let w = gs.width as int;
    lemma_pos_index(gs, i);
    lemma_pos_index(gs, j);
    let (xi, yi) = (i % w, i / w);
    if j == i + 1 && xi + 1 < w {
        lemma_fundamental_div_mod_converse(j, w, yi, xi + 1);
    } else if j == i - 1 && xi > 0 {
        lemma_fundamental_div_mod_converse(j, w, yi, xi - 1);
    } else if j == i + w {
        assert((yi + 1) * w == yi * w + w) by (nonlinear_arith);
        lemma_fundamental_div_mod_converse(j, w, yi + 1, xi);
    } else {
        assert((yi - 1) * w == yi * w - w) by (nonlinear_arith);
        lemma_fundamental_div_mod_converse(j, w, yi - 1, xi);
    }
}

/// The Manhattan distance to the goal is never more than the steps left on
/// a walk that ends there.
proof fn lemma_manhattan_walk(gs: GridSize, tiles: Seq<Tile>, goal: Position, w: Seq<int>, t: int)
    requires
        is_walk(gs, tiles, Terrain::EmptyOnly, w),
        gs.in_bounds(goal),
        w.last() == gs.index_of(goal),
        0 <= t < w.len(),
    ensures
        manhattan(gs, w[t], goal) <= w.len() - 1 - t,
    decreases w.len() - t,
{
    if t == w.len() - 1 {
        lemma_index_pos(gs, goal);
    } else {
        lemma_manhattan_walk(gs, tiles, goal, w, t + 1);
        assert(gs.step(w[t], w[t + 1]));
        lemma_step_coords(gs, w[t], w[t + 1]);
    }
}

/// Along a walk to the goal of `m` steps, once a cell at step `t` has a
/// label of at most `t`: either some open entry has an estimate of at most
/// `m`, or the goal has a label of at most `m`.
proof fn lemma_walk_bound(
    gs: GridSize,
    goal: Position,
    tiles: Seq<Tile>,
    s: int,
    g: Seq<u32>,
    parent: Seq<Option<usize>>,
    walks: Seq<Seq<int>>,
    open: Seq<(u32, usize)>,
    w: Seq<int>,
    t: int,
)
    requires
        search_inv(gs, goal, tiles, s, g, parent, walks, open, -1),
        gs.wf(),
        gs.in_bounds(goal),
        is_walk(gs, tiles, Terrain::EmptyOnly, w),
        w.last() == gs.index_of(goal),
        w.len() <= gs.cells(),
        0 <= t < w.len(),
        g[w[t]] <= t,
    ensures
        (exists|k: int| 0 <= k < open.len() && #[trigger] open[k].0 <= w.len() - 1) || g[w.last()] <= w.len() - 1,
    decreases w.len() - t,
{
    let m = w.len() - 1;
    if t < m {
        let a = w[t];
        reveal(inv_complete);
        assert(0 <= a < gs.cells());
        lemma_manhattan_walk(gs, tiles, goal, w, t);
        if queued(gs, goal, g, open, a) {
            let k = choose|k: int| 0 <= k < open.len() && #[trigger] open[k].1 == a && open[k].0 <= g[a] + manhattan(gs, a, goal);
            assert(open[k].0 <= m);
        } else {
            assert(nbrs_settled(gs, tiles, g, a));
            assert(gs.step(a, w[t + 1]));
            assert(passable(Terrain::EmptyOnly, kind_at(tiles, w[t + 1])));
            lemma_walk_bound(gs, goal, tiles, s, g, parent, walks, open, w, t + 1);
        }
    }
}

/// With nothing left to explore, every cell on a walk from the start has a label.
proof fn lemma_closure(
    gs: GridSize,
    goal: Position,
    tiles: Seq<Tile>,
    s: int,
    g: Seq<u32>,
    parent: Seq<Option<usize>>,
    walks: Seq<Seq<int>>,
    open: Seq<(u32, usize)>,
    w: Seq<int>,
    k: int,
)
    requires
        search_inv(gs, goal, tiles, s, g, parent, walks, open, -1),
        gs.wf(),
        open.len() == 0,
        is_walk(gs, tiles, Terrain::EmptyOnly, w),
        w[0] == s,
        0 <= k < w.len(),
    ensures
        g[w[k]] != UNREACHED,
    decreases k,
{
    if k > 0 {
        lemma_closure(gs, goal, tiles, s, g, parent, walks, open, w, k - 1);
        let a = w[k - 1];
        reveal(inv_complete);
        assert(0 <= a < gs.cells());
        assert(!queued(gs, goal, g, open, a));
        assert(nbrs_settled(gs, tiles, g, a));
        assert(gs.step(a, w[k]));
        assert(passable(Terrain::EmptyOnly, kind_at(tiles, w[k])));
        lemma_label_bound(gs, tiles, s, g, walks, a);
    }
}

/// No walk from the start to the goal is shorter than the goal's label.
spec fn goal_label_shortest(gs: GridSize, tiles: Seq<Tile>, g: Seq<u32>, s: int, gi: int) -> bool {
    forall|w: Seq<int>|
        #[trigger] is_walk(gs, tiles, Terrain::EmptyOnly, w) && w[0] == s && w.last() == gi ==> g[gi] + 1 <= w.len()
}

/// When the goal's entry is the least in the open list, or the list is
/// empty, the goal's label (if any) is the length of a shortest walk.
proof fn lemma_goal_shortest(
    gs: GridSize,
    goal: Position,
    tiles: Seq<Tile>,
    s: int,
    g: Seq<u32>,
    parent: Seq<Option<usize>>,
    walks: Seq<Seq<int>>,
    open: Seq<(u32, usize)>,
    b: int,
)
    requires
        search_inv(gs, goal, tiles, s, g, parent, walks, open, -1),
        gs.wf(),
        gs.in_bounds(goal),
        g[gs.index_of(goal)] != UNREACHED,
        open.len() == 0 || (0 <= b < open.len() && open[b].1 == gs.index_of(goal) && forall|k: int|
            0 <= k < open.len() ==> open[b].0 <= #[trigger] open[k].0),
    ensures
        goal_label_shortest(gs, tiles, g, s, gs.index_of(goal)),
{
    let gi = gs.index_of(goal);
    lemma_index_pos(gs, goal);
    lemma_label_bound(gs, tiles, s, g, walks, gi);
    assert forall|w: Seq<int>| #[trigger] is_walk(gs, tiles, Terrain::EmptyOnly, w) && w[0] == s && w.last() == gi implies g[gi]
        + 1 <= w.len() by {
        if w.len() <= gs.cells() {
            lemma_walk_bound(gs, goal, tiles, s, g, parent, walks, open, w, 0);
            if exists|k: int| 0 <= k < open.len() && #[trigger] open[k].0 <= w.len() - 1 {
                let k = choose|k: int| 0 <= k < open.len() && #[trigger] open[k].0 <= w.len() - 1;
                reveal(inv_open);
                assert(open[b].0 <= open[k].0);
                assert(open[b].0 >= g[gi] + manhattan(gs, gi, goal));
            }
        }
    }
}

/// Runs the search from `sidx` until the goal leaves the open list or the
/// list is empty; returns the labels and parents.
fn search(gs: GridSize, tiles: &Vec<Tile>, sidx: usize, gidx: usize, goal: Position) -> (res: (
    Vec<u32>,
    Vec<Option<usize>>,
))
    requires
        gs.wf(),
        gs.in_bounds(goal),
        tiles@.len() == gs.cells(),
        0 <= sidx < gs.cells(),
        gidx as int == gs.index_of(goal),
        passable(Terrain::EmptyOnly, kind_at(tiles@, sidx as int)),
    ensures
        res.0@.len() == gs.cells(),
        res.1@.len() == gs.cells(),
        res.0@[sidx as int] == 0,
        res.1@[sidx as int] is None,
        inv_labels(gs, tiles@, sidx as int, res.0@, res.1@),
        inv_parents(gs, res.0@, res.1@),
        res.0@[gidx as int] != UNREACHED <==> reaches(gs, tiles@, Terrain::EmptyOnly, sidx as int, gidx as int),
        res.0@[gidx as int] != UNREACHED ==> goal_label_shortest(gs, tiles@, res.0@, sidx as int, gidx as int),
{
    proof {
        crate::grid::lemma_index_pos(gs, goal);
    }
    let n = (gs.width * gs.height) as usize;
    let mut g: Vec<u32> = Vec::new();
    let mut parent: Vec<Option<usize>> = Vec::new();
    let mut k: usize = 0;
    while k < n
        invariant
            k <= n,
            n == gs.cells(),
            g@.len() == k,
            parent@.len() == k,
            forall|j: int| 0 <= j < k ==> #[trigger] g@[j] == UNREACHED,
            forall|j: int| 0 <= j < k ==> #[trigger] parent@[j] is None,
        decreases n - k,
    {
        g.push(UNREACHED);
        parent.push(None);
        k += 1;
    }
    g.set(sidx, 0);
    let mut open: Vec<(u32, usize)> = Vec::new();
    let h0 = estimate(gs, sidx as u32, goal);
    open.push((h0, sidx));
    let ghost mut walks: Seq<Seq<int>> = Seq::new(n as nat, |i: int| seq![i]);
    proof {
        lemma_walk_single(gs, tiles@, Terrain::EmptyOnly, sidx as int);
        assert(walk_ok(gs, tiles@, sidx as int, g@, walks[sidx as int], sidx as int));
        assert(open@[0].1 == sidx);
        assert(queued(gs, goal, g@, open@, sidx as int));
        reveal(inv_labels);
        reveal(inv_parents);
        reveal(inv_open);
        reveal(inv_walks);
        reveal(inv_complete);
        lemma_gsum_nonneg(g@);
    }
    let mut found = false;
    while open.len() > 0 && !found
        invariant
            gs.wf(),
            gs.in_bounds(goal),
            n == gs.cells(),
            tiles@.len() == n,
            0 <= sidx < n,
            0 <= gidx < n,
            gidx as int == gs.index_of(goal),
            search_inv(gs, goal, tiles@, sidx as int, g@, parent@, walks, open@, if found { gidx as int } else { -1 }),
            found ==> g@[gidx as int] != UNREACHED,
            found ==> goal_label_shortest(gs, tiles@, g@, sidx as int, gidx as int),
            gsum(g@) >= 0,
        decreases 2 * gsum(g@) + open@.len(),
    {
        let ghost open0 = open@;
        let ghost gsum0 = gsum(g@);
        let ci = take_best(&mut open);
        proof {
            let bb = choose|bb: int|
                0 <= bb < open0.len() && open0[bb].1 == ci && open@ == open0.remove(bb) && forall|k: int|
                    0 <= k < open0.len() ==> open0[bb].0 <= #[trigger] open0[k].0;
            lemma_inv_after_take(gs, goal, tiles@, sidx as int, g@, parent@, walks, open0, bb, ci as int);
            if ci == gidx {
                lemma_goal_shortest(gs, goal, tiles@, sidx as int, g@, parent@, walks, open0, bb);
            }
        }
        if ci == gidx {
            found = true;
        } else {
            let nw = expand(gs, tiles, Ghost(sidx as int), goal, ci, &mut g, &mut parent, &mut open, Ghost(walks));
            proof {
                walks = nw@;
            }
        }
        proof {
            lemma_gsum_nonneg(g@);
        }
        assert(2 * gsum(g@) + open@.len() < 2 * gsum0 + open0.len());
    }
    proof {
        if reaches(gs, tiles@, Terrain::EmptyOnly, sidx as int, gidx as int) {
            if !found {
                let wk = choose|wk: Seq<int>|
                    #[trigger] is_walk(gs, tiles@, Terrain::EmptyOnly, wk) && wk[0] == sidx as int && wk.last()
                        == gidx as int;
                lemma_closure(gs, goal, tiles@, sidx as int, g@, parent@, walks, open@, wk, wk.len() - 1);
            }
        }
        if !found && g@[gidx as int] != UNREACHED {
            lemma_goal_shortest(gs, goal, tiles@, sidx as int, g@, parent@, walks, open@, 0);
        }
        if g@[gidx as int] != UNREACHED {
            lemma_label_bound(gs, tiles@, sidx as int, g@, walks, gidx as int);
            let wk = walks[gidx as int];
            assert(is_walk(gs, tiles@, Terrain::EmptyOnly, wk) && wk[0] == sidx as int && wk.last() == gidx as int);
        }
    }
    (g, parent)
}

/// Follows parents from `gidx` back to `sidx`; the cells come goal first.
fn trace_back(
    gs: GridSize,
    tiles: Ghost<Seq<Tile>>,
    g: &Vec<u32>,
    parent: &Vec<Option<usize>>,
    sidx: usize,
    gidx: usize,
) -> (rev: Vec<usize>)
    requires
        g@.len() == gs.cells(),
        parent@.len() == gs.cells(),
        0 <= sidx < gs.cells(),
        0 <= gidx < gs.cells(),
        g@[sidx as int] == 0,
        parent@[sidx as int] is None,
        inv_labels(gs, tiles@, sidx as int, g@, parent@),
        inv_parents(gs, g@, parent@),
        g@[gidx as int] != UNREACHED,
    ensures
        rev@.len() >= 1,
        rev@.len() <= g@[gidx as int] + 1,
        rev@[0] == gidx,
        rev@.last() == sidx,
        gidx == sidx ==> rev@.len() == 1,
        forall|kk: int| 0 <= kk < rev@.len() ==> #[trigger] rev@[kk] < gs.cells() && passable(
            Terrain::EmptyOnly,
            kind_at(tiles@, rev@[kk] as int),
        ),
        forall|kk: int| 0 <= kk < rev@.len() - 1 ==> gs.step(#[trigger] rev@[kk + 1] as int, rev@[kk] as int),
{
    proof {
        reveal(inv_labels);
        reveal(inv_parents);
    }
    let ghost n = gs.cells();
    let mut rev: Vec<usize> = Vec::new();
    let mut cur: usize = gidx;
    loop
        invariant_except_break
            0 <= cur < n,
            g@[cur as int] != UNREACHED,
            rev@.len() == 0 ==> cur == gidx,
            rev@.len() > 0 ==> gs.step(cur as int, rev@.last() as int),
            gidx == sidx ==> rev@.len() == 0,
            rev@.len() + g@[cur as int] <= g@[gidx as int],
        invariant
            n == gs.cells(),
            g@.len() == n,
            parent@.len() == n,
            0 <= sidx < n,
            g@[sidx as int] == 0,
            parent@[sidx as int] is None,
            inv_labels(gs, tiles@, sidx as int, g@, parent@),
            inv_parents(gs, g@, parent@),
            rev@.len() > 0 ==> rev@[0] == gidx,
            forall|kk: int| 0 <= kk < rev@.len() ==> #[trigger] rev@[kk] < n && g@[rev@[kk] as int] != UNREACHED,
            forall|kk: int| 0 <= kk < rev@.len() - 1 ==> gs.step(#[trigger] rev@[kk + 1] as int, rev@[kk] as int),
        ensures
            rev@.len() >= 1,
            rev@.len() <= g@[gidx as int] + 1,
            rev@[rev@.len() - 1] == sidx,
            gidx == sidx ==> rev@.len() == 1,
        decreases g@[cur as int],
    {
        proof {
            reveal(inv_labels);
            reveal(inv_parents);
        }
        rev.push(cur);
        if cur == sidx {
            break;
        }
        let p = parent[cur].unwrap();
        cur = p;
    }
    rev
}

/// A* search over the empty tiles, four-connected, with the Manhattan
/// distance as estimate. The open list yields the entry of least estimate,
/// among equals the one of largest cell index; cells may be expanded again
/// when their label improves; the search stops when the goal is taken from
/// the open list.
fn a_star(gs: GridSize, tiles: &Vec<Tile>, start: Position, goal: Position) -> (r: Vec<Position>)
    requires
        gs.wf(),
        tiles@.len() == gs.cells(),
    ensures
        r@.len() > 0 ==> is_pos_walk(gs, tiles@, Terrain::EmptyOnly, r@) && r@[0] == start && r@.last() == goal,
        r@.len() > 0 && start == goal ==> r@.len() == 1,
        r@.len() > 0 ==> forall|q: Seq<Position>|
            #[trigger] is_pos_walk(gs, tiles@, Terrain::EmptyOnly, q) && q[0] == start && q.last() == goal ==> r@.len()
                <= q.len(),
        r@.len() == 0 <==> !(gs.in_bounds(start) && gs.in_bounds(goal) && reaches(
            gs,
            tiles@,
            Terrain::EmptyOnly,
            gs.index_of(start),
            gs.index_of(goal),
        )),
{
    if !(start.x < gs.width && start.y < gs.height) || !(goal.x < gs.width && goal.y < gs.height) {
        return Vec::new();
    }
    proof {
        lemma_index_pos(gs, start);
        lemma_index_pos(gs, goal);
    }
    let w = gs.width;
    let sidx = (start.y * w + start.x) as usize;
    let gidx = (goal.y * w + goal.x) as usize;
    if !matches!(tiles[sidx].kind, TileKind::Empty) || !matches!(tiles[gidx].kind, TileKind::Empty) {
        proof {
            if reaches(gs, tiles@, Terrain::EmptyOnly, sidx as int, gidx as int) {
                let wk = choose|wk: Seq<int>|
                    #[trigger] is_walk(gs, tiles@, Terrain::EmptyOnly, wk) && wk[0] == sidx as int && wk.last()
                        == gidx as int;
                assert(passable(Terrain::EmptyOnly, kind_at(tiles@, wk[0])));
                assert(passable(Terrain::EmptyOnly, kind_at(tiles@, wk[wk.len() - 1])));
            }
        }
        return Vec::new();
    }
    let (g, parent) = search(gs, tiles, sidx, gidx, goal);
    if parent[gidx].is_none() && sidx != gidx {
        proof {
            reveal(inv_labels);
        }
        return Vec::new();
    }
    proof {
        reveal(inv_labels);
    }
    let rev = trace_back(gs, Ghost(tiles@), &g, &parent, sidx, gidx);
    let out = to_positions(gs, tiles, &rev, start, goal);
    proof {
        assert forall|q: Seq<Position>|
            #[trigger] is_pos_walk(gs, tiles@, Terrain::EmptyOnly, q) && q[0] == start && q.last() == goal implies out@.len()
                <= q.len() by {
            crate::grid::lemma_pos_walk_is_walk(gs, tiles@, Terrain::EmptyOnly, q);
            let wq = crate::grid::indices_of(gs, q);
            assert(is_walk(gs, tiles@, Terrain::EmptyOnly, wq) && wq[0] == sidx as int && wq.last() == gidx as int);
        }
    }
    out
}

/// Turns cells given goal first into positions given start first.
fn to_positions(gs: GridSize, tiles: &Vec<Tile>, rev: &Vec<usize>, start: Position, goal: Position) -> (out: Vec<
    Position,
>)
    requires
        gs.wf(),
        gs.in_bounds(start),
        gs.in_bounds(goal),
        rev@.len() >= 1,
        rev@[0] as int == gs.index_of(goal),
        rev@.last() as int == gs.index_of(start),
        forall|kk: int| 0 <= kk < rev@.len() ==> #[trigger] rev@[kk] < gs.cells() && passable(
            Terrain::EmptyOnly,
            kind_at(tiles@, rev@[kk] as int),
        ),
        forall|kk: int| 0 <= kk < rev@.len() - 1 ==> gs.step(#[trigger] rev@[kk + 1] as int, rev@[kk] as int),
    ensures
        out@.len() == rev@.len(),
        is_pos_walk(gs, tiles@, Terrain::EmptyOnly, out@),
        out@[0] == start,
        out@.last() == goal,
{
    let w = gs.width;
    proof {
        lemma_cell_coords(gs, rev@[0] as int);
    }
    let mut out: Vec<Position> = Vec::new();
    let len = rev.len();
    let mut kk: usize = len;
    while kk > 0
        invariant
            kk <= len,
            len == rev@.len(),
            w == gs.width,
            w > 0,
            gs.wf(),
            forall|jj: int| 0 <= jj < rev@.len() ==> #[trigger] rev@[jj] < gs.cells(),
            out@.len() == len - kk,
            forall|jj: int| 0 <= jj < out@.len() ==> #[trigger] out@[jj] == gs.pos_of(rev@[len - 1 - jj] as int),
        decreases kk,
    {
        kk -= 1;
        let i = rev[kk] as u32;
        out.push(Position { x: i % w, y: i / w });
    }
    proof {
        let L = len as int;
        assert forall|jj: int| 0 <= jj < out@.len() implies gs.in_bounds(#[trigger] out@[jj]) && gs.index_of(out@[jj])
            == rev@[L - 1 - jj] as int by {
            lemma_pos_index(gs, rev@[L - 1 - jj] as int);
        }
        assert forall|jj: int| 0 <= jj < out@.len() implies passable(
            Terrain::EmptyOnly,
            #[trigger] kind_at(tiles@, gs.index_of(out@[jj])),
        ) by {
            lemma_pos_index(gs, rev@[L - 1 - jj] as int);
        }
        assert forall|jj: int| 0 <= jj < out@.len() - 1 implies crate::grid::adjacent(#[trigger] out@[jj], out@[jj + 1]) by {
            let a = rev@[L - 1 - jj] as int;
            let c = rev@[L - 2 - jj] as int;
            assert(gs.step(rev@[(L - 2 - jj) + 1] as int, rev@[L - 2 - jj] as int));
            lemma_pos_index(gs, a);
            lemma_pos_index(gs, c);
            lemma_adjacent_step(gs, out@[jj], out@[jj + 1]);
        }
        lemma_index_pos(gs, start);
        lemma_index_pos(gs, goal);
        assert(out@[0] == gs.pos_of(rev@[L - 1] as int));
        assert(out@[out@.len() - 1] == gs.pos_of(rev@[0] as int));
    }
    out
}

/// The special tiles that anchor the loop.
#[derive(Clone, Copy, Debug, PartialEq, Eq, Structural)]
pub enum Marker {
    StartTile,
    Entrance,
    Exit,
}

pub open spec fn marked(m: Marker, k: TileKind) -> bool {
    match m {
        Marker::StartTile => k is Start,
        Marker::Entrance => k matches TileKind::Direction { role: DirRole::Entrance, .. },
        Marker::Exit => k matches TileKind::Direction { role: DirRole::Exit, .. },
    }
}

/// The last cell among the first `k` (row-major) that carries marker `m`.
pub open spec fn last_marked(tiles: Seq<Tile>, m: Marker, k: int) -> Option<int>
    decreases k,
{
    if k <= 0 {
        None
    } else if marked(m, tiles[k - 1].kind) {
        Some(k - 1)
    } else {
        last_marked(tiles, m, k - 1)
    }
}

pub(crate) proof fn lemma_last_marked(tiles: Seq<Tile>, m: Marker, k: int)
    ensures
        last_marked(tiles, m, k) matches Some(i) ==> 0 <= i < k && marked(m, tiles[i].kind),
    decreases k,
{
    if k > 0 {
        lemma_last_marked(tiles, m, k - 1);
    }
}

/// The arrow direction of a direction tile.
pub open spec fn dir_of(k: TileKind) -> ArrowDir {
    match k {
        TileKind::Direction { dir, .. } => dir,
        _ => ArrowDir::Up,
    }
}

/// Entrance and exit: the last of each in row-major order, with their
/// positions and arrows; `None` unless both exist.
pub open spec fn spec_entrance_exit(gs: GridSize, tiles: Seq<Tile>) -> Option<((Position, ArrowDir), (Position, ArrowDir))> {
    match (last_marked(tiles, Marker::Entrance, gs.cells()), last_marked(tiles, Marker::Exit, gs.cells())) {
        (Some(a), Some(b)) => Some(
            ((gs.pos_of(a), dir_of(tiles[a].kind)), (gs.pos_of(b), dir_of(tiles[b].kind))),
        ),
        _ => None,
    }
}

/// Finds the entrance and exit tiles.
fn find_entrance_exit(gs: GridSize, tiles: &Vec<Tile>) -> (r: Option<((Position, ArrowDir), (Position, ArrowDir))>)
    requires
        gs.wf(),
        tiles@.len() == gs.cells(),
    ensures
        r == spec_entrance_exit(gs, tiles@),
{
    let n = (gs.width * gs.height) as usize;
    let w = gs.width;
    let mut ent: Option<(Position, ArrowDir)> = None;
    let mut exit: Option<(Position, ArrowDir)> = None;
    let mut i: usize = 0;
    while i < n
        invariant
            i <= n,
            n == gs.cells(),
            w == gs.width,
            gs.wf(),
            tiles@.len() == n,
            ent == match last_marked(tiles@, Marker::Entrance, i as int) {
                Some(a) => Some((gs.pos_of(a), dir_of(tiles@[a].kind))),
                None => None,
            },
            exit == match last_marked(tiles@, Marker::Exit, i as int) {
                Some(a) => Some((gs.pos_of(a), dir_of(tiles@[a].kind))),
                None => None,
            },
        decreases n - i,
    {
        proof {
            lemma_cell_coords(gs, i as int);
        }
        let p = Position { x: (i as u32) % w, y: (i as u32) / w };
        match tiles[i].kind {
            TileKind::Direction { dir, role } => {
                match role {
                    DirRole::Entrance => {
                        ent = Some((p, dir));
                    },
                    DirRole::Exit => {
                        exit = Some((p, dir));
                    },
                }
            },
            _ => {},
        }
        i += 1;
    }
    match (ent, exit) {
        (Some(a), Some(b)) => Some((a, b)),
        _ => None,
    }
}

/// The empty on-grid neighbours of `c`, in the order right, left, down, up.
pub open spec fn empty_nbrs(gs: GridSize, tiles: Seq<Tile>, c: Position) -> Seq<Position> {
    let r: Seq<Position> = if c.x + 1 < gs.width && kind_at(tiles, gs.index_of(Position { x: (c.x + 1) as u32, y: c.y })) is Empty {
        seq![Position { x: (c.x + 1) as u32, y: c.y }]
    } else {
        seq![]
    };
    let l: Seq<Position> = if c.x > 0 && c.y < gs.height && kind_at(tiles, gs.index_of(Position { x: (c.x - 1) as u32, y: c.y })) is Empty {
        seq![Position { x: (c.x - 1) as u32, y: c.y }]
    } else {
        seq![]
    };
    let d: Seq<Position> = if c.y + 1 < gs.height && kind_at(tiles, gs.index_of(Position { x: c.x, y: (c.y + 1) as u32 })) is Empty {
        seq![Position { x: c.x, y: (c.y + 1) as u32 }]
    } else {
        seq![]
    };
    let u: Seq<Position> = if c.y > 0 && c.x < gs.width && kind_at(tiles, gs.index_of(Position { x: c.x, y: (c.y - 1) as u32 })) is Empty {
        seq![Position { x: c.x, y: (c.y - 1) as u32 }]
    } else {
        seq![]
    };
    r + l + d + u
}

/// The on-grid empty neighbours of `c`, in the order right, left, down, up.
fn collect_empty_nbrs(gs: GridSize, tiles: &Vec<Tile>, c: Position) -> (r: Vec<Position>)
    requires
        gs.wf(),
        tiles@.len() == gs.cells(),
        gs.in_bounds(c),
    ensures
        r@ == empty_nbrs(gs, tiles@, c),
        forall|k: int| 0 <= k < r@.len() ==> gs.in_bounds(#[trigger] r@[k]),
{
    let mut r: Vec<Position> = Vec::new();
    let w = gs.width;
    if c.x + 1 < w {
        let p = Position { x: c.x + 1, y: c.y };
        proof {
            crate::grid::lemma_index_pos(gs, p);
        }
        if matches!(tiles[(p.y * w + p.x) as usize].kind, TileKind::Empty) {
            r.push(p);
        }
    }
    let ghost r1 = r@;
    if c.x > 0 {
        let p = Position { x: c.x - 1, y: c.y };
        proof {
            crate::grid::lemma_index_pos(gs, p);
        }
        if matches!(tiles[(p.y * w + p.x) as usize].kind, TileKind::Empty) {
            r.push(p);
        }
    }
    let ghost r2 = r@;
    if c.y + 1 < gs.height {
        let p = Position { x: c.x, y: c.y + 1 };
        proof {
            crate::grid::lemma_index_pos(gs, p);
        }
        if matches!(tiles[(p.y * w + p.x) as usize].kind, TileKind::Empty) {
            r.push(p);
        }
    }
    let ghost r3 = r@;
    if c.y > 0 {
        let p = Position { x: c.x, y: c.y - 1 };
        proof {
            crate::grid::lemma_index_pos(gs, p);
        }
        if matches!(tiles[(p.y * w + p.x) as usize].kind, TileKind::Empty) {
            r.push(p);
        }
    }
    assert(r@ =~= empty_nbrs(gs, tiles@, c));
    r
}

/// `t2` is `t` with some rocks and walls opened up into empty tiles.
pub open spec fn opened_up(t: Seq<Tile>, t2: Seq<Tile>) -> bool {
    &&& t2.len() == t.len()
    &&& forall|i: int|
        0 <= i < t.len() ==> #[trigger] t2[i] == t[i] || ((t[i].kind is Rock || t[i].kind is Wall)
            && t2[i].kind is Empty)
}

/// Opening rocks and walls moves no entrance, exit or start marker.
proof fn lemma_last_marked_opened(t: Seq<Tile>, t2: Seq<Tile>, m: Marker, k: int)
    requires
        opened_up(t, t2),
        0 <= k <= t.len(),
    ensures
        last_marked(t2, m, k) == last_marked(t, m, k),
    decreases k,
{
    if k > 0 {
        lemma_last_marked_opened(t, t2, m, k - 1);
        assert(t2[k - 1] == t[k - 1] || (t2[k - 1].kind is Empty && (t[k - 1].kind is Rock || t[k - 1].kind is Wall)));
    }
}

/// An on-grid neighbour candidate that is empty stays empty once rocks and
/// walls open up.
proof fn lemma_cand_opened(gs: GridSize, t: Seq<Tile>, t2: Seq<Tile>, q: Position)
    requires
        opened_up(t, t2),
        t.len() == gs.cells(),
        gs.in_bounds(q),
        kind_at(t, gs.index_of(q)) is Empty,
    ensures
        kind_at(t2, gs.index_of(q)) is Empty,
{
    crate::grid::lemma_index_pos(gs, q);
    assert(t2[gs.index_of(q)] == t[gs.index_of(q)] || t2[gs.index_of(q)].kind is Empty);
}

/// The empty neighbours of an on-grid cell stay its empty neighbours once
/// rocks and walls open up.
proof fn lemma_nbrs_opened(gs: GridSize, t: Seq<Tile>, t2: Seq<Tile>, c: Position, p: Position)
    requires
        opened_up(t, t2),
        t.len() == gs.cells(),
        gs.in_bounds(c),
        empty_nbrs(gs, t, c).contains(p),
    ensures
        empty_nbrs(gs, t2, c).contains(p),
{
    broadcast use vstd::seq_lib::lemma_seq_concat_contains_all_elements;

    let rp = Position { x: (c.x + 1) as u32, y: c.y };
    let lp = Position { x: (c.x - 1) as u32, y: c.y };
    let dp = Position { x: c.x, y: (c.y + 1) as u32 };
    let up = Position { x: c.x, y: (c.y - 1) as u32 };
    if c.x + 1 < gs.width && kind_at(t, gs.index_of(rp)) is Empty {
        lemma_cand_opened(gs, t, t2, rp);
    }
    if c.x > 0 && kind_at(t, gs.index_of(lp)) is Empty {
        lemma_cand_opened(gs, t, t2, lp);
    }
    if c.y + 1 < gs.height && kind_at(t, gs.index_of(dp)) is Empty {
        lemma_cand_opened(gs, t, t2, dp);
    }
    if c.y > 0 && kind_at(t, gs.index_of(up)) is Empty {
        lemma_cand_opened(gs, t, t2, up);
    }
    let r1: Seq<Position> = if c.x + 1 < gs.width && kind_at(t, gs.index_of(rp)) is Empty { seq![rp] } else { seq![] };
    let l1: Seq<Position> = if c.x > 0 && c.y < gs.height && kind_at(t, gs.index_of(lp)) is Empty { seq![lp] } else { seq![] };
    let d1: Seq<Position> = if c.y + 1 < gs.height && kind_at(t, gs.index_of(dp)) is Empty { seq![dp] } else { seq![] };
    let u1: Seq<Position> = if c.y > 0 && c.x < gs.width && kind_at(t, gs.index_of(up)) is Empty { seq![up] } else { seq![] };
    let r2: Seq<Position> = if c.x + 1 < gs.width && kind_at(t2, gs.index_of(rp)) is Empty { seq![rp] } else { seq![] };
    let l2: Seq<Position> = if c.x > 0 && c.y < gs.height && kind_at(t2, gs.index_of(lp)) is Empty { seq![lp] } else { seq![] };
    let d2: Seq<Position> = if c.y + 1 < gs.height && kind_at(t2, gs.index_of(dp)) is Empty { seq![dp] } else { seq![] };
    let u2: Seq<Position> = if c.y > 0 && c.x < gs.width && kind_at(t2, gs.index_of(up)) is Empty { seq![up] } else { seq![] };
    assert(empty_nbrs(gs, t, c) == r1 + l1 + d1 + u1);
    assert(empty_nbrs(gs, t2, c) == r2 + l2 + d2 + u2);
    assert(r1.contains(p) ==> r2.contains(p)) by {
        if r1.contains(p) {
            assert(r2[0] == p);
        }
    }
    assert(l1.contains(p) ==> l2.contains(p)) by {
        if l1.contains(p) {
            assert(l2[0] == p);
        }
    }
    assert(d1.contains(p) ==> d2.contains(p)) by {
        if d1.contains(p) {
            assert(d2[0] == p);
        }
    }
    assert(u1.contains(p) ==> u2.contains(p)) by {
        if u1.contains(p) {
            assert(u2[0] == p);
        }
    }
}

/// A walk over empty tiles stays one once rocks and walls open up.
proof fn lemma_reaches_opened(gs: GridSize, t: Seq<Tile>, t2: Seq<Tile>, a: int, b: int)
    requires
        opened_up(t, t2),
        t.len() == gs.cells(),
        reaches(gs, t, Terrain::EmptyOnly, a, b),
    ensures
        reaches(gs, t2, Terrain::EmptyOnly, a, b),
{
    let w = choose|w: Seq<int>| #[trigger] is_walk(gs, t, Terrain::EmptyOnly, w) && w[0] == a && w.last() == b;
    assert forall|k: int| 0 <= k < w.len() implies passable(Terrain::EmptyOnly, #[trigger] kind_at(t2, w[k])) by {
        assert(passable(Terrain::EmptyOnly, kind_at(t, w[k])));
        assert(t2[w[k]] == t[w[k]] || t2[w[k]].kind is Empty);
    }
    assert(is_walk(gs, t2, Terrain::EmptyOnly, w));
}

/// Opening rocks and walls never takes a route away.
pub proof fn lemma_route_kept_opened(gs: GridSize, t: Seq<Tile>, t2: Seq<Tile>)
    requires
        opened_up(t, t2),
        t.len() == gs.cells(),
        route_exists(gs, t),
    ensures
        route_exists(gs, t2),
{
    lemma_last_marked_opened(t, t2, Marker::Entrance, gs.cells());
    lemma_last_marked_opened(t, t2, Marker::Exit, gs.cells());
    let ea = last_marked(t, Marker::Entrance, gs.cells())->0;
    let xa = last_marked(t, Marker::Exit, gs.cells())->0;
    lemma_last_marked(t, Marker::Entrance, gs.cells());
    lemma_last_marked(t, Marker::Exit, gs.cells());
    assert(t2[ea] == t[ea]);
    assert(t2[xa] == t[xa]);
    assert(spec_entrance_exit(gs, t2) == spec_entrance_exit(gs, t));
    let (e, x) = spec_entrance_exit(gs, t)->0;
    crate::grid::lemma_pos_index(gs, ea);
    crate::grid::lemma_pos_index(gs, xa);
    let (a, b) = choose|a: int, b: int|
        0 <= a < empty_nbrs(gs, t, e.0).len() && 0 <= b < empty_nbrs(gs, t, x.0).len()
            && #[trigger] empty_nbrs(gs, t, e.0)[a] != #[trigger] empty_nbrs(gs, t, x.0)[b]
            && reaches(
            gs,
            t,
            Terrain::EmptyOnly,
            gs.index_of(empty_nbrs(gs, t, e.0)[a]),
            gs.index_of(empty_nbrs(gs, t, x.0)[b]),
        );
    let sp = empty_nbrs(gs, t, e.0)[a];
    let gp = empty_nbrs(gs, t, x.0)[b];
    assert(empty_nbrs(gs, t, e.0).contains(sp));
    assert(empty_nbrs(gs, t, x.0).contains(gp));
    lemma_nbrs_opened(gs, t, t2, e.0, sp);
    lemma_nbrs_opened(gs, t, t2, x.0, gp);
    let a2 = choose|a2: int| 0 <= a2 < empty_nbrs(gs, t2, e.0).len() && empty_nbrs(gs, t2, e.0)[a2] == sp;
    let b2 = choose|b2: int| 0 <= b2 < empty_nbrs(gs, t2, x.0).len() && empty_nbrs(gs, t2, x.0)[b2] == gp;
    lemma_reaches_opened(gs, t, t2, gs.index_of(sp), gs.index_of(gp));
    assert(empty_nbrs(gs, t2, e.0)[a2] != empty_nbrs(gs, t2, x.0)[b2]);
}

/// There are empty neighbours `s` of the entrance and `g` of the exit,
/// `s != g`, with a walk over empty tiles from `s` to `g`.
pub open spec fn route_exists(gs: GridSize, tiles: Seq<Tile>) -> bool {
    match spec_entrance_exit(gs, tiles) {
        None => false,
        Some((e, x)) => exists|a: int, b: int|
            0 <= a < empty_nbrs(gs, tiles, e.0).len() && 0 <= b < empty_nbrs(gs, tiles, x.0).len()
                && #[trigger] empty_nbrs(gs, tiles, e.0)[a] != #[trigger] empty_nbrs(gs, tiles, x.0)[b]
                && reaches(
                gs,
                tiles,
                Terrain::EmptyOnly,
                gs.index_of(empty_nbrs(gs, tiles, e.0)[a]),
                gs.index_of(empty_nbrs(gs, tiles, x.0)[b]),
            ),
    }
}

/// `p` is a corridor for the grid: empty exactly when no route exists;
/// otherwise a walk of at least two empty tiles from an empty neighbour of
/// the entrance to an empty neighbour of the exit.
pub open spec fn is_route(gs: GridSize, tiles: Seq<Tile>, p: Seq<Position>) -> bool {
    &&& p.len() == 0 <==> !route_exists(gs, tiles)
    &&& p.len() > 0 ==> {
        &&& p.len() >= 2
        &&& is_pos_walk(gs, tiles, Terrain::EmptyOnly, p)
        &&& spec_entrance_exit(gs, tiles) matches Some((e, x)) && empty_nbrs(gs, tiles, e.0).contains(p[0])
            && empty_nbrs(gs, tiles, x.0).contains(p.last())
    }
}

/// No walk over empty tiles from an empty neighbour of the entrance to a
/// different empty neighbour of the exit is shorter than `p`.
pub open spec fn no_shorter_route(gs: GridSize, tiles: Seq<Tile>, p: Seq<Position>) -> bool {
    spec_entrance_exit(gs, tiles) matches Some((e, x)) ==> forall|q: Seq<Position>|
        #[trigger] is_pos_walk(gs, tiles, Terrain::EmptyOnly, q) && empty_nbrs(gs, tiles, e.0).contains(q[0])
            && empty_nbrs(gs, tiles, x.0).contains(q.last()) && q[0] != q.last() ==> p.len() <= q.len()
}

/// Every walk over empty tiles between two different cells of a pair that
/// comes before `(a, c)` (by the index in `s`, then in `g`) is longer than `n`.
pub open spec fn earlier_longer(gs: GridSize, tiles: Seq<Tile>, s: Seq<Position>, g: Seq<Position>, a: int, c: int, n: int) -> bool {
    forall|a2: int, c2: int, q: Seq<Position>|
        #![trigger is_pos_walk(gs, tiles, Terrain::EmptyOnly, q), s[a2], g[c2]]
        ((0 <= a2 < a && 0 <= c2 < g.len()) || (a2 == a && 0 <= c2 < c)) && s[a2] != g[c2] && is_pos_walk(
            gs,
            tiles,
            Terrain::EmptyOnly,
            q,
        ) && q[0] == s[a2] && q.last() == g[c2] ==> n < q.len()
}

/// `p` runs between the first pair, an empty neighbour of the entrance and
/// then one of the exit (each in the order right, left, down, up), whose
/// routes are as short as `p`: every route of an earlier pair is longer.
pub open spec fn first_shortest_pair(gs: GridSize, tiles: Seq<Tile>, p: Seq<Position>) -> bool {
    spec_entrance_exit(gs, tiles) matches Some((e, x)) ==> {
        let s = empty_nbrs(gs, tiles, e.0);
        let g = empty_nbrs(gs, tiles, x.0);
        exists|a: int, c: int|
            #![trigger s[a], g[c]]
            0 <= a < s.len() && 0 <= c < g.len() && s[a] == p[0] && g[c] == p.last() && earlier_longer(
                gs,
                tiles,
                s,
                g,
                a,
                c,
                p.len() as int,
            )
    }
}

/// A walk over positions shows that its ends reach each other.
proof fn lemma_pos_walk_reaches(gs: GridSize, tiles: Seq<Tile>, q: Seq<Position>)
    requires
        is_pos_walk(gs, tiles, Terrain::EmptyOnly, q),
    ensures
        reaches(gs, tiles, Terrain::EmptyOnly, gs.index_of(q[0]), gs.index_of(q.last())),
{
    crate::grid::lemma_pos_walk_is_walk(gs, tiles, Terrain::EmptyOnly, q);
    let wk = crate::grid::indices_of(gs, q);
    assert(is_walk(gs, tiles, Terrain::EmptyOnly, wk) && wk[0] == gs.index_of(q[0]) && wk.last() == gs.index_of(q.last()));
}

/// The corridor enemies take from the entrance to the exit: among the A*
/// routes from each empty neighbour of the entrance to each empty neighbour
/// of the exit (neighbours in the order right, left, down, up), the first of
/// least length that has more than one tile. Empty when there is no
/// entrance, no exit, or no such route.
pub fn compute_path(gs: GridSize, tiles: &Vec<Tile>) -> (r: Vec<Position>)
    requires
        gs.wf(),
        tiles@.len() == gs.cells(),
    ensures
        is_route(gs, tiles@, r@),
        no_shorter_route(gs, tiles@, r@),
        r@.len() > 0 ==> first_shortest_pair(gs, tiles@, r@),
{
    let ee = find_entrance_exit(gs, tiles);
    let ((ent, _ed), (ext, _xd)) = match ee {
        Some(v) => v,
        None => {
            return Vec::new();
        },
    };
    proof {
        lemma_last_marked(tiles@, Marker::Entrance, gs.cells());
        lemma_last_marked(tiles@, Marker::Exit, gs.cells());
        let a = last_marked(tiles@, Marker::Entrance, gs.cells())->0;
        let b = last_marked(tiles@, Marker::Exit, gs.cells())->0;
        lemma_pos_index(gs, a);
        lemma_pos_index(gs, b);
    }
    let starts = collect_empty_nbrs(gs, tiles, ent);
    let goals = collect_empty_nbrs(gs, tiles, ext);
    if starts.len() == 0 || goals.len() == 0 {
        return Vec::new();
    }
    let mut best: Option<Vec<Position>> = None;
    let ghost mut ba: int = 0;
    let ghost mut bc: int = 0;
    let mut si: usize = 0;
    while si < starts.len()
        invariant
            gs.wf(),
            tiles@.len() == gs.cells(),
            starts@ == empty_nbrs(gs, tiles@, ent),
            goals@ == empty_nbrs(gs, tiles@, ext),
            spec_entrance_exit(gs, tiles@) matches Some((e, x)) && e.0 == ent && x.0 == ext,
            forall|k: int| 0 <= k < starts@.len() ==> gs.in_bounds(#[trigger] starts@[k]),
            forall|k: int| 0 <= k < goals@.len() ==> gs.in_bounds(#[trigger] goals@[k]),
            si <= starts@.len(),
            best matches Some(b) ==> {
                &&& 0 <= ba < si
                &&& 0 <= bc < goals@.len()
                &&& starts@[ba] == b@[0]
                &&& goals@[bc] == b@.last()
                &&& earlier_longer(gs, tiles@, starts@, goals@, ba, bc, b@.len() as int)
            },
            best matches Some(b) ==> {
                &&& b@.len() >= 2
                &&& is_pos_walk(gs, tiles@, Terrain::EmptyOnly, b@)
                &&& starts@.contains(b@[0])
                &&& goals@.contains(b@.last())
                &&& b@[0] != b@.last()
            },
            best matches Some(b) ==> forall|a: int, c: int, q: Seq<Position>|
                #![trigger is_pos_walk(gs, tiles@, Terrain::EmptyOnly, q), starts@[a], goals@[c]]
                0 <= a < si && 0 <= c < goals@.len() && starts@[a] != goals@[c] && is_pos_walk(
                    gs,
                    tiles@,
                    Terrain::EmptyOnly,
                    q,
                ) && q[0] == starts@[a] && q.last() == goals@[c] ==> b@.len() <= q.len(),
            best is None ==> forall|a: int, c: int|
                0 <= a < si && 0 <= c < goals@.len() && #[trigger] starts@[a] != #[trigger] goals@[c] ==> !reaches(
                    gs,
                    tiles@,
                    Terrain::EmptyOnly,
                    gs.index_of(starts@[a]),
                    gs.index_of(goals@[c]),
                ),
        decreases starts@.len() - si,
    {
        let mut gi: usize = 0;
        while gi < goals.len()
            invariant
                gs.wf(),
                tiles@.len() == gs.cells(),
                forall|k: int| 0 <= k < starts@.len() ==> gs.in_bounds(#[trigger] starts@[k]),
                forall|k: int| 0 <= k < goals@.len() ==> gs.in_bounds(#[trigger] goals@[k]),
                si < starts@.len(),
                gi <= goals@.len(),
                best matches Some(b) ==> {
                    &&& (0 <= ba < si || (ba == si && 0 <= bc < gi))
                    &&& 0 <= bc < goals@.len()
                    &&& starts@[ba] == b@[0]
                    &&& goals@[bc] == b@.last()
                    &&& earlier_longer(gs, tiles@, starts@, goals@, ba, bc, b@.len() as int)
                },
                best matches Some(b) ==> {
                    &&& b@.len() >= 2
                    &&& is_pos_walk(gs, tiles@, Terrain::EmptyOnly, b@)
                    &&& starts@.contains(b@[0])
                    &&& goals@.contains(b@.last())
                    &&& b@[0] != b@.last()
                },
                best matches Some(b) ==> forall|a: int, c: int, q: Seq<Position>|
                    #![trigger is_pos_walk(gs, tiles@, Terrain::EmptyOnly, q), starts@[a], goals@[c]]
                    ((0 <= a < si && 0 <= c < goals@.len()) || (a == si && 0 <= c < gi)) && starts@[a] != goals@[c]
                        && is_pos_walk(gs, tiles@, Terrain::EmptyOnly, q) && q[0] == starts@[a] && q.last() == goals@[c]
                        ==> b@.len() <= q.len(),
                best is None ==> forall|a: int, c: int|
                    ((0 <= a < si && 0 <= c < goals@.len()) || (a == si && 0 <= c < gi)) && #[trigger] starts@[a]
                        != #[trigger] goals@[c] ==> !reaches(
                        gs,
                        tiles@,
                        Terrain::EmptyOnly,
                        gs.index_of(starts@[a]),
                        gs.index_of(goals@[c]),
                    ),
            decreases goals@.len() - gi,
        {
            let s = starts[si];
            let g = goals[gi];
            let p = a_star(gs, tiles, s, g);
            if p.len() > 1 {
                let better = match &best {
                    Some(b) => p.len() < b.len(),
                    None => true,
                };
                if better {
                    proof {
                        assert(starts@[si as int] == s);
                        assert(goals@[gi as int] == g);
                        assert forall|a2: int, c2: int, q: Seq<Position>|
                            #![trigger is_pos_walk(gs, tiles@, Terrain::EmptyOnly, q), starts@[a2], goals@[c2]]
                            ((0 <= a2 < si && 0 <= c2 < goals@.len()) || (a2 == si && 0 <= c2 < gi)) && starts@[a2]
                                != goals@[c2] && is_pos_walk(gs, tiles@, Terrain::EmptyOnly, q) && q[0] == starts@[a2]
                                && q.last() == goals@[c2] implies p@.len() < q.len() by {
                            if best is None {
                                lemma_pos_walk_reaches(gs, tiles@, q);
                            }
                        }
                        ba = si as int;
                        bc = gi as int;
                        if best is None {
                            assert forall|a: int, c: int, q: Seq<Position>|
                                #![trigger is_pos_walk(gs, tiles@, Terrain::EmptyOnly, q), starts@[a], goals@[c]]
                                ((0 <= a < si && 0 <= c < goals@.len()) || (a == si && 0 <= c < gi)) && starts@[a]
                                    != goals@[c] && is_pos_walk(gs, tiles@, Terrain::EmptyOnly, q) && q[0] == starts@[a]
                                    && q.last() == goals@[c] implies p@.len() <= q.len() by {
                                lemma_pos_walk_reaches(gs, tiles@, q);
                            }
                        }
                    }
                    best = Some(p);
                }
            } else {
                proof {
                    if s != g {
                        assert(!reaches(gs, tiles@, Terrain::EmptyOnly, gs.index_of(s), gs.index_of(g)));
                        assert forall|q: Seq<Position>|
                            #[trigger] is_pos_walk(gs, tiles@, Terrain::EmptyOnly, q) && q[0] == s && q.last() == g implies false by {
                            lemma_pos_walk_reaches(gs, tiles@, q);
                        }
                    }
                }
            }
            gi += 1;
        }
        si += 1;
    }
    match best {
        Some(b) => {
            proof {
                crate::grid::lemma_pos_walk_is_walk(gs, tiles@, Terrain::EmptyOnly, b@);
                let wk = crate::grid::indices_of(gs, b@);
                assert(is_walk(gs, tiles@, Terrain::EmptyOnly, wk) && wk[0] == gs.index_of(b@[0]) && wk.last()
                    == gs.index_of(b@.last()));
                let a = choose|a: int| 0 <= a < starts@.len() && starts@[a] == b@[0];
                let c = choose|c: int| 0 <= c < goals@.len() && goals@[c] == b@.last();
                assert(starts@[a] != goals@[c]);
                assert(reaches(gs, tiles@, Terrain::EmptyOnly, gs.index_of(starts@[a]), gs.index_of(goals@[c])));
                assert forall|q: Seq<Position>|
                    #[trigger] is_pos_walk(gs, tiles@, Terrain::EmptyOnly, q) && starts@.contains(q[0]) && goals@.contains(
                        q.last(),
                    ) && q[0] != q.last() implies b@.len() <= q.len() by {
                    let a2 = choose|a2: int| 0 <= a2 < starts@.len() && starts@[a2] == q[0];
                    let c2 = choose|c2: int| 0 <= c2 < goals@.len() && goals@[c2] == q.last();
                    assert(starts@[a2] != goals@[c2]);
                }
                assert(starts@[ba] == b@[0] && goals@[bc] == b@.last());
            }
            b
        },
        None => Vec::new(),
    }
}

/// `s` with every run of equal neighbouring elements shortened to one.
pub open spec fn dedup_adjacent(s: Seq<Position>) -> Seq<Position>
    decreases s.len(),
{
    if s.len() == 0 {
        s
    } else {
        let d = dedup_adjacent(s.drop_last());
        if d.len() > 0 && d.last() == s.last() {
            d
        } else {
            d.push(s.last())
        }
    }
}

/// The elements of `path` other than `a`, `b` and `c`, in order.
pub open spec fn without3(path: Seq<Position>, a: Position, b: Position, c: Position) -> Seq<Position>
    decreases path.len(),
{
    if path.len() == 0 {
        path
    } else {
        let rest = without3(path.drop_last(), a, b, c);
        let q = path.last();
        if q != a && q != b && q != c {
            rest.push(q)
        } else {
            rest
        }
    }
}

/// Start, entrance, the corridor without those and the exit, then the exit.
pub open spec fn loop_nodes(st: Position, en: Position, ex: Position, path: Seq<Position>) -> Seq<Position> {
    let head: Seq<Position> = if en != st { seq![st, en] } else { seq![st] };
    let core = head + without3(path, st, en, ex);
    if core.last() != ex {
        core.push(ex)
    } else {
        core
    }
}

/// The loop enemies follow: start tile, entrance, the corridor, exit, and
/// back to the start; empty unless all three tiles exist.
pub open spec fn spec_loop_path(gs: GridSize, tiles: Seq<Tile>, path: Seq<Position>) -> Seq<Position> {
    match (
        last_marked(tiles, Marker::StartTile, gs.cells()),
        last_marked(tiles, Marker::Entrance, gs.cells()),
        last_marked(tiles, Marker::Exit, gs.cells()),
    ) {
        (Some(s), Some(e), Some(x)) => dedup_adjacent(loop_nodes(gs.pos_of(s), gs.pos_of(e), gs.pos_of(x), path)),
        _ => Seq::empty(),
    }
}

/// The first element survives shortening runs, and no two neighbours are equal afterwards.
pub proof fn lemma_dedup_adjacent(s: Seq<Position>)
    ensures
        s.len() > 0 ==> dedup_adjacent(s).len() > 0 && dedup_adjacent(s)[0] == s[0],
        s.len() > 0 ==> dedup_adjacent(s).last() == s.last(),
        dedup_adjacent(s).len() <= s.len(),
        forall|k: int| 0 <= k < dedup_adjacent(s).len() - 1 ==> #[trigger] dedup_adjacent(s)[k] != dedup_adjacent(s)[k + 1],
    decreases s.len(),
{
    if s.len() > 0 {
        lemma_dedup_adjacent(s.drop_last());
        let d = dedup_adjacent(s.drop_last());
        if s.len() > 1 {
            assert(s.drop_last()[0] == s[0]);
        }
        if !(d.len() > 0 && d.last() == s.last()) {
            let e = d.push(s.last());
            assert forall|k: int| 0 <= k < e.len() - 1 implies #[trigger] e[k] != e[k + 1] by {
                if k < d.len() - 1 {
                    assert(e[k] == d[k] && e[k + 1] == d[k + 1]);
                }
            }
        }
    }
}

/// Builds the loop enemies follow from the start tile, entrance, exit and
/// the current corridor.
pub fn build_loop_path(gs: GridSize, tiles: &Vec<Tile>, path: &Vec<Position>) -> (r: Vec<Position>)
    requires
        gs.wf(),
        tiles@.len() == gs.cells(),
    ensures
        r@ == spec_loop_path(gs, tiles@, path@),
{
    let n = (gs.width * gs.height) as usize;
    let w = gs.width;
    let mut start: Option<Position> = None;
    let mut ent: Option<Position> = None;
    let mut exit: Option<Position> = None;
    let mut i: usize = 0;
    while i < n
        invariant
            i <= n,
            n == gs.cells(),
            w == gs.width,
            gs.wf(),
            tiles@.len() == n,
            start == match last_marked(tiles@, Marker::StartTile, i as int) {
                Some(a) => Some(gs.pos_of(a)),
                None => None,
            },
            ent == match last_marked(tiles@, Marker::Entrance, i as int) {
                Some(a) => Some(gs.pos_of(a)),
                None => None,
            },
            exit == match last_marked(tiles@, Marker::Exit, i as int) {
                Some(a) => Some(gs.pos_of(a)),
                None => None,
            },
        decreases n - i,
    {
        proof {
            lemma_cell_coords(gs, i as int);
        }
        let p = Position { x: (i as u32) % w, y: (i as u32) / w };
        match tiles[i].kind {
            TileKind::Start => {
                start = Some(p);
            },
            TileKind::Direction { role: DirRole::Entrance, .. } => {
                ent = Some(p);
            },
            TileKind::Direction { role: DirRole::Exit, .. } => {
                exit = Some(p);
            },
            _ => {},
        }
        i += 1;
    }
    let (s, en, ex) = match (start, ent, exit) {
        (Some(a), Some(b), Some(c)) => (a, b, c),
        _ => {
            return Vec::new();
        },
    };
    let mut nodes: Vec<Position> = Vec::new();
    nodes.push(s);
    if s != en {
        nodes.push(en);
    }
    let ghost head = nodes@;
    let mut k: usize = 0;
    while k < path.len()
        invariant
            k <= path@.len(),
            nodes@ == head + without3(path@.subrange(0, k as int), s, en, ex),
        decreases path@.len() - k,
    {
        let p = path[k];
        assert(path@.subrange(0, k + 1).drop_last() =~= path@.subrange(0, k as int));
        if p != s && p != en && p != ex {
            nodes.push(p);
        }
        k += 1;
        assert(nodes@ =~= head + without3(path@.subrange(0, k as int), s, en, ex));
    }
    assert(path@.subrange(0, path@.len() as int) =~= path@);
    if nodes[nodes.len() - 1] != ex {
        nodes.push(ex);
    }
    assert(nodes@ == loop_nodes(s, en, ex, path@));
    let mut clean: Vec<Position> = Vec::new();
    let mut j: usize = 0;
    while j < nodes.len()
        invariant
            j <= nodes@.len(),
            clean@ == dedup_adjacent(nodes@.subrange(0, j as int)),
        decreases nodes@.len() - j,
    {
        let q = nodes[j];
        assert(nodes@.subrange(0, j + 1).drop_last() =~= nodes@.subrange(0, j as int));
        let push = clean.len() == 0 || clean[clean.len() - 1] != q;
        if push {
            clean.push(q);
        }
        j += 1;
    }
    assert(nodes@.subrange(0, nodes@.len() as int) =~= nodes@);
    clean
}

} // verus!
