//! The tiles the player can interact with: the open area connected to the
//! enemies' loop, and the rocks and walls that border it.

use vstd::prelude::*;
use crate::grid::{
    GridSize, Position, Tile, TileKind, Terrain, passable, kind_at, is_walk, reaches, lemma_walk_push,
    lemma_walk_single, lemma_cell_coords, lemma_index_pos,
};
use crate::run::RunState;

verus! {

/// The positions the open area grows from: the loop, or the corridor when
/// there is no loop.
pub open spec fn seed_points(rs: &RunState) -> Seq<Position> {
    if rs.path_loop@.len() > 0 {
        rs.path_loop@
    } else {
        rs.path@
    }
}

/// Point `k` of `pts` is an on-grid open tile.
pub open spec fn pt_seed(gs: GridSize, tiles: Seq<Tile>, pts: Seq<Position>, k: int) -> bool {
    &&& 0 <= k < pts.len()
    &&& gs.in_bounds(pts[k])
    &&& passable(Terrain::Open, kind_at(tiles, gs.index_of(pts[k])))
}

/// `c` is the first start tile in row-major order.
pub open spec fn is_first_start(tiles: Seq<Tile>, c: int) -> bool {
    &&& 0 <= c < tiles.len()
    &&& tiles[c].kind is Start
    &&& forall|j: int| 0 <= j < c ==> !(#[trigger] tiles[j].kind is Start)
}

/// Cell `c` is a seed: an on-grid open point of `pts`, or, when there is
/// none, the first start tile.
#[verifier::opaque]
pub open spec fn mask_seed(gs: GridSize, tiles: Seq<Tile>, pts: Seq<Position>, c: int) -> bool {
    if exists|k: int| #[trigger] pt_seed(gs, tiles, pts, k) {
        exists|k: int| #[trigger] pt_seed(gs, tiles, pts, k) && gs.index_of(pts[k]) == c
    } else {
        is_first_start(tiles, c)
    }
}

/// Cell `i` can be reached from a seed over open tiles.
pub open spec fn mask_reach(gs: GridSize, tiles: Seq<Tile>, pts: Seq<Position>, i: int) -> bool {
    exists|c: int| mask_seed(gs, tiles, pts, c) && #[trigger] reaches(gs, tiles, Terrain::Open, c, i)
}

/// Cell `i` is interactable: reachable, or a rock or wall next to a
/// reachable cell.
pub open spec fn spec_mask_at(gs: GridSize, tiles: Seq<Tile>, pts: Seq<Position>, i: int) -> bool {
    ||| mask_reach(gs, tiles, pts, i)
    ||| ((kind_at(tiles, i) is Rock || kind_at(tiles, i) is Wall) && exists|j: int|
        #[trigger] gs.step(i, j) && mask_reach(gs, tiles, pts, j))
}

/// Every seed is reached.
spec fn seeds_reached(gs: GridSize, tiles: Seq<Tile>, pts: Seq<Position>, reached: Seq<bool>) -> bool {
    forall|c: int| #[trigger] mask_seed(gs, tiles, pts, c) ==> 0 <= c < gs.cells() && reached[c]
}

/// Seeds are cells of the grid.
proof fn lemma_seed_in_range(gs: GridSize, tiles: Seq<Tile>, pts: Seq<Position>, c: int)
    requires
        mask_seed(gs, tiles, pts, c),
        tiles.len() == gs.cells(),
    ensures
        0 <= c < gs.cells(),
{
    reveal(mask_seed);
    if exists|k: int| #[trigger] pt_seed(gs, tiles, pts, k) {
        let k = choose|k: int| #[trigger] pt_seed(gs, tiles, pts, k) && gs.index_of(pts[k]) == c;
        lemma_index_pos(gs, pts[k]);
    }
}

/// Extending a walk from a seed by one open neighbour.
proof fn lemma_reach_step(gs: GridSize, tiles: Seq<Tile>, pts: Seq<Position>, c: int, d: int)
    requires
        mask_reach(gs, tiles, pts, c),
        gs.step(c, d),
        passable(Terrain::Open, kind_at(tiles, d)),
    ensures
        mask_reach(gs, tiles, pts, d),
{
    let s = choose|s: int| mask_seed(gs, tiles, pts, s) && #[trigger] reaches(gs, tiles, Terrain::Open, s, c);
    let w = choose|w: Seq<int>| #[trigger] is_walk(gs, tiles, Terrain::Open, w) && w[0] == s && w.last() == c;
    lemma_walk_push(gs, tiles, Terrain::Open, w, d);
    assert(reaches(gs, tiles, Terrain::Open, s, d));
}

/// The flood-fill bookkeeping: a cell is reached exactly when it was ever
/// queued, visited exactly when it was dequeued; reached cells are open and
/// reachable from a seed; visited cells have all open neighbours reached.
#[verifier::opaque]
spec fn bfs_inv(
    gs: GridSize,
    tiles: Seq<Tile>,
    pts: Seq<Position>,
    reached: Seq<bool>,
    visited: Seq<bool>,
    queue: Seq<usize>,
    head: int,
) -> bool {
    let n = gs.cells();
    &&& reached.len() == n
    &&& visited.len() == n
    &&& 0 <= head <= queue.len()
    &&& queue.no_duplicates()
    &&& forall|k: int| 0 <= k < queue.len() ==> #[trigger] queue[k] < n
    &&& forall|i: int| 0 <= i < n ==> (#[trigger] reached[i] <==> queue.contains(i as usize))
    &&& forall|i: int| 0 <= i < n ==> (#[trigger] visited[i] <==> queue.subrange(0, head).contains(i as usize))
    &&& forall|i: int| 0 <= i < n && #[trigger] reached[i] ==> passable(Terrain::Open, kind_at(tiles, i)) && mask_reach(gs, tiles, pts, i)
    &&& forall|i: int|
        0 <= i < n && #[trigger] visited[i] ==> forall|j: int|
            #![trigger gs.step(i, j)]
            gs.step(i, j) && passable(Terrain::Open, kind_at(tiles, j)) ==> reached[j]
}

/// Queues cell `ni` if it is open and not yet reached.
fn visit(
    gs: GridSize,
    tiles: &Vec<Tile>,
    pts: Ghost<Seq<Position>>,
    ci: usize,
    ni: usize,
    reached: &mut Vec<bool>,
    visited: &Vec<bool>,
    queue: &mut Vec<usize>,
    head: usize,
)
    requires
        gs.wf(),
        tiles@.len() == gs.cells(),
        bfs_inv(gs, tiles@, pts@, old(reached)@, visited@, old(queue)@, head as int),
        gs.step(ci as int, ni as int),
        mask_reach(gs, tiles@, pts@, ci as int),
    ensures
        bfs_inv(gs, tiles@, pts@, final(reached)@, visited@, final(queue)@, head as int),
        passable(Terrain::Open, kind_at(tiles@, ni as int)) ==> final(reached)@[ni as int],
        forall|i: int| 0 <= i < gs.cells() && old(reached)@[i] ==> #[trigger] final(reached)@[i],
        old(queue)@.is_prefix_of(final(queue)@),
{
    proof {
        reveal(bfs_inv);
    }
    let k = &tiles[ni].kind;
    let open = matches!(k, TileKind::Empty) || matches!(k, TileKind::Start) || matches!(k, TileKind::Direction { .. });
    if open && !reached[ni] {
        let ghost q0 = queue@;
        let ghost r0 = reached@;
        proof {
            lemma_reach_step(gs, tiles@, pts@, ci as int, ni as int);
        }
        reached.set(ni, true);
        queue.push(ni);
        proof {
            let n = gs.cells();
            assert(!q0.contains(ni));
            assert(queue@.no_duplicates()) by {
                assert forall|a: int, b: int| 0 <= a < queue@.len() && 0 <= b < queue@.len() && a != b implies queue@[a]
                    != queue@[b] by {
                    if a < q0.len() && b < q0.len() {
                        assert(queue@[a] == q0[a] && queue@[b] == q0[b]);
                    } else if a < q0.len() {
                        assert(queue@[a] == q0[a]);
                    } else if b < q0.len() {
                        assert(queue@[b] == q0[b]);
                    }
                }
            }
            assert(queue@[q0.len() as int] == ni);
            assert forall|i: int| 0 <= i < n implies (#[trigger] reached@[i] <==> queue@.contains(i as usize)) by {
                if i == ni as int {
                    assert(queue@[q0.len() as int] == ni);
                } else {
                    if queue@.contains(i as usize) {
                        let kk = choose|kk: int| 0 <= kk < queue@.len() && queue@[kk] == i as usize;
                        assert(kk < q0.len());
                        assert(queue@[kk] == q0[kk]);
                        assert(q0.contains(i as usize));
                    }
                    if r0[i] {
                        let kk = choose|kk: int| 0 <= kk < q0.len() && q0[kk] == i as usize;
                        assert(queue@[kk] == q0[kk]);
                    }
                }
            }
            assert(queue@.subrange(0, head as int) =~= q0.subrange(0, head as int));
            assert forall|kk: int| 0 <= kk < queue@.len() implies #[trigger] queue@[kk] < n by {
                if kk < q0.len() {
                    assert(queue@[kk] == q0[kk]);
                }
            }
            assert(q0.is_prefix_of(queue@));
        }
    } else {
        proof {
            assert(queue@.is_prefix_of(queue@));
        }
    }
}

/// Marks which tiles the player can interact with: open tiles connected to
/// the loop (or to the corridor when there is no loop, or to the first start
/// tile when neither touches an open tile), and rocks and walls next to them.
pub fn compute_interactable_mask(rs: &RunState) -> (mask: Vec<bool>)
    requires
        rs.grid_size.wf(),
        rs.tiles@.len() == rs.grid_size.cells(),
    ensures
        mask@.len() == rs.tiles@.len(),
        forall|i: int| 0 <= i < mask@.len() ==> #[trigger] mask@[i] == spec_mask_at(rs.grid_size, rs.tiles@, seed_points(rs), i),
{
    let gs = rs.grid_size;
    let tiles = &rs.tiles;
    let n = tiles.len();
    let w = gs.width;
    let ghost pts = seed_points(rs);
    let mut reached: Vec<bool> = Vec::new();
    let mut visited: Vec<bool> = Vec::new();
    let mut i: usize = 0;
    while i < n
        invariant
            i <= n,
            reached@.len() == i,
            visited@.len() == i,
            forall|j: int| 0 <= j < i ==> !#[trigger] reached@[j],
            forall|j: int| 0 <= j < i ==> !#[trigger] visited@[j],
        decreases n - i,
    {
        reached.push(false);
        visited.push(false);
        i += 1;
    }
    let mut queue: Vec<usize> = Vec::new();
    proof {
        reveal(bfs_inv);
        assert(queue@.subrange(0, 0) =~= Seq::<usize>::empty());
    }
    let seeds = if rs.path_loop.len() > 0 { &rs.path_loop } else { &rs.path };
    let mut k: usize = 0;
    while k < seeds.len()
        invariant
            gs == rs.grid_size,
            gs.wf(),
            tiles@.len() == gs.cells(),
            n == gs.cells(),
            w == gs.width,
            seeds@ == pts,
            pts == seed_points(rs),
            k <= seeds@.len(),
            reached@.len() == n,
            visited@.len() == n,
            bfs_inv(gs, tiles@, pts, reached@, visited@, queue@, 0),
            forall|j: int| 0 <= j < k && pt_seed(gs, tiles@, pts, j) ==> #[trigger] reached@[gs.index_of(pts[j])],
            queue@.len() > 0 ==> exists|j: int| #[trigger] pt_seed(gs, tiles@, pts, j),
        decreases seeds@.len() - k,
    {
        let ghost r0 = reached@;
        let p = seeds[k];
        if p.x < w && p.y < gs.height {
            proof {
                lemma_index_pos(gs, p);
            }
            let c = (p.y * w + p.x) as usize;
            let kind = &tiles[c].kind;
            let open = matches!(kind, TileKind::Empty) || matches!(kind, TileKind::Start) || matches!(kind, TileKind::Direction { .. });
            if open && !reached[c] {
                proof {
                    reveal(bfs_inv);
                    assert(pt_seed(gs, tiles@, pts, k as int));
                    lemma_walk_single(gs, tiles@, Terrain::Open, c as int);
                    reveal(mask_seed);
                    assert(mask_seed(gs, tiles@, pts, c as int));
                    assert(mask_reach(gs, tiles@, pts, c as int));
                }
                let ghost q0 = queue@;
                reached.set(c, true);
                queue.push(c);
                proof {
                    reveal(bfs_inv);
                    assert(!q0.contains(c));
                    assert(queue@.no_duplicates()) by {
                        assert forall|a: int, b: int| 0 <= a < queue@.len() && 0 <= b < queue@.len() && a != b implies queue@[a]
                            != queue@[b] by {
                            if a < q0.len() {
                                assert(queue@[a] == q0[a]);
                            }
                            if b < q0.len() {
                                assert(queue@[b] == q0[b]);
                            }
                        }
                    }
                    assert(queue@[q0.len() as int] == c);
                    assert forall|ii: int| 0 <= ii < n implies (#[trigger] reached@[ii] <==> queue@.contains(ii as usize)) by {
                        if ii == c as int {
                            assert(queue@[q0.len() as int] == c);
                        } else {
                            if queue@.contains(ii as usize) {
                                let kk = choose|kk: int| 0 <= kk < queue@.len() && queue@[kk] == ii as usize;
                                assert(kk < q0.len());
                                assert(queue@[kk] == q0[kk]);
                                assert(q0.contains(ii as usize));
                            }
                            if reached@[ii] {
                                let kk = choose|kk: int| 0 <= kk < q0.len() && q0[kk] == ii as usize;
                                assert(queue@[kk] == q0[kk]);
                            }
                        }
                    }
                    assert forall|kk: int| 0 <= kk < queue@.len() implies #[trigger] queue@[kk] < n by {
                        if kk < q0.len() {
                            assert(queue@[kk] == q0[kk]);
                        }
                    }
                    assert(queue@.subrange(0, 0) =~= Seq::<usize>::empty());
                }
            }
        }
        proof {
            assert forall|j: int| 0 <= j < k + 1 && pt_seed(gs, tiles@, pts, j) implies #[trigger] reached@[gs.index_of(pts[j])] by {
                lemma_index_pos(gs, pts[j]);
                if j < k {
                    assert(r0[gs.index_of(pts[j])]);
                }
            }
        }
        k += 1;
    }
    proof {
        reveal(bfs_inv);
        if queue@.len() == 0 {
            assert forall|j: int| !#[trigger] pt_seed(gs, tiles@, pts, j) by {
                if pt_seed(gs, tiles@, pts, j) {
                    lemma_index_pos(gs, pts[j]);
                    assert(reached@[gs.index_of(pts[j])]);
                    assert(queue@.contains(gs.index_of(pts[j]) as usize));
                }
            }
        }
    }
    if queue.len() == 0 {
        let mut t: usize = 0;
        while t < n
            invariant_except_break
                queue@.len() == 0,
                forall|j: int| 0 <= j < t ==> !(#[trigger] tiles@[j].kind is Start),
            invariant
                gs.wf(),
                tiles@.len() == gs.cells(),
                n == gs.cells(),
                t <= n,
                reached@.len() == n,
                visited@.len() == n,
                bfs_inv(gs, tiles@, pts, reached@, visited@, queue@, 0),
                forall|j: int| !#[trigger] pt_seed(gs, tiles@, pts, j),
            ensures
                queue@.len() == 0 ==> forall|j: int| 0 <= j < n ==> !(#[trigger] tiles@[j].kind is Start),
                queue@.len() > 0 ==> queue@.len() == 1 && is_first_start(tiles@, queue@[0] as int),
            decreases n - t,
        {
            if matches!(tiles[t].kind, TileKind::Start) {
                proof {
                    reveal(bfs_inv);
                    assert(is_first_start(tiles@, t as int));
                    reveal(mask_seed);
                    assert(mask_seed(gs, tiles@, pts, t as int));
                    lemma_walk_single(gs, tiles@, Terrain::Open, t as int);
                    assert(mask_reach(gs, tiles@, pts, t as int));
                }
                reached.set(t, true);
                queue.push(t);
                proof {
                    reveal(bfs_inv);
                    assert(queue@ =~= seq![t]);
                    assert(queue@.subrange(0, 0) =~= Seq::<usize>::empty());
                    assert forall|ii: int| 0 <= ii < n implies (#[trigger] reached@[ii] <==> queue@.contains(ii as usize)) by {
                        if ii == t as int {
                            assert(queue@[0] == t);
                        }
                    }
                }
                break;
            }
            t += 1;
        }
    }
    // every seed is reached
    proof {
        reveal(bfs_inv);
        lemma_queue_bound(queue@, n as int);
        assert forall|c: int| #[trigger] mask_seed(gs, tiles@, pts, c) implies 0 <= c < n && reached@[c] by {
            lemma_seed_in_range(gs, tiles@, pts, c);
            reveal(mask_seed);
            if exists|j: int| #[trigger] pt_seed(gs, tiles@, pts, j) {
                let j = choose|j: int| #[trigger] pt_seed(gs, tiles@, pts, j) && gs.index_of(pts[j]) == c;
                lemma_index_pos(gs, pts[j]);
            } else {
                assert(is_first_start(tiles@, c));
                if queue@.len() > 0 {
                    let t = queue@[0] as int;
                    assert(is_first_start(tiles@, t));
                    if c < t {
                        assert(!(tiles@[c].kind is Start));
                    } else if t < c {
                        assert(!(tiles@[t].kind is Start));
                    }
                    assert(queue@.contains(c as usize));
                }
            }
        }
        assert(seeds_reached(gs, tiles@, pts, reached@));
    }
    let mut head: usize = 0;
    while head < queue.len()
        invariant
            gs == rs.grid_size,
            gs.wf(),
            tiles@.len() == gs.cells(),
            n == gs.cells(),
            w == gs.width,
            pts == seed_points(rs),
            bfs_inv(gs, tiles@, pts, reached@, visited@, queue@, head as int),
            reached@.len() == n,
            visited@.len() == n,
            queue@.len() <= n,
            seeds_reached(gs, tiles@, pts, reached@),
        decreases n - head,
    {
        let ghost q0 = queue@;
        let ghost v0 = visited@;
        let ghost r0 = reached@;
        let ci = queue[head];
        proof {
            reveal(bfs_inv);
            lemma_cell_coords(gs, ci as int);
            assert(reached@[ci as int]);
        }
        let cx = (ci as u32) % w;
        let cy = (ci as u32) / w;
        if cx + 1 < w {
            visit(gs, tiles, Ghost(pts), ci, ci + 1, &mut reached, &visited, &mut queue, head);
        }
        if cx > 0 {
            visit(gs, tiles, Ghost(pts), ci, ci - 1, &mut reached, &visited, &mut queue, head);
        }
        if cy + 1 < gs.height {
            visit(gs, tiles, Ghost(pts), ci, ci + (w as usize), &mut reached, &visited, &mut queue, head);
        }
        if cy > 0 {
            visit(gs, tiles, Ghost(pts), ci, ci - (w as usize), &mut reached, &visited, &mut queue, head);
        }
        proof {
            assert forall|c: int| #[trigger] mask_seed(gs, tiles@, pts, c) implies 0 <= c < n && reached@[c] by {
                lemma_seed_in_range(gs, tiles@, pts, c);
                assert(r0[c]);
            }
            assert(seeds_reached(gs, tiles@, pts, reached@));
        }
        visited.set(ci, true);
        head += 1;
        proof {
            reveal(bfs_inv);
            assert(q0.is_prefix_of(queue@));
            assert(queue@[head - 1] == ci);
            assert forall|ii: int| 0 <= ii < n implies (#[trigger] visited@[ii] <==> queue@.subrange(0, head as int).contains(ii as usize)) by {
                assert(queue@.subrange(0, head as int) =~= queue@.subrange(0, head - 1).push(ci));
                assert(queue@.subrange(0, head - 1) =~= q0.subrange(0, head - 1));
            }
            assert forall|ii: int|
                0 <= ii < n && #[trigger] visited@[ii] implies forall|j: int|
                    #![trigger gs.step(ii, j)]
                    gs.step(ii, j) && passable(Terrain::Open, kind_at(tiles@, j)) ==> reached@[j] by {
            }
            lemma_queue_bound(queue@, n as int);
        }
    }
    proof {
        reveal(bfs_inv);
        assert(queue@.subrange(0, head as int) =~= queue@);
        assert forall|i: int| 0 <= i < n implies (#[trigger] reached@[i] <==> mask_reach(gs, tiles@, pts, i)) by {
            if mask_reach(gs, tiles@, pts, i) {
                let c = choose|c: int| mask_seed(gs, tiles@, pts, c) && #[trigger] reaches(gs, tiles@, Terrain::Open, c, i);
                assert(reached@[c]);
                let wk = choose|wk: Seq<int>| #[trigger] is_walk(gs, tiles@, Terrain::Open, wk) && wk[0] == c && wk.last() == i;
                lemma_flood_closure(gs, tiles@, pts, reached@, visited@, queue@, wk, wk.len() - 1);
            }
        }
    }
    let mut mask = visited;
    let mut i: usize = 0;
    while i < n
        invariant
            gs == rs.grid_size,
            gs.wf(),
            tiles@.len() == gs.cells(),
            n == gs.cells(),
            w == gs.width,
            pts == seed_points(rs),
            i <= n,
            mask@.len() == n,
            reached@.len() == n,
            forall|j: int| 0 <= j < n ==> (#[trigger] reached@[j] <==> mask_reach(gs, tiles@, pts, j)),
            forall|j: int| 0 <= j < i ==> #[trigger] mask@[j] == spec_mask_at(gs, tiles@, pts, j),
            forall|j: int| i <= j < n ==> #[trigger] mask@[j] == reached@[j],
        decreases n - i,
    {
        proof {
            lemma_cell_coords(gs, i as int);
        }
        let rw = matches!(tiles[i].kind, TileKind::Rock { .. }) || matches!(tiles[i].kind, TileKind::Wall);
        if rw {
            let cx = (i as u32) % w;
            let cy = (i as u32) / w;
            let mut adj = false;
            if cx + 1 < w && reached[i + 1] {
                adj = true;
            }
            if !adj && cx > 0 && reached[i - 1] {
                adj = true;
            }
            if !adj && cy + 1 < gs.height && reached[i + (w as usize)] {
                adj = true;
            }
            if !adj && cy > 0 && reached[i - (w as usize)] {
                adj = true;
            }
            proof {
                assert(!mask_reach(gs, tiles@, pts, i as int)) by {
                    if mask_reach(gs, tiles@, pts, i as int) {
                        assert(reached@[i as int]);
                        reveal(bfs_inv);
                    }
                }
                if adj {
                    if cx + 1 < w && reached@[i + 1] {
                        assert(gs.step(i as int, i + 1));
                    } else if cx > 0 && reached@[i - 1] {
                        assert(gs.step(i as int, i - 1));
                    } else if cy + 1 < gs.height && reached@[i + w] {
                        assert(gs.step(i as int, i + w));
                    } else {
                        assert(gs.step(i as int, i - w));
                    }
                } else {
                    assert forall|j: int| #[trigger] gs.step(i as int, j) implies !mask_reach(gs, tiles@, pts, j) by {
                        assert(!reached@[j]);
                    }
                }
            }
            if adj {
                mask.set(i, true);
            }
        } else {
            proof {
                assert(!(kind_at(tiles@, i as int) is Rock || kind_at(tiles@, i as int) is Wall));
            }
        }
        i += 1;
    }
    mask
}

/// A queue of distinct cells of an `n`-cell grid holds at most `n` entries.
proof fn lemma_queue_bound(q: Seq<usize>, n: int)
    requires
        n >= 0,
        q.no_duplicates(),
        forall|k: int| 0 <= k < q.len() ==> #[trigger] q[k] < n,
    ensures
        q.len() <= n,
{
    let s = q.map_values(|v: usize| v as int);
    assert(s.no_duplicates()) by {
        assert forall|a: int, b: int| 0 <= a < s.len() && 0 <= b < s.len() && a != b implies s[a] != s[b] by {
            assert(q[a] != q[b]);
        }
    }
    assert forall|k: int| 0 <= k < s.len() implies 0 <= #[trigger] s[k] < n by {
        assert(q[k] < n);
    }
    crate::pathfind::lemma_distinct_bound(s, n);
}

/// When the flood is done, every cell on an open walk from a reached cell is reached.
proof fn lemma_flood_closure(
    gs: GridSize,
    tiles: Seq<Tile>,
    pts: Seq<Position>,
    reached: Seq<bool>,
    visited: Seq<bool>,
    queue: Seq<usize>,
    w: Seq<int>,
    k: int,
)
    requires
        bfs_inv(gs, tiles, pts, reached, visited, queue, queue.len() as int),
        is_walk(gs, tiles, Terrain::Open, w),
        reached[w[0]],
        0 <= k < w.len(),
    ensures
        reached[w[k]],
    decreases k,
{
    reveal(bfs_inv);
    assert(queue.subrange(0, queue.len() as int) =~= queue);
    if k > 0 {
        lemma_flood_closure(gs, tiles, pts, reached, visited, queue, w, k - 1);
        let a = w[k - 1];
        assert(0 <= a < gs.cells());
        assert(visited[a]);
        assert(gs.step(a, w[k]));
        assert(passable(Terrain::Open, kind_at(tiles, w[k])));
    }
}

} // verus!
