//! The map of a fresh run: rocks (some with gold, some with a boost) with a
//! start cluster carved at the centre and a short corridor around it.

use vstd::prelude::*;
use crate::grid::{
    GridSize, Position, Tile, TileKind, BoostKind, ArrowDir, DirRole, Terrain, lemma_cell_coords, lemma_index_pos,
    adjacent, is_pos_walk, is_walk, kind_at, reaches, lemma_pos_walk_is_walk, indices_of,
};
use crate::pathfind::{route_exists, empty_nbrs, last_marked, spec_entrance_exit, Marker, marked};

verus! {

/// The chance outcomes that shape a fresh map.
#[derive(Clone, Debug)]
pub struct GenRolls {
    /// For every tile in row-major order: whether its rock holds gold, and
    /// the boost it carries.
    pub tiles: Vec<(bool, Option<BoostKind>)>,
    /// Direction from the start tile to the entrance: 0 right, 1 down,
    /// 2 left, anything else up.
    pub orient: u32,
    /// Whether the corridor turns to the positive side (a quarter turn
    /// counter-clockwise from the entrance direction in screen coordinates).
    pub turn_positive: bool,
}

pub open spec fn arrow_of(orient: u32) -> ArrowDir {
    if orient == 0 {
        ArrowDir::Right
    } else if orient == 1 {
        ArrowDir::Down
    } else if orient == 2 {
        ArrowDir::Left
    } else {
        ArrowDir::Up
    }
}

/// Unit step from the start tile towards the entrance.
pub open spec fn dvec(orient: u32) -> (int, int) {
    if orient == 0 {
        (1, 0)
    } else if orient == 1 {
        (0, 1)
    } else if orient == 2 {
        (-1, 0)
    } else {
        (0, -1)
    }
}

/// Unit step to the side the corridor turns to.
pub open spec fn pvec(orient: u32, turn_positive: bool) -> (int, int) {
    let (dx, dy) = dvec(orient);
    let s: int = if turn_positive { 1 } else { -1 };
    (-dy * s, dx * s)
}

/// What the start cluster puts at offset (ox, oy) from the centre.
pub open spec fn cluster_kind(orient: u32, ox: int, oy: int) -> Option<TileKind> {
    let (dx, dy) = dvec(orient);
    let a = arrow_of(orient);
    if ox == 0 && oy == 0 {
        Some(TileKind::Start)
    } else if ox == dx && oy == dy {
        Some(TileKind::Direction { dir: a, role: DirRole::Entrance })
    } else if ox == -dx && oy == -dy {
        Some(TileKind::Direction { dir: a, role: DirRole::Exit })
    } else if dy == 0 && ox == 0 && (oy == 1 || oy == -1) {
        Some(TileKind::Indestructible)
    } else if dy != 0 && oy == 0 && (ox == 1 || ox == -1) {
        Some(TileKind::Indestructible)
    } else {
        None
    }
}

/// Offset (ox, oy) from the centre lies on the carved corridor: two steps
/// out from the entrance, three steps to the side, four steps back, and
/// three steps to two steps out from the exit.
pub open spec fn on_corridor(orient: u32, turn_positive: bool, ox: int, oy: int) -> bool {
    let (dx, dy) = dvec(orient);
    let (px, py) = pvec(orient, turn_positive);
    ||| (ox == 2 * dx && oy == 2 * dy)
    ||| (ox == 2 * dx + px && oy == 2 * dy + py)
    ||| (ox == 2 * dx + 2 * px && oy == 2 * dy + 2 * py)
    ||| (ox == 2 * dx + 3 * px && oy == 2 * dy + 3 * py)
    ||| (ox == dx + 3 * px && oy == dy + 3 * py)
    ||| (ox == 3 * px && oy == 3 * py)
    ||| (ox == -dx + 3 * px && oy == -dy + 3 * py)
    ||| (ox == -2 * dx + 3 * px && oy == -2 * dy + 3 * py)
    ||| (ox == -2 * dx + 2 * px && oy == -2 * dy + 2 * py)
    ||| (ox == -2 * dx + px && oy == -2 * dy + py)
    ||| (ox == -2 * dx && oy == -2 * dy)
}

/// Whether cell `i` of a fresh map is carved: part of the start cluster or
/// of the corridor around it.
pub open spec fn carved(gs: GridSize, orient: u32, turn_positive: bool, i: int) -> bool {
    let w = gs.width as int;
    let ox = i % w - gs.width / 2;
    let oy = i / w - gs.height / 2;
    cluster_kind(orient, ox, oy) is Some || on_corridor(orient, turn_positive, ox, oy)
}

/// Number of rock cells (cells not carved) among the first `k` whose roll
/// holds gold, when `gold`, or holds none, when `!gold`.
pub open spec fn rock_rolls(
    gs: GridSize,
    r: Seq<(bool, Option<BoostKind>)>,
    orient: u32,
    turn_positive: bool,
    k: int,
    gold: bool,
) -> int
    decreases k,
{
    if k <= 0 {
        0
    } else {
        rock_rolls(gs, r, orient, turn_positive, k - 1, gold) + if !carved(gs, orient, turn_positive, k - 1)
            && r[k - 1].0 == gold {
            1int
        } else {
            0int
        }
    }
}

/// At least 8% of the tiles (rounded) hold gold.
pub open spec fn min_gold_tiles(total: int) -> int {
    (8 * total + 50) / 100
}

/// Whether the rock at cell `i` holds gold: its roll says so, or the gold
/// rolled on rocks falls short of the minimum and fewer rocks without rolled
/// gold than the shortfall come before it.
pub open spec fn gets_gold(gs: GridSize, r: Seq<(bool, Option<BoostKind>)>, orient: u32, turn_positive: bool, i: int) -> bool {
    let have = rock_rolls(gs, r, orient, turn_positive, r.len() as int, true);
    let need = min_gold_tiles(r.len() as int);
    r[i].0 || (have < need && rock_rolls(gs, r, orient, turn_positive, i, false) < need - have)
}

/// Whether a tile is a rock holding gold.
pub open spec fn is_gold_rock(t: Tile) -> bool {
    match t.kind {
        TileKind::Rock { has_gold, .. } => has_gold,
        _ => false,
    }
}

/// Number of rocks among the first `k` tiles.
pub open spec fn rocks_in(tiles: Seq<Tile>, k: int) -> int
    decreases k,
{
    if k <= 0 {
        0
    } else {
        rocks_in(tiles, k - 1) + if tiles[k - 1].kind is Rock { 1int } else { 0int }
    }
}

/// Number of rocks holding gold among the first `k` tiles.
pub open spec fn gold_rocks_in(tiles: Seq<Tile>, k: int) -> int
    decreases k,
{
    if k <= 0 {
        0
    } else {
        gold_rocks_in(tiles, k - 1) + if is_gold_rock(tiles[k - 1]) { 1int } else { 0int }
    }
}

/// Rocks and gold rocks among the first `k` tiles of a fresh map, counted
/// on the rolls.
proof fn lemma_fresh_counts(gs: GridSize, r: Seq<(bool, Option<BoostKind>)>, orient: u32, turn_positive: bool, k: int)
    requires
        r.len() == gs.cells(),
        0 <= k <= r.len(),
    ensures
        ({
            let t = fresh_tiles(gs, r, orient, turn_positive);
            let have = rock_rolls(gs, r, orient, turn_positive, r.len() as int, true);
            let need = min_gold_tiles(r.len() as int);
            let plain = rock_rolls(gs, r, orient, turn_positive, k, false);
            let topped: int = if have < need {
                if plain < need - have { plain } else { need - have }
            } else {
                0
            };
            &&& rocks_in(t, k) == rock_rolls(gs, r, orient, turn_positive, k, true) + plain
            &&& gold_rocks_in(t, k) == rock_rolls(gs, r, orient, turn_positive, k, true) + topped
        }),
    decreases k,
{
    if k > 0 {
        lemma_fresh_counts(gs, r, orient, turn_positive, k - 1);
        let t = fresh_tiles(gs, r, orient, turn_positive);
        assert(t[k - 1] == generated_tile(gs, r, orient, turn_positive, k - 1));
    }
}

/// The offset of the `m`-th carved cell (0 to 15): the start, the entrance,
/// the exit, the two indestructible tiles, then the corridor.
pub open spec fn carve_off(orient: u32, turn_positive: bool, m: int) -> (int, int) {
    let (dx, dy) = dvec(orient);
    if m == 0 {
        (0, 0)
    } else if m == 1 {
        (dx, dy)
    } else if m == 2 {
        (-dx, -dy)
    } else if m == 3 {
        if dy == 0 { (0, 1) } else { (1, 0) }
    } else if m == 4 {
        if dy == 0 { (0, -1) } else { (-1, 0) }
    } else {
        corridor_off(orient, turn_positive, m - 5)
    }
}

/// Row-major index of the cell at offset `o` from the centre.
pub open spec fn off_index(gs: GridSize, o: (int, int)) -> int {
    (gs.height / 2 + o.1) * gs.width + gs.width / 2 + o.0
}

/// Number of the first `m` carved offsets whose index lies below `k`.
spec fn carve_hits(gs: GridSize, orient: u32, turn_positive: bool, k: int, m: int) -> int
    decreases m,
{
    if m <= 0 {
        0
    } else {
        carve_hits(gs, orient, turn_positive, k, m - 1) + if 0 <= off_index(gs, carve_off(orient, turn_positive, m - 1)) < k {
            1int
        } else {
            0int
        }
    }
}

/// Number of the first `m` carved offsets whose index is `i`.
spec fn carve_at(gs: GridSize, orient: u32, turn_positive: bool, i: int, m: int) -> int
    decreases m,
{
    if m <= 0 {
        0
    } else {
        carve_at(gs, orient, turn_positive, i, m - 1) + if off_index(gs, carve_off(orient, turn_positive, m - 1)) == i {
            1int
        } else {
            0int
        }
    }
}

/// Number of carved cells among the first `k`.
spec fn carved_count(gs: GridSize, orient: u32, turn_positive: bool, k: int) -> int
    decreases k,
{
    if k <= 0 {
        0
    } else {
        carved_count(gs, orient, turn_positive, k - 1) + if carved(gs, orient, turn_positive, k - 1) { 1int } else { 0int }
    }
}

proof fn lemma_carve_hits(gs: GridSize, orient: u32, turn_positive: bool, k: int, m: int)
    requires
        k >= 0,
        0 <= m,
    ensures
        carve_hits(gs, orient, turn_positive, k + 1, m) == carve_hits(gs, orient, turn_positive, k, m) + carve_at(
            gs,
            orient,
            turn_positive,
            k,
            m,
        ),
        0 <= carve_hits(gs, orient, turn_positive, k, m) <= m,
        carve_at(gs, orient, turn_positive, k, m) >= 0,
        (exists|j: int| 0 <= j < m && off_index(gs, carve_off(orient, turn_positive, j)) == k) ==> carve_at(
            gs,
            orient,
            turn_positive,
            k,
            m,
        ) >= 1,
    decreases m,
{
    if m > 0 {
        lemma_carve_hits(gs, orient, turn_positive, k, m - 1);
        if exists|j: int| 0 <= j < m && off_index(gs, carve_off(orient, turn_positive, j)) == k {
            let j = choose|j: int| 0 <= j < m && off_index(gs, carve_off(orient, turn_positive, j)) == k;
            if j < m - 1 {
                assert(exists|j2: int| 0 <= j2 < m - 1 && off_index(gs, carve_off(orient, turn_positive, j2)) == k);
            }
        }
    }
}

/// A carved cell is the cell of one of the sixteen carved offsets.
proof fn lemma_carved_is_offset(gs: GridSize, orient: u32, turn_positive: bool, i: int)
    requires
        0 <= i < gs.cells(),
        carved(gs, orient, turn_positive, i),
    ensures
        exists|j: int| 0 <= j < 16 && off_index(gs, carve_off(orient, turn_positive, j)) == i,
{
    lemma_cell_coords(gs, i);
    let w = gs.width as int;
    let ox = i % w - gs.width / 2;
    let oy = i / w - gs.height / 2;
    assert(off_index(gs, (ox, oy)) == i) by {
        assert(gs.height / 2 + oy == i / w);
        assert(gs.width / 2 + ox == i % w);
    }
    let j: int = if cluster_kind(orient, ox, oy) is Some {
        if ox == 0 && oy == 0 {
            0
        } else if (ox, oy) == dvec(orient) {
            1
        } else if ox == -dvec(orient).0 && oy == -dvec(orient).1 {
            2
        } else if ox + oy > 0 {
            3
        } else {
            4
        }
    } else {
        let k: int = choose|k: int| 0 <= k <= 10 && corridor_off(orient, turn_positive, k) == (ox, oy);
        5 + k
    };
    if cluster_kind(orient, ox, oy) is None {
        let (dx, dy) = dvec(orient);
        let (px, py) = pvec(orient, turn_positive);
        assert(exists|k: int| 0 <= k <= 10 && corridor_off(orient, turn_positive, k) == (ox, oy)) by {
            if ox == 2 * dx && oy == 2 * dy {
                assert(corridor_off(orient, turn_positive, 0) == (ox, oy));
            } else if ox == 2 * dx + px && oy == 2 * dy + py {
                assert(corridor_off(orient, turn_positive, 1) == (ox, oy));
            } else if ox == 2 * dx + 2 * px && oy == 2 * dy + 2 * py {
                assert(corridor_off(orient, turn_positive, 2) == (ox, oy));
            } else if ox == 2 * dx + 3 * px && oy == 2 * dy + 3 * py {
                assert(corridor_off(orient, turn_positive, 3) == (ox, oy));
            } else if ox == dx + 3 * px && oy == dy + 3 * py {
                assert(corridor_off(orient, turn_positive, 4) == (ox, oy));
            } else if ox == 3 * px && oy == 3 * py {
                assert(corridor_off(orient, turn_positive, 5) == (ox, oy));
            } else if ox == -dx + 3 * px && oy == -dy + 3 * py {
                assert(corridor_off(orient, turn_positive, 6) == (ox, oy));
            } else if ox == -2 * dx + 3 * px && oy == -2 * dy + 3 * py {
                assert(corridor_off(orient, turn_positive, 7) == (ox, oy));
            } else if ox == -2 * dx + 2 * px && oy == -2 * dy + 2 * py {
                assert(corridor_off(orient, turn_positive, 8) == (ox, oy));
            } else if ox == -2 * dx + px && oy == -2 * dy + py {
                assert(corridor_off(orient, turn_positive, 9) == (ox, oy));
            } else {
                assert(corridor_off(orient, turn_positive, 10) == (ox, oy));
            }
        }
    }
    assert(carve_off(orient, turn_positive, j) == (ox, oy));
}

/// At most sixteen cells are carved.
proof fn lemma_carved_count(gs: GridSize, orient: u32, turn_positive: bool, k: int)
    requires
        0 <= k <= gs.cells(),
    ensures
        carved_count(gs, orient, turn_positive, k) <= carve_hits(gs, orient, turn_positive, k, 16),
        carved_count(gs, orient, turn_positive, k) <= 16,
    decreases k,
{
    if k > 0 {
        lemma_carved_count(gs, orient, turn_positive, k - 1);
        lemma_carve_hits(gs, orient, turn_positive, k - 1, 16);
        if carved(gs, orient, turn_positive, k - 1) {
            lemma_carved_is_offset(gs, orient, turn_positive, k - 1);
        }
    }
    lemma_carve_hits(gs, orient, turn_positive, k, 16);
}

/// Every cell is carved or a rock whose roll holds gold or not.
proof fn lemma_cells_split(gs: GridSize, r: Seq<(bool, Option<BoostKind>)>, orient: u32, turn_positive: bool, k: int)
    requires
        0 <= k <= r.len(),
    ensures
        rock_rolls(gs, r, orient, turn_positive, k, true) + rock_rolls(gs, r, orient, turn_positive, k, false)
            + carved_count(gs, orient, turn_positive, k) == k,
    decreases k,
{
    if k > 0 {
        lemma_cells_split(gs, r, orient, turn_positive, k - 1);
    }
}

/// A rock cell among the first `k` makes the rock count positive.
proof fn lemma_some_rock(gs: GridSize, r: Seq<(bool, Option<BoostKind>)>, orient: u32, turn_positive: bool, k: int, j: int)
    requires
        0 <= j < k <= r.len(),
        !carved(gs, orient, turn_positive, j),
    ensures
        rock_rolls(gs, r, orient, turn_positive, k, true) + rock_rolls(gs, r, orient, turn_positive, k, false) >= 1,
    decreases k,
{
    lemma_cells_split(gs, r, orient, turn_positive, k - 1);
    if j < k - 1 {
        lemma_some_rock(gs, r, orient, turn_positive, k - 1, j);
    }
    let a = rock_rolls(gs, r, orient, turn_positive, k - 1, true);
    let b = rock_rolls(gs, r, orient, turn_positive, k - 1, false);
    assert(a >= 0 && b >= 0) by {
        lemma_rock_rolls_nonneg(gs, r, orient, turn_positive, k - 1);
    }
}

proof fn lemma_rock_rolls_nonneg(gs: GridSize, r: Seq<(bool, Option<BoostKind>)>, orient: u32, turn_positive: bool, k: int)
    ensures
        rock_rolls(gs, r, orient, turn_positive, k, true) >= 0,
        rock_rolls(gs, r, orient, turn_positive, k, false) >= 0,
    decreases k,
{
    if k > 0 {
        lemma_rock_rolls_nonneg(gs, r, orient, turn_positive, k - 1);
    }
}

/// On a grid of at least 3x3 a fresh map has at least as many rocks as the
/// gold minimum asks for.
proof fn lemma_enough_rocks(gs: GridSize, r: Seq<(bool, Option<BoostKind>)>, orient: u32, turn_positive: bool)
    requires
        r.len() == gs.cells(),
        gs.width >= 3,
        gs.height >= 3,
    ensures
        rock_rolls(gs, r, orient, turn_positive, r.len() as int, true) + rock_rolls(gs, r, orient, turn_positive, r.len() as int, false)
            >= min_gold_tiles(r.len() as int),
{
    let n = r.len() as int;
    lemma_cells_split(gs, r, orient, turn_positive, n);
    lemma_carved_count(gs, orient, turn_positive, n);
    let w = gs.width as int;
    let h = gs.height as int;
    assert(n >= 9) by (nonlinear_arith)
        requires
            n == w * h,
            w >= 3,
            h >= 3,
    ;
    if n < 18 {
        let q = h / 2 + 1;
        let rm = w / 2 + 1;
        let i = q * w + rm;
        assert(q < h && rm < w);
        assert(i < n) by (nonlinear_arith)
            requires
                i == q * w + rm,
                q + 1 <= h,
                rm < w,
                n == w * h,
                w > 0,
        ;
        vstd::arithmetic::div_mod::lemma_fundamental_div_mod_converse(i, w, q, rm);
        assert(!carved(gs, orient, turn_positive, i));
        lemma_some_rock(gs, r, orient, turn_positive, n, i);
    }
}

/// On a fresh map either at least 8% of the tiles (rounded) are gold rocks,
/// or every rock holds gold; on a grid of at least 3x3 always the former.
pub(crate) proof fn lemma_fresh_gold(gs: GridSize, r: Seq<(bool, Option<BoostKind>)>, orient: u32, turn_positive: bool)
    requires
        r.len() == gs.cells(),
    ensures
        ({
            let t = fresh_tiles(gs, r, orient, turn_positive);
            &&& gold_rocks_in(t, gs.cells()) >= min_gold_tiles(gs.cells()) || gold_rocks_in(t, gs.cells())
                == rocks_in(t, gs.cells())
            &&& gs.width >= 3 && gs.height >= 3 ==> gold_rocks_in(t, gs.cells()) >= min_gold_tiles(gs.cells())
        }),
{
    let n = r.len() as int;
    lemma_fresh_counts(gs, r, orient, turn_positive, n);
    lemma_rock_rolls_nonneg(gs, r, orient, turn_positive, n);
    if gs.width >= 3 && gs.height >= 3 {
        lemma_enough_rocks(gs, r, orient, turn_positive);
    }
}

/// The tile at cell `i` of a fresh map.
pub open spec fn generated_tile(gs: GridSize, rolls: Seq<(bool, Option<BoostKind>)>, orient: u32, turn_positive: bool, i: int) -> Tile {
    let w = gs.width as int;
    let ox = i % w - gs.width / 2;
    let oy = i / w - gs.height / 2;
    match cluster_kind(orient, ox, oy) {
        Some(k) => Tile { kind: k, hardness: 255 },
        None => if on_corridor(orient, turn_positive, ox, oy) {
            Tile { kind: TileKind::Empty, hardness: 1 }
        } else {
            Tile { kind: TileKind::Rock { has_gold: gets_gold(gs, rolls, orient, turn_positive, i), boost: rolls[i].1 }, hardness: 3 }
        },
    }
}

/// Whether offset (ox, oy) lies on the corridor for steps (dx, dy) and (px, py).
fn corridor_cell(ox: i64, oy: i64, dx: i64, dy: i64, px: i64, py: i64) -> (r: bool)
    requires
        -1 <= dx <= 1,
        -1 <= dy <= 1,
        -1 <= px <= 1,
        -1 <= py <= 1,
    ensures
        r == {
            ||| (ox == 2 * dx && oy == 2 * dy)
            ||| (ox == 2 * dx + px && oy == 2 * dy + py)
            ||| (ox == 2 * dx + 2 * px && oy == 2 * dy + 2 * py)
            ||| (ox == 2 * dx + 3 * px && oy == 2 * dy + 3 * py)
            ||| (ox == dx + 3 * px && oy == dy + 3 * py)
            ||| (ox == 3 * px && oy == 3 * py)
            ||| (ox == -dx + 3 * px && oy == -dy + 3 * py)
            ||| (ox == -2 * dx + 3 * px && oy == -2 * dy + 3 * py)
            ||| (ox == -2 * dx + 2 * px && oy == -2 * dy + 2 * py)
            ||| (ox == -2 * dx + px && oy == -2 * dy + py)
            ||| (ox == -2 * dx && oy == -2 * dy)
        },
{
    let ax = 2 * dx;
    let ay = 2 * dy;
    let bx = 3 * px;
    let by = 3 * py;
    let qx = 2 * px;
    let qy = 2 * py;
    let c1 = ox == ax && oy == ay;
    let c2 = ox == ax + px && oy == ay + py;
    let c3 = ox == ax + qx && oy == ay + qy;
    let c4 = ox == ax + bx && oy == ay + by;
    let c5 = ox == dx + bx && oy == dy + by;
    let c6 = ox == bx && oy == by;
    let c7 = ox == bx - dx && oy == by - dy;
    let c8 = ox == bx - ax && oy == by - ay;
    let c9 = ox == qx - ax && oy == qy - ay;
    let c10 = ox == px - ax && oy == py - ay;
    let c11 = ox == -ax && oy == -ay;
    c1 || c2 || c3 || c4 || c5 || c6 || c7 || c8 || c9 || c10 || c11
}

/// What the start cluster and the corridor put at cell `k`.
fn cell_layout(gs: GridSize, orient: u32, turn_positive: bool, k: usize) -> (r: (Option<TileKind>, bool))
    requires
        gs.wf(),
        k < gs.cells(),
    ensures
        ({
            let w = gs.width as int;
            let ox = k as int % w - gs.width / 2;
            let oy = k as int / w - gs.height / 2;
            r.0 == cluster_kind(orient, ox, oy) && r.1 == on_corridor(orient, turn_positive, ox, oy)
        }),
{
    proof {
        lemma_cell_coords(gs, k as int);
    }
    let w = gs.width;
    let cx = (gs.width / 2) as i64;
    let cy = (gs.height / 2) as i64;
    let (dx, dy): (i64, i64) = if orient == 0 {
        (1, 0)
    } else if orient == 1 {
        (0, 1)
    } else if orient == 2 {
        (-1, 0)
    } else {
        (0, -1)
    };
    let arrow = if orient == 0 {
        ArrowDir::Right
    } else if orient == 1 {
        ArrowDir::Down
    } else if orient == 2 {
        ArrowDir::Left
    } else {
        ArrowDir::Up
    };
    let px: i64 = if turn_positive { -dy } else { dy };
    let py: i64 = if turn_positive { dx } else { -dx };
    let x = ((k as u32) % w) as i64;
    let y = ((k as u32) / w) as i64;
    let ox = x - cx;
    let oy = y - cy;
    let cluster: Option<TileKind> = if ox == 0 && oy == 0 {
        Some(TileKind::Start)
    } else if ox == dx && oy == dy {
        Some(TileKind::Direction { dir: arrow, role: DirRole::Entrance })
    } else if ox == -dx && oy == -dy {
        Some(TileKind::Direction { dir: arrow, role: DirRole::Exit })
    } else if dy == 0 && ox == 0 && (oy == 1 || oy == -1) {
        Some(TileKind::Indestructible)
    } else if dy != 0 && oy == 0 && (ox == 1 || ox == -1) {
        Some(TileKind::Indestructible)
    } else {
        None
    };
    (cluster, corridor_cell(ox, oy, dx, dy, px, py))
}

/// Builds the tiles of a fresh map from the rolls: the start cluster and the
/// corridor are carved first, then the rocks left get their rolled gold and
/// boosts, and while the gold falls short of 8% of the tiles (rounded) the
/// first rocks without gold are given some.
pub fn generate_tiles(gs: GridSize, rolls: &GenRolls) -> (tiles: Vec<Tile>)
    requires
        gs.wf(),
        rolls.tiles@.len() == gs.cells(),
    ensures
        tiles@.len() == gs.cells(),
        forall|i: int| 0 <= i < gs.cells() ==> #[trigger] tiles@[i] == generated_tile(
            gs,
            rolls.tiles@,
            rolls.orient,
            rolls.turn_positive,
            i,
        ),
        gold_rocks_in(tiles@, gs.cells()) >= min_gold_tiles(gs.cells()) || gold_rocks_in(tiles@, gs.cells())
            == rocks_in(tiles@, gs.cells()),
        gs.width >= 3 && gs.height >= 3 ==> gold_rocks_in(tiles@, gs.cells()) >= min_gold_tiles(gs.cells()),
{
    let n = rolls.tiles.len();
    let r = &rolls.tiles;
    let orient = rolls.orient;
    let turn = rolls.turn_positive;
    let mut have: u64 = 0;
    let mut i: usize = 0;
    while i < n
        invariant
            i <= n,
            n == r@.len(),
            n == gs.cells(),
            gs.wf(),
            have == rock_rolls(gs, r@, orient, turn, i as int, true),
            have <= i,
        decreases n - i,
    {
        let (cluster, corridor) = cell_layout(gs, orient, turn, i);
        if cluster.is_none() && !corridor && r[i].0 {
            have += 1;
        }
        i += 1;
    }
    let need = (8 * (n as u64) + 50) / 100;
    let mut tiles: Vec<Tile> = Vec::new();
    let mut plain_before: u64 = 0;
    let mut k: usize = 0;
    while k < n
        invariant
            k <= n,
            n == r@.len(),
            n == gs.cells(),
            gs.wf(),
            r@ == rolls.tiles@,
            orient == rolls.orient,
            turn == rolls.turn_positive,
            have == rock_rolls(gs, r@, orient, turn, n as int, true),
            need == min_gold_tiles(n as int),
            plain_before == rock_rolls(gs, r@, orient, turn, k as int, false),
            plain_before <= k,
            tiles@.len() == k,
            forall|j: int| 0 <= j < k ==> #[trigger] tiles@[j] == generated_tile(gs, r@, orient, turn, j),
        decreases n - k,
    {
        let (cluster, corridor) = cell_layout(gs, orient, turn, k);
        let (has_gold, boost) = r[k];
        let rock_gold = has_gold || (have < need && plain_before < need - have);
        let t = match cluster {
            Some(kind) => Tile { kind, hardness: 255 },
            None => if corridor {
                Tile { kind: TileKind::Empty, hardness: 1 }
            } else {
                Tile { kind: TileKind::Rock { has_gold: rock_gold, boost }, hardness: 3 }
            },
        };
        assert(t == generated_tile(gs, r@, orient, turn, k as int));
        tiles.push(t);
        if cluster.is_none() && !corridor && !has_gold {
            plain_before += 1;
        }
        k += 1;
    }
    proof {
        assert(tiles@ =~= fresh_tiles(gs, r@, orient, turn));
        lemma_fresh_gold(gs, r@, orient, turn);
    }
    tiles
}

/// The cell at offset (ox, oy) from the centre of the grid.
pub open spec fn off_pos(gs: GridSize, ox: int, oy: int) -> Position {
    Position { x: (gs.width / 2 + ox) as u32, y: (gs.height / 2 + oy) as u32 }
}

/// Offset of step `k` (0 to 10) of the carved corridor, from two steps out
/// of the entrance round to two steps out of the exit.
pub open spec fn corridor_off(orient: u32, turn_positive: bool, k: int) -> (int, int) {
    let (dx, dy) = dvec(orient);
    let (px, py) = pvec(orient, turn_positive);
    if k == 0 {
        (2 * dx, 2 * dy)
    } else if k == 1 {
        (2 * dx + px, 2 * dy + py)
    } else if k == 2 {
        (2 * dx + 2 * px, 2 * dy + 2 * py)
    } else if k == 3 {
        (2 * dx + 3 * px, 2 * dy + 3 * py)
    } else if k == 4 {
        (dx + 3 * px, dy + 3 * py)
    } else if k == 5 {
        (3 * px, 3 * py)
    } else if k == 6 {
        (-dx + 3 * px, -dy + 3 * py)
    } else if k == 7 {
        (-2 * dx + 3 * px, -2 * dy + 3 * py)
    } else if k == 8 {
        (-2 * dx + 2 * px, -2 * dy + 2 * py)
    } else if k == 9 {
        (-2 * dx + px, -2 * dy + py)
    } else {
        (-2 * dx, -2 * dy)
    }
}

/// The tiles of a fresh map.
pub open spec fn fresh_tiles(gs: GridSize, r: Seq<(bool, Option<BoostKind>)>, orient: u32, turn_positive: bool) -> Seq<Tile> {
    Seq::new(gs.cells() as nat, |i: int| generated_tile(gs, r, orient, turn_positive, i))
}

/// A cell within three steps of the centre of a grid of at least 7x7 is on
/// the grid, and its tile is the one generated for that offset.
proof fn lemma_off_cell(gs: GridSize, ox: int, oy: int)
    requires
        gs.width >= 7,
        gs.height >= 7,
        -3 <= ox <= 3,
        -3 <= oy <= 3,
    ensures
        gs.in_bounds(off_pos(gs, ox, oy)),
        0 <= gs.index_of(off_pos(gs, ox, oy)) < gs.cells(),
        gs.pos_of(gs.index_of(off_pos(gs, ox, oy))) == off_pos(gs, ox, oy),
        gs.index_of(off_pos(gs, ox, oy)) % (gs.width as int) - gs.width / 2 == ox,
        gs.index_of(off_pos(gs, ox, oy)) / (gs.width as int) - gs.height / 2 == oy,
{
    lemma_index_pos(gs, off_pos(gs, ox, oy));
}

/// Every step of the corridor is carved empty, outside the start cluster,
/// within three steps of the centre, and one step from the next.
proof fn lemma_corridor_step(orient: u32, turn_positive: bool, k: int)
    requires
        0 <= k <= 10,
    ensures
        ({
            let (ox, oy) = corridor_off(orient, turn_positive, k);
            &&& cluster_kind(orient, ox, oy) is None
            &&& on_corridor(orient, turn_positive, ox, oy)
            &&& -3 <= ox <= 3 && -3 <= oy <= 3
        }),
        k < 10 ==> ({
            let (ax, ay) = corridor_off(orient, turn_positive, k);
            let (bx, by) = corridor_off(orient, turn_positive, k + 1);
            ||| (bx == ax + 1 && by == ay)
            ||| (bx == ax - 1 && by == ay)
            ||| (bx == ax && by == ay + 1)
            ||| (bx == ax && by == ay - 1)
        }),
{
    if turn_positive {
        if orient == 0 {
        } else if orient == 1 {
        } else if orient == 2 {
        } else {
        }
    } else {
        if orient == 0 {
        } else if orient == 1 {
        } else if orient == 2 {
        } else {
        }
    }
}

/// The last cell carrying a marker, when only one cell carries it.
proof fn lemma_last_marked_unique(tiles: Seq<Tile>, m: Marker, j: int, k: int)
    requires
        0 <= j < k <= tiles.len(),
        marked(m, tiles[j].kind),
        forall|i: int| 0 <= i < k && #[trigger] marked(m, tiles[i].kind) ==> i == j,
    ensures
        last_marked(tiles, m, k) == Some(j),
    decreases k,
{
    if k - 1 != j {
        lemma_last_marked_unique(tiles, m, j, k - 1);
    }
}

/// On a fresh map the entrance (or exit) is the one cell at `off` from the
/// centre.
proof fn lemma_fresh_marker(
    gs: GridSize,
    r: Seq<(bool, Option<BoostKind>)>,
    orient: u32,
    turn_positive: bool,
    m: Marker,
    ox: int,
    oy: int,
)
    requires
        gs.width >= 7,
        gs.height >= 7,
        r.len() == gs.cells(),
        -1 <= ox <= 1,
        -1 <= oy <= 1,
        m == Marker::Entrance ==> (ox, oy) == dvec(orient),
        m == Marker::Exit ==> (ox, oy) == (-dvec(orient).0, -dvec(orient).1),
        m != Marker::StartTile,
    ensures
        last_marked(fresh_tiles(gs, r, orient, turn_positive), m, gs.cells()) == Some(
            gs.index_of(off_pos(gs, ox, oy)),
        ),
        marked(m, fresh_tiles(gs, r, orient, turn_positive)[gs.index_of(off_pos(gs, ox, oy))].kind),
{
    let tiles = fresh_tiles(gs, r, orient, turn_positive);
    let j = gs.index_of(off_pos(gs, ox, oy));
    lemma_off_cell(gs, ox, oy);
    assert(marked(m, tiles[j].kind));
    assert forall|i: int| 0 <= i < gs.cells() && #[trigger] marked(m, tiles[i].kind) implies i == j by {
        lemma_cell_coords(gs, i);
        let w = gs.width as int;
        assert(i % w - gs.width / 2 == ox && i / w - gs.height / 2 == oy);
    }
    lemma_last_marked_unique(tiles, m, j, gs.cells());
}

/// The corridor as a walk over positions.
pub open spec fn corridor_walk(gs: GridSize, orient: u32, turn_positive: bool) -> Seq<Position> {
    Seq::new(
        11,
        |k: int| off_pos(gs, corridor_off(orient, turn_positive, k).0, corridor_off(orient, turn_positive, k).1),
    )
}

/// The corridor is a walk over empty tiles.
proof fn lemma_corridor_walk(gs: GridSize, r: Seq<(bool, Option<BoostKind>)>, orient: u32, turn_positive: bool)
    requires
        gs.width >= 7,
        gs.height >= 7,
        r.len() == gs.cells(),
    ensures
        is_pos_walk(gs, fresh_tiles(gs, r, orient, turn_positive), Terrain::EmptyOnly, corridor_walk(gs, orient, turn_positive)),
{
    let tiles = fresh_tiles(gs, r, orient, turn_positive);
    let p = corridor_walk(gs, orient, turn_positive);
    assert forall|k: int| 0 <= k < p.len() implies gs.in_bounds(#[trigger] p[k]) && kind_at(tiles, gs.index_of(p[k])) is Empty by {
        lemma_corridor_step(orient, turn_positive, k);
        let (ox, oy) = corridor_off(orient, turn_positive, k);
        lemma_off_cell(gs, ox, oy);
    }
    assert forall|k: int| 0 <= k < p.len() - 1 implies adjacent(#[trigger] p[k], p[k + 1]) by {
        lemma_corridor_step(orient, turn_positive, k);
        lemma_corridor_step(orient, turn_positive, k + 1);
    }
}

/// An empty on-grid cell one step from `c` is among its empty neighbours.
proof fn lemma_nbr_step(gs: GridSize, tiles: Seq<Tile>, c: Position, q: Position)
    requires
        gs.in_bounds(c),
        gs.in_bounds(q),
        adjacent(c, q),
        kind_at(tiles, gs.index_of(q)) is Empty,
    ensures
        empty_nbrs(gs, tiles, c).contains(q),
{
    broadcast use vstd::seq_lib::lemma_seq_concat_contains_all_elements;

    assert(seq![q][0] == q);
    assert(seq![q].contains(q));
}

/// The corridor leads over empty tiles from its first cell to its last.
proof fn lemma_corridor_reaches(gs: GridSize, r: Seq<(bool, Option<BoostKind>)>, orient: u32, turn_positive: bool)
    requires
        gs.width >= 7,
        gs.height >= 7,
        r.len() == gs.cells(),
    ensures
        reaches(
            gs,
            fresh_tiles(gs, r, orient, turn_positive),
            Terrain::EmptyOnly,
            gs.index_of(corridor_walk(gs, orient, turn_positive)[0]),
            gs.index_of(corridor_walk(gs, orient, turn_positive)[10]),
        ),
{
    let tiles = fresh_tiles(gs, r, orient, turn_positive);
    let p = corridor_walk(gs, orient, turn_positive);
    lemma_corridor_walk(gs, r, orient, turn_positive);
    lemma_pos_walk_is_walk(gs, tiles, Terrain::EmptyOnly, p);
    let w = indices_of(gs, p);
    assert(is_walk(gs, tiles, Terrain::EmptyOnly, w) && w[0] == gs.index_of(p[0]) && w.last() == gs.index_of(p[10]));
}

/// Entrance and exit of a fresh map: one step either side of the centre.
proof fn lemma_fresh_entrance_exit(gs: GridSize, r: Seq<(bool, Option<BoostKind>)>, orient: u32, turn_positive: bool)
    requires
        gs.width >= 7,
        gs.height >= 7,
        r.len() == gs.cells(),
    ensures
        spec_entrance_exit(gs, fresh_tiles(gs, r, orient, turn_positive)) matches Some((ee, xx)) && ee.0 == off_pos(
            gs,
            dvec(orient).0,
            dvec(orient).1,
        ) && xx.0 == off_pos(gs, -dvec(orient).0, -dvec(orient).1),
{
    let (dx, dy) = dvec(orient);
    lemma_fresh_marker(gs, r, orient, turn_positive, Marker::Entrance, dx, dy);
    lemma_fresh_marker(gs, r, orient, turn_positive, Marker::Exit, -dx, -dy);
    lemma_off_cell(gs, dx, dy);
    lemma_off_cell(gs, -dx, -dy);
}

/// A fresh map on a grid of at least 7x7 has a route: the corridor leads
/// from the empty cell beyond the entrance round to the one beyond the exit.
pub(crate) proof fn lemma_fresh_route(gs: GridSize, r: Seq<(bool, Option<BoostKind>)>, orient: u32, turn_positive: bool)
    requires
        gs.wf(),
        gs.width >= 7,
        gs.height >= 7,
        r.len() == gs.cells(),
    ensures
        route_exists(gs, fresh_tiles(gs, r, orient, turn_positive)),
{
    let tiles = fresh_tiles(gs, r, orient, turn_positive);
    let (dx, dy) = dvec(orient);
    lemma_fresh_entrance_exit(gs, r, orient, turn_positive);
    let e = off_pos(gs, dx, dy);
    let x = off_pos(gs, -dx, -dy);
    let p = corridor_walk(gs, orient, turn_positive);
    lemma_corridor_reaches(gs, r, orient, turn_positive);
    lemma_corridor_walk(gs, r, orient, turn_positive);
    lemma_corridor_step(orient, turn_positive, 0);
    lemma_corridor_step(orient, turn_positive, 10);
    lemma_off_cell(gs, dx, dy);
    lemma_off_cell(gs, -dx, -dy);
    lemma_off_cell(gs, 2 * dx, 2 * dy);
    lemma_off_cell(gs, -2 * dx, -2 * dy);
    let s0 = p[0];
    let g0 = p[10];
    assert(s0 == off_pos(gs, 2 * dx, 2 * dy));
    assert(g0 == off_pos(gs, -2 * dx, -2 * dy));
    assert(kind_at(tiles, gs.index_of(s0)) is Empty);
    assert(kind_at(tiles, gs.index_of(g0)) is Empty);
    lemma_nbr_step(gs, tiles, e, s0);
    lemma_nbr_step(gs, tiles, x, g0);
    let ns = empty_nbrs(gs, tiles, e);
    let ng = empty_nbrs(gs, tiles, x);
    let a = choose|a: int| 0 <= a < ns.len() && ns[a] == s0;
    let b = choose|b: int| 0 <= b < ng.len() && ng[b] == g0;
    assert(ns[a] != ng[b]);
}

} // verus!
