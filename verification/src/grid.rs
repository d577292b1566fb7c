//! The tile grid: sizes, positions, tile kinds, and the walks that enemies
//! and the player can take over it.

use vstd::prelude::*;
use vstd::arithmetic::div_mod::lemma_fundamental_div_mod_converse;

verus! {

/// Width and height of the play area, in tiles.
#[derive(Clone, Copy, Debug, PartialEq, Eq, Structural)]
pub struct GridSize {
    pub width: u32,
    pub height: u32,
}

/// A tile coordinate; `x` grows to the right, `y` downwards.
#[derive(Clone, Copy, Debug, PartialEq, Eq, Structural)]
pub struct Position {
    pub x: u32,
    pub y: u32,
}

/// The special property a rock tile may carry; a tower built on it inherits it.
#[derive(Clone, Copy, Debug, PartialEq, Eq, Structural)]
pub enum BoostKind {
    Range,
    Damage,
    FireRate,
    Slow,
    Fire,
}

#[derive(Clone, Copy, Debug, PartialEq, Eq, Structural)]
pub enum ArrowDir {
    Up,
    Down,
    Left,
    Right,
}

#[derive(Clone, Copy, Debug, PartialEq, Eq, Structural)]
pub enum DirRole {
    Entrance,
    Exit,
}

#[derive(Clone, Copy, Debug, PartialEq, Eq, Structural)]
pub enum TileKind {
    Empty,
    Rock { has_gold: bool, boost: Option<BoostKind> },
    Wall,
    Start,
    Direction { dir: ArrowDir, role: DirRole },
    Indestructible,
    End,
}

#[derive(Clone, Copy, Debug, PartialEq, Eq, Structural)]
pub struct Tile {
    pub kind: TileKind,
    pub hardness: u8,
}

/// Which tiles a walk may pass through.
#[derive(Clone, Copy, Debug, PartialEq, Eq, Structural)]
pub enum Terrain {
    /// Only `Empty` tiles: the corridor that enemies are routed through.
    EmptyOnly,
    /// `Empty`, `Start` and `Direction` tiles: the open area the player reaches.
    Open,
}

pub open spec fn passable(t: Terrain, k: TileKind) -> bool {
    match t {
        Terrain::EmptyOnly => k is Empty,
        Terrain::Open => k is Empty || k is Start || k is Direction,
    }
}

impl GridSize {
    pub open spec fn cells(self) -> int {
        self.width * self.height
    }

    /// The grid has at most 2^31 cells, so every cell index and every walk
    /// length plus a distance estimate fits in a `u32`.
    pub open spec fn wf(self) -> bool {
        self.width * self.height <= 0x8000_0000
    }

    pub open spec fn in_bounds(self, p: Position) -> bool {
        p.x < self.width && p.y < self.height
    }

    /// Row-major index of a position.
    pub open spec fn index_of(self, p: Position) -> int {
        p.y * self.width + p.x
    }

    /// The position of a row-major index.
    pub open spec fn pos_of(self, i: int) -> Position {
        Position { x: (i % (self.width as int)) as u32, y: (i / (self.width as int)) as u32 }
    }

    /// `j` is one of the four orthogonal neighbours of `i`, both on the grid.
    pub open spec fn step(self, i: int, j: int) -> bool {
        let w = self.width as int;
        &&& 0 <= i < self.cells()
        &&& 0 <= j < self.cells()
        &&& {
            ||| (j == i + 1 && i % w + 1 < w)
            ||| (j == i - 1 && i % w > 0)
            ||| j == i + w
            ||| j == i - w
        }
    }
}

/// Two positions differ by one step up, down, left or right.
pub open spec fn adjacent(p: Position, q: Position) -> bool {
    ||| (p.x + 1 == q.x && p.y == q.y)
    ||| (q.x + 1 == p.x && p.y == q.y)
    ||| (p.y + 1 == q.y && p.x == q.x)
    ||| (q.y + 1 == p.y && p.x == q.x)
}

/// The kind of the tile at row-major index `i`.
pub open spec fn kind_at(tiles: Seq<Tile>, i: int) -> TileKind {
    tiles[i].kind
}

/// A walk over cell indices: at least one cell, every cell passable,
/// consecutive cells orthogonal neighbours.
pub open spec fn is_walk(gs: GridSize, tiles: Seq<Tile>, t: Terrain, w: Seq<int>) -> bool {
    &&& w.len() >= 1
    &&& forall|k: int| 0 <= k < w.len() ==> 0 <= #[trigger] w[k] < gs.cells()
    &&& forall|k: int| 0 <= k < w.len() ==> passable(t, #[trigger] kind_at(tiles, w[k]))
    &&& forall|k: int| 0 <= k < w.len() - 1 ==> gs.step(#[trigger] w[k], w[k + 1])
}

/// Cell `b` can be reached from cell `a` by a walk over terrain `t`.
pub open spec fn reaches(gs: GridSize, tiles: Seq<Tile>, t: Terrain, a: int, b: int) -> bool {
    exists|w: Seq<int>| #[trigger] is_walk(gs, tiles, t, w) && w[0] == a && w.last() == b
}

/// A walk over positions: at least one position, all on the grid and
/// passable, consecutive positions adjacent.
pub open spec fn is_pos_walk(gs: GridSize, tiles: Seq<Tile>, t: Terrain, p: Seq<Position>) -> bool {
    &&& p.len() >= 1
    &&& forall|k: int| 0 <= k < p.len() ==> gs.in_bounds(#[trigger] p[k])
    &&& forall|k: int| 0 <= k < p.len() ==> passable(t, #[trigger] kind_at(tiles, gs.index_of(p[k])))
    &&& forall|k: int| 0 <= k < p.len() - 1 ==> adjacent(#[trigger] p[k], p[k + 1])
}

/// The cells of a position walk, in order.
pub open spec fn indices_of(gs: GridSize, p: Seq<Position>) -> Seq<int> {
    p.map_values(|q: Position| gs.index_of(q))
}

/// Row-major index and position agree: the index of an on-grid position is a
/// cell, and the position of that cell is the position again.
pub proof fn lemma_index_pos(gs: GridSize, p: Position)
    requires
        gs.in_bounds(p),
    ensures
        0 <= gs.index_of(p) < gs.cells(),
        gs.pos_of(gs.index_of(p)) == p,
        gs.index_of(p) % (gs.width as int) == p.x,
        gs.index_of(p) / (gs.width as int) == p.y,
{
    let w = gs.width as int;
    let i = gs.index_of(p);
    lemma_fundamental_div_mod_converse(i, w, p.y as int, p.x as int);
    assert(p.y * w + p.x < gs.height * w) by (nonlinear_arith)
        requires
            p.y < gs.height,
            p.x < w,
    ;
    assert(gs.width * gs.height == gs.height * gs.width) by (nonlinear_arith);
}

/// The position of a cell is on the grid, and indexes that cell.
pub proof fn lemma_pos_index(gs: GridSize, i: int)
    requires
        0 <= i < gs.cells(),
    ensures
        gs.in_bounds(gs.pos_of(i)),
        gs.index_of(gs.pos_of(i)) == i,
        0 <= i % (gs.width as int) < gs.width,
        0 <= i / (gs.width as int) < gs.height,
        i == (i / (gs.width as int)) * gs.width + i % (gs.width as int),
{
    let w = gs.width as int;
    let h = gs.height as int;
    assert(w > 0) by (nonlinear_arith)
        requires
            0 <= i < w * h,
            h >= 0,
    ;
    let q = i / w;
    let r = i % w;
    assert(i == w * q + r && 0 <= r < w) by (nonlinear_arith)
        requires
            w > 0,
            q == i / w,
            r == i % w,
    ;
    assert(q < h) by (nonlinear_arith)
        requires
            i == w * q + r,
            0 <= r,
            i < w * h,
            w > 0,
    ;
    assert(q * w == w * q) by (nonlinear_arith);
}

/// The coordinates of a cell, and how the grid's edges show in its index.
pub proof fn lemma_cell_coords(gs: GridSize, i: int)
    requires
        0 <= i < gs.cells(),
    ensures
        gs.width > 0,
        gs.height > 0,
        0 <= i % (gs.width as int) < gs.width,
        0 <= i / (gs.width as int) < gs.height,
        i == (i / (gs.width as int)) * gs.width + i % (gs.width as int),
        (i + gs.width < gs.cells()) <==> (i / (gs.width as int) + 1 < gs.height),
        (i >= gs.width) <==> (i / (gs.width as int) >= 1),
        gs.width + gs.height <= gs.cells() + 1,
        i % (gs.width as int) + 1 < gs.width ==> i + 1 < gs.cells(),
{
    let w = gs.width as int;
    let h = gs.height as int;
    lemma_pos_index(gs, i);
    let x = i % w;
    let y = i / w;
    assert(i == y * w + x);
    assert(w > 0 && h > 0) by (nonlinear_arith)
        requires
            0 <= i < w * h,
            w >= 0,
            h >= 0,
    ;
    assert((y + 1) * w == y * w + w) by (nonlinear_arith);
    assert((i + w < w * h) <==> (y + 1 < h)) by (nonlinear_arith)
        requires
            i == y * w + x,
            0 <= x < w,
            0 <= y < h,
    ;
    assert((i >= w) <==> (y >= 1)) by (nonlinear_arith)
        requires
            i == y * w + x,
            0 <= x < w,
            0 <= y,
    ;
    assert(x + 1 < w ==> i + 1 < w * h) by (nonlinear_arith)
        requires
            i == y * w + x,
            0 <= x < w,
            0 <= y < h,
    ;
    assert(w + h <= w * h + 1) by (nonlinear_arith)
        requires
            w >= 1,
            h >= 1,
    ;
}

/// On the grid, adjacency of positions is the neighbour relation of their indices.
pub proof fn lemma_adjacent_step(gs: GridSize, p: Position, q: Position)
    requires
        gs.in_bounds(p),
        gs.in_bounds(q),
    ensures
        adjacent(p, q) <==> gs.step(gs.index_of(p), gs.index_of(q)),
{
    let w = gs.width as int;
    let i = gs.index_of(p);
    let j = gs.index_of(q);
    lemma_index_pos(gs, p);
    lemma_index_pos(gs, q);
    assert((p.y + 1) * w == p.y * w + w) by (nonlinear_arith);
    assert((q.y + 1) * w == q.y * w + w) by (nonlinear_arith);
    if gs.step(i, j) {
        if j == i + 1 && i % w + 1 < w {
            lemma_fundamental_div_mod_converse(j, w, p.y as int, p.x + 1);
        } else if j == i - 1 && i % w > 0 {
            lemma_fundamental_div_mod_converse(j, w, p.y as int, p.x - 1);
        } else if j == i + w {
            lemma_fundamental_div_mod_converse(j, w, p.y + 1, p.x as int);
        } else {
            assert((p.y - 1) * w == p.y * w - w) by (nonlinear_arith);
            lemma_fundamental_div_mod_converse(j, w, p.y - 1, p.x as int);
        }
    }
}

/// A position walk, read as cell indices, is a walk.
pub proof fn lemma_pos_walk_is_walk(gs: GridSize, tiles: Seq<Tile>, t: Terrain, p: Seq<Position>)
    requires
        is_pos_walk(gs, tiles, t, p),
    ensures
        is_walk(gs, tiles, t, indices_of(gs, p)),
        indices_of(gs, p).len() == p.len(),
        forall|k: int| 0 <= k < p.len() ==> #[trigger] indices_of(gs, p)[k] == gs.index_of(p[k]),
{
    let w = indices_of(gs, p);
    assert forall|k: int| 0 <= k < w.len() implies 0 <= #[trigger] w[k] < gs.cells() by {
        lemma_index_pos(gs, p[k]);
    }
    assert forall|k: int| 0 <= k < w.len() - 1 implies gs.step(#[trigger] w[k], w[k + 1]) by {
        assert(adjacent(p[k], p[k + 1]));
        lemma_adjacent_step(gs, p[k], p[k + 1]);
    }
    assert forall|k: int| 0 <= k < w.len() implies passable(t, #[trigger] kind_at(tiles, w[k])) by {
        assert(passable(t, kind_at(tiles, gs.index_of(p[k]))));
    }
}

/// Extending a walk by one neighbouring passable cell gives a walk.
pub proof fn lemma_walk_push(gs: GridSize, tiles: Seq<Tile>, t: Terrain, w: Seq<int>, c: int)
    requires
        is_walk(gs, tiles, t, w),
        gs.step(w.last(), c),
        passable(t, kind_at(tiles, c)),
    ensures
        is_walk(gs, tiles, t, w.push(c)),
        w.push(c)[0] == w[0],
        w.push(c).last() == c,
{
    let v = w.push(c);
    assert forall|k: int| 0 <= k < v.len() - 1 implies gs.step(#[trigger] v[k], v[k + 1]) by {
        if k < w.len() - 1 {
            assert(v[k] == w[k] && v[k + 1] == w[k + 1]);
        } else {
            assert(v[k] == w.last());
        }
    }
    assert forall|k: int| 0 <= k < v.len() implies passable(t, #[trigger] kind_at(tiles, v[k])) by {
        if k < w.len() {
            assert(v[k] == w[k]);
        }
    }
    assert forall|k: int| 0 <= k < v.len() implies 0 <= #[trigger] v[k] < gs.cells() by {
        if k < w.len() {
            assert(v[k] == w[k]);
        }
    }
}

/// A single passable cell is a walk to itself.
pub proof fn lemma_walk_single(gs: GridSize, tiles: Seq<Tile>, t: Terrain, c: int)
    requires
        0 <= c < gs.cells(),
        passable(t, kind_at(tiles, c)),
    ensures
        is_walk(gs, tiles, t, seq![c]),
        reaches(gs, tiles, t, c, c),
{
    let w = seq![c];
    assert(w[0] == c);
    assert(is_walk(gs, tiles, t, w));
}

} // verus!
