//! What the player's pointer and keys do on the map: the feedback a hovered
//! tile shows, the tower hotkey, and the primary click that starts mining
//! or places a wall.

use vstd::prelude::*;
use crate::grid::{GridSize, Position, TileKind};
use crate::run::{RunState, tower_at};
use crate::interactable::{compute_interactable_mask, spec_mask_at, seed_points};

verus! {

/// What hovering a tile tells the player about building there.
#[derive(Clone, Copy, Debug, PartialEq, Eq, Structural)]
pub enum HoverStatus {
    /// The tile cannot be reached from the loop.
    OutOfReach,
    /// The run is over.
    GameOver,
    /// Towers stand on rocks and walls only.
    NeedRockWall,
    /// A tower stands here; the hotkey removes it.
    RemoveTower,
    /// The player cannot afford a tower.
    NeedGold,
    /// The hotkey builds a tower here.
    CanPlace,
}

/// What the tower hotkey does on the hovered tile.
#[derive(Clone, Copy, Debug, PartialEq, Eq, Structural)]
pub enum HotkeyOutcome {
    /// Nothing: the pointer is off the map or the run is over.
    Ignored,
    /// The tile cannot be reached from the loop.
    OutOfReach,
    /// Towers stand on rocks and walls only.
    NeedRockWall,
    /// The player cannot afford a tower.
    NeedGold,
    /// The tower standing here is removed.
    Remove,
    /// A basic tower is built here; the run is started first if it has not
    /// started, and resumed afterwards if it was paused.
    Place { start_first: bool, resume_after: bool },
}

/// What a primary click on a tile does.
#[derive(Clone, Copy, Debug, PartialEq, Eq, Structural)]
pub enum ClickOutcome {
    /// Nothing happens.
    Ignored,
    /// Mining of the rock or wall begins; the run is started first if it
    /// has not started.
    StartMining { start_run: bool },
    /// A wall is placed on the empty tile.
    PlaceWall,
}

/// The cell under a pointer at (x, y), when it is on the grid.
pub open spec fn cell_under(gs: GridSize, x: i32, y: i32) -> Option<int> {
    if x >= 0 && y >= 0 && x < gs.width && y < gs.height {
        Some(gs.index_of(Position { x: x as u32, y: y as u32 }))
    } else {
        None
    }
}

/// The cell can be reached from the loop, or borders a reachable cell.
pub open spec fn reachable_cell(rs: RunState, i: int) -> bool {
    spec_mask_at(rs.grid_size, rs.tiles@, seed_points(&rs), i)
}

/// Rocks and walls take towers and can be mined.
pub open spec fn solid(k: TileKind) -> bool {
    k is Rock || k is Wall
}

/// The hover feedback for the tile at (x, y), given which cells the player
/// can reach.
pub open spec fn spec_hover(rs: RunState, mask: Seq<bool>, x: i32, y: i32) -> Option<HoverStatus> {
    match cell_under(rs.grid_size, x, y) {
        None => None,
        Some(i) => Some(
            if !mask[i] {
                HoverStatus::OutOfReach
            } else if rs.game_over {
                HoverStatus::GameOver
            } else if !solid(rs.tiles@[i].kind) {
                HoverStatus::NeedRockWall
            } else if tower_at(rs.towers@, x as u32, y as u32) {
                HoverStatus::RemoveTower
            } else if rs.currencies.gold < rs.tower_cost {
                HoverStatus::NeedGold
            } else {
                HoverStatus::CanPlace
            },
        ),
    }
}

/// What the tower hotkey does at (x, y).
pub open spec fn spec_hotkey(rs: RunState, x: i32, y: i32) -> HotkeyOutcome {
    if x < 0 || y < 0 || rs.game_over {
        HotkeyOutcome::Ignored
    } else {
        match cell_under(rs.grid_size, x, y) {
            None => HotkeyOutcome::Ignored,
            Some(i) => if !reachable_cell(rs, i) {
                HotkeyOutcome::OutOfReach
            } else if !solid(rs.tiles@[i].kind) {
                HotkeyOutcome::NeedRockWall
            } else if tower_at(rs.towers@, x as u32, y as u32) {
                HotkeyOutcome::Remove
            } else if rs.currencies.gold < rs.tower_cost {
                HotkeyOutcome::NeedGold
            } else {
                HotkeyOutcome::Place { start_first: !rs.started, resume_after: rs.is_paused }
            },
        }
    }
}

/// What a primary click at (x, y) does.
pub open spec fn spec_click(rs: RunState, x: i32, y: i32) -> ClickOutcome {
    if rs.is_paused {
        ClickOutcome::Ignored
    } else {
        match cell_under(rs.grid_size, x, y) {
            None => ClickOutcome::Ignored,
            Some(i) => if !reachable_cell(rs, i) {
                ClickOutcome::Ignored
            } else if solid(rs.tiles@[i].kind) {
                if tower_at(rs.towers@, x as u32, y as u32) {
                    ClickOutcome::Ignored
                } else {
                    ClickOutcome::StartMining { start_run: !rs.started }
                }
            } else if rs.tiles@[i].kind is Empty {
                ClickOutcome::PlaceWall
            } else {
                ClickOutcome::Ignored
            },
        }
    }
}

/// Whether a tower stands at (x, y).
fn has_tower_at(rs: &RunState, x: u32, y: u32) -> (r: bool)
    ensures
        r == tower_at(rs.towers@, x, y),
{
    let n = rs.towers.len();
    let mut i: usize = 0;
    while i < n
        invariant
            i <= n,
            n == rs.towers@.len(),
            forall|j: int| 0 <= j < i ==> !(#[trigger] rs.towers@[j].x == x && rs.towers@[j].y == y),
        decreases n - i,
    {
        if rs.towers[i].x == x && rs.towers[i].y == y {
            return true;
        }
        i += 1;
    }
    false
}

/// The index of the on-grid cell under (x, y).
fn cell_index(gs: GridSize, x: i32, y: i32) -> (r: Option<usize>)
    requires
        gs.wf(),
    ensures
        match cell_under(gs, x, y) {
            None => r is None,
            Some(i) => r == Some(i as usize) && 0 <= i < gs.cells(),
        },
{
    if x >= 0 && y >= 0 && (x as u32) < gs.width && (y as u32) < gs.height {
        let p = Position { x: x as u32, y: y as u32 };
        proof {
            crate::grid::lemma_index_pos(gs, p);
        }
        Some((p.y * gs.width + p.x) as usize)
    } else {
        None
    }
}

/// The hover feedback for the tile at (x, y); `mask` marks the cells the
/// player can reach.
pub fn hover_status(rs: &RunState, mask: &Vec<bool>, x: i32, y: i32) -> (r: Option<HoverStatus>)
    requires
        rs.wf(),
        mask@.len() == rs.tiles@.len(),
    ensures
        r == spec_hover(*rs, mask@, x, y),
{
    match cell_index(rs.grid_size, x, y) {
        None => None,
        Some(i) => Some(
            if !mask[i] {
                HoverStatus::OutOfReach
            } else if rs.game_over {
                HoverStatus::GameOver
            } else if !matches!(rs.tiles[i].kind, TileKind::Rock { .. } | TileKind::Wall) {
                HoverStatus::NeedRockWall
            } else if has_tower_at(rs, x as u32, y as u32) {
                HoverStatus::RemoveTower
            } else if rs.currencies.gold < rs.tower_cost {
                HoverStatus::NeedGold
            } else {
                HoverStatus::CanPlace
            },
        ),
    }
}

/// What the tower hotkey does with the pointer at (x, y).
pub fn tower_hotkey(rs: &RunState, x: i32, y: i32) -> (r: HotkeyOutcome)
    requires
        rs.wf(),
    ensures
        r == spec_hotkey(*rs, x, y),
{
    if x < 0 || y < 0 || rs.game_over {
        return HotkeyOutcome::Ignored;
    }
    match cell_index(rs.grid_size, x, y) {
        None => HotkeyOutcome::Ignored,
        Some(i) => {
            let mask = compute_interactable_mask(rs);
            if !mask[i] {
                HotkeyOutcome::OutOfReach
            } else if !matches!(rs.tiles[i].kind, TileKind::Rock { .. } | TileKind::Wall) {
                HotkeyOutcome::NeedRockWall
            } else if has_tower_at(rs, x as u32, y as u32) {
                HotkeyOutcome::Remove
            } else if rs.currencies.gold < rs.tower_cost {
                HotkeyOutcome::NeedGold
            } else {
                HotkeyOutcome::Place { start_first: !rs.started, resume_after: rs.is_paused }
            }
        },
    }
}

/// What a primary click at (x, y) does.
pub fn primary_click(rs: &RunState, x: i32, y: i32) -> (r: ClickOutcome)
    requires
        rs.wf(),
    ensures
        r == spec_click(*rs, x, y),
{
    if rs.is_paused {
        return ClickOutcome::Ignored;
    }
    match cell_index(rs.grid_size, x, y) {
        None => ClickOutcome::Ignored,
        Some(i) => {
            let mask = compute_interactable_mask(rs);
            if !mask[i] {
                ClickOutcome::Ignored
            } else if matches!(rs.tiles[i].kind, TileKind::Rock { .. } | TileKind::Wall) {
                if has_tower_at(rs, x as u32, y as u32) {
                    ClickOutcome::Ignored
                } else {
                    ClickOutcome::StartMining { start_run: !rs.started }
                }
            } else if matches!(rs.tiles[i].kind, TileKind::Empty) {
                ClickOutcome::PlaceWall
            } else {
                ClickOutcome::Ignored
            }
        },
    }
}


/// What a touch starting at (x, y) does: like a click, but without the
/// reach and tower checks.
pub open spec fn spec_touch(rs: RunState, x: i32, y: i32) -> ClickOutcome {
    if rs.is_paused {
        ClickOutcome::Ignored
    } else {
        match cell_under(rs.grid_size, x, y) {
            None => ClickOutcome::Ignored,
            Some(i) => if solid(rs.tiles@[i].kind) {
                ClickOutcome::StartMining { start_run: !rs.started }
            } else if rs.tiles@[i].kind is Empty {
                ClickOutcome::PlaceWall
            } else {
                ClickOutcome::Ignored
            },
        }
    }
}

/// What a single touch starting at (x, y) does.
pub fn touch_start(rs: &RunState, x: i32, y: i32) -> (r: ClickOutcome)
    requires
        rs.wf(),
    ensures
        r == spec_touch(*rs, x, y),
{
    if rs.is_paused {
        return ClickOutcome::Ignored;
    }
    match cell_index(rs.grid_size, x, y) {
        None => ClickOutcome::Ignored,
        Some(i) => {
            if is_solid(rs.tiles[i].kind) {
                ClickOutcome::StartMining { start_run: !rs.started }
            } else if matches!(rs.tiles[i].kind, TileKind::Empty) {
                ClickOutcome::PlaceWall
            } else {
                ClickOutcome::Ignored
            }
        },
    }
}

/// Rocks and walls can be mined and take towers.
pub fn is_solid(kind: TileKind) -> (r: bool)
    ensures
        r == solid(kind),
{
    matches!(kind, TileKind::Rock { .. } | TileKind::Wall)
}
} // verus!
