//! A run: the grid, the player's currencies and life, the towers, and the
//! reducer that applies the player's actions and the clock's ticks.

use vstd::prelude::*;
use crate::grid::{GridSize, Position, Tile, TileKind, BoostKind};
use crate::records::RunStats;
use crate::upgrades::{UpgradeId, UpgradeState, spec_play_area_size};
use crate::pathfind::{compute_path, build_loop_path, route_exists, is_route, no_shorter_route, first_shortest_pair, spec_loop_path};
use crate::worldgen::{GenRolls, generate_tiles, fresh_tiles, gold_rocks_in, min_gold_tiles};
use crate::interactable::is_first_start;

verus! {

/// The currencies of a run.
#[derive(Clone, Copy, Debug, Default, PartialEq, Eq, Structural)]
pub struct Currencies {
    pub gold: u64,
    pub research: u64,
    pub tile_credits: u64,
}

#[derive(Clone, Copy, Debug, PartialEq, Eq, Structural)]
pub enum TowerKind {
    Basic,
    Slow,
    Damage,
}

/// Effects over time that a hit can leave on an enemy.
#[derive(Clone, Copy, Debug, PartialEq, Eq, Structural)]
pub enum DebuffKind {
    Slow,
    Poison,
    Burn,
    Freeze,
}

/// The debuff a tower's shots carry, by the boost of its tile: cold tiles
/// slow, poison tiles poison, fire tiles burn; healing and fire-rate tiles,
/// and plain tiles, carry none.
pub open spec fn spec_debuff_kind(boost: Option<BoostKind>) -> Option<DebuffKind> {
    match boost {
        Some(BoostKind::Slow) => Some(DebuffKind::Slow),
        Some(BoostKind::Damage) => Some(DebuffKind::Poison),
        Some(BoostKind::Fire) => Some(DebuffKind::Burn),
        _ => None,
    }
}

/// The debuff a tower's shots carry, by the boost of its tile.
pub fn debuff_kind_of_boost(boost: Option<BoostKind>) -> (r: Option<DebuffKind>)
    ensures
        r == spec_debuff_kind(boost),
{
    match boost {
        Some(BoostKind::Slow) => Some(DebuffKind::Slow),
        Some(BoostKind::Damage) => Some(DebuffKind::Poison),
        Some(BoostKind::Fire) => Some(DebuffKind::Burn),
        _ => None,
    }
}

/// A tower: where it stands, what kind it is, its damage per shot and the
/// boost of the tile it was built on.
#[derive(Clone, Copy, Debug, PartialEq, Eq, Structural)]
pub struct Tower {
    pub x: u32,
    pub y: u32,
    pub kind: TowerKind,
    pub damage: u32,
    pub boost: Option<BoostKind>,
}

/// The discrete state of a run. Range, rate of fire, positions of enemies and
/// projectiles, and the other continuous quantities live beside it.
#[derive(Clone, Debug)]
pub struct RunState {
    pub grid_size: GridSize,
    pub tiles: Vec<Tile>,
    pub currencies: Currencies,
    pub stats: RunStats,
    pub life: u32,
    pub started: bool,
    pub is_paused: bool,
    pub path: Vec<Position>,
    pub path_loop: Vec<Position>,
    /// Second of the run at which the last enemy appeared.
    pub last_enemy_spawn_time_secs: u64,
    pub version: u64,
    pub game_over: bool,
    pub last_mined_idx: Option<usize>,
    pub towers: Vec<Tower>,
    pub tower_base_damage: u32,
    pub tower_cost: u64,
    pub run_id: u64,
    pub life_max: u32,
    /// Life regenerated per second, in half points.
    pub life_regen_halves_per_sec: u32,
    /// Regenerated life not yet granted, in half points (0 or 1).
    pub life_regen_accum_halves: u32,
    pub gold_bounty_per_kill: u64,
    /// Gold from a gold rock, in percent of one gold.
    pub mining_gold_pct: u64,
    /// Refund for a removed tower, in percent of its cost.
    pub tower_refund_pct: u64,
    /// Levels of StartingGold already granted to this run.
    pub starting_gold_applied_level: u8,
    /// Total upgrade levels bought; enemies scale with it.
    pub player_power_level: u32,
    /// Life each healing tower restores every two seconds, in half points.
    pub healing_heal_halves_per_tick: u32,
    /// Seconds since the last healing pulse.
    pub healing_tile_timer: u32,
}

/// Everything a run holds, with sequences in place of vectors.
pub struct RunView {
    pub grid_size: GridSize,
    pub tiles: Seq<Tile>,
    pub currencies: Currencies,
    pub stats: RunStats,
    pub life: u32,
    pub started: bool,
    pub is_paused: bool,
    pub path: Seq<Position>,
    pub path_loop: Seq<Position>,
    pub last_enemy_spawn_time_secs: u64,
    pub version: u64,
    pub game_over: bool,
    pub last_mined_idx: Option<usize>,
    pub towers: Seq<Tower>,
    pub tower_base_damage: u32,
    pub tower_cost: u64,
    pub run_id: u64,
    pub life_max: u32,
    pub life_regen_halves_per_sec: u32,
    pub life_regen_accum_halves: u32,
    pub gold_bounty_per_kill: u64,
    pub mining_gold_pct: u64,
    pub tower_refund_pct: u64,
    pub starting_gold_applied_level: u8,
    pub player_power_level: u32,
    pub healing_heal_halves_per_tick: u32,
    pub healing_tile_timer: u32,
}

impl View for RunState {
    type V = RunView;

    open spec fn view(&self) -> RunView {
        RunView {
            grid_size: self.grid_size,
            tiles: self.tiles@,
            currencies: self.currencies,
            stats: self.stats,
            life: self.life,
            started: self.started,
            is_paused: self.is_paused,
            path: self.path@,
            path_loop: self.path_loop@,
            last_enemy_spawn_time_secs: self.last_enemy_spawn_time_secs,
            version: self.version,
            game_over: self.game_over,
            last_mined_idx: self.last_mined_idx,
            towers: self.towers@,
            tower_base_damage: self.tower_base_damage,
            tower_cost: self.tower_cost,
            run_id: self.run_id,
            life_max: self.life_max,
            life_regen_halves_per_sec: self.life_regen_halves_per_sec,
            life_regen_accum_halves: self.life_regen_accum_halves,
            gold_bounty_per_kill: self.gold_bounty_per_kill,
            mining_gold_pct: self.mining_gold_pct,
            tower_refund_pct: self.tower_refund_pct,
            starting_gold_applied_level: self.starting_gold_applied_level,
            player_power_level: self.player_power_level,
            healing_heal_halves_per_tick: self.healing_heal_halves_per_tick,
            healing_tile_timer: self.healing_tile_timer,
        }
    }
}

impl RunState {
    /// The corridor is a shortest route for the current tiles, between the
    /// first pair of entrance and exit neighbours whose routes are shortest,
    /// and the loop is built from it.
    pub open spec fn routed(&self) -> bool {
        &&& is_route(self.grid_size, self.tiles@, self.path@)
        &&& no_shorter_route(self.grid_size, self.tiles@, self.path@)
        &&& self.path@.len() > 0 ==> first_shortest_pair(self.grid_size, self.tiles@, self.path@)
        &&& self.path_loop@ == spec_loop_path(self.grid_size, self.tiles@, self.path@)
    }

    /// The grid and its tiles agree, life is within its maximum, a run
    /// with no life left is over, the regeneration and healing counters are
    /// below their thresholds, and towers stand on distinct tiles of the
    /// grid.
    pub open spec fn wf(&self) -> bool {
        &&& self.grid_size.wf()
        &&& self.tiles@.len() == self.grid_size.cells()
        &&& self.life <= self.life_max
        &&& self.life == 0 ==> self.game_over
        &&& self.life_regen_accum_halves < 2
        &&& self.healing_tile_timer < 2
        &&& forall|i: int| 0 <= i < self.towers@.len() ==> self.grid_size.in_bounds(
            Position { x: (#[trigger] self.towers@[i]).x, y: self.towers@[i].y },
        )
        &&& forall|i: int, j: int|
            0 <= i < self.towers@.len() && 0 <= j < self.towers@.len() && i != j ==> !(#[trigger] self.towers@[i].x
                == #[trigger] self.towers@[j].x && self.towers@[i].y == self.towers@[j].y)
    }
}

/// `a * 2`, saturating at `u32::MAX`.
pub open spec fn double_sat(a: u32) -> u32 {
    if a as int * 2 > u32::MAX { u32::MAX } else { (a * 2) as u32 }
}

/// Damage per shot of a tower kind, from the base damage of the run.
pub open spec fn kind_damage(kind: TowerKind, base: u32) -> u32 {
    match kind {
        TowerKind::Basic => base,
        TowerKind::Slow => if base / 2 >= 1 { (base / 2) as u32 } else { 1 },
        TowerKind::Damage => double_sat(base),
    }
}

impl Tower {
    /// A tower of `kind` at (x, y) on a tile with `boost`: Basic towers deal
    /// the base damage, Slow towers half of it (at least 1), Damage towers
    /// twice it (saturating).
    pub fn new(x: u32, y: u32, kind: TowerKind, base_damage: u32, boost: Option<BoostKind>) -> (t: Tower)
        ensures
            t == (Tower { x, y, kind, damage: kind_damage(kind, base_damage), boost }),
    {
        let damage = match kind {
            TowerKind::Basic => base_damage,
            TowerKind::Slow => if base_damage / 2 >= 1 { base_damage / 2 } else { 1 },
            TowerKind::Damage => if base_damage > u32::MAX / 2 { u32::MAX } else { base_damage * 2 },
        };
        Tower { x, y, kind, damage, boost }
    }
}

/// `a / b` rounded to the nearest integer, halves up.
pub open spec fn round_div(a: int, b: int) -> int {
    (2 * a + b) / (2 * b)
}

/// Damage of a tower once the upgrades `ups` apply: the damage of its kind
/// from the run's base damage, raised by 5% per BoostPoisonDamage level on a
/// poison (Damage) tile, rounded, at least 1.
pub open spec fn upgraded_tower_damage(t: Tower, base: u32, ups: UpgradeState) -> u32 {
    let pct: int = if t.boost == Some(BoostKind::Damage) {
        100 + 5 * ups.level_of(UpgradeId::BoostPoisonDamage)
    } else {
        100
    };
    let d = round_div(kind_damage(t.kind, base) * pct, 100);
    if d == 0 { 1 } else { d as u32 }
}

/// Sum of all upgrade levels.
pub open spec fn levels_total(ups: UpgradeState, k: int) -> int
    decreases k,
{
    if k <= 0 {
        0
    } else {
        levels_total(ups, k - 1) + ups.level_of(crate::upgrades::def_id_at(k - 1))
    }
}

/// `post` is `pre` with the upgrades `ups` applied.
pub open spec fn upgrades_applied(pre: RunView, post: RunView, ups: UpgradeState) -> bool {
    let lv = |id: UpgradeId| ups.level_of(id) as int;
    let pre_run = pre.stats.time_survived_secs == 0 && !pre.started;
    let sg = ups.level_of(UpgradeId::StartingGold);
    let life_max = 10 + 5 * lv(UpgradeId::HealthStart);
    let base = (2 * (100 + 12 * lv(UpgradeId::TowerDamage1))) / 100;
    &&& post.player_power_level == levels_total(ups, crate::upgrades::UPGRADE_COUNT as int)
    &&& post.tower_base_damage == base
    &&& post.life_regen_halves_per_sec == lv(UpgradeId::LifeRegen)
    &&& post.healing_heal_halves_per_tick == if lv(UpgradeId::BoostHealingPower) > 0 {
        1 + lv(UpgradeId::BoostHealingPower)
    } else {
        pre.healing_heal_halves_per_tick as int
    }
    &&& post.mining_gold_pct == 100 + 15 * lv(UpgradeId::GoldTileReward)
    &&& post.gold_bounty_per_kill == lv(UpgradeId::KillBounty)
    &&& post.tower_refund_pct == 100 + 20 * lv(UpgradeId::ResourceRecovery)
    &&& post.life_max == life_max
    &&& post.life == if pre_run { life_max } else if pre.life > life_max { life_max } else { pre.life as int }
    &&& post.currencies.gold == if pre_run && sg > pre.starting_gold_applied_level {
        let g = pre.currencies.gold + 2 * (sg - pre.starting_gold_applied_level);
        if g > u64::MAX { u64::MAX as int } else { g }
    } else {
        pre.currencies.gold as int
    }
    &&& post.starting_gold_applied_level == if pre_run && sg > pre.starting_gold_applied_level {
        sg
    } else {
        pre.starting_gold_applied_level
    }
    &&& post.towers.len() == pre.towers.len()
    &&& forall|i: int| 0 <= i < pre.towers.len() ==> #[trigger] post.towers[i] == (Tower {
        damage: upgraded_tower_damage(pre.towers[i], base as u32, ups),
        ..pre.towers[i]
    })
    &&& post.currencies.research == pre.currencies.research
    &&& post.currencies.tile_credits == pre.currencies.tile_credits
    &&& post.grid_size == pre.grid_size
    &&& post.tiles == pre.tiles
    &&& post.stats == pre.stats
    &&& post.started == pre.started
    &&& post.is_paused == pre.is_paused
    &&& post.path == pre.path
    &&& post.path_loop == pre.path_loop
    &&& post.last_enemy_spawn_time_secs == pre.last_enemy_spawn_time_secs
    &&& post.version == pre.version
    &&& post.game_over == pre.game_over
    &&& post.last_mined_idx == pre.last_mined_idx
    &&& post.tower_cost == pre.tower_cost
    &&& post.run_id == pre.run_id
    &&& post.life_regen_accum_halves == pre.life_regen_accum_halves
    &&& post.healing_tile_timer == pre.healing_tile_timer
}

/// Sum of all upgrade levels.
fn total_levels(ups: &UpgradeState) -> (r: u32)
    ensures
        r == levels_total(*ups, crate::upgrades::UPGRADE_COUNT as int),
{
    let mut sum: u32 = 0;
    let mut k: usize = 0;
    while k < crate::upgrades::UPGRADE_COUNT
        invariant
            k <= crate::upgrades::UPGRADE_COUNT,
            sum == levels_total(*ups, k as int),
            sum <= 10 * k,
        decreases crate::upgrades::UPGRADE_COUNT - k,
    {
        let id = UpgradeId::at_def_index(k);
        let l = ups.level(id);
        proof {
            crate::upgrades::lemma_def_bounds(id);
        }
        sum = sum + l as u32;
        k += 1;
    }
    sum
}

/// Applies the upgrades to a run. Base values follow the levels bought;
/// before the run starts (no second survived, not started) life is set to
/// its maximum and StartingGold levels not yet granted add 2 gold each;
/// afterwards life is only capped at the maximum and gold is left alone;
/// every tower's damage is recomputed.
pub fn apply_upgrades_to_run(run: &mut RunState, ups: &UpgradeState)
    ensures
        upgrades_applied(old(run)@, final(run)@, *ups),
{
    let ghost pre = *run;
    let lv_td = ups.level(UpgradeId::TowerDamage1);
    let lv_hs = ups.level(UpgradeId::HealthStart);
    let lv_lr = ups.level(UpgradeId::LifeRegen);
    let lv_hp = ups.level(UpgradeId::BoostHealingPower);
    let lv_gr = ups.level(UpgradeId::GoldTileReward);
    let lv_kb = ups.level(UpgradeId::KillBounty);
    let lv_rr = ups.level(UpgradeId::ResourceRecovery);
    let lv_sg = ups.level(UpgradeId::StartingGold);
    let lv_pd = ups.level(UpgradeId::BoostPoisonDamage);
    run.player_power_level = total_levels(ups);
    run.tower_base_damage = (2 * (100 + 12 * (lv_td as u32))) / 100;
    run.life_regen_halves_per_sec = lv_lr as u32;
    if lv_hp > 0 {
        run.healing_heal_halves_per_tick = 1 + lv_hp as u32;
    }
    run.mining_gold_pct = 100 + 15 * (lv_gr as u64);
    run.gold_bounty_per_kill = lv_kb as u64;
    run.tower_refund_pct = 100 + 20 * (lv_rr as u64);
    let life_max = 10 + 5 * (lv_hs as u32);
    if run.stats.time_survived_secs == 0 && !run.started {
        run.life_max = life_max;
        run.life = life_max;
        if lv_sg > run.starting_gold_applied_level {
            let delta = lv_sg - run.starting_gold_applied_level;
            run.currencies.gold = run.currencies.gold.saturating_add(2 * (delta as u64));
            run.starting_gold_applied_level = lv_sg;
        }
    }
    run.life_max = life_max;
    if run.life > run.life_max {
        run.life = run.life_max;
    }
    let base = run.tower_base_damage;
    let poison_pct: u64 = 100 + 5 * (lv_pd as u64);
    let mut towers: Vec<Tower> = Vec::new();
    std::mem::swap(&mut towers, &mut run.towers);
    let n = towers.len();
    let mut i: usize = 0;
    while i < n
        invariant
            n == towers@.len(),
            n == pre.towers@.len(),
            i <= n,
            base <= 3,
            poison_pct == 100 + 5 * ups.level_of(UpgradeId::BoostPoisonDamage),
            poison_pct <= 125,
            forall|j: int| 0 <= j < i ==> #[trigger] towers@[j] == (Tower {
                damage: upgraded_tower_damage(pre.towers@[j], base, *ups),
                ..pre.towers@[j]
            }),
            forall|j: int| i <= j < n ==> #[trigger] towers@[j] == pre.towers@[j],
        decreases n - i,
    {
        let t = towers[i];
        let kd = match t.kind {
            TowerKind::Basic => base,
            TowerKind::Slow => if base / 2 >= 1 { base / 2 } else { 1 },
            TowerKind::Damage => if base > u32::MAX / 2 { u32::MAX } else { base * 2 },
        };
        let pct: u64 = match t.boost {
            Some(BoostKind::Damage) => poison_pct,
            _ => 100,
        };
        assert(kd == kind_damage(t.kind, base));
        assert(kd <= 6);
        assert(t == pre.towers@[i as int]);
        assert(2 * (kd as u64) * pct + 100 <= 2000) by (nonlinear_arith)
            requires
                kd <= 6,
                pct <= 125,
        ;
        let d = (2 * (kd as u64) * pct + 100) / 200;
        let dmg: u32 = if d == 0 { 1 } else { d as u32 };
        assert(dmg == upgraded_tower_damage(t, base, *ups)) by {
            assert(2 * (kd as int * pct as int) == 2 * (kd as int) * pct as int) by (nonlinear_arith);
            assert(round_div(kd * pct, 100) == d);
        }
        towers.set(i, Tower { damage: dmg, ..t });
        i += 1;
    }
    run.towers = towers;
}

/// `rs` is a fresh run on grid `gs` with tiles `tiles`: 2 gold, 10 life,
/// base tower damage 2, tower cost 2, nothing started, no towers, its
/// corridor and loop computed.
pub open spec fn fresh_run(gs: GridSize, tiles: Seq<Tile>, rs: RunView) -> bool {
    &&& rs.grid_size == gs
    &&& rs.tiles == tiles
    &&& rs.currencies == (Currencies { gold: 2, research: 0, tile_credits: 0 })
    &&& rs.stats == (RunStats { time_survived_secs: 0, loops_completed: 0, blocks_mined: 0 })
    &&& rs.life == 10
    &&& !rs.started
    &&& !rs.is_paused
    &&& rerouted(rs)
    &&& rs.last_enemy_spawn_time_secs == 0
    &&& rs.version == 0
    &&& !rs.game_over
    &&& rs.last_mined_idx is None
    &&& rs.towers.len() == 0
    &&& rs.tower_base_damage == 2
    &&& rs.tower_cost == 2
    &&& rs.run_id == 0
    &&& rs.life_max == 10
    &&& rs.life_regen_halves_per_sec == 0
    &&& rs.life_regen_accum_halves == 0
    &&& rs.gold_bounty_per_kill == 0
    &&& rs.mining_gold_pct == 100
    &&& rs.tower_refund_pct == 100
    &&& rs.starting_gold_applied_level == 0
    &&& rs.player_power_level == 0
    &&& rs.healing_heal_halves_per_tick == 0
    &&& rs.healing_tile_timer == 0
}

/// The tiles of a fresh map for the rolls.
pub open spec fn generated_map(gs: GridSize, rolls: GenRolls) -> Seq<Tile> {
    fresh_tiles(gs, rolls.tiles@, rolls.orient, rolls.turn_positive)
}

/// The boost kinds the bought upgrades unlock, in the order Slow (cold),
/// Damage (poison), Range (healing), Fire.
pub open spec fn spec_unlocked_boosts(ups: UpgradeState) -> Seq<BoostKind> {
    let a: Seq<BoostKind> = if ups.level_of(UpgradeId::BoostColdUnlock) > 0 {
        seq![BoostKind::Slow]
    } else {
        Seq::empty()
    };
    let b = if ups.level_of(UpgradeId::BoostPoisonUnlock) > 0 { a.push(BoostKind::Damage) } else { a };
    let c = if ups.level_of(UpgradeId::BoostHealingUnlock) > 0 { b.push(BoostKind::Range) } else { b };
    if ups.level_of(UpgradeId::BoostFireUnlock) > 0 { c.push(BoostKind::Fire) } else { c }
}

/// The boost kinds that may appear on a map for the bought upgrades: each
/// once its unlock is bought.
pub fn unlocked_boosts(ups: &UpgradeState) -> (r: Vec<BoostKind>)
    ensures
        r@ == spec_unlocked_boosts(*ups),
{
    let mut r: Vec<BoostKind> = Vec::new();
    if ups.level(UpgradeId::BoostColdUnlock) > 0 {
        r.push(BoostKind::Slow);
    }
    if ups.level(UpgradeId::BoostPoisonUnlock) > 0 {
        r.push(BoostKind::Damage);
    }
    if ups.level(UpgradeId::BoostHealingUnlock) > 0 {
        r.push(BoostKind::Range);
    }
    if ups.level(UpgradeId::BoostFireUnlock) > 0 {
        r.push(BoostKind::Fire);
    }
    r
}

/// Every boost the rolls carry is one of `kinds`.
pub open spec fn rolls_within(rolls: Seq<(bool, Option<BoostKind>)>, kinds: Seq<BoostKind>) -> bool {
    forall|i: int| 0 <= i < rolls.len() ==> ((#[trigger] rolls[i]).1 matches Some(b) ==> kinds.contains(b))
}

/// Every boost a rock of `tiles` carries is one of `kinds`.
pub open spec fn boosts_within(tiles: Seq<Tile>, kinds: Seq<BoostKind>) -> bool {
    forall|i: int| 0 <= i < tiles.len() ==> match (#[trigger] tiles[i]).kind {
        TileKind::Rock { boost: Some(b), .. } => kinds.contains(b),
        _ => true,
    }
}

/// A fresh map carries only the boosts its rolls carry.
proof fn lemma_map_boosts(gs: GridSize, rolls: GenRolls, kinds: Seq<BoostKind>)
    requires
        rolls.tiles@.len() == gs.cells(),
        rolls_within(rolls.tiles@, kinds),
    ensures
        boosts_within(generated_map(gs, rolls), kinds),
{
    let t = generated_map(gs, rolls);
    assert forall|i: int| 0 <= i < t.len() implies match (#[trigger] t[i]).kind {
        TileKind::Rock { boost: Some(b), .. } => kinds.contains(b),
        _ => true,
    } by {
        assert(t[i] == crate::worldgen::generated_tile(gs, rolls.tiles@, rolls.orient, rolls.turn_positive, i));
        let _ = rolls.tiles@[i];
    }
}

impl RunState {
    /// A fresh run on the map the rolls describe, whose boosts are among
    /// `boost_kinds`. On a grid of at least 3x3 at least 8% of the tiles
    /// (rounded) are gold rocks.
    pub fn create_run_base(gs: GridSize, boost_kinds: &Vec<BoostKind>, rolls: &GenRolls) -> (rs: RunState)
        requires
            gs.wf(),
            rolls.tiles@.len() == gs.cells(),
            rolls_within(rolls.tiles@, boost_kinds@),
        ensures
            rs.wf(),
            fresh_run(gs, generated_map(gs, *rolls), rs@),
            boosts_within(rs@.tiles, boost_kinds@),
            gs.width >= 3 && gs.height >= 3 ==> gold_rocks_in(rs@.tiles, gs.cells()) >= min_gold_tiles(gs.cells()),
    {
        let tiles = generate_tiles(gs, rolls);
        assert(tiles@ =~= generated_map(gs, *rolls));
        proof {
            lemma_map_boosts(gs, *rolls, boost_kinds@);
        }
        let path = compute_path(gs, &tiles);
        let path_loop = build_loop_path(gs, &tiles, &path);
        RunState {
            grid_size: gs,
            tiles,
            currencies: Currencies { gold: 2, research: 0, tile_credits: 0 },
            stats: RunStats { time_survived_secs: 0, loops_completed: 0, blocks_mined: 0 },
            life: 10,
            started: false,
            is_paused: false,
            path,
            path_loop,
            last_enemy_spawn_time_secs: 0,
            version: 0,
            game_over: false,
            last_mined_idx: None,
            towers: Vec::new(),
            tower_base_damage: 2,
            tower_cost: 2,
            run_id: 0,
            life_max: 10,
            life_regen_halves_per_sec: 0,
            life_regen_accum_halves: 0,
            gold_bounty_per_kill: 0,
            mining_gold_pct: 100,
            tower_refund_pct: 100,
            starting_gold_applied_level: 0,
            player_power_level: 0,
            healing_heal_halves_per_tick: 0,
            healing_tile_timer: 0,
        }
    }

    /// A fresh run without upgrades: its rolls carry no boost, so no rock
    /// does.
    pub fn new_basic(gs: GridSize, rolls: &GenRolls) -> (rs: RunState)
        requires
            gs.wf(),
            rolls.tiles@.len() == gs.cells(),
            rolls_within(rolls.tiles@, Seq::empty()),
        ensures
            rs.wf(),
            fresh_run(gs, generated_map(gs, *rolls), rs@),
            boosts_within(rs@.tiles, Seq::empty()),
            gs.width >= 3 && gs.height >= 3 ==> gold_rocks_in(rs@.tiles, gs.cells()) >= min_gold_tiles(gs.cells()),
    {
        let none: Vec<BoostKind> = Vec::new();
        assert(none@ =~= Seq::<BoostKind>::empty());
        RunState::create_run_base(gs, &none, rolls)
    }

    /// A fresh run with the upgrades applied; its rolls carry only boosts
    /// the upgrades unlock, so its rocks do too.
    pub fn new_with_upgrades(base: GridSize, ups: &UpgradeState, rolls: &GenRolls) -> (rs: RunState)
        requires
            base.wf(),
            rolls.tiles@.len() == base.cells(),
            rolls_within(rolls.tiles@, spec_unlocked_boosts(*ups)),
        ensures
            rs.wf(),
            exists|f: RunView| fresh_run(base, generated_map(base, *rolls), f) && #[trigger] upgrades_applied(f, rs@, *ups),
            boosts_within(rs@.tiles, spec_unlocked_boosts(*ups)),
            base.width >= 3 && base.height >= 3 ==> gold_rocks_in(rs@.tiles, base.cells()) >= min_gold_tiles(base.cells()),
    {
        let kinds = unlocked_boosts(ups);
        let mut rs = RunState::create_run_base(base, &kinds, rolls);
        let ghost f = rs@;
        apply_upgrades_to_run(&mut rs, ups);
        proof {
            assert(upgrades_applied(f, rs@, *ups));
            assert forall|i: int, j: int|
                0 <= i < rs.towers@.len() && 0 <= j < rs.towers@.len() && i != j implies !(#[trigger] rs.towers@[i].x
                    == #[trigger] rs.towers@[j].x && rs.towers@[i].y == rs.towers@[j].y) by {
            }
        }
        rs
    }
}

/// What a step of the run asks the display to show or update.
#[derive(Clone, Copy, Debug, PartialEq, Eq, Structural)]
#[allow(inconsistent_fields)]
pub enum RunEffect {
    /// A gold rock at cell `idx` yielded `amount` gold (`crit`: doubled).
    GoldMined { idx: usize, amount: u64, crit: bool },
    /// Healing towers restored `amount` life; the first of them stands at (x, y).
    Healed { x: u32, y: u32, amount: u32 },
    /// A tower was built at (x, y).
    TowerPlaced { x: u32, y: u32 },
    /// The tower at (x, y) was removed.
    TowerRemoved { x: u32, y: u32 },
    /// The corridor and the loop were recomputed.
    Rerouted,
}

/// An action on a run. Chance outcomes come with the action: whether a
/// mined gold rock yields double, and the rolls for a new map.
#[derive(Clone, Debug)]
pub enum RunAction {
    TogglePause,
    StartRun,
    TickSecond,
    MiningComplete { idx: usize, mining_crit: bool },
    ResetRun { rolls: GenRolls },
    ResetRunWithUpgrades { ups: UpgradeState, rolls: GenRolls },
    PlaceWall { x: u32, y: u32 },
    PlaceTower { x: u32, y: u32, kind: TowerKind },
    RemoveTower { x: u32, y: u32 },
    SpendResearch { amount: u64 },
    ApplyUpgrades { ups: UpgradeState },
    SetResearch { amount: u64 },
}

pub open spec fn sat_add64(a: u64, b: int) -> u64 {
    if a + b > u64::MAX { u64::MAX } else { (a + b) as u64 }
}

pub open spec fn sat_add32(a: u32, b: int) -> u32 {
    if a + b > u32::MAX { u32::MAX } else { (a + b) as u32 }
}

pub open spec fn min_int(a: int, b: int) -> int {
    if a <= b { a } else { b }
}

/// `v + 1`, wrapping to 0.
pub open spec fn bump(v: u64) -> u64 {
    if v == u64::MAX { 0 } else { (v + 1) as u64 }
}

/// A tower on a healing (Range) tile.
pub open spec fn is_healing(t: Tower) -> bool {
    t.boost == Some(BoostKind::Range)
}

/// Number of healing towers.
pub open spec fn healing_count(t: Seq<Tower>) -> nat
    decreases t.len(),
{
    if t.len() == 0 {
        0
    } else {
        healing_count(t.drop_last()) + if is_healing(t.last()) { 1nat } else { 0nat }
    }
}

/// The first healing tower.
pub open spec fn first_healing(t: Seq<Tower>) -> Option<Tower>
    decreases t.len(),
{
    if t.len() == 0 {
        None
    } else if is_healing(t[0]) {
        Some(t[0])
    } else {
        first_healing(t.drop_first())
    }
}

/// The run is running: started, not paused, not over.
pub open spec fn running(v: RunView) -> bool {
    v.started && !v.is_paused && !v.game_over
}

/// One second of a running run: the clock advances; regeneration adds its
/// half points, granting whole points up to the maximum; every two seconds
/// healing towers restore their half points each (rounded, halves up), up
/// to the maximum.
pub open spec fn tick_post(v: RunView) -> (RunView, Seq<RunEffect>) {
    if !running(v) {
        (v, seq![])
    } else {
        let time = sat_add64(v.stats.time_survived_secs, 1);
        let regen_on = v.life < v.life_max && v.life_regen_halves_per_sec > 0;
        let acc = v.life_regen_accum_halves + v.life_regen_halves_per_sec;
        let life1: int = if regen_on && acc >= 2 { min_int(v.life + acc / 2, v.life_max as int) } else { v.life as int };
        let accum1: int = if regen_on { if acc >= 2 { acc % 2 } else { acc } } else { v.life_regen_accum_halves as int };
        let heal_on = v.healing_heal_halves_per_tick > 0;
        let timer1: int = if heal_on { v.healing_tile_timer + 1 } else { v.healing_tile_timer as int };
        let pulse = heal_on && timer1 >= 2;
        let timer2: int = if pulse { timer1 - 2 } else { timer1 };
        let count = healing_count(v.towers);
        let total = (v.healing_heal_halves_per_tick * count + 1) / 2;
        let heals = pulse && count > 0 && life1 < v.life_max;
        let life2: int = if heals { min_int(life1 + total, v.life_max as int) } else { life1 };
        let eff: Seq<RunEffect> = if heals && life2 > life1 {
            let t = first_healing(v.towers)->0;
            seq![RunEffect::Healed { x: t.x, y: t.y, amount: (life2 - life1) as u32 }]
        } else {
            seq![]
        };
        (
            RunView {
                stats: RunStats { time_survived_secs: time, ..v.stats },
                life: life2 as u32,
                life_regen_accum_halves: accum1 as u32,
                healing_tile_timer: timer2 as u32,
                ..v
            },
            eff,
        )
    }
}

pub(crate) proof fn lemma_healing_count(t: Seq<Tower>)
    ensures
        healing_count(t) <= t.len(),
        healing_count(t) > 0 <==> first_healing(t) is Some,
        first_healing(t) matches Some(h) ==> is_healing(h) && t.contains(h),
    decreases t.len(),
{
    if t.len() > 0 {
        lemma_healing_count(t.drop_last());
        lemma_healing_count(t.drop_first());
        if t.len() > 1 {
            assert(t.drop_last().drop_first() =~= t.drop_first().drop_last());
            lemma_healing_count(t.drop_first().drop_last());
            lemma_healing_count_front(t);
        } else {
            assert(t.drop_last().len() == 0);
            assert(t.drop_first().len() == 0);
            assert(t.last() == t[0]);
        }
        if let Some(h) = first_healing(t) {
            if !is_healing(t[0]) {
                let k = choose|k: int| 0 <= k < t.drop_first().len() && t.drop_first()[k] == h;
                assert(t[k + 1] == h);
            } else {
                assert(t[0] == h);
            }
        }
    }
}

/// Counting from the front: the count of a sequence is that of its tail
/// plus its first tower.
proof fn lemma_healing_count_front(t: Seq<Tower>)
    requires
        t.len() > 0,
    ensures
        healing_count(t) == healing_count(t.drop_first()) + if is_healing(t[0]) { 1nat } else { 0nat },
    decreases t.len(),
{
    if t.len() > 1 {
        lemma_healing_count_front(t.drop_last());
        assert(t.drop_last().drop_first() =~= t.drop_first().drop_last());
        assert(t.drop_last()[0] == t[0]);
        assert(t.drop_first().last() == t.last());
        assert(healing_count(t) == healing_count(t.drop_last()) + if is_healing(t.last()) { 1nat } else { 0nat });
        assert(healing_count(t.drop_first()) == healing_count(t.drop_first().drop_last()) + if is_healing(
            t.drop_first().last(),
        ) {
            1nat
        } else {
            0nat
        });
        assert(healing_count(t.drop_last().drop_first()) == healing_count(t.drop_first().drop_last()));
    } else {
        assert(t.drop_first().len() == 0);
        assert(t.drop_last().len() == 0);
        assert(t.last() == t[0]);
        assert(healing_count(t.drop_first()) == 0);
        assert(healing_count(t.drop_last()) == 0);
    }
}

impl RunState {
    fn tick_second(&mut self) -> (eff: Vec<RunEffect>)
        requires
            old(self).wf(),
        ensures
            final(self).wf(),
            (final(self)@, eff@) == tick_post(old(self)@),
    {
        if !(self.started && !self.is_paused && !self.game_over) {
            return Vec::new();
        }
        let ghost v = self@;
        let mut eff: Vec<RunEffect> = Vec::new();
        self.stats.time_survived_secs = self.stats.time_survived_secs.saturating_add(1);
        if self.life < self.life_max && self.life_regen_halves_per_sec > 0 {
            let acc: u64 = self.life_regen_accum_halves as u64 + self.life_regen_halves_per_sec as u64;
            if acc >= 2 {
                let gain = acc / 2;
                let l = self.life as u64 + gain;
                self.life = if l < self.life_max as u64 { l as u32 } else { self.life_max };
                self.life_regen_accum_halves = (acc % 2) as u32;
            } else {
                self.life_regen_accum_halves = acc as u32;
            }
        }
        if self.healing_heal_halves_per_tick > 0 {
            self.healing_tile_timer = self.healing_tile_timer + 1;
            if self.healing_tile_timer >= 2 {
                self.healing_tile_timer = self.healing_tile_timer - 2;
                let mut count: u64 = 0;
                let mut first: Option<Tower> = None;
                let n = self.towers.len();
                let mut k: usize = 0;
                while k < n
                    invariant
                        k <= n,
                        n == self.towers@.len(),
                        count == healing_count(self.towers@.subrange(0, k as int)),
                        count <= k,
                        first == first_healing(self.towers@.subrange(0, k as int)),
                    decreases n - k,
                {
                    let t = self.towers[k];
                    proof {
                        let s0 = self.towers@.subrange(0, k as int);
                        let s1 = self.towers@.subrange(0, k + 1);
                        assert(s1.drop_last() =~= s0);
                        lemma_first_healing_push(s0, t);
                        assert(s0.push(t) =~= s1);
                    }
                    if matches!(t.boost, Some(BoostKind::Range)) {
                        count += 1;
                        if first.is_none() {
                            first = Some(t);
                        }
                    }
                    k += 1;
                }
                proof {
                    assert(self.towers@.subrange(0, n as int) =~= self.towers@);
                    lemma_healing_count(self.towers@);
                }
                if count > 0 && self.life < self.life_max {
                    assert(self.healing_heal_halves_per_tick as u128 * count as u128 + 1 <= 0x1_0000_0000_0000_0000_0000_0000_0000) by (nonlinear_arith)
                        requires
                            self.healing_heal_halves_per_tick <= u32::MAX,
                            count <= u64::MAX,
                    ;
                    let total: u128 = (self.healing_heal_halves_per_tick as u128 * count as u128 + 1) / 2;
                    let old_life = self.life;
                    let l: u128 = self.life as u128 + total;
                    self.life = if l < self.life_max as u128 { l as u32 } else { self.life_max };
                    let healed = self.life - old_life;
                    if healed > 0 {
                        let h = first.unwrap();
                        eff.push(RunEffect::Healed { x: h.x, y: h.y, amount: healed });
                    }
                }
            }
        }
        proof {
            let (pv, pe) = tick_post(v);
            assert(self@ == pv);
            assert(eff@ =~= pe);
        }
        eff
    }
}

proof fn lemma_first_healing_push(s: Seq<Tower>, t: Tower)
    ensures
        first_healing(s.push(t)) == if first_healing(s) is Some { first_healing(s) } else if is_healing(t) {
            Some(t)
        } else {
            None
        },
    decreases s.len(),
{
    if s.len() > 0 {
        assert(s.push(t)[0] == s[0]);
        assert(s.push(t).drop_first() =~= s.drop_first().push(t));
        lemma_first_healing_push(s.drop_first(), t);
        assert(first_healing(s.push(t).drop_first()) == first_healing(s.drop_first().push(t)));
    } else {
        assert(s.push(t).drop_first().len() == 0);
        assert(s.push(t)[0] == t);
        assert(first_healing(s) is None);
    }
}

/// Rounding a share of 100 to the nearest integer, halves up.
proof fn lemma_round_100(q: int)
    requires
        q >= 0,
    ensures
        round_div(q, 100) == (q + 50) / 100,
{
    let d = (q + 50) / 100;
    let r = (q + 50) % 100;
    vstd::arithmetic::div_mod::lemma_fundamental_div_mod(q + 50, 100);
    vstd::arithmetic::div_mod::lemma_fundamental_div_mod_converse(2 * q + 100, 200, d, 2 * r);
}

/// Gold from a gold rock: the mining percentage, doubled on a critical
/// hit, rounded to whole gold (halves up).
pub open spec fn mined_gold(pct: u64, crit: bool) -> u64 {
    let g = round_div(pct * if crit { 2int } else { 1int }, 100);
    if g > u64::MAX { u64::MAX } else { g as u64 }
}

/// The corridor of `post` is a shortest route for its tiles, running between
/// the first pair of entrance and exit neighbours whose routes are shortest
/// (as `compute_path` picks it), and its loop is built from it.
pub open spec fn rerouted(post: RunView) -> bool {
    &&& is_route(post.grid_size, post.tiles, post.path)
    &&& no_shorter_route(post.grid_size, post.tiles, post.path)
    &&& post.path.len() > 0 ==> first_shortest_pair(post.grid_size, post.tiles, post.path)
    &&& post.path_loop == spec_loop_path(post.grid_size, post.tiles, post.path)
}

/// Mining finished on cell `idx`: a rock or wall there becomes an empty
/// tile (hardness 1) and earns a tile credit; a rock also counts as a
/// mined block and, if it holds gold, pays `mined_gold`; the corridor and
/// loop are recomputed. Other tiles only record the attempt.
pub open spec fn mine_post(pre: RunView, idx: usize, crit: bool, post: RunView, eff: Seq<RunEffect>) -> bool {
    if pre.game_over || idx >= pre.tiles.len() {
        post == pre && eff == Seq::<RunEffect>::empty()
    } else {
        let k = pre.tiles[idx as int].kind;
        let t2 = pre.tiles.update(idx as int, Tile { kind: TileKind::Empty, hardness: 1 });
        match k {
            TileKind::Rock { has_gold, .. } => {
                let g: u64 = if has_gold { mined_gold(pre.mining_gold_pct, crit) } else { 0 };
                &&& post == RunView {
                    tiles: t2,
                    last_mined_idx: Some(idx),
                    stats: RunStats { blocks_mined: sat_add32(pre.stats.blocks_mined, 1), ..pre.stats },
                    currencies: Currencies {
                        tile_credits: sat_add64(pre.currencies.tile_credits, 1),
                        gold: sat_add64(pre.currencies.gold, g as int),
                        ..pre.currencies
                    },
                    path: post.path,
                    path_loop: post.path_loop,
                    ..pre
                }
                &&& rerouted(post)
                &&& eff == if has_gold {
                    seq![RunEffect::GoldMined { idx, amount: g, crit }, RunEffect::Rerouted]
                } else {
                    seq![RunEffect::Rerouted]
                }
            },
            TileKind::Wall => {
                &&& post == RunView {
                    tiles: t2,
                    last_mined_idx: Some(idx),
                    currencies: Currencies { tile_credits: sat_add64(pre.currencies.tile_credits, 1), ..pre.currencies },
                    path: post.path,
                    path_loop: post.path_loop,
                    ..pre
                }
                &&& rerouted(post)
                &&& eff == seq![RunEffect::Rerouted]
            },
            _ => post == RunView { last_mined_idx: Some(idx), ..pre } && eff == Seq::<RunEffect>::empty(),
        }
    }
}

/// A wall is placed on an empty tile at (x, y) only if a route remains;
/// then the corridor and loop are recomputed.
pub open spec fn wall_post(pre: RunView, x: u32, y: u32, post: RunView, eff: Seq<RunEffect>) -> bool {
    let gs = pre.grid_size;
    let i = gs.index_of(Position { x, y });
    if x < gs.width && y < gs.height && pre.tiles[i].kind is Empty {
        let t2 = pre.tiles.update(i, Tile { kind: TileKind::Wall, ..pre.tiles[i] });
        if route_exists(gs, t2) {
            &&& post == RunView { tiles: t2, path: post.path, path_loop: post.path_loop, ..pre }
            &&& rerouted(post)
            &&& eff == seq![RunEffect::Rerouted]
        } else {
            post == pre && eff == Seq::<RunEffect>::empty()
        }
    } else {
        post == pre && eff == Seq::<RunEffect>::empty()
    }
}

/// Some tower stands at (x, y).
pub open spec fn tower_at(t: Seq<Tower>, x: u32, y: u32) -> bool {
    exists|i: int| 0 <= i < t.len() && #[trigger] t[i].x == x && t[i].y == y
}

/// The first tower standing at (x, y).
pub open spec fn first_tower_at(t: Seq<Tower>, x: u32, y: u32) -> Option<int>
    decreases t.len(),
{
    if t.len() == 0 {
        None
    } else if t[0].x == x && t[0].y == y {
        Some(0)
    } else {
        match first_tower_at(t.drop_first(), x, y) {
            Some(i) => Some(i + 1),
            None => None,
        }
    }
}

/// The boost a tower built on tile `k` gets.
pub open spec fn tile_boost(k: TileKind) -> Option<BoostKind> {
    match k {
        TileKind::Rock { boost, .. } => boost,
        _ => None,
    }
}

/// A tower is built at (x, y) when the tile is on the grid, a rock or a
/// wall, free of towers, and the player has the gold; it costs the tower
/// cost and inherits the tile's boost.
pub open spec fn tower_post(pre: RunView, x: u32, y: u32, kind: TowerKind, post: RunView, eff: Seq<RunEffect>) -> bool {
    let gs = pre.grid_size;
    let i = gs.index_of(Position { x, y });
    if x < gs.width && y < gs.height && pre.currencies.gold >= pre.tower_cost && (pre.tiles[i].kind is Rock
        || pre.tiles[i].kind is Wall) && !tower_at(pre.towers, x, y) {
        &&& post == RunView {
            currencies: Currencies { gold: (pre.currencies.gold - pre.tower_cost) as u64, ..pre.currencies },
            towers: pre.towers.push(
                Tower { x, y, kind, damage: kind_damage(kind, pre.tower_base_damage), boost: tile_boost(pre.tiles[i].kind) },
            ),
            ..pre
        }
        &&& eff == seq![RunEffect::TowerPlaced { x, y }]
    } else {
        post == pre && eff == Seq::<RunEffect>::empty()
    }
}

/// Refund for a removed tower: the cost times the refund percentage,
/// rounded (halves up), saturating.
pub open spec fn refund_of(cost: u64, pct: u64) -> u64 {
    let r = round_div(cost * pct, 100);
    if r > u64::MAX { u64::MAX } else { r as u64 }
}

/// At the base refund rate a tower's cost comes back in full.
pub proof fn lemma_refund_at_100(cost: u64)
    ensures
        refund_of(cost, 100) == cost,
{
    assert(round_div(cost * 100, 100) == cost) by {
        vstd::arithmetic::div_mod::lemma_fundamental_div_mod_converse(2 * (cost * 100) + 100, 200, cost as int, 100);
    }
}

/// The tower at (x, y), if any, is removed and refunded.
pub open spec fn remove_post(pre: RunView, x: u32, y: u32, post: RunView, eff: Seq<RunEffect>) -> bool {
    match first_tower_at(pre.towers, x, y) {
        Some(p) => {
            &&& post == RunView {
                towers: pre.towers.remove(p),
                currencies: Currencies {
                    gold: sat_add64(pre.currencies.gold, refund_of(pre.tower_cost, pre.tower_refund_pct) as int),
                    ..pre.currencies
                },
                ..pre
            }
            &&& eff == seq![RunEffect::TowerRemoved { x, y }]
        },
        None => post == pre && eff == Seq::<RunEffect>::empty(),
    }
}

pub proof fn lemma_first_tower_at(t: Seq<Tower>, x: u32, y: u32)
    ensures
        first_tower_at(t, x, y) matches Some(i) ==> 0 <= i < t.len() && t[i].x == x && t[i].y == y,
        first_tower_at(t, x, y) is None <==> !tower_at(t, x, y),
        first_tower_at(t, x, y) matches Some(i) ==> forall|j: int| 0 <= j < i ==> !(#[trigger] t[j].x == x && t[j].y == y),
    decreases t.len(),
{
    if t.len() > 0 {
        lemma_first_tower_at(t.drop_first(), x, y);
        if !(t[0].x == x && t[0].y == y) {
            if tower_at(t, x, y) {
                let i = choose|i: int| 0 <= i < t.len() && #[trigger] t[i].x == x && t[i].y == y;
                assert(t.drop_first()[i - 1].x == x);
            }
            if tower_at(t.drop_first(), x, y) {
                let i = choose|i: int| 0 <= i < t.drop_first().len() && #[trigger] t.drop_first()[i].x == x && t.drop_first()[i].y == y;
                assert(t[i + 1].x == x);
            }
            if let Some(i) = first_tower_at(t, x, y) {
                assert forall|j: int| 0 <= j < i implies !(#[trigger] t[j].x == x && t[j].y == y) by {
                    if j > 0 {
                        assert(t[j] == t.drop_first()[j - 1]);
                    }
                }
            }
        } else {
            assert(t[0].x == x);
        }
    }
}

impl RunState {
    fn complete_mining(&mut self, idx: usize, crit: bool) -> (eff: Vec<RunEffect>)
        requires
            old(self).wf(),
            old(self).routed(),
        ensures
            final(self).wf(),
            final(self).routed(),
            mine_post(old(self)@, idx, crit, final(self)@, eff@),
    {
        let mut eff: Vec<RunEffect> = Vec::new();
        if self.game_over || idx >= self.tiles.len() {
            return eff;
        }
        let ghost pre = self@;
        self.last_mined_idx = Some(idx);
        let kind = self.tiles[idx].kind;
        match kind {
            TileKind::Rock { has_gold, .. } => {
                self.tiles.set(idx, Tile { kind: TileKind::Empty, hardness: 1 });
                self.stats.blocks_mined = self.stats.blocks_mined.saturating_add(1);
                self.currencies.tile_credits = self.currencies.tile_credits.saturating_add(1);
                if has_gold {
                    let m: u128 = if crit { 2 } else { 1 };
                    let q: u128 = self.mining_gold_pct as u128 * m;
                    let g = (q + 50) / 100;
                    let gold_earned: u64 = if g > u64::MAX as u128 { u64::MAX } else { g as u64 };
                    proof {
                        lemma_round_100(q as int);
                        assert(gold_earned == mined_gold(self.mining_gold_pct, crit));
                    }
                    self.currencies.gold = self.currencies.gold.saturating_add(gold_earned);
                    eff.push(RunEffect::GoldMined { idx, amount: gold_earned, crit });
                }
                self.path = compute_path(self.grid_size, &self.tiles);
                self.path_loop = build_loop_path(self.grid_size, &self.tiles, &self.path);
                eff.push(RunEffect::Rerouted);
                proof {
                    let t2 = pre.tiles.update(idx as int, Tile { kind: TileKind::Empty, hardness: 1 });
                    assert(self.tiles@ =~= t2);
                    if has_gold {
                        assert(eff@ =~= seq![RunEffect::GoldMined { idx, amount: mined_gold(pre.mining_gold_pct, crit), crit }, RunEffect::Rerouted]);
                    } else {
                        assert(eff@ =~= seq![RunEffect::Rerouted]);
                    }
                }
            },
            TileKind::Wall => {
                self.tiles.set(idx, Tile { kind: TileKind::Empty, hardness: 1 });
                self.currencies.tile_credits = self.currencies.tile_credits.saturating_add(1);
                self.path = compute_path(self.grid_size, &self.tiles);
                self.path_loop = build_loop_path(self.grid_size, &self.tiles, &self.path);
                eff.push(RunEffect::Rerouted);
                proof {
                    assert(self.tiles@ =~= pre.tiles.update(idx as int, Tile { kind: TileKind::Empty, hardness: 1 }));
                    assert(eff@ =~= seq![RunEffect::Rerouted]);
                }
            },
            _ => {
                assert(eff@ =~= Seq::<RunEffect>::empty());
            },
        }
        eff
    }

    fn place_wall(&mut self, x: u32, y: u32) -> (eff: Vec<RunEffect>)
        requires
            old(self).wf(),
            old(self).routed(),
        ensures
            final(self).wf(),
            final(self).routed(),
            wall_post(old(self)@, x, y, final(self)@, eff@),
    {
        let gs = self.grid_size;
        let mut eff: Vec<RunEffect> = Vec::new();
        if x < gs.width && y < gs.height {
            proof {
                crate::grid::lemma_index_pos(gs, Position { x, y });
            }
            let idx = (y * gs.width + x) as usize;
            if matches!(self.tiles[idx].kind, TileKind::Empty) {
                let old_tile = self.tiles[idx];
                let ghost before = self@;
                self.tiles.set(idx, Tile { kind: TileKind::Wall, ..old_tile });
                let p = compute_path(gs, &self.tiles);
                if p.len() == 0 {
                    self.tiles.set(idx, old_tile);
                    assert(self.tiles@ =~= before.tiles);
                } else {
                    self.path = p;
                    self.path_loop = build_loop_path(gs, &self.tiles, &self.path);
                    eff.push(RunEffect::Rerouted);
                }
            }
        }
        eff
    }

    fn place_tower(&mut self, x: u32, y: u32, kind: TowerKind) -> (eff: Vec<RunEffect>)
        requires
            old(self).wf(),
        ensures
            final(self).wf(),
            tower_post(old(self)@, x, y, kind, final(self)@, eff@),
    {
        let gs = self.grid_size;
        let mut eff: Vec<RunEffect> = Vec::new();
        if x < gs.width && y < gs.height && self.currencies.gold >= self.tower_cost {
            proof {
                crate::grid::lemma_index_pos(gs, Position { x, y });
            }
            let idx = (y * gs.width + x) as usize;
            let k = self.tiles[idx].kind;
            let buildable = matches!(k, TileKind::Rock { .. }) || matches!(k, TileKind::Wall);
            if buildable {
                let mut taken = false;
                let mut i: usize = 0;
                while i < self.towers.len()
                    invariant
                        i <= self.towers@.len(),
                        taken == exists|j: int| 0 <= j < i && #[trigger] self.towers@[j].x == x && self.towers@[j].y == y,
                    decreases self.towers@.len() - i,
                {
                    if self.towers[i].x == x && self.towers[i].y == y {
                        taken = true;
                    }
                    i += 1;
                }
                if !taken {
                    self.currencies.gold = self.currencies.gold - self.tower_cost;
                    let boost = match k {
                        TileKind::Rock { boost, .. } => boost,
                        _ => None,
                    };
                    let t = Tower::new(x, y, kind, self.tower_base_damage, boost);
                    let ghost t0 = self.towers@;
                    self.towers.push(t);
                    eff.push(RunEffect::TowerPlaced { x, y });
                    proof {
                        assert forall|a: int, b: int|
                            0 <= a < self.towers@.len() && 0 <= b < self.towers@.len() && a != b implies !(
                            #[trigger] self.towers@[a].x == #[trigger] self.towers@[b].x && self.towers@[a].y
                                == self.towers@[b].y) by {
                            if a < t0.len() && b < t0.len() {
                                assert(self.towers@[a] == t0[a] && self.towers@[b] == t0[b]);
                            } else if a < t0.len() {
                                assert(self.towers@[a] == t0[a]);
                            } else {
                                assert(self.towers@[b] == t0[b]);
                            }
                        }
                        assert forall|a: int| 0 <= a < self.towers@.len() implies gs.in_bounds(
                            Position { x: (#[trigger] self.towers@[a]).x, y: self.towers@[a].y },
                        ) by {
                            if a < t0.len() {
                                assert(self.towers@[a] == t0[a]);
                            }
                        }
                    }
                }
            }
        }
        eff
    }

    fn remove_tower(&mut self, x: u32, y: u32) -> (eff: Vec<RunEffect>)
        requires
            old(self).wf(),
        ensures
            final(self).wf(),
            remove_post(old(self)@, x, y, final(self)@, eff@),
    {
        let mut eff: Vec<RunEffect> = Vec::new();
        let n = self.towers.len();
        let mut i: usize = 0;
        while i < n && !(self.towers[i].x == x && self.towers[i].y == y)
            invariant
                i <= n,
                n == self.towers@.len(),
                forall|j: int| 0 <= j < i ==> !(#[trigger] self.towers@[j].x == x && self.towers@[j].y == y),
            decreases n - i,
        {
            i += 1;
        }
        proof {
            lemma_first_tower_at(self.towers@, x, y);
            if i < n {
                assert(tower_at(self.towers@, x, y));
                let p = first_tower_at(self.towers@, x, y)->0;
                if p < i {
                    assert(!(self.towers@[p].x == x && self.towers@[p].y == y));
                } else if p > i {
                    assert(!(self.towers@[i as int].x == x && self.towers@[i as int].y == y));
                }
            } else if let Some(p) = first_tower_at(self.towers@, x, y) {
                assert(!(self.towers@[p].x == x && self.towers@[p].y == y));
            }
        }
        let found: Option<usize> = if i < n { Some(i) } else { None };
        if let Some(p) = found {
            let ghost t0 = self.towers@;
            self.towers.remove(p);
            assert(self.tower_cost as int * self.tower_refund_pct as int <= u64::MAX as int * u64::MAX as int) by (nonlinear_arith)
                requires
                    self.tower_cost <= u64::MAX,
                    self.tower_refund_pct <= u64::MAX,
            ;
            let q: u128 = self.tower_cost as u128 * self.tower_refund_pct as u128;
            let r: u128 = (q + 50) / 100;
            proof {
                lemma_round_100(q as int);
            }
            let refund: u64 = if r > u64::MAX as u128 { u64::MAX } else { r as u64 };
            self.currencies.gold = self.currencies.gold.saturating_add(refund);
            eff.push(RunEffect::TowerRemoved { x, y });
            proof {
                assert forall|a: int, b: int|
                    0 <= a < self.towers@.len() && 0 <= b < self.towers@.len() && a != b implies !(
                    #[trigger] self.towers@[a].x == #[trigger] self.towers@[b].x && self.towers@[a].y == self.towers@[b].y) by {
                    let a0 = if a < p { a } else { a + 1 };
                    let b0 = if b < p { b } else { b + 1 };
                    assert(self.towers@[a] == t0[a0] && self.towers@[b] == t0[b0]);
                }
                assert forall|a: int| 0 <= a < self.towers@.len() implies self.grid_size.in_bounds(
                    Position { x: (#[trigger] self.towers@[a]).x, y: self.towers@[a].y },
                ) by {
                    let a0 = if a < p { a } else { a + 1 };
                    assert(self.towers@[a] == t0[a0]);
                }
            }
        }
        eff
    }
}


/// The square play area that the upgrades `ups` unlock.
pub open spec fn play_area(ups: UpgradeState) -> GridSize {
    let s = spec_play_area_size(ups.level_of(UpgradeId::PlayAreaSize));
    GridSize { width: s, height: s }
}

/// `post` with the version of `pre`: what an action did besides counting.
pub open spec fn unversioned(post: RunView, pre: RunView) -> RunView {
    RunView { version: pre.version, ..post }
}

/// `post` with the research and run number of a fresh run.
pub open spec fn as_fresh(post: RunView) -> RunView {
    RunView { currencies: Currencies { research: 0, ..post.currencies }, run_id: 0, ..post }
}

/// The inputs `reduce` accepts: the rolls of a new map cover its grid and
/// carry only the boosts in play (none for a basic run, the unlocked ones
/// with upgrades), and the run number can still be counted up.
pub open spec fn reduce_allowed(pre: RunView, action: RunAction) -> bool {
    match action {
        RunAction::ResetRun { rolls } => rolls.tiles@.len() == pre.grid_size.cells() && pre.run_id < u64::MAX
            && rolls_within(rolls.tiles@, Seq::empty()),
        RunAction::ResetRunWithUpgrades { ups, rolls } => rolls.tiles@.len() == play_area(ups).cells()
            && pre.run_id < u64::MAX && rolls_within(rolls.tiles@, spec_unlocked_boosts(ups)),
        _ => true,
    }
}

/// What `reduce` makes of a run. A reset starts a fresh run on a new map
/// (the same grid, or the play area of the upgrades, with the upgrades
/// applied), keeping the research and counting the run number up. Every
/// other action counts the version up (wrapping) and does what its own
/// rule says.
pub open spec fn reduce_post(pre: RunView, action: RunAction, post: RunView, eff: Seq<RunEffect>) -> bool {
    let mid = unversioned(post, pre);
    let counted = post.version == bump(pre.version);
    let none = eff == Seq::<RunEffect>::empty();
    match action {
        RunAction::ResetRun { rolls } => {
            &&& fresh_run(pre.grid_size, generated_map(pre.grid_size, rolls), as_fresh(post))
            &&& boosts_within(post.tiles, Seq::empty())
            &&& post.currencies.research == pre.currencies.research
            &&& post.run_id == pre.run_id + 1
            &&& none
        },
        RunAction::ResetRunWithUpgrades { ups, rolls } => {
            &&& exists|f: RunView|
                fresh_run(play_area(ups), generated_map(play_area(ups), rolls), f) && #[trigger] upgrades_applied(
                    f,
                    as_fresh(post),
                    ups,
                )
            &&& boosts_within(post.tiles, spec_unlocked_boosts(ups))
            &&& post.currencies.research == pre.currencies.research
            &&& post.run_id == pre.run_id + 1
            &&& none
        },
        RunAction::TogglePause => counted && none && mid == RunView {
            is_paused: if pre.game_over { pre.is_paused } else { !pre.is_paused },
            ..pre
        },
        RunAction::StartRun => counted && none && mid == RunView { started: pre.started || !pre.game_over, ..pre },
        RunAction::TickSecond => counted && (mid, eff) == tick_post(pre),
        RunAction::MiningComplete { idx, mining_crit } => counted && mine_post(pre, idx, mining_crit, mid, eff),
        RunAction::PlaceWall { x, y } => counted && wall_post(pre, x, y, mid, eff),
        RunAction::PlaceTower { x, y, kind } => counted && tower_post(pre, x, y, kind, mid, eff),
        RunAction::RemoveTower { x, y } => counted && remove_post(pre, x, y, mid, eff),
        RunAction::SpendResearch { amount } => counted && none && mid == RunView {
            currencies: Currencies {
                research: if pre.currencies.research >= amount {
                    (pre.currencies.research - amount) as u64
                } else {
                    pre.currencies.research
                },
                ..pre.currencies
            },
            ..pre
        },
        RunAction::ApplyUpgrades { ups } => counted && none && upgrades_applied(pre, mid, ups),
        RunAction::SetResearch { amount } => counted && none && mid == RunView {
            currencies: Currencies { research: amount, ..pre.currencies },
            ..pre
        },
    }
}

/// Applying upgrades keeps a run well formed: towers keep their places and
/// life stays within its new maximum.
proof fn lemma_upgrades_keep_wf(pre: RunState, post: RunState, ups: UpgradeState)
    requires
        pre.wf(),
        upgrades_applied(pre@, post@, ups),
    ensures
        post.wf(),
{
    assert forall|i: int| 0 <= i < post.towers@.len() implies post.grid_size.in_bounds(
        Position { x: (#[trigger] post.towers@[i]).x, y: post.towers@[i].y },
    ) by {
        assert(post.towers@[i].x == pre.towers@[i].x && post.towers@[i].y == pre.towers@[i].y);
    }
    assert forall|i: int, j: int|
        0 <= i < post.towers@.len() && 0 <= j < post.towers@.len() && i != j implies !(#[trigger] post.towers@[i].x
            == #[trigger] post.towers@[j].x && post.towers@[i].y == post.towers@[j].y) by {
        assert(post.towers@[i].x == pre.towers@[i].x && post.towers@[i].y == pre.towers@[i].y);
        assert(post.towers@[j].x == pre.towers@[j].x && post.towers@[j].y == pre.towers@[j].y);
    }
}

impl RunState {
    /// Applies an action to the run and says what the display should show.
    pub fn reduce(self, action: RunAction) -> (r: (RunState, Vec<RunEffect>))
        requires
            self.wf(),
            self.routed(),
            reduce_allowed(self@, action),
        ensures
            r.0.wf(),
            r.0.routed(),
            reduce_post(self@, action, r.0@, r.1@),
    {
        let ghost pre = self@;
        let mut new = self;
        let eff: Vec<RunEffect> = match action {
            RunAction::ResetRun { rolls } => {
                let prev_r = new.currencies.research;
                let mut fresh = RunState::new_basic(new.grid_size, &rolls);
                fresh.currencies.research = prev_r;
                fresh.run_id = new.run_id + 1;
                proof {
                    assert(as_fresh(fresh@) == RunView { currencies: Currencies { research: 0, ..fresh@.currencies }, run_id: 0, ..fresh@ });
                }
                return (fresh, Vec::new());
            },
            RunAction::ResetRunWithUpgrades { ups, rolls } => {
                let prev_r = new.currencies.research;
                let size = crate::upgrades::play_area_size_for_level(ups.level(UpgradeId::PlayAreaSize));
                assert(size * size <= 112 * 112) by (nonlinear_arith)
                    requires
                        size <= 112,
                ;
                let mut fresh = RunState::new_with_upgrades(GridSize { width: size, height: size }, &ups, &rolls);
                let ghost f0 = fresh@;
                fresh.currencies.research = prev_r;
                fresh.run_id = new.run_id + 1;
                proof {
                    assert(as_fresh(fresh@) == f0);
                }
                return (fresh, Vec::new());
            },
            RunAction::TogglePause => {
                if !new.game_over {
                    new.is_paused = !new.is_paused;
                }
                Vec::new()
            },
            RunAction::StartRun => {
                if !new.started && !new.game_over {
                    new.started = true;
                }
                Vec::new()
            },
            RunAction::TickSecond => new.tick_second(),
            RunAction::MiningComplete { idx, mining_crit } => new.complete_mining(idx, mining_crit),
            RunAction::PlaceWall { x, y } => new.place_wall(x, y),
            RunAction::PlaceTower { x, y, kind } => new.place_tower(x, y, kind),
            RunAction::RemoveTower { x, y } => new.remove_tower(x, y),
            RunAction::SpendResearch { amount } => {
                if new.currencies.research >= amount {
                    new.currencies.research = new.currencies.research - amount;
                }
                Vec::new()
            },
            RunAction::ApplyUpgrades { ups } => {
                let ghost before = new;
                apply_upgrades_to_run(&mut new, &ups);
                proof {
                    lemma_upgrades_keep_wf(before, new, ups);
                }
                Vec::new()
            },
            RunAction::SetResearch { amount } => {
                new.currencies.research = amount;
                Vec::new()
            },
        };
        let ghost mid = new@;
        new.version = new.version.wrapping_add(1);
        proof {
            assert(unversioned(new@, pre) == mid);
        }
        (new, eff)
    }
}

/// Milliseconds between two enemies at second `t` of a run: two seconds,
/// 15 ms less for every second survived, never below half a second.
pub open spec fn spawn_interval_ms(t: int) -> int {
    if 2000 - 15 * t > 500 {
        2000 - 15 * t
    } else {
        500
    }
}

/// An enemy is due: the spawn interval has passed since the last one and
/// there is a loop to walk.
pub open spec fn spawn_due(v: RunView) -> bool {
    &&& 1000 * (v.stats.time_survived_secs - v.last_enemy_spawn_time_secs) >= spawn_interval_ms(
        v.stats.time_survived_secs as int,
    )
    &&& v.path_loop.len() > 0
}

/// The cell where the next enemy appears: the first start tile, when an
/// enemy is due and the map has one.
pub open spec fn spawn_cell(v: RunView) -> Option<int> {
    if spawn_due(v) && exists|c: int| is_first_start(v.tiles, c) {
        Some(choose|c: int| is_first_start(v.tiles, c))
    } else {
        None
    }
}

/// The first start tile is unique.
proof fn lemma_first_start_unique(tiles: Seq<Tile>, a: int, b: int)
    requires
        is_first_start(tiles, a),
        is_first_start(tiles, b),
    ensures
        a == b,
{
    if a < b {
        assert(tiles[a].kind is Start);
    } else if b < a {
        assert(tiles[b].kind is Start);
    }
}

/// What `try_spawn` does: at the spawn cell an enemy appears and its time
/// is recorded; otherwise nothing happens.
pub open spec fn spawn_post(pre: RunView, r: Option<Position>, post: RunView) -> bool {
    match spawn_cell(pre) {
        Some(c) => {
            &&& r == Some(pre.grid_size.pos_of(c))
            &&& post == RunView { last_enemy_spawn_time_secs: pre.stats.time_survived_secs, ..pre }
        },
        None => r is None && post == pre,
    }
}

impl RunState {
    /// The run is started, not paused and not over.
    pub fn is_running(&self) -> (r: bool)
        ensures
            r == running(self@),
    {
        self.started && !self.is_paused && !self.game_over
    }

    /// Lets an enemy appear when one is due: returns the start tile it
    /// appears on and records the time.
    pub fn try_spawn(&mut self) -> (r: Option<Position>)
        requires
            old(self).wf(),
        ensures
            spawn_post(old(self)@, r, final(self)@),
    {
        let t = self.stats.time_survived_secs;
        let last = self.last_enemy_spawn_time_secs;
        let interval: u128 = if (t as u128) * 15 < 1500 { 2000 - (t as u128) * 15 } else { 500 };
        let due = t >= last && ((t - last) as u128) * 1000 >= interval && self.path_loop.len() > 0;
        if !due {
            return None;
        }
        let n = self.tiles.len();
        let mut i: usize = 0;
        while i < n && !matches!(self.tiles[i].kind, TileKind::Start)
            invariant
                i <= n,
                n == self.tiles@.len(),
                forall|j: int| 0 <= j < i ==> !(#[trigger] self.tiles@[j].kind is Start),
            decreases n - i,
        {
            i += 1;
        }
        if i == n {
            proof {
                if exists|c: int| is_first_start(self.tiles@, c) {
                    let c = choose|c: int| is_first_start(self.tiles@, c);
                    assert(!(self.tiles@[c].kind is Start));
                }
            }
            return None;
        }
        proof {
            assert(is_first_start(self.tiles@, i as int));
            let c = choose|c: int| is_first_start(self.tiles@, c);
            lemma_first_start_unique(self.tiles@, c, i as int);
            crate::grid::lemma_cell_coords(self.grid_size, i as int);
        }
        let w = self.grid_size.width;
        let pos = Position { x: (i as u32) % w, y: (i as u32) / w };
        self.last_enemy_spawn_time_secs = t;
        Some(pos)
    }

    /// Kills pay research, one each, and the gold bounty per kill.
    pub fn reward_kills(&mut self, kills: u64)
        requires
            kills * old(self).gold_bounty_per_kill <= u64::MAX,
        ensures
            final(self)@ == (RunView {
                currencies: Currencies {
                    research: sat_add64(old(self).currencies.research, kills as int),
                    gold: if kills > 0 {
                        sat_add64(old(self).currencies.gold, kills * old(self).gold_bounty_per_kill)
                    } else {
                        old(self).currencies.gold
                    },
                    ..old(self).currencies
                },
                ..old(self)@
            }),
    {
        let ghost pre = self@;
        if kills > 0 {
            self.currencies.research = self.currencies.research.saturating_add(kills);
            if self.gold_bounty_per_kill > 0 {
                self.currencies.gold = self.currencies.gold.saturating_add(kills * self.gold_bounty_per_kill);
            } else {
                assert(kills * self.gold_bounty_per_kill == 0);
            }
        }
        assert(self.currencies == (Currencies {
            research: sat_add64(pre.currencies.research, kills as int),
            gold: if kills > 0 { sat_add64(pre.currencies.gold, kills * pre.gold_bounty_per_kill) } else { pre.currencies.gold },
            ..pre.currencies
        }));
    }

    /// An enemy completed a loop: the player loses a life (the run is over
    /// when none is left) and the loop is counted.
    pub fn enemy_looped(&mut self)
        requires
            old(self).wf(),
        ensures
            final(self).wf(),
            final(self)@ == (RunView {
                life: if old(self).life > 0 { (old(self).life - 1) as u32 } else { 0 },
                game_over: old(self).game_over || old(self).life == 1,
                stats: RunStats {
                    loops_completed: sat_add32(old(self).stats.loops_completed, 1),
                    ..old(self).stats
                },
                ..old(self)@
            }),
    {
        if self.life > 0 {
            self.life = self.life - 1;
            if self.life == 0 {
                self.game_over = true;
            }
        }
        if self.stats.loops_completed < u32::MAX {
            self.stats.loops_completed = self.stats.loops_completed + 1;
        }
    }

    /// Life stolen by a hit: `heal` points, up to the maximum, while life
    /// is below it.
    pub fn vampiric_heal(&mut self, heal: u32)
        requires
            old(self).wf(),
        ensures
            final(self).wf(),
            final(self)@ == (RunView {
                life: if heal > 0 && old(self).life < old(self).life_max {
                    min_int(old(self).life + heal, old(self).life_max as int) as u32
                } else {
                    old(self).life
                },
                ..old(self)@
            }),
    {
        if heal > 0 && self.life < self.life_max {
            let l: u64 = self.life as u64 + heal as u64;
            self.life = if l < self.life_max as u64 { l as u32 } else { self.life_max };
        }
    }

    /// Counts a change of the run (wrapping).
    pub fn count_version(&mut self)
        ensures
            final(self)@ == (RunView { version: bump(old(self).version), ..old(self)@ }),
    {
        self.version = self.version.wrapping_add(1);
    }
}
} // verus!
