//! What holds of the game across calls: the enemies' path is never fully
//! blocked and every fresh map starts with one, a paused run resumes as it
//! was, a tower taken back is refunded in full, upgrades apply once and the
//! starting gold is granted once, research spent on an upgrade is what its
//! next level cost, fresh maps keep their share of gold, and enemies come
//! no faster than every half second. Also what single actions do, stated
//! directly: towers go on rocks and walls alike, taking one back removes
//! just that one, healing towers heal together, the loop follows the
//! corridor in order, clicks mine rocks and walls alike, and mining and
//! walls change only their own tile.

use vstd::prelude::*;
use crate::run::{
    RunState, Tower, healing_count, first_healing, lemma_healing_count, lemma_first_tower_at,
    RunView, RunAction, RunEffect, TowerKind, reduce_post, tower_post, remove_post,
    upgrades_applied, refund_of, sat_add64, first_tower_at, tower_at, bump, unversioned, fresh_run, generated_map, spawn_interval_ms,
};
use crate::grid::{GridSize, Tile, TileKind, Position, BoostKind, Terrain, adjacent, kind_at, passable, is_pos_walk, lemma_pos_index};
use crate::controls::{ClickOutcome, spec_click, reachable_cell};
use crate::pathfind::{
    route_exists, opened_up, lemma_route_kept_opened, is_route, spec_loop_path, without3, dedup_adjacent, loop_nodes,
    last_marked, lemma_last_marked, Marker, empty_nbrs,
};
use crate::worldgen::{GenRolls, gold_rocks_in, min_gold_tiles, lemma_fresh_gold, lemma_fresh_route};
use crate::upgrades::{UpgradeId, UpgradeState, UPGRADE_COUNT, def_index, def_id_at, def_max_level, cost_at, spent_upto, lemma_def_index, lemma_def_id_at, spec_key};

verus! {

/// Pausing twice leaves the run as it was, but for the version, which
/// counts both actions.
pub proof fn law_pause_twice(pre: RunView, mid: RunView, post: RunView, e1: Seq<RunEffect>, e2: Seq<RunEffect>)
    requires
        reduce_post(pre, RunAction::TogglePause, mid, e1),
        reduce_post(mid, RunAction::TogglePause, post, e2),
    ensures
        post == (RunView { version: bump(bump(pre.version)), ..pre }),
        e1.len() == 0 && e2.len() == 0,
{
}

/// With the base refund rate, a tower placed on a free tile and taken back
/// at once leaves the run exactly as it was: its cost comes back in full.
pub proof fn law_full_refund(
    pre: RunView,
    x: u32,
    y: u32,
    kind: TowerKind,
    mid: RunView,
    post: RunView,
    e1: Seq<RunEffect>,
    e2: Seq<RunEffect>,
)
    requires
        pre.tower_refund_pct == 100,
        !tower_at(pre.towers, x, y),
        tower_post(pre, x, y, kind, mid, e1),
        remove_post(mid, x, y, post, e2),
    ensures
        post == pre,
{
    crate::run::lemma_first_tower_at(pre.towers, x, y);
    crate::run::lemma_first_tower_at(mid.towers, x, y);
    if mid == pre {
    } else {
        let n = pre.towers.len();
        assert(mid.towers[n as int].x == x && mid.towers[n as int].y == y);
        assert(tower_at(mid.towers, x, y));
        let p = first_tower_at(mid.towers, x, y)->0;
        if p < n {
            assert(mid.towers[p] == pre.towers[p]);
            assert(tower_at(pre.towers, x, y));
        }
        assert(p == n);
        assert(mid.towers.remove(p) =~= pre.towers);
        crate::run::lemma_refund_at_100(pre.tower_cost);
        assert(refund_of(mid.tower_cost, mid.tower_refund_pct) == pre.tower_cost);
        assert(post.currencies == pre.currencies);
    }
}


/// Applying the same upgrades twice changes nothing the second time: base
/// values, life, gold and tower damage are already where they belong, and
/// the starting gold is granted once.
pub proof fn law_upgrades_idempotent(a: RunView, b: RunView, c: RunView, ups: UpgradeState)
    requires
        upgrades_applied(a, b, ups),
        upgrades_applied(b, c, ups),
    ensures
        c == b,
{
    assert(c.towers =~= b.towers);
}

/// Before a run starts, raising StartingGold grants only the levels not
/// granted yet: buying up in two steps gives the gold of buying at once.
pub proof fn law_starting_gold_incremental(
    a: RunView,
    b: RunView,
    c: RunView,
    d: RunView,
    u1: UpgradeState,
    u2: UpgradeState,
)
    requires
        a.stats.time_survived_secs == 0,
        !a.started,
        u1.level_of(UpgradeId::StartingGold) <= u2.level_of(UpgradeId::StartingGold),
        upgrades_applied(a, b, u1),
        upgrades_applied(b, c, u2),
        upgrades_applied(a, d, u2),
    ensures
        c.currencies.gold == d.currencies.gold,
        c.starting_gold_applied_level == d.starting_gold_applied_level,
{
}

/// Research spent on the first `k` upgrades after one more level of `id`.
proof fn lemma_spent_prefix_step(old: UpgradeState, new: UpgradeState, id: UpgradeId, k: int)
    requires
        0 <= k <= UPGRADE_COUNT,
        new.level_of(id) == old.level_of(id) + 1,
        forall|o: UpgradeId| o != id ==> #[trigger] new.level_of(o) == old.level_of(o),
    ensures
        new.spent_prefix(k) == old.spent_prefix(k) + if k > def_index(id) {
            cost_at(id, old.level_of(id) as nat)
        } else {
            0
        },
    decreases k,
{
    lemma_def_index(id);
    if k > 0 {
        lemma_spent_prefix_step(old, new, id, k - 1);
        let o = def_id_at(k - 1);
        lemma_def_id_at(k - 1);
        if o == id {
            assert(spent_upto(id, new.level_of(id) as nat) == spent_upto(id, old.level_of(id) as nat) + cost_at(
                id,
                old.level_of(id) as nat,
            ));
        } else {
            assert(new.level_of(o) == old.level_of(o));
        }
    }
}

/// Buying a level below the cap spends exactly what `next_cost` quoted:
/// the research spent on all upgrades grows by the cost of that level.
pub proof fn law_purchase_spends_next_cost(old: UpgradeState, new: UpgradeState, id: UpgradeId)
    requires
        old.level_of(id) < def_max_level(id),
        new.level_of(id) == old.level_of(id) + 1,
        forall|o: UpgradeId| o != id ==> #[trigger] new.level_of(o) == old.level_of(o),
    ensures
        new.spent_total() == old.spent_total() + cost_at(id, old.level_of(id) as nat),
{
    lemma_def_index(id);
    lemma_spent_prefix_step(old, new, id, UPGRADE_COUNT as int);
}

/// The path can never be fully blocked: while enemies have a route from the
/// entrance to the exit, no action short of a reset (which draws a new map)
/// leaves them without one. Mining only opens tiles, and a wall that would
/// close the last route is refused.
pub proof fn law_route_never_blocked(pre: RunView, action: RunAction, post: RunView, eff: Seq<RunEffect>)
    requires
        pre.grid_size.wf(),
        pre.tiles.len() == pre.grid_size.cells(),
        !(action is ResetRun),
        !(action is ResetRunWithUpgrades),
        reduce_post(pre, action, post, eff),
        route_exists(pre.grid_size, pre.tiles),
    ensures
        route_exists(post.grid_size, post.tiles),
{
    let mid = unversioned(post, pre);
    assert(mid.tiles == post.tiles && mid.grid_size == post.grid_size);
    match action {
        RunAction::MiningComplete { idx, mining_crit } => {
            if !pre.game_over && idx < pre.tiles.len() && (pre.tiles[idx as int].kind is Rock
                || pre.tiles[idx as int].kind is Wall) {
                let t2 = pre.tiles.update(idx as int, Tile { kind: TileKind::Empty, hardness: 1 });
                assert(opened_up(pre.tiles, t2));
                lemma_route_kept_opened(pre.grid_size, pre.tiles, t2);
            }
        },
        _ => {},
    }
}

/// Every fresh map on a grid of at least 3x3 has at least 8% of its tiles
/// (rounded to the nearest whole tile) as gold rocks: the start cluster and
/// corridor are carved first, and when the gold rolled on the rocks left
/// falls short, the first rocks without gold are given some.
pub proof fn law_min_gold_tiles(gs: GridSize, rolls: GenRolls)
    requires
        rolls.tiles@.len() == gs.cells(),
        gs.width >= 3,
        gs.height >= 3,
    ensures
        gold_rocks_in(generated_map(gs, rolls), gs.cells()) >= min_gold_tiles(gs.cells()),
{
    lemma_fresh_gold(gs, rolls.tiles@, rolls.orient, rolls.turn_positive);
}

/// A fresh run on a grid of at least 7x7 starts with a route: the corridor
/// carved around the start cluster leads from beyond the entrance round to
/// beyond the exit, so the enemies' path is not empty.
pub proof fn law_fresh_run_has_route(gs: GridSize, rolls: GenRolls, v: RunView)
    requires
        gs.wf(),
        gs.width >= 7,
        gs.height >= 7,
        rolls.tiles@.len() == gs.cells(),
        fresh_run(gs, generated_map(gs, rolls), v),
    ensures
        route_exists(gs, v.tiles),
        v.path.len() > 0,
{
    lemma_fresh_route(gs, rolls.tiles@, rolls.orient, rolls.turn_positive);
}

/// Enemies come every two seconds at the start of a run, ever more often
/// as the run goes on, and never faster than one every half second, which
/// is reached at the hundredth second.
pub proof fn law_spawn_interval(t1: int, t2: int)
    requires
        0 <= t1 <= t2,
    ensures
        500 <= spawn_interval_ms(t1) <= 2000,
        spawn_interval_ms(0) == 2000,
        spawn_interval_ms(t2) <= spawn_interval_ms(t1),
        t1 >= 100 ==> spawn_interval_ms(t1) == 500,
{
}

/// Length, sixth character and last character of a key.
spec fn key_sig(s: Seq<char>) -> (int, char, char) {
    (s.len() as int, s[5], s[s.len() - 1])
}

/// The length, sixth and last character of each upgrade's key.
spec fn expected_sig(id: UpgradeId) -> (int, char, char) {
    match id {
        UpgradeId::TowerDamage1 => (12, 'D', '1'),
        UpgradeId::HealthStart => (11, 'h', 't'),
        UpgradeId::VampiricHealing => (15, 'r', 'g'),
        UpgradeId::LifeRegen => (9, 'e', 'n'),
        UpgradeId::FireRate => (8, 'a', 'e'),
        UpgradeId::CritChance => (10, 'h', 'e'),
        UpgradeId::CritDamage => (10, 'a', 'e'),
        UpgradeId::ProjectileSpeed => (15, 'c', 'd'),
        UpgradeId::MiningSpeed => (11, 'g', 'd'),
        UpgradeId::ResourceRecovery => (16, 'r', 'y'),
        UpgradeId::GoldTileChance => (14, 'i', 'e'),
        UpgradeId::GoldTileReward => (14, 'i', 'd'),
        UpgradeId::StartingGold => (12, 'i', 'd'),
        UpgradeId::MiningCrit => (10, 'g', 't'),
        UpgradeId::KillBounty => (10, 'o', 'y'),
        UpgradeId::BoostColdUnlock => (15, 'C', 'k'),
        UpgradeId::BoostColdFrequency => (18, 'C', 'y'),
        UpgradeId::BoostColdSlowAmount => (19, 'C', 't'),
        UpgradeId::BoostColdSlowDuration => (21, 'C', 'n'),
        UpgradeId::BoostColdRange => (14, 'C', 'e'),
        UpgradeId::BoostPoisonUnlock => (17, 'P', 'k'),
        UpgradeId::BoostPoisonFrequency => (20, 'P', 'y'),
        UpgradeId::BoostPoisonDamage => (17, 'P', 'e'),
        UpgradeId::BoostPoisonDuration => (19, 'P', 'n'),
        UpgradeId::BoostPoisonRange => (16, 'P', 'e'),
        UpgradeId::BoostFireUnlock => (15, 'F', 'k'),
        UpgradeId::BoostFireFrequency => (18, 'F', 'y'),
        UpgradeId::BoostFireDamage => (15, 'F', 'e'),
        UpgradeId::BoostFireDuration => (17, 'F', 'n'),
        UpgradeId::BoostFireSpread => (15, 'F', 'd'),
        UpgradeId::BoostFireRange => (14, 'F', 'e'),
        UpgradeId::BoostHealingUnlock => (18, 'H', 'k'),
        UpgradeId::BoostHealingFrequency => (21, 'H', 'y'),
        UpgradeId::BoostHealingPower => (17, 'H', 'r'),
        UpgradeId::PlayAreaSize => (12, 'r', 'e'),
        UpgradeId::SplashRadius => (12, 'h', 's'),
    }
}

proof fn lemma_key_sig(id: UpgradeId)
    ensures
        key_sig(spec_key(id)) == expected_sig(id),
{
    match id {
        UpgradeId::TowerDamage1 => {
            reveal_strlit("TowerDamage1");
        },
        UpgradeId::HealthStart => {
            reveal_strlit("HealthStart");
        },
        UpgradeId::VampiricHealing => {
            reveal_strlit("VampiricHealing");
        },
        UpgradeId::LifeRegen => {
            reveal_strlit("LifeRegen");
        },
        UpgradeId::FireRate => {
            reveal_strlit("FireRate");
        },
        UpgradeId::CritChance => {
            reveal_strlit("CritChance");
        },
        UpgradeId::CritDamage => {
            reveal_strlit("CritDamage");
        },
        UpgradeId::ProjectileSpeed => {
            reveal_strlit("ProjectileSpeed");
        },
        UpgradeId::MiningSpeed => {
            reveal_strlit("MiningSpeed");
        },
        UpgradeId::ResourceRecovery => {
            reveal_strlit("ResourceRecovery");
        },
        UpgradeId::GoldTileChance => {
            reveal_strlit("GoldTileChance");
        },
        UpgradeId::GoldTileReward => {
            reveal_strlit("GoldTileReward");
        },
        UpgradeId::StartingGold => {
            reveal_strlit("StartingGold");
        },
        UpgradeId::MiningCrit => {
            reveal_strlit("MiningCrit");
        },
        UpgradeId::KillBounty => {
            reveal_strlit("KillBounty");
        },
        UpgradeId::BoostColdUnlock => {
            reveal_strlit("BoostColdUnlock");
        },
        UpgradeId::BoostColdFrequency => {
            reveal_strlit("BoostColdFrequency");
        },
        UpgradeId::BoostColdSlowAmount => {
            reveal_strlit("BoostColdSlowAmount");
        },
        UpgradeId::BoostColdSlowDuration => {
            reveal_strlit("BoostColdSlowDuration");
        },
        UpgradeId::BoostColdRange => {
            reveal_strlit("BoostColdRange");
        },
        UpgradeId::BoostPoisonUnlock => {
            reveal_strlit("BoostPoisonUnlock");
        },
        UpgradeId::BoostPoisonFrequency => {
            reveal_strlit("BoostPoisonFrequency");
        },
        UpgradeId::BoostPoisonDamage => {
            reveal_strlit("BoostPoisonDamage");
        },
        UpgradeId::BoostPoisonDuration => {
            reveal_strlit("BoostPoisonDuration");
        },
        UpgradeId::BoostPoisonRange => {
            reveal_strlit("BoostPoisonRange");
        },
        UpgradeId::BoostFireUnlock => {
            reveal_strlit("BoostFireUnlock");
        },
        UpgradeId::BoostFireFrequency => {
            reveal_strlit("BoostFireFrequency");
        },
        UpgradeId::BoostFireDamage => {
            reveal_strlit("BoostFireDamage");
        },
        UpgradeId::BoostFireDuration => {
            reveal_strlit("BoostFireDuration");
        },
        UpgradeId::BoostFireSpread => {
            reveal_strlit("BoostFireSpread");
        },
        UpgradeId::BoostFireRange => {
            reveal_strlit("BoostFireRange");
        },
        UpgradeId::BoostHealingUnlock => {
            reveal_strlit("BoostHealingUnlock");
        },
        UpgradeId::BoostHealingFrequency => {
            reveal_strlit("BoostHealingFrequency");
        },
        UpgradeId::BoostHealingPower => {
            reveal_strlit("BoostHealingPower");
        },
        UpgradeId::PlayAreaSize => {
            reveal_strlit("PlayAreaSize");
        },
        UpgradeId::SplashRadius => {
            reveal_strlit("SplashRadius");
        },
    }
}

/// Distinct upgrades have distinct keys, so each saved level belongs to one
/// upgrade.
pub proof fn law_keys_distinct(a: UpgradeId, b: UpgradeId)
    requires
        spec_key(a) == spec_key(b),
    ensures
        a == b,
{
    lemma_key_sig(a);
    lemma_key_sig(b);
}

/// No tower of `t` stands at (x, y).
pub open spec fn free_of_towers(t: Seq<Tower>, x: u32, y: u32) -> bool {
    forall|i: int| 0 <= i < t.len() ==> !(#[trigger] t[i].x == x && t[i].y == y)
}

/// A tower can be built on any rock or wall. When (x, y) is on the grid,
/// its tile is a rock or a wall, no tower stands there and the gold covers
/// the tower cost, placing a tower keeps every tower there was and adds
/// exactly one, of the kind asked, at (x, y), taking the tower cost from the
/// gold. Otherwise the towers, tiles and currencies stay as they were.
pub proof fn law_tower_on_rock_or_wall(
    pre: RunView,
    x: u32,
    y: u32,
    kind: TowerKind,
    post: RunView,
    eff: Seq<RunEffect>,
)
    requires
        reduce_post(pre, RunAction::PlaceTower { x, y, kind }, post, eff),
    ensures
        ({
            let w = pre.grid_size.width;
            let site = pre.tiles[y * w + x].kind;
            let buildable = x < w && y < pre.grid_size.height && (site is Rock || site is Wall) && free_of_towers(
                pre.towers,
                x,
                y,
            ) && pre.currencies.gold >= pre.tower_cost;
            &&& buildable ==> {
                &&& post.towers.len() == pre.towers.len() + 1
                &&& post.towers.subrange(0, pre.towers.len() as int) == pre.towers
                &&& post.towers.last().x == x && post.towers.last().y == y && post.towers.last().kind == kind
                &&& (site matches TileKind::Rock { boost, .. } ==> post.towers.last().boost == boost)
                &&& (site is Wall ==> post.towers.last().boost is None)
                &&& (kind == TowerKind::Basic ==> post.towers.last().damage == pre.tower_base_damage)
                &&& (kind == TowerKind::Slow ==> post.towers.last().damage == if pre.tower_base_damage >= 2 {
                    pre.tower_base_damage / 2
                } else {
                    1
                })
                &&& (kind == TowerKind::Damage ==> post.towers.last().damage as int == if 2 * pre.tower_base_damage
                    > u32::MAX {
                    u32::MAX as int
                } else {
                    2 * pre.tower_base_damage
                })
                &&& post.currencies.gold == pre.currencies.gold - pre.tower_cost
                &&& post.tiles == pre.tiles
                &&& eff == seq![RunEffect::TowerPlaced { x, y }]
            }
            &&& !buildable ==> post.towers == pre.towers && post.currencies == pre.currencies && post.tiles
                == pre.tiles && eff.len() == 0
        }),
{
    let w = pre.grid_size.width;
    if free_of_towers(pre.towers, x, y) {
        assert(!tower_at(pre.towers, x, y));
    } else {
        let i = choose|i: int| 0 <= i < pre.towers.len() && !!(#[trigger] pre.towers[i].x == x && pre.towers[i].y == y);
        assert(tower_at(pre.towers, x, y));
    }
    let mid = unversioned(post, pre);
    assert(mid.towers == post.towers && mid.currencies == post.currencies && mid.tiles == post.tiles);
    assert(pre.grid_size.index_of(Position { x, y }) == y * w + x);
    if post.towers.len() == pre.towers.len() + 1 {
        assert(post.towers.subrange(0, pre.towers.len() as int) =~= pre.towers);
    }
}

/// Taking a tower back removes exactly the tower at (x, y): afterwards no
/// tower stands there, every tower elsewhere is still there unchanged, no
/// tower appears, and the refund (the tower cost at the refund percentage,
/// rounded, halves up) is added to the gold, saturating. Where no tower
/// stands, towers and currencies stay as they were.
pub proof fn law_remove_tower(pre: RunState, x: u32, y: u32, post: RunView, eff: Seq<RunEffect>)
    requires
        pre.wf(),
        reduce_post(pre@, RunAction::RemoveTower { x, y }, post, eff),
    ensures
        !free_of_towers(pre.towers@, x, y) ==> {
            &&& free_of_towers(post.towers, x, y)
            &&& post.towers.len() + 1 == pre.towers@.len()
            &&& forall|i: int|
                0 <= i < pre.towers@.len() && !(pre.towers@[i].x == x && pre.towers@[i].y == y) ==> post.towers.contains(
                    #[trigger] pre.towers@[i],
                )
            &&& forall|j: int| 0 <= j < post.towers.len() ==> pre.towers@.contains(#[trigger] post.towers[j])
            &&& post.currencies.gold as int == {
                let g = pre.currencies.gold + (2 * pre.tower_cost * pre.tower_refund_pct + 100) / 200;
                if g > u64::MAX { u64::MAX as int } else { g }
            }
            &&& eff == seq![RunEffect::TowerRemoved { x, y }]
        },
        free_of_towers(pre.towers@, x, y) ==> post.towers == pre.towers@ && post.currencies == pre.currencies
            && eff.len() == 0,
{
    let t = pre.towers@;
    lemma_first_tower_at(t, x, y);
    let mid = unversioned(post, pre@);
    assert(mid.towers == post.towers && mid.currencies == post.currencies);
    if free_of_towers(t, x, y) {
        assert(!tower_at(t, x, y));
    } else {
        let i0 = choose|i: int| 0 <= i < t.len() && !!(#[trigger] t[i].x == x && t[i].y == y);
        assert(tower_at(t, x, y));
        let p = first_tower_at(t, x, y)->0;
        let s = t.remove(p);
        assert(post.towers == s);
        assert forall|j: int| 0 <= j < s.len() implies !(#[trigger] s[j].x == x && s[j].y == y) by {
            let j0 = if j < p { j } else { j + 1 };
            assert(s[j] == t[j0]);
            assert(j0 != p);
        }
        assert forall|i: int| 0 <= i < t.len() && !(t[i].x == x && t[i].y == y) implies s.contains(#[trigger] t[i]) by {
            let j = if i < p { i } else { i - 1 };
            assert(s[j] == t[i]);
        }
        assert forall|j: int| 0 <= j < s.len() implies t.contains(#[trigger] s[j]) by {
            let j0 = if j < p { j } else { j + 1 };
            assert(s[j] == t[j0]);
        }
        assert(free_of_towers(post.towers, x, y));
        assert(post.towers.len() + 1 == t.len());
        assert(post.currencies.gold == sat_add64(pre.currencies.gold, refund_of(pre.tower_cost, pre.tower_refund_pct) as int));
        let c = pre.tower_cost as int;
        let q = pre.tower_refund_pct as int;
        assert(2 * c * q == 2 * (c * q)) by (nonlinear_arith);
        assert(2 * c * q + 100 >= 0) by (nonlinear_arith)
            requires
                c >= 0,
                q >= 0,
        ;
        assert(eff == seq![RunEffect::TowerRemoved { x, y }]);
    }
}

/// Whether a tower restores life at healing pulses.
pub open spec fn heals(t: Tower) -> bool {
    t.boost == Some(BoostKind::Range)
}

proof fn lemma_healing_count_filter(t: Seq<Tower>)
    ensures
        healing_count(t) == t.filter(|u: Tower| heals(u)).len(),
    decreases t.len(),
{
    reveal(Seq::filter);
    if t.len() > 0 {
        lemma_healing_count_filter(t.drop_last());
    }
}

/// `t[i]` heals and no tower before it does: it is the first healing tower.
pub open spec fn first_healer_at(t: Seq<Tower>, i: int) -> bool {
    0 <= i < t.len() && heals(t[i]) && forall|j: int| 0 <= j < i ==> !heals(#[trigger] t[j])
}

proof fn lemma_first_healing_at(t: Seq<Tower>)
    ensures
        first_healing(t) matches Some(h) ==> exists|i: int| first_healer_at(t, i) && t[i] == h,
    decreases t.len(),
{
    if t.len() > 0 && !heals(t[0]) {
        lemma_first_healing_at(t.drop_first());
        if let Some(h) = first_healing(t) {
            let i = choose|i: int| first_healer_at(t.drop_first(), i) && t.drop_first()[i] == h;
            assert forall|j: int| 0 <= j < i + 1 implies !heals(#[trigger] t[j]) by {
                if j > 0 {
                    assert(t[j] == t.drop_first()[j - 1]);
                }
            }
            assert(first_healer_at(t, i + 1) && t[i + 1] == h);
        }
    } else if t.len() > 0 {
        assert(first_healer_at(t, 0));
    }
}

/// Healing towers heal together: at a healing pulse of a running run
/// without regeneration, with k towers on healing tiles each restoring h
/// half points, life rises by (h * k) / 2 (halves up), up to the maximum,
/// and the display is told of the life gained, at the first healing tower.
pub proof fn law_healing_pulse(pre: RunView, post: RunView, eff: Seq<RunEffect>)
    requires
        reduce_post(pre, RunAction::TickSecond, post, eff),
        pre.life <= pre.life_max,
        pre.started && !pre.is_paused && !pre.game_over,
        pre.life_regen_halves_per_sec == 0,
        pre.healing_heal_halves_per_tick > 0,
        pre.healing_tile_timer == 1,
    ensures
        ({
            let k = pre.towers.filter(|u: Tower| heals(u)).len();
            let gain = (pre.healing_heal_halves_per_tick * k + 1) / 2;
            &&& post.life == if pre.life + gain > pre.life_max { pre.life_max as int } else { pre.life + gain }
            &&& post.healing_tile_timer == 0
            &&& post.life > pre.life ==> eff.len() == 1 && exists|i: int|
                first_healer_at(pre.towers, i) && eff[0] == (RunEffect::Healed {
                    x: pre.towers[i].x,
                    y: pre.towers[i].y,
                    amount: (post.life - pre.life) as u32,
                })
            &&& post.life == pre.life ==> eff.len() == 0
        }),
{
    lemma_healing_count_filter(pre.towers);
    lemma_first_healing_at(pre.towers);
    lemma_healing_count(pre.towers);
    let k = pre.towers.filter(|u: Tower| heals(u)).len();
    let h = pre.healing_heal_halves_per_tick;
    if k > 0 {
        assert(h * k >= 1) by (nonlinear_arith)
            requires
                h >= 1,
                k >= 1,
        ;
    } else {
        assert(h * k == 0) by (nonlinear_arith)
            requires
                k == 0,
        ;
    }
    let mid = unversioned(post, pre);
    assert(mid.life == post.life && mid.healing_tile_timer == post.healing_tile_timer);
}

/// What a primary click does, by tile: nothing in a paused run, off the
/// grid, out of reach, or on a tower; on a rock or a wall it starts mining
/// (rocks and walls alike), starting the run first if it has not started;
/// on an empty tile it places a wall; on any other tile nothing.
pub proof fn law_click_by_tile(rs: RunState, x: i32, y: i32, r: ClickOutcome)
    requires
        r == spec_click(rs, x, y),
    ensures
        ({
            let on_grid = 0 <= x < rs.grid_size.width && 0 <= y < rs.grid_size.height;
            let i = y * rs.grid_size.width + x;
            let k = rs.tiles@[i].kind;
            &&& rs.is_paused || !on_grid || !reachable_cell(rs, i) ==> r == ClickOutcome::Ignored
            &&& !rs.is_paused && on_grid && reachable_cell(rs, i) ==> {
                &&& (k is Rock || k is Wall) && free_of_towers(rs.towers@, x as u32, y as u32) ==> r
                    == (ClickOutcome::StartMining { start_run: !rs.started })
                &&& (k is Rock || k is Wall) && !free_of_towers(rs.towers@, x as u32, y as u32) ==> r
                    == ClickOutcome::Ignored
                &&& k is Empty ==> r == ClickOutcome::PlaceWall
                &&& !(k is Rock || k is Wall || k is Empty) ==> r == ClickOutcome::Ignored
            }
        }),
{
    if tower_at(rs.towers@, x as u32, y as u32) {
        let i = choose|i: int| 0 <= i < rs.towers@.len() && #[trigger] rs.towers@[i].x == x as u32 && rs.towers@[i].y == y as u32;
        assert(!free_of_towers(rs.towers@, x as u32, y as u32)) by {
            assert(rs.towers@[i].x == x as u32 && rs.towers@[i].y == y as u32);
        }
    } else {
        assert forall|j: int| 0 <= j < rs.towers@.len() implies !(#[trigger] rs.towers@[j].x == x as u32 && rs.towers@[j].y
            == y as u32) by {
        }
    }
}

/// Keeping every element that is none of `a`, `b`, `c` keeps a sequence
/// with none of them whole and in order.
proof fn lemma_without3_keeps(path: Seq<Position>, a: Position, b: Position, c: Position)
    requires
        forall|k: int| 0 <= k < path.len() ==> #[trigger] path[k] != a && path[k] != b && path[k] != c,
    ensures
        without3(path, a, b, c) == path,
    decreases path.len(),
{
    if path.len() > 0 {
        lemma_without3_keeps(path.drop_last(), a, b, c);
        assert(path.drop_last().push(path.last()) =~= path);
    }
}

/// Shortening runs of equal neighbours changes nothing when no two
/// neighbours are equal.
proof fn lemma_dedup_keeps(s: Seq<Position>)
    requires
        forall|k: int| 0 <= k < s.len() - 1 ==> #[trigger] s[k] != s[k + 1],
    ensures
        dedup_adjacent(s) == s,
    decreases s.len(),
{
    if s.len() > 0 {
        let t = s.drop_last();
        assert forall|k: int| 0 <= k < t.len() - 1 implies #[trigger] t[k] != t[k + 1] by {
            assert(t[k] == s[k] && t[k + 1] == s[k + 1]);
        }
        lemma_dedup_keeps(t);
        if t.len() > 0 {
            assert(t.last() == s[s.len() - 2]);
        }
        assert(t.push(s.last()) =~= s);
    }
}

/// An empty neighbour of `c` is next to `c`.
proof fn lemma_nbr_adjacent(gs: GridSize, tiles: Seq<Tile>, c: Position, q: Position)
    requires
        empty_nbrs(gs, tiles, c).contains(q),
    ensures
        adjacent(c, q),
{
    broadcast use vstd::seq_lib::lemma_seq_concat_contains_all_elements;

}

/// The loop built from start, entrance, a corridor that avoids all three
/// and steps between neighbours, and exit, lists them in that order.
proof fn lemma_loop_shape(st: Position, en: Position, ex: Position, path: Seq<Position>)
    requires
        path.len() > 0,
        en != st,
        forall|k: int| 0 <= k < path.len() ==> #[trigger] path[k] != st && path[k] != en && path[k] != ex,
        forall|k: int| 0 <= k < path.len() - 1 ==> adjacent(#[trigger] path[k], path[k + 1]),
        adjacent(en, path[0]),
        adjacent(path.last(), ex),
    ensures
        ({
            let lp = dedup_adjacent(loop_nodes(st, en, ex, path));
            &&& lp == seq![st, en] + path + seq![ex]
            &&& forall|k: int| 1 <= k < lp.len() - 1 ==> adjacent(#[trigger] lp[k], lp[k + 1])
        }),
{
    lemma_without3_keeps(path, st, en, ex);
    let head: Seq<Position> = seq![st, en];
    let core = head + without3(path, st, en, ex);
    assert(core == head + path);
    assert(core.last() == path.last());
    let nodes = loop_nodes(st, en, ex, path);
    assert(nodes =~= seq![st, en] + path + seq![ex]);
    assert forall|k: int| 1 <= k < nodes.len() - 1 implies adjacent(#[trigger] nodes[k], nodes[k + 1]) by {
        if 2 <= k && k + 1 < nodes.len() - 1 {
            assert(nodes[k] == path[k - 2] && nodes[k + 1] == path[k - 1]);
        } else if k == 1 {
            assert(nodes[1] == en && nodes[2] == path[0]);
        } else {
            assert(nodes[k] == path.last() && nodes[k + 1] == ex);
        }
    }
    assert forall|k: int| 0 <= k < nodes.len() - 1 implies #[trigger] nodes[k] != nodes[k + 1] by {
        if k >= 1 {
            assert(adjacent(nodes[k], nodes[k + 1]));
        } else {
            assert(nodes[0] == st && nodes[1] == en);
        }
    }
    lemma_dedup_keeps(nodes);
}

/// The loop enemies walk is the start tile, the entrance, the corridor in
/// its own order, and the exit. Each step between the entrance and the
/// exit goes to a neighbouring cell, and so does the first step when the
/// start tile borders the entrance, as it does on every fresh map.
pub proof fn law_loop_follows_corridor(gs: GridSize, tiles: Seq<Tile>, path: Seq<Position>)
    requires
        gs.wf(),
        tiles.len() == gs.cells(),
        is_route(gs, tiles, path),
        path.len() > 0,
        last_marked(tiles, Marker::StartTile, gs.cells()) is Some,
    ensures
        ({
            let st = gs.pos_of(last_marked(tiles, Marker::StartTile, gs.cells())->0);
            let en = gs.pos_of(last_marked(tiles, Marker::Entrance, gs.cells())->0);
            let ex = gs.pos_of(last_marked(tiles, Marker::Exit, gs.cells())->0);
            let lp = spec_loop_path(gs, tiles, path);
            &&& lp == seq![st, en] + path + seq![ex]
            &&& forall|k: int| 1 <= k < lp.len() - 1 ==> adjacent(#[trigger] lp[k], lp[k + 1])
            &&& adjacent(st, en) ==> forall|k: int| 0 <= k < lp.len() - 1 ==> adjacent(#[trigger] lp[k], lp[k + 1])
        }),
{
    let n = gs.cells();
    let si = last_marked(tiles, Marker::StartTile, n)->0;
    let ei = last_marked(tiles, Marker::Entrance, n)->0;
    let xi = last_marked(tiles, Marker::Exit, n)->0;
    lemma_last_marked(tiles, Marker::StartTile, n);
    lemma_last_marked(tiles, Marker::Entrance, n);
    lemma_last_marked(tiles, Marker::Exit, n);
    lemma_pos_index(gs, si);
    lemma_pos_index(gs, ei);
    lemma_pos_index(gs, xi);
    let st = gs.pos_of(si);
    let en = gs.pos_of(ei);
    let ex = gs.pos_of(xi);
    assert(is_pos_walk(gs, tiles, Terrain::EmptyOnly, path));
    assert forall|k: int| 0 <= k < path.len() implies #[trigger] path[k] != st && path[k] != en && path[k] != ex by {
        assert(passable(Terrain::EmptyOnly, kind_at(tiles, gs.index_of(path[k]))));
    }
    assert(empty_nbrs(gs, tiles, en).contains(path[0]) && empty_nbrs(gs, tiles, ex).contains(path.last()));
    lemma_nbr_adjacent(gs, tiles, en, path[0]);
    lemma_nbr_adjacent(gs, tiles, ex, path.last());
    lemma_loop_shape(st, en, ex, path);
    assert(spec_loop_path(gs, tiles, path) == dedup_adjacent(loop_nodes(st, en, ex, path)));
}

/// Mining changes only the mined tile: a rock or a wall there becomes an
/// empty tile of hardness 1 and earns a tile credit; a rock also counts as a
/// mined block and, when it holds gold, pays the mining percentage of one
/// gold (doubled on a critical hit), rounded, halves up. Other tiles, and
/// the gold for a rock without gold, stay as they were.
pub proof fn law_mining(pre: RunView, idx: usize, crit: bool, post: RunView, eff: Seq<RunEffect>)
    requires
        reduce_post(pre, RunAction::MiningComplete { idx, mining_crit: crit }, post, eff),
        !pre.game_over,
        idx < pre.tiles.len(),
    ensures
        ({
            let k = pre.tiles[idx as int].kind;
            &&& post.tiles.len() == pre.tiles.len()
            &&& forall|j: int| 0 <= j < pre.tiles.len() && j != idx ==> #[trigger] post.tiles[j] == pre.tiles[j]
            &&& (k is Rock || k is Wall) ==> {
                &&& post.tiles[idx as int] == (Tile { kind: TileKind::Empty, hardness: 1 })
                &&& post.currencies.tile_credits as int == if pre.currencies.tile_credits == u64::MAX {
                    u64::MAX as int
                } else {
                    pre.currencies.tile_credits + 1
                }
            }
            &&& (k matches TileKind::Rock { has_gold, .. } ==> {
                &&& post.stats.blocks_mined as int == if pre.stats.blocks_mined == u32::MAX {
                    u32::MAX as int
                } else {
                    pre.stats.blocks_mined + 1
                }
                &&& !has_gold ==> post.currencies.gold == pre.currencies.gold
                &&& has_gold ==> post.currencies.gold as int == {
                    let g = pre.currencies.gold + (2 * pre.mining_gold_pct * (if crit { 2int } else { 1int }) + 100) / 200;
                    if g > u64::MAX { u64::MAX as int } else { g }
                }
            })
            &&& !(k is Rock || k is Wall) ==> post.tiles == pre.tiles && post.currencies == pre.currencies
                && post.stats == pre.stats
        }),
{
    let mid = unversioned(post, pre);
    assert(mid.tiles == post.tiles && mid.currencies == post.currencies && mid.stats == post.stats);
    let m = if crit { 2int } else { 1int };
    let q = pre.mining_gold_pct as int;
    assert(2 * q * m == 2 * (q * m)) by (nonlinear_arith);
    assert(q * m >= 0) by (nonlinear_arith)
        requires
            q >= 0,
            m >= 1,
    ;
}

/// A wall goes only on an empty on-grid tile, and only when enemies keep a
/// route: then that tile, and no other, becomes a wall of the same
/// hardness; otherwise the tiles stay as they were.
pub proof fn law_wall_placement(pre: RunView, x: u32, y: u32, post: RunView, eff: Seq<RunEffect>)
    requires
        reduce_post(pre, RunAction::PlaceWall { x, y }, post, eff),
    ensures
        ({
            let w = pre.grid_size.width;
            let i = y * w + x;
            let walled = pre.tiles.update(i, Tile { kind: TileKind::Wall, hardness: pre.tiles[i].hardness });
            let placed = x < w && y < pre.grid_size.height && pre.tiles[i].kind is Empty && route_exists(
                pre.grid_size,
                walled,
            );
            &&& placed ==> post.tiles == walled && eff == seq![RunEffect::Rerouted]
            &&& !placed ==> post.tiles == pre.tiles && post.path == pre.path && eff.len() == 0
            &&& post.currencies == pre.currencies && post.towers == pre.towers
        }),
{
    let mid = unversioned(post, pre);
    assert(mid.tiles == post.tiles && mid.currencies == post.currencies && mid.towers == post.towers
        && mid.path == post.path);
    let w = pre.grid_size.width;
    assert(pre.grid_size.index_of(Position { x, y }) == y * w + x);
    let i = y * w + x;
    if x < w && y < pre.grid_size.height && pre.tiles[i].kind is Empty {
        assert((Tile { kind: TileKind::Wall, ..pre.tiles[i] }) == (Tile { kind: TileKind::Wall, hardness: pre.tiles[i].hardness }));
    }
}

} // verus!
