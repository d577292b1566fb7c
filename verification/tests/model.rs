use maze_defence::grid::{BoostKind, GridSize, Position, TileKind};
use maze_defence::run::{apply_upgrades_to_run, unlocked_boosts, RunState};
use maze_defence::upgrades::{UpgradeId, UpgradeState};
use maze_defence::worldgen::GenRolls;

/// Rolls without gold or boosts; the start cluster faces right and its
/// corridor turns downwards.
fn plain_rolls(n: usize) -> GenRolls {
    GenRolls { tiles: vec![(false, None); n], orient: 0, turn_positive: true }
}

/// Rolls drawn from a small linear congruential sequence; boosts only when
/// `with_boosts`.
fn mixed_rolls(n: usize, seed: u64, orient: u32, turn_positive: bool, with_boosts: bool) -> GenRolls {
    let mut s = seed;
    let mut tiles = Vec::new();
    for _ in 0..n {
        s = s.wrapping_mul(6364136223846793005).wrapping_add(1442695040888963407);
        let r = (s >> 33) % 100;
        let boost = match (s >> 20) % 10 {
            0 => Some(BoostKind::Slow),
            1 => Some(BoostKind::Damage),
            2 => Some(BoostKind::Range),
            3 => Some(BoostKind::Fire),
            _ => None,
        };
        tiles.push((r < 12, if with_boosts { boost } else { None }));
    }
    GenRolls { tiles, orient, turn_positive }
}

fn make_run() -> RunState {
    let gs = GridSize { width: 25, height: 25 };
    RunState::new_basic(gs, &mixed_rolls(625, 7, 2, false, false))
}

#[test]
fn start_and_indestructibles_exist() {
    let rs = make_run();
    let mut start_idx = None;
    for (i, t) in rs.tiles.iter().enumerate() {
        if matches!(t.kind, TileKind::Start) {
            start_idx = Some(i);
            break;
        }
    }
    assert!(start_idx.is_some(), "Start tile missing");
    let idx = start_idx.unwrap();
    let sx = (idx as u32) % rs.grid_size.width;
    let sy = (idx as u32) / rs.grid_size.width;
    let mut found = false;
    for (dx, dy) in [(1i32, 0), (-1, 0), (0, 1), (0, -1)] {
        let x = sx as i32 + dx;
        let y = sy as i32 + dy;
        if x >= 0 && y >= 0 && (x as u32) < rs.grid_size.width && (y as u32) < rs.grid_size.height {
            let i2 = (y as u32 * rs.grid_size.width + x as u32) as usize;
            if matches!(rs.tiles[i2].kind, TileKind::Indestructible) {
                found = true;
                break;
            }
        }
    }
    assert!(found, "No indestructible neighbor to start");
    assert!(!rs.path.is_empty(), "Initial path empty");
    assert!(rs.path_loop.len() >= 2, "Loop path too short");
}

#[test]
fn enemy_spawns_after_time() {
    let mut rs = make_run();
    rs.started = true;
    rs.stats.time_survived_secs = 10;
    let spawned = rs.try_spawn();
    assert!(spawned.is_some(), "Enemy did not spawn");
}

#[test]
fn starting_gold_applied_only_once() {
    let mut ups = UpgradeState::default();
    ups.set_level(UpgradeId::StartingGold, 3);
    let rs = RunState::new_with_upgrades(GridSize { width: 10, height: 10 }, &ups, &plain_rolls(100));
    assert_eq!(rs.currencies.gold, 8, "Starting gold not applied correctly on new run");
    assert_eq!(rs.starting_gold_applied_level, 3, "Applied level tracker incorrect");
    let mut rs2 = rs.clone();
    let before = rs2.currencies.gold;
    rs2.started = true;
    rs2.stats.time_survived_secs = 5;
    apply_upgrades_to_run(&mut rs2, &ups);
    assert_eq!(rs2.currencies.gold, before, "Gold changed mid-run when it should not");
}

#[test]
fn starting_gold_applies_difference_incrementally_pre_run() {
    let mut ups = UpgradeState::default();
    let mut rs = RunState::new_basic(GridSize { width: 10, height: 10 }, &plain_rolls(100));
    ups.set_level(UpgradeId::StartingGold, 1);
    apply_upgrades_to_run(&mut rs, &ups);
    assert_eq!(rs.currencies.gold, 2 + 2 * 1, "Level 1 starting gold incorrect");
    assert_eq!(rs.starting_gold_applied_level, 1);
    ups.set_level(UpgradeId::StartingGold, 3);
    apply_upgrades_to_run(&mut rs, &ups);
    assert_eq!(rs.currencies.gold, 2 + 2 * 3, "Incremental starting gold difference not applied correctly");
    assert_eq!(rs.starting_gold_applied_level, 3);
}

#[test]
fn fresh_run_base_values() {
    let rs = RunState::new_basic(GridSize { width: 10, height: 10 }, &plain_rolls(100));
    assert_eq!(rs.currencies.gold, 2);
    assert_eq!(rs.currencies.research, 0);
    assert_eq!(rs.life, 10);
    assert_eq!(rs.life_max, 10);
    assert_eq!(rs.tower_cost, 2);
    assert_eq!(rs.tower_base_damage, 2);
    assert!(!rs.started);
    assert!(!rs.is_paused);
    assert!(!rs.game_over);
    assert!(rs.towers.is_empty());
    assert_eq!(rs.version, 0);
    assert_eq!(rs.run_id, 0);
}

#[test]
fn fresh_map_start_cluster_and_corridor() {
    let rs = RunState::new_basic(GridSize { width: 10, height: 10 }, &plain_rolls(100));
    let at = |x: usize, y: usize| rs.tiles[y * 10 + x].kind;
    assert_eq!(at(5, 5), TileKind::Start);
    assert!(matches!(at(6, 5), TileKind::Direction { .. }));
    assert!(matches!(at(4, 5), TileKind::Direction { .. }));
    assert_eq!(at(5, 4), TileKind::Indestructible);
    assert_eq!(at(5, 6), TileKind::Indestructible);
    for (x, y) in [(7, 5), (7, 6), (7, 7), (7, 8), (6, 8), (5, 8), (4, 8), (3, 8), (3, 7), (3, 6), (3, 5)] {
        assert_eq!(at(x, y), TileKind::Empty, "corridor cell ({}, {})", x, y);
        assert_eq!(rs.tiles[y * 10 + x].hardness, 1);
    }
    assert_eq!(rs.tiles[55].hardness, 255);
    assert_eq!(rs.tiles[99].hardness, 3);
}

#[test]
fn fresh_map_other_orientations() {
    for orient in 0..4u32 {
        for turn in [true, false] {
            let rolls = mixed_rolls(144, 3 + orient as u64, orient, turn, false);
            let rs = RunState::new_basic(GridSize { width: 12, height: 12 }, &rolls);
            assert_eq!(rs.tiles[6 * 12 + 6].kind, TileKind::Start);
            assert_eq!(rs.path.len(), 11, "orient {} turn {}", orient, turn);
            assert_eq!(rs.path_loop.len(), 14);
        }
    }
}

#[test]
fn minimum_gold_tiles_are_topped_up() {
    let rs = RunState::new_basic(GridSize { width: 10, height: 10 }, &plain_rolls(100));
    let gold = rs
        .tiles
        .iter()
        .filter(|t| matches!(t.kind, TileKind::Rock { has_gold: true, .. }))
        .count();
    assert_eq!(gold, 8);
    for x in 0..8 {
        assert_eq!(rs.tiles[x].kind, TileKind::Rock { has_gold: true, boost: None });
    }
    assert_eq!(rs.tiles[8].kind, TileKind::Rock { has_gold: false, boost: None });
}

#[test]
fn rolled_gold_is_kept() {
    let mut rolls = plain_rolls(100);
    for i in 0..20 {
        rolls.tiles[i * 5].0 = true;
    }
    rolls.tiles[99].1 = Some(BoostKind::Fire);
    let mut ups = UpgradeState::new();
    ups.set_level(UpgradeId::BoostFireUnlock, 1);
    let rs = RunState::new_with_upgrades(GridSize { width: 10, height: 10 }, &ups, &rolls);
    assert_eq!(rs.tiles[1].kind, TileKind::Rock { has_gold: false, boost: None });
    assert_eq!(rs.tiles[95].kind, TileKind::Rock { has_gold: true, boost: None });
    assert_eq!(rs.tiles[99].kind, TileKind::Rock { has_gold: false, boost: Some(BoostKind::Fire) });
}

#[test]
fn spawn_waits_for_the_interval() {
    let mut rs = RunState::new_basic(GridSize { width: 10, height: 10 }, &plain_rolls(100));
    rs.started = true;
    rs.stats.time_survived_secs = 1;
    assert_eq!(rs.try_spawn(), None);
    rs.stats.time_survived_secs = 2;
    assert_eq!(rs.try_spawn(), Some(Position { x: 5, y: 5 }));
    assert_eq!(rs.last_enemy_spawn_time_secs, 2);
    rs.stats.time_survived_secs = 2;
    assert_eq!(rs.try_spawn(), None);
    rs.stats.time_survived_secs = 200;
    rs.last_enemy_spawn_time_secs = 199;
    assert_eq!(rs.try_spawn(), Some(Position { x: 5, y: 5 }));
}

#[test]
fn gold_on_carved_cells_is_made_up_on_rocks() {
    let mut rolls = plain_rolls(100);
    for i in [45usize, 53, 54, 55, 56, 57, 63, 65] {
        rolls.tiles[i].0 = true;
    }
    let rs = RunState::new_basic(GridSize { width: 10, height: 10 }, &rolls);
    let gold = rs
        .tiles
        .iter()
        .filter(|t| matches!(t.kind, TileKind::Rock { has_gold: true, .. }))
        .count();
    assert_eq!(gold, 8);
    assert_eq!(rs.tiles[55].kind, TileKind::Start);
    for x in 0..8 {
        assert_eq!(rs.tiles[x].kind, TileKind::Rock { has_gold: true, boost: None });
    }
}

#[test]
fn unlocked_boosts_follow_the_unlocks() {
    let mut ups = UpgradeState::new();
    assert!(unlocked_boosts(&ups).is_empty());
    ups.set_level(UpgradeId::BoostHealingUnlock, 1);
    assert_eq!(unlocked_boosts(&ups), vec![BoostKind::Range]);
    ups.set_level(UpgradeId::BoostFireUnlock, 1);
    ups.set_level(UpgradeId::BoostColdUnlock, 1);
    assert_eq!(unlocked_boosts(&ups), vec![BoostKind::Slow, BoostKind::Range, BoostKind::Fire]);
    ups.set_level(UpgradeId::BoostPoisonUnlock, 1);
    assert_eq!(
        unlocked_boosts(&ups),
        vec![BoostKind::Slow, BoostKind::Damage, BoostKind::Range, BoostKind::Fire]
    );
}

#[test]
fn boosts_appear_once_unlocked() {
    let mut ups = UpgradeState::new();
    for id in [UpgradeId::BoostColdUnlock, UpgradeId::BoostPoisonUnlock, UpgradeId::BoostHealingUnlock, UpgradeId::BoostFireUnlock] {
        ups.set_level(id, 1);
    }
    let rs = RunState::new_with_upgrades(GridSize { width: 25, height: 25 }, &ups, &mixed_rolls(625, 7, 2, false, true));
    let boosted = rs
        .tiles
        .iter()
        .filter(|t| matches!(t.kind, TileKind::Rock { boost: Some(_), .. }))
        .count();
    assert!(boosted > 0);
    let basic = make_run();
    assert!(basic.tiles.iter().all(|t| !matches!(t.kind, TileKind::Rock { boost: Some(_), .. })));
}
