use maze_defence::grid::{GridSize, TileKind};
use maze_defence::run::{apply_upgrades_to_run, RunAction, RunState, TowerKind};
use maze_defence::upgrades::{UpgradeId, UpgradeState};
use maze_defence::worldgen::GenRolls;

fn rolls(n: usize, orient: u32, turn_positive: bool) -> GenRolls {
    GenRolls { tiles: vec![(false, None); n], orient, turn_positive }
}

fn fresh(w: u32) -> RunState {
    RunState::new_basic(GridSize { width: w, height: w }, &rolls((w * w) as usize, 1, false))
}

#[test]
fn pausing_twice_restores_the_run() {
    let rs = fresh(10);
    let (a, _) = rs.clone().reduce(RunAction::TogglePause);
    let (b, _) = a.reduce(RunAction::TogglePause);
    assert_eq!(b.is_paused, rs.is_paused);
    assert_eq!(b.version, rs.version + 2);
    assert_eq!(b.tiles, rs.tiles);
}

#[test]
fn a_tower_taken_back_refunds_its_cost() {
    let rs = fresh(10);
    let gold = rs.currencies.gold;
    let (a, _) = rs.clone().reduce(RunAction::PlaceTower { x: 9, y: 9, kind: TowerKind::Slow });
    assert_eq!(a.towers.len(), 1);
    let (b, _) = a.reduce(RunAction::RemoveTower { x: 9, y: 9 });
    assert_eq!(b.currencies, rs.currencies);
    assert_eq!(b.currencies.gold, gold);
    assert!(b.towers.is_empty());
}

#[test]
fn upgrades_apply_once() {
    let mut ups = UpgradeState::new();
    ups.set_level(UpgradeId::StartingGold, 4);
    ups.set_level(UpgradeId::HealthStart, 1);
    ups.set_level(UpgradeId::TowerDamage1, 5);
    let mut rs = fresh(10);
    rs.currencies.gold = 10;
    let (rs, _) = rs.reduce(RunAction::PlaceTower { x: 9, y: 9, kind: TowerKind::Damage });
    let mut once = rs.clone();
    apply_upgrades_to_run(&mut once, &ups);
    let mut twice = once.clone();
    apply_upgrades_to_run(&mut twice, &ups);
    assert_eq!(once.currencies, twice.currencies);
    assert_eq!(once.life, twice.life);
    assert_eq!(once.life_max, 15);
    assert_eq!(once.towers, twice.towers);
    assert_eq!(once.towers[0].damage, 6);
    assert_eq!(once.currencies.gold, 8 + 8);
    assert_eq!(once.starting_gold_applied_level, twice.starting_gold_applied_level);
}

#[test]
fn no_action_blocks_the_last_route() {
    let rs = fresh(10);
    let mut rs = rs;
    for y in 0..10u32 {
        for x in 0..10u32 {
            let (next, _) = rs.reduce(RunAction::PlaceWall { x, y });
            rs = next;
            assert!(!rs.path.is_empty(), "route lost after a wall at ({}, {})", x, y);
        }
    }
    let (rs, _) = rs.reduce(RunAction::MiningComplete { idx: 0, mining_crit: false });
    assert!(!rs.path.is_empty());
}

#[test]
fn every_fresh_map_has_a_route() {
    for w in [7u32, 8, 10, 14, 25] {
        for orient in 0..4 {
            for turn in [true, false] {
                let gs = GridSize { width: w, height: w };
                let rs = RunState::new_basic(gs, &rolls((w * w) as usize, orient, turn));
                assert!(!rs.path.is_empty(), "w {} orient {} turn {}", w, orient, turn);
            }
        }
    }
}

#[test]
fn at_least_eight_percent_of_rolled_rocks_hold_gold() {
    let rs = fresh(25);
    let gold = rs
        .tiles
        .iter()
        .filter(|t| matches!(t.kind, TileKind::Rock { has_gold: true, .. }))
        .count();
    assert_eq!(gold, 50);
}
