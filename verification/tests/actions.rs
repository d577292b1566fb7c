use maze_defence::grid::{BoostKind, GridSize, Position, TileKind};
use maze_defence::run::{RunAction, RunEffect, RunState, Tower, TowerKind};
use maze_defence::upgrades::{UpgradeId, UpgradeState};
use maze_defence::worldgen::GenRolls;

fn plain_rolls(n: usize) -> GenRolls {
    GenRolls { tiles: vec![(false, None); n], orient: 0, turn_positive: true }
}

fn fresh10() -> RunState {
    RunState::new_basic(GridSize { width: 10, height: 10 }, &plain_rolls(100))
}

fn with_upgrades(ups: &UpgradeState, rolls: &GenRolls) -> RunState {
    RunState::new_with_upgrades(GridSize { width: 10, height: 10 }, ups, rolls)
}

#[test]
fn toggle_pause_and_start() {
    let rs = fresh10();
    let (rs, eff) = rs.reduce(RunAction::TogglePause);
    assert!(rs.is_paused);
    assert!(eff.is_empty());
    assert_eq!(rs.version, 1);
    let (rs, _) = rs.reduce(RunAction::StartRun);
    assert!(rs.started);
    assert_eq!(rs.version, 2);
    let mut over = rs.clone();
    over.game_over = true;
    over.life = 0;
    let (over, _) = over.reduce(RunAction::TogglePause);
    assert!(over.is_paused, "a finished run keeps its pause state");
}

#[test]
fn start_run_refused_when_over() {
    let mut rs = fresh10();
    rs.game_over = true;
    rs.life = 0;
    let (rs, _) = rs.reduce(RunAction::StartRun);
    assert!(!rs.started);
    assert_eq!(rs.version, 1);
}

#[test]
fn tick_only_counts_while_running() {
    let rs = fresh10();
    let (rs, eff) = rs.reduce(RunAction::TickSecond);
    assert_eq!(rs.stats.time_survived_secs, 0);
    assert!(eff.is_empty());
    assert_eq!(rs.version, 1);
    let (rs, _) = rs.reduce(RunAction::StartRun);
    let (rs, _) = rs.reduce(RunAction::TickSecond);
    assert_eq!(rs.stats.time_survived_secs, 1);
    let (rs, _) = rs.reduce(RunAction::TogglePause);
    let (rs, _) = rs.reduce(RunAction::TickSecond);
    assert_eq!(rs.stats.time_survived_secs, 1);
}

#[test]
fn life_regenerates_in_half_points() {
    let mut ups = UpgradeState::new();
    ups.set_level(UpgradeId::LifeRegen, 1);
    let mut rs = with_upgrades(&ups, &plain_rolls(100));
    assert_eq!(rs.life_regen_halves_per_sec, 1);
    rs.started = true;
    rs.life = 5;
    let (rs, _) = rs.reduce(RunAction::TickSecond);
    assert_eq!(rs.life, 5);
    assert_eq!(rs.life_regen_accum_halves, 1);
    let (rs, _) = rs.reduce(RunAction::TickSecond);
    assert_eq!(rs.life, 6);
    assert_eq!(rs.life_regen_accum_halves, 0);
}

#[test]
fn regeneration_stops_at_the_maximum() {
    let mut ups = UpgradeState::new();
    ups.set_level(UpgradeId::LifeRegen, 5);
    let mut rs = with_upgrades(&ups, &plain_rolls(100));
    rs.started = true;
    rs.life = 9;
    let (rs, _) = rs.reduce(RunAction::TickSecond);
    assert_eq!(rs.life, 10);
    assert_eq!(rs.life_regen_accum_halves, 1);
    let (rs, _) = rs.reduce(RunAction::TickSecond);
    assert_eq!(rs.life, 10);
    assert_eq!(rs.life_regen_accum_halves, 1, "no regeneration at full life");
}

#[test]
fn healing_towers_pulse_every_two_seconds() {
    let mut rolls = plain_rolls(100);
    rolls.tiles[58].1 = Some(BoostKind::Range);
    let mut ups = UpgradeState::new();
    ups.set_level(UpgradeId::BoostHealingUnlock, 1);
    ups.set_level(UpgradeId::BoostHealingPower, 1);
    let rs = with_upgrades(&ups, &rolls);
    assert_eq!(rs.healing_heal_halves_per_tick, 2);
    let (mut rs, eff) = rs.reduce(RunAction::PlaceTower { x: 8, y: 5, kind: TowerKind::Basic });
    assert_eq!(eff, vec![RunEffect::TowerPlaced { x: 8, y: 5 }]);
    assert_eq!(rs.towers[0].boost, Some(BoostKind::Range));
    rs.started = true;
    rs.life = 5;
    let (rs, eff) = rs.reduce(RunAction::TickSecond);
    assert!(eff.is_empty());
    assert_eq!(rs.life, 5);
    let (rs, eff) = rs.reduce(RunAction::TickSecond);
    assert_eq!(eff, vec![RunEffect::Healed { x: 8, y: 5, amount: 1 }]);
    assert_eq!(rs.life, 6);
    assert_eq!(rs.healing_tile_timer, 0);
}

#[test]
fn mining_a_gold_rock_pays_and_reroutes() {
    let rs = fresh10();
    let (rs, eff) = rs.reduce(RunAction::MiningComplete { idx: 0, mining_crit: false });
    assert_eq!(eff, vec![RunEffect::GoldMined { idx: 0, amount: 1, crit: false }, RunEffect::Rerouted]);
    assert_eq!(rs.currencies.gold, 3);
    assert_eq!(rs.currencies.tile_credits, 1);
    assert_eq!(rs.stats.blocks_mined, 1);
    assert_eq!(rs.tiles[0].kind, TileKind::Empty);
    assert_eq!(rs.tiles[0].hardness, 1);
    assert_eq!(rs.last_mined_idx, Some(0));
    let (rs, eff) = rs.reduce(RunAction::MiningComplete { idx: 1, mining_crit: true });
    assert_eq!(eff[0], RunEffect::GoldMined { idx: 1, amount: 2, crit: true });
    assert_eq!(rs.currencies.gold, 5);
}

#[test]
fn gold_reward_upgrade_rounds_half_up() {
    let mut ups = UpgradeState::new();
    ups.set_level(UpgradeId::GoldTileReward, 5);
    let rs = with_upgrades(&ups, &plain_rolls(100));
    assert_eq!(rs.mining_gold_pct, 175);
    let (rs, eff) = rs.reduce(RunAction::MiningComplete { idx: 0, mining_crit: false });
    assert_eq!(eff[0], RunEffect::GoldMined { idx: 0, amount: 2, crit: false });
    let (_, eff) = rs.reduce(RunAction::MiningComplete { idx: 1, mining_crit: true });
    assert_eq!(eff[0], RunEffect::GoldMined { idx: 1, amount: 4, crit: true });
}

#[test]
fn mining_a_plain_rock_and_a_wall() {
    let rs = fresh10();
    let (rs, eff) = rs.reduce(RunAction::MiningComplete { idx: 58, mining_crit: false });
    assert_eq!(eff, vec![RunEffect::Rerouted]);
    assert_eq!(rs.currencies.gold, 2);
    assert_eq!(rs.stats.blocks_mined, 1);
    let (rs, eff) = rs.reduce(RunAction::PlaceWall { x: 8, y: 5 });
    assert_eq!(eff, vec![RunEffect::Rerouted]);
    assert_eq!(rs.tiles[58].kind, TileKind::Wall);
    let (rs, eff) = rs.reduce(RunAction::MiningComplete { idx: 58, mining_crit: false });
    assert_eq!(eff, vec![RunEffect::Rerouted]);
    assert_eq!(rs.tiles[58].kind, TileKind::Empty);
    assert_eq!(rs.currencies.tile_credits, 2);
    assert_eq!(rs.stats.blocks_mined, 1, "walls do not count as mined blocks");
}

#[test]
fn mining_other_tiles_only_records_the_attempt() {
    let rs = fresh10();
    let (rs, eff) = rs.reduce(RunAction::MiningComplete { idx: 55, mining_crit: false });
    assert!(eff.is_empty());
    assert_eq!(rs.tiles[55].kind, TileKind::Start);
    assert_eq!(rs.last_mined_idx, Some(55));
    let (rs, eff) = rs.reduce(RunAction::MiningComplete { idx: 1000, mining_crit: false });
    assert!(eff.is_empty());
    assert_eq!(rs.last_mined_idx, Some(55));
    let mut over = rs.clone();
    over.game_over = true;
    over.life = 0;
    let (over, eff) = over.reduce(RunAction::MiningComplete { idx: 0, mining_crit: false });
    assert!(eff.is_empty());
    assert!(matches!(over.tiles[0].kind, TileKind::Rock { .. }));
}

#[test]
fn a_wall_that_would_block_the_path_is_refused() {
    let rs = fresh10();
    let path_before = rs.path.clone();
    let (rs, eff) = rs.reduce(RunAction::PlaceWall { x: 5, y: 8 });
    assert!(eff.is_empty());
    assert_eq!(rs.tiles[85].kind, TileKind::Empty);
    assert_eq!(rs.path, path_before);
    assert_eq!(rs.version, 1);
    let (rs, eff) = rs.reduce(RunAction::PlaceWall { x: 0, y: 0 });
    assert!(eff.is_empty(), "walls go on empty tiles only");
    let (_, eff) = rs.reduce(RunAction::PlaceWall { x: 10, y: 0 });
    assert!(eff.is_empty());
}

#[test]
fn towers_are_built_and_refunded() {
    let rs = fresh10();
    let (rs, eff) = rs.reduce(RunAction::PlaceTower { x: 8, y: 5, kind: TowerKind::Basic });
    assert_eq!(eff, vec![RunEffect::TowerPlaced { x: 8, y: 5 }]);
    assert_eq!(rs.currencies.gold, 0);
    assert_eq!(rs.towers, vec![Tower { x: 8, y: 5, kind: TowerKind::Basic, damage: 2, boost: None }]);
    let (rs, eff) = rs.reduce(RunAction::PlaceTower { x: 8, y: 6, kind: TowerKind::Basic });
    assert!(eff.is_empty(), "not enough gold");
    let (rs, eff) = rs.reduce(RunAction::RemoveTower { x: 8, y: 5 });
    assert_eq!(eff, vec![RunEffect::TowerRemoved { x: 8, y: 5 }]);
    assert_eq!(rs.currencies.gold, 2);
    assert!(rs.towers.is_empty());
    let (_, eff) = rs.reduce(RunAction::RemoveTower { x: 8, y: 5 });
    assert!(eff.is_empty());
}

#[test]
fn towers_need_rock_or_wall_and_a_free_tile() {
    let mut rs = fresh10();
    rs.currencies.gold = 10;
    let (rs, eff) = rs.reduce(RunAction::PlaceTower { x: 7, y: 5, kind: TowerKind::Basic });
    assert!(eff.is_empty(), "empty tile");
    let (rs, _) = rs.reduce(RunAction::PlaceTower { x: 0, y: 0, kind: TowerKind::Damage });
    let (rs, eff) = rs.reduce(RunAction::PlaceTower { x: 0, y: 0, kind: TowerKind::Slow });
    assert!(eff.is_empty(), "tile taken");
    assert_eq!(rs.towers.len(), 1);
    assert_eq!(rs.towers[0].damage, 4);
    assert_eq!(rs.currencies.gold, 8);
    let (_, eff) = rs.reduce(RunAction::PlaceTower { x: 0, y: 10, kind: TowerKind::Slow });
    assert!(eff.is_empty(), "off the grid");
}

#[test]
fn resource_recovery_raises_refunds() {
    let mut ups = UpgradeState::new();
    ups.set_level(UpgradeId::ResourceRecovery, 5);
    let rs = with_upgrades(&ups, &plain_rolls(100));
    assert_eq!(rs.tower_refund_pct, 200);
    let (rs, _) = rs.reduce(RunAction::PlaceTower { x: 8, y: 5, kind: TowerKind::Basic });
    assert_eq!(rs.currencies.gold, 0);
    let (rs, _) = rs.reduce(RunAction::RemoveTower { x: 8, y: 5 });
    assert_eq!(rs.currencies.gold, 4);
}

#[test]
fn research_is_spent_only_when_there_is_enough() {
    let rs = fresh10();
    let (rs, _) = rs.reduce(RunAction::SetResearch { amount: 30 });
    assert_eq!(rs.currencies.research, 30);
    let (rs, _) = rs.reduce(RunAction::SpendResearch { amount: 12 });
    assert_eq!(rs.currencies.research, 18);
    let (rs, _) = rs.reduce(RunAction::SpendResearch { amount: 19 });
    assert_eq!(rs.currencies.research, 18);
    assert_eq!(rs.version, 3);
}

#[test]
fn reset_keeps_research_and_counts_runs() {
    let rs = fresh10();
    let (rs, _) = rs.reduce(RunAction::SetResearch { amount: 40 });
    let (rs, _) = rs.reduce(RunAction::MiningComplete { idx: 0, mining_crit: false });
    let (rs, eff) = rs.reduce(RunAction::ResetRun { rolls: plain_rolls(100) });
    assert!(eff.is_empty());
    assert_eq!(rs.currencies.research, 40);
    assert_eq!(rs.currencies.gold, 2);
    assert_eq!(rs.run_id, 1);
    assert_eq!(rs.version, 0);
    assert!(matches!(rs.tiles[0].kind, TileKind::Rock { .. }));
}

#[test]
fn reset_with_upgrades_grows_the_play_area() {
    let rs = fresh10();
    let mut ups = UpgradeState::new();
    ups.set_level(UpgradeId::PlayAreaSize, 1);
    ups.set_level(UpgradeId::HealthStart, 2);
    let (rs, _) = rs.reduce(RunAction::SetResearch { amount: 7 });
    let (rs, _) = rs.reduce(RunAction::ResetRunWithUpgrades { ups, rolls: plain_rolls(196) });
    assert_eq!(rs.grid_size, GridSize { width: 14, height: 14 });
    assert_eq!(rs.tiles.len(), 196);
    assert_eq!(rs.currencies.research, 7);
    assert_eq!(rs.run_id, 1);
    assert_eq!(rs.life_max, 20);
    assert_eq!(rs.life, 20);
    assert_eq!(rs.player_power_level, 3);
    assert_eq!(rs.tiles[7 * 14 + 7].kind, TileKind::Start);
}

#[test]
fn apply_upgrades_sets_base_values() {
    let mut ups = UpgradeState::new();
    ups.set_level(UpgradeId::TowerDamage1, 5);
    ups.set_level(UpgradeId::KillBounty, 2);
    ups.set_level(UpgradeId::GoldTileReward, 3);
    let rs = fresh10();
    let (rs, eff) = rs.reduce(RunAction::ApplyUpgrades { ups });
    assert!(eff.is_empty());
    assert_eq!(rs.tower_base_damage, 3);
    assert_eq!(rs.gold_bounty_per_kill, 2);
    assert_eq!(rs.mining_gold_pct, 145);
    assert_eq!(rs.player_power_level, 10);
    assert_eq!(rs.version, 1);
}

#[test]
fn poison_tiles_raise_tower_damage() {
    let mut rolls = plain_rolls(100);
    rolls.tiles[58].1 = Some(BoostKind::Damage);
    let mut unlock = UpgradeState::new();
    unlock.set_level(UpgradeId::BoostPoisonUnlock, 1);
    let mut rs = with_upgrades(&unlock, &rolls);
    rs.currencies.gold = 10;
    let (rs, _) = rs.reduce(RunAction::PlaceTower { x: 8, y: 5, kind: TowerKind::Damage });
    assert_eq!(rs.towers[0].damage, 4);
    let mut ups = UpgradeState::new();
    ups.set_level(UpgradeId::BoostPoisonDamage, 5);
    ups.set_level(UpgradeId::TowerDamage1, 5);
    let (rs, _) = rs.reduce(RunAction::ApplyUpgrades { ups });
    assert_eq!(rs.towers[0].damage, 8, "6 * 1.25 = 7.5 rounds to 8");
}


#[test]
fn tower_kinds_set_damage() {
    let basic = Tower::new(1, 2, TowerKind::Basic, 3, None);
    assert_eq!(basic, Tower { x: 1, y: 2, kind: TowerKind::Basic, damage: 3, boost: None });
    assert_eq!(Tower::new(0, 0, TowerKind::Slow, 3, None).damage, 1);
    assert_eq!(Tower::new(0, 0, TowerKind::Slow, 1, None).damage, 1);
    assert_eq!(Tower::new(0, 0, TowerKind::Slow, 8, None).damage, 4);
    assert_eq!(Tower::new(0, 0, TowerKind::Damage, 3, None).damage, 6);
    assert_eq!(Tower::new(0, 0, TowerKind::Damage, u32::MAX, None).damage, u32::MAX);
}

#[test]
fn kills_pay_research_and_bounty() {
    let mut rs = fresh10();
    rs.reward_kills(3);
    assert_eq!(rs.currencies.research, 3);
    assert_eq!(rs.currencies.gold, 2);
    rs.gold_bounty_per_kill = 2;
    rs.reward_kills(4);
    assert_eq!(rs.currencies.research, 7);
    assert_eq!(rs.currencies.gold, 10);
    rs.reward_kills(0);
    assert_eq!(rs.currencies.research, 7);
}

#[test]
fn a_completed_loop_costs_a_life() {
    let mut rs = fresh10();
    rs.life = 2;
    rs.enemy_looped();
    assert_eq!(rs.life, 1);
    assert!(!rs.game_over);
    assert_eq!(rs.stats.loops_completed, 1);
    rs.enemy_looped();
    assert_eq!(rs.life, 0);
    assert!(rs.game_over);
    rs.enemy_looped();
    assert_eq!(rs.life, 0);
    assert_eq!(rs.stats.loops_completed, 3);
}

#[test]
fn vampiric_heal_is_capped() {
    let mut rs = fresh10();
    rs.life = 8;
    rs.vampiric_heal(5);
    assert_eq!(rs.life, 10);
    rs.vampiric_heal(1);
    assert_eq!(rs.life, 10);
    rs.life = 3;
    rs.vampiric_heal(0);
    assert_eq!(rs.life, 3);
}

#[test]
fn running_and_versions() {
    let mut rs = fresh10();
    assert!(!rs.is_running());
    rs.started = true;
    assert!(rs.is_running());
    rs.is_paused = true;
    assert!(!rs.is_running());
    rs.version = u64::MAX;
    rs.count_version();
    assert_eq!(rs.version, 0);
}

#[test]
fn the_loop_runs_from_start_through_the_corridor() {
    let rs = fresh10();
    assert_eq!(rs.path.len(), 11);
    assert_eq!(rs.path[0], Position { x: 7, y: 5 });
    assert_eq!(rs.path[10], Position { x: 3, y: 5 });
    assert_eq!(rs.path_loop.len(), 14);
    assert_eq!(rs.path_loop[0], Position { x: 5, y: 5 });
    assert_eq!(rs.path_loop[1], Position { x: 6, y: 5 });
    assert_eq!(rs.path_loop[13], Position { x: 4, y: 5 });
}
