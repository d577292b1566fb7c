use maze_defence::records::{MetaRecords, RunStats};
use maze_defence::upgrades::{all_upgrade_ids, play_area_size_for_level, upgrade_def, UpgradeId, UpgradeState};
use maze_defence::web::{compute_depths, depth_of, upgrades_above, upgrades_below, visible_upgrades};

#[test]
fn tower_damage_costs_grow_by_sixty_percent() {
    let mut ups = UpgradeState::new();
    let mut costs = Vec::new();
    while let Some(c) = ups.next_cost(UpgradeId::TowerDamage1) {
        costs.push(c);
        ups.purchase(UpgradeId::TowerDamage1);
    }
    assert_eq!(costs, vec![12, 19, 31, 49, 79]);
    assert_eq!(ups.level(UpgradeId::TowerDamage1), 5);
    assert_eq!(ups.total_spent(), 190);
}

#[test]
fn health_costs() {
    let mut ups = UpgradeState::new();
    assert_eq!(ups.next_cost(UpgradeId::HealthStart), Some(14));
    ups.purchase(UpgradeId::HealthStart);
    assert_eq!(ups.next_cost(UpgradeId::HealthStart), Some(16));
    ups.purchase(UpgradeId::HealthStart);
    assert_eq!(ups.next_cost(UpgradeId::HealthStart), Some(18));
    ups.purchase(UpgradeId::HealthStart);
    assert_eq!(ups.next_cost(UpgradeId::HealthStart), Some(21));
    ups.purchase(UpgradeId::HealthStart);
    assert_eq!(ups.next_cost(UpgradeId::HealthStart), Some(24));
}

#[test]
fn fire_rate_costs() {
    let mut ups = UpgradeState::new();
    let mut costs = Vec::new();
    while let Some(c) = ups.next_cost(UpgradeId::FireRate) {
        costs.push(c);
        ups.purchase(UpgradeId::FireRate);
    }
    assert_eq!(costs, vec![21, 26, 32, 40, 49]);
}

fn path_total(steps: &[(UpgradeId, u8)]) -> u64 {
    let mut ups = UpgradeState::new();
    for &(id, lvl) in steps {
        ups.set_level(id, lvl);
    }
    ups.total_spent()
}

#[test]
fn tile_unlock_paths_cost_what_they_should() {
    assert_eq!(path_total(&[(UpgradeId::TowerDamage1, 1), (UpgradeId::FireRate, 3)]), 12 + 79);
    assert_eq!(path_total(&[(UpgradeId::TowerDamage1, 1), (UpgradeId::FireRate, 3), (UpgradeId::BoostColdUnlock, 1)]), 121);
    assert_eq!(path_total(&[(UpgradeId::TowerDamage1, 1), (UpgradeId::FireRate, 5)]), 12 + 168);
    assert_eq!(path_total(&[(UpgradeId::TowerDamage1, 1), (UpgradeId::FireRate, 5), (UpgradeId::BoostFireUnlock, 1)]), 215);
    assert_eq!(path_total(&[(UpgradeId::TowerDamage1, 1), (UpgradeId::HealthStart, 3)]), 12 + 48);
    assert_eq!(path_total(&[(UpgradeId::TowerDamage1, 1), (UpgradeId::HealthStart, 3), (UpgradeId::BoostHealingUnlock, 1)]), 95);
    assert_eq!(
        path_total(&[(UpgradeId::TowerDamage1, 1), (UpgradeId::HealthStart, 3), (UpgradeId::BoostHealingUnlock, 1), (UpgradeId::BoostPoisonUnlock, 1)]),
        130
    );
}

#[test]
fn purchase_stops_at_the_cap() {
    let mut ups = UpgradeState::new();
    for _ in 0..8 {
        ups.purchase(UpgradeId::StartingGold);
    }
    assert_eq!(ups.level(UpgradeId::StartingGold), 5);
    assert_eq!(ups.next_cost(UpgradeId::StartingGold), None);
    assert!(!ups.can_purchase(UpgradeId::StartingGold));
}

#[test]
fn set_level_is_capped() {
    let mut ups = UpgradeState::new();
    ups.set_level(UpgradeId::TowerDamage1, 200);
    assert_eq!(ups.level(UpgradeId::TowerDamage1), 5);
    assert_eq!(ups.max_level(UpgradeId::PlayAreaSize), 10);
}

#[test]
fn prerequisites_unlock_upgrades() {
    let mut ups = UpgradeState::default();
    assert!(ups.is_unlocked(UpgradeId::TowerDamage1));
    assert!(ups.can_purchase(UpgradeId::TowerDamage1));
    assert!(!ups.is_unlocked(UpgradeId::HealthStart));
    assert!(!ups.can_purchase(UpgradeId::HealthStart));
    ups.purchase(UpgradeId::TowerDamage1);
    assert!(ups.can_purchase(UpgradeId::HealthStart));
    assert!(!ups.is_unlocked(UpgradeId::PlayAreaSize));
    ups.set_level(UpgradeId::MiningSpeed, 3);
    assert!(ups.is_unlocked(UpgradeId::PlayAreaSize));
}

#[test]
fn spending_is_the_sum_of_quoted_costs() {
    let mut ups = UpgradeState::new();
    let mut quoted = 0u64;
    for id in [UpgradeId::TowerDamage1, UpgradeId::HealthStart, UpgradeId::HealthStart, UpgradeId::MiningSpeed] {
        let before = ups.total_spent();
        let c = ups.next_cost(id).unwrap();
        ups.purchase(id);
        assert_eq!(ups.total_spent(), before + c);
        quoted += c;
    }
    assert_eq!(ups.total_spent(), quoted);
}

#[test]
fn keys_and_definitions() {
    assert_eq!(UpgradeId::TowerDamage1.key(), "TowerDamage1");
    assert_eq!(UpgradeId::BoostHealingPower.key(), "BoostHealingPower");
    let d = upgrade_def(UpgradeId::HealthStart);
    assert_eq!(d.display_name, "Max Health");
    assert_eq!(d.category, "Health");
    assert_eq!(d.max_level, 5);
    assert_eq!(d.prerequisites.len(), 1);
    assert_eq!(d.prerequisites[0].id, UpgradeId::TowerDamage1);
    let ids = all_upgrade_ids();
    assert_eq!(ids.len(), 36);
    assert_eq!(ids[0], UpgradeId::TowerDamage1);
    assert_eq!(ids[35], UpgradeId::SplashRadius);
}

#[test]
fn refund_rate_defaults_to_full() {
    let mut ups = UpgradeState::new();
    assert_eq!(ups.tower_refund_rate_percent(), 100);
    ups.set_tower_refund_rate_percent(50);
    assert_eq!(ups.tower_refund_rate_percent(), 50);
}

#[test]
fn play_area_sizes() {
    let sizes: Vec<u32> = (0..=12u8).map(play_area_size_for_level).collect();
    assert_eq!(sizes, vec![10, 14, 18, 24, 32, 40, 52, 64, 80, 96, 112, 112, 112]);
}

#[test]
fn depths_in_the_upgrade_web() {
    let d = compute_depths();
    assert_eq!(d.len(), 36);
    assert_eq!(depth_of(&d, UpgradeId::TowerDamage1), 0);
    assert_eq!(depth_of(&d, UpgradeId::HealthStart), 1);
    assert_eq!(depth_of(&d, UpgradeId::SplashRadius), 1);
    assert_eq!(depth_of(&d, UpgradeId::GoldTileReward), 3);
    assert_eq!(depth_of(&d, UpgradeId::BoostPoisonUnlock), 3);
    assert_eq!(depth_of(&d, UpgradeId::BoostPoisonDuration), 5);
}

#[test]
fn records_keep_the_best_results() {
    let mut r = MetaRecords::default();
    let first = r.update_from_stats(&RunStats { time_survived_secs: 30, loops_completed: 2, blocks_mined: 5 });
    assert_eq!(first, vec!["time", "loops", "blocks"]);
    assert_eq!(r.total_runs, 1);
    let second = r.update_from_stats(&RunStats { time_survived_secs: 20, loops_completed: 3, blocks_mined: 5 });
    assert_eq!(second, vec!["loops"]);
    assert_eq!(r, MetaRecords { best_time_secs: 30, best_loops: 3, best_blocks_mined: 5, total_runs: 2 });
}

#[test]
fn buying_needs_research_and_prerequisites() {
    let mut ups = UpgradeState::new();
    assert_eq!(ups.buy_with(UpgradeId::TowerDamage1, 11), None);
    assert_eq!(ups.level(UpgradeId::TowerDamage1), 0);
    assert_eq!(ups.buy_with(UpgradeId::HealthStart, 1000), None);
    assert_eq!(ups.buy_with(UpgradeId::TowerDamage1, 12), Some(12));
    assert_eq!(ups.level(UpgradeId::TowerDamage1), 1);
    assert_eq!(ups.buy_with(UpgradeId::HealthStart, 1000), Some(14));
    ups.set_level(UpgradeId::TowerDamage1, 5);
    assert_eq!(ups.buy_with(UpgradeId::TowerDamage1, 1000), None);
}

#[test]
fn respec_returns_everything_spent() {
    let mut ups = UpgradeState::new();
    ups.set_tower_refund_rate_percent(80);
    ups.purchase(UpgradeId::TowerDamage1);
    ups.purchase(UpgradeId::TowerDamage1);
    let (fresh, research) = ups.respec(5);
    assert_eq!(research, 5 + 12 + 19);
    assert_eq!(fresh.level(UpgradeId::TowerDamage1), 0);
    assert_eq!(fresh.tower_refund_rate_percent(), 80);
    let (_, capped) = ups.respec(u64::MAX);
    assert_eq!(capped, u64::MAX);
}

#[test]
fn upgrade_web_grows_from_the_root() {
    let mut ups = UpgradeState::new();
    let shown = visible_upgrades(&ups);
    assert!(shown[UpgradeId::TowerDamage1.def_index()]);
    assert!(!shown[UpgradeId::HealthStart.def_index()]);
    assert_eq!(shown.iter().filter(|b| **b).count(), 1);
    // A level bought before the prerequisites changed does not make an
    // orphan show: Life Regeneration's own prerequisite is met, but its
    // parent Max Health is hidden while Tower Damage is unbought.
    ups.set_level(UpgradeId::HealthStart, 3);
    let shown = visible_upgrades(&ups);
    assert!(!shown[UpgradeId::HealthStart.def_index()]);
    assert!(!shown[UpgradeId::LifeRegen.def_index()]);
    ups.set_level(UpgradeId::TowerDamage1, 1);
    let shown = visible_upgrades(&ups);
    assert!(shown[UpgradeId::HealthStart.def_index()]);
    assert!(shown[UpgradeId::LifeRegen.def_index()]);
    assert!(shown[UpgradeId::FireRate.def_index()]);
    assert!(!shown[UpgradeId::VampiricHealing.def_index()]);
}

#[test]
fn keys_are_the_variant_names() {
    assert_eq!(UpgradeId::StartingGold.key(), "StartingGold");
    assert_eq!(UpgradeId::BoostHealingUnlock.key(), "BoostHealingUnlock");
    let ids = all_upgrade_ids();
    for a in &ids {
        for b in &ids {
            assert_eq!(a.key() == b.key(), a == b);
        }
    }
}

#[test]
fn hover_marks_the_chain_above_and_the_subtree_below() {
    let above = upgrades_above(UpgradeId::LifeRegen);
    let marked: Vec<UpgradeId> = all_upgrade_ids().into_iter().filter(|id| above[id.def_index()]).collect();
    assert_eq!(marked.len(), 3);
    assert!(above[UpgradeId::LifeRegen.def_index()]);
    assert!(above[UpgradeId::HealthStart.def_index()]);
    assert!(above[UpgradeId::TowerDamage1.def_index()]);
    let below = upgrades_below(UpgradeId::HealthStart);
    for id in [
        UpgradeId::HealthStart,
        UpgradeId::VampiricHealing,
        UpgradeId::LifeRegen,
        UpgradeId::BoostHealingUnlock,
        UpgradeId::BoostHealingPower,
        UpgradeId::BoostPoisonUnlock,
    ] {
        assert!(below[id.def_index()], "{:?}", id);
    }
    assert!(!below[UpgradeId::TowerDamage1.def_index()]);
    assert!(!below[UpgradeId::FireRate.def_index()]);
    let root_below = upgrades_below(UpgradeId::TowerDamage1);
    assert!(root_below.iter().all(|b| *b));
}
