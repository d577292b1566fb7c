//! The upgrade web: every upgrade, its level cap, its cost curve and its
//! prerequisites, and the levels the player has bought.

use vstd::prelude::*;
use vstd::arithmetic::div_mod::{lemma_div_is_ordered, lemma_div_by_multiple};

verus! {

/// Number of upgrades in the upgrade table.
pub const UPGRADE_COUNT: usize = 36;

/// Every upgrade, in the order of the upgrade table.
#[derive(Clone, Copy, Debug, PartialEq, Eq, Hash, Structural)]
pub enum UpgradeId {
    TowerDamage1,
    FireRate,
    CritChance,
    CritDamage,
    ProjectileSpeed,
    HealthStart,
    VampiricHealing,
    LifeRegen,
    MiningSpeed,
    ResourceRecovery,
    GoldTileChance,
    GoldTileReward,
    StartingGold,
    MiningCrit,
    KillBounty,
    BoostColdUnlock,
    BoostColdFrequency,
    BoostColdSlowAmount,
    BoostColdSlowDuration,
    BoostColdRange,
    BoostPoisonUnlock,
    BoostPoisonFrequency,
    BoostPoisonDamage,
    BoostPoisonDuration,
    BoostPoisonRange,
    BoostFireUnlock,
    BoostFireFrequency,
    BoostFireDamage,
    BoostFireDuration,
    BoostFireSpread,
    BoostFireRange,
    BoostHealingUnlock,
    BoostHealingFrequency,
    BoostHealingPower,
    PlayAreaSize,
    SplashRadius,
}

/// Position of an upgrade in the upgrade table.
pub open spec fn def_index(id: UpgradeId) -> int {
    match id {
        UpgradeId::TowerDamage1 => 0,
        UpgradeId::HealthStart => 1,
        UpgradeId::VampiricHealing => 2,
        UpgradeId::LifeRegen => 3,
        UpgradeId::FireRate => 4,
        UpgradeId::CritChance => 5,
        UpgradeId::CritDamage => 6,
        UpgradeId::ProjectileSpeed => 7,
        UpgradeId::MiningSpeed => 8,
        UpgradeId::ResourceRecovery => 9,
        UpgradeId::GoldTileChance => 10,
        UpgradeId::GoldTileReward => 11,
        UpgradeId::StartingGold => 12,
        UpgradeId::MiningCrit => 13,
        UpgradeId::KillBounty => 14,
        UpgradeId::BoostColdUnlock => 15,
        UpgradeId::BoostColdFrequency => 16,
        UpgradeId::BoostColdSlowAmount => 17,
        UpgradeId::BoostColdSlowDuration => 18,
        UpgradeId::BoostColdRange => 19,
        UpgradeId::BoostPoisonUnlock => 20,
        UpgradeId::BoostPoisonFrequency => 21,
        UpgradeId::BoostPoisonDamage => 22,
        UpgradeId::BoostPoisonDuration => 23,
        UpgradeId::BoostPoisonRange => 24,
        UpgradeId::BoostFireUnlock => 25,
        UpgradeId::BoostFireFrequency => 26,
        UpgradeId::BoostFireDamage => 27,
        UpgradeId::BoostFireDuration => 28,
        UpgradeId::BoostFireSpread => 29,
        UpgradeId::BoostFireRange => 30,
        UpgradeId::BoostHealingUnlock => 31,
        UpgradeId::BoostHealingFrequency => 32,
        UpgradeId::BoostHealingPower => 33,
        UpgradeId::PlayAreaSize => 34,
        UpgradeId::SplashRadius => 35,
    }
}

/// The upgrade at a position of the upgrade table.
pub open spec fn def_id_at(k: int) -> UpgradeId {
    if k == 0 {
        UpgradeId::TowerDamage1
    } else if k == 1 {
        UpgradeId::HealthStart
    } else if k == 2 {
        UpgradeId::VampiricHealing
    } else if k == 3 {
        UpgradeId::LifeRegen
    } else if k == 4 {
        UpgradeId::FireRate
    } else if k == 5 {
        UpgradeId::CritChance
    } else if k == 6 {
        UpgradeId::CritDamage
    } else if k == 7 {
        UpgradeId::ProjectileSpeed
    } else if k == 8 {
        UpgradeId::MiningSpeed
    } else if k == 9 {
        UpgradeId::ResourceRecovery
    } else if k == 10 {
        UpgradeId::GoldTileChance
    } else if k == 11 {
        UpgradeId::GoldTileReward
    } else if k == 12 {
        UpgradeId::StartingGold
    } else if k == 13 {
        UpgradeId::MiningCrit
    } else if k == 14 {
        UpgradeId::KillBounty
    } else if k == 15 {
        UpgradeId::BoostColdUnlock
    } else if k == 16 {
        UpgradeId::BoostColdFrequency
    } else if k == 17 {
        UpgradeId::BoostColdSlowAmount
    } else if k == 18 {
        UpgradeId::BoostColdSlowDuration
    } else if k == 19 {
        UpgradeId::BoostColdRange
    } else if k == 20 {
        UpgradeId::BoostPoisonUnlock
    } else if k == 21 {
        UpgradeId::BoostPoisonFrequency
    } else if k == 22 {
        UpgradeId::BoostPoisonDamage
    } else if k == 23 {
        UpgradeId::BoostPoisonDuration
    } else if k == 24 {
        UpgradeId::BoostPoisonRange
    } else if k == 25 {
        UpgradeId::BoostFireUnlock
    } else if k == 26 {
        UpgradeId::BoostFireFrequency
    } else if k == 27 {
        UpgradeId::BoostFireDamage
    } else if k == 28 {
        UpgradeId::BoostFireDuration
    } else if k == 29 {
        UpgradeId::BoostFireSpread
    } else if k == 30 {
        UpgradeId::BoostFireRange
    } else if k == 31 {
        UpgradeId::BoostHealingUnlock
    } else if k == 32 {
        UpgradeId::BoostHealingFrequency
    } else if k == 33 {
        UpgradeId::BoostHealingPower
    } else if k == 34 {
        UpgradeId::PlayAreaSize
    } else {
        UpgradeId::SplashRadius
    }
}

/// Highest level an upgrade can be bought to.
pub open spec fn def_max_level(id: UpgradeId) -> u8 {
    match id {
        UpgradeId::TowerDamage1 => 5u8,
        UpgradeId::HealthStart => 5u8,
        UpgradeId::VampiricHealing => 3u8,
        UpgradeId::LifeRegen => 5u8,
        UpgradeId::FireRate => 5u8,
        UpgradeId::CritChance => 5u8,
        UpgradeId::CritDamage => 5u8,
        UpgradeId::ProjectileSpeed => 3u8,
        UpgradeId::MiningSpeed => 5u8,
        UpgradeId::ResourceRecovery => 5u8,
        UpgradeId::GoldTileChance => 5u8,
        UpgradeId::GoldTileReward => 5u8,
        UpgradeId::StartingGold => 5u8,
        UpgradeId::MiningCrit => 3u8,
        UpgradeId::KillBounty => 5u8,
        UpgradeId::BoostColdUnlock => 1u8,
        UpgradeId::BoostColdFrequency => 5u8,
        UpgradeId::BoostColdSlowAmount => 5u8,
        UpgradeId::BoostColdSlowDuration => 3u8,
        UpgradeId::BoostColdRange => 5u8,
        UpgradeId::BoostPoisonUnlock => 1u8,
        UpgradeId::BoostPoisonFrequency => 5u8,
        UpgradeId::BoostPoisonDamage => 5u8,
        UpgradeId::BoostPoisonDuration => 3u8,
        UpgradeId::BoostPoisonRange => 5u8,
        UpgradeId::BoostFireUnlock => 1u8,
        UpgradeId::BoostFireFrequency => 5u8,
        UpgradeId::BoostFireDamage => 5u8,
        UpgradeId::BoostFireDuration => 3u8,
        UpgradeId::BoostFireSpread => 3u8,
        UpgradeId::BoostFireRange => 5u8,
        UpgradeId::BoostHealingUnlock => 1u8,
        UpgradeId::BoostHealingFrequency => 5u8,
        UpgradeId::BoostHealingPower => 5u8,
        UpgradeId::PlayAreaSize => 10u8,
        UpgradeId::SplashRadius => 5u8,
    }
}

/// Research cost of an upgrade's first level.
pub open spec fn def_base_cost(id: UpgradeId) -> u64 {
    match id {
        UpgradeId::TowerDamage1 => 12u64,
        UpgradeId::HealthStart => 14u64,
        UpgradeId::VampiricHealing => 40u64,
        UpgradeId::LifeRegen => 35u64,
        UpgradeId::FireRate => 21u64,
        UpgradeId::CritChance => 25u64,
        UpgradeId::CritDamage => 40u64,
        UpgradeId::ProjectileSpeed => 20u64,
        UpgradeId::MiningSpeed => 10u64,
        UpgradeId::ResourceRecovery => 18u64,
        UpgradeId::GoldTileChance => 22u64,
        UpgradeId::GoldTileReward => 28u64,
        UpgradeId::StartingGold => 20u64,
        UpgradeId::MiningCrit => 45u64,
        UpgradeId::KillBounty => 60u64,
        UpgradeId::BoostColdUnlock => 30u64,
        UpgradeId::BoostColdFrequency => 20u64,
        UpgradeId::BoostColdSlowAmount => 25u64,
        UpgradeId::BoostColdSlowDuration => 35u64,
        UpgradeId::BoostColdRange => 30u64,
        UpgradeId::BoostPoisonUnlock => 35u64,
        UpgradeId::BoostPoisonFrequency => 25u64,
        UpgradeId::BoostPoisonDamage => 30u64,
        UpgradeId::BoostPoisonDuration => 40u64,
        UpgradeId::BoostPoisonRange => 30u64,
        UpgradeId::BoostFireUnlock => 35u64,
        UpgradeId::BoostFireFrequency => 20u64,
        UpgradeId::BoostFireDamage => 30u64,
        UpgradeId::BoostFireDuration => 40u64,
        UpgradeId::BoostFireSpread => 55u64,
        UpgradeId::BoostFireRange => 30u64,
        UpgradeId::BoostHealingUnlock => 35u64,
        UpgradeId::BoostHealingFrequency => 25u64,
        UpgradeId::BoostHealingPower => 30u64,
        UpgradeId::PlayAreaSize => 30u64,
        UpgradeId::SplashRadius => 50u64,
    }
}

/// Growth of an upgrade's cost per level bought, in percent.
pub open spec fn def_cost_permille(id: UpgradeId) -> u64 {
    match id {
        UpgradeId::TowerDamage1 => 1600u64,
        UpgradeId::HealthStart => 1140u64,
        UpgradeId::VampiricHealing => 1800u64,
        UpgradeId::LifeRegen => 1650u64,
        UpgradeId::FireRate => 1235u64,
        UpgradeId::CritChance => 1600u64,
        UpgradeId::CritDamage => 1700u64,
        UpgradeId::ProjectileSpeed => 1500u64,
        UpgradeId::MiningSpeed => 1500u64,
        UpgradeId::ResourceRecovery => 1550u64,
        UpgradeId::GoldTileChance => 1600u64,
        UpgradeId::GoldTileReward => 1650u64,
        UpgradeId::StartingGold => 1550u64,
        UpgradeId::MiningCrit => 1700u64,
        UpgradeId::KillBounty => 1850u64,
        UpgradeId::BoostColdUnlock => 1000u64,
        UpgradeId::BoostColdFrequency => 1600u64,
        UpgradeId::BoostColdSlowAmount => 1650u64,
        UpgradeId::BoostColdSlowDuration => 1700u64,
        UpgradeId::BoostColdRange => 1650u64,
        UpgradeId::BoostPoisonUnlock => 1000u64,
        UpgradeId::BoostPoisonFrequency => 1600u64,
        UpgradeId::BoostPoisonDamage => 1650u64,
        UpgradeId::BoostPoisonDuration => 1700u64,
        UpgradeId::BoostPoisonRange => 1650u64,
        UpgradeId::BoostFireUnlock => 1000u64,
        UpgradeId::BoostFireFrequency => 1600u64,
        UpgradeId::BoostFireDamage => 1650u64,
        UpgradeId::BoostFireDuration => 1700u64,
        UpgradeId::BoostFireSpread => 1850u64,
        UpgradeId::BoostFireRange => 1650u64,
        UpgradeId::BoostHealingUnlock => 1000u64,
        UpgradeId::BoostHealingFrequency => 1600u64,
        UpgradeId::BoostHealingPower => 1650u64,
        UpgradeId::PlayAreaSize => 1250u64,
        UpgradeId::SplashRadius => 1800u64,
    }
}

/// The levels of other upgrades an upgrade requires.
pub open spec fn def_prereqs(id: UpgradeId) -> Seq<Prereq> {
    match id {
        UpgradeId::TowerDamage1 => Seq::empty(),
        UpgradeId::HealthStart => seq![Prereq { id: UpgradeId::TowerDamage1, level: 1u8 }],
        UpgradeId::VampiricHealing => seq![Prereq { id: UpgradeId::HealthStart, level: 5u8 }],
        UpgradeId::LifeRegen => seq![Prereq { id: UpgradeId::HealthStart, level: 3u8 }],
        UpgradeId::FireRate => seq![Prereq { id: UpgradeId::TowerDamage1, level: 1u8 }],
        UpgradeId::CritChance => seq![Prereq { id: UpgradeId::FireRate, level: 3u8 }],
        UpgradeId::CritDamage => seq![Prereq { id: UpgradeId::CritChance, level: 5u8 }],
        UpgradeId::ProjectileSpeed => seq![Prereq { id: UpgradeId::FireRate, level: 2u8 }],
        UpgradeId::MiningSpeed => seq![Prereq { id: UpgradeId::TowerDamage1, level: 1u8 }],
        UpgradeId::ResourceRecovery => seq![Prereq { id: UpgradeId::MiningSpeed, level: 3u8 }],
        UpgradeId::GoldTileChance => seq![Prereq { id: UpgradeId::MiningSpeed, level: 2u8 }],
        UpgradeId::GoldTileReward => seq![Prereq { id: UpgradeId::GoldTileChance, level: 3u8 }],
        UpgradeId::StartingGold => seq![Prereq { id: UpgradeId::MiningSpeed, level: 2u8 }],
        UpgradeId::MiningCrit => seq![Prereq { id: UpgradeId::GoldTileReward, level: 3u8 }],
        UpgradeId::KillBounty => seq![Prereq { id: UpgradeId::GoldTileReward, level: 5u8 }],
        UpgradeId::BoostColdUnlock => seq![Prereq { id: UpgradeId::FireRate, level: 3u8 }],
        UpgradeId::BoostColdFrequency => seq![Prereq { id: UpgradeId::BoostColdUnlock, level: 1u8 }],
        UpgradeId::BoostColdSlowAmount => seq![Prereq { id: UpgradeId::BoostColdUnlock, level: 1u8 }],
        UpgradeId::BoostColdSlowDuration => seq![Prereq { id: UpgradeId::BoostColdSlowAmount, level: 3u8 }],
        UpgradeId::BoostColdRange => seq![Prereq { id: UpgradeId::BoostColdUnlock, level: 1u8 }],
        UpgradeId::BoostPoisonUnlock => seq![Prereq { id: UpgradeId::BoostHealingUnlock, level: 1u8 }],
        UpgradeId::BoostPoisonFrequency => seq![Prereq { id: UpgradeId::BoostPoisonUnlock, level: 1u8 }],
        UpgradeId::BoostPoisonDamage => seq![Prereq { id: UpgradeId::BoostPoisonUnlock, level: 1u8 }],
        UpgradeId::BoostPoisonDuration => seq![Prereq { id: UpgradeId::BoostPoisonDamage, level: 3u8 }],
        UpgradeId::BoostPoisonRange => seq![Prereq { id: UpgradeId::BoostPoisonUnlock, level: 1u8 }],
        UpgradeId::BoostFireUnlock => seq![Prereq { id: UpgradeId::FireRate, level: 5u8 }],
        UpgradeId::BoostFireFrequency => seq![Prereq { id: UpgradeId::BoostFireUnlock, level: 1u8 }],
        UpgradeId::BoostFireDamage => seq![Prereq { id: UpgradeId::BoostFireUnlock, level: 1u8 }],
        UpgradeId::BoostFireDuration => seq![Prereq { id: UpgradeId::BoostFireDamage, level: 3u8 }],
        UpgradeId::BoostFireSpread => seq![Prereq { id: UpgradeId::BoostFireDamage, level: 5u8 }],
        UpgradeId::BoostFireRange => seq![Prereq { id: UpgradeId::BoostFireUnlock, level: 1u8 }],
        UpgradeId::BoostHealingUnlock => seq![Prereq { id: UpgradeId::HealthStart, level: 3u8 }],
        UpgradeId::BoostHealingFrequency => seq![Prereq { id: UpgradeId::BoostHealingUnlock, level: 1u8 }],
        UpgradeId::BoostHealingPower => seq![Prereq { id: UpgradeId::BoostHealingUnlock, level: 1u8 }],
        UpgradeId::PlayAreaSize => seq![Prereq { id: UpgradeId::MiningSpeed, level: 3u8 }],
        UpgradeId::SplashRadius => seq![Prereq { id: UpgradeId::TowerDamage1, level: 3u8 }],
    }
}

/// Name shown for an upgrade.
pub open spec fn def_display_name(id: UpgradeId) -> Seq<char> {
    match id {
        UpgradeId::TowerDamage1 => "Tower Damage"@,
        UpgradeId::HealthStart => "Max Health"@,
        UpgradeId::VampiricHealing => "Vampiric Healing"@,
        UpgradeId::LifeRegen => "Life Regeneration"@,
        UpgradeId::FireRate => "Fire Rate"@,
        UpgradeId::CritChance => "Crit Chance"@,
        UpgradeId::CritDamage => "Crit Damage"@,
        UpgradeId::ProjectileSpeed => "Projectile Speed"@,
        UpgradeId::MiningSpeed => "Mining Speed"@,
        UpgradeId::ResourceRecovery => "Tower Refund"@,
        UpgradeId::GoldTileChance => "Gold Tile Chance"@,
        UpgradeId::GoldTileReward => "Gold Tile Reward"@,
        UpgradeId::StartingGold => "Starting Gold"@,
        UpgradeId::MiningCrit => "Mining Crit"@,
        UpgradeId::KillBounty => "Kill Bounty"@,
        UpgradeId::BoostColdUnlock => "Unlock Cold Tiles"@,
        UpgradeId::BoostColdFrequency => "Cold Frequency"@,
        UpgradeId::BoostColdSlowAmount => "Cold Slow Amount"@,
        UpgradeId::BoostColdSlowDuration => "Cold Slow Duration"@,
        UpgradeId::BoostColdRange => "Cold Tower Range"@,
        UpgradeId::BoostPoisonUnlock => "Unlock Poison Tiles"@,
        UpgradeId::BoostPoisonFrequency => "Poison Frequency"@,
        UpgradeId::BoostPoisonDamage => "Poison Damage"@,
        UpgradeId::BoostPoisonDuration => "Poison Duration"@,
        UpgradeId::BoostPoisonRange => "Poison Tower Range"@,
        UpgradeId::BoostFireUnlock => "Unlock Fire Tiles"@,
        UpgradeId::BoostFireFrequency => "Fire Frequency"@,
        UpgradeId::BoostFireDamage => "Fire Damage"@,
        UpgradeId::BoostFireDuration => "Fire Duration"@,
        UpgradeId::BoostFireSpread => "Fire Spread"@,
        UpgradeId::BoostFireRange => "Fire Tower Range"@,
        UpgradeId::BoostHealingUnlock => "Unlock Healing Tiles"@,
        UpgradeId::BoostHealingFrequency => "Healing Frequency"@,
        UpgradeId::BoostHealingPower => "Healing Power"@,
        UpgradeId::PlayAreaSize => "Play Area Size"@,
        UpgradeId::SplashRadius => "Splash Damage"@,
    }
}

/// Category of an upgrade in the upgrade web.
pub open spec fn def_category(id: UpgradeId) -> Seq<char> {
    match id {
        UpgradeId::TowerDamage1 => "Damage"@,
        UpgradeId::HealthStart => "Health"@,
        UpgradeId::VampiricHealing => "Health"@,
        UpgradeId::LifeRegen => "Health"@,
        UpgradeId::FireRate => "Damage"@,
        UpgradeId::CritChance => "Damage"@,
        UpgradeId::CritDamage => "Damage"@,
        UpgradeId::ProjectileSpeed => "Damage"@,
        UpgradeId::MiningSpeed => "Economy"@,
        UpgradeId::ResourceRecovery => "Economy"@,
        UpgradeId::GoldTileChance => "Economy"@,
        UpgradeId::GoldTileReward => "Economy"@,
        UpgradeId::StartingGold => "Economy"@,
        UpgradeId::MiningCrit => "Economy"@,
        UpgradeId::KillBounty => "Economy"@,
        UpgradeId::BoostColdUnlock => "Boost"@,
        UpgradeId::BoostColdFrequency => "Boost"@,
        UpgradeId::BoostColdSlowAmount => "Boost"@,
        UpgradeId::BoostColdSlowDuration => "Boost"@,
        UpgradeId::BoostColdRange => "Boost"@,
        UpgradeId::BoostPoisonUnlock => "Boost"@,
        UpgradeId::BoostPoisonFrequency => "Boost"@,
        UpgradeId::BoostPoisonDamage => "Boost"@,
        UpgradeId::BoostPoisonDuration => "Boost"@,
        UpgradeId::BoostPoisonRange => "Boost"@,
        UpgradeId::BoostFireUnlock => "Boost"@,
        UpgradeId::BoostFireFrequency => "Boost"@,
        UpgradeId::BoostFireDamage => "Boost"@,
        UpgradeId::BoostFireDuration => "Boost"@,
        UpgradeId::BoostFireSpread => "Boost"@,
        UpgradeId::BoostFireRange => "Boost"@,
        UpgradeId::BoostHealingUnlock => "Boost"@,
        UpgradeId::BoostHealingFrequency => "Boost"@,
        UpgradeId::BoostHealingPower => "Boost"@,
        UpgradeId::PlayAreaSize => "PlayArea"@,
        UpgradeId::SplashRadius => "Damage"@,
    }
}

/// What one level of an upgrade does, as shown to the player.
pub open spec fn def_effect(id: UpgradeId) -> Seq<char> {
    match id {
        UpgradeId::TowerDamage1 => "+12% tower damage"@,
        UpgradeId::HealthStart => "+5 max health"@,
        UpgradeId::VampiricHealing => "1% lifesteal"@,
        UpgradeId::LifeRegen => "+0.5 HP/s"@,
        UpgradeId::FireRate => "+8% fire rate"@,
        UpgradeId::CritChance => "+3% crit chance"@,
        UpgradeId::CritDamage => "+25% crit dmg"@,
        UpgradeId::ProjectileSpeed => "+15% projectile speed"@,
        UpgradeId::MiningSpeed => "+8% mining speed"@,
        UpgradeId::ResourceRecovery => "+20% tower refund"@,
        UpgradeId::GoldTileChance => "+5% gold tile chance"@,
        UpgradeId::GoldTileReward => "+15% mined gold"@,
        UpgradeId::StartingGold => "+2 starting gold"@,
        UpgradeId::MiningCrit => "5% mining crit (x2)"@,
        UpgradeId::KillBounty => "+1 gold per kill"@,
        UpgradeId::BoostColdUnlock => "Unlock Cold tiles"@,
        UpgradeId::BoostColdFrequency => "+5% Cold freq"@,
        UpgradeId::BoostColdSlowAmount => "+10% slow effect"@,
        UpgradeId::BoostColdSlowDuration => "+1s slow duration"@,
        UpgradeId::BoostColdRange => "+12% range for cold towers"@,
        UpgradeId::BoostPoisonUnlock => "Unlock Poison tiles"@,
        UpgradeId::BoostPoisonFrequency => "+5% Poison freq"@,
        UpgradeId::BoostPoisonDamage => "+5% damage for towers on poison tiles"@,
        UpgradeId::BoostPoisonDuration => "+1s poison duration"@,
        UpgradeId::BoostPoisonRange => "+12% range for poison towers"@,
        UpgradeId::BoostFireUnlock => "Unlock Fire tiles"@,
        UpgradeId::BoostFireFrequency => "+5% Fire freq"@,
        UpgradeId::BoostFireDamage => "+10% burn damage"@,
        UpgradeId::BoostFireDuration => "+1s burn duration"@,
        UpgradeId::BoostFireSpread => "+1 tile spread radius"@,
        UpgradeId::BoostFireRange => "+12% range for fire towers"@,
        UpgradeId::BoostHealingUnlock => "Unlock Healing tiles"@,
        UpgradeId::BoostHealingFrequency => "+5% Healing freq"@,
        UpgradeId::BoostHealingPower => "+10% range for towers on healing tiles"@,
        UpgradeId::PlayAreaSize => "Expand play area size"@,
        UpgradeId::SplashRadius => "+0.5 splash radius"@,
    }
}

/// Stable name of an upgrade, used when levels are saved.
pub open spec fn spec_key(id: UpgradeId) -> Seq<char> {
    match id {
        UpgradeId::TowerDamage1 => "TowerDamage1"@,
        UpgradeId::HealthStart => "HealthStart"@,
        UpgradeId::VampiricHealing => "VampiricHealing"@,
        UpgradeId::LifeRegen => "LifeRegen"@,
        UpgradeId::FireRate => "FireRate"@,
        UpgradeId::CritChance => "CritChance"@,
        UpgradeId::CritDamage => "CritDamage"@,
        UpgradeId::ProjectileSpeed => "ProjectileSpeed"@,
        UpgradeId::MiningSpeed => "MiningSpeed"@,
        UpgradeId::ResourceRecovery => "ResourceRecovery"@,
        UpgradeId::GoldTileChance => "GoldTileChance"@,
        UpgradeId::GoldTileReward => "GoldTileReward"@,
        UpgradeId::StartingGold => "StartingGold"@,
        UpgradeId::MiningCrit => "MiningCrit"@,
        UpgradeId::KillBounty => "KillBounty"@,
        UpgradeId::BoostColdUnlock => "BoostColdUnlock"@,
        UpgradeId::BoostColdFrequency => "BoostColdFrequency"@,
        UpgradeId::BoostColdSlowAmount => "BoostColdSlowAmount"@,
        UpgradeId::BoostColdSlowDuration => "BoostColdSlowDuration"@,
        UpgradeId::BoostColdRange => "BoostColdRange"@,
        UpgradeId::BoostPoisonUnlock => "BoostPoisonUnlock"@,
        UpgradeId::BoostPoisonFrequency => "BoostPoisonFrequency"@,
        UpgradeId::BoostPoisonDamage => "BoostPoisonDamage"@,
        UpgradeId::BoostPoisonDuration => "BoostPoisonDuration"@,
        UpgradeId::BoostPoisonRange => "BoostPoisonRange"@,
        UpgradeId::BoostFireUnlock => "BoostFireUnlock"@,
        UpgradeId::BoostFireFrequency => "BoostFireFrequency"@,
        UpgradeId::BoostFireDamage => "BoostFireDamage"@,
        UpgradeId::BoostFireDuration => "BoostFireDuration"@,
        UpgradeId::BoostFireSpread => "BoostFireSpread"@,
        UpgradeId::BoostFireRange => "BoostFireRange"@,
        UpgradeId::BoostHealingUnlock => "BoostHealingUnlock"@,
        UpgradeId::BoostHealingFrequency => "BoostHealingFrequency"@,
        UpgradeId::BoostHealingPower => "BoostHealingPower"@,
        UpgradeId::PlayAreaSize => "PlayAreaSize"@,
        UpgradeId::SplashRadius => "SplashRadius"@,
    }
}

impl UpgradeId {
    /// Stable name of the upgrade, used when levels are saved.
    pub fn key(self) -> (r: &'static str)
        ensures
            r@ == spec_key(self),
    {
        match self {
            UpgradeId::TowerDamage1 => "TowerDamage1",
            UpgradeId::HealthStart => "HealthStart",
            UpgradeId::VampiricHealing => "VampiricHealing",
            UpgradeId::LifeRegen => "LifeRegen",
            UpgradeId::FireRate => "FireRate",
            UpgradeId::CritChance => "CritChance",
            UpgradeId::CritDamage => "CritDamage",
            UpgradeId::ProjectileSpeed => "ProjectileSpeed",
            UpgradeId::MiningSpeed => "MiningSpeed",
            UpgradeId::ResourceRecovery => "ResourceRecovery",
            UpgradeId::GoldTileChance => "GoldTileChance",
            UpgradeId::GoldTileReward => "GoldTileReward",
            UpgradeId::StartingGold => "StartingGold",
            UpgradeId::MiningCrit => "MiningCrit",
            UpgradeId::KillBounty => "KillBounty",
            UpgradeId::BoostColdUnlock => "BoostColdUnlock",
            UpgradeId::BoostColdFrequency => "BoostColdFrequency",
            UpgradeId::BoostColdSlowAmount => "BoostColdSlowAmount",
            UpgradeId::BoostColdSlowDuration => "BoostColdSlowDuration",
            UpgradeId::BoostColdRange => "BoostColdRange",
            UpgradeId::BoostPoisonUnlock => "BoostPoisonUnlock",
            UpgradeId::BoostPoisonFrequency => "BoostPoisonFrequency",
            UpgradeId::BoostPoisonDamage => "BoostPoisonDamage",
            UpgradeId::BoostPoisonDuration => "BoostPoisonDuration",
            UpgradeId::BoostPoisonRange => "BoostPoisonRange",
            UpgradeId::BoostFireUnlock => "BoostFireUnlock",
            UpgradeId::BoostFireFrequency => "BoostFireFrequency",
            UpgradeId::BoostFireDamage => "BoostFireDamage",
            UpgradeId::BoostFireDuration => "BoostFireDuration",
            UpgradeId::BoostFireSpread => "BoostFireSpread",
            UpgradeId::BoostFireRange => "BoostFireRange",
            UpgradeId::BoostHealingUnlock => "BoostHealingUnlock",
            UpgradeId::BoostHealingFrequency => "BoostHealingFrequency",
            UpgradeId::BoostHealingPower => "BoostHealingPower",
            UpgradeId::PlayAreaSize => "PlayAreaSize",
            UpgradeId::SplashRadius => "SplashRadius",
        }
    }

    /// Position of the upgrade in the upgrade table.
    pub fn def_index(self) -> (r: usize)
        ensures
            r as int == def_index(self),
            r < UPGRADE_COUNT,
    {
        match self {
            UpgradeId::TowerDamage1 => 0,
            UpgradeId::HealthStart => 1,
            UpgradeId::VampiricHealing => 2,
            UpgradeId::LifeRegen => 3,
            UpgradeId::FireRate => 4,
            UpgradeId::CritChance => 5,
            UpgradeId::CritDamage => 6,
            UpgradeId::ProjectileSpeed => 7,
            UpgradeId::MiningSpeed => 8,
            UpgradeId::ResourceRecovery => 9,
            UpgradeId::GoldTileChance => 10,
            UpgradeId::GoldTileReward => 11,
            UpgradeId::StartingGold => 12,
            UpgradeId::MiningCrit => 13,
            UpgradeId::KillBounty => 14,
            UpgradeId::BoostColdUnlock => 15,
            UpgradeId::BoostColdFrequency => 16,
            UpgradeId::BoostColdSlowAmount => 17,
            UpgradeId::BoostColdSlowDuration => 18,
            UpgradeId::BoostColdRange => 19,
            UpgradeId::BoostPoisonUnlock => 20,
            UpgradeId::BoostPoisonFrequency => 21,
            UpgradeId::BoostPoisonDamage => 22,
            UpgradeId::BoostPoisonDuration => 23,
            UpgradeId::BoostPoisonRange => 24,
            UpgradeId::BoostFireUnlock => 25,
            UpgradeId::BoostFireFrequency => 26,
            UpgradeId::BoostFireDamage => 27,
            UpgradeId::BoostFireDuration => 28,
            UpgradeId::BoostFireSpread => 29,
            UpgradeId::BoostFireRange => 30,
            UpgradeId::BoostHealingUnlock => 31,
            UpgradeId::BoostHealingFrequency => 32,
            UpgradeId::BoostHealingPower => 33,
            UpgradeId::PlayAreaSize => 34,
            UpgradeId::SplashRadius => 35,
        }
    }

    /// The upgrade at a position of the upgrade table.
    pub fn at_def_index(k: usize) -> (r: UpgradeId)
        requires
            k < UPGRADE_COUNT,
        ensures
            r == def_id_at(k as int),
    {
        match k {
            0 => UpgradeId::TowerDamage1,
            1 => UpgradeId::HealthStart,
            2 => UpgradeId::VampiricHealing,
            3 => UpgradeId::LifeRegen,
            4 => UpgradeId::FireRate,
            5 => UpgradeId::CritChance,
            6 => UpgradeId::CritDamage,
            7 => UpgradeId::ProjectileSpeed,
            8 => UpgradeId::MiningSpeed,
            9 => UpgradeId::ResourceRecovery,
            10 => UpgradeId::GoldTileChance,
            11 => UpgradeId::GoldTileReward,
            12 => UpgradeId::StartingGold,
            13 => UpgradeId::MiningCrit,
            14 => UpgradeId::KillBounty,
            15 => UpgradeId::BoostColdUnlock,
            16 => UpgradeId::BoostColdFrequency,
            17 => UpgradeId::BoostColdSlowAmount,
            18 => UpgradeId::BoostColdSlowDuration,
            19 => UpgradeId::BoostColdRange,
            20 => UpgradeId::BoostPoisonUnlock,
            21 => UpgradeId::BoostPoisonFrequency,
            22 => UpgradeId::BoostPoisonDamage,
            23 => UpgradeId::BoostPoisonDuration,
            24 => UpgradeId::BoostPoisonRange,
            25 => UpgradeId::BoostFireUnlock,
            26 => UpgradeId::BoostFireFrequency,
            27 => UpgradeId::BoostFireDamage,
            28 => UpgradeId::BoostFireDuration,
            29 => UpgradeId::BoostFireSpread,
            30 => UpgradeId::BoostFireRange,
            31 => UpgradeId::BoostHealingUnlock,
            32 => UpgradeId::BoostHealingFrequency,
            33 => UpgradeId::BoostHealingPower,
            34 => UpgradeId::PlayAreaSize,
            _ => UpgradeId::SplashRadius,
        }
    }
}

/// The definition of an upgrade: its name, category, level cap, cost and prerequisites.
pub fn upgrade_def(id: UpgradeId) -> (d: UpgradeDef)
    ensures
        d.id == id,
        d.display_name@ == def_display_name(id),
        d.category@ == def_category(id),
        d.max_level == def_max_level(id),
        d.base_cost == def_base_cost(id),
        d.cost_multiplier_permille == def_cost_permille(id),
        d.effect_per_level@ == def_effect(id),
        d.prerequisites@ == def_prereqs(id),
{
    match id {
        UpgradeId::TowerDamage1 => {
            let prerequisites = Vec::new();
            UpgradeDef {
                id,
                display_name: "Tower Damage",
                category: "Damage",
                max_level: 5,
                base_cost: 12,
                cost_multiplier_permille: 1600,
                effect_per_level: "+12% tower damage",
                prerequisites,
            }
        },
        UpgradeId::HealthStart => {
            let prerequisites = vec![Prereq { id: UpgradeId::TowerDamage1, level: 1 }];
            UpgradeDef {
                id,
                display_name: "Max Health",
                category: "Health",
                max_level: 5,
                base_cost: 14,
                cost_multiplier_permille: 1140,
                effect_per_level: "+5 max health",
                prerequisites,
            }
        },
        UpgradeId::VampiricHealing => {
            let prerequisites = vec![Prereq { id: UpgradeId::HealthStart, level: 5 }];
            UpgradeDef {
                id,
                display_name: "Vampiric Healing",
                category: "Health",
                max_level: 3,
                base_cost: 40,
                cost_multiplier_permille: 1800,
                effect_per_level: "1% lifesteal",
                prerequisites,
            }
        },
        UpgradeId::LifeRegen => {
            let prerequisites = vec![Prereq { id: UpgradeId::HealthStart, level: 3 }];
            UpgradeDef {
                id,
                display_name: "Life Regeneration",
                category: "Health",
                max_level: 5,
                base_cost: 35,
                cost_multiplier_permille: 1650,
                effect_per_level: "+0.5 HP/s",
                prerequisites,
            }
        },
        UpgradeId::FireRate => {
            let prerequisites = vec![Prereq { id: UpgradeId::TowerDamage1, level: 1 }];
            UpgradeDef {
                id,
                display_name: "Fire Rate",
                category: "Damage",
                max_level: 5,
                base_cost: 21,
                cost_multiplier_permille: 1235,
                effect_per_level: "+8% fire rate",
                prerequisites,
            }
        },
        UpgradeId::CritChance => {
            let prerequisites = vec![Prereq { id: UpgradeId::FireRate, level: 3 }];
            UpgradeDef {
                id,
                display_name: "Crit Chance",
                category: "Damage",
                max_level: 5,
                base_cost: 25,
                cost_multiplier_permille: 1600,
                effect_per_level: "+3% crit chance",
                prerequisites,
            }
        },
        UpgradeId::CritDamage => {
            let prerequisites = vec![Prereq { id: UpgradeId::CritChance, level: 5 }];
            UpgradeDef {
                id,
                display_name: "Crit Damage",
                category: "Damage",
                max_level: 5,
                base_cost: 40,
                cost_multiplier_permille: 1700,
                effect_per_level: "+25% crit dmg",
                prerequisites,
            }
        },
        UpgradeId::ProjectileSpeed => {
            let prerequisites = vec![Prereq { id: UpgradeId::FireRate, level: 2 }];
            UpgradeDef {
                id,
                display_name: "Projectile Speed",
                category: "Damage",
                max_level: 3,
                base_cost: 20,
                cost_multiplier_permille: 1500,
                effect_per_level: "+15% projectile speed",
                prerequisites,
            }
        },
        UpgradeId::MiningSpeed => {
            let prerequisites = vec![Prereq { id: UpgradeId::TowerDamage1, level: 1 }];
            UpgradeDef {
                id,
                display_name: "Mining Speed",
                category: "Economy",
                max_level: 5,
                base_cost: 10,
                cost_multiplier_permille: 1500,
                effect_per_level: "+8% mining speed",
                prerequisites,
            }
        },
        UpgradeId::ResourceRecovery => {
            let prerequisites = vec![Prereq { id: UpgradeId::MiningSpeed, level: 3 }];
            UpgradeDef {
                id,
                display_name: "Tower Refund",
                category: "Economy",
                max_level: 5,
                base_cost: 18,
                cost_multiplier_permille: 1550,
                effect_per_level: "+20% tower refund",
                prerequisites,
            }
        },
        UpgradeId::GoldTileChance => {
            let prerequisites = vec![Prereq { id: UpgradeId::MiningSpeed, level: 2 }];
            UpgradeDef {
                id,
                display_name: "Gold Tile Chance",
                category: "Economy",
                max_level: 5,
                base_cost: 22,
                cost_multiplier_permille: 1600,
                effect_per_level: "+5% gold tile chance",
                prerequisites,
            }
        },
        UpgradeId::GoldTileReward => {
            let prerequisites = vec![Prereq { id: UpgradeId::GoldTileChance, level: 3 }];
            UpgradeDef {
                id,
                display_name: "Gold Tile Reward",
                category: "Economy",
                max_level: 5,
                base_cost: 28,
                cost_multiplier_permille: 1650,
                effect_per_level: "+15% mined gold",
                prerequisites,
            }
        },
        UpgradeId::StartingGold => {
            let prerequisites = vec![Prereq { id: UpgradeId::MiningSpeed, level: 2 }];
            UpgradeDef {
                id,
                display_name: "Starting Gold",
                category: "Economy",
                max_level: 5,
                base_cost: 20,
                cost_multiplier_permille: 1550,
                effect_per_level: "+2 starting gold",
                prerequisites,
            }
        },
        UpgradeId::MiningCrit => {
            let prerequisites = vec![Prereq { id: UpgradeId::GoldTileReward, level: 3 }];
            UpgradeDef {
                id,
                display_name: "Mining Crit",
                category: "Economy",
                max_level: 3,
                base_cost: 45,
                cost_multiplier_permille: 1700,
                effect_per_level: "5% mining crit (x2)",
                prerequisites,
            }
        },
        UpgradeId::KillBounty => {
            let prerequisites = vec![Prereq { id: UpgradeId::GoldTileReward, level: 5 }];
            UpgradeDef {
                id,
                display_name: "Kill Bounty",
                category: "Economy",
                max_level: 5,
                base_cost: 60,
                cost_multiplier_permille: 1850,
                effect_per_level: "+1 gold per kill",
                prerequisites,
            }
        },
        UpgradeId::BoostColdUnlock => {
            let prerequisites = vec![Prereq { id: UpgradeId::FireRate, level: 3 }];
            UpgradeDef {
                id,
                display_name: "Unlock Cold Tiles",
                category: "Boost",
                max_level: 1,
                base_cost: 30,
                cost_multiplier_permille: 1000,
                effect_per_level: "Unlock Cold tiles",
                prerequisites,
            }
        },
        UpgradeId::BoostColdFrequency => {
            let prerequisites = vec![Prereq { id: UpgradeId::BoostColdUnlock, level: 1 }];
            UpgradeDef {
                id,
                display_name: "Cold Frequency",
                category: "Boost",
                max_level: 5,
                base_cost: 20,
                cost_multiplier_permille: 1600,
                effect_per_level: "+5% Cold freq",
                prerequisites,
            }
        },
        UpgradeId::BoostColdSlowAmount => {
            let prerequisites = vec![Prereq { id: UpgradeId::BoostColdUnlock, level: 1 }];
            UpgradeDef {
                id,
                display_name: "Cold Slow Amount",
                category: "Boost",
                max_level: 5,
                base_cost: 25,
                cost_multiplier_permille: 1650,
                effect_per_level: "+10% slow effect",
                prerequisites,
            }
        },
        UpgradeId::BoostColdSlowDuration => {
            let prerequisites = vec![Prereq { id: UpgradeId::BoostColdSlowAmount, level: 3 }];
            UpgradeDef {
                id,
                display_name: "Cold Slow Duration",
                category: "Boost",
                max_level: 3,
                base_cost: 35,
                cost_multiplier_permille: 1700,
                effect_per_level: "+1s slow duration",
                prerequisites,
            }
        },
        UpgradeId::BoostColdRange => {
            let prerequisites = vec![Prereq { id: UpgradeId::BoostColdUnlock, level: 1 }];
            UpgradeDef {
                id,
                display_name: "Cold Tower Range",
                category: "Boost",
                max_level: 5,
                base_cost: 30,
                cost_multiplier_permille: 1650,
                effect_per_level: "+12% range for cold towers",
                prerequisites,
            }
        },
        UpgradeId::BoostPoisonUnlock => {
            let prerequisites = vec![Prereq { id: UpgradeId::BoostHealingUnlock, level: 1 }];
            UpgradeDef {
                id,
                display_name: "Unlock Poison Tiles",
                category: "Boost",
                max_level: 1,
                base_cost: 35,
                cost_multiplier_permille: 1000,
                effect_per_level: "Unlock Poison tiles",
                prerequisites,
            }
        },
        UpgradeId::BoostPoisonFrequency => {
            let prerequisites = vec![Prereq { id: UpgradeId::BoostPoisonUnlock, level: 1 }];
            UpgradeDef {
                id,
                display_name: "Poison Frequency",
                category: "Boost",
                max_level: 5,
                base_cost: 25,
                cost_multiplier_permille: 1600,
                effect_per_level: "+5% Poison freq",
                prerequisites,
            }
        },
        UpgradeId::BoostPoisonDamage => {
            let prerequisites = vec![Prereq { id: UpgradeId::BoostPoisonUnlock, level: 1 }];
            UpgradeDef {
                id,
                display_name: "Poison Damage",
                category: "Boost",
                max_level: 5,
                base_cost: 30,
                cost_multiplier_permille: 1650,
                effect_per_level: "+5% damage for towers on poison tiles",
                prerequisites,
            }
        },
        UpgradeId::BoostPoisonDuration => {
            let prerequisites = vec![Prereq { id: UpgradeId::BoostPoisonDamage, level: 3 }];
            UpgradeDef {
                id,
                display_name: "Poison Duration",
                category: "Boost",
                max_level: 3,
                base_cost: 40,
                cost_multiplier_permille: 1700,
                effect_per_level: "+1s poison duration",
                prerequisites,
            }
        },
        UpgradeId::BoostPoisonRange => {
            let prerequisites = vec![Prereq { id: UpgradeId::BoostPoisonUnlock, level: 1 }];
            UpgradeDef {
                id,
                display_name: "Poison Tower Range",
                category: "Boost",
                max_level: 5,
                base_cost: 30,
                cost_multiplier_permille: 1650,
                effect_per_level: "+12% range for poison towers",
                prerequisites,
            }
        },
        UpgradeId::BoostFireUnlock => {
            let prerequisites = vec![Prereq { id: UpgradeId::FireRate, level: 5 }];
            UpgradeDef {
                id,
                display_name: "Unlock Fire Tiles",
                category: "Boost",
                max_level: 1,
                base_cost: 35,
                cost_multiplier_permille: 1000,
                effect_per_level: "Unlock Fire tiles",
                prerequisites,
            }
        },
        UpgradeId::BoostFireFrequency => {
            let prerequisites = vec![Prereq { id: UpgradeId::BoostFireUnlock, level: 1 }];
            UpgradeDef {
                id,
                display_name: "Fire Frequency",
                category: "Boost",
                max_level: 5,
                base_cost: 20,
                cost_multiplier_permille: 1600,
                effect_per_level: "+5% Fire freq",
                prerequisites,
            }
        },
        UpgradeId::BoostFireDamage => {
            let prerequisites = vec![Prereq { id: UpgradeId::BoostFireUnlock, level: 1 }];
            UpgradeDef {
                id,
                display_name: "Fire Damage",
                category: "Boost",
                max_level: 5,
                base_cost: 30,
                cost_multiplier_permille: 1650,
                effect_per_level: "+10% burn damage",
                prerequisites,
            }
        },
        UpgradeId::BoostFireDuration => {
            let prerequisites = vec![Prereq { id: UpgradeId::BoostFireDamage, level: 3 }];
            UpgradeDef {
                id,
                display_name: "Fire Duration",
                category: "Boost",
                max_level: 3,
                base_cost: 40,
                cost_multiplier_permille: 1700,
                effect_per_level: "+1s burn duration",
                prerequisites,
            }
        },
        UpgradeId::BoostFireSpread => {
            let prerequisites = vec![Prereq { id: UpgradeId::BoostFireDamage, level: 5 }];
            UpgradeDef {
                id,
                display_name: "Fire Spread",
                category: "Boost",
                max_level: 3,
                base_cost: 55,
                cost_multiplier_permille: 1850,
                effect_per_level: "+1 tile spread radius",
                prerequisites,
            }
        },
        UpgradeId::BoostFireRange => {
            let prerequisites = vec![Prereq { id: UpgradeId::BoostFireUnlock, level: 1 }];
            UpgradeDef {
                id,
                display_name: "Fire Tower Range",
                category: "Boost",
                max_level: 5,
                base_cost: 30,
                cost_multiplier_permille: 1650,
                effect_per_level: "+12% range for fire towers",
                prerequisites,
            }
        },
        UpgradeId::BoostHealingUnlock => {
            let prerequisites = vec![Prereq { id: UpgradeId::HealthStart, level: 3 }];
            UpgradeDef {
                id,
                display_name: "Unlock Healing Tiles",
                category: "Boost",
                max_level: 1,
                base_cost: 35,
                cost_multiplier_permille: 1000,
                effect_per_level: "Unlock Healing tiles",
                prerequisites,
            }
        },
        UpgradeId::BoostHealingFrequency => {
            let prerequisites = vec![Prereq { id: UpgradeId::BoostHealingUnlock, level: 1 }];
            UpgradeDef {
                id,
                display_name: "Healing Frequency",
                category: "Boost",
                max_level: 5,
                base_cost: 25,
                cost_multiplier_permille: 1600,
                effect_per_level: "+5% Healing freq",
                prerequisites,
            }
        },
        UpgradeId::BoostHealingPower => {
            let prerequisites = vec![Prereq { id: UpgradeId::BoostHealingUnlock, level: 1 }];
            UpgradeDef {
                id,
                display_name: "Healing Power",
                category: "Boost",
                max_level: 5,
                base_cost: 30,
                cost_multiplier_permille: 1650,
                effect_per_level: "+10% range for towers on healing tiles",
                prerequisites,
            }
        },
        UpgradeId::PlayAreaSize => {
            let prerequisites = vec![Prereq { id: UpgradeId::MiningSpeed, level: 3 }];
            UpgradeDef {
                id,
                display_name: "Play Area Size",
                category: "PlayArea",
                max_level: 10,
                base_cost: 30,
                cost_multiplier_permille: 1250,
                effect_per_level: "Expand play area size",
                prerequisites,
            }
        },
        UpgradeId::SplashRadius => {
            let prerequisites = vec![Prereq { id: UpgradeId::TowerDamage1, level: 3 }];
            UpgradeDef {
                id,
                display_name: "Splash Damage",
                category: "Damage",
                max_level: 5,
                base_cost: 50,
                cost_multiplier_permille: 1800,
                effect_per_level: "+0.5 splash radius",
                prerequisites,
            }
        },
    }
}
/// A requirement: upgrade `id` must have reached `level`.
#[derive(Clone, Copy, Debug, PartialEq, Eq, Structural)]
pub struct Prereq {
    pub id: UpgradeId,
    pub level: u8,
}

/// The definition of one upgrade. The cost of level `n` (counting from 0)
/// is `base_cost * (cost_multiplier_permille / 1000)^n`, rounded to the nearest
/// whole research point (halves up).
#[derive(Clone, Debug)]
pub struct UpgradeDef {
    pub id: UpgradeId,
    pub display_name: &'static str,
    pub category: &'static str,
    pub max_level: u8,
    pub base_cost: u64,
    pub cost_multiplier_permille: u64,
    pub effect_per_level: &'static str,
    pub prerequisites: Vec<Prereq>,
}

/// Every upgrade, in the order of the upgrade table.
pub fn all_upgrade_ids() -> (r: Vec<UpgradeId>)
    ensures
        r@.len() == UPGRADE_COUNT,
        forall|k: int| 0 <= k < UPGRADE_COUNT ==> #[trigger] r@[k] == def_id_at(k),
{
    let mut r: Vec<UpgradeId> = Vec::new();
    let mut k: usize = 0;
    while k < UPGRADE_COUNT
        invariant
            k <= UPGRADE_COUNT,
            r@.len() == k,
            forall|j: int| 0 <= j < k ==> #[trigger] r@[j] == def_id_at(j),
        decreases UPGRADE_COUNT - k,
    {
        r.push(UpgradeId::at_def_index(k));
        k += 1;
    }
    r
}

/// Table position and upgrade determine each other.
pub proof fn lemma_def_index(id: UpgradeId)
    ensures
        0 <= def_index(id) < UPGRADE_COUNT,
        def_id_at(def_index(id)) == id,
{
}

/// Table position and upgrade determine each other.
pub proof fn lemma_def_id_at(k: int)
    requires
        0 <= k < UPGRADE_COUNT,
    ensures
        def_index(def_id_at(k)) == k,
{
}

/// Every level cap lies between 1 and 10, every first-level cost is at most
/// 60 and every cost growth between 100% and 185%.
pub proof fn lemma_def_bounds(id: UpgradeId)
    ensures
        1 <= def_max_level(id) <= 10,
        1 <= def_base_cost(id) <= 60,
        1000 <= def_cost_permille(id) <= 1850,
        def_prereqs(id).len() <= 1,
{
}

/// `b` to the power `e`.
pub open spec fn pow_nat(b: nat, e: nat) -> nat
    decreases e,
{
    if e == 0 {
        1
    } else {
        b * pow_nat(b, (e - 1) as nat)
    }
}

/// `a / b`, rounded to the nearest integer, halves up.
pub open spec fn round_ratio(a: nat, b: nat) -> nat {
    ((2 * a + b) / (2 * b)) as nat
}

/// Research cost of buying upgrade `id` from level `lvl` to `lvl + 1`.
pub open spec fn cost_at(id: UpgradeId, lvl: nat) -> nat {
    round_ratio(def_base_cost(id) as nat * pow_nat(def_cost_permille(id) as nat, lvl), pow_nat(1000, lvl))
}

/// Research spent on upgrade `id` to reach level `lvl` from 0.
pub open spec fn spent_upto(id: UpgradeId, lvl: nat) -> nat
    decreases lvl,
{
    if lvl == 0 {
        0
    } else {
        spent_upto(id, (lvl - 1) as nat) + cost_at(id, (lvl - 1) as nat)
    }
}

proof fn lemma_pow_nat_mono(b: nat, e: nat, f: nat)
    requires
        b >= 1,
        e <= f,
    ensures
        pow_nat(b, e) <= pow_nat(b, f),
    decreases f - e,
{
    if e < f {
        lemma_pow_nat_mono(b, e, (f - 1) as nat);
        assert(pow_nat(b, f) == b * pow_nat(b, (f - 1) as nat));
        assert(pow_nat(b, (f - 1) as nat) <= b * pow_nat(b, (f - 1) as nat)) by (nonlinear_arith)
            requires
                b >= 1,
        ;
    }
}

proof fn lemma_pow_nat_pos(b: nat, e: nat)
    requires
        b >= 1,
    ensures
        pow_nat(b, e) >= 1,
{
    lemma_pow_nat_mono(b, 0, e);
}

/// `round_ratio(base * permille^lvl, 1000^lvl)`, for the small bases, growths and
/// levels of the upgrade table.
fn scaled_cost(base: u64, permille: u64, lvl: u8) -> (r: u64)
    requires
        1 <= base <= 60,
        1000 <= permille <= 2000,
        lvl <= 9,
    ensures
        r as nat == round_ratio(base as nat * pow_nat(permille as nat, lvl as nat), pow_nat(1000, lvl as nat)),
{
    let mut num: u128 = base as u128;
    let mut den: u128 = 1;
    let mut k: u8 = 0;
    let ghost mut two: nat = 1;
    proof {
        reveal_with_fuel(pow_nat, 10);
        assert(pow_nat(1000, 8) == 1_000_000_000_000_000_000_000_000nat);
        assert(pow_nat(2, 9) == 512nat);
        assert(pow_nat(permille as nat, 0) == 1);
        assert(base * pow_nat(permille as nat, 0) == base);
    }
    while k < lvl
        invariant
            k <= lvl <= 9,
            1 <= base <= 60,
            1000 <= permille <= 2000,
            num == base * pow_nat(permille as nat, k as nat),
            den == pow_nat(1000, k as nat),
            two == pow_nat(2, k as nat),
            num <= 60 * two * den,
            pow_nat(1000, 8) == 1_000_000_000_000_000_000_000_000nat,
            pow_nat(2, 9) == 512nat,
        decreases lvl - k,
    {
        proof {
            lemma_pow_nat_mono(1000, k as nat, 8);
            lemma_pow_nat_mono(2, k as nat, 9);
            assert(num * permille <= 60 * (2 * two) * (den * 1000)) by (nonlinear_arith)
                requires
                    num <= 60 * two * den,
                    permille <= 2000,
            ;
            assert(num * permille <= 60 * 1024 * 1_000_000_000_000_000_000_000_000 * 1000) by (nonlinear_arith)
                requires
                    num * permille <= 60 * (2 * two) * (den * 1000),
                    two <= 512,
                    den <= 1_000_000_000_000_000_000_000_000,
            ;
            assert(base * pow_nat(permille as nat, (k + 1) as nat) == (base * pow_nat(permille as nat, k as nat)) * permille) by (nonlinear_arith)
                requires
                    pow_nat(permille as nat, (k + 1) as nat) == permille * pow_nat(permille as nat, k as nat),
            ;
        }
        num = num * (permille as u128);
        den = den * 1000;
        k = k + 1;
        proof {
            two = 2 * two;
        }
    }
    proof {
        lemma_pow_nat_mono(2, k as nat, 9);
        lemma_pow_nat_pos(1000, k as nat);
        assert(2 * num + den <= 61441 * (2 * den)) by (nonlinear_arith)
            requires
                num <= 60 * two * den,
                two <= 512,
                den >= 1,
        ;
        lemma_div_is_ordered((2 * num + den) as int, 61441 * (2 * den) as int, (2 * den) as int);
        lemma_div_by_multiple(61441, (2 * den) as int);
    }
    let r = (2 * num + den) / (2 * den);
    r as u64
}

/// The levels bought of every upgrade, and the refund rate for towers.
/// No level exceeds its upgrade's cap.
#[derive(Debug)]
pub struct UpgradeState {
    levels: Vec<u8>,
    tower_refund_rate_percent: u8,
}

impl UpgradeState {
    #[verifier::type_invariant]
    spec fn inv(self) -> bool {
        &&& self.levels@.len() == UPGRADE_COUNT
        &&& forall|k: int| 0 <= k < UPGRADE_COUNT ==> #[trigger] self.levels@[k] <= def_max_level(def_id_at(k))
    }

    /// The level bought of an upgrade.
    pub closed spec fn level_of(self, id: UpgradeId) -> u8 {
        self.levels@[def_index(id)]
    }

    pub closed spec fn refund_rate(self) -> u8 {
        self.tower_refund_rate_percent
    }

    /// All prerequisites of `id` are met.
    pub open spec fn prereqs_met(self, id: UpgradeId) -> bool {
        forall|k: int| 0 <= k < def_prereqs(id).len() ==>
            self.level_of(#[trigger] def_prereqs(id)[k].id) >= def_prereqs(id)[k].level
    }

    /// Research spent on the first `k` upgrades of the table.
    pub open spec fn spent_prefix(self, k: int) -> nat
        decreases k,
    {
        if k <= 0 {
            0
        } else {
            self.spent_prefix(k - 1) + spent_upto(def_id_at(k - 1), self.level_of(def_id_at(k - 1)) as nat)
        }
    }

    /// Research spent on all levels bought.
    pub open spec fn spent_total(self) -> nat {
        self.spent_prefix(UPGRADE_COUNT as int)
    }

    /// No upgrade bought, refund rate 100%.
    pub fn new() -> (s: Self)
        ensures
            forall|id: UpgradeId| #[trigger] s.level_of(id) == 0,
            s.refund_rate() == 100,
    {
        let mut levels: Vec<u8> = Vec::new();
        let mut k: usize = 0;
        while k < UPGRADE_COUNT
            invariant
                k <= UPGRADE_COUNT,
                levels@.len() == k,
                forall|j: int| 0 <= j < k ==> #[trigger] levels@[j] == 0,
            decreases UPGRADE_COUNT - k,
        {
            levels.push(0);
            k += 1;
        }
        let s = UpgradeState { levels, tower_refund_rate_percent: 100 };
        assert forall|id: UpgradeId| #[trigger] s.level_of(id) == 0 by {
            lemma_def_index(id);
        }
        s
    }

    /// The refund rate for towers, in percent.
    pub fn tower_refund_rate_percent(&self) -> (r: u8)
        ensures
            r == self.refund_rate(),
    {
        self.tower_refund_rate_percent
    }

    pub fn set_tower_refund_rate_percent(&mut self, pct: u8)
        ensures
            final(self).refund_rate() == pct,
            forall|id: UpgradeId| #[trigger] final(self).level_of(id) == old(self).level_of(id),
    {
        proof {
            use_type_invariant(&*self);
        }
        self.tower_refund_rate_percent = pct;
    }

    /// Level bought of an upgrade.
    pub fn level(&self, id: UpgradeId) -> (r: u8)
        ensures
            r == self.level_of(id),
            r <= def_max_level(id),
    {
        proof {
            use_type_invariant(self);
            lemma_def_index(id);
        }
        self.levels[id.def_index()]
    }

    /// Sets the level of an upgrade, capped at its maximum.
    pub fn set_level(&mut self, id: UpgradeId, lvl: u8)
        ensures
            final(self).level_of(id) == if lvl <= def_max_level(id) { lvl } else { def_max_level(id) },
            forall|o: UpgradeId| o != id ==> #[trigger] final(self).level_of(o) == old(self).level_of(o),
            final(self).refund_rate() == old(self).refund_rate(),
    {
        proof {
            use_type_invariant(&*self);
            lemma_def_index(id);
        }
        let mx = self.max_level(id);
        let v = if lvl <= mx { lvl } else { mx };
        let k = id.def_index();
        let mut levels = self.levels.clone();
        levels.set(k, v);
        *self = UpgradeState { levels, tower_refund_rate_percent: self.tower_refund_rate_percent };
        assert forall|o: UpgradeId| o != id implies #[trigger] self.level_of(o) == old(self).level_of(o) by {
            lemma_def_index(o);
        }
    }

    /// True when every prerequisite of `id` is met.
    pub fn is_unlocked(&self, id: UpgradeId) -> (r: bool)
        ensures
            r == self.prereqs_met(id),
    {
        let def = upgrade_def(id);
        let n = def.prerequisites.len();
        let mut i: usize = 0;
        while i < n
            invariant
                i <= n,
                n == def_prereqs(id).len(),
                def.prerequisites@ == def_prereqs(id),
                forall|k: int| 0 <= k < i ==>
                    self.level_of(#[trigger] def_prereqs(id)[k].id) >= def_prereqs(id)[k].level,
            decreases n - i,
        {
            let p = def.prerequisites[i];
            if self.level(p.id) < p.level {
                return false;
            }
            i += 1;
        }
        true
    }

    /// Highest level `id` can be bought to.
    pub fn max_level(&self, id: UpgradeId) -> (r: u8)
        ensures
            r == def_max_level(id),
    {
        upgrade_def(id).max_level
    }

    /// Cost of the next level of `id`, or `None` when it is at its cap.
    pub fn next_cost(&self, id: UpgradeId) -> (r: Option<u64>)
        ensures
            r == if self.level_of(id) >= def_max_level(id) {
                None
            } else {
                Some(cost_at(id, self.level_of(id) as nat) as u64)
            },
            r is Some ==> r->0 as nat == cost_at(id, self.level_of(id) as nat),
    {
        let def = upgrade_def(id);
        let lvl = self.level(id);
        if lvl >= def.max_level {
            None
        } else {
            proof {
                lemma_def_bounds(id);
            }
            Some(scaled_cost(def.base_cost, def.cost_multiplier_permille, lvl))
        }
    }

    /// True when `id` is unlocked and below its cap.
    pub fn can_purchase(&self, id: UpgradeId) -> (r: bool)
        ensures
            r == (self.prereqs_met(id) && self.level_of(id) < def_max_level(id)),
    {
        self.is_unlocked(id) && self.level(id) < self.max_level(id)
    }

    /// Buys one level of `id` if it is below its cap (prerequisites and
    /// research are the caller's to check).
    pub fn purchase(&mut self, id: UpgradeId)
        ensures
            final(self).level_of(id) == if old(self).level_of(id) < def_max_level(id) {
                (old(self).level_of(id) + 1) as u8
            } else {
                old(self).level_of(id)
            },
            forall|o: UpgradeId| o != id ==> #[trigger] final(self).level_of(o) == old(self).level_of(o),
            final(self).refund_rate() == old(self).refund_rate(),
    {
        let c = self.level(id);
        if c < self.max_level(id) {
            self.set_level(id, c + 1);
        }
    }

    /// Buys the next level of `id` with `research` available: only when it
    /// can be purchased and its cost is covered. Returns the research to
    /// spend, or `None` (and changes nothing) when the purchase is refused.
    pub fn buy_with(&mut self, id: UpgradeId, research: u64) -> (r: Option<u64>)
        ensures
            ({
                let lvl = old(self).level_of(id);
                if old(self).prereqs_met(id) && lvl < def_max_level(id) && cost_at(id, lvl as nat) <= research {
                    &&& r == Some(cost_at(id, lvl as nat) as u64)
                    &&& final(self).level_of(id) == lvl + 1
                    &&& forall|o: UpgradeId| o != id ==> #[trigger] final(self).level_of(o) == old(self).level_of(o)
                    &&& final(self).refund_rate() == old(self).refund_rate()
                } else {
                    r is None && *final(self) == *old(self)
                }
            }),
    {
        if !self.can_purchase(id) {
            return None;
        }
        match self.next_cost(id) {
            Some(cost) => {
                if research < cost {
                    return None;
                }
                self.purchase(id);
                Some(cost)
            },
            None => None,
        }
    }

    /// Takes back every level bought: the upgrades as they were before any
    /// purchase (same refund rate), and `research` with everything spent
    /// returned to it (saturating).
    pub fn respec(&self, research: u64) -> (r: (UpgradeState, u64))
        ensures
            forall|id: UpgradeId| #[trigger] r.0.level_of(id) == 0,
            r.0.refund_rate() == self.refund_rate(),
            r.1 == if research + self.spent_total() > u64::MAX { u64::MAX as int } else { research + self.spent_total() },
    {
        let spent = self.total_spent();
        let mut fresh = UpgradeState::new();
        fresh.set_tower_refund_rate_percent(self.tower_refund_rate_percent());
        (fresh, research.saturating_add(spent))
    }

    /// Research spent on all levels bought, saturating at `u64::MAX`.
    pub fn total_spent(&self) -> (r: u64)
        ensures
            r as nat == if self.spent_total() <= u64::MAX { self.spent_total() } else { u64::MAX as nat },
    {
        let mut sum: u64 = 0;
        let mut k: usize = 0;
        while k < UPGRADE_COUNT
            invariant
                k <= UPGRADE_COUNT,
                sum as nat == if self.spent_prefix(k as int) <= u64::MAX {
                    self.spent_prefix(k as int)
                } else {
                    u64::MAX as nat
                },
            decreases UPGRADE_COUNT - k,
        {
            let id = UpgradeId::at_def_index(k);
            let def = upgrade_def(id);
            let lvl = self.level(id);
            proof {
                lemma_def_bounds(id);
            }
            let mut i: u8 = 0;
            let ghost before = self.spent_prefix(k as int);
            while i < lvl
                invariant
                    i <= lvl <= def_max_level(id) <= 10,
                    id == def_id_at(k as int),
                    lvl == self.level_of(id),
                    def.base_cost == def_base_cost(id),
                    def.cost_multiplier_permille == def_cost_permille(id),
                    1 <= def_base_cost(id) <= 60,
                    1000 <= def_cost_permille(id) <= 1850,
                    sum as nat == if before + spent_upto(id, i as nat) <= u64::MAX {
                        before + spent_upto(id, i as nat)
                    } else {
                        u64::MAX as nat
                    },
                decreases lvl - i,
            {
                let cost = scaled_cost(def.base_cost, def.cost_multiplier_permille, i);
                sum = sum.saturating_add(cost);
                i += 1;
            }
            k += 1;
        }
        sum
    }
}

impl Clone for UpgradeState {
    fn clone(&self) -> (s: Self)
        ensures
            forall|id: UpgradeId| #[trigger] s.level_of(id) == self.level_of(id),
            s.refund_rate() == self.refund_rate(),
    {
        proof {
            use_type_invariant(self);
        }
        UpgradeState { levels: self.levels.clone(), tower_refund_rate_percent: self.tower_refund_rate_percent }
    }
}

impl Default for UpgradeState {
    fn default() -> (s: Self)
        ensures
            forall|id: UpgradeId| #[trigger] s.level_of(id) == 0,
            s.refund_rate() == 100,
    {
        UpgradeState::new()
    }
}

/// Side length of the square play area for a level of the PlayAreaSize upgrade.
pub open spec fn spec_play_area_size(level: u8) -> u32 {
    if level == 0 { 10 }
    else if level == 1 { 14 }
    else if level == 2 { 18 }
    else if level == 3 { 24 }
    else if level == 4 { 32 }
    else if level == 5 { 40 }
    else if level == 6 { 52 }
    else if level == 7 { 64 }
    else if level == 8 { 80 }
    else if level == 9 { 96 }
    else { 112 }
}

/// Side length of the square play area for a level of the PlayAreaSize
/// upgrade: 10, 14, 18, 24, 32, 40, 52, 64, 80, 96, then 112 from level 10 on.
pub fn play_area_size_for_level(level: u8) -> (r: u32)
    ensures
        r == spec_play_area_size(level),
{
    match level {
        0 => 10,
        1 => 14,
        2 => 18,
        3 => 24,
        4 => 32,
        5 => 40,
        6 => 52,
        7 => 64,
        8 => 80,
        9 => 96,
        _ => 112,
    }
}

} // verus!
