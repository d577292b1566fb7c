use maze_defence::controls::{
    hover_status, is_solid, primary_click, touch_start, tower_hotkey, ClickOutcome, HotkeyOutcome, HoverStatus,
};
use maze_defence::display::{boost_color, boost_icon, boost_name, cat_symbol};
use maze_defence::grid::{BoostKind, GridSize, Position};
use maze_defence::interactable::compute_interactable_mask;
use maze_defence::pathfind::{build_loop_path, compute_path};
use maze_defence::run::{debuff_kind_of_boost, DebuffKind, RunAction, RunState, TowerKind};
use maze_defence::worldgen::{generate_tiles, GenRolls};

fn plain_rolls(n: usize) -> GenRolls {
    GenRolls { tiles: vec![(false, None); n], orient: 0, turn_positive: true }
}

fn fresh10() -> RunState {
    RunState::new_basic(GridSize { width: 10, height: 10 }, &plain_rolls(100))
}

#[test]
fn reach_covers_the_corridor_and_its_rim() {
    let rs = fresh10();
    let mask = compute_interactable_mask(&rs);
    assert_eq!(mask.len(), 100);
    assert!(mask[5 * 10 + 7], "corridor");
    assert!(mask[5 * 10 + 5], "start");
    assert!(mask[5 * 10 + 8], "rock next to the corridor");
    assert!(mask[9 * 10 + 5], "rock below the corridor");
    assert!(!mask[0], "far rock");
    assert!(!mask[5 * 10 + 9], "rock two steps away");
}

#[test]
fn hover_feedback() {
    let rs = fresh10();
    let mask = compute_interactable_mask(&rs);
    assert_eq!(hover_status(&rs, &mask, 8, 5), Some(HoverStatus::CanPlace));
    assert_eq!(hover_status(&rs, &mask, 0, 0), Some(HoverStatus::OutOfReach));
    assert_eq!(hover_status(&rs, &mask, 7, 5), Some(HoverStatus::NeedRockWall));
    assert_eq!(hover_status(&rs, &mask, -1, 0), None);
    assert_eq!(hover_status(&rs, &mask, 10, 0), None);
    let (rs, _) = rs.reduce(RunAction::PlaceTower { x: 8, y: 5, kind: TowerKind::Basic });
    let mask = compute_interactable_mask(&rs);
    assert_eq!(hover_status(&rs, &mask, 8, 5), Some(HoverStatus::RemoveTower));
    assert_eq!(hover_status(&rs, &mask, 8, 6), Some(HoverStatus::NeedGold));
    let mut over = rs.clone();
    over.game_over = true;
    over.life = 0;
    assert_eq!(hover_status(&over, &mask, 8, 6), Some(HoverStatus::GameOver));
}

#[test]
fn tower_hotkey_outcomes() {
    let rs = fresh10();
    assert_eq!(tower_hotkey(&rs, 8, 5), HotkeyOutcome::Place { start_first: true, resume_after: false });
    assert_eq!(tower_hotkey(&rs, 7, 5), HotkeyOutcome::NeedRockWall);
    assert_eq!(tower_hotkey(&rs, 0, 0), HotkeyOutcome::OutOfReach);
    assert_eq!(tower_hotkey(&rs, -3, 0), HotkeyOutcome::Ignored);
    assert_eq!(tower_hotkey(&rs, 3, 40), HotkeyOutcome::Ignored);
    let (rs, _) = rs.reduce(RunAction::StartRun);
    let (rs, _) = rs.reduce(RunAction::TogglePause);
    assert_eq!(tower_hotkey(&rs, 8, 5), HotkeyOutcome::Place { start_first: false, resume_after: true });
    let (rs, _) = rs.reduce(RunAction::PlaceTower { x: 8, y: 5, kind: TowerKind::Basic });
    assert_eq!(tower_hotkey(&rs, 8, 5), HotkeyOutcome::Remove);
    assert_eq!(tower_hotkey(&rs, 8, 6), HotkeyOutcome::NeedGold);
    let mut over = rs.clone();
    over.game_over = true;
    over.life = 0;
    assert_eq!(tower_hotkey(&over, 8, 5), HotkeyOutcome::Ignored);
}

#[test]
fn primary_click_outcomes() {
    let rs = fresh10();
    assert_eq!(primary_click(&rs, 8, 5), ClickOutcome::StartMining { start_run: true });
    assert_eq!(primary_click(&rs, 7, 5), ClickOutcome::PlaceWall);
    assert_eq!(primary_click(&rs, 5, 5), ClickOutcome::Ignored);
    assert_eq!(primary_click(&rs, 0, 0), ClickOutcome::Ignored);
    assert_eq!(primary_click(&rs, -1, -1), ClickOutcome::Ignored);
    let (rs, _) = rs.reduce(RunAction::StartRun);
    assert_eq!(primary_click(&rs, 8, 6), ClickOutcome::StartMining { start_run: false });
    let (rs, _) = rs.reduce(RunAction::PlaceTower { x: 8, y: 5, kind: TowerKind::Basic });
    assert_eq!(primary_click(&rs, 8, 5), ClickOutcome::Ignored, "towers are not mined");
    let (rs, _) = rs.reduce(RunAction::TogglePause);
    assert_eq!(primary_click(&rs, 8, 6), ClickOutcome::Ignored);
}

#[test]
fn debuffs_follow_the_tile() {
    assert_eq!(debuff_kind_of_boost(Some(BoostKind::Slow)), Some(DebuffKind::Slow));
    assert_eq!(debuff_kind_of_boost(Some(BoostKind::Damage)), Some(DebuffKind::Poison));
    assert_eq!(debuff_kind_of_boost(Some(BoostKind::Fire)), Some(DebuffKind::Burn));
    assert_eq!(debuff_kind_of_boost(Some(BoostKind::Range)), None);
    assert_eq!(debuff_kind_of_boost(Some(BoostKind::FireRate)), None);
    assert_eq!(debuff_kind_of_boost(None), None);
}

#[test]
fn path_is_empty_without_a_route() {
    let gs = GridSize { width: 10, height: 10 };
    let mut tiles = generate_tiles(gs, &plain_rolls(100));
    let path = compute_path(gs, &tiles);
    assert_eq!(path.len(), 11);
    let lp = build_loop_path(gs, &tiles, &path);
    assert_eq!(lp.len(), 14);
    tiles[8 * 10 + 5].kind = maze_defence::grid::TileKind::Wall;
    let blocked = compute_path(gs, &tiles);
    assert!(blocked.is_empty());
    let lp = build_loop_path(gs, &tiles, &blocked);
    assert_eq!(lp, vec![Position { x: 5, y: 5 }, Position { x: 6, y: 5 }, Position { x: 4, y: 5 }]);
}

#[test]
fn path_takes_the_shorter_way_once_opened() {
    let gs = GridSize { width: 10, height: 10 };
    let mut tiles = generate_tiles(gs, &plain_rolls(100));
    for (x, y) in [(7, 4), (7, 3), (6, 3), (5, 3), (4, 3), (3, 3), (3, 4)] {
        tiles[y * 10 + x].kind = maze_defence::grid::TileKind::Empty;
    }
    let path = compute_path(gs, &tiles);
    assert_eq!(path.len(), 9);
    assert_eq!(path[0], Position { x: 7, y: 5 });
    assert_eq!(path[8], Position { x: 3, y: 5 });
}

#[test]
fn touch_starts_mining_or_walls_without_reach_checks() {
    let rs = fresh10();
    assert_eq!(touch_start(&rs, 0, 0), ClickOutcome::StartMining { start_run: true });
    assert_eq!(touch_start(&rs, 7, 5), ClickOutcome::PlaceWall);
    assert_eq!(touch_start(&rs, 5, 5), ClickOutcome::Ignored);
    assert_eq!(touch_start(&rs, 5, 50), ClickOutcome::Ignored);
    let (rs, _) = rs.reduce(RunAction::TogglePause);
    assert_eq!(touch_start(&rs, 0, 0), ClickOutcome::Ignored);
    assert!(is_solid(maze_defence::grid::TileKind::Wall));
    assert!(!is_solid(maze_defence::grid::TileKind::Start));
}

#[test]
fn boost_and_category_labels() {
    assert_eq!(boost_name(&BoostKind::Range), "Healing");
    assert_eq!(boost_name(&BoostKind::Slow), "Cold");
    assert_eq!(boost_color(&BoostKind::Damage), "#a855f7");
    assert_eq!(boost_icon(&BoostKind::Fire), "🔥");
    assert_eq!(cat_symbol("Damage"), "⚔");
    assert_eq!(cat_symbol("PlayArea"), "⛶");
    assert_eq!(cat_symbol("Dam"), "●");
    assert_eq!(cat_symbol(""), "●");
}
