use maze_platformer::block::Block;
use maze_platformer::levels::{level_node_size, Levels};
use maze_platformer::menu::{Collider, ContactEvent, Menu};
use maze_platformer::progress::{Command, Phase, Signal};
use maze_platformer::world::WorldPlan;

#[test]
fn game_begins_with_level_one() {
    assert_eq!(Phase::start(), Phase::Playing(1));
}

#[test]
fn exit_starts_loading_the_next_level() {
    let mut p = Phase::Playing(4);
    assert_eq!(p.advance(Signal::EndReached), Command::ShowLoadingAndBuild(5));
    assert_eq!(p, Phase::Loading { current: 4, next: 5 });
}

#[test]
fn built_level_replaces_the_old_one() {
    let mut p = Phase::Loading { current: 4, next: 5 };
    assert_eq!(p.advance(Signal::LevelBuilt), Command::ReplaceLevel(5));
    assert_eq!(p, Phase::Playing(5));
}

#[test]
fn failed_load_goes_back_to_the_old_level() {
    let mut p = Phase::Loading { current: 4, next: 5 };
    assert_eq!(p.advance(Signal::LoadFailed), Command::KeepLevel(4));
    assert_eq!(p, Phase::Playing(4));
}

#[test]
fn loading_is_not_given_up() {
    let mut p = Phase::Loading { current: 4, next: 5 };
    assert_eq!(p.advance(Signal::EndReached), Command::Nothing);
    assert_eq!(p, Phase::Loading { current: 4, next: 5 });
}

#[test]
fn signals_of_loading_mean_nothing_while_playing() {
    let mut p = Phase::Playing(2);
    assert_eq!(p.advance(Signal::LevelBuilt), Command::Nothing);
    assert_eq!(p, Phase::Playing(2));
    assert_eq!(p.advance(Signal::LoadFailed), Command::Nothing);
    assert_eq!(p, Phase::Playing(2));
}

#[test]
fn levels_grow_by_two_nodes() {
    assert_eq!(level_node_size(0), 13);
    assert_eq!(level_node_size(1), 15);
    assert_eq!(level_node_size(2), 17);
    assert_eq!(level_node_size(10), 33);
}

#[test]
fn store_generates_a_level_once() {
    let mut levels = Levels::new();
    let first = levels.get_level(1).unwrap();
    assert_eq!(first.len(), 31);
    assert_eq!(first[0].len(), 31);
    let again = levels.get_level(1).unwrap();
    assert_eq!(first, again);
    let second = levels.get_level(2).unwrap();
    assert_eq!(second.len(), 35);
    assert_eq!(levels.get_level(1).unwrap(), first);
    assert_eq!(levels.get_level(2).unwrap(), second);
}

#[test]
fn progression_from_the_exit_to_the_next_level() {
    // player and exit in one level; the step's contact names both
    let mut g = vec![vec![Block::Dirt; 4]; 3];
    g[1][1] = Block::PlayerStart;
    g[1][2] = Block::PlayerEnd;
    let plan = WorldPlan::build(&g).unwrap();
    let end = plan.end_collider.unwrap();
    let mut phase = Phase::start();
    let mut menu = Menu::new(&plan, 1);
    let next = menu.update(&vec![ContactEvent::Started(Collider::Static(end), Collider::Player)]);
    assert_eq!(next, Some(2));
    let command = phase.advance(Signal::EndReached);
    assert_eq!(command, Command::ShowLoadingAndBuild(2));
    let mut levels = Levels::new();
    let grid = levels.get_level(2).unwrap();
    assert_eq!(grid.len(), 2 * 17 + 1);
    let new_plan = WorldPlan::build_lenient(&grid).unwrap();
    let new_menu = Menu::new(&new_plan, 2);
    assert_eq!(phase.advance(Signal::LevelBuilt), Command::ReplaceLevel(2));
    assert_eq!(phase, Phase::Playing(2));
    assert_eq!(new_menu.current_level, 2);
    assert_eq!(new_menu.jump_count, 0);
    assert_eq!(new_menu.level_size, (35, 35));
    assert_eq!(new_menu.end_collider, None);
    assert_eq!(new_plan.statics.len(), 35 * 35 - (2 * 17 * 17 - 1));
}
