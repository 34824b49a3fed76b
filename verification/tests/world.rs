use maze_platformer::block::Block;
use maze_platformer::error::Error;
use maze_platformer::maze_gen::generate_maze;
use maze_platformer::world::{StaticBody, WorldPlan, BLOCK_SIZE};

fn level(rows: &[&str]) -> Vec<Vec<Block>> {
    rows.iter()
        .map(|r| r.chars().map(|c| Block::from_char(c).unwrap()).collect())
        .collect()
}

fn count(g: &Vec<Vec<Block>>, b: Block) -> usize {
    g.iter().map(|row| row.iter().filter(|c| **c == b).count()).sum()
}

#[test]
fn block_size_is_32() {
    assert_eq!(BLOCK_SIZE, 32);
}

#[test]
fn plan_has_a_body_for_each_solid_block_row_by_row() {
    let g = level(&["bbbb", "bpeb", "babb"]);
    let plan = WorldPlan::build(&g).unwrap();
    let b = |x: usize, y: usize, block: Block| StaticBody { x, y, block };
    assert_eq!(
        plan.statics,
        vec![
            b(0, 0, Block::Dirt),
            b(32, 0, Block::Dirt),
            b(64, 0, Block::Dirt),
            b(96, 0, Block::Dirt),
            b(0, 32, Block::Dirt),
            b(64, 32, Block::PlayerEnd),
            b(96, 32, Block::Dirt),
            b(0, 64, Block::Dirt),
            b(64, 64, Block::Dirt),
            b(96, 64, Block::Dirt),
        ]
    );
    assert_eq!(plan.player, (32, 32));
    assert_eq!(plan.end_collider, Some(5));
    assert_eq!(plan.level_size, (4, 3));
}

#[test]
fn plan_counts_dirt_and_exits_and_is_the_same_each_time() {
    let g = level(&["bbbbb", "bpaeb", "baaab", "bebab", "bbbbb"]);
    let first = WorldPlan::build(&g).unwrap();
    let second = WorldPlan::build(&g).unwrap();
    assert_eq!(first.statics.len(), count(&g, Block::Dirt) + count(&g, Block::PlayerEnd));
    assert_eq!(first.statics.len(), 19);
    assert_eq!(first.statics, second.statics);
    assert_eq!(first.player, second.player);
    assert_eq!(first.end_collider, second.end_collider);
    assert_eq!(first.level_size, second.level_size);
}

#[test]
fn plan_of_a_generated_maze_counts_its_dirt() {
    let g = generate_maze((4, 5)).unwrap();
    let plan = WorldPlan::build_lenient(&g).unwrap();
    assert_eq!(plan.statics.len(), count(&g, Block::Dirt));
    assert_eq!(plan.statics.len(), 9 * 11 - (2 * 20 - 1));
    assert_eq!(plan.end_collider, None);
    // four columns and five rows of nodes
    assert_eq!(plan.level_size, (9, 11));
    let (x, y) = plan.player;
    assert_eq!(g[y / 32][x / 32], Block::PlayerStart);
    let again = WorldPlan::build_lenient(&g).unwrap();
    assert_eq!(again.statics, plan.statics);
}

#[test]
fn player_starts_at_the_first_start() {
    let g = level(&["baab", "bapb", "bpeb"]);
    let plan = WorldPlan::build(&g).unwrap();
    assert_eq!(plan.player, (64, 32));
}

#[test]
fn exit_is_the_last_one() {
    let g = level(&["ebab", "bpeb", "beab"]);
    let plan = WorldPlan::build(&g).unwrap();
    assert_eq!(plan.end_collider, Some(7));
    assert_eq!(plan.statics[7], StaticBody { x: 32, y: 64, block: Block::PlayerEnd });
}

#[test]
fn level_without_start_is_refused() {
    let g = level(&["bbb", "bab", "beb"]);
    assert!(matches!(WorldPlan::build(&g), Err(Error::MissingPlayerStart)));
    assert!(matches!(WorldPlan::build_lenient(&g), Err(Error::MissingPlayerStart)));
}

#[test]
fn level_without_anything_is_refused_for_its_start() {
    let g = level(&["bbb", "bab", "bbb"]);
    assert!(matches!(WorldPlan::build(&g), Err(Error::MissingPlayerStart)));
    let empty: Vec<Vec<Block>> = Vec::new();
    assert!(matches!(WorldPlan::build(&empty), Err(Error::MissingPlayerStart)));
    assert!(matches!(WorldPlan::build_lenient(&empty), Err(Error::MissingPlayerStart)));
}

#[test]
fn level_without_exit_is_refused_or_planned_without_one() {
    let g = level(&["bbb", "bpb", "bbb"]);
    assert!(matches!(WorldPlan::build(&g), Err(Error::MissingPlayerEnd)));
    let plan = WorldPlan::build_lenient(&g).unwrap();
    assert_eq!(plan.end_collider, None);
    assert_eq!(plan.statics.len(), 8);
    assert_eq!(plan.player, (32, 32));
    assert_eq!(plan.level_size, (3, 3));
}

#[test]
fn level_size_takes_the_last_row() {
    let g = level(&["bpe", "ba"]);
    let plan = WorldPlan::build(&g).unwrap();
    assert_eq!(plan.level_size, (2, 2));
}

#[test]
fn body_knows_its_tile() {
    let body = StaticBody { x: 96, y: 32, block: Block::Dirt };
    assert_eq!(body.tile(), (3, 1));
    assert_eq!(StaticBody { x: 0, y: 0, block: Block::PlayerEnd }.tile(), (0, 0));
}

#[test]
fn stars_are_two_for_each_body_and_within_the_level() {
    let g = level(&["bbbb", "bpeb", "babb"]);
    let plan = WorldPlan::build(&g).unwrap();
    let mut far_x = 0;
    let mut far_y = 0;
    for _ in 0..50 {
        let stars = plan.stars();
        assert_eq!(stars.len(), 20);
        for (x, y) in stars {
            assert!(x <= 4 * 32);
            assert!(y <= 3 * 32);
            far_x = far_x.max(x);
            far_y = far_y.max(y);
        }
    }
    // a thousand stars reach beyond the first block
    assert!(far_x > 32);
    assert!(far_y > 32);
}

#[test]
fn level_without_bodies_has_no_stars() {
    let g = level(&["pa", "aa"]);
    let plan = WorldPlan::build_lenient(&g).unwrap();
    assert_eq!(plan.statics.len(), 0);
    assert_eq!(plan.stars(), Vec::<(usize, usize)>::new());
}
