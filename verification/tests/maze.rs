use maze_platformer::block::Block;
use maze_platformer::carving::Dir;
use maze_platformer::error::Error;
use maze_platformer::maze_gen::{generate_maze, node_to_block, Carver};

fn is_open(b: Block) -> bool {
    b == Block::Air || b == Block::PlayerStart
}

fn count(g: &Vec<Vec<Block>>, b: Block) -> usize {
    g.iter().map(|row| row.iter().filter(|c| **c == b).count()).sum()
}

fn carved_walls(g: &Vec<Vec<Block>>) -> usize {
    let mut n = 0;
    for (i, row) in g.iter().enumerate() {
        for (j, b) in row.iter().enumerate() {
            if i % 2 != j % 2 && *b == Block::Air {
                n += 1;
            }
        }
    }
    n
}

fn reachable_from_start(g: &Vec<Vec<Block>>) -> usize {
    let mut seen = vec![vec![false; g[0].len()]; g.len()];
    let mut queue = Vec::new();
    for (i, row) in g.iter().enumerate() {
        for (j, b) in row.iter().enumerate() {
            if *b == Block::PlayerStart {
                seen[i][j] = true;
                queue.push((i, j));
            }
        }
    }
    let mut n = 0;
    while let Some((i, j)) = queue.pop() {
        n += 1;
        let mut next = Vec::new();
        if i > 0 {
            next.push((i - 1, j));
        }
        if j > 0 {
            next.push((i, j - 1));
        }
        if i + 1 < g.len() {
            next.push((i + 1, j));
        }
        if j + 1 < g[i].len() {
            next.push((i, j + 1));
        }
        for (a, b) in next {
            if is_open(g[a][b]) && !seen[a][b] {
                seen[a][b] = true;
                queue.push((a, b));
            }
        }
    }
    n
}

fn check_maze(g: &Vec<Vec<Block>>, w: usize, h: usize) {
    assert_eq!(g.len(), 2 * h + 1);
    for row in g.iter() {
        assert_eq!(row.len(), 2 * w + 1);
    }
    for i in 0..g.len() {
        for j in 0..g[i].len() {
            let b = g[i][j];
            assert_ne!(b, Block::PlayerEnd);
            if i == 0 || i == 2 * h || j == 0 || j == 2 * w {
                assert_eq!(b, Block::Dirt);
            }
            if i % 2 == 1 && j % 2 == 1 {
                assert!(is_open(b));
            }
            if i % 2 == 0 && j % 2 == 0 {
                assert_eq!(b, Block::Dirt);
            }
            if i % 2 != j % 2 {
                assert_ne!(b, Block::PlayerStart);
            }
        }
    }
    assert_eq!(count(g, Block::PlayerStart), 1);
    assert_eq!(carved_walls(g), w * h - 1);
    assert_eq!(count(g, Block::Air), 2 * (w * h - 1));
    let open = count(g, Block::Air) + count(g, Block::PlayerStart);
    assert_eq!(reachable_from_start(g), open);
}

#[test]
fn node_to_block_doubles_and_adds_one() {
    assert_eq!(node_to_block(0), 1);
    assert_eq!(node_to_block(1), 3);
    assert_eq!(node_to_block(7), 15);
}

#[test]
fn maze_of_one_node() {
    for _ in 0..20 {
        let g = generate_maze((1, 1)).unwrap();
        let d = Block::Dirt;
        assert_eq!(
            g,
            vec![vec![d, d, d], vec![d, Block::PlayerStart, d], vec![d, d, d]]
        );
    }
}

#[test]
fn maze_of_two_nodes() {
    let mut starts = [0usize; 2];
    for _ in 0..200 {
        let g = generate_maze((2, 1)).unwrap();
        assert_eq!(g.len(), 3);
        for row in g.iter() {
            assert_eq!(row.len(), 5);
        }
        assert_eq!(g[1][2], Block::Air);
        assert_eq!(carved_walls(&g), 1);
        assert_eq!(count(&g, Block::PlayerStart), 1);
        assert_eq!(count(&g, Block::Air), 2);
        assert_eq!(count(&g, Block::Dirt), 12);
        if g[1][1] == Block::PlayerStart {
            assert_eq!(g[1][3], Block::Air);
            starts[0] += 1;
        } else {
            assert_eq!(g[1][3], Block::PlayerStart);
            assert_eq!(g[1][1], Block::Air);
            starts[1] += 1;
        }
    }
    assert!(starts[0] > 0 && starts[1] > 0);
}

#[test]
fn maze_of_one_line_of_nodes_is_a_corridor() {
    let g = generate_maze((4, 1)).unwrap();
    check_maze(&g, 4, 1);
    assert_eq!(g.len(), 3);
    for x in 1..8 {
        assert!(is_open(g[1][x]));
    }
    let g = generate_maze((1, 4)).unwrap();
    check_maze(&g, 1, 4);
    assert_eq!(g.len(), 9);
    for y in 1..8 {
        assert!(is_open(g[y][1]));
    }
}

#[test]
fn mazes_of_many_sizes_are_sealed_spanning_and_connected() {
    for w in 1..8 {
        for h in 1..8 {
            for _ in 0..5 {
                let g = generate_maze((w, h)).unwrap();
                check_maze(&g, w, h);
            }
        }
    }
}

#[test]
fn maze_of_the_first_level_size() {
    let g = generate_maze((15, 15)).unwrap();
    check_maze(&g, 15, 15);
    assert_eq!(g.len(), 31);
    assert_eq!(carved_walls(&g), 224);
}

#[test]
fn mazes_differ_from_run_to_run() {
    let first = generate_maze((6, 6)).unwrap();
    let mut differs = false;
    for _ in 0..50 {
        if generate_maze((6, 6)).unwrap() != first {
            differs = true;
        }
    }
    assert!(differs);
}

#[test]
fn maze_without_nodes_is_refused() {
    assert_eq!(generate_maze((0, 3)), Err(Error::InvalidMazeRequest));
    assert_eq!(generate_maze((3, 0)), Err(Error::InvalidMazeRequest));
    assert_eq!(generate_maze((0, 0)), Err(Error::InvalidMazeRequest));
}

#[test]
fn carver_begins_with_the_start_alone() {
    let c = Carver::new((2, 3), (1, 2));
    assert!(!c.is_done());
    let g = c.blocks().clone();
    // two columns and three rows of nodes, the start in column 1 of row 2
    assert_eq!(g.len(), 7);
    for i in 0..7 {
        assert_eq!(g[i].len(), 5);
        for j in 0..5 {
            let want = if (i, j) == (5, 3) { Block::PlayerStart } else { Block::Dirt };
            assert_eq!(g[i][j], want);
        }
    }
}

#[test]
fn carver_lists_steps_in_order_and_skips_walls_and_visited_nodes() {
    let mut c = Carver::new((3, 3), (1, 1));
    assert_eq!(c.open_directions(), vec![Dir::Down, Dir::Up, Dir::Left, Dir::Right]);
    c.carve(Dir::Down);
    // at (1, 0): nothing below, (1, 1) above is visited
    assert_eq!(c.open_directions(), vec![Dir::Left, Dir::Right]);
    c.carve(Dir::Left);
    // at (0, 0): a corner
    assert_eq!(c.open_directions(), vec![Dir::Up]);
    c.carve(Dir::Up);
    // at (0, 1): (1, 1) to the right is visited
    assert_eq!(c.open_directions(), vec![Dir::Up]);
}

#[test]
fn carver_opens_the_wall_and_the_node() {
    let mut c = Carver::new((2, 2), (0, 0));
    c.carve(Dir::Right);
    let g = c.blocks().clone();
    // to the right: the next column of the same row
    assert_eq!(g[1][1], Block::PlayerStart);
    assert_eq!(g[1][2], Block::Air);
    assert_eq!(g[1][3], Block::Air);
    assert_eq!(count(&g, Block::Air), 2);
    c.carve(Dir::Up);
    let g = c.blocks().clone();
    assert_eq!(g[2][3], Block::Air);
    assert_eq!(g[3][3], Block::Air);
    c.carve(Dir::Left);
    let g = c.blocks().clone();
    assert_eq!(g[3][2], Block::Air);
    assert_eq!(g[3][1], Block::Air);
    assert_eq!(c.open_directions(), Vec::<Dir>::new());
    c.retreat();
    c.retreat();
    c.retreat();
    assert!(!c.is_done());
    c.retreat();
    assert!(c.is_done());
    let g = c.into_grid();
    check_maze(&g, 2, 2);
    assert_eq!(g[2][1], Block::Dirt);
}

#[test]
fn carver_steps_down_towards_the_smaller_row() {
    let mut c = Carver::new((1, 2), (0, 1));
    assert_eq!(c.open_directions(), vec![Dir::Down]);
    c.carve(Dir::Down);
    c.retreat();
    c.retreat();
    let g = c.into_grid();
    let d = Block::Dirt;
    assert_eq!(
        g,
        vec![
            vec![d, d, d],
            vec![d, Block::Air, d],
            vec![d, Block::Air, d],
            vec![d, Block::PlayerStart, d],
            vec![d, d, d]
        ]
    );
}

#[test]
fn carver_keeps_the_trail() {
    let mut c = Carver::new((2, 2), (1, 1));
    assert_eq!(c.position_stack(), &vec![(1, 1)]);
    c.carve(Dir::Left);
    c.carve(Dir::Down);
    assert_eq!(c.position_stack(), &vec![(1, 1), (0, 1), (0, 0)]);
    c.carve(Dir::Right);
    c.retreat();
    assert_eq!(c.position_stack(), &vec![(1, 1), (0, 1), (0, 0)]);
}

#[test]
fn maze_is_as_wide_as_its_columns_of_nodes() {
    for _ in 0..20 {
        let g = generate_maze((5, 2)).unwrap();
        check_maze(&g, 5, 2);
        assert_eq!(g.len(), 5);
        assert_eq!(g[0].len(), 11);
        // each node (x, y) has its cell open in row 2y+1, column 2x+1
        for x in 0..5 {
            for y in 0..2 {
                assert!(is_open(g[2 * y + 1][2 * x + 1]));
            }
        }
        // row 2H and column 2W are the far rim
        for x in 0..11 {
            assert_eq!(g[4][x], Block::Dirt);
        }
        for y in 0..5 {
            assert_eq!(g[y][10], Block::Dirt);
        }
    }
}
