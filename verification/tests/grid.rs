use snekgame::block::{Block, Direction, Square};
use snekgame::food::Food;
use snekgame::grid::Grid;
use snekgame::snek::Snek;

fn blocks(cells: &[(u32, u32)]) -> Vec<Block> {
    cells.iter().map(|c| Block(c.0, c.1)).collect()
}

#[test]
fn contains_tells_inside_from_outside() {
    let grid = Grid { rows: 25, cols: 30 };
    assert!(grid.contains(Block(0, 0)));
    assert!(grid.contains(Block(29, 24)));
    assert!(grid.contains(Block(29, 0)));
    assert!(grid.contains(Block(0, 24)));
    assert!(!grid.contains(Block(30, 0)));
    assert!(!grid.contains(Block(0, 25)));
    assert!(!grid.contains(Block(24, 29)));
    assert!(!grid.contains(Block(u32::MAX, u32::MAX)));
}

#[test]
fn grid_without_cells_contains_nothing() {
    assert!(!Grid { rows: 0, cols: 5 }.contains(Block(0, 0)));
    assert!(!Grid { rows: 5, cols: 0 }.contains(Block(0, 0)));
    assert_eq!(Grid { rows: 0, cols: 5 }.count_free(&Vec::new()), 0);
    assert_eq!(Grid { rows: 5, cols: 0 }.count_free(&Vec::new()), 0);
    assert_eq!(Grid { rows: 0, cols: 0 }.free_cell(&Vec::new(), 0), None);
    assert_eq!(Grid { rows: 0, cols: 0 }.random_free_cell(&Vec::new()), None);
}

#[test]
fn count_free_leaves_out_the_occupied_cells() {
    let grid = Grid { rows: 2, cols: 3 };
    assert_eq!(grid.count_free(&Vec::new()), 6);
    assert_eq!(grid.count_free(&blocks(&[(1, 0)])), 5);
    assert_eq!(grid.count_free(&blocks(&[(1, 0), (2, 1), (0, 0)])), 3);
    assert_eq!(grid.count_free(&blocks(&[(0, 0), (1, 0), (2, 0), (0, 1), (1, 1), (2, 1)])), 0);
}

#[test]
fn count_free_ignores_cells_off_the_grid_and_repeats() {
    let grid = Grid { rows: 2, cols: 3 };
    assert_eq!(grid.count_free(&blocks(&[(3, 0), (0, 2), (9, 9)])), 6);
    assert_eq!(grid.count_free(&blocks(&[(1, 1), (1, 1), (1, 1)])), 5);
}

#[test]
fn free_cell_counts_in_reading_order() {
    let grid = Grid { rows: 2, cols: 3 };
    let none: Vec<Block> = Vec::new();
    assert_eq!(grid.free_cell(&none, 0), Some(Block(0, 0)));
    assert_eq!(grid.free_cell(&none, 1), Some(Block(1, 0)));
    assert_eq!(grid.free_cell(&none, 2), Some(Block(2, 0)));
    assert_eq!(grid.free_cell(&none, 3), Some(Block(0, 1)));
    assert_eq!(grid.free_cell(&none, 4), Some(Block(1, 1)));
    assert_eq!(grid.free_cell(&none, 5), Some(Block(2, 1)));
    assert_eq!(grid.free_cell(&none, 6), None);
    assert_eq!(grid.free_cell(&none, u64::MAX), None);
}

#[test]
fn free_cell_skips_the_occupied_cells() {
    let grid = Grid { rows: 2, cols: 3 };
    let occupied = blocks(&[(0, 0), (2, 0), (1, 1)]);
    assert_eq!(grid.free_cell(&occupied, 0), Some(Block(1, 0)));
    assert_eq!(grid.free_cell(&occupied, 1), Some(Block(0, 1)));
    assert_eq!(grid.free_cell(&occupied, 2), Some(Block(2, 1)));
    assert_eq!(grid.free_cell(&occupied, 3), None);
}

#[test]
fn free_cell_of_a_full_grid_is_none() {
    let grid = Grid { rows: 1, cols: 2 };
    let occupied = blocks(&[(1, 0), (0, 0)]);
    assert_eq!(grid.free_cell(&occupied, 0), None);
}

#[test]
fn random_free_cell_is_on_the_grid_and_free() {
    let grid = Grid { rows: 4, cols: 5 };
    let occupied = blocks(&[(0, 0), (1, 0), (2, 0), (2, 1), (4, 3)]);
    for _ in 0..500 {
        let cell = grid.random_free_cell(&occupied).unwrap();
        assert!(grid.contains(cell));
        assert!(!occupied.contains(&cell));
    }
}

#[test]
fn random_free_cell_reaches_every_free_cell() {
    let grid = Grid { rows: 2, cols: 2 };
    let occupied = blocks(&[(1, 0)]);
    let mut seen = [false; 4];
    for _ in 0..2000 {
        let cell = grid.random_free_cell(&occupied).unwrap();
        seen[(cell.1 * 2 + cell.0) as usize] = true;
    }
    assert_eq!(seen, [true, false, true, true]);
}

#[test]
fn random_free_cell_finds_the_last_free_cell() {
    let grid = Grid { rows: 2, cols: 2 };
    let occupied = blocks(&[(0, 0), (1, 0), (1, 1)]);
    for _ in 0..50 {
        assert_eq!(grid.random_free_cell(&occupied), Some(Block(0, 1)));
    }
}

#[test]
fn random_free_cell_of_a_full_grid_is_none() {
    let grid = Grid { rows: 2, cols: 2 };
    let occupied = blocks(&[(0, 0), (1, 0), (1, 1), (0, 1)]);
    assert_eq!(grid.random_free_cell(&occupied), None);
}

#[test]
fn food_is_eaten_when_the_head_is_on_it() {
    let s = Snek::new(blocks(&[(5, 5), (4, 5)]), Direction::Right).unwrap();
    assert!(Food { block: Block(5, 5) }.update(&s));
    assert!(!Food { block: Block(4, 5) }.update(&s));
    assert!(!Food { block: Block(5, 4) }.update(&s));
    assert!(!Food { block: Block(6, 6) }.update(&s));
}

#[test]
fn relocate_puts_food_clear_of_the_snake() {
    let grid = Grid { rows: 3, cols: 3 };
    let s = Snek::new(blocks(&[(1, 1), (0, 1), (0, 0), (1, 0)]), Direction::Right).unwrap();
    for _ in 0..500 {
        let food = Food::relocate(&grid, &s).unwrap();
        assert!(grid.contains(food.block));
        assert!(!s.collision(food.block.0, food.block.1));
    }
}

#[test]
fn relocate_takes_the_only_free_cell() {
    let grid = Grid { rows: 2, cols: 2 };
    let s = Snek::new(blocks(&[(1, 0), (0, 0), (0, 1)]), Direction::Down).unwrap();
    assert_eq!(Food::relocate(&grid, &s), Some(Food { block: Block(1, 1) }));
}

#[test]
fn relocate_on_a_full_grid_is_none() {
    let grid = Grid { rows: 2, cols: 2 };
    let s = Snek::new(blocks(&[(1, 1), (1, 0), (0, 0), (0, 1)]), Direction::Down).unwrap();
    assert_eq!(Food::relocate(&grid, &s), None);
}

#[test]
fn food_init_scales_its_cell() {
    assert_eq!(Food { block: Block(10, 10) }.init(10), Square { x: 100, y: 100, size: 10 });
    assert_eq!(Food { block: Block(0, 3) }.init(7), Square { x: 0, y: 21, size: 7 });
}
