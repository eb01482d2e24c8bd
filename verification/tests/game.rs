use snekgame::block::{Block, Direction};
use snekgame::food::Food;
use snekgame::game::{Board, Game};
use snekgame::grid::Grid;
use snekgame::snek::Snek;

fn board(rows: u32, cols: u32, food: (u32, u32), cells: &[(u32, u32)], dir: Direction) -> Option<Board> {
    let body: Vec<Block> = cells.iter().map(|c| Block(c.0, c.1)).collect();
    let snek = Snek::new(body, dir).unwrap();
    Board::new(rows, cols, Food { block: Block(food.0, food.1) }, snek)
}

fn game(rows: u32, cols: u32, food: (u32, u32), cells: &[(u32, u32)], dir: Direction) -> Game {
    Game::new(board(rows, cols, food, cells, dir).unwrap())
}

fn cells(g: &Game) -> Vec<(u32, u32)> {
    g.board().snek().body().iter().map(|b| (b.0, b.1)).collect()
}

fn food(g: &Game) -> (u32, u32) {
    let block = g.board().food().block;
    (block.0, block.1)
}

#[test]
fn board_shows_what_it_was_made_of() {
    let b = board(25, 30, (10, 10), &[(1, 1)], Direction::Down).unwrap();
    assert_eq!(b.grid(), Grid { rows: 25, cols: 30 });
    assert_eq!(b.food(), Food { block: Block(10, 10) });
    assert_eq!(b.snek().body(), &vec![Block(1, 1)]);
    assert_eq!(b.snek().dir(), Direction::Down);
}

#[test]
fn board_refuses_food_on_the_snake() {
    assert!(board(10, 10, (5, 5), &[(5, 5)], Direction::Right).is_none());
    assert!(board(10, 10, (4, 5), &[(5, 5), (4, 5)], Direction::Right).is_none());
}

#[test]
fn board_refuses_food_off_the_grid() {
    assert!(board(10, 10, (10, 0), &[(5, 5)], Direction::Right).is_none());
    assert!(board(10, 10, (0, 10), &[(5, 5)], Direction::Right).is_none());
}

#[test]
fn board_refuses_a_snake_off_the_grid() {
    assert!(board(10, 10, (1, 1), &[(10, 5)], Direction::Right).is_none());
    assert!(board(10, 10, (1, 1), &[(9, 9), (9, 10)], Direction::Up).is_none());
    assert!(board(0, 0, (0, 0), &[(0, 0)], Direction::Up).is_none());
}

#[test]
fn new_game_runs_with_nothing_scored() {
    let g = game(25, 30, (10, 10), &[(1, 1)], Direction::Down);
    assert!(g.playing());
    assert_eq!(g.score(), 0);
    assert_eq!(cells(&g), vec![(1, 1)]);
    assert_eq!(food(&g), (10, 10));
}

#[test]
fn tick_moves_a_single_cell_forward() {
    let mut g = game(10, 10, (0, 0), &[(5, 5)], Direction::Right);
    assert!(g.update());
    assert!(g.playing());
    assert_eq!(cells(&g), vec![(6, 5)]);
    assert_eq!(g.score(), 0);
    assert_eq!(food(&g), (0, 0));
    assert!(!g.board().snek().just_ate());
}

#[test]
fn tick_follows_the_turns() {
    let mut g = game(10, 10, (0, 0), &[(5, 5), (4, 5), (3, 5)], Direction::Right);
    g.pressed(Direction::Down);
    assert!(g.update());
    assert_eq!(cells(&g), vec![(5, 6), (5, 5), (4, 5)]);
    g.pressed(Direction::Left);
    assert!(g.update());
    assert_eq!(cells(&g), vec![(4, 6), (5, 6), (5, 5)]);
    g.pressed(Direction::Up);
    assert!(g.update());
    assert_eq!(cells(&g), vec![(4, 5), (4, 6), (5, 6)]);
    assert!(g.playing());
    assert_eq!(g.score(), 0);
}

#[test]
fn tick_into_the_wall_ends_the_game() {
    let mut g = game(10, 10, (3, 3), &[(0, 5), (1, 5)], Direction::Left);
    assert!(!g.update());
    assert!(!g.playing());
    assert_eq!(g.score(), 0);
    assert_eq!(cells(&g), vec![(0, 5), (1, 5)]);
    assert_eq!(food(&g), (3, 3));
}

#[test]
fn tick_into_the_body_ends_the_game() {
    let looped = [(5, 5), (5, 6), (5, 4), (4, 4), (4, 5)];
    let mut g = game(10, 10, (0, 0), &looped, Direction::Up);
    assert!(!g.update());
    assert!(!g.playing());
    assert_eq!(g.score(), 0);
    assert_eq!(cells(&g), looped.to_vec());
}

#[test]
fn tick_after_the_end_changes_nothing() {
    let mut g = game(10, 10, (3, 3), &[(0, 5)], Direction::Left);
    assert!(!g.update());
    for _ in 0..5 {
        assert!(!g.update());
        assert!(!g.playing());
        assert_eq!(cells(&g), vec![(0, 5)]);
        assert_eq!(food(&g), (3, 3));
        assert_eq!(g.score(), 0);
    }
}

#[test]
fn pressed_ignores_only_a_reversal() {
    let mut g = game(10, 10, (0, 0), &[(5, 5)], Direction::Right);
    g.pressed(Direction::Left);
    assert_eq!(g.board().snek().dir(), Direction::Right);
    g.pressed(Direction::Up);
    assert_eq!(g.board().snek().dir(), Direction::Up);
    g.pressed(Direction::Down);
    assert_eq!(g.board().snek().dir(), Direction::Up);
    g.pressed(Direction::Up);
    assert_eq!(g.board().snek().dir(), Direction::Up);
    assert_eq!(cells(&g), vec![(5, 5)]);
    assert_eq!(g.score(), 0);
    assert!(g.playing());
}

#[test]
fn last_request_before_the_tick_counts() {
    let mut g = game(10, 10, (0, 0), &[(5, 5)], Direction::Right);
    g.pressed(Direction::Up);
    g.pressed(Direction::Left);
    assert!(g.update());
    assert_eq!(cells(&g), vec![(4, 5)]);
}

#[test]
fn pressed_after_the_end_moves_nothing() {
    let mut g = game(10, 10, (3, 3), &[(0, 5)], Direction::Left);
    assert!(!g.update());
    g.pressed(Direction::Down);
    assert!(!g.update());
    assert!(!g.playing());
    assert_eq!(cells(&g), vec![(0, 5)]);
}

#[test]
fn eating_scores_and_moves_the_food() {
    let mut g = game(10, 10, (6, 5), &[(5, 5)], Direction::Right);
    assert!(g.update());
    assert_eq!(g.score(), 1);
    assert_eq!(cells(&g), vec![(6, 5)]);
    assert!(g.board().snek().just_ate());
    let placed = g.board().food().block;
    assert!(g.board().grid().contains(placed));
    assert_ne!(placed, Block(6, 5));
}

#[test]
fn eating_grows_the_snake_one_tick_later() {
    let mut g = game(1, 10, (1, 0), &[(0, 0)], Direction::Right);
    assert!(g.update());
    assert_eq!(cells(&g), vec![(1, 0)]);
    assert_eq!(g.score(), 1);
    let eats_again = food(&g) == (2, 0);
    assert!(g.update());
    assert_eq!(cells(&g), vec![(2, 0), (1, 0)]);
    assert_eq!(g.board().snek().just_ate(), eats_again);
    assert_eq!(g.score(), if eats_again { 2 } else { 1 });
}

#[test]
fn food_stays_put_until_it_is_eaten() {
    let mut g = game(10, 10, (9, 9), &[(0, 0)], Direction::Right);
    for _ in 0..8 {
        assert!(g.update());
        assert_eq!(food(&g), (9, 9));
        assert_eq!(g.score(), 0);
        assert!(!g.board().snek().just_ate());
    }
}

#[test]
fn filling_the_board_ends_the_game() {
    let mut g = game(2, 2, (1, 0), &[(0, 0), (0, 1), (1, 1)], Direction::Right);
    assert!(g.update());
    assert_eq!(cells(&g), vec![(1, 0), (0, 0), (0, 1)]);
    assert_eq!(g.score(), 1);
    assert_eq!(food(&g), (1, 1));
    g.pressed(Direction::Down);
    assert!(!g.update());
    assert!(!g.playing());
    assert_eq!(cells(&g), vec![(1, 1), (1, 0), (0, 0), (0, 1)]);
    assert_eq!(g.score(), 2);
    assert_eq!(food(&g), (1, 1));
    assert!(!g.update());
    assert_eq!(g.score(), 2);
}

#[test]
fn one_cell_board_is_full_from_the_start() {
    assert!(board(1, 1, (0, 0), &[(0, 0)], Direction::Right).is_none());
    let mut g = game(1, 2, (1, 0), &[(0, 0)], Direction::Right);
    assert!(g.update());
    assert_eq!(cells(&g), vec![(1, 0)]);
    assert_eq!(food(&g), (0, 0));
    assert_eq!(g.score(), 1);
    assert!(!g.update());
    assert!(!g.playing());
    assert_eq!(g.score(), 1);
}

#[test]
fn score_counts_the_meals_of_a_long_run() {
    let mut g = game(6, 6, (3, 0), &[(0, 0)], Direction::Right);
    let turns = [Direction::Right, Direction::Down, Direction::Left, Direction::Up];
    let mut meals: u64 = 0;
    let mut ticks = 0;
    while g.playing() && ticks < 400 {
        let head = g.board().snek().head();
        let target = g.board().food().block;
        let wanted = if target.0 > head.0 {
            Direction::Right
        } else if target.0 < head.0 {
            Direction::Left
        } else if target.1 > head.1 {
            Direction::Down
        } else {
            Direction::Up
        };
        g.pressed(wanted);
        g.pressed(turns[ticks % 4]);
        g.pressed(wanted);
        let score = g.score();
        let length = g.board().snek().body().len();
        let grows = g.board().snek().just_ate();
        let old_food = g.board().food();
        let alive = g.update();
        assert_eq!(alive, g.playing());
        let body = g.board().snek().body();
        if alive {
            assert_eq!(body.len(), length + if grows { 1 } else { 0 });
            let ate = g.board().snek().head() == old_food.block;
            assert_eq!(g.board().snek().just_ate(), ate);
            if ate {
                meals += 1;
                assert_eq!(g.score(), score + 1);
            } else {
                assert_eq!(g.score(), score);
                assert_eq!(g.board().food(), old_food);
            }
            let placed = g.board().food().block;
            assert!(g.board().grid().contains(placed));
            assert!(!g.board().snek().collision(placed.0, placed.1));
        } else if body.len() == length {
            assert_eq!(g.score(), score);
        }
        for (i, cell) in body.iter().enumerate() {
            assert!(g.board().grid().contains(*cell));
            assert!(!body[..i].contains(cell));
        }
        assert!(g.score() >= score);
        ticks += 1;
    }
    assert!(meals <= g.score() && g.score() <= meals + 1);
    assert!(g.score() >= 1);
}
