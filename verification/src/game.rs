//! The game: a board with a snake and food on it, a score, and the tick that
//! drives them.

use vstd::prelude::*;
use crate::block::{Block, Direction};
use crate::food::Food;
use crate::grid::{Grid, lemma_free_count};
use crate::snek::{Snek, SnekView, StepResult, lemma_step_keeps_wf};

verus! {

/// The playing field and what lies on it.
#[derive(Debug)]
pub struct Board {
    grid: Grid,
    food: Food,
    snek: Snek,
}

/// What a board is, as plain values.
pub struct BoardView {
    pub grid: Grid,
    /// The cell the food lies on.
    pub food: Block,
    pub snek: SnekView,
}

impl BoardView {
    /// Whether every cell of the snake lies on the grid.
    pub open spec fn snek_on_grid(self) -> bool {
        forall|i: int|
            0 <= i < self.snek.body.len() ==> self.grid.contains_spec(#[trigger] self.snek.body[i])
    }

    /// The snake is one, and it and the food lie on the grid.
    pub open spec fn wf(self) -> bool {
        &&& self.snek.wf()
        &&& self.snek_on_grid()
        &&& self.grid.contains_spec(self.food)
    }
}

impl View for Board {
    type V = BoardView;

    closed spec fn view(&self) -> BoardView {
        BoardView { grid: self.grid, food: self.food.block, snek: self.snek@ }
    }
}

impl Board {
    /// The snake is one, and it and the food lie on the grid.
    pub open spec fn wf(&self) -> bool {
        self@.wf()
    }

    /// A board of `rows` rows and `cols` columns with `food` and `snek` on it,
    /// or `None` unless both lie on the grid and the food lies clear of the
    /// snake.
    pub fn new(rows: u32, cols: u32, food: Food, snek: Snek) -> (r: Option<Board>)
        requires
            snek.wf(),
        ensures
            r matches Some(board) ==> board@ == (BoardView {
                grid: Grid { rows, cols },
                food: food.block,
                snek: snek@,
            }) && board.wf() && !board@.snek.occupies(board@.food),
            r.is_some() <==> {
                let view = BoardView { grid: Grid { rows, cols }, food: food.block, snek: snek@ };
                view.wf() && !view.snek.occupies(view.food)
            },
    {
        let grid = Grid { rows, cols };
        if !grid.contains(food.block) || snek.collision(food.block.0, food.block.1) {
            return None;
        }
        let body = snek.body();
        let mut i: usize = 0;
        while i < body.len()
            invariant
                i <= body@.len(),
                body@ == snek@.body,
                grid == (Grid { rows, cols }),
                forall|j: int| 0 <= j < i ==> grid.contains_spec(#[trigger] body@[j]),
            decreases body@.len() - i,
        {
            if !grid.contains(body[i]) {
                return None;
            }
            i += 1;
        }
        Some(Board { grid, food, snek })
    }

    /// The dimensions of the playing field.
    pub fn grid(&self) -> (r: Grid)
        ensures
            r == self@.grid,
    {
        self.grid
    }

    /// The food as it lies now.
    pub fn food(&self) -> (r: Food)
        ensures
            r.block == self@.food,
    {
        self.food
    }

    /// The snake as it lies now.
    pub fn snek(&self) -> (r: &Snek)
        ensures
            r@ == self@.snek,
    {
        &self.snek
    }
}

/// One session of the game.
#[derive(Debug)]
pub struct Game {
    board: Board,
    score: u64,
    playing: bool,
}

/// What a game is, as plain values.
pub struct GameView {
    pub board: BoardView,
    /// How often the snake has eaten.
    pub score: nat,
    /// Whether the session still runs. Once it has ended it stays ended.
    pub playing: bool,
}

impl GameView {
    /// The board is in order; while the session runs the food lies clear of
    /// the snake; and the snake has, or is about to get, a cell beyond its
    /// head for every point of the score.
    pub open spec fn wf(self) -> bool {
        &&& self.board.wf()
        &&& self.playing ==> !self.board.snek.occupies(self.board.food)
        &&& self.score + 1 <= self.board.snek.body.len() + if self.board.snek.just_ate {
            1nat
        } else {
            0nat
        }
    }

    /// How the snake's step of the next tick ends.
    pub open spec fn step_result(self) -> StepResult {
        self.board.snek.step_result(
            self.board.snek.just_ate,
            self.board.grid.cols,
            self.board.grid.rows,
        )
    }

    /// The snake after its step of the next tick.
    pub open spec fn moved(self) -> SnekView {
        self.board.snek.stepped(
            self.board.snek.just_ate,
            self.board.grid.cols,
            self.board.grid.rows,
        )
    }

    /// Whether the next tick brings the head onto the food.
    pub open spec fn eats(self) -> bool {
        self.playing && self.step_result() == StepResult::Alive && self.moved().head()
            == self.board.food
    }

    /// Whether the next tick puts the food on a new cell: the snake eats and
    /// leaves a cell free.
    pub open spec fn relocates(self) -> bool {
        self.eats() && !self.board.grid.is_full(self.moved().body)
    }

    /// The game after one tick, where `cell` is the cell that food lands on if
    /// the tick relocates it.
    pub open spec fn tick(self, cell: Block) -> GameView {
        if !self.playing {
            self
        } else if self.step_result() != StepResult::Alive {
            GameView { board: self.board, score: self.score, playing: false }
        } else {
            let eats = self.eats();
            let full = self.board.grid.is_full(self.moved().body);
            GameView {
                board: BoardView {
                    grid: self.board.grid,
                    food: if eats && !full { cell } else { self.board.food },
                    snek: SnekView {
                        body: self.moved().body,
                        dir: self.moved().dir,
                        just_ate: eats,
                    },
                },
                score: if eats { self.score + 1 } else { self.score },
                playing: !(eats && full),
            }
        }
    }

    /// The game after one tick for each cell of `cells`, in their order, where
    /// each cell is the one that food lands on if its tick relocates it.
    pub open spec fn run(self, cells: Seq<Block>) -> GameView
        decreases cells.len(),
    {
        if cells.len() == 0 {
            self
        } else {
            self.run(cells.drop_last()).tick(cells.last())
        }
    }

    /// Whether, in those ticks, food that is relocated always lands on a cell
    /// of the grid that the snake does not occupy.
    pub open spec fn lands_free(self, cells: Seq<Block>) -> bool
        decreases cells.len(),
    {
        cells.len() == 0 || {
            let g = self.run(cells.drop_last());
            &&& self.lands_free(cells.drop_last())
            &&& g.relocates() ==> g.board.grid.contains_spec(cells.last()) && !g.moved().occupies(
                cells.last(),
            )
        }
    }

    /// In how many of those ticks the head reaches the food.
    pub open spec fn meals(self, cells: Seq<Block>) -> nat
        decreases cells.len(),
    {
        if cells.len() == 0 {
            0
        } else {
            self.meals(cells.drop_last()) + if self.run(cells.drop_last()).eats() {
                1nat
            } else {
                0nat
            }
        }
    }
}

/// The snake of a board in order never has more cells than the grid, and it
/// fills the grid exactly when it has as many.
pub proof fn lemma_snake_fits_board(b: BoardView)
    requires
        b.wf(),
    ensures
        b.snek.body.len() <= b.grid.rows * b.grid.cols,
        b.grid.is_full(b.snek.body) <==> b.snek.body.len() == b.grid.rows * b.grid.cols,
{
    lemma_free_count(b.grid, b.snek.body);
}

/// A tick keeps a game in order, provided that food, where the tick relocates
/// it, lands on a cell of the grid that the snake does not occupy. So while a
/// session runs, the food never lies on the snake.
pub proof fn lemma_tick_keeps_wf(g: GameView, cell: Block)
    requires
        g.wf(),
        g.relocates() ==> g.board.grid.contains_spec(cell) && !g.moved().occupies(cell),
    ensures
        g.tick(cell).wf(),
        g.tick(cell).playing ==> !g.tick(cell).board.snek.occupies(g.tick(cell).board.food),
{
    if g.playing && g.step_result() == StepResult::Alive {
        let grow = g.board.snek.just_ate;
        let before = g.board.snek;
        let after = g.moved();
        lemma_step_keeps_wf(before, grow, g.board.grid.cols, g.board.grid.rows);
        if !g.eats() && after.body.contains(g.board.food) {
            let i = choose|i: int| 0 <= i < after.body.len() && after.body[i] == g.board.food;
            assert(after.body[i] == before.trail(grow)[i - 1]);
            assert(before.body[i - 1] == g.board.food);
        }
    }
}

/// However long a game in order is played, it stays in order as long as
/// relocated food lands on free cells: the snake stays on the grid without
/// crossing itself, and while the session runs the food lies clear of it.
pub proof fn lemma_run_keeps_wf(g: GameView, cells: Seq<Block>)
    requires
        g.wf(),
        g.lands_free(cells),
    ensures
        g.run(cells).wf(),
    decreases cells.len(),
{
    if cells.len() > 0 {
        lemma_run_keeps_wf(g, cells.drop_last());
        lemma_tick_keeps_wf(g.run(cells.drop_last()), cells.last());
    }
}

/// The food changes its cell only in a tick in which the head reaches it, and
/// the grid and the direction of the snake never change in a tick.
pub proof fn lemma_food_moves_only_when_eaten(g: GameView, cell: Block)
    ensures
        g.tick(cell).board.food != g.board.food ==> g.relocates(),
        !g.relocates() ==> g.tick(cell).board.food == g.board.food,
        g.relocates() ==> g.tick(cell).board.food == cell,
        g.tick(cell).board.grid == g.board.grid,
        g.tick(cell).board.snek.dir == g.board.snek.dir,
{
}

/// A tick in which the snake hits a wall or itself ends the session and
/// changes nothing else: the snake, the food and the score stay as they were.
pub proof fn lemma_collision_ends_session(g: GameView, cell: Block)
    requires
        g.playing,
        g.step_result() != StepResult::Alive,
    ensures
        !g.tick(cell).playing,
        g.tick(cell).board == g.board,
        g.tick(cell).score == g.score,
{
}

/// A tick in which the snake eats and thereby fills the grid ends the
/// session, with the meal scored and the food left where it was.
pub proof fn lemma_full_board_ends_session(g: GameView, cell: Block)
    requires
        g.eats(),
        g.board.grid.is_full(g.moved().body),
    ensures
        !g.tick(cell).playing,
        g.tick(cell).score == g.score + 1,
        g.tick(cell).board.food == g.board.food,
{
}

/// A session that has ended stays ended, and no tick changes it any more.
pub proof fn lemma_ended_stays_ended(g: GameView, cells: Seq<Block>)
    requires
        !g.playing,
    ensures
        g.run(cells) == g,
    decreases cells.len(),
{
    if cells.len() > 0 {
        lemma_ended_stays_ended(g, cells.drop_last());
    }
}

/// No tick brings a session back that has ended.
pub proof fn lemma_run_never_revives(g: GameView, cells: Seq<Block>)
    ensures
        g.run(cells).playing ==> g.playing,
    decreases cells.len(),
{
    if cells.len() > 0 {
        lemma_run_never_revives(g, cells.drop_last());
    }
}

/// A tick adds one to the score if the head reaches the food, and leaves the
/// score alone otherwise. The snake is then due to grow exactly if it ate.
pub proof fn lemma_tick_scores_meal(g: GameView, cell: Block)
    ensures
        g.tick(cell).score == g.score + if g.eats() {
            1nat
        } else {
            0nat
        },
        g.playing && g.step_result() == StepResult::Alive ==> g.tick(cell).board.snek.just_ate
            == g.eats(),
{
}

/// After any number of ticks the score has gone up by the number of ticks in
/// which the head reached the food: a game that starts at 0 shows the number
/// of meals. Along the way the score never went down.
pub proof fn lemma_score_counts_meals(g: GameView, cells: Seq<Block>)
    ensures
        g.run(cells).score == g.score + g.meals(cells),
        forall|n: int|
            0 <= n <= cells.len() ==> (#[trigger] g.run(cells.take(n))).score <= g.run(cells).score,
    decreases cells.len(),
{
    if cells.len() > 0 {
        let earlier = cells.drop_last();
        lemma_score_counts_meals(g, earlier);
        assert forall|n: int| 0 <= n <= cells.len() implies (#[trigger] g.run(
            cells.take(n),
        )).score <= g.run(cells).score by {
            if n < cells.len() {
                assert(cells.take(n) =~= earlier.take(n));
            } else {
                assert(cells.take(n) =~= cells);
            }
        }
    } else {
        assert forall|n: int| 0 <= n <= cells.len() implies (#[trigger] g.run(
            cells.take(n),
        )).score <= g.run(cells).score by {
            assert(cells.take(n) =~= cells);
        }
    }
}

impl View for Game {
    type V = GameView;

    closed spec fn view(&self) -> GameView {
        GameView { board: self.board@, score: self.score as nat, playing: self.playing }
    }
}

impl Game {
    /// The game is in order, as `GameView::wf` says.
    pub open spec fn wf(&self) -> bool {
        self@.wf()
    }

    /// A fresh session on `board`: nothing scored yet, and running.
    pub fn new(board: Board) -> (game: Game)
        requires
            board.wf(),
            !board@.snek.occupies(board@.food),
        ensures
            game@ == (GameView { board: board@, score: 0, playing: true }),
            game.wf(),
    {
        Game { board, score: 0, playing: true }
    }

    /// The board as it stands now.
    pub fn board(&self) -> (r: &Board)
        ensures
            r@ == self@.board,
    {
        &self.board
    }

    /// How often the snake has eaten.
    pub fn score(&self) -> (r: u64)
        ensures
            r == self@.score,
    {
        self.score
    }

    /// Whether the session still runs.
    pub fn playing(&self) -> (r: bool)
        ensures
            r == self@.playing,
    {
        self.playing
    }

    /// Advances the session by one tick and says whether it still runs.
    ///
    /// The snake steps. If it hits a wall or itself the session ends and
    /// nothing else changes. If its head reaches the food, the score goes up,
    /// the snake will grow on its next step, and the food moves to a free
    /// cell chosen at random; with no cell left free the session ends. A
    /// session that has ended stays as it is.
    pub fn update(&mut self) -> (r: bool)
        requires
            old(self).wf(),
        ensures
            final(self).wf(),
            final(self)@ == old(self)@.tick(final(self)@.board.food),
            old(self)@.relocates() ==> {
                let food = final(self)@.board.food;
                &&& old(self)@.board.grid.contains_spec(food)
                &&& !final(self)@.board.snek.occupies(food)
                &&& old(self)@.board.grid.free_cells(old(self)@.moved().body).contains(food)
            },
            r == final(self)@.playing,
    {
        if !self.playing {
            return false;
        }
        let grow = self.board.snek.just_ate();
        let grid = self.board.grid;
        let result = self.board.snek.update(grow, grid.cols, grid.rows);
        match result {
            StepResult::Alive => {},
            _ => {
                self.playing = false;
                return false;
            },
        }
        proof {
            lemma_step_keeps_wf(old(self)@.board.snek, grow, grid.cols, grid.rows);
        }
        if self.board.food.update(&self.board.snek) {
            proof {
                self.board.snek.lemma_body_fits();
            }
            self.score += 1;
            self.board.snek.set_just_ate(true);
            match Food::relocate(&grid, &self.board.snek) {
                Some(food) => {
                    self.board.food = food;
                    true
                },
                None => {
                    self.playing = false;
                    false
                },
            }
        } else {
            self.board.snek.set_just_ate(false);
            proof {
                lemma_tick_keeps_wf(old(self)@, self.board.food.block);
            }
            true
        }
    }

    /// Takes a request to turn the snake, as from a key press: the snake
    /// faces `d` from now on, unless that would reverse it.
    pub fn pressed(&mut self, d: Direction)
        ensures
            final(self)@ == (GameView {
                board: BoardView {
                    grid: old(self)@.board.grid,
                    food: old(self)@.board.food,
                    snek: old(self)@.board.snek.turned(d),
                },
                score: old(self)@.score,
                playing: old(self)@.playing,
            }),
            old(self).wf() ==> final(self).wf(),
    {
        self.board.snek.set_direction(d);
    }
}

} // verus!
