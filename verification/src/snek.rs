//! The snake: an ordered run of cells, head first, that moves one cell per step.

use vstd::prelude::*;
use crate::block::{Block, Direction, Square, occurs_within};

verus! {

/// How one step of the snake ended.
#[derive(Clone, Copy, Debug, PartialEq, Eq, Structural)]
pub enum StepResult {
    /// The snake moved.
    Alive,
    /// The head would have left the grid. The snake did not move.
    HitWall,
    /// The head would have entered a cell of the body. The snake did not move.
    HitSelf,
}

/// The snake.
#[derive(Debug)]
pub struct Snek {
    body: Vec<Block>,
    just_ate: bool,
    dir: Direction,
}

/// What a snake is, as plain values.
pub struct SnekView {
    /// The occupied cells, head first.
    pub body: Seq<Block>,
    /// The direction the snake faces.
    pub dir: Direction,
    /// Whether the snake ate on its latest step, so that the next step grows it.
    pub just_ate: bool,
}

impl SnekView {
    /// A snake has a head, and no cell holds two parts of it.
    pub open spec fn wf(self) -> bool {
        self.body.len() >= 1 && self.body.no_duplicates()
    }

    /// The first cell of the body.
    pub open spec fn head(self) -> Block {
        self.body[0]
    }

    /// Whether a part of the snake lies on `cell`.
    pub open spec fn occupies(self, cell: Block) -> bool {
        self.body.contains(cell)
    }

    /// The snake after a request to face `d`: a request to reverse is ignored.
    pub open spec fn turned(self, d: Direction) -> SnekView {
        SnekView {
            body: self.body,
            dir: if d == self.dir.opposite() { self.dir } else { d },
            just_ate: self.just_ate,
        }
    }

    /// Column of the cell in front of the head. It may lie outside every grid.
    pub open spec fn next_x(self) -> int {
        self.head().0 + self.dir.dx()
    }

    /// Row of the cell in front of the head. It may lie outside every grid.
    pub open spec fn next_y(self) -> int {
        self.head().1 + self.dir.dy()
    }

    /// The cells that stay occupied while the head advances: the whole body
    /// when the snake grows, else the body without its tail.
    pub open spec fn trail(self, grow: bool) -> Seq<Block> {
        if grow {
            self.body
        } else {
            self.body.drop_last()
        }
    }

    /// How a step on a grid of `cols` columns and `rows` rows ends. The tail
    /// leaves its cell before the head arrives, so a snake that does not grow
    /// may follow its own tail.
    pub open spec fn step_result(self, grow: bool, cols: u32, rows: u32) -> StepResult {
        if !(0 <= self.next_x() < cols && 0 <= self.next_y() < rows) {
            StepResult::HitWall
        } else if self.trail(grow).contains(Block(self.next_x() as u32, self.next_y() as u32)) {
            StepResult::HitSelf
        } else {
            StepResult::Alive
        }
    }

    /// The snake after a step: moved by one cell if the step ends `Alive`,
    /// untouched otherwise.
    pub open spec fn stepped(self, grow: bool, cols: u32, rows: u32) -> SnekView {
        if self.step_result(grow, cols, rows) == StepResult::Alive {
            SnekView {
                body: seq![Block(self.next_x() as u32, self.next_y() as u32)] + self.trail(grow),
                dir: self.dir,
                just_ate: self.just_ate,
            }
        } else {
            self
        }
    }
}

/// A request to turn is refused, so that the snake does not face `d`
/// afterwards, exactly when `d` is the reverse of the direction it faces. A
/// request never changes anything but the direction.
pub proof fn lemma_reversal_refused(s: SnekView, d: Direction)
    ensures
        s.turned(d).dir != d <==> d == s.dir.opposite(),
        s.turned(d).dir == d || s.turned(d) == s,
        s.turned(d).body == s.body,
        s.turned(d).just_ate == s.just_ate,
{
}

/// A step that ends `Alive` keeps the length of a snake that does not grow
/// and adds one cell to a snake that grows. Any other step leaves the snake
/// as it was.
pub proof fn lemma_step_length(s: SnekView, grow: bool, cols: u32, rows: u32)
    requires
        s.body.len() >= 1,
    ensures
        s.step_result(grow, cols, rows) == StepResult::Alive ==> s.stepped(
            grow,
            cols,
            rows,
        ).body.len() == s.body.len() + if grow {
            1nat
        } else {
            0nat
        },
        s.step_result(grow, cols, rows) != StepResult::Alive ==> s.stepped(grow, cols, rows) == s,
        !grow ==> s.stepped(grow, cols, rows).body.len() == s.body.len(),
{
}

/// A step that ends `Alive` puts the head on the cell in front of it and
/// leaves the rest of the snake in place, one position further back.
pub proof fn lemma_step_moves_head(s: SnekView, grow: bool, cols: u32, rows: u32)
    requires
        s.body.len() >= 1,
        s.step_result(grow, cols, rows) == StepResult::Alive,
    ensures
        s.stepped(grow, cols, rows).head() == Block(s.next_x() as u32, s.next_y() as u32),
        forall|i: int|
            1 <= i < s.stepped(grow, cols, rows).body.len() ==> s.stepped(grow, cols, rows).body[i]
                == s.body[i - 1],
{
}

/// A snake of one cell never hits itself.
pub proof fn lemma_single_cell_never_hits_self(s: SnekView, grow: bool, cols: u32, rows: u32)
    requires
        s.body.len() == 1,
    ensures
        s.step_result(grow, cols, rows) != StepResult::HitSelf,
{
    let target = Block(s.next_x() as u32, s.next_y() as u32);
    if 0 <= s.next_x() < cols && 0 <= s.next_y() < rows {
        assert(target != s.body[0]);
        if s.trail(grow).contains(target) {
            let i = choose|i: int| 0 <= i < s.trail(grow).len() && s.trail(grow)[i] == target;
            assert(s.trail(grow)[i] == s.body[0]);
        }
    }
}

/// A snake that does not grow may step onto the cell of its own tail: the
/// tail has left by the time the head arrives.
pub proof fn lemma_may_follow_tail(s: SnekView, cols: u32, rows: u32)
    requires
        s.wf(),
        0 <= s.next_x() < cols,
        0 <= s.next_y() < rows,
        s.body.last() == Block(s.next_x() as u32, s.next_y() as u32),
    ensures
        s.step_result(false, cols, rows) == StepResult::Alive,
{
    let trail = s.trail(false);
    if trail.contains(s.body.last()) {
        let i = choose|i: int| 0 <= i < trail.len() && trail[i] == s.body.last();
        assert(s.body[i] == s.body[s.body.len() - 1]);
    }
}

/// A step keeps a snake a snake: it still has a head, and still no cell holds
/// two parts of it. If the snake lay on the grid, it still does.
pub proof fn lemma_step_keeps_wf(s: SnekView, grow: bool, cols: u32, rows: u32)
    requires
        s.wf(),
    ensures
        s.stepped(grow, cols, rows).wf(),
        (forall|i: int| 0 <= i < s.body.len() ==> (#[trigger] s.body[i]).0 < cols && s.body[i].1
            < rows) ==> (forall|i: int|
            0 <= i < s.stepped(grow, cols, rows).body.len() ==> (#[trigger] s.stepped(
                grow,
                cols,
                rows,
            ).body[i]).0 < cols && s.stepped(grow, cols, rows).body[i].1 < rows),
{
    if s.step_result(grow, cols, rows) == StepResult::Alive {
        let target = Block(s.next_x() as u32, s.next_y() as u32);
        let trail = s.trail(grow);
        let body = s.stepped(grow, cols, rows).body;
        assert(body =~= seq![target] + trail);
        assert forall|i: int, j: int|
            0 <= i < body.len() && 0 <= j < body.len() && i != j implies body[i] != body[j] by {
            if i > 0 {
                assert(body[i] == trail[i - 1]);
            }
            if j > 0 {
                assert(body[j] == trail[j - 1]);
            }
        }
        assert forall|i: int| 1 <= i < body.len() implies body[i] == s.body[i - 1] by {
            assert(body[i] == trail[i - 1]);
        }
    }
}

impl View for Snek {
    type V = SnekView;

    closed spec fn view(&self) -> SnekView {
        SnekView { body: self.body@, dir: self.dir, just_ate: self.just_ate }
    }
}

impl Snek {
    /// A snake has a head, and no cell holds two parts of it.
    pub open spec fn wf(&self) -> bool {
        self@.wf()
    }

    /// A snake that lies on the cells of `body`, head first, faces `dir` and
    /// has not eaten, or `None` if `body` is empty or names a cell twice.
    pub fn new(body: Vec<Block>, dir: Direction) -> (r: Option<Snek>)
        ensures
            r.is_some() <==> body@.len() >= 1 && body@.no_duplicates(),
            r matches Some(snek) ==> snek@ == (SnekView { body: body@, dir, just_ate: false }),
    {
        if body.len() == 0 {
            return None;
        }
        let mut i: usize = 1;
        while i < body.len()
            invariant
                1 <= i <= body@.len(),
                body@.take(i as int).no_duplicates(),
            decreases body@.len() - i,
        {
            if occurs_within(&body, i, body[i].0, body[i].1) {
                proof {
                    let first = body@.take(i as int);
                    let j = choose|j: int| 0 <= j < first.len() && first[j] == body@[i as int];
                    assert(body@[j] == body@[i as int]);
                }
                return None;
            }
            proof {
                let first = body@.take(i as int);
                let next = body@.take(i + 1);
                assert forall|a: int, b: int|
                    0 <= a < next.len() && 0 <= b < next.len() && a != b implies next[a]
                    != next[b] by {
                    if a < i && b < i {
                        assert(first[a] != first[b]);
                    } else if a < i {
                        assert(first[a] == body@[a]);
                    } else {
                        assert(first[b] == body@[b]);
                    }
                }
            }
            i += 1;
        }
        assert(body@.take(body@.len() as int) =~= body@);
        Some(Snek { body, just_ate: false, dir })
    }

    /// Lays the snake out for drawing: the square of each cell of the body,
    /// head first, where every cell is `block_size` pixels wide and high.
    pub fn init(&self, block_size: u32) -> (squares: Vec<Square>)
        ensures
            squares@.len() == self@.body.len(),
            forall|i: int|
                0 <= i < squares@.len() ==> squares@[i] == (#[trigger] self@.body[i]).square_spec(
                    block_size,
                ),
    {
        let mut squares: Vec<Square> = Vec::new();
        let mut i: usize = 0;
        while i < self.body.len()
            invariant
                i <= self.body@.len(),
                squares@.len() == i,
                forall|j: int|
                    0 <= j < i ==> squares@[j] == (#[trigger] self.body@[j]).square_spec(
                        block_size,
                    ),
            decreases self.body@.len() - i,
        {
            squares.push(self.body[i].square(block_size));
            i += 1;
        }
        squares
    }

    /// The body of a snake in memory has a length that fits a `usize`.
    pub proof fn lemma_body_fits(&self)
        ensures
            self@.body.len() <= usize::MAX,
    {
        assert(self.body.len() == self.body@.len());
    }

    /// The first cell of the body.
    pub fn head(&self) -> (r: Block)
        requires
            self.wf(),
        ensures
            r == self@.head(),
    {
        self.body[0]
    }

    /// The occupied cells, head first.
    pub fn body(&self) -> (r: &Vec<Block>)
        ensures
            r@ == self@.body,
    {
        &self.body
    }

    /// The direction the snake faces.
    pub fn dir(&self) -> (r: Direction)
        ensures
            r == self@.dir,
    {
        self.dir
    }

    /// Whether the snake ate on its latest step.
    pub fn just_ate(&self) -> (r: bool)
        ensures
            r == self@.just_ate,
    {
        self.just_ate
    }

    /// Whether the snake occupies the cell at column `x`, row `y`.
    pub fn collision(&self, x: u32, y: u32) -> (r: bool)
        ensures
            r == self@.occupies(Block(x, y)),
    {
        assert(self.body@.take(self.body@.len() as int) =~= self.body@);
        occurs_within(&self.body, self.body.len(), x, y)
    }

    /// Records whether the snake ate on its latest step.
    pub fn set_just_ate(&mut self, ate: bool)
        ensures
            final(self)@ == (SnekView { body: old(self)@.body, dir: old(self)@.dir, just_ate: ate }),
    {
        self.just_ate = ate;
    }

    /// Turns the snake to face `d`, unless that would reverse it.
    pub fn set_direction(&mut self, d: Direction)
        ensures
            final(self)@ == old(self)@.turned(d),
    {
        if d != self.dir.opposite() {
            self.dir = d;
        }
    }

    /// Moves the snake one cell in the direction it faces, on a grid of `cols`
    /// columns and `rows` rows. With `just_ate` the tail stays and the snake
    /// grows by one cell.
    pub fn update(&mut self, just_ate: bool, cols: u32, rows: u32) -> (r: StepResult)
        requires
            old(self).wf(),
        ensures
            r == old(self)@.step_result(just_ate, cols, rows),
            final(self)@ == old(self)@.stepped(just_ate, cols, rows),
            final(self).wf(),
    {
        let head = self.body[0];
        let x = head.0;
        let y = head.1;
        let blocked = match self.dir {
            Direction::Up => y == 0,
            Direction::Down => y == u32::MAX,
            Direction::Left => x == 0,
            Direction::Right => x == u32::MAX,
        };
        if blocked {
            return StepResult::HitWall;
        }
        let new_head = match self.dir {
            Direction::Up => Block(x, y - 1),
            Direction::Down => Block(x, y + 1),
            Direction::Left => Block(x - 1, y),
            Direction::Right => Block(x + 1, y),
        };
        if new_head.0 >= cols || new_head.1 >= rows {
            return StepResult::HitWall;
        }
        let len = self.body.len();
        let kept = if just_ate { len } else { len - 1 };
        assert(self.body@.take(kept as int) =~= old(self)@.trail(just_ate));
        if occurs_within(&self.body, kept, new_head.0, new_head.1) {
            return StepResult::HitSelf;
        }
        if !just_ate {
            self.body.pop();
        }
        self.body.insert(0, new_head);
        proof {
            assert(self.body@ =~= seq![new_head] + old(self)@.trail(just_ate));
            lemma_step_keeps_wf(old(self)@, just_ate, cols, rows);
        }
        StepResult::Alive
    }
}

} // verus!
