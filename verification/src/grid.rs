//! The grid: its dimensions, and the search for a free cell.

use vstd::prelude::*;
use rand::Rng;
use crate::block::{Block, occurs_within};

verus! {

/// The dimensions of the playing field. A cell lies on the grid when its
/// column is below `cols` and its row is below `rows`.
#[derive(Clone, Copy, Debug, PartialEq, Eq, Structural)]
pub struct Grid {
    pub rows: u32,
    pub cols: u32,
}

/// Reading order: row by row from the top, each row from the left.
pub open spec fn reads_before(a: Block, b: Block) -> bool {
    a.1 < b.1 || (a.1 == b.1 && a.0 < b.0)
}

/// The cells of row `y` in its first `n` columns that `occupied` does not
/// hold, from the left.
pub open spec fn free_in_row(occupied: Seq<Block>, y: u32, n: nat) -> Seq<Block>
    decreases n,
{
    if n == 0 {
        Seq::empty()
    } else {
        let cell = Block((n - 1) as u32, y);
        let before = free_in_row(occupied, y, (n - 1) as nat);
        if occupied.contains(cell) {
            before
        } else {
            before.push(cell)
        }
    }
}

/// The cells of the first `m` rows, each `cols` wide, that `occupied` does
/// not hold, in reading order.
pub open spec fn free_in_rows(occupied: Seq<Block>, cols: u32, m: nat) -> Seq<Block>
    decreases m,
{
    if m == 0 {
        Seq::empty()
    } else {
        free_in_rows(occupied, cols, (m - 1) as nat) + free_in_row(
            occupied,
            (m - 1) as u32,
            cols as nat,
        )
    }
}

/// What `free_in_row` holds: exactly the free cells of the row's first `n`
/// columns, each once, from left to right.
pub proof fn lemma_free_in_row(occupied: Seq<Block>, y: u32, n: nat)
    requires
        n <= 0x1_0000_0000,
    ensures
        free_in_row(occupied, y, n).len() <= n,
        forall|i: int|
            0 <= i < free_in_row(occupied, y, n).len() ==> {
                let c = #[trigger] free_in_row(occupied, y, n)[i];
                c.1 == y && c.0 < n && !occupied.contains(c)
            },
        forall|c: Block|
            c.1 == y && c.0 < n && !occupied.contains(c) ==> #[trigger] free_in_row(
                occupied,
                y,
                n,
            ).contains(c),
        forall|i: int, j: int|
            0 <= i < j < free_in_row(occupied, y, n).len() ==> (#[trigger] free_in_row(
                occupied,
                y,
                n,
            )[i]).0 < (#[trigger] free_in_row(occupied, y, n)[j]).0,
    decreases n,
{
    if n > 0 {
        let before = free_in_row(occupied, y, (n - 1) as nat);
        let row = free_in_row(occupied, y, n);
        let cell = Block((n - 1) as u32, y);
        lemma_free_in_row(occupied, y, (n - 1) as nat);
        assert forall|c: Block|
            c.1 == y && c.0 < n && !occupied.contains(c) implies row.contains(c) by {
            if c.0 < n - 1 {
                assert(before.contains(c));
                let i = choose|i: int| 0 <= i < before.len() && before[i] == c;
                assert(row[i] == c);
            } else {
                assert(c == cell);
                assert(row[before.len() as int] == c);
            }
        }
    }
}

/// A row's free cells among fewer columns begin its free cells among more.
pub proof fn lemma_free_in_row_grows(occupied: Seq<Block>, y: u32, a: nat, b: nat)
    requires
        a <= b,
    ensures
        free_in_row(occupied, y, a).len() <= free_in_row(occupied, y, b).len(),
        forall|i: int|
            0 <= i < free_in_row(occupied, y, a).len() ==> free_in_row(occupied, y, b)[i]
                == free_in_row(occupied, y, a)[i],
    decreases b,
{
    if a < b {
        lemma_free_in_row_grows(occupied, y, a, (b - 1) as nat);
    }
}

/// What `free_in_rows` holds: exactly the free cells of the first `m` rows,
/// each once, in reading order.
pub proof fn lemma_free_in_rows(occupied: Seq<Block>, cols: u32, m: nat)
    requires
        m <= 0x1_0000_0000,
    ensures
        free_in_rows(occupied, cols, m).len() <= m * cols,
        forall|i: int|
            0 <= i < free_in_rows(occupied, cols, m).len() ==> {
                let c = #[trigger] free_in_rows(occupied, cols, m)[i];
                c.1 < m && c.0 < cols && !occupied.contains(c)
            },
        forall|c: Block|
            c.1 < m && c.0 < cols && !occupied.contains(c) ==> #[trigger] free_in_rows(
                occupied,
                cols,
                m,
            ).contains(c),
        forall|i: int, j: int|
            0 <= i < j < free_in_rows(occupied, cols, m).len() ==> reads_before(
                #[trigger] free_in_rows(occupied, cols, m)[i],
                #[trigger] free_in_rows(occupied, cols, m)[j],
            ),
    decreases m,
{
    if m > 0 {
        let above = free_in_rows(occupied, cols, (m - 1) as nat);
        let row = free_in_row(occupied, (m - 1) as u32, cols as nat);
        let all = free_in_rows(occupied, cols, m);
        lemma_free_in_rows(occupied, cols, (m - 1) as nat);
        lemma_free_in_row(occupied, (m - 1) as u32, cols as nat);
        assert(all =~= above + row);
        assert((m - 1) * cols + cols == m * cols) by (nonlinear_arith);
        assert forall|i: int| 0 <= i < all.len() implies {
            let c = #[trigger] all[i];
            c.1 < m && c.0 < cols && !occupied.contains(c)
        } by {
            if i >= above.len() {
                assert(all[i] == row[i - above.len()]);
            }
        }
        assert forall|c: Block|
            c.1 < m && c.0 < cols && !occupied.contains(c) implies all.contains(c) by {
            if c.1 < m - 1 {
                assert(above.contains(c));
                let i = choose|i: int| 0 <= i < above.len() && above[i] == c;
                assert(all[i] == c);
            } else {
                assert(row.contains(c));
                let i = choose|i: int| 0 <= i < row.len() && row[i] == c;
                assert(all[above.len() + i] == c);
            }
        }
        assert forall|i: int, j: int| 0 <= i < j < all.len() implies reads_before(
            #[trigger] all[i],
            #[trigger] all[j],
        ) by {
            if i >= above.len() {
                assert(all[i] == row[i - above.len()]);
                assert(all[j] == row[j - above.len()]);
            } else if j >= above.len() {
                assert(all[i] == above[i]);
                assert(all[j] == row[j - above.len()]);
            }
        }
    }
}

/// The free cells of fewer rows begin the free cells of more.
pub proof fn lemma_free_in_rows_grows(occupied: Seq<Block>, cols: u32, a: nat, b: nat)
    requires
        a <= b,
    ensures
        free_in_rows(occupied, cols, a).len() <= free_in_rows(occupied, cols, b).len(),
        forall|i: int|
            0 <= i < free_in_rows(occupied, cols, a).len() ==> free_in_rows(occupied, cols, b)[i]
                == free_in_rows(occupied, cols, a)[i],
    decreases b,
{
    if a < b {
        lemma_free_in_rows_grows(occupied, cols, a, (b - 1) as nat);
    }
}

/// With nothing occupied, every cell of a row is free.
pub proof fn lemma_free_row_of_nothing(y: u32, n: nat)
    requires
        n <= 0x1_0000_0000,
    ensures
        free_in_row(Seq::empty(), y, n).len() == n,
    decreases n,
{
    if n > 0 {
        lemma_free_row_of_nothing(y, (n - 1) as nat);
        assert(!Seq::<Block>::empty().contains(Block((n - 1) as u32, y)));
    }
}

/// With nothing occupied, every cell of the rows is free.
pub proof fn lemma_free_rows_of_nothing(cols: u32, m: nat)
    requires
        m <= 0x1_0000_0000,
    ensures
        free_in_rows(Seq::empty(), cols, m).len() == m * cols,
    decreases m,
{
    if m > 0 {
        let above = (m - 1) as nat;
        lemma_free_rows_of_nothing(cols, above);
        lemma_free_row_of_nothing(above as u32, cols as nat);
        assert(above * cols + cols == m * cols) by (nonlinear_arith)
            requires
                above + 1 == m,
        ;
    } else {
        assert(m * cols == 0) by (nonlinear_arith)
            requires
                m == 0,
        ;
    }
}

/// One more occupied cell takes that cell, and no other, from the free cells
/// of a row.
pub proof fn lemma_free_in_row_push(occupied: Seq<Block>, cell: Block, y: u32, n: nat)
    requires
        n <= 0x1_0000_0000,
    ensures
        free_in_row(occupied, y, n).len() == free_in_row(occupied.push(cell), y, n).len() + if cell.1
            == y && cell.0 < n && !occupied.contains(cell) {
            1nat
        } else {
            0nat
        },
    decreases n,
{
    if n > 0 {
        let c = Block((n - 1) as u32, y);
        let more = occupied.push(cell);
        lemma_free_in_row_push(occupied, cell, y, (n - 1) as nat);
        assert(more[occupied.len() as int] == cell);
        if occupied.contains(c) {
            let i = choose|i: int| 0 <= i < occupied.len() && occupied[i] == c;
            assert(more[i] == c);
        }
        if more.contains(c) && c != cell {
            let i = choose|i: int| 0 <= i < more.len() && more[i] == c;
            assert(occupied[i] == c);
        }
    }
}

/// One more occupied cell takes that cell, and no other, from the free cells
/// of the rows.
pub proof fn lemma_free_in_rows_push(occupied: Seq<Block>, cell: Block, cols: u32, m: nat)
    requires
        m <= 0x1_0000_0000,
    ensures
        free_in_rows(occupied, cols, m).len() == free_in_rows(occupied.push(cell), cols, m).len()
            + if cell.1 < m && cell.0 < cols && !occupied.contains(cell) {
            1nat
        } else {
            0nat
        },
    decreases m,
{
    if m > 0 {
        lemma_free_in_rows_push(occupied, cell, cols, (m - 1) as nat);
        lemma_free_in_row_push(occupied, cell, (m - 1) as u32, cols as nat);
    }
}

/// Where the occupied cells lie on the grid and none is named twice, the
/// free cells and the occupied cells together are as many as the grid has
/// cells. So there are never more occupied cells than cells, and the grid is
/// full exactly when there are as many.
pub proof fn lemma_free_count(grid: Grid, occupied: Seq<Block>)
    requires
        occupied.no_duplicates(),
        forall|i: int| 0 <= i < occupied.len() ==> grid.contains_spec(#[trigger] occupied[i]),
    ensures
        grid.free_cells(occupied).len() + occupied.len() == grid.rows * grid.cols,
        occupied.len() <= grid.rows * grid.cols,
        grid.is_full(occupied) <==> occupied.len() == grid.rows * grid.cols,
    decreases occupied.len(),
{
    if occupied.len() == 0 {
        assert(occupied =~= Seq::empty());
        lemma_free_rows_of_nothing(grid.cols, grid.rows as nat);
    } else {
        let rest = occupied.drop_last();
        let cell = occupied.last();
        assert(occupied =~= rest.push(cell));
        assert(grid.contains_spec(occupied[occupied.len() - 1]));
        if rest.contains(cell) {
            let i = choose|i: int| 0 <= i < rest.len() && rest[i] == cell;
            assert(occupied[i] == occupied[occupied.len() - 1]);
        }
        assert forall|i: int| 0 <= i < rest.len() implies grid.contains_spec(
            #[trigger] rest[i],
        ) by {
            assert(rest[i] == occupied[i]);
        }
        lemma_free_count(grid, rest);
        lemma_free_in_rows_push(rest, cell, grid.cols, grid.rows as nat);
    }
    lemma_free_cells(grid, occupied);
}

/// The free cells of a grid are exactly the cells of the grid that `occupied`
/// does not hold, each named once, in reading order. None is free exactly
/// when `occupied` holds every cell of the grid.
pub proof fn lemma_free_cells(grid: Grid, occupied: Seq<Block>)
    ensures
        forall|cell: Block| #[trigger]
            grid.free_cells(occupied).contains(cell) <==> grid.contains_spec(cell)
                && !occupied.contains(cell),
        forall|i: int, j: int|
            0 <= i < j < grid.free_cells(occupied).len() ==> reads_before(
                #[trigger] grid.free_cells(occupied)[i],
                #[trigger] grid.free_cells(occupied)[j],
            ),
        grid.free_cells(occupied).no_duplicates(),
        grid.free_cells(occupied).len() <= grid.rows * grid.cols,
        grid.free_cells(occupied).len() == 0 <==> grid.is_full(occupied),
{
    let free = grid.free_cells(occupied);
    lemma_free_in_rows(occupied, grid.cols, grid.rows as nat);
    assert forall|cell: Block| #[trigger] free.contains(cell) implies grid.contains_spec(cell)
        && !occupied.contains(cell) by {
        let i = choose|i: int| 0 <= i < free.len() && free[i] == cell;
        assert(free[i] == cell);
    }
    assert forall|i: int, j: int| 0 <= i < free.len() && 0 <= j < free.len() && i != j implies free[i]
        != free[j] by {
        if i < j {
            assert(reads_before(free[i], free[j]));
        } else {
            assert(reads_before(free[j], free[i]));
        }
    }
    if free.len() == 0 {
        assert forall|cell: Block| grid.contains_spec(cell) implies occupied.contains(cell) by {
            if !occupied.contains(cell) {
                assert(free.contains(cell));
            }
        }
    } else {
        assert(free.contains(free[0]));
    }
}

/// Draws a number below `bound` from the thread's random number generator:
/// `rand::thread_rng()` and, on it, `Rng::gen_range` with the bounds 0 and
/// `bound`. That call hands out a value from its lower bound up to, but not
/// including, its upper bound, and panics when the range is empty. Which
/// value comes out is left to chance, so the contract says no more than the
/// range. The generator seeds itself from the operating system when a thread
/// first uses it, and panics if the system has no randomness to give.
#[verifier::external_body]
fn random_below(bound: u64) -> (k: u64)
    requires
        bound > 0,
    ensures
        k < bound,
{
    rand::thread_rng().gen_range(0, bound)
}

impl Grid {
    /// Whether `cell` lies on the grid.
    pub open spec fn contains_spec(self, cell: Block) -> bool {
        cell.0 < self.cols && cell.1 < self.rows
    }

    /// The cells of the grid that `occupied` does not hold, in reading order.
    pub open spec fn free_cells(self, occupied: Seq<Block>) -> Seq<Block> {
        free_in_rows(occupied, self.cols, self.rows as nat)
    }

    /// Whether `occupied` holds every cell of the grid.
    pub open spec fn is_full(self, occupied: Seq<Block>) -> bool {
        forall|cell: Block| self.contains_spec(cell) ==> occupied.contains(cell)
    }

    /// Whether `cell` lies on the grid.
    #[verifier::when_used_as_spec(contains_spec)]
    pub fn contains(self, cell: Block) -> (r: bool)
        ensures
            r == self.contains_spec(cell),
    {
        cell.0 < self.cols && cell.1 < self.rows
    }

    /// The number of cells of the grid that `occupied` does not hold.
    pub fn count_free(&self, occupied: &Vec<Block>) -> (n: u64)
        ensures
            n == self.free_cells(occupied@).len(),
    {
        let mut n: u64 = 0;
        let mut y: u32 = 0;
        while y < self.rows
            invariant
                y <= self.rows,
                n == free_in_rows(occupied@, self.cols, y as nat).len(),
            decreases self.rows - y,
        {
            let mut x: u32 = 0;
            while x < self.cols
                invariant
                    x <= self.cols,
                    y < self.rows,
                    n == free_in_rows(occupied@, self.cols, y as nat).len() + free_in_row(
                        occupied@,
                        y,
                        x as nat,
                    ).len(),
                decreases self.cols - x,
            {
                assert(occupied@.take(occupied@.len() as int) =~= occupied@);
                if !occurs_within(occupied, occupied.len(), x, y) {
                    proof {
                        lemma_free_in_rows(occupied@, self.cols, y as nat);
                        lemma_free_in_row(occupied@, y, x as nat);
                        assert(y * self.cols <= 0xffff_ffff * 0xffff_ffff) by (nonlinear_arith)
                            requires
                                0 <= y <= 0xffff_ffff,
                                0 <= self.cols <= 0xffff_ffff,
                        ;
                    }
                    n += 1;
                }
                x += 1;
            }
            y += 1;
        }
        n
    }

    /// The free cell number `k` in reading order, counting from 0, or `None`
    /// when fewer than `k + 1` cells are free.
    pub fn free_cell(&self, occupied: &Vec<Block>, k: u64) -> (r: Option<Block>)
        ensures
            r == if k < self.free_cells(occupied@).len() {
                Some(self.free_cells(occupied@)[k as int])
            } else {
                None
            },
    {
        let mut seen: u64 = 0;
        let mut y: u32 = 0;
        while y < self.rows
            invariant
                y <= self.rows,
                seen <= k,
                seen == free_in_rows(occupied@, self.cols, y as nat).len(),
            decreases self.rows - y,
        {
            let mut x: u32 = 0;
            while x < self.cols
                invariant
                    x <= self.cols,
                    y < self.rows,
                    seen <= k,
                    seen == free_in_rows(occupied@, self.cols, y as nat).len() + free_in_row(
                        occupied@,
                        y,
                        x as nat,
                    ).len(),
                decreases self.cols - x,
            {
                assert(occupied@.take(occupied@.len() as int) =~= occupied@);
                if !occurs_within(occupied, occupied.len(), x, y) {
                    if seen == k {
                        proof {
                            let above = free_in_rows(occupied@, self.cols, y as nat);
                            let row = free_in_row(occupied@, y, self.cols as nat);
                            let i = free_in_row(occupied@, y, x as nat).len() as int;
                            assert(free_in_row(occupied@, y, (x + 1) as nat)[i] == Block(x, y));
                            lemma_free_in_row_grows(
                                occupied@,
                                y,
                                (x + 1) as nat,
                                self.cols as nat,
                            );
                            assert(row[i] == Block(x, y));
                            assert(free_in_rows(occupied@, self.cols, (y + 1) as nat) =~= above
                                + row);
                            assert((above + row)[above.len() + i] == row[i]);
                            lemma_free_in_rows_grows(
                                occupied@,
                                self.cols,
                                (y + 1) as nat,
                                self.rows as nat,
                            );
                        }
                        return Some(Block(x, y));
                    }
                    seen += 1;
                }
                x += 1;
            }
            y += 1;
        }
        None
    }

    /// A free cell of the grid chosen at random, each with the same chance, or
    /// `None` when `occupied` holds every cell.
    pub fn random_free_cell(&self, occupied: &Vec<Block>) -> (r: Option<Block>)
        ensures
            r.is_none() <==> self.is_full(occupied@),
            r matches Some(cell) ==> self.contains_spec(cell) && !occupied@.contains(cell)
                && self.free_cells(occupied@).contains(cell),
    {
        proof {
            lemma_free_cells(*self, occupied@);
        }
        let n = self.count_free(occupied);
        if n == 0 {
            return None;
        }
        let k = random_below(n);
        assert(self.free_cells(occupied@).contains(self.free_cells(occupied@)[k as int]));
        self.free_cell(occupied, k)
    }
}

} // verus!
