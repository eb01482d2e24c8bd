//! Cells of the grid and the four directions a snake can face.

use vstd::prelude::*;

verus! {

/// One cell of the grid: its column, then its row. Column 0 is the left edge
/// and row 0 the top edge.
#[derive(Clone, Copy, Debug, PartialEq, Eq, Structural)]
pub struct Block(pub u32, pub u32);

/// A square on the screen: the pixel at its top left corner, and the length
/// of its side in pixels.
#[derive(Clone, Copy, Debug, PartialEq, Eq, Structural)]
pub struct Square {
    pub x: u64,
    pub y: u64,
    pub size: u64,
}

impl Block {
    /// The square that shows this cell where every cell is `block_size`
    /// pixels wide and high.
    pub open spec fn square_spec(self, block_size: u32) -> Square {
        Square {
            x: (self.0 * block_size) as u64,
            y: (self.1 * block_size) as u64,
            size: block_size as u64,
        }
    }

    /// The square that shows this cell where every cell is `block_size`
    /// pixels wide and high.
    #[verifier::when_used_as_spec(square_spec)]
    pub fn square(self, block_size: u32) -> (r: Square)
        ensures
            r == self.square_spec(block_size),
            r.x == self.0 * block_size,
            r.y == self.1 * block_size,
    {
        assert(self.0 * block_size <= 0xffff_ffff * 0xffff_ffff) by (nonlinear_arith)
            requires
                0 <= self.0 <= 0xffff_ffff,
                0 <= block_size <= 0xffff_ffff,
        ;
        assert(self.1 * block_size <= 0xffff_ffff * 0xffff_ffff) by (nonlinear_arith)
            requires
                0 <= self.1 <= 0xffff_ffff,
                0 <= block_size <= 0xffff_ffff,
        ;
        let size: u64 = block_size as u64;
        let col: u64 = self.0 as u64;
        let row: u64 = self.1 as u64;
        Square { x: col * size, y: row * size, size }
    }
}

/// The direction a snake faces.
#[derive(Clone, Copy, Debug, PartialEq, Eq, Structural)]
pub enum Direction {
    Up,
    Down,
    Left,
    Right,
}

impl Direction {
    /// The direction that points the other way.
    pub open spec fn opposite_spec(self) -> Direction {
        match self {
            Direction::Up => Direction::Down,
            Direction::Down => Direction::Up,
            Direction::Left => Direction::Right,
            Direction::Right => Direction::Left,
        }
    }

    /// The direction that points the other way.
    #[verifier::when_used_as_spec(opposite_spec)]
    pub fn opposite(self) -> (r: Direction)
        ensures
            r == self.opposite_spec(),
    {
        match self {
            Direction::Up => Direction::Down,
            Direction::Down => Direction::Up,
            Direction::Left => Direction::Right,
            Direction::Right => Direction::Left,
        }
    }

    /// Column change of one move in this direction.
    pub open spec fn dx(self) -> int {
        match self {
            Direction::Left => -1,
            Direction::Right => 1,
            _ => 0,
        }
    }

    /// Row change of one move in this direction. Rows count downwards.
    pub open spec fn dy(self) -> int {
        match self {
            Direction::Up => -1,
            Direction::Down => 1,
            _ => 0,
        }
    }
}

/// Whether one of the first `n` cells of `cells` lies at column `x`, row `y`.
pub(crate) fn occurs_within(cells: &Vec<Block>, n: usize, x: u32, y: u32) -> (r: bool)
    requires
        n <= cells@.len(),
    ensures
        r == cells@.take(n as int).contains(Block(x, y)),
{
    let mut i: usize = 0;
    while i < n
        invariant
            i <= n <= cells@.len(),
            forall|j: int| 0 <= j < i ==> cells@[j] != Block(x, y),
        decreases n - i,
    {
        if cells[i].0 == x && cells[i].1 == y {
            assert(cells@.take(n as int)[i as int] == Block(x, y));
            return true;
        }
        i += 1;
    }
    false
}

} // verus!
