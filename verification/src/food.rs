//! The food: one cell that the snake is after.

use vstd::prelude::*;
use crate::block::{Block, Square};
use crate::grid::Grid;
use crate::snek::Snek;

verus! {

/// The food and the cell it lies on.
#[derive(Clone, Copy, Debug, PartialEq, Eq, Structural)]
pub struct Food {
    pub block: Block,
}

impl Food {
    /// Lays the food out for drawing: its square on the screen, where every
    /// cell is `block_size` pixels wide and high.
    pub fn init(&self, block_size: u32) -> (r: Square)
        ensures
            r == self.block.square_spec(block_size),
    {
        self.block.square(block_size)
    }

    /// Was the food eaten? It is once the head of the snake lies on it.
    pub fn update(&self, s: &Snek) -> (r: bool)
        requires
            s.wf(),
        ensures
            r == (s@.head() == self.block),
    {
        let front = s.head();
        front.0 == self.block.0 && front.1 == self.block.1
    }

    /// New food on a cell of `grid` that `s` does not occupy, chosen at random,
    /// or `None` when the snake fills the grid.
    pub fn relocate(grid: &Grid, s: &Snek) -> (r: Option<Food>)
        ensures
            r.is_none() <==> grid.is_full(s@.body),
            r matches Some(food) ==> grid.contains_spec(food.block) && !s@.occupies(food.block)
                && grid.free_cells(s@.body).contains(food.block),
    {
        match grid.random_free_cell(s.body()) {
            Some(block) => Some(Food { block }),
            None => None,
        }
    }
}

} // verus!
