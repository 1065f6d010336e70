use vstd::prelude::*;

use crate::grid_math::GridMath;
use crate::grid_math::lemma_index_in_range;

verus! {

/// Whether a generation is being computed.
#[allow(non_camel_case_types)]
#[derive(PartialEq, Eq, Structural, Debug, Clone, Copy)]
pub enum GameState {
    IDLE,
    RUNNING,
}

/// A grid of cells together with its dimensions and run state.
pub struct Game {
    pub grid: Vec<u32>,
    pub grid_math: GridMath,
    pub rows: usize,
    pub cols: usize,
    pub state: GameState,
}

/// The offsets probed around each cell when a generation is computed, in
/// probing order. The up-left offset occurs twice and the down-right one not
/// at all: this is the rule the engine applies.
pub open spec fn directions() -> Seq<(int, int)> {
    seq![(0, 1), (-1, 1), (-1, -1), (1, -1), (-1, -1), (1, 0), (0, -1), (-1, 0)]
}

/// What the cell `offset` away from (`row`, `col`) adds to the neighbour sum:
/// its value when it lies inside the grid, nothing otherwise.
pub open spec fn contribution(
    gm: GridMath,
    grid: Seq<u32>,
    row: int,
    col: int,
    offset: (int, int),
) -> int {
    match gm.relative_lookup(grid, row, col, offset.0, offset.1) {
        Ok(v) => v as int,
        Err(_) => 0,
    }
}

/// Sum of the contributions of the first `k` offsets of `directions()`.
pub open spec fn partial_sum(gm: GridMath, grid: Seq<u32>, row: int, col: int, k: int) -> int
    decreases k,
{
    if k <= 0 {
        0
    } else {
        partial_sum(gm, grid, row, col, k - 1) + contribution(gm, grid, row, col, directions()[k - 1])
    }
}

/// Sum over all offsets of `directions()` around (`row`, `col`).
pub open spec fn neighbor_sum(gm: GridMath, grid: Seq<u32>, row: int, col: int) -> int {
    partial_sum(gm, grid, row, col, directions().len() as int)
}

/// Next value of the cell at flat position `i`: 1 when its neighbour sum is
/// at least 2, else 0, whatever the cell holds now.
pub open spec fn next_cell(gm: GridMath, grid: Seq<u32>, i: int) -> u32 {
    if neighbor_sum(gm, grid, i / gm.cols as int, i % gm.cols as int) >= 2 {
        1
    } else {
        0
    }
}

/// The generation that follows `grid`, computed from `grid` alone.
pub open spec fn next_generation(gm: GridMath, grid: Seq<u32>) -> Seq<u32> {
    Seq::new(grid.len(), |i: int| next_cell(gm, grid, i))
}

/// The `k`-th offset of `directions()`.
fn neighbour_offset(k: usize) -> (r: (i32, i32))
    requires
        k < 8,
    ensures
        (r.0 as int, r.1 as int) == directions()[k as int],
{
    match k {
        0 => (0, 1),
        1 => (-1, 1),
        2 => (-1, -1),
        3 => (1, -1),
        4 => (-1, -1),
        5 => (1, 0),
        6 => (0, -1),
        _ => (-1, 0),
    }
}

impl Game {
    /// The dimensions agree with the grid helper, the grid has one cell per
    /// position, and every position fits in a signed 32-bit coordinate.
    pub open spec fn wf(&self) -> bool {
        &&& self.grid_math.rows == self.rows
        &&& self.grid_math.cols == self.cols
        &&& self.grid_math.fits(self.grid@)
        &&& self.rows <= i32::MAX
        &&& self.cols <= i32::MAX
    }

    /// A game on a zero-filled `rows` by `cols` grid, idle.
    pub fn new(rows: usize, cols: usize) -> (r: Self)
        requires
            rows >= 1,
            cols >= 1,
            rows <= i32::MAX,
            cols <= i32::MAX,
            rows * cols <= usize::MAX,
        ensures
            r.wf(),
            r.rows == rows,
            r.cols == cols,
            r.grid@ == Seq::new((rows * cols) as nat, |_i: int| 0u32),
            r.state == GameState::IDLE,
    {
        let grid_math = GridMath { rows, cols };
        Game { grid: grid_math.initialize_grid(), grid_math, rows, cols, state: GameState::IDLE }
    }

    /// Computes the generation that follows `grid`.
    fn perform_step(&self, grid: &Vec<u32>) -> (r: Vec<u32>)
        requires
            self.wf(),
            self.grid_math.fits(grid@),
        ensures
            r@ == next_generation(self.grid_math, grid@),
    {
        let ghost gm = self.grid_math;
        let mut new_grid = grid.clone();
        let n = grid.len();
        let mut index: usize = 0;
        while index < n
            invariant
                self.wf(),
                gm == self.grid_math,
                gm.fits(grid@),
                n == grid@.len(),
                0 <= index <= n,
                new_grid@.len() == n,
                forall|j: int| 0 <= j < index ==> #[trigger] new_grid@[j] == next_cell(gm, grid@, j),
            decreases n - index,
        {
            let (row, col) = self.grid_math.get_pos_from_index(index);
            let mut sum: u64 = 0;
            let mut k: usize = 0;
            while k < 8
                invariant
                    gm == self.grid_math,
                    gm.fits(grid@),
                    row < gm.rows <= i32::MAX,
                    col < gm.cols <= i32::MAX,
                    0 <= k <= 8,
                    sum as int == partial_sum(gm, grid@, row as int, col as int, k as int),
                    sum <= k * 0xFFFF_FFFFu64,
                decreases 8 - k,
            {
                let (delta_row, delta_col) = neighbour_offset(k);
                match self.grid_math.get_based_on_relative_position(
                    grid,
                    row as i32,
                    col as i32,
                    delta_row,
                    delta_col,
                ) {
                    Ok(value) => {
                        sum = sum + value as u64;
                    },
                    Err(_) => {},
                }
                k = k + 1;
            }
            if sum >= 2 {
                new_grid.set(index, 1);
            } else {
                new_grid.set(index, 0);
            }
            index = index + 1;
        }
        assert(new_grid@ =~= next_generation(gm, grid@));
        new_grid
    }

    /// Advances the grid by one generation. While a generation is already
    /// being computed this does nothing.
    pub fn step(&mut self)
        requires
            old(self).wf(),
        ensures
            final(self).wf(),
            old(self).state == GameState::RUNNING ==> *final(self) == *old(self),
            old(self).state == GameState::IDLE ==> {
                &&& final(self).grid@ == next_generation(old(self).grid_math, old(self).grid@)
                &&& final(self).state == GameState::IDLE
                &&& final(self).grid_math == old(self).grid_math
                &&& final(self).rows == old(self).rows
                &&& final(self).cols == old(self).cols
            },
    {
        if matches!(self.state, GameState::RUNNING) {
            return;
        }
        self.state = GameState::RUNNING;
        self.grid = self.perform_step(&self.grid);
        self.state = GameState::IDLE;
    }

    /// The current grid, row-major.
    pub fn get_grid(&self) -> (r: &Vec<u32>)
        ensures
            r@ == self.grid@,
    {
        &self.grid
    }

    /// Writes `value` into the cell at (`row`, `col`) when the game is idle;
    /// does nothing while a generation is being computed.
    pub fn add_draw(&mut self, row: usize, col: usize, value: u32)
        requires
            old(self).wf(),
            old(self).state == GameState::IDLE ==> row < old(self).rows && col < old(self).cols,
        ensures
            final(self).wf(),
            old(self).state == GameState::RUNNING ==> *final(self) == *old(self),
            old(self).state == GameState::IDLE ==> {
                &&& final(self).grid@ == old(self).grid@.update(
                    old(self).grid_math.index_of(row as int, col as int),
                    value,
                )
                &&& final(self).state == GameState::IDLE
                &&& final(self).grid_math == old(self).grid_math
                &&& final(self).rows == old(self).rows
                &&& final(self).cols == old(self).cols
            },
    {
        match self.state {
            GameState::IDLE => {
                self.grid_math.put(&mut self.grid, row, col, value);
                proof {
                    lemma_index_in_range(self.rows as int, self.cols as int, row as int, col as int);
                }
            },
            _ => {},
        }
    }

    /// Forces the game back to idle; the grid is left as it is.
    pub fn stop(&mut self)
        ensures
            final(self).state == GameState::IDLE,
            final(self).grid == old(self).grid,
            final(self).grid_math == old(self).grid_math,
            final(self).rows == old(self).rows,
            final(self).cols == old(self).cols,
    {
        self.state = GameState::IDLE;
    }
}

} // verus!
