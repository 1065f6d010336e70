use vstd::prelude::*;

verus! {

/// Why a relative probe found no cell.
#[derive(PartialEq, Eq, Structural, Debug, Clone, Copy)]
pub enum GridError {
    /// The probed row lies above the first row or below the last one.
    RowOutOfBounds,
    /// The probed row is inside the grid, the probed column is not.
    ColOutOfBounds,
}

impl GridError {
    /// A short human-readable description of the error.
    pub fn message(&self) -> (r: &'static str)
        ensures
            r@ == match self {
                GridError::RowOutOfBounds => "Row out of bounds"@,
                GridError::ColOutOfBounds => "Col out of bounds"@,
            },
    {
        match self {
            GridError::RowOutOfBounds => "Row out of bounds",
            GridError::ColOutOfBounds => "Col out of bounds",
        }
    }
}

/// The value that the last overlay differing from `base` at position `i`
/// holds there, or `base` where no overlay differs.
pub open spec fn merged_cell(base: u32, overlays: Seq<Seq<u32>>, i: int) -> u32
    decreases overlays.len(),
{
    if overlays.len() == 0 {
        base
    } else if overlays.last()[i] != base {
        overlays.last()[i]
    } else {
        merged_cell(base, overlays.drop_last(), i)
    }
}

/// `original` with every position overwritten by the last overlay that
/// disagrees with it there.
pub open spec fn merged(original: Seq<u32>, overlays: Seq<Seq<u32>>) -> Seq<u32> {
    Seq::new(original.len(), |i: int| merged_cell(original[i], overlays, i))
}

/// Every overlay covers at least the positions of `original`.
pub open spec fn overlays_cover(original: Seq<u32>, overlays: Seq<Seq<u32>>) -> bool {
    forall|k: int| 0 <= k < overlays.len() ==> #[trigger] overlays[k].len() >= original.len()
}

/// Dimensions of a row-major grid stored as a flat buffer of cells.
pub struct GridMath {
    pub rows: usize,
    pub cols: usize,
}

impl GridMath {
    /// Flat position of the cell at (`row`, `col`).
    pub open spec fn index_of(self, row: int, col: int) -> int {
        row * self.cols + col
    }

    /// Number of cells a grid of these dimensions holds.
    pub open spec fn size(self) -> int {
        self.rows * self.cols
    }

    /// `grid` is a buffer of exactly the right length for these dimensions.
    pub open spec fn fits(self, grid: Seq<u32>) -> bool {
        grid.len() == self.size()
    }

    /// Value of the cell at (`row`, `col`).
    pub open spec fn cell(self, grid: Seq<u32>, row: int, col: int) -> u32 {
        grid[self.index_of(row, col)]
    }

    /// Result of probing the cell `(delta_row, delta_col)` away from
    /// (`row`, `col`): the row is checked first, then the column.
    pub open spec fn relative_lookup(
        self,
        grid: Seq<u32>,
        row: int,
        col: int,
        delta_row: int,
        delta_col: int,
    ) -> Result<u32, GridError> {
        let r = row + delta_row;
        let c = col + delta_col;
        if !(0 <= r < self.rows) {
            Err(GridError::RowOutOfBounds)
        } else if !(0 <= c < self.cols) {
            Err(GridError::ColOutOfBounds)
        } else {
            Ok(self.cell(grid, r, c))
        }
    }

    /// Row and column of the cell at flat position `index`.
    pub fn get_pos_from_index(&self, index: usize) -> (r: (usize, usize))
        requires
            index < self.size(),
        ensures
            r.0 == index as int / self.cols as int,
            r.1 == index as int % self.cols as int,
            r.0 < self.rows,
            r.1 < self.cols,
            self.index_of(r.0 as int, r.1 as int) == index,
    {
        let ghost rows = self.rows as int;
        let ghost cols = self.cols as int;
        assert(cols > 0) by (nonlinear_arith)
            requires
                0 <= index < rows * cols,
                rows >= 0,
                cols >= 0,
        ;
        let row = index / self.cols;
        let col = index % self.cols;
        proof {
            vstd::arithmetic::div_mod::lemma_fundamental_div_mod(index as int, cols);
            vstd::arithmetic::div_mod::lemma_mod_pos_bound(index as int, cols);
            let q = row as int;
            assert(q < rows) by (nonlinear_arith)
                requires
                    index == cols * q + col,
                    0 <= col < cols,
                    0 <= index < rows * cols,
                    q >= 0,
            ;
        }
        (row, col)
    }

    /// A zero-filled grid of `rows * cols` cells.
    pub fn initialize_grid(&self) -> (r: Vec<u32>)
        requires
            self.rows * self.cols <= usize::MAX,
        ensures
            r@ == Seq::new(self.size() as nat, |_i: int| 0u32),
    {
        let n: usize = self.rows * self.cols;
        let r = vec![0u32; n];
        assert(r@ =~= Seq::new(self.size() as nat, |_i: int| 0u32));
        r
    }

    /// Writes `value` into the cell at (`row`, `col`).
    pub fn put(&self, grid: &mut Vec<u32>, row: usize, col: usize, value: u32)
        requires
            self.fits(old(grid)@),
            row < self.rows,
            col < self.cols,
        ensures
            final(grid)@ == old(grid)@.update(self.index_of(row as int, col as int), value),
    {
        proof {
            lemma_index_in_range(self.rows as int, self.cols as int, row as int, col as int);
            assert(old(grid)@.len() == old(grid).len());
        }
        grid.set(row * self.cols + col, value);
    }

    /// Reads the cell at (`row`, `col`).
    pub fn get(&self, grid: &Vec<u32>, row: usize, col: usize) -> (r: u32)
        requires
            self.fits(grid@),
            row < self.rows,
            col < self.cols,
        ensures
            r == self.cell(grid@, row as int, col as int),
    {
        proof {
            lemma_index_in_range(self.rows as int, self.cols as int, row as int, col as int);
            assert(grid@.len() == grid.len());
        }
        grid[row * self.cols + col]
    }

    /// Reads the cell `(delta_row, delta_col)` away from (`row`, `col`).
    /// Fails with `RowOutOfBounds` when the target row lies outside the grid,
    /// whatever the column, and otherwise with `ColOutOfBounds` when the
    /// target column does.
    pub fn get_based_on_relative_position(
        &self,
        grid: &Vec<u32>,
        row: i32,
        col: i32,
        delta_row: i32,
        delta_col: i32,
    ) -> (r: Result<u32, GridError>)
        requires
            self.fits(grid@),
        ensures
            r == self.relative_lookup(grid@, row as int, col as int, delta_row as int, delta_col as int),
    {
        let new_row_int: i64 = row as i64 + delta_row as i64;
        let new_col_int: i64 = col as i64 + delta_col as i64;
        if new_row_int < 0 {
            return Err(GridError::RowOutOfBounds);
        }
        let new_row: usize = new_row_int as usize;
        if new_row >= self.rows {
            return Err(GridError::RowOutOfBounds);
        }
        if new_col_int < 0 {
            return Err(GridError::ColOutOfBounds);
        }
        let new_col: usize = new_col_int as usize;
        if new_col >= self.cols {
            return Err(GridError::ColOutOfBounds);
        }
        Ok(self.get(grid, new_row, new_col))
    }

    /// Overlays each grid of `grids`, in order, onto `original`: at every
    /// position the last grid whose value differs from `original` wins.
    pub fn merge_grids(&self, original: &Vec<u32>, grids: &Vec<Vec<u32>>) -> (r: Vec<u32>)
        requires
            overlays_cover(original@, grids.deep_view()),
        ensures
            r@ == merged(original@, grids.deep_view()),
    {
        let ghost overlays = grids.deep_view();
        let mut result = original.clone();
        let n = original.len();
        let mut index: usize = 0;
        while index < n
            invariant
                n == original@.len(),
                overlays == grids.deep_view(),
                overlays_cover(original@, overlays),
                0 <= index <= n,
                result@.len() == n,
                forall|j: int| 0 <= j < index ==> #[trigger] result@[j] == merged_cell(original@[j], overlays, j),
            decreases n - index,
        {
            let value = original[index];
            let mut new_value = value;
            let mut k: usize = 0;
            while k < grids.len()
                invariant
                    n == original@.len(),
                    index < n,
                    value == original@[index as int],
                    overlays == grids.deep_view(),
                    overlays_cover(original@, overlays),
                    0 <= k <= grids@.len(),
                    new_value == merged_cell(value, overlays.take(k as int), index as int),
                decreases grids@.len() - k,
            {
                assert(overlays[k as int].len() >= n);
                let cell = grids[k][index];
                assert(overlays.take(k + 1).drop_last() == overlays.take(k as int));
                if value != cell {
                    new_value = cell;
                }
                k = k + 1;
            }
            assert(overlays.take(grids@.len() as int) == overlays);
            result.set(index, new_value);
            index = index + 1;
        }
        assert(result@ =~= merged(original@, overlays));
        result
    }
}

/// Writing `value` into a cell and reading that cell back yields `value`;
/// every other cell of the grid keeps the value it had.
pub proof fn lemma_get_after_put(
    gm: GridMath,
    grid: Seq<u32>,
    row: int,
    col: int,
    value: u32,
    other_row: int,
    other_col: int,
)
    requires
        gm.fits(grid),
        0 <= row < gm.rows,
        0 <= col < gm.cols,
        0 <= other_row < gm.rows,
        0 <= other_col < gm.cols,
    ensures
        gm.cell(grid.update(gm.index_of(row, col), value), row, col) == value,
        (other_row, other_col) != (row, col) ==> gm.cell(
            grid.update(gm.index_of(row, col), value),
            other_row,
            other_col,
        ) == gm.cell(grid, other_row, other_col),
{
    lemma_index_in_range(gm.rows as int, gm.cols as int, row, col);
    lemma_index_in_range(gm.rows as int, gm.cols as int, other_row, other_col);
    if (other_row, other_col) != (row, col) {
        lemma_index_injective(gm.cols as int, row, col, other_row, other_col);
    }
}

/// Merging no overlays at all gives back the original grid.
pub proof fn lemma_merge_without_overlays(original: Seq<u32>)
    ensures
        merged(original, Seq::empty()) == original,
{
    assert(merged(original, Seq::empty()) =~= original);
}

/// Merging a single overlay takes the overlay's value wherever it differs
/// from the original, and the original's value everywhere else.
pub proof fn lemma_merge_single_overlay(original: Seq<u32>, overlay: Seq<u32>)
    ensures
        merged(original, seq![overlay]) == Seq::new(
            original.len(),
            |i: int|
                if overlay[i] != original[i] {
                    overlay[i]
                } else {
                    original[i]
                },
        ),
{
    let overlays = seq![overlay];
    assert forall|i: int| 0 <= i < original.len() implies #[trigger] merged_cell(
        original[i],
        overlays,
        i,
    ) == (if overlay[i] != original[i] {
        overlay[i]
    } else {
        original[i]
    }) by {
        assert(overlays.last() == overlay);
        assert(overlays.drop_last() =~= Seq::<Seq<u32>>::empty());
        assert(merged_cell(original[i], Seq::empty(), i) == original[i]);
    }
    assert(merged(original, overlays) =~= Seq::new(
        original.len(),
        |i: int|
            if overlay[i] != original[i] {
                overlay[i]
            } else {
                original[i]
            },
    ));
}

/// Distinct cells of a grid with `cols` columns have distinct flat positions.
proof fn lemma_index_injective(cols: int, row: int, col: int, other_row: int, other_col: int)
    requires
        0 <= row,
        0 <= other_row,
        0 <= col < cols,
        0 <= other_col < cols,
        (other_row, other_col) != (row, col),
    ensures
        row * cols + col != other_row * cols + other_col,
{
    if row < other_row {
        assert(row * cols + col < other_row * cols + other_col) by (nonlinear_arith)
            requires
                0 <= row < other_row,
                0 <= col < cols,
                0 <= other_col,
        ;
    } else if other_row < row {
        assert(other_row * cols + other_col < row * cols + col) by (nonlinear_arith)
            requires
                0 <= other_row < row,
                0 <= other_col < cols,
                0 <= col,
        ;
    }
}

/// A cell inside a `rows` by `cols` grid has a flat position inside the buffer.
pub(crate) proof fn lemma_index_in_range(rows: int, cols: int, row: int, col: int)
    requires
        0 <= row < rows,
        0 <= col < cols,
    ensures
        0 <= row * cols + col < rows * cols,
{
    assert(row * cols + col < rows * cols) by (nonlinear_arith)
        requires
            0 <= row < rows,
            0 <= col < cols,
    ;
    assert(0 <= row * cols) by (nonlinear_arith)
        requires
            0 <= row,
            0 <= col < cols,
    ;
}

} // verus!
