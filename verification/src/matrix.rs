//! A matrix of any size, walked row by row or column by column.
use vstd::prelude::*;

verus! {

/// A matrix of `rows` by `cols` cells, kept row after row.
#[derive(Debug)]
pub struct Matrix<T> {
    rows: usize,
    cols: usize,
    data: Vec<T>,
}

impl<T> Matrix<T> {
    #[verifier::type_invariant]
    spec fn well_formed(&self) -> bool {
        self.data@.len() == self.rows * self.cols
    }

    /// The number of rows.
    pub closed spec fn height(&self) -> nat {
        self.rows as nat
    }

    /// The number of columns.
    pub closed spec fn width(&self) -> nat {
        self.cols as nat
    }

    /// The cells, row after row.
    pub closed spec fn cells(&self) -> Seq<T> {
        self.data@
    }

    /// The cell in row `row` and column `col`.
    pub open spec fn cell(&self, row: int, col: int) -> T
        recommends
            0 <= row < self.height(),
            0 <= col < self.width(),
    {
        self.cells()[row * self.width() + col]
    }

    /// The cell that a walk by columns meets at its step `step`: the columns
    /// from left to right, each from top to bottom.
    pub open spec fn cell_by_col(&self, step: int) -> T
        recommends
            0 <= step < self.height() * self.width(),
    {
        self.cell(step % (self.height() as int), step / (self.height() as int))
    }

    /// The number of rows.
    pub fn rows(&self) -> (rows: usize)
        ensures
            rows == self.height(),
    {
        self.rows
    }

    /// The number of columns.
    pub fn cols(&self) -> (cols: usize)
        ensures
            cols == self.width(),
    {
        self.cols
    }

    /// A walk over the cells row by row, from the first cell.
    pub fn by_row(&self) -> (walk: RowIter<'_, T>)
        ensures
            walk.matrix() == self,
            walk.position() == 0,
            self.cells().len() == self.height() * self.width(),
    {
        proof {
            use_type_invariant(self);
        }
        RowIter { matrix: self, current: 0 }
    }

    /// A walk over the cells column by column, from the first cell.
    pub fn by_col(&self) -> (walk: ColIter<'_, T>)
        ensures
            walk.matrix() == self,
            walk.position() == 0,
            self.cells().len() == self.height() * self.width(),
    {
        proof {
            use_type_invariant(self);
        }
        ColIter { matrix: self, current: 0 }
    }
}

impl<T: Clone> Matrix<T> {
    /// The matrix of `rows` by `cols` cells whose cells are copies of the
    /// first `rows * cols` items of `data`, row after row.
    pub fn new(rows: usize, cols: usize, data: &[T]) -> (matrix: Matrix<T>)
        requires
            rows * cols <= data@.len(),
        ensures
            matrix.height() == rows,
            matrix.width() == cols,
            matrix.cells().len() == rows * cols,
            forall|i: int|
                0 <= i < rows * cols ==> cloned(data@[i], #[trigger] matrix.cells()[i]),
    {
        let count = cell_count(rows, cols, data.len());
        let mut cells: Vec<T> = Vec::new();
        let mut i: usize = 0;
        while i < count
            invariant
                i <= count <= data@.len(),
                cells@.len() == i,
                forall|k: int| 0 <= k < i ==> cloned(data@[k], #[trigger] cells@[k]),
            decreases count - i,
        {
            cells.push(data[i].clone());
            i += 1;
        }
        Matrix { rows, cols, data: cells }
    }
}

/// The product `rows * cols`, which is known not to exceed `limit`.
fn cell_count(rows: usize, cols: usize, limit: usize) -> (count: usize)
    requires
        rows * cols <= limit,
    ensures
        count == rows * cols,
{
    if rows == 0 || cols == 0 {
        assert(rows * cols == 0) by (nonlinear_arith)
            requires
                rows == 0 || cols == 0,
        ;
        0
    } else {
        rows * cols
    }
}

/// A walk over a matrix row by row.
pub struct RowIter<'a, T> {
    matrix: &'a Matrix<T>,
    current: usize,
}

impl<'a, T> RowIter<'a, T> {
    /// The matrix that is walked.
    pub closed spec fn matrix(&self) -> &'a Matrix<T> {
        self.matrix
    }

    /// The number of cells handed out so far.
    pub closed spec fn position(&self) -> nat {
        self.current as nat
    }

    /// The next cell, if any is left: the cells come row after row.
    pub fn next(&mut self) -> (item: Option<&'a T>)
        ensures
            final(self).matrix() == old(self).matrix(),
            match item {
                Some(cell) => {
                    &&& old(self).position() < old(self).matrix().cells().len()
                    &&& *cell == old(self).matrix().cells()[old(self).position() as int]
                    &&& final(self).position() == old(self).position() + 1
                },
                None => {
                    &&& old(self).position() >= old(self).matrix().cells().len()
                    &&& final(self).position() == old(self).position()
                },
            },
    {
        if self.current < self.matrix.data.len() {
            let item = &self.matrix.data[self.current];
            self.current += 1;
            Some(item)
        } else {
            None
        }
    }
}

/// A walk over a matrix column by column.
pub struct ColIter<'a, T> {
    matrix: &'a Matrix<T>,
    current: usize,
}

impl<'a, T> ColIter<'a, T> {
    /// The matrix that is walked.
    pub closed spec fn matrix(&self) -> &'a Matrix<T> {
        self.matrix
    }

    /// The number of cells handed out so far.
    pub closed spec fn position(&self) -> nat {
        self.current as nat
    }

    /// The next cell, if any is left: the cells come column after column,
    /// each column from top to bottom.
    pub fn next(&mut self) -> (item: Option<&'a T>)
        requires
            old(self).matrix().height() > 0,
        ensures
            final(self).matrix() == old(self).matrix(),
            match item {
                Some(cell) => {
                    &&& old(self).position() < old(self).matrix().cells().len()
                    &&& *cell == old(self).matrix().cell_by_col(old(self).position() as int)
                    &&& final(self).position() == old(self).position() + 1
                },
                None => {
                    &&& old(self).position() >= old(self).matrix().cells().len()
                    &&& final(self).position() == old(self).position()
                },
            },
    {
        let matrix = self.matrix;
        proof {
            use_type_invariant(matrix);
        }
        if self.current >= matrix.data.len() {
            return None;
        }
        let rows = matrix.rows;
        let cols = matrix.cols;
        assert(rows > 0 && cols > 0) by (nonlinear_arith)
            requires
                rows * cols > 0,
        ;
        let row = self.current % rows;
        let col = self.current / rows;
        assert(col < cols && row * cols + col < rows * cols) by (nonlinear_arith)
            requires
                self.current < rows * cols,
                rows > 0,
                row == self.current % rows,
                col == self.current / rows,
                row < rows,
        ;
        let item = &matrix.data[row * cols + col];
        self.current += 1;
        Some(item)
    }
}

} // verus!
