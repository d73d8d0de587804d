//! A table of booleans with a fixed number of columns, kept row after row in
//! one vector.

use vstd::prelude::*;
use vstd::arithmetic::div_mod::lemma_fundamental_div_mod;
use vstd::arithmetic::div_mod::lemma_fundamental_div_mod_converse;

verus! {

/// What a [`Matrix`] holds: its width and its cells, row after row.
pub struct Grid {
    pub cols: nat,
    pub cells: Seq<bool>,
}

impl Grid {
    /// The cells fill whole rows.
    pub open spec fn wf(self) -> bool {
        if self.cols == 0 {
            self.cells.len() == 0
        } else {
            self.cells.len() % self.cols == 0
        }
    }

    /// Number of rows.
    pub open spec fn rows(self) -> nat {
        if self.cols == 0 {
            0
        } else {
            self.cells.len() / self.cols
        }
    }

    /// `(row, col)` lies inside the grid.
    pub open spec fn has(self, row: int, col: int) -> bool {
        0 <= row < self.rows() && 0 <= col < self.cols
    }

    /// Place of the cell `(row, col)` in `cells`.
    pub open spec fn index_of(self, row: int, col: int) -> int {
        row * self.cols + col
    }

    /// The cell at `(row, col)`.
    pub open spec fn at(self, row: int, col: int) -> bool {
        self.cells[self.index_of(row, col)]
    }

    /// The cells of one row, left to right.
    pub open spec fn row(self, row: int) -> Seq<bool> {
        self.cells.subrange(self.index_of(row, 0), self.index_of(row + 1, 0))
    }

    /// A grid of the same width whose row `to` holds what row `from` holds
    /// here; the other rows are kept.
    pub open spec fn with_row_copied(self, from: int, to: int) -> Grid {
        Grid {
            cols: self.cols,
            cells: Seq::new(
                self.cells.len(),
                |i: int|
                    if self.index_of(to, 0) <= i < self.index_of(to + 1, 0) {
                        self.cells[i - self.index_of(to, 0) + self.index_of(from, 0)]
                    } else {
                        self.cells[i]
                    },
            ),
        }
    }

    /// A well-formed grid has `rows * cols` cells.
    pub proof fn lemma_size(self)
        requires
            self.wf(),
        ensures
            self.cells.len() == self.rows() * self.cols,
    {
        if self.cols != 0 {
            let len = self.cells.len() as int;
            let cols = self.cols as int;
            lemma_fundamental_div_mod(len, cols);
            assert(cols * (len / cols) == (len / cols) * cols) by (nonlinear_arith);
        }
    }

    /// The cell `(row, col)` of a well-formed grid has a place in `cells`,
    /// from which the row and the column are found again.
    pub proof fn lemma_index(self, row: int, col: int)
        requires
            self.wf(),
            self.has(row, col),
        ensures
            0 <= self.index_of(row, col) < self.cells.len(),
            self.index_of(row, col) / (self.cols as int) == row,
            self.index_of(row, col) % (self.cols as int) == col,
    {
        self.lemma_size();
        let cols = self.cols as int;
        let rows = self.rows() as int;
        assert(0 <= row * cols && (row + 1) * cols <= rows * cols && (row + 1) * cols == row * cols
            + cols) by (nonlinear_arith)
            requires
                0 <= row < rows,
                0 < cols,
        ;
        lemma_fundamental_div_mod_converse(row * cols + col, cols, row, col);
    }

    /// Every place in `cells` of a well-formed grid is that of one cell.
    pub proof fn lemma_coords(self, idx: int)
        requires
            self.wf(),
            0 <= idx < self.cells.len(),
        ensures
            self.has(idx / (self.cols as int), idx % (self.cols as int)),
            self.index_of(idx / (self.cols as int), idx % (self.cols as int)) == idx,
    {
        self.lemma_size();
        let cols = self.cols as int;
        let rows = self.rows() as int;
        lemma_fundamental_div_mod(idx, cols);
        let q = idx / cols;
        assert(cols * q == q * cols) by (nonlinear_arith);
        assert(0 <= q < rows) by (nonlinear_arith)
            requires
                0 <= idx < rows * cols,
                0 < cols,
                idx == q * cols + idx % cols,
                0 <= idx % cols < cols,
        ;
    }

    /// The rows of a well-formed grid lie one after another in `cells`.
    pub proof fn lemma_row_bounds(self, row: int)
        requires
            self.wf(),
            0 <= row < self.rows(),
        ensures
            0 <= self.index_of(row, 0),
            self.index_of(row + 1, 0) == self.index_of(row, 0) + self.cols,
            self.index_of(row + 1, 0) <= self.cells.len(),
            self.row(row).len() == self.cols,
            forall|col: int| 0 <= col < self.cols ==> self.row(row)[col] == #[trigger] self.at(row, col),
    {
        self.lemma_size();
        let cols = self.cols as int;
        let rows = self.rows() as int;
        assert(0 <= row * cols && (row + 1) * cols <= rows * cols && (row + 1) * cols == row * cols
            + cols) by (nonlinear_arith)
            requires
                0 <= row < rows,
                0 < cols,
        ;
    }
}

/// A table of booleans. The cell in row `row` and column `col` is
/// `backing[row * col_count + col]`.
#[derive(Debug, PartialEq, Eq)]
pub struct Matrix {
    pub col_count: usize,
    pub backing: Vec<bool>,
}

impl View for Matrix {
    type V = Grid;

    open spec fn view(&self) -> Grid {
        Grid { cols: self.col_count as nat, cells: self.backing@ }
    }
}

impl Clone for Matrix {
    fn clone(&self) -> (copy: Self)
        ensures
            copy@ == self@,
    {
        let mut backing: Vec<bool> = Vec::new();
        let mut i: usize = 0;
        while i < self.backing.len()
            invariant
                i <= self.backing.len(),
                backing@ == self.backing@.subrange(0, i as int),
            decreases self.backing.len() - i,
        {
            backing.push(self.backing[i]);
            i += 1;
        }
        assert(backing@ == self.backing@);
        Matrix { col_count: self.col_count, backing }
    }
}

impl Matrix {
    /// The backing vector holds whole rows.
    pub open spec fn wf(&self) -> bool {
        self@.wf()
    }

    /// The cells of a matrix can be counted in a `usize`.
    pub proof fn lemma_fits(&self)
        ensures
            self@.cells.len() <= usize::MAX,
    {
        assert(self.backing.len() == self@.cells.len());
    }

    /// A matrix of `row_count` rows and `col_count` columns with no cell set.
    /// Without columns it has no cells, and so no rows.
    pub fn new(col_count: usize, row_count: usize) -> (m: Self)
        requires
            col_count * row_count <= usize::MAX,
        ensures
            m.wf(),
            m@.cols == col_count,
            m@.cells == Seq::new((col_count * row_count) as nat, |i: int| false),
            m@.rows() == if col_count > 0 {
                row_count
            } else {
                0
            },
    {
        let len: usize = col_count * row_count;
        let mut backing: Vec<bool> = Vec::new();
        let mut i: usize = 0;
        while i < len
            invariant
                i <= len,
                backing@ == Seq::new(i as nat, |k: int| false),
            decreases len - i,
        {
            backing.push(false);
            i += 1;
        }
        proof {
            if col_count > 0 {
                assert(row_count * col_count == col_count * row_count) by (nonlinear_arith);
                lemma_fundamental_div_mod_converse(
                    len as int,
                    col_count as int,
                    row_count as int,
                    0,
                );
            } else {
                assert(col_count * row_count == 0) by (nonlinear_arith)
                    requires
                        col_count == 0,
                ;
            }
        }
        Matrix { col_count, backing }
    }

    /// Number of rows.
    pub fn row_count(&self) -> (rows: usize)
        ensures
            rows == self@.rows(),
    {
        if self.col_count == 0 {
            0
        } else {
            self.backing.len() / self.col_count
        }
    }

    /// The row and the column of the cell kept at `idx` of the backing vector.
    pub fn idx_to_coords(&self, idx: usize) -> (coords: (usize, usize))
        requires
            self.col_count > 0,
        ensures
            coords.0 == idx / self.col_count,
            coords.1 == idx % self.col_count,
            coords.1 < self.col_count,
            self@.index_of(coords.0 as int, coords.1 as int) == idx,
    {
        proof {
            lemma_fundamental_div_mod(idx as int, self.col_count as int);
            let q = idx as int / self.col_count as int;
            let c = self.col_count as int;
            assert(c * q == q * c) by (nonlinear_arith);
        }
        (idx / self.col_count, idx % self.col_count)
    }

    /// The cell at `(row, col)`.
    pub fn get(&self, row: usize, col: usize) -> (value: bool)
        requires
            self.wf(),
            self@.has(row as int, col as int),
        ensures
            value == self@.at(row as int, col as int),
    {
        proof {
            self.lemma_fits();
            self@.lemma_index(row as int, col as int);
        }
        self.backing[row * self.col_count + col]
    }

    /// Writes `value` into the cell at `(row, col)`; no other cell changes.
    pub fn set(&mut self, row: usize, col: usize, value: bool)
        requires
            old(self).wf(),
            old(self)@.has(row as int, col as int),
        ensures
            final(self).wf(),
            final(self)@.cols == old(self)@.cols,
            final(self)@.cells.len() == old(self)@.cells.len(),
            final(self)@.cells == old(self)@.cells.update(
                old(self)@.index_of(row as int, col as int),
                value,
            ),
            final(self)@.at(row as int, col as int) == value,
            forall|r: int, c: int|
                old(self)@.has(r, c) && (r != row || c != col) ==> #[trigger] final(self)@.at(r, c)
                    == old(self)@.at(r, c),
    {
        proof {
            self.lemma_fits();
            self@.lemma_index(row as int, col as int);
        }
        let idx: usize = row * self.col_count + col;
        self.backing.set(idx, value);
        proof {
            assert forall|r: int, c: int|
                old(self)@.has(r, c) && (r != row || c != col) implies #[trigger] self@.at(r, c)
                == old(self)@.at(r, c) by {
                old(self)@.lemma_index(r, c);
            }
        }
    }

    /// The cells of one row, left to right.
    pub fn get_row(&self, row: usize) -> (cells: &[bool])
        requires
            self.wf(),
            row < self@.rows(),
        ensures
            cells@ == self@.row(row as int),
            cells@.len() == self.col_count,
            forall|col: int|
                0 <= col < self.col_count ==> cells@[col] == #[trigger] self@.at(row as int, col),
    {
        proof {
            self.lemma_fits();
            self@.lemma_row_bounds(row as int);
        }
        let start: usize = row * self.col_count;
        let end: usize = start + self.col_count;
        vstd::slice::slice_subrange(self.backing.as_slice(), start, end)
    }

    /// The cells of one row, left to right, to be written in place. Whatever
    /// is written there, the other rows are kept.
    pub fn get_row_mut(&mut self, row: usize) -> (cells: &mut [bool])
        requires
            old(self).wf(),
            row < old(self)@.rows(),
        ensures
            cells@ == old(self)@.row(row as int),
            final(self)@.cols == old(self)@.cols,
            final(self)@.cells == old(self)@.cells.subrange(
                0,
                old(self)@.index_of(row as int, 0),
            ) + final(cells)@ + old(self)@.cells.subrange(
                old(self)@.index_of(row as int + 1, 0),
                old(self)@.cells.len() as int,
            ),
    {
        proof {
            self.lemma_fits();
            self@.lemma_row_bounds(row as int);
        }
        let start: usize = row * self.col_count;
        let end: usize = start + self.col_count;
        let whole = self.backing.as_mut_slice();
        let (head, _below) = whole.split_at_mut(end);
        let (_above, cells) = head.split_at_mut(start);
        proof {
            assert(cells@ == old(self)@.row(row as int));
        }
        cells
    }

    /// Copies row `from` onto row `to`; the other rows are kept.
    pub fn copy_row(&mut self, from: usize, to: usize)
        requires
            old(self).wf(),
            from < old(self)@.rows(),
            to < old(self)@.rows(),
        ensures
            final(self).wf(),
            final(self)@ == old(self)@.with_row_copied(from as int, to as int),
            final(self)@.cols == old(self)@.cols,
            final(self)@.cells.len() == old(self)@.cells.len(),
            forall|col: int|
                0 <= col < old(self)@.cols ==> #[trigger] final(self)@.at(to as int, col) == old(
                    self,
                )@.at(from as int, col),
            forall|r: int, c: int|
                old(self)@.has(r, c) && r != to ==> #[trigger] final(self)@.at(r, c) == old(self)@.at(
                    r,
                    c,
                ),
    {
        proof {
            self.lemma_fits();
            self@.lemma_row_bounds(from as int);
            self@.lemma_row_bounds(to as int);
        }
        let to_idx: usize = to * self.col_count;
        let from_idx: usize = from * self.col_count;
        let ghost before = self@;
        let mut col: usize = 0;
        while col < self.col_count
            invariant
                before == old(self)@,
                before.wf(),
                from < before.rows(),
                to < before.rows(),
                self.col_count == before.cols,
                col <= self.col_count,
                to_idx == before.index_of(to as int, 0),
                from_idx == before.index_of(from as int, 0),
                to_idx + self.col_count <= before.cells.len(),
                from_idx + self.col_count <= before.cells.len(),
                self.backing@.len() == before.cells.len(),
                before.cells.len() <= usize::MAX,
                forall|i: int|
                    0 <= i < before.cells.len() ==> #[trigger] self.backing@[i] == if to_idx <= i
                        < to_idx + col {
                        before.cells[i - to_idx + from_idx]
                    } else {
                        before.cells[i]
                    },
            decreases self.col_count - col,
        {
            proof {
                // Two rows either coincide or do not overlap, so the source
                // cell still holds what it held at the start.
                if from != to {
                    assert(from_idx + self.col_count <= to_idx || to_idx + self.col_count
                        <= from_idx) by (nonlinear_arith)
                        requires
                            from != to,
                            from_idx == from * self.col_count,
                            to_idx == to * self.col_count,
                    ;
                }
            }
            let value = self.backing[from_idx + col];
            self.backing.set(to_idx + col, value);
            col += 1;
        }
        proof {
            assert(self@.cells =~= before.with_row_copied(from as int, to as int).cells);
            assert forall|c: int| 0 <= c < before.cols implies #[trigger] self@.at(to as int, c)
                == before.at(from as int, c) by {
                before.lemma_index(to as int, c);
                before.lemma_index(from as int, c);
            }
            assert forall|r: int, c: int| before.has(r, c) && r != to implies #[trigger] self@.at(
                r,
                c,
            ) == before.at(r, c) by {
                before.lemma_index(r, c);
                before.lemma_row_bounds(r);
                let i = before.index_of(r, c);
                if to_idx <= i < to_idx + before.cols {
                    lemma_fundamental_div_mod_converse(i, before.cols as int, to as int, i - to_idx);
                }
            }
        }
    }
}

} // verus!
