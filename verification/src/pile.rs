//! The pile: the cells of the board that landed pieces have filled, and the
//! color of each.

use vstd::prelude::*;
use std::collections::HashMap;
use crate::matrix::Matrix;
use crate::piece::color_of;
use crate::piece::get_piece_color;
use crate::piece::Piece;
use crate::piece::PieceColor;

verus! {

broadcast use vstd::std_specs::hash::group_hash_axioms;

/// What a [`Pile`] holds: the size of the board and, for each filled cell
/// `(row, column)`, its color. Row 0 is the top row.
pub struct Board {
    pub cols: nat,
    pub rows: nat,
    pub colors: Map<(int, int), PieceColor>,
}

impl Board {
    /// `(row, col)` is a cell of the board.
    pub open spec fn has(self, row: int, col: int) -> bool {
        0 <= row < self.rows && 0 <= col < self.cols
    }

    /// Only cells of the board are filled.
    pub open spec fn wf(self) -> bool {
        forall|cell: (int, int)| #[trigger] self.colors.contains_key(cell) ==> self.has(cell.0, cell.1)
    }

    /// The cell `(row, col)` is filled.
    pub open spec fn occupied(self, row: int, col: int) -> bool {
        self.colors.contains_key((row, col))
    }

    /// The color of the cell `(row, col)`, if it is filled.
    pub open spec fn color(self, row: int, col: int) -> Option<PieceColor> {
        if self.colors.contains_key((row, col)) {
            Some(self.colors[(row, col)])
        } else {
            None
        }
    }

    /// A piece cannot have a cell at `(row, col)`: it lies off the board, or
    /// it is filled.
    pub open spec fn blocked(self, row: int, col: int) -> bool {
        !self.has(row, col) || self.occupied(row, col)
    }

    /// Every cell of `row` is filled.
    pub open spec fn row_full(self, row: int) -> bool {
        forall|col: int| 0 <= col < self.cols ==> #[trigger] self.occupied(row, col)
    }

    /// Every cell of `row` is filled or is one of `extra`.
    pub open spec fn row_complete_with(self, row: int, extra: Seq<(usize, usize)>) -> bool {
        forall|col: int|
            0 <= col < self.cols ==> #[trigger] self.occupied(row, col) || extra.contains(
                (row as usize, col as usize),
            )
    }

    /// `row` is cleared when the pile is cleaned up: every cell of it is
    /// filled, and it is not the top row.
    pub open spec fn cleared(self, row: int) -> bool {
        1 <= row < self.rows && self.row_full(row)
    }

    /// How many of the rows from `low` up to, and not including, `high` are
    /// cleared when the pile is cleaned up.
    pub open spec fn cleared_between(self, low: int, high: int) -> nat
        decreases high - low,
    {
        if low >= high {
            0
        } else if self.cleared(low) {
            self.cleared_between(low + 1, high) + 1
        } else {
            self.cleared_between(low + 1, high)
        }
    }

    /// The board with the cells `cells` filled in the color `color`.
    pub open spec fn with_cells(self, cells: Seq<(int, int)>, color: PieceColor) -> Board {
        Board {
            cols: self.cols,
            rows: self.rows,
            colors: Map::new(
                |cell: (int, int)| cells.contains(cell) || self.colors.contains_key(cell),
                |cell: (int, int)|
                    if cells.contains(cell) {
                        color
                    } else {
                        self.colors[cell]
                    },
            ),
        }
    }

    /// This board is what cleaning up makes of `before`. The cleared rows are
    /// gone. Each row that stays has moved down by the number of cleared rows
    /// that were below it, with its cells and their colors. The rows left
    /// over at the top are empty.
    pub open spec fn is_cleanup_of(self, before: Board) -> bool {
        &&& self.cols == before.cols
        &&& self.rows == before.rows
        &&& forall|row: int, col: int|
            0 <= row < before.rows && !before.cleared(row) ==> self.color(
                row + before.cleared_between(row + 1, before.rows as int),
                col,
            ) == #[trigger] before.color(row, col)
        &&& forall|row: int, col: int|
            0 <= row < before.cleared_between(0, before.rows as int) ==> #[trigger] self.color(
                row,
                col,
            ) is None
    }

    /// No more rows are cleared than there are.
    pub proof fn lemma_cleared_between_bound(self, low: int, high: int)
        requires
            low <= high,
        ensures
            self.cleared_between(low, high) <= high - low,
        decreases high - low,
    {
        if low < high {
            self.lemma_cleared_between_bound(low + 1, high);
        }
    }

    /// Where no row is cleared, none is counted.
    pub proof fn lemma_cleared_between_none(self, low: int, high: int)
        requires
            forall|row: int| low <= row < high ==> !self.cleared(row),
        ensures
            self.cleared_between(low, high) == 0,
        decreases high - low,
    {
        if low < high {
            self.lemma_cleared_between_none(low + 1, high);
        }
    }

    /// Where `full` is the one row that is cleared, one row is counted in
    /// every range that holds it.
    pub proof fn lemma_cleared_between_one(self, full: int, low: int, high: int)
        requires
            self.cleared(full),
            forall|row: int| row != full ==> !self.cleared(row),
            low <= full < high,
        ensures
            self.cleared_between(low, high) == 1,
        decreases high - low,
    {
        if low < full {
            self.lemma_cleared_between_one(full, low + 1, high);
        } else {
            self.lemma_cleared_between_none(low + 1, high);
        }
    }

    /// Cleaning up a board on which no row but perhaps the top one is full
    /// leaves the board as it is. An empty board with at least one column is
    /// such a board.
    pub proof fn lemma_cleanup_without_full_rows(self, after: Board)
        requires
            self.wf(),
            after.wf(),
            after.is_cleanup_of(self),
            forall|row: int| 1 <= row < self.rows ==> !self.row_full(row),
        ensures
            self.cleared_between(0, self.rows as int) == 0,
            after == self,
    {
        let rows = self.rows as int;
        self.lemma_cleared_between_none(0, rows);
        assert forall|cell: (int, int)| after.color(cell.0, cell.1) == self.color(
            cell.0,
            cell.1,
        ) by {
            if self.has(cell.0, cell.1) {
                self.lemma_cleared_between_none(cell.0 + 1, rows);
            }
        }
        self.lemma_same_colors(after);
    }

    /// Cleaning up a board with one full row below the top row: the rows
    /// above it move down by one, the rows below it stay, and the top row is
    /// empty.
    pub proof fn lemma_cleanup_of_one_full_row(self, after: Board, full: int)
        requires
            after.is_cleanup_of(self),
            1 <= full < self.rows,
            self.row_full(full),
            forall|row: int| 1 <= row < self.rows && row != full ==> !self.row_full(row),
        ensures
            self.cleared_between(0, self.rows as int) == 1,
            forall|row: int, col: int|
                0 <= row < full ==> after.color(row + 1, col) == #[trigger] self.color(row, col),
            forall|row: int, col: int|
                full < row < self.rows ==> after.color(row, col) == #[trigger] self.color(row, col),
            forall|col: int| #[trigger] after.color(0, col) is None,
    {
        let rows = self.rows as int;
        self.lemma_cleared_between_one(full, 0, rows);
        assert forall|row: int, col: int| 0 <= row < full implies after.color(row + 1, col)
            == #[trigger] self.color(row, col) by {
            self.lemma_cleared_between_one(full, row + 1, rows);
        }
        assert forall|row: int, col: int| full < row < self.rows implies after.color(row, col)
            == #[trigger] self.color(row, col) by {
            self.lemma_cleared_between_none(row + 1, rows);
        }
    }

    /// Two boards of one size with the same color in every cell are the same
    /// board.
    pub proof fn lemma_same_colors(self, other: Board)
        requires
            self.cols == other.cols,
            self.rows == other.rows,
            forall|row: int, col: int| self.color(row, col) == other.color(row, col),
        ensures
            self == other,
    {
        assert forall|cell: (int, int)| #[trigger]
            self.colors.dom().contains(cell) == other.colors.dom().contains(cell) by {
            assert(self.color(cell.0, cell.1) == other.color(cell.0, cell.1));
        }
        assert forall|cell: (int, int)| self.colors.dom().contains(cell) implies #[trigger] self.colors[cell]
            == other.colors[cell] by {
            assert(self.color(cell.0, cell.1) == other.color(cell.0, cell.1));
        }
        assert(self.colors =~= other.colors);
    }
}

/// The landed cells. `field` says which cells are filled; `map` gives the
/// color of each filled cell, under the cell's place in `field.backing`.
pub struct Pile {
    pub field: Matrix,
    pub map: HashMap<usize, PieceColor>,
}

impl View for Pile {
    type V = Board;

    open spec fn view(&self) -> Board {
        Board {
            cols: self.field@.cols,
            rows: self.field@.rows(),
            colors: Map::new(
                |cell: (int, int)|
                    self.field@.has(cell.0, cell.1) && self.map@.contains_key(
                        self.field@.index_of(cell.0, cell.1) as usize,
                    ),
                |cell: (int, int)| self.map@[self.field@.index_of(cell.0, cell.1) as usize],
            ),
        }
    }
}

impl Pile {
    /// The field is well formed, and the cells that have a color are the
    /// cells that are filled.
    pub open spec fn wf(&self) -> bool {
        &&& self.field.wf()
        &&& forall|k: usize| #[trigger]
            self.map@.contains_key(k) <==> k < self.field@.cells.len() && self.field@.cells[k as int]
    }

    /// The two piles lie on boards of one size.
    pub open spec fn same_board(&self, other: &Pile) -> bool {
        self.field@.cols == other.field@.cols && self.field@.cells.len()
            == other.field@.cells.len()
    }

    /// On a well-formed pile the cells that `field` marks are the cells for
    /// which `map` keeps a color, and no color is kept for anything else.
    pub proof fn lemma_filled_cells_have_colors(&self, row: int, col: int)
        requires
            self.wf(),
            self@.has(row, col),
        ensures
            self.field@.at(row, col) <==> self@.occupied(row, col),
            self@.occupied(row, col) <==> self@.color(row, col) is Some,
            0 <= self.field@.index_of(row, col) < self.field@.cells.len() <= usize::MAX,
            self@.wf(),
    {
        self.field.lemma_fits();
        self.field@.lemma_index(row, col);
        let key = self.field@.index_of(row, col) as usize;
        assert(self.map@.contains_key(key) <==> self.field@.cells[key as int]);
    }

    /// A pile keeps colors for cells of its board only.
    pub proof fn lemma_view_wf(&self)
        ensures
            self@.wf(),
    {
    }

    /// An empty pile on a board of `row_count` rows and `col_count` columns.
    pub fn new(col_count: usize, row_count: usize) -> (pile: Self)
        requires
            col_count * row_count <= usize::MAX,
        ensures
            pile.wf(),
            pile@.cols == col_count,
            pile@.rows == if col_count > 0 {
                row_count
            } else {
                0
            },
            pile@.colors == Map::<(int, int), PieceColor>::empty(),
    {
        let pile = Pile { field: Matrix::new(col_count, row_count), map: HashMap::new() };
        assert(pile@.colors =~= Map::<(int, int), PieceColor>::empty());
        pile
    }

    /// Whether the cell `(row, column)` is filled.
    pub fn contains(&self, coords: (usize, usize)) -> (filled: bool)
        requires
            self.wf(),
            self@.has(coords.0 as int, coords.1 as int),
        ensures
            filled == self@.occupied(coords.0 as int, coords.1 as int),
    {
        proof {
            self.lemma_filled_cells_have_colors(coords.0 as int, coords.1 as int);
        }
        self.field.get(coords.0, coords.1)
    }

    /// The color of the cell `(row, column)`, if it is filled.
    pub fn color_at(&self, coords: (usize, usize)) -> (color: Option<PieceColor>)
        requires
            self.field.wf(),
            self@.has(coords.0 as int, coords.1 as int),
        ensures
            color == self@.color(coords.0 as int, coords.1 as int),
    {
        proof {
            self.field.lemma_fits();
            self.field@.lemma_index(coords.0 as int, coords.1 as int);
        }
        let key: usize = coords.0 * self.field.col_count + coords.1;
        match self.map.get(&key) {
            Some(color) => Some(*color),
            None => None,
        }
    }

    /// Fills the cell `(row, col)` and gives it a color, or empties it.
    fn put(&mut self, row: usize, col: usize, color: Option<PieceColor>)
        requires
            old(self).wf(),
            old(self)@.has(row as int, col as int),
        ensures
            final(self).wf(),
            final(self).same_board(old(self)),
            final(self)@.color(row as int, col as int) == color,
            forall|r: int, c: int|
                r != row || c != col ==> #[trigger] final(self)@.color(r, c) == old(self)@.color(r, c),
    {
        proof {
            self.field.lemma_fits();
            self.field@.lemma_index(row as int, col as int);
        }
        let key: usize = row * self.field.col_count + col;
        match color {
            Some(color) => {
                self.field.set(row, col, true);
                self.map.insert(key, color);
            },
            None => {
                self.field.set(row, col, false);
                self.map.remove(&key);
            },
        }
        proof {
            assert forall|r: int, c: int| r != row || c != col implies #[trigger] self@.color(r, c)
                == old(self)@.color(r, c) by {
                if old(self)@.has(r, c) {
                    old(self).field@.lemma_index(r, c);
                }
            }
        }
    }

    /// Adds the four cells of a landed piece to the pile, in the color of the
    /// piece's shape.
    pub fn add(&mut self, piece: &Piece)
        requires
            old(self).wf(),
            piece.wf(),
            forall|k: int|
                0 <= k < piece.cells().len() ==> old(self)@.has(
                    (#[trigger] piece.cells()[k]).0,
                    piece.cells()[k].1,
                ),
        ensures
            final(self).wf(),
            final(self)@ == old(self)@.with_cells(piece.cells(), color_of(piece.piece_type)),
    {
        let positions = piece.get_positions();
        let color = get_piece_color(&piece.piece_type);
        let mut k: usize = 0;
        while k < 4
            invariant
                k <= 4,
                self.wf(),
                self.same_board(old(self)),
                piece.cells().len() == 4,
                color == color_of(piece.piece_type),
                forall|j: int|
                    0 <= j < 4 ==> positions[j].0 == (#[trigger] piece.cells()[j]).0
                        && positions[j].1 == piece.cells()[j].1 && old(self)@.has(
                        piece.cells()[j].0,
                        piece.cells()[j].1,
                    ),
                forall|row: int, col: int|
                    #[trigger] self@.color(row, col) == if piece.cells().subrange(
                        0,
                        k as int,
                    ).contains((row, col)) {
                        Some(color)
                    } else {
                        old(self)@.color(row, col)
                    },
            decreases 4 - k,
        {
            let (row, col) = positions[k];
            let ghost before = *self;
            assert(piece.cells()[k as int] == (row as int, col as int));
            self.put(row, col, Some(color));
            proof {
                let shorter = piece.cells().subrange(0, k as int);
                let longer = piece.cells().subrange(0, k + 1);
                assert(longer =~= shorter.push((row as int, col as int)));
                assert forall|r: int, c: int| #[trigger]
                    self@.color(r, c) == if longer.contains((r, c)) {
                        Some(color)
                    } else {
                        old(self)@.color(r, c)
                    } by {
                    if r == row && c == col {
                        assert(longer[k as int] == (r, c));
                    } else {
                        assert(self@.color(r, c) == before@.color(r, c));
                        if shorter.contains((r, c)) {
                            let j = choose|j: int| 0 <= j < shorter.len() && shorter[j] == (r, c);
                            assert(longer[j] == (r, c));
                        }
                        if longer.contains((r, c)) {
                            let j = choose|j: int| 0 <= j < longer.len() && longer[j] == (r, c);
                            assert(shorter[j] == (r, c));
                        }
                    }
                }
            }
            k += 1;
        }
        proof {
            assert(piece.cells().subrange(0, 4) =~= piece.cells());
            let goal = old(self)@.with_cells(piece.cells(), color);
            assert forall|row: int, col: int| self@.color(row, col) == goal.color(row, col) by {
                assert(self@.color(row, col) == if piece.cells().contains((row, col)) {
                    Some(color)
                } else {
                    old(self)@.color(row, col)
                });
            }
            self@.lemma_same_colors(goal);
        }
    }

    /// Whether `position` is one of `list`.
    fn position_in(list: &[(usize, usize)], position: (usize, usize)) -> (found: bool)
        ensures
            found == list@.contains(position),
    {
        let mut k: usize = 0;
        while k < list.len()
            invariant
                k <= list.len(),
                forall|j: int| 0 <= j < k ==> list@[j] != position,
            decreases list.len() - k,
        {
            if list[k].0 == position.0 && list[k].1 == position.1 {
                return true;
            }
            k += 1;
        }
        false
    }

    /// Whether every cell of the row `line` is filled or is one of
    /// `additional`.
    fn is_complete_line_with(&self, line: usize, additional: &[(usize, usize)]) -> (complete: bool)
        requires
            self.wf(),
            line < self@.rows,
        ensures
            complete == self@.row_complete_with(line as int, additional@),
    {
        let mut col: usize = 0;
        while col < self.field.col_count
            invariant
                self.wf(),
                line < self@.rows,
                col <= self.field.col_count,
                forall|c: int|
                    0 <= c < col ==> #[trigger] self@.occupied(line as int, c) || additional@.contains(
                        (line, c as usize),
                    ),
            decreases self.field.col_count - col,
        {
            proof {
                self.lemma_filled_cells_have_colors(line as int, col as int);
            }
            if !self.field.get(line, col) && !Pile::position_in(additional, (line, col)) {
                assert(!(self@.occupied(line as int, col as int) || additional@.contains(
                    (line, col),
                )));
                return false;
            }
            col += 1;
        }
        true
    }

    /// The rows that would be full if the cells `positions` were filled too,
    /// from the top of the board down. The pile is left as it is.
    pub fn get_complete_lines_with(&self, positions: &[(usize, usize); 4]) -> (lines: Vec<usize>)
        requires
            self.wf(),
        ensures
            forall|i: int, j: int| 0 <= i < j < lines@.len() ==> lines@[i] < lines@[j],
            forall|row: usize|
                #![trigger lines@.contains(row)]
                lines@.contains(row) <==> row < self@.rows && self@.row_complete_with(
                    row as int,
                    positions@,
                ),
    {
        let mut result: Vec<usize> = Vec::new();
        let rows = self.field.row_count();
        let mut line: usize = 0;
        while line < rows
            invariant
                self.wf(),
                rows == self@.rows,
                line <= rows,
                forall|i: int| 0 <= i < result@.len() ==> result@[i] < line,
                forall|i: int, j: int| 0 <= i < j < result@.len() ==> result@[i] < result@[j],
                forall|row: usize|
                    #![trigger result@.contains(row)]
                    result@.contains(row) <==> row < line && self@.row_complete_with(
                        row as int,
                        positions@,
                    ),
            decreases rows - line,
        {
            let ghost before = result@;
            let complete = self.is_complete_line_with(line, positions.as_slice());
            if complete {
                result.push(line);
            }
            proof {
                assert forall|row: usize| #![trigger result@.contains(row)]
                    result@.contains(row) <==> row < line + 1 && self@.row_complete_with(
                        row as int,
                        positions@,
                    ) by {
                    if result@.contains(row) {
                        let i = choose|i: int| 0 <= i < result@.len() && result@[i] == row;
                        if i < before.len() {
                            assert(before[i] == row);
                            assert(before.contains(row));
                        }
                    }
                    if row < line && self@.row_complete_with(row as int, positions@) {
                        assert(before.contains(row));
                        let i = choose|i: int| 0 <= i < before.len() && before[i] == row;
                        assert(result@[i] == row);
                    }
                    if row == line && complete {
                        assert(result@[before.len() as int] == row);
                    }
                }
            }
            line += 1;
        }
        result
    }

    /// Clears every row but the top one of which all cells are filled, and
    /// returns how many rows that were. The rows that stay keep their cells
    /// and colors and their order, and sink to the bottom of the board: each
    /// moves down by the number of cleared rows below it. The rows left over
    /// at the top are empty.
    pub fn cleanup_full_lines(&mut self) -> (cleaned_up: usize)
        requires
            old(self).wf(),
        ensures
            final(self).wf(),
            final(self)@.is_cleanup_of(old(self)@),
            cleaned_up == old(self)@.cleared_between(0, old(self)@.rows as int),
    {
        let rows: usize = self.field.row_count();
        let none: Vec<(usize, usize)> = Vec::new();
        let ghost before = self@;
        let ghost height = rows as int;
        // The rows from `line` down have been dealt with; those of them that
        // stay now lie from `next` down.
        let mut line: usize = rows;
        let mut next: usize = rows;
        let mut cleaned_up: usize = 0;
        while line > 0
            invariant
                before == old(self)@,
                self.wf(),
                self.same_board(old(self)),
                height == rows == before.rows,
                none@.len() == 0,
                line <= next <= rows,
                next == line + before.cleared_between(line as int, height),
                cleaned_up == before.cleared_between(line as int, height),
                forall|row: int, col: int|
                    0 <= row < line ==> #[trigger] self@.color(row, col) == before.color(row, col),
                forall|row: int, col: int|
                    line <= row < next ==> #[trigger] self@.color(row, col) is None,
                forall|row: int|
                    line <= row < height && !before.cleared(row) ==> next <= row
                        + #[trigger] before.cleared_between(row + 1, height) < height,
                forall|row: int, col: int|
                    line <= row < height && !before.cleared(row) ==> self@.color(
                        row + before.cleared_between(row + 1, height),
                        col,
                    ) == #[trigger] before.color(row, col),
            decreases line,
        {
            line -= 1;
            let ghost earlier = *self;
            proof {
                before.lemma_cleared_between_bound(line + 1, height);
            }
            let full = line != 0 && self.is_complete_line_with(line, none.as_slice());
            proof {
                // The row has not been touched yet.
                if self@.row_complete_with(line as int, none@) {
                    assert forall|col: int| 0 <= col < before.cols implies #[trigger] before.occupied(
                        line as int,
                        col,
                    ) by {
                        assert(self@.occupied(line as int, col) || none@.contains(
                            (line, col as usize),
                        ));
                        assert(self@.color(line as int, col) == before.color(line as int, col));
                    }
                }
                if before.row_full(line as int) {
                    assert forall|col: int| 0 <= col < self@.cols implies #[trigger] self@.occupied(
                        line as int,
                        col,
                    ) || none@.contains((line, col as usize)) by {
                        assert(before.occupied(line as int, col));
                        assert(self@.color(line as int, col) == before.color(line as int, col));
                    }
                }
                assert(full == before.cleared(line as int));
            }
            if full {
                self.remove_line(line);
                cleaned_up += 1;
            } else {
                next -= 1;
                if line != next {
                    self.copy_line(line, next);
                    self.remove_line(line);
                }
            }
            proof {
                assert forall|row: int, col: int|
                    line <= row < height && !before.cleared(row) implies self@.color(
                    row + before.cleared_between(row + 1, height),
                    col,
                ) == #[trigger] before.color(row, col) by {
                    let target = row + before.cleared_between(row + 1, height);
                    if row == line {
                        assert(target == next);
                        assert(earlier@.color(row, col) == before.color(row, col));
                    } else {
                        assert(earlier@.color(target, col) == before.color(row, col));
                    }
                }
            }
        }
        cleaned_up
    }

    /// Empties the row `line`.
    fn remove_line(&mut self, line: usize)
        requires
            old(self).wf(),
            line < old(self)@.rows,
        ensures
            final(self).wf(),
            final(self).same_board(old(self)),
            forall|col: int| #[trigger] final(self)@.color(line as int, col) is None,
            forall|row: int, col: int|
                row != line ==> #[trigger] final(self)@.color(row, col) == old(self)@.color(row, col),
    {
        let mut col: usize = 0;
        while col < self.field.col_count
            invariant
                self.wf(),
                self.same_board(old(self)),
                line < self@.rows,
                col <= self.field.col_count,
                forall|c: int| 0 <= c < col ==> #[trigger] self@.color(line as int, c) is None,
                forall|row: int, c: int|
                    row != line ==> #[trigger] self@.color(row, c) == old(self)@.color(row, c),
            decreases self.field.col_count - col,
        {
            self.put(line, col, None);
            col += 1;
        }
    }

    /// Makes the row `to` what the row `from` is.
    fn copy_line(&mut self, from: usize, to: usize)
        requires
            old(self).wf(),
            from < old(self)@.rows,
            to < old(self)@.rows,
            from != to,
        ensures
            final(self).wf(),
            final(self).same_board(old(self)),
            forall|col: int|
                #[trigger] final(self)@.color(to as int, col) == old(self)@.color(from as int, col),
            forall|row: int, col: int|
                row != to ==> #[trigger] final(self)@.color(row, col) == old(self)@.color(row, col),
    {
        let mut col: usize = 0;
        while col < self.field.col_count
            invariant
                self.wf(),
                self.same_board(old(self)),
                from < self@.rows,
                to < self@.rows,
                from != to,
                col <= self.field.col_count,
                forall|c: int|
                    0 <= c < col ==> #[trigger] self@.color(to as int, c) == old(self)@.color(
                        from as int,
                        c,
                    ),
                forall|row: int, c: int|
                    row != to ==> #[trigger] self@.color(row, c) == old(self)@.color(row, c),
            decreases self.field.col_count - col,
        {
            let color = self.color_at((from, col));
            self.put(to, col, color);
            col += 1;
        }
    }
}

} // verus!
