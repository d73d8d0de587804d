//! The seven tetrominoes: their shapes, their colors, how they turn and where
//! their four cells lie on the board.

use vstd::prelude::*;
use crate::matrix::Grid;
use crate::matrix::Matrix;
use crate::pile::Board;
use crate::pile::Pile;

verus! {

/// The seven shapes.
#[derive(Clone, Copy, Debug, PartialEq, Eq, Structural)]
pub enum PieceType {
    Square,
    L,
    Straight,
    ReverseL,
    T,
    Worm,
    ReverseWorm,
}

/// The colors in which the shapes are drawn.
#[derive(Clone, Copy, Debug, PartialEq, Eq, Structural)]
pub enum PieceColor {
    Red,
    Blue,
    LightBlue,
    Yellow,
    LightYellow,
    Green,
    Magenta,
}

/// The color of each shape.
pub open spec fn color_of(piece_type: PieceType) -> PieceColor {
    match piece_type {
        PieceType::Square => PieceColor::Red,
        PieceType::L => PieceColor::Green,
        PieceType::Straight => PieceColor::LightBlue,
        PieceType::ReverseL => PieceColor::Blue,
        PieceType::T => PieceColor::LightYellow,
        PieceType::Worm => PieceColor::Yellow,
        PieceType::ReverseWorm => PieceColor::Magenta,
    }
}

/// The color in which a shape is drawn.
pub fn get_piece_color(piece_type: &PieceType) -> (color: PieceColor)
    ensures
        color == color_of(*piece_type),
{
    match piece_type {
        PieceType::Square => PieceColor::Red,
        PieceType::L => PieceColor::Green,
        PieceType::Straight => PieceColor::LightBlue,
        PieceType::ReverseL => PieceColor::Blue,
        PieceType::T => PieceColor::LightYellow,
        PieceType::Worm => PieceColor::Yellow,
        PieceType::ReverseWorm => PieceColor::Magenta,
    }
}

/// The shape that stands at `index` in the list of the seven; an index past
/// the list gives the last of them.
pub open spec fn type_at(index: u8) -> PieceType {
    if index == 0 {
        PieceType::Square
    } else if index == 1 {
        PieceType::L
    } else if index == 2 {
        PieceType::Straight
    } else if index == 3 {
        PieceType::ReverseL
    } else if index == 4 {
        PieceType::T
    } else if index == 5 {
        PieceType::Worm
    } else {
        PieceType::ReverseWorm
    }
}

/// The shape that stands at `index` in the list of the seven.
pub fn piece_type_from_index(index: u8) -> (piece_type: PieceType)
    ensures
        piece_type == type_at(index),
{
    match index {
        0 => PieceType::Square,
        1 => PieceType::L,
        2 => PieceType::Straight,
        3 => PieceType::ReverseL,
        4 => PieceType::T,
        5 => PieceType::Worm,
        _ => PieceType::ReverseWorm,
    }
}

/// The template of each shape as it enters the board: a square grid with four
/// cells set.
pub open spec fn canonical(piece_type: PieceType) -> Grid {
    match piece_type {
        PieceType::Square => Grid { cols: 2, cells: seq![true, true, true, true] },
        PieceType::L => Grid {
            cols: 3,
            cells: seq![false, false, true, true, true, true, false, false, false],
        },
        PieceType::ReverseL => Grid {
            cols: 3,
            cells: seq![true, false, false, true, true, true, false, false, false],
        },
        PieceType::Straight => Grid {
            cols: 4,
            cells: seq![
                false, false, false, false,
                true, true, true, true,
                false, false, false, false,
                false, false, false, false,
            ],
        },
        PieceType::T => Grid {
            cols: 3,
            cells: seq![false, true, false, true, true, true, false, false, false],
        },
        PieceType::Worm => Grid {
            cols: 3,
            cells: seq![true, true, false, false, true, true, false, false, false],
        },
        PieceType::ReverseWorm => Grid {
            cols: 3,
            cells: seq![false, true, true, true, true, false, false, false, false],
        },
    }
}

/// The places among the first `n` of `cells` that are set, in rising order.
pub open spec fn filled_upto(cells: Seq<bool>, n: int) -> Seq<int>
    decreases n,
{
    if n <= 0 {
        Seq::empty()
    } else if cells[n - 1] {
        filled_upto(cells, n - 1).push(n - 1)
    } else {
        filled_upto(cells, n - 1)
    }
}

/// How many of the first `n` of `cells` are set.
pub open spec fn count_upto(cells: Seq<bool>, n: int) -> int
    decreases n,
{
    if n <= 0 {
        0
    } else {
        count_upto(cells, n - 1) + unit(cells[n - 1])
    }
}

/// One for a cell that is set, zero for one that is not.
#[verifier::opaque]
pub open spec fn unit(cell: bool) -> int {
    if cell {
        1
    } else {
        0
    }
}

/// There are as many set places as cells that are set.
pub proof fn lemma_filled_count(cells: Seq<bool>, n: int)
    ensures
        filled_upto(cells, n).len() == count_upto(cells, n),
    decreases n,
{
    reveal(unit);
    if n > 0 {
        lemma_filled_count(cells, n - 1);
    }
}

/// The places of `cells` that are set, in rising order.
pub open spec fn filled(cells: Seq<bool>) -> Seq<int> {
    filled_upto(cells, cells.len() as int)
}

/// A template: a square grid of side 2, 3 or 4 with exactly four cells set.
pub open spec fn is_template(grid: Grid) -> bool {
    &&& 2 <= grid.cols <= 4
    &&& grid.cells.len() == grid.cols * grid.cols
    &&& filled(grid.cells).len() == 4
}

/// A square grid turned a quarter clockwise: the cell `(i, j)` holds what
/// `(side - 1 - j, i)` held.
pub open spec fn rotated_clockwise(grid: Grid) -> Grid {
    Grid {
        cols: grid.cols,
        cells: Seq::new(
            grid.cells.len(),
            |k: int| grid.at(grid.cols - 1 - k % (grid.cols as int), k / (grid.cols as int)),
        ),
    }
}

/// A square grid turned a quarter counter-clockwise: the cell `(i, j)` holds
/// what `(j, side - 1 - i)` held.
pub open spec fn rotated_counter_clockwise(grid: Grid) -> Grid {
    Grid {
        cols: grid.cols,
        cells: Seq::new(
            grid.cells.len(),
            |k: int| grid.at(k % (grid.cols as int), grid.cols - 1 - k / (grid.cols as int)),
        ),
    }
}

/// A grid with as many rows as columns.
pub open spec fn is_square(grid: Grid) -> bool {
    grid.cols > 0 && grid.cells.len() == grid.cols * grid.cols
}

/// A square grid is well formed and has `cols` rows.
pub proof fn lemma_square(grid: Grid)
    requires
        is_square(grid),
    ensures
        grid.wf(),
        grid.rows() == grid.cols,
{
    let n = grid.cols as int;
    vstd::arithmetic::div_mod::lemma_fundamental_div_mod_converse(n * n, n, n, 0);
}

/// Cell by cell, what a clockwise quarter turn does to a square grid.
pub proof fn lemma_rotated_clockwise(grid: Grid)
    requires
        is_square(grid),
    ensures
        is_square(rotated_clockwise(grid)),
        forall|i: int, j: int|
            0 <= i < grid.cols && 0 <= j < grid.cols ==> #[trigger] rotated_clockwise(grid).at(i, j)
                == grid.at(grid.cols - 1 - j, i),
{
    let turned = rotated_clockwise(grid);
    lemma_square(grid);
    lemma_square(turned);
    assert forall|i: int, j: int| 0 <= i < grid.cols && 0 <= j < grid.cols implies #[trigger] turned.at(
        i,
        j,
    ) == grid.at(grid.cols - 1 - j, i) by {
        turned.lemma_index(i, j);
    }
}

/// Cell by cell, what a counter-clockwise quarter turn does to a square grid.
pub proof fn lemma_rotated_counter_clockwise(grid: Grid)
    requires
        is_square(grid),
    ensures
        is_square(rotated_counter_clockwise(grid)),
        forall|i: int, j: int|
            0 <= i < grid.cols && 0 <= j < grid.cols ==> #[trigger] rotated_counter_clockwise(
                grid,
            ).at(i, j) == grid.at(j, grid.cols - 1 - i),
{
    let turned = rotated_counter_clockwise(grid);
    lemma_square(grid);
    lemma_square(turned);
    assert forall|i: int, j: int| 0 <= i < grid.cols && 0 <= j < grid.cols implies #[trigger] turned.at(
        i,
        j,
    ) == grid.at(j, grid.cols - 1 - i) by {
        turned.lemma_index(i, j);
    }
}

/// Two square grids of one size that agree in every cell are the same grid.
pub proof fn lemma_same_cells(a: Grid, b: Grid)
    requires
        is_square(a),
        is_square(b),
        a.cols == b.cols,
        forall|i: int, j: int| 0 <= i < a.cols && 0 <= j < a.cols ==> a.at(i, j) == b.at(i, j),
    ensures
        a == b,
{
    lemma_square(a);
    lemma_square(b);
    assert forall|k: int| 0 <= k < a.cells.len() implies a.cells[k] == b.cells[k] by {
        a.lemma_coords(k);
        let i = k / (a.cols as int);
        let j = k % (a.cols as int);
        assert(a.at(i, j) == b.at(i, j));
    }
    assert(a.cells =~= b.cells);
}

/// Four clockwise quarter turns bring a square grid back to itself.
pub proof fn lemma_four_clockwise_turns(grid: Grid)
    requires
        is_square(grid),
    ensures
        rotated_clockwise(rotated_clockwise(rotated_clockwise(rotated_clockwise(grid)))) == grid,
{
    let g1 = rotated_clockwise(grid);
    let g2 = rotated_clockwise(g1);
    let g3 = rotated_clockwise(g2);
    let g4 = rotated_clockwise(g3);
    lemma_rotated_clockwise(grid);
    lemma_rotated_clockwise(g1);
    lemma_rotated_clockwise(g2);
    lemma_rotated_clockwise(g3);
    let n = grid.cols as int;
    assert forall|i: int, j: int| 0 <= i < n && 0 <= j < n implies g4.at(i, j) == grid.at(i, j) by {
        assert(g4.at(i, j) == g3.at(n - 1 - j, i));
        assert(g3.at(n - 1 - j, i) == g2.at(n - 1 - i, n - 1 - j));
        assert(g2.at(n - 1 - i, n - 1 - j) == g1.at(j, n - 1 - i));
        assert(g1.at(j, n - 1 - i) == grid.at(i, j));
    }
    lemma_same_cells(g4, grid);
}

/// Four counter-clockwise quarter turns bring a square grid back to itself.
pub proof fn lemma_four_counter_clockwise_turns(grid: Grid)
    requires
        is_square(grid),
    ensures
        rotated_counter_clockwise(
            rotated_counter_clockwise(rotated_counter_clockwise(rotated_counter_clockwise(grid))),
        ) == grid,
{
    let g1 = rotated_counter_clockwise(grid);
    let g2 = rotated_counter_clockwise(g1);
    let g3 = rotated_counter_clockwise(g2);
    let g4 = rotated_counter_clockwise(g3);
    lemma_rotated_counter_clockwise(grid);
    lemma_rotated_counter_clockwise(g1);
    lemma_rotated_counter_clockwise(g2);
    lemma_rotated_counter_clockwise(g3);
    let n = grid.cols as int;
    assert forall|i: int, j: int| 0 <= i < n && 0 <= j < n implies g4.at(i, j) == grid.at(i, j) by {
        assert(g4.at(i, j) == g3.at(j, n - 1 - i));
        assert(g3.at(j, n - 1 - i) == g2.at(n - 1 - i, n - 1 - j));
        assert(g2.at(n - 1 - i, n - 1 - j) == g1.at(n - 1 - j, i));
        assert(g1.at(n - 1 - j, i) == grid.at(i, j));
    }
    lemma_same_cells(g4, grid);
}

/// A quarter turn one way undoes a quarter turn the other way.
pub proof fn lemma_opposite_turns(grid: Grid)
    requires
        is_square(grid),
    ensures
        rotated_counter_clockwise(rotated_clockwise(grid)) == grid,
        rotated_clockwise(rotated_counter_clockwise(grid)) == grid,
{
    let cw = rotated_clockwise(grid);
    let ccw = rotated_counter_clockwise(grid);
    lemma_rotated_clockwise(grid);
    lemma_rotated_counter_clockwise(grid);
    lemma_rotated_counter_clockwise(cw);
    lemma_rotated_clockwise(ccw);
    let n = grid.cols as int;
    let back = rotated_counter_clockwise(cw);
    let forth = rotated_clockwise(ccw);
    assert forall|i: int, j: int| 0 <= i < n && 0 <= j < n implies back.at(i, j) == grid.at(i, j) by {
        assert(back.at(i, j) == cw.at(j, n - 1 - i));
    }
    assert forall|i: int, j: int| 0 <= i < n && 0 <= j < n implies forth.at(i, j) == grid.at(
        i,
        j,
    ) by {
        assert(forth.at(i, j) == ccw.at(n - 1 - j, i));
    }
    lemma_same_cells(back, grid);
    lemma_same_cells(forth, grid);
}

/// The set places among the first `n` cells are places below `n` that are
/// set, they rise, and they are the first of those among any more cells.
pub proof fn lemma_filled_upto(cells: Seq<bool>, n: int)
    requires
        0 <= n <= cells.len(),
    ensures
        filled_upto(cells, n).len() <= n,
        forall|x: int|
            0 <= x < filled_upto(cells, n).len() ==> 0 <= #[trigger] filled_upto(cells, n)[x] < n
                && cells[filled_upto(cells, n)[x]],
        forall|x: int, y: int|
            0 <= x < y < filled_upto(cells, n).len() ==> filled_upto(cells, n)[x] < filled_upto(
                cells,
                n,
            )[y],
        forall|m: int|
            n <= m <= cells.len() ==> filled_upto(cells, n).len() <= (#[trigger] filled_upto(
                cells,
                m,
            )).len() && filled_upto(cells, m).subrange(0, filled_upto(cells, n).len() as int)
                == filled_upto(cells, n),
    decreases n,
{
    if n > 0 {
        lemma_filled_upto(cells, n - 1);
    }
    assert forall|m: int| n <= m <= cells.len() implies filled_upto(cells, n).len() <= (
    #[trigger] filled_upto(cells, m)).len() && filled_upto(cells, m).subrange(
        0,
        filled_upto(cells, n).len() as int,
    ) == filled_upto(cells, n) by {
        lemma_filled_prefix(cells, n, m);
    }
}

/// The set places among the first `n` cells come first among the set places
/// of the first `m`, for `n <= m`.
pub proof fn lemma_filled_prefix(cells: Seq<bool>, n: int, m: int)
    requires
        0 <= n <= m <= cells.len(),
    ensures
        filled_upto(cells, n).len() <= filled_upto(cells, m).len(),
        filled_upto(cells, m).subrange(0, filled_upto(cells, n).len() as int) == filled_upto(
            cells,
            n,
        ),
    decreases m - n,
{
    if n < m {
        lemma_filled_prefix(cells, n, m - 1);
        let shorter = filled_upto(cells, m - 1);
        let longer = filled_upto(cells, m);
        let k = filled_upto(cells, n).len() as int;
        assert(longer.subrange(0, k) =~= shorter.subrange(0, k));
    } else {
        assert(filled_upto(cells, m).subrange(0, filled_upto(cells, n).len() as int)
            =~= filled_upto(cells, n));
    }
}

/// Each of the seven shapes enters the board as a template.
pub proof fn lemma_canonical_is_template(piece_type: PieceType)
    ensures
        is_template(canonical(piece_type)),
{
    let cells = canonical(piece_type).cells;
    match piece_type {
        PieceType::Square => {
            assert(cells.len() == 4);
            assert(filled_upto(cells, 4).len() == 4) by {
                reveal_with_fuel(filled_upto, 5);
            }
        },
        PieceType::Straight => {
            assert(cells.len() == 16);
            assert(filled_upto(cells, 16).len() == 4) by {
                reveal_with_fuel(filled_upto, 17);
            }
        },
        _ => {
            assert(cells.len() == 9);
            assert(filled_upto(cells, 9).len() == 4) by {
                reveal_with_fuel(filled_upto, 10);
            }
        },
    }
}

/// A square of side 2 has as many cells set after a quarter turn as before.
proof fn lemma_turn_count_2(g: Seq<bool>, t: Seq<bool>)
    requires
        g.len() == 4,
        t.len() == 4,
        t[0] == g[2],
        t[1] == g[0],
        t[2] == g[3],
        t[3] == g[1],
    ensures
        count_upto(t, 4) == count_upto(g, 4),
{
    reveal_with_fuel(count_upto, 5);
}

/// A square of side 3 has as many cells set after a quarter turn as before.
proof fn lemma_turn_count_3(g: Seq<bool>, t: Seq<bool>)
    requires
        g.len() == 9,
        t.len() == 9,
        t[0] == g[6],
        t[1] == g[3],
        t[2] == g[0],
        t[3] == g[7],
        t[4] == g[4],
        t[5] == g[1],
        t[6] == g[8],
        t[7] == g[5],
        t[8] == g[2],
    ensures
        count_upto(t, 9) == count_upto(g, 9),
{
    reveal_with_fuel(count_upto, 10);
}

/// A square of side 4 has as many cells set after a quarter turn as before.
proof fn lemma_turn_count_4(g: Seq<bool>, t: Seq<bool>)
    requires
        g.len() == 16,
        t.len() == 16,
        t[0] == g[12],
        t[1] == g[8],
        t[2] == g[4],
        t[3] == g[0],
        t[4] == g[13],
        t[5] == g[9],
        t[6] == g[5],
        t[7] == g[1],
        t[8] == g[14],
        t[9] == g[10],
        t[10] == g[6],
        t[11] == g[2],
        t[12] == g[15],
        t[13] == g[11],
        t[14] == g[7],
        t[15] == g[3],
    ensures
        count_upto(t, 16) == count_upto(g, 16),
{
    reveal_with_fuel(count_upto, 17);
}

/// A square of side 2 has as many cells set after a clockwise quarter turn
/// as before.
proof fn lemma_clockwise_count_2(grid: Grid)
    requires
        grid.cols == 2,
        grid.cells.len() == 4,
    ensures
        count_upto(rotated_clockwise(grid).cells, 4) == count_upto(grid.cells, 4),
{
    let turned = rotated_clockwise(grid).cells;
    assert(turned[0] == grid.cells[2]);
    assert(turned[1] == grid.cells[0]);
    assert(turned[2] == grid.cells[3]);
    assert(turned[3] == grid.cells[1]);
    lemma_turn_count_2(grid.cells, turned);
}

/// A square of side 3 has as many cells set after a clockwise quarter turn
/// as before.
proof fn lemma_clockwise_count_3(grid: Grid)
    requires
        grid.cols == 3,
        grid.cells.len() == 9,
    ensures
        count_upto(rotated_clockwise(grid).cells, 9) == count_upto(grid.cells, 9),
{
    let turned = rotated_clockwise(grid).cells;
    assert(turned[0] == grid.cells[6]);
    assert(turned[1] == grid.cells[3]);
    assert(turned[2] == grid.cells[0]);
    assert(turned[3] == grid.cells[7]);
    assert(turned[4] == grid.cells[4]);
    assert(turned[5] == grid.cells[1]);
    assert(turned[6] == grid.cells[8]);
    assert(turned[7] == grid.cells[5]);
    assert(turned[8] == grid.cells[2]);
    lemma_turn_count_3(grid.cells, turned);
}

/// A square of side 4 has as many cells set after a clockwise quarter turn
/// as before.
proof fn lemma_clockwise_count_4(grid: Grid)
    requires
        grid.cols == 4,
        grid.cells.len() == 16,
    ensures
        count_upto(rotated_clockwise(grid).cells, 16) == count_upto(grid.cells, 16),
{
    let turned = rotated_clockwise(grid).cells;
    assert(turned[0] == grid.cells[12]);
    assert(turned[1] == grid.cells[8]);
    assert(turned[2] == grid.cells[4]);
    assert(turned[3] == grid.cells[0]);
    assert(turned[4] == grid.cells[13]);
    assert(turned[5] == grid.cells[9]);
    assert(turned[6] == grid.cells[5]);
    assert(turned[7] == grid.cells[1]);
    assert(turned[8] == grid.cells[14]);
    assert(turned[9] == grid.cells[10]);
    assert(turned[10] == grid.cells[6]);
    assert(turned[11] == grid.cells[2]);
    assert(turned[12] == grid.cells[15]);
    assert(turned[13] == grid.cells[11]);
    assert(turned[14] == grid.cells[7]);
    assert(turned[15] == grid.cells[3]);
    lemma_turn_count_4(grid.cells, turned);
}

/// A quarter turn of a template, either way, is a template.
pub proof fn lemma_turn_keeps_template(grid: Grid)
    requires
        is_template(grid),
    ensures
        is_template(rotated_clockwise(grid)),
        is_template(rotated_counter_clockwise(grid)),
{
    let cw = rotated_clockwise(grid);
    let ccw = rotated_counter_clockwise(grid);
    let cols = grid.cols as int;
    let len = grid.cells.len() as int;
    assert(len == if cols == 2 {
        4int
    } else if cols == 3 {
        9int
    } else {
        16int
    }) by (nonlinear_arith)
        requires
            2 <= cols <= 4,
            len == cols * cols,
    ;
    // Turning `ccw` clockwise gives `grid` back.
    lemma_opposite_turns(grid);
    lemma_filled_count(grid.cells, len);
    lemma_filled_count(cw.cells, len);
    lemma_filled_count(ccw.cells, len);
    if cols == 2 {
        lemma_clockwise_count_2(grid);
        lemma_clockwise_count_2(ccw);
    } else if cols == 3 {
        lemma_clockwise_count_3(grid);
        lemma_clockwise_count_3(ccw);
    } else {
        lemma_clockwise_count_4(grid);
        lemma_clockwise_count_4(ccw);
    }
}

/// The board cells `(row, column)` that the set cells of `grid` cover when the
/// grid's corner lies at column `x` and row `y`, in the order of the grid's
/// rows and, within a row, of its columns.
pub open spec fn cells_of(grid: Grid, x: int, y: int) -> Seq<(int, int)> {
    Seq::new(
        filled(grid.cells).len(),
        |k: int|
            (
                filled(grid.cells)[k] / (grid.cols as int) + y,
                filled(grid.cells)[k] % (grid.cols as int) + x,
            ),
    )
}

/// Moved by `dx` columns and `dy` rows, one of `cells` would lie off the
/// board or on a filled cell of it.
pub open spec fn hits(cells: Seq<(int, int)>, dx: int, dy: int, board: Board) -> bool {
    exists|k: int| 0 <= k < cells.len() && board.blocked((#[trigger] cells[k]).0 + dy, cells[k].1 + dx)
}

/// The first of the shifts 0, -1, +1, -2, +2 columns by which `cells` fit on
/// the board, if there is one.
pub open spec fn kick_of(cells: Seq<(int, int)>, board: Board) -> Option<int> {
    if !hits(cells, 0, 0, board) {
        Some(0)
    } else if !hits(cells, -1, 0, board) {
        Some(-1)
    } else if !hits(cells, 1, 0, board) {
        Some(1)
    } else if !hits(cells, -2, 0, board) {
        Some(-2)
    } else if !hits(cells, 2, 0, board) {
        Some(2)
    } else {
        None
    }
}

/// The cells that a template covers lie in the square of side 4 whose corner
/// is the anchor, and there are four of them.
pub proof fn lemma_cells_near_anchor(grid: Grid, x: int, y: int)
    requires
        is_template(grid),
    ensures
        cells_of(grid, x, y).len() == 4,
        forall|k: int|
            0 <= k < 4 ==> y <= (#[trigger] cells_of(grid, x, y)[k]).0 <= y + 3 && x <= cells_of(
                grid,
                x,
                y,
            )[k].1 <= x + 3,
{
    lemma_square(grid);
    lemma_filled_upto(grid.cells, grid.cells.len() as int);
    assert forall|k: int| 0 <= k < 4 implies y <= (#[trigger] cells_of(grid, x, y)[k]).0 <= y + 3
        && x <= cells_of(grid, x, y)[k].1 <= x + 3 by {
        let place = filled(grid.cells)[k];
        assert(0 <= place < grid.cells.len());
        grid.lemma_coords(place);
    }
}

/// Moving the anchor moves every cell with it, so a shift of the anchor can
/// be made up for by a shift the other way.
pub proof fn lemma_hits_from(grid: Grid, x: int, y: int, to_x: int, to_y: int, dx: int, dy: int, board: Board)
    ensures
        cells_of(grid, to_x, to_y).len() == cells_of(grid, x, y).len(),
        forall|k: int|
            0 <= k < cells_of(grid, x, y).len() ==> (#[trigger] cells_of(grid, to_x, to_y)[k]).0
                == cells_of(grid, x, y)[k].0 + to_y - y && cells_of(grid, to_x, to_y)[k].1
                == cells_of(grid, x, y)[k].1 + to_x - x,
        hits(cells_of(grid, to_x, to_y), dx, dy, board) == hits(
            cells_of(grid, x, y),
            dx + to_x - x,
            dy + to_y - y,
            board,
        ),
{
    let here = cells_of(grid, x, y);
    let there = cells_of(grid, to_x, to_y);
    if hits(there, dx, dy, board) {
        let k = choose|k: int|
            0 <= k < there.len() && board.blocked((#[trigger] there[k]).0 + dy, there[k].1 + dx);
        assert(board.blocked(here[k].0 + (dy + to_y - y), here[k].1 + (dx + to_x - x)));
    }
    if hits(here, dx + to_x - x, dy + to_y - y, board) {
        let k = choose|k: int|
            0 <= k < here.len() && board.blocked(
                (#[trigger] here[k]).0 + (dy + to_y - y),
                here[k].1 + (dx + to_x - x),
            );
        assert(board.blocked(there[k].0 + dy, there[k].1 + dx));
    }
}

/// Cells of a template that fit on a board after a shift lie on the board
/// after that shift, so the shifted anchor lies at most three cells off it.
pub proof fn lemma_free_cells(grid: Grid, x: int, y: int, dx: int, dy: int, board: Board)
    requires
        is_template(grid),
        !hits(cells_of(grid, x, y), dx, dy, board),
    ensures
        -3 <= x + dx < board.cols,
        -3 <= y + dy < board.rows,
        forall|k: int|
            0 <= k < 4 ==> board.has(
                (#[trigger] cells_of(grid, x, y)[k]).0 + dy,
                cells_of(grid, x, y)[k].1 + dx,
            ) && !board.occupied(cells_of(grid, x, y)[k].0 + dy, cells_of(grid, x, y)[k].1 + dx),
{
    lemma_cells_near_anchor(grid, x, y);
    let cells = cells_of(grid, x, y);
    assert forall|k: int| 0 <= k < 4 implies board.has((#[trigger] cells[k]).0 + dy, cells[k].1 + dx)
        && !board.occupied(cells[k].0 + dy, cells[k].1 + dx) by {
        assert(!board.blocked(cells[k].0 + dy, cells[k].1 + dx));
    }
    assert(board.has(cells[0].0 + dy, cells[0].1 + dx));
}

/// A tetromino: a template and the board cell at which the template's corner
/// lies. The anchor may lie left of or above the board.
#[derive(Debug, PartialEq, Eq)]
pub struct Piece {
    pub anchor_x: i16,
    pub anchor_y: i16,
    pub piece_type: PieceType,
    pub template: Matrix,
}

impl Clone for Piece {
    fn clone(&self) -> (copy: Self)
        ensures
            copy.shape() == self.shape(),
            copy.anchor_x == self.anchor_x,
            copy.anchor_y == self.anchor_y,
            copy.piece_type == self.piece_type,
    {
        Piece {
            anchor_x: self.anchor_x,
            anchor_y: self.anchor_y,
            piece_type: self.piece_type,
            template: self.template.clone(),
        }
    }
}

impl Piece {
    /// The template as it is turned now.
    pub open spec fn shape(&self) -> Grid {
        self.template@
    }

    /// The template is one, and the coordinates of the four cells fit in `i16`.
    pub open spec fn wf(&self) -> bool {
        &&& is_template(self.shape())
        &&& self.anchor_x <= i16::MAX - 3
        &&& self.anchor_y <= i16::MAX - 3
    }

    /// The four board cells `(row, column)` that the piece covers.
    pub open spec fn cells(&self) -> Seq<(int, int)> {
        cells_of(self.shape(), self.anchor_x as int, self.anchor_y as int)
    }

    /// No cell of the piece lies left of or above the board.
    pub open spec fn on_board(&self) -> bool {
        forall|k: int|
            0 <= k < self.cells().len() ==> (#[trigger] self.cells()[k]).0 >= 0 && self.cells()[k].1
                >= 0
    }

    /// A piece of the given shape, as it enters the board, anchored at column
    /// `anchor_x` and row `anchor_y`.
    pub fn new(piece_type: PieceType, anchor_x: i16, anchor_y: i16) -> (piece: Self)
        ensures
            piece.piece_type == piece_type,
            piece.anchor_x == anchor_x,
            piece.anchor_y == anchor_y,
            piece.shape() == canonical(piece_type),
            is_template(piece.shape()),
    {
        proof {
            lemma_canonical_is_template(piece_type);
        }
        Piece { anchor_x, anchor_y, piece_type, template: Piece::get_piece_template(piece_type) }
    }

    /// The template of a shape as it enters the board.
    pub fn get_piece_template(piece_type: PieceType) -> (template: Matrix)
        ensures
            template@ == canonical(piece_type),
    {
        let template = match piece_type {
            PieceType::Square => Matrix { col_count: 2, backing: vec![true, true, true, true] },
            PieceType::L => Matrix {
                col_count: 3,
                backing: vec![false, false, true, true, true, true, false, false, false],
            },
            PieceType::ReverseL => Matrix {
                col_count: 3,
                backing: vec![true, false, false, true, true, true, false, false, false],
            },
            PieceType::Straight => Matrix {
                col_count: 4,
                backing: vec![
                    false, false, false, false,
                    true, true, true, true,
                    false, false, false, false,
                    false, false, false, false,
                ],
            },
            PieceType::T => Matrix {
                col_count: 3,
                backing: vec![false, true, false, true, true, true, false, false, false],
            },
            PieceType::Worm => Matrix {
                col_count: 3,
                backing: vec![true, true, false, false, true, true, false, false, false],
            },
            PieceType::ReverseWorm => Matrix {
                col_count: 3,
                backing: vec![false, true, true, true, true, false, false, false, false],
            },
        };
        assert(template@.cells =~= canonical(piece_type).cells);
        template
    }

    /// Turns the template a quarter clockwise. The anchor stays.
    pub fn rotate_clockwise(&mut self)
        requires
            is_template(old(self).shape()),
        ensures
            final(self).shape() == rotated_clockwise(old(self).shape()),
            is_template(final(self).shape()),
            final(self).anchor_x == old(self).anchor_x,
            final(self).anchor_y == old(self).anchor_y,
            final(self).piece_type == old(self).piece_type,
    {
        let side: usize = self.template.col_count;
        let ghost before = self.template@;
        proof {
            lemma_square(before);
            lemma_rotated_clockwise(before);
            lemma_turn_keeps_template(before);
        }
        let mut new_template = self.template.clone();
        let mut i: usize = 0;
        while i < side
            invariant
                before == self.template@,
                is_square(before),
                before.wf(),
                before.rows() == side,
                before.cols == side,
                new_template.wf(),
                new_template@.cols == side,
                new_template@.cells.len() == before.cells.len(),
                i <= side,
                forall|r: int, c: int|
                    0 <= r < i && 0 <= c < side ==> #[trigger] new_template@.at(r, c) == before.at(
                        side - 1 - c,
                        r,
                    ),
            decreases side - i,
        {
            let mut j: usize = 0;
            while j < side
                invariant
                    before == self.template@,
                    is_square(before),
                    before.wf(),
                    before.rows() == side,
                    before.cols == side,
                    new_template.wf(),
                    new_template@.cols == side,
                    new_template@.cells.len() == before.cells.len(),
                    i < side,
                    j <= side,
                    forall|r: int, c: int|
                        0 <= r < i && 0 <= c < side ==> #[trigger] new_template@.at(r, c)
                            == before.at(side - 1 - c, r),
                    forall|c: int|
                        0 <= c < j ==> #[trigger] new_template@.at(i as int, c) == before.at(
                            side - 1 - c,
                            i as int,
                        ),
                decreases side - j,
            {
                let value = self.template.get(side - j - 1, i);
                new_template.set(i, j, value);
                j += 1;
            }
            i += 1;
        }
        proof {
            lemma_same_cells(new_template@, rotated_clockwise(before));
        }
        self.template = new_template;
    }

    /// Turns the template a quarter counter-clockwise. The anchor stays.
    pub fn rotate_counter_clockwise(&mut self)
        requires
            is_template(old(self).shape()),
        ensures
            final(self).shape() == rotated_counter_clockwise(old(self).shape()),
            is_template(final(self).shape()),
            final(self).anchor_x == old(self).anchor_x,
            final(self).anchor_y == old(self).anchor_y,
            final(self).piece_type == old(self).piece_type,
    {
        let side: usize = self.template.col_count;
        let ghost before = self.template@;
        proof {
            lemma_square(before);
            lemma_rotated_counter_clockwise(before);
            lemma_turn_keeps_template(before);
        }
        let mut new_template = self.template.clone();
        let mut i: usize = 0;
        while i < side
            invariant
                before == self.template@,
                is_square(before),
                before.wf(),
                before.rows() == side,
                before.cols == side,
                new_template.wf(),
                new_template@.cols == side,
                new_template@.cells.len() == before.cells.len(),
                i <= side,
                forall|r: int, c: int|
                    0 <= r < i && 0 <= c < side ==> #[trigger] new_template@.at(r, c) == before.at(
                        c,
                        side - 1 - r,
                    ),
            decreases side - i,
        {
            let mut j: usize = 0;
            while j < side
                invariant
                    before == self.template@,
                    is_square(before),
                    before.wf(),
                    before.rows() == side,
                    before.cols == side,
                    new_template.wf(),
                    new_template@.cols == side,
                    new_template@.cells.len() == before.cells.len(),
                    i < side,
                    j <= side,
                    forall|r: int, c: int|
                        0 <= r < i && 0 <= c < side ==> #[trigger] new_template@.at(r, c)
                            == before.at(c, side - 1 - r),
                    forall|c: int|
                        0 <= c < j ==> #[trigger] new_template@.at(i as int, c) == before.at(
                            c,
                            side - 1 - i,
                        ),
                decreases side - j,
            {
                let value = self.template.get(j, side - i - 1);
                new_template.set(i, j, value);
                j += 1;
            }
            i += 1;
        }
        proof {
            lemma_same_cells(new_template@, rotated_counter_clockwise(before));
        }
        self.template = new_template;
    }

    /// The four board cells `(row, column)` that the piece covers, in the
    /// order of the template's rows. A cell left of or above the board has a
    /// negative coordinate.
    pub fn get_positions_unsafe(&self) -> (positions: [(i16, i16); 4])
        requires
            self.wf(),
        ensures
            self.cells().len() == 4,
            forall|k: int|
                0 <= k < 4 ==> positions[k].0 == (#[trigger] self.cells()[k]).0 && positions[k].1
                    == self.cells()[k].1,
    {
        let mut result: [(i16, i16); 4] = [(0, 0);4];
        let mut x: usize = 0;
        let len: usize = self.template.backing.len();
        let ghost cells = self.template@.cells;
        let ghost cols = self.template@.cols as int;
        proof {
            lemma_square(self.template@);
        }
        let mut i: usize = 0;
        while i < len
            invariant
                self.wf(),
                self.template@.wf(),
                self.template@.rows() == cols,
                cells == self.template@.cells,
                cols == self.template@.cols,
                len == cells.len(),
                i <= len,
                x == filled_upto(cells, i as int).len(),
                x <= 4,
                forall|k: int|
                    0 <= k < x ==> (#[trigger] result[k]).0 == filled_upto(cells, i as int)[k] / cols
                        + self.anchor_y && result[k].1 == filled_upto(cells, i as int)[k] % cols
                        + self.anchor_x,
            decreases len - i,
        {
            if self.template.backing[i] {
                proof {
                    lemma_filled_prefix(cells, i + 1, len as int);
                    self.template@.lemma_coords(i as int);
                }
                let (row, col) = self.template.idx_to_coords(i);
                result[x] = (row as i16 + self.anchor_y, col as i16 + self.anchor_x);
                x += 1;
            }
            i += 1;
        }
        result
    }

    /// The four board cells `(row, column)` that the piece covers, in the
    /// order of the template's rows, for a piece of which no cell lies left of
    /// or above the board.
    pub fn get_positions(&self) -> (positions: [(usize, usize); 4])
        requires
            self.wf(),
            self.on_board(),
        ensures
            self.cells().len() == 4,
            forall|k: int|
                0 <= k < 4 ==> positions[k].0 == (#[trigger] self.cells()[k]).0 && positions[k].1
                    == self.cells()[k].1,
    {
        let signed = self.get_positions_unsafe();
        let mut result: [(usize, usize); 4] = [(0, 0);4];
        let mut k: usize = 0;
        while k < 4
            invariant
                self.on_board(),
                self.cells().len() == 4,
                k <= 4,
                forall|j: int|
                    0 <= j < 4 ==> signed[j].0 == (#[trigger] self.cells()[j]).0 && signed[j].1
                        == self.cells()[j].1,
                forall|j: int|
                    0 <= j < k ==> (#[trigger] result[j]).0 == self.cells()[j].0 && result[j].1
                        == self.cells()[j].1,
            decreases 4 - k,
        {
            let (row, col) = signed[k];
            assert(self.cells()[k as int].0 >= 0 && self.cells()[k as int].1 >= 0);
            result[k] = (row as usize, col as usize);
            k += 1;
        }
        result
    }

    /// Moved by `dx` columns and `dy` rows, the piece would have a cell off
    /// the board, or on a filled cell of it.
    pub open spec fn collides_at(&self, dx: int, dy: int, board: Board) -> bool {
        hits(self.cells(), dx, dy, board)
    }

    /// Whether the piece, moved by `offset` (columns, then rows), would have
    /// a cell off the board of `pile` or on a filled cell of it.
    pub fn collides(&self, offset: (i16, i16), pile: &Pile) -> (hit: bool)
        requires
            self.wf(),
            pile.wf(),
        ensures
            hit == self.collides_at(offset.0 as int, offset.1 as int, pile@),
    {
        let positions = self.get_positions_unsafe();
        let rows: usize = pile.field.row_count();
        let cols: usize = pile.field.col_count;
        let mut k: usize = 0;
        while k < 4
            invariant
                k <= 4,
                pile.wf(),
                rows == pile@.rows,
                cols == pile@.cols,
                self.cells().len() == 4,
                forall|j: int|
                    0 <= j < 4 ==> positions[j].0 == (#[trigger] self.cells()[j]).0 && positions[j].1
                        == self.cells()[j].1,
                forall|j: int|
                    0 <= j < k ==> !pile@.blocked(
                        (#[trigger] self.cells()[j]).0 + offset.1,
                        self.cells()[j].1 + offset.0,
                    ),
            decreases 4 - k,
        {
            let (i, j) = positions[k];
            assert(self.cells()[k as int] == (i as int, j as int));
            let real_i: i32 = i as i32 + offset.1 as i32;
            let real_j: i32 = j as i32 + offset.0 as i32;
            if real_i < 0 || real_j < 0 {
                return true;
            }
            let row: usize = real_i as usize;
            let col: usize = real_j as usize;
            if col >= cols || row >= rows || pile.contains((row, col)) {
                return true;
            }
            k += 1;
        }
        false
    }

    /// Whether the piece cannot move one row down on the board of `pile`.
    pub fn touches_on_bottom(&self, pile: &Pile) -> (resting: bool)
        requires
            self.wf(),
            pile.wf(),
        ensures
            resting == self.collides_at(0, 1, pile@),
    {
        self.collides((0, 1), pile)
    }

    /// Moves the piece one row down, whatever lies there.
    pub fn move_down_unsafe(&mut self)
        requires
            old(self).anchor_y < i16::MAX,
        ensures
            final(self).anchor_y == old(self).anchor_y + 1,
            final(self).anchor_x == old(self).anchor_x,
            final(self).piece_type == old(self).piece_type,
            final(self).shape() == old(self).shape(),
    {
        self.anchor_y += 1;
    }

    /// Moves the piece one column to the left, whatever lies there.
    pub fn move_left_unsafe(&mut self)
        requires
            old(self).anchor_x > i16::MIN,
        ensures
            final(self).anchor_x == old(self).anchor_x - 1,
            final(self).anchor_y == old(self).anchor_y,
            final(self).piece_type == old(self).piece_type,
            final(self).shape() == old(self).shape(),
    {
        self.anchor_x -= 1;
    }

    /// Moves the piece one column to the right, whatever lies there.
    pub fn move_right_unsafe(&mut self)
        requires
            old(self).anchor_x < i16::MAX,
        ensures
            final(self).anchor_x == old(self).anchor_x + 1,
            final(self).anchor_y == old(self).anchor_y,
            final(self).piece_type == old(self).piece_type,
            final(self).shape() == old(self).shape(),
    {
        self.anchor_x += 1;
    }

    /// Puts the anchor at column `anchor_x` and row `anchor_y`.
    pub fn place_at(&mut self, anchor_x: i16, anchor_y: i16)
        ensures
            final(self).anchor_x == anchor_x,
            final(self).anchor_y == anchor_y,
            final(self).piece_type == old(self).piece_type,
            final(self).shape() == old(self).shape(),
    {
        self.anchor_x = anchor_x;
        self.anchor_y = anchor_y;
    }

    /// Exchanges shape and template, as it is turned, with `other`. Both
    /// anchors stay.
    pub fn swap_figures(&mut self, other: &mut Piece)
        ensures
            final(self).shape() == old(other).shape(),
            final(self).piece_type == old(other).piece_type,
            final(other).shape() == old(self).shape(),
            final(other).piece_type == old(self).piece_type,
            final(self).anchor_x == old(self).anchor_x,
            final(self).anchor_y == old(self).anchor_y,
            final(other).anchor_x == old(other).anchor_x,
            final(other).anchor_y == old(other).anchor_y,
    {
        std::mem::swap(&mut self.template, &mut other.template);
        std::mem::swap(&mut self.piece_type, &mut other.piece_type);
    }

    /// Turns the template back to the way the shape enters the board.
    pub fn refresh(&mut self)
        ensures
            final(self).shape() == canonical(old(self).piece_type),
            is_template(final(self).shape()),
            final(self).piece_type == old(self).piece_type,
            final(self).anchor_x == old(self).anchor_x,
            final(self).anchor_y == old(self).anchor_y,
    {
        proof {
            lemma_canonical_is_template(self.piece_type);
        }
        self.template = Piece::get_piece_template(self.piece_type);
    }

    /// One of the seven shapes, drawn at random.
    fn get_random_piece_type() -> (piece_type: PieceType) {
        piece_type_from_index(random_below(7))
    }

    /// A piece of a shape drawn at random, as that shape enters the board,
    /// anchored at column `anchor_x` and row `anchor_y`.
    pub fn new_random_piece_at(anchor_x: i16, anchor_y: i16) -> (piece: Self)
        ensures
            piece.anchor_x == anchor_x,
            piece.anchor_y == anchor_y,
            piece.shape() == canonical(piece.piece_type),
            is_template(piece.shape()),
    {
        Piece::new(Piece::get_random_piece_type(), anchor_x, anchor_y)
    }

    /// Gives the piece a shape drawn at random, as that shape enters the
    /// board. The anchor stays.
    pub fn randomize(&mut self)
        ensures
            final(self).shape() == canonical(final(self).piece_type),
            is_template(final(self).shape()),
            final(self).anchor_x == old(self).anchor_x,
            final(self).anchor_y == old(self).anchor_y,
    {
        let piece_type = Piece::get_random_piece_type();
        proof {
            lemma_canonical_is_template(piece_type);
        }
        self.template = Piece::get_piece_template(piece_type);
        self.piece_type = piece_type;
    }
}

/// `rand::Rng::gen_range` on the generator that `rand::thread_rng` hands out,
/// with the bounds 0 and `high`: a number drawn from 0 up to, and not
/// including, `high`. Which number comes is left open.
#[verifier::external_body]
fn random_below(high: u8) -> (n: u8)
    requires
        high > 0,
    ensures
        n < high,
{
    rand::Rng::gen_range(&mut rand::thread_rng(), 0u8, high)
}

} // verus!
