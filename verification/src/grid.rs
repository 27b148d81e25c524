//! The sampling grid: indices and the coordinates they stand for.

use vstd::prelude::*;
use vstd::arithmetic::div_mod::{lemma_fundamental_div_mod, lemma_fundamental_div_mod_converse};
use crate::ratio::Ratio;

verus! {

/// The coordinate of grid line `index` on an axis of `count` lines.
///
/// The line `count / 2` lies at 0 and neighbouring lines are `1 / (count / 2)`
/// apart, so an axis with an odd number of lines runs from -1 to 1.
pub open spec fn coordinate(index: int, count: int) -> Ratio {
    Ratio { numerator: (index - count / 2) as i64, denominator: (count / 2) as i64 }
}

/// The index that mirrors `index` about the centre line `count / 2`.
pub open spec fn mirrored(index: int, count: int) -> int {
    2 * (count / 2) - index
}

/// The coordinate of grid line `index` on an axis of `count` lines, as an
/// exact quotient. An axis has at least two lines.
pub fn grid_coordinate(index: usize, count: usize) -> (c: Ratio)
    requires
        2 <= count <= i64::MAX,
        index < count,
    ensures
        c == coordinate(index as int, count as int),
        c.numerator == index - count / 2,
        c.denominator == count / 2,
        c.in_unit_interval(),
{
    let half: i64 = (count / 2) as i64;
    Ratio { numerator: index as i64 - half, denominator: half }
}

/// A grid point has one position in row-major order, and the position gives
/// back the grid point.
pub proof fn lemma_cell_index(row: int, col: int, rows: int, cols: int)
    requires
        0 <= row < rows,
        0 <= col < cols,
    ensures
        0 <= row * cols + col < rows * cols,
        (row * cols + col) / cols == row,
        (row * cols + col) % cols == col,
{
    assert(row * cols + cols <= rows * cols) by (nonlinear_arith)
        requires
            row + 1 <= rows,
            cols > 0,
    ;
    assert(0 <= row * cols) by (nonlinear_arith)
        requires
            0 <= row,
            0 < cols,
    ;
    lemma_fundamental_div_mod_converse(row * cols + col, cols, row, col);
}

/// A position in row-major order belongs to one grid point.
pub proof fn lemma_cell_of_position(k: int, rows: int, cols: int)
    requires
        0 < cols,
        0 <= k < rows * cols,
    ensures
        0 <= k / cols < rows,
        0 <= k % cols < cols,
        (k / cols) * cols + k % cols == k,
{
    lemma_fundamental_div_mod(k, cols);
    let q = k / cols;
    assert(cols * q == q * cols) by (nonlinear_arith);
    assert(q < rows) by (nonlinear_arith)
        requires
            q * cols + k % cols == k,
            0 <= k % cols,
            k < rows * cols,
            0 < cols,
    ;
    assert(0 <= q) by (nonlinear_arith)
        requires
            q * cols + k % cols == k,
            k % cols < cols,
            0 <= k,
            0 < cols,
    ;
}

} // verus!
