//! The two-dimensional array that stores the cells, and what the board logic
//! relies on from it.
//!
//! A position is written `(x, y)`: `x` is the column and `y` the row, so the
//! cell at `(x, y)` is `rows[y][x]`.

use array2d::Array2D;
use vstd::prelude::*;

use crate::cell::CellInfo;

verus! {

/// `array2d::Array2D`, a two-dimensional array of a fixed size. Nothing of
/// its inside is known here.
#[verifier::external_type_specification]
#[verifier::external_body]
#[verifier::reject_recursive_types(T)]
pub struct ExArray2D<T: Clone>(Array2D<T>);

/// The cells that a grid holds, row by row: as many rows as the grid has,
/// each as long as the grid has columns.
pub uninterp spec fn grid_rows(grid: Array2D<CellInfo>) -> Seq<Seq<CellInfo>>;

/// Whether `(x, y)` names a cell of `rows`.
pub open spec fn in_grid(rows: Seq<Seq<CellInfo>>, x: int, y: int) -> bool {
    0 <= y < rows.len() && 0 <= x < rows[y].len()
}

/// Whether `rows` has `height` rows of `width` cells each.
pub open spec fn rectangular(rows: Seq<Seq<CellInfo>>, width: int, height: int) -> bool {
    &&& rows.len() == height
    &&& forall|r: int| 0 <= r < height ==> (#[trigger] rows[r]).len() == width
}

/// `rows` with the cell at `(x, y)` replaced by `cell`.
pub open spec fn with_cell(rows: Seq<Seq<CellInfo>>, x: int, y: int, cell: CellInfo) -> Seq<
    Seq<CellInfo>,
> {
    rows.update(y, rows[y].update(x, cell))
}

/// Writing to a cell what it already holds changes nothing.
pub proof fn lemma_with_same_cell(rows: Seq<Seq<CellInfo>>, x: int, y: int)
    requires
        in_grid(rows, x, y),
    ensures
        with_cell(rows, x, y, rows[y][x]) == rows,
{
    assert(rows[y].update(x, rows[y][x]) =~= rows[y]);
    assert(with_cell(rows, x, y, rows[y][x]) =~= rows);
}

/// `Array2D::from_row_major`: the grid has `num_rows` rows of `num_columns`
/// cells each, and the cell in row `r`, column `c` is the element at index
/// `r * num_columns + c`. The call panics unless the number of elements is
/// `num_rows * num_columns`.
#[verifier::external_body]
pub(crate) fn grid_from_row_major(
    elements: &Vec<CellInfo>,
    num_rows: usize,
    num_columns: usize,
) -> (grid: Array2D<CellInfo>)
    requires
        elements@.len() == num_rows * num_columns,
    ensures
        rectangular(grid_rows(grid), num_columns as int, num_rows as int),
        forall|r: int, c: int|
            0 <= r < num_rows && 0 <= c < num_columns ==> #[trigger] grid_rows(grid)[r][c]
                == elements@[r * num_columns + c],
{
    Array2D::from_row_major(elements, num_rows, num_columns)
}

/// `Array2D::get`: the cell at `row` and `column` where both are in bounds,
/// `None` elsewhere.
#[verifier::external_body]
pub(crate) fn grid_get(grid: &Array2D<CellInfo>, row: usize, column: usize) -> (cell: Option<
    &CellInfo,
>)
    ensures
        in_grid(grid_rows(*grid), column as int, row as int) ==> cell == Some(
            &grid_rows(*grid)[row as int][column as int],
        ),
        !in_grid(grid_rows(*grid), column as int, row as int) ==> cell.is_none(),
{
    grid.get(row, column)
}

/// `Array2D::get_mut`: a mutable reference to the cell at `row` and `column`
/// where both are in bounds, `None` elsewhere. What is written through the
/// reference is that cell afterwards, and every other cell stays as it was.
/// The call does not panic.
#[verifier::external_body]
pub(crate) fn grid_get_mut(grid: &mut Array2D<CellInfo>, row: usize, column: usize) -> (cell:
    Option<&mut CellInfo>)
    ensures
        in_grid(grid_rows(*old(grid)), column as int, row as int) ==> cell.is_some()
            && *cell.unwrap() == grid_rows(*old(grid))[row as int][column as int] && grid_rows(
            *final(grid),
        ) == with_cell(grid_rows(*old(grid)), column as int, row as int, *final(cell.unwrap())),
        !in_grid(grid_rows(*old(grid)), column as int, row as int) ==> cell.is_none() && grid_rows(
            *final(grid),
        ) == grid_rows(*old(grid)),
    no_unwind
{
    grid.get_mut(row, column)
}

/// `Array2D::as_rows`: a copy of the cells, one `Vec` for each row. The call
/// panics on a grid that has rows but no columns.
#[verifier::external_body]
pub(crate) fn grid_as_rows(grid: &Array2D<CellInfo>) -> (rows: Vec<Vec<CellInfo>>)
    requires
        grid_rows(*grid).len() == 0 || grid_rows(*grid)[0].len() > 0,
    ensures
        rows@.len() == grid_rows(*grid).len(),
        forall|r: int| 0 <= r < rows@.len() ==> (#[trigger] rows@[r])@ == grid_rows(*grid)[r],
{
    grid.as_rows()
}

} // verus!
