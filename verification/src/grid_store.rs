use vstd::prelude::*;

verus! {

#[verifier::external_type_specification]
#[verifier::external_body]
#[verifier::reject_recursive_types(T)]
pub struct ExGrid<T>(grid::Grid<T>);

/// The contents of a grid store, row by row: the outer sequence is indexed
/// by row, each inner sequence holds one optional entity handle per column.
pub uninterp spec fn grid_seq(g: grid::Grid<Option<usize>>) -> Seq<Seq<Option<usize>>>;

/// Relies on grid::Grid::new: a rows x cols grid whose cells all hold the
/// default value (None); when rows or cols is 0 the grid is empty, with no
/// rows and no columns. Panics only when rows * cols overflows.
#[verifier::external_body]
pub(crate) fn grid_new(rows: usize, cols: usize) -> (g: grid::Grid<Option<usize>>)
    requires
        rows * cols <= usize::MAX,
    ensures
        rows == 0 || cols == 0 ==> grid_seq(g).len() == 0,
        rows > 0 && cols > 0 ==> grid_seq(g).len() == rows,
        forall|r: int| 0 <= r < grid_seq(g).len() ==> (#[trigger] grid_seq(g)[r]).len() == cols,
        forall|r: int, c: int|
            0 <= r < grid_seq(g).len() && 0 <= c < grid_seq(g)[r].len() ==> (#[trigger] grid_seq(
                g,
            )[r][c]) is None,
{
    grid::Grid::new(rows, cols)
}

/// Relies on grid::Grid::get: Some of the cell's contents for a coordinate
/// within the grid's rows and columns, None for one beyond them.
#[verifier::external_body]
pub(crate) fn grid_get(g: &grid::Grid<Option<usize>>, row: usize, col: usize) -> (r: Option<
    Option<usize>,
>)
    ensures
        r == (if row < grid_seq(*g).len() && col < grid_seq(*g)[row as int].len() {
            Some(grid_seq(*g)[row as int][col as int])
        } else {
            None::<Option<usize>>
        }),
{
    g.get(row, col).copied()
}

/// Relies on grid::Grid::get_mut: Some of a mutable reference to the cell
/// for a coordinate within the grid, None for one beyond it; the write
/// goes through that reference and touches no other cell.
#[verifier::external_body]
pub(crate) fn grid_set(
    g: &mut grid::Grid<Option<usize>>,
    row: usize,
    col: usize,
    v: Option<usize>,
) -> (ok: bool)
    ensures
        ok == (row < grid_seq(*old(g)).len() && col < grid_seq(*old(g))[row as int].len()),
        ok ==> grid_seq(*final(g)) == grid_seq(*old(g)).update(
            row as int,
            grid_seq(*old(g))[row as int].update(col as int, v),
        ),
        !ok ==> grid_seq(*final(g)) == grid_seq(*old(g)),
{
    match g.get_mut(row, col) {
        Some(cell) => {
            *cell = v;
            true
        },
        None => false,
    }
}

} // verus!
