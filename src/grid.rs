//! Cell numbering and 4-connected neighbourhoods of a regular grid.
use vstd::prelude::*;

verus! {

/// Row and column of a grid cell.
#[derive(Debug, Clone, Copy, PartialEq, Eq, Structural)]
pub struct GridPos {
    pub row: u32,
    pub col: u32,
}

/// Row-major number of cell (`row`, `col`) in a grid with `cols` columns.
pub open spec fn cell_number(row: int, col: int, cols: int) -> int {
    row * cols + col
}

/// The cell's row-major number, or `None` when it does not fit in a `u32`.
pub fn cell_id(row: u32, col: u32, cols: u32) -> (r: Option<u32>)
    ensures
        r is Some <==> cell_number(row as int, col as int, cols as int) <= u32::MAX,
        r matches Some(id) ==> id == cell_number(row as int, col as int, cols as int),
{
    match row.checked_mul(cols) {
        None => {
            proof {
                vstd::arithmetic::mul::lemma_mul_nonnegative(row as int, cols as int);
            }
            None
        },
        Some(base) => base.checked_add(col),
    }
}

/// The in-grid neighbours of (`row`, `col`) in a grid of `rows` by `cols`
/// cells, in the order above, below, left, right.
pub open spec fn neighbours_of(row: int, col: int, rows: int, cols: int) -> Seq<GridPos> {
    let above = if 0 < row && row - 1 < rows && col < cols {
        seq![GridPos { row: (row - 1) as u32, col: col as u32 }]
    } else {
        Seq::empty()
    };
    let below = if row + 1 < rows && col < cols {
        seq![GridPos { row: (row + 1) as u32, col: col as u32 }]
    } else {
        Seq::empty()
    };
    let left = if row < rows && 0 < col && col - 1 < cols {
        seq![GridPos { row: row as u32, col: (col - 1) as u32 }]
    } else {
        Seq::empty()
    };
    let right = if row < rows && col + 1 < cols {
        seq![GridPos { row: row as u32, col: (col + 1) as u32 }]
    } else {
        Seq::empty()
    };
    above + below + left + right
}

/// The 4-connected neighbours of a cell that lie inside the grid.
pub fn neighbour_positions(row: u32, col: u32, rows: u32, cols: u32) -> (r: Vec<GridPos>)
    ensures
        r@ == neighbours_of(row as int, col as int, rows as int, cols as int),
{
    let mut r: Vec<GridPos> = Vec::new();
    if 0 < row && row - 1 < rows && col < cols {
        r.push(GridPos { row: row - 1, col });
    }
    if rows > 0 && row < rows - 1 && col < cols {
        r.push(GridPos { row: row + 1, col });
    }
    if row < rows && 0 < col && col - 1 < cols {
        r.push(GridPos { row, col: col - 1 });
    }
    if row < rows && cols > 0 && col < cols - 1 {
        r.push(GridPos { row, col: col + 1 });
    }
    let ghost s = neighbours_of(row as int, col as int, rows as int, cols as int);
    assert(r@ =~= s);
    r
}

} // verus!
