//! The integer part of Horn's hillshade method: sampling the 3x3
//! neighborhood of a cell and forming the two weighted differences from
//! which slope and aspect follow.

use vstd::prelude::*;
use crate::grid::{ElevationGrid, GridModel};

verus! {

/// The sample at offset `(dx, dy)` from cell `(x, y)`; the sentinel where
/// that lies outside the grid. Negative `dy` is north.
pub open spec fn neighbor_of(g: GridModel, x: int, y: int, dx: int, dy: int) -> i64 {
    let nx = x + dx;
    let ny = y + dy;
    if 0 <= nx < g.columns && 0 <= ny < g.rows {
        g.at(nx, ny)
    } else {
        g.no_data
    }
}

/// The 3x3 block of samples around a cell, by compass direction; north is
/// the row above.
#[derive(Debug, Clone, Copy, PartialEq, Eq, Structural)]
pub struct Neighborhood {
    pub nw: i64,
    pub n: i64,
    pub ne: i64,
    pub w: i64,
    pub c: i64,
    pub e: i64,
    pub sw: i64,
    pub s: i64,
    pub se: i64,
}

/// Horn's weighted differences, in millionths of a unit:
/// `dzdx = x / (8 * cell_size) * z_factor` and
/// `dzdy = y / (8 * cell_size) * z_factor`.
#[derive(Debug, Clone, Copy, PartialEq, Eq, Structural)]
pub struct KernelSums {
    pub x: i128,
    pub y: i128,
}

/// The neighborhood of cell `(x, y)`.
pub open spec fn neighborhood_of(g: GridModel, x: int, y: int) -> Neighborhood {
    Neighborhood {
        nw: neighbor_of(g, x, y, -1, -1),
        n: neighbor_of(g, x, y, 0, -1),
        ne: neighbor_of(g, x, y, 1, -1),
        w: neighbor_of(g, x, y, -1, 0),
        c: neighbor_of(g, x, y, 0, 0),
        e: neighbor_of(g, x, y, 1, 0),
        sw: neighbor_of(g, x, y, -1, 1),
        s: neighbor_of(g, x, y, 0, 1),
        se: neighbor_of(g, x, y, 1, 1),
    }
}

/// East column minus west column, and south row minus north row, each with
/// weights 1, 2, 1.
pub open spec fn kernel_of(nb: Neighborhood) -> KernelSums {
    KernelSums {
        x: ((nb.ne + 2 * nb.e + nb.se) - (nb.nw + 2 * nb.w + nb.sw)) as i128,
        y: ((nb.sw + 2 * nb.s + nb.se) - (nb.nw + 2 * nb.n + nb.ne)) as i128,
    }
}

/// The kernel sums of cell `i` in row-major order; none for the sentinel,
/// whose cell is not shaded.
pub open spec fn kernel_layer(g: GridModel) -> Seq<Option<KernelSums>> {
    Seq::new(
        g.cells.len(),
        |i: int|
            if g.cells[i] == g.no_data {
                None
            } else {
                Some(kernel_of(neighborhood_of(g, i % (g.columns as int), i / (g.columns as int))))
            },
    )
}

/// The sample at offset `(dx, dy)` from cell `(x, y)`, or the sentinel.
pub fn neighbor(grid: &ElevationGrid, x: usize, y: usize, dx: isize, dy: isize) -> (v: i64)
    requires
        grid.wf(),
    ensures
        v == neighbor_of(grid@, x as int, y as int, dx as int, dy as int),
{
    let nx = x as i128 + dx as i128;
    let ny = y as i128 + dy as i128;
    if 0 <= nx && nx < grid.columns as i128 && 0 <= ny && ny < grid.rows as i128 {
        grid.value_at(nx as usize, ny as usize)
    } else {
        grid.no_data
    }
}

/// The 3x3 block around cell `(x, y)`.
pub fn neighborhood(grid: &ElevationGrid, x: usize, y: usize) -> (nb: Neighborhood)
    requires
        grid.wf(),
    ensures
        nb == neighborhood_of(grid@, x as int, y as int),
{
    Neighborhood {
        nw: neighbor(grid, x, y, -1, -1),
        n: neighbor(grid, x, y, 0, -1),
        ne: neighbor(grid, x, y, 1, -1),
        w: neighbor(grid, x, y, -1, 0),
        c: neighbor(grid, x, y, 0, 0),
        e: neighbor(grid, x, y, 1, 0),
        sw: neighbor(grid, x, y, -1, 1),
        s: neighbor(grid, x, y, 0, 1),
        se: neighbor(grid, x, y, 1, 1),
    }
}

/// Horn's weighted differences of a neighborhood.
pub fn kernel_sums(nb: &Neighborhood) -> (k: KernelSums)
    ensures
        k == kernel_of(*nb),
{
    let x = (nb.ne as i128 + 2 * nb.e as i128 + nb.se as i128) - (nb.nw as i128 + 2
        * nb.w as i128 + nb.sw as i128);
    let y = (nb.sw as i128 + 2 * nb.s as i128 + nb.se as i128) - (nb.nw as i128 + 2
        * nb.n as i128 + nb.ne as i128);
    KernelSums { x, y }
}

/// The kernel sums of every cell, in the grid's order; none for cells
/// holding the sentinel.
pub fn kernel_sums_layer(grid: &ElevationGrid) -> (ks: Vec<Option<KernelSums>>)
    requires
        grid.wf(),
    ensures
        ks@ == kernel_layer(grid@),
{
    let ghost want = kernel_layer(grid@);
    let columns = grid.columns;
    let mut ks: Vec<Option<KernelSums>> = Vec::new();
    let mut i: usize = 0;
    while i < grid.cells.len()
        invariant
            grid.wf(),
            columns == grid.columns,
            i <= grid.cells.len(),
            want == kernel_layer(grid@),
            ks@ == want.take(i as int),
        decreases grid.cells.len() - i,
    {
        let x = i % columns;
        let y = i / columns;
        proof {
            assert(y < grid.rows) by (nonlinear_arith)
                requires
                    i < columns * grid.rows,
                    y == i / columns,
                    columns > 0,
            ;
        }
        let k = if grid.cells[i] == grid.no_data {
            None
        } else {
            Some(kernel_sums(&neighborhood(grid, x, y)))
        };
        ks.push(k);
        assert(want.take(i + 1) =~= want.take(i as int).push(k));
        i = i + 1;
    }
    assert(want.take(i as int) =~= want);
    ks
}

} // verus!

verus! {

/// On a grid where every cell holds `h`, every cell whose eight neighbors
/// lie inside the grid has zero kernel sums: slope 0 and the same aspect,
/// so all such cells get one and the same shade. Cells on the border see
/// the sentinel beyond the edge and are not covered.
pub proof fn lemma_flat_interior(g: GridModel, h: i64, x: int, y: int)
    requires
        g.wf(),
        forall|i: int| 0 <= i < g.cells.len() ==> #[trigger] g.cells[i] == h,
        1 <= x < g.columns - 1,
        1 <= y < g.rows - 1,
    ensures
        kernel_of(neighborhood_of(g, x, y)) == (KernelSums { x: 0, y: 0 }),
{
    assert forall|dx: int, dy: int| -1 <= dx <= 1 && -1 <= dy <= 1 implies neighbor_of(
        g,
        x,
        y,
        dx,
        dy,
    ) == h by {
        crate::grid::lemma_cell_index(g.columns as int, g.rows as int, x + dx, y + dy);
    }
    let nb = neighborhood_of(g, x, y);
    assert(nb.ne == h && nb.e == h && nb.se == h);
    assert(nb.nw == h && nb.w == h && nb.sw == h);
    assert(nb.n == h && nb.s == h);
}

} // verus!
