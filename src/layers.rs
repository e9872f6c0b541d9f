//! Facts shared by every layer that a grid yields.

use vstd::prelude::*;
use crate::composite::shaded_layer;
use crate::grid::GridModel;
use crate::mapping::{colored_layer, gray_layer, position_layer};
use crate::pixel::{black, Rgb};
use crate::range::ValueRange;
use crate::relief::kernel_layer;

verus! {

/// Every layer of a well-formed grid has one entry per cell, `columns *
/// rows` in all, and entry `y * columns + x` belongs to the cell at column
/// `x` of row `y`, row 0 first.
pub proof fn lemma_layers_row_major(
    g: GridModel,
    r: ValueRange,
    sampled: Seq<Rgb>,
    colors: Seq<Rgb>,
    shades: Seq<u8>,
    x: int,
    y: int,
)
    requires
        g.wf(),
        sampled.len() == g.cells.len(),
        colors.len() == g.cells.len(),
        shades.len() == g.cells.len(),
        0 <= x < g.columns,
        0 <= y < g.rows,
    ensures
        gray_layer(g, r).len() == g.columns * g.rows,
        position_layer(g, r).len() == g.columns * g.rows,
        kernel_layer(g).len() == g.columns * g.rows,
        colored_layer(g, sampled).len() == g.columns * g.rows,
        shaded_layer(g, colors, shades).len() == g.columns * g.rows,
        gray_layer(g, r)[y * g.columns + x] == crate::mapping::gray_of(g.at(x, y), g.no_data, r),
        position_layer(g, r)[y * g.columns + x] == crate::mapping::color_position_of(
            g.at(x, y),
            g.no_data,
            r,
        ),
        kernel_layer(g)[y * g.columns + x] == (if g.at(x, y) == g.no_data {
            None
        } else {
            Some(crate::relief::kernel_of(crate::relief::neighborhood_of(g, x, y)))
        }),
        colored_layer(g, sampled)[y * g.columns + x] == (if g.at(x, y) == g.no_data {
            black()
        } else {
            sampled[y * g.columns + x]
        }),
        shaded_layer(g, colors, shades)[y * g.columns + x] == crate::composite::shaded_of(
            g.at(x, y),
            g.no_data,
            colors[y * g.columns + x],
            shades[y * g.columns + x],
        ),
{
    let i = y * g.columns + x;
    crate::grid::lemma_cell_index(g.columns as int, g.rows as int, x, y);
    vstd::arithmetic::div_mod::lemma_fundamental_div_mod_converse(i, g.columns as int, y, x);
}

/// A cell that holds the sentinel is 0 in the grayscale layer, has no
/// gradient position and no kernel sums, and is black in the colored and
/// shaded layers, whatever the range, sampled colors and shades.
pub proof fn lemma_no_data_is_black(
    g: GridModel,
    r: ValueRange,
    sampled: Seq<Rgb>,
    colors: Seq<Rgb>,
    shades: Seq<u8>,
    i: int,
)
    requires
        sampled.len() == g.cells.len(),
        colors.len() == g.cells.len(),
        shades.len() == g.cells.len(),
        0 <= i < g.cells.len(),
        g.cells[i] == g.no_data,
    ensures
        gray_layer(g, r)[i] == 0,
        position_layer(g, r)[i] is None,
        kernel_layer(g)[i] is None,
        colored_layer(g, sampled)[i] == black(),
        shaded_layer(g, colors, shades)[i] == black(),
{
}

} // verus!
