//! Scaling samples into [0, 1] by the grid's range, and the grayscale and
//! color-position layers built from that.

use vstd::prelude::*;
use crate::grid::{ElevationGrid, GridError, GridModel};
use crate::pixel::{black, black_pixel, Rgb};
use crate::range::{has_samples, is_range_of, value_range, ValueRange};

verus! {

/// A position `num / den` in [0, 1] along a gradient: `den > 0` and
/// `num <= den`.
#[derive(Debug, Clone, Copy, PartialEq, Eq, Structural)]
pub struct Position {
    pub num: u64,
    pub den: u64,
}

/// Where `v` falls in `r`: `(v - min) / (max - min)` clamped to [0, 1];
/// 0 where the range is a single value.
pub open spec fn position_of(v: i64, r: ValueRange) -> Position {
    let den = (r.max - r.min) as u64;
    if r.max <= r.min {
        Position { num: 0, den: 1 }
    } else if v <= r.min {
        Position { num: 0, den }
    } else if v >= r.max {
        Position { num: den, den }
    } else {
        Position { num: (v - r.min) as u64, den }
    }
}

/// `round(t * 255)` for `t = num / den`, halves rounded up.
pub open spec fn level_of(p: Position) -> u8 {
    ((510 * p.num + p.den) / (2 * p.den)) as u8
}

/// The grayscale intensity of a cell: 0 for the sentinel.
pub open spec fn gray_of(v: i64, no_data: i64, r: ValueRange) -> u8 {
    if v == no_data {
        0
    } else {
        level_of(position_of(v, r))
    }
}

/// The gradient position of a cell: none for the sentinel.
pub open spec fn color_position_of(v: i64, no_data: i64, r: ValueRange) -> Option<Position> {
    if v == no_data {
        None
    } else {
        Some(position_of(v, r))
    }
}

/// The grayscale layer: one intensity per cell, in the grid's order.
pub open spec fn gray_layer(g: GridModel, r: ValueRange) -> Seq<u8> {
    g.cells.map_values(|v: i64| gray_of(v, g.no_data, r))
}

/// The color-position layer: one position per cell, in the grid's order.
pub open spec fn position_layer(g: GridModel, r: ValueRange) -> Seq<Option<Position>> {
    g.cells.map_values(|v: i64| color_position_of(v, g.no_data, r))
}

pub fn position(v: i64, r: ValueRange) -> (p: Position)
    ensures
        p == position_of(v, r),
        0 < p.den,
        p.num <= p.den,
{
    if r.max <= r.min {
        Position { num: 0, den: 1 }
    } else {
        let den = (r.max as i128 - r.min as i128) as u64;
        if v <= r.min {
            Position { num: 0, den }
        } else if v >= r.max {
            Position { num: den, den }
        } else {
            Position { num: (v as i128 - r.min as i128) as u64, den }
        }
    }
}

/// The 8-bit intensity of a position: `round(t * 255)`.
pub fn level(p: Position) -> (l: u8)
    requires
        0 < p.den,
        p.num <= p.den,
    ensures
        l == level_of(p),
{
    let num = p.num as u128;
    let den = p.den as u128;
    assert((510 * num + den) / (2 * den) <= 255) by (nonlinear_arith)
        requires
            0 < den,
            num <= den,
    ;
    ((510 * num + den) / (2 * den)) as u8
}

/// The grayscale intensity of one sample.
pub fn gray_value(v: i64, no_data: i64, r: ValueRange) -> (l: u8)
    ensures
        l == gray_of(v, no_data, r),
{
    if v == no_data {
        0
    } else {
        level(position(v, r))
    }
}

/// One intensity per cell, in the grid's order.
pub fn grayscale_layer(grid: &ElevationGrid, r: ValueRange) -> (px: Vec<u8>)
    ensures
        px@ == gray_layer(grid@, r),
{
    let ghost want = gray_layer(grid@, r);
    let mut px: Vec<u8> = Vec::new();
    let mut i: usize = 0;
    while i < grid.cells.len()
        invariant
            i <= grid.cells.len(),
            want == gray_layer(grid@, r),
            px@ == want.take(i as int),
        decreases grid.cells.len() - i,
    {
        let l = gray_value(grid.cells[i], grid.no_data, r);
        px.push(l);
        assert(want.take(i + 1) =~= want.take(i as int).push(l));
        i = i + 1;
    }
    assert(want.take(i as int) =~= want);
    px
}

/// One gradient position per cell, in the grid's order; none for the
/// sentinel.
pub fn color_positions(grid: &ElevationGrid, r: ValueRange) -> (ps: Vec<Option<Position>>)
    ensures
        ps@ == position_layer(grid@, r),
{
    let ghost want = position_layer(grid@, r);
    let mut ps: Vec<Option<Position>> = Vec::new();
    let mut i: usize = 0;
    while i < grid.cells.len()
        invariant
            i <= grid.cells.len(),
            want == position_layer(grid@, r),
            ps@ == want.take(i as int),
        decreases grid.cells.len() - i,
    {
        let v = grid.cells[i];
        let p = if v == grid.no_data {
            None
        } else {
            Some(position(v, r))
        };
        ps.push(p);
        assert(want.take(i + 1) =~= want.take(i as int).push(p));
        i = i + 1;
    }
    assert(want.take(i as int) =~= want);
    ps
}

/// The grayscale layer of a grid, scaled by the range of its samples; an
/// error where it has none.
pub fn render_grayscale(grid: &ElevationGrid) -> (r: Result<Vec<u8>, GridError>)
    ensures
        r is Ok <==> has_samples(grid@),
        r matches Err(e) ==> e == GridError::EmptyRange,
        r matches Ok(px) ==> px@.len() == grid.cells@.len() && (exists|v: ValueRange|
            is_range_of(grid@, v)) && forall|v: ValueRange| is_range_of(grid@, v) ==> px@
            == gray_layer(grid@, v),
{
    match value_range(grid) {
        Ok(range) => {
            let px = grayscale_layer(grid, range);
            proof {
                assert forall|v: ValueRange| is_range_of(grid@, v) implies px@ == gray_layer(
                    grid@,
                    v,
                ) by {
                    crate::range::lemma_range_unique(grid@, range, v);
                }
                assert(is_range_of(grid@, range));
            }
            Ok(px)
        },
        Err(e) => Err(e),
    }
}

/// The colored layer: black for the sentinel, else the color sampled for
/// the cell.
pub open spec fn colored_layer(g: GridModel, sampled: Seq<Rgb>) -> Seq<Rgb> {
    Seq::new(
        g.cells.len(),
        |i: int|
            if g.cells[i] == g.no_data {
                black()
            } else {
                sampled[i]
            },
    )
}

/// Puts together the colored layer from the colors sampled at each cell's
/// gradient position; cells holding the sentinel are black whatever was
/// sampled for them.
pub fn color_layer(grid: &ElevationGrid, sampled: &Vec<Rgb>) -> (px: Vec<Rgb>)
    requires
        sampled.len() == grid.cells.len(),
    ensures
        px@ == colored_layer(grid@, sampled@),
{
    let ghost want = colored_layer(grid@, sampled@);
    let mut px: Vec<Rgb> = Vec::new();
    let mut i: usize = 0;
    while i < grid.cells.len()
        invariant
            sampled.len() == grid.cells.len(),
            i <= grid.cells.len(),
            want == colored_layer(grid@, sampled@),
            px@ == want.take(i as int),
        decreases grid.cells.len() - i,
    {
        let p = if grid.cells[i] == grid.no_data {
            black_pixel()
        } else {
            sampled[i]
        };
        px.push(p);
        assert(want.take(i + 1) =~= want.take(i as int).push(p));
        i = i + 1;
    }
    assert(want.take(i as int) =~= want);
    px
}

/// The color of an intensity on a red-to-green ramp: red follows the
/// intensity, green its complement, blue half of it.
pub open spec fn ramp_color(l: u8) -> Rgb {
    Rgb { r: l, g: (255 - l) as u8, b: (l / 2) as u8 }
}

/// Colors a grayscale layer on the red-to-green ramp, pixel by pixel.
pub fn gray_to_color_gradient(gray: &Vec<u8>) -> (px: Vec<Rgb>)
    ensures
        px@ == gray@.map_values(|l: u8| ramp_color(l)),
{
    let ghost want = gray@.map_values(|l: u8| ramp_color(l));
    let mut px: Vec<Rgb> = Vec::new();
    let mut i: usize = 0;
    while i < gray.len()
        invariant
            i <= gray.len(),
            want == gray@.map_values(|l: u8| ramp_color(l)),
            px@ == want.take(i as int),
        decreases gray.len() - i,
    {
        let l = gray[i];
        let c = Rgb { r: l, g: 255 - l, b: l / 2 };
        px.push(c);
        assert(want.take(i + 1) =~= want.take(i as int).push(c));
        i = i + 1;
    }
    assert(want.take(i as int) =~= want);
    px
}

} // verus!

verus! {

/// In a grid with two distinct samples, a cell holding the least sample
/// sits at the start of the gradient (intensity 0) and one holding the
/// greatest at its end (intensity 255).
pub proof fn lemma_range_ends(g: GridModel, r: ValueRange, i: int, j: int, k: int)
    requires
        is_range_of(g, r),
        crate::range::is_sample(g, i),
        crate::range::is_sample(g, j),
        g.cells[i] != g.cells[j],
        0 <= k < g.cells.len(),
    ensures
        g.cells[k] == r.min ==> position_of(g.cells[k], r).num == 0 && gray_layer(g, r)[k] == 0,
        g.cells[k] == r.max ==> position_of(g.cells[k], r).num == position_of(g.cells[k], r).den
            && gray_layer(g, r)[k] == 255,
{
    assert(r.min < r.max) by {
        assert(r.min <= g.cells[i] <= r.max);
        assert(r.min <= g.cells[j] <= r.max);
    }
    if g.cells[k] == r.max {
        let d = (r.max - r.min) as u64 as int;
        assert(d > 0);
        assert((510 * d + d) / (2 * d) == 255) by (nonlinear_arith)
            requires
                d > 0,
        ;
    }
    if g.cells[k] == r.min {
        let d = (r.max - r.min) as u64 as int;
        assert(d / (2 * d) == 0) by (nonlinear_arith)
            requires
                d > 0,
        ;
    }
}

/// In a grid whose samples are all equal, every sample sits at the start of
/// the gradient, with intensity 0.
pub proof fn lemma_single_value_range(g: GridModel, r: ValueRange, k: int)
    requires
        is_range_of(g, r),
        forall|i: int, j: int|
            crate::range::is_sample(g, i) && crate::range::is_sample(g, j) ==> g.cells[i]
                == g.cells[j],
        crate::range::is_sample(g, k),
    ensures
        position_of(g.cells[k], r) == (Position { num: 0, den: 1 }),
        gray_layer(g, r)[k] == 0,
{
    let i = choose|i: int| crate::range::is_sample(g, i) && g.cells[i] == r.min;
    let j = choose|j: int| crate::range::is_sample(g, j) && g.cells[j] == r.max;
    assert(g.cells[i] == g.cells[j]);
    let p = Position { num: 0, den: 1 };
    assert((510 * p.num + p.den) / (2 * p.den) == 0) by (nonlinear_arith)
        requires
            p.num == 0,
            p.den == 1,
    ;
    assert(gray_layer(g, r)[k] == gray_of(g.cells[k], g.no_data, r));
}

} // verus!
