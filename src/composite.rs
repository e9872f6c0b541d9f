//! Darkening a color layer by a shade layer.

use vstd::prelude::*;
use crate::grid::{ElevationGrid, GridModel};
use crate::pixel::{black, Rgb};

verus! {

/// `round(c * (1 - shade / 255))`, halves rounded up.
pub open spec fn darken_of(c: u8, shade: u8) -> u8 {
    ((2 * c * (255 - shade) + 255) / 510) as u8
}

/// Each channel of `base` darkened by `shade`.
pub open spec fn composite_of(base: Rgb, shade: u8) -> Rgb {
    Rgb { r: darken_of(base.r, shade), g: darken_of(base.g, shade), b: darken_of(base.b, shade) }
}

/// The shaded pixel of a cell: black for the sentinel.
pub open spec fn shaded_of(v: i64, no_data: i64, base: Rgb, shade: u8) -> Rgb {
    if v == no_data {
        black()
    } else {
        composite_of(base, shade)
    }
}

/// The shaded layer: one pixel per cell, in the grid's order.
pub open spec fn shaded_layer(g: GridModel, colors: Seq<Rgb>, shades: Seq<u8>) -> Seq<Rgb> {
    Seq::new(g.cells.len(), |i: int| shaded_of(g.cells[i], g.no_data, colors[i], shades[i]))
}

/// One channel darkened by a shade intensity.
pub fn darken(c: u8, shade: u8) -> (d: u8)
    ensures
        d == darken_of(c, shade),
        d <= c,
{
    let c2 = c as u32;
    let s2 = shade as u32;
    assert(2 * c2 * (255 - s2) <= 2 * 255 * 255) by (nonlinear_arith)
        requires
            c2 <= 255,
            s2 <= 255,
    ;
    assert((2 * c2 * (255 - s2) + 255) / 510 <= c2) by (nonlinear_arith)
        requires
            c2 <= 255,
            s2 <= 255,
    ;
    ((2 * c2 * (255 - s2) + 255) / 510) as u8
}

/// A base color darkened in proportion to how little light its cell
/// receives.
pub fn composite(base: Rgb, shade: u8) -> (p: Rgb)
    ensures
        p == composite_of(base, shade),
{
    Rgb { r: darken(base.r, shade), g: darken(base.g, shade), b: darken(base.b, shade) }
}

/// Composites a color layer and a shade layer of a grid; cells holding the
/// sentinel are black.
pub fn composite_layer(grid: &ElevationGrid, colors: &Vec<Rgb>, shades: &Vec<u8>) -> (px: Vec<Rgb>)
    requires
        colors.len() == grid.cells.len(),
        shades.len() == grid.cells.len(),
    ensures
        px@ == shaded_layer(grid@, colors@, shades@),
{
    let ghost want = shaded_layer(grid@, colors@, shades@);
    let mut px: Vec<Rgb> = Vec::new();
    let mut i: usize = 0;
    while i < grid.cells.len()
        invariant
            colors.len() == grid.cells.len(),
            shades.len() == grid.cells.len(),
            i <= grid.cells.len(),
            want == shaded_layer(grid@, colors@, shades@),
            px@ == want.take(i as int),
        decreases grid.cells.len() - i,
    {
        let p = if grid.cells[i] == grid.no_data {
            Rgb { r: 0, g: 0, b: 0 }
        } else {
            composite(colors[i], shades[i])
        };
        px.push(p);
        assert(want.take(i + 1) =~= want.take(i as int).push(p));
        i = i + 1;
    }
    assert(want.take(i as int) =~= want);
    px
}

/// More shade never brightens a channel; no shade keeps the base color and
/// full shade gives black.
pub proof fn lemma_composite_monotone(base: Rgb, s1: u8, s2: u8)
    requires
        s1 <= s2,
    ensures
        composite_of(base, s2).r <= composite_of(base, s1).r,
        composite_of(base, s2).g <= composite_of(base, s1).g,
        composite_of(base, s2).b <= composite_of(base, s1).b,
        composite_of(base, 0) == base,
        composite_of(base, 255) == black(),
{
    lemma_darken_monotone(base.r, s1, s2);
    lemma_darken_monotone(base.g, s1, s2);
    lemma_darken_monotone(base.b, s1, s2);
}

proof fn lemma_darken_monotone(c: u8, s1: u8, s2: u8)
    requires
        s1 <= s2,
    ensures
        darken_of(c, s2) <= darken_of(c, s1),
        darken_of(c, 0) == c,
        darken_of(c, 255) == 0,
{
    let a = 2 * (c as int) * (255 - s2 as int) + 255;
    let b = 2 * (c as int) * (255 - s1 as int) + 255;
    assert(a <= b) by (nonlinear_arith)
        requires
            a == 2 * (c as int) * (255 - s2 as int) + 255,
            b == 2 * (c as int) * (255 - s1 as int) + 255,
            s1 <= s2,
            c >= 0,
    ;
    assert(a / 510 <= b / 510) by (nonlinear_arith)
        requires
            a <= b,
            0 <= a,
    ;
    assert(b <= 2 * 255 * 255 + 255) by (nonlinear_arith)
        requires
            b == 2 * (c as int) * (255 - s1 as int) + 255,
            0 <= c <= 255,
            0 <= s1 <= 255,
    ;
    assert(a >= 0) by (nonlinear_arith)
        requires
            a == 2 * (c as int) * (255 - s2 as int) + 255,
            0 <= c,
            s2 <= 255,
    ;
    assert((2 * (c as int) * 255 + 255) / 510 == c as int) by (nonlinear_arith)
        requires
            0 <= c <= 255,
    ;
}

} // verus!
