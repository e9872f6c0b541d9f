use elevation_raster::composite::{composite, composite_layer, darken};
use elevation_raster::grid::{parse_grid, ElevationGrid, GridError};
use elevation_raster::mapping::{
    color_layer, color_positions, gray_to_color_gradient, gray_value, grayscale_layer, level, position,
    render_grayscale, Position,
};
use elevation_raster::pixel::{black_pixel, Rgb};
use elevation_raster::range::{value_range, ValueRange};
use elevation_raster::relief::{kernel_sums, kernel_sums_layer, neighbor, neighborhood, KernelSums, Neighborhood};

#[test]
fn end_to_end_grayscale() {
    let g = parse_grid("ncols 2\nnrows 2\nnodata_value -9999\n10 20\n-9999 30\n").unwrap();
    assert_eq!(value_range(&g), Ok(ValueRange { min: 10_000_000, max: 30_000_000 }));
    assert_eq!(render_grayscale(&g).unwrap(), vec![0, 128, 0, 255]);
}

#[test]
fn all_sentinel_grid_has_no_range() {
    let g = ElevationGrid::from_cells(2, 1, -5, vec![-5, -5]).unwrap();
    assert_eq!(value_range(&g), Err(GridError::EmptyRange));
    assert_eq!(render_grayscale(&g), Err(GridError::EmptyRange));
}

#[test]
fn range_skips_sentinel() {
    let g = ElevationGrid::from_cells(3, 1, 0, vec![0, 7, -3]).unwrap();
    assert_eq!(value_range(&g), Ok(ValueRange { min: -3, max: 7 }));
}

#[test]
fn range_ends_map_to_gradient_ends() {
    let g = ElevationGrid::from_cells(3, 1, -1, vec![5, 9, 13]).unwrap();
    let r = value_range(&g).unwrap();
    let ps = color_positions(&g, r);
    assert_eq!(ps, vec![Some(Position { num: 0, den: 8 }), Some(Position { num: 4, den: 8 }), Some(Position { num: 8, den: 8 })]);
    assert_eq!(grayscale_layer(&g, r), vec![0, 128, 255]);
}

#[test]
fn single_value_grid_maps_to_zero() {
    let g = ElevationGrid::from_cells(2, 2, -1, vec![4, 4, -1, 4]).unwrap();
    let r = value_range(&g).unwrap();
    assert_eq!(r, ValueRange { min: 4, max: 4 });
    assert_eq!(grayscale_layer(&g, r), vec![0, 0, 0, 0]);
    assert_eq!(color_positions(&g, r), vec![Some(Position { num: 0, den: 1 }), Some(Position { num: 0, den: 1 }), None, Some(Position { num: 0, den: 1 })]);
}

#[test]
fn positions_clamp_outside_the_range() {
    let r = ValueRange { min: 10, max: 20 };
    assert_eq!(position(5, r), Position { num: 0, den: 10 });
    assert_eq!(position(25, r), Position { num: 10, den: 10 });
    assert_eq!(position(13, r), Position { num: 3, den: 10 });
    assert_eq!(position(i64::MAX, ValueRange { min: i64::MIN, max: i64::MAX }), Position { num: u64::MAX, den: u64::MAX });
}

#[test]
fn levels_round_half_up() {
    assert_eq!(level(Position { num: 1, den: 2 }), 128);
    assert_eq!(level(Position { num: 1, den: 3 }), 85);
    assert_eq!(level(Position { num: 0, den: 1 }), 0);
    assert_eq!(level(Position { num: 7, den: 7 }), 255);
    assert_eq!(level(Position { num: 1, den: 510 }), 1);
    assert_eq!(level(Position { num: 1, den: 511 }), 0);
}

#[test]
fn sentinel_is_zero_everywhere() {
    let r = ValueRange { min: -100, max: 100 };
    assert_eq!(gray_value(-9, -9, r), 0);
    let g = ElevationGrid::from_cells(3, 1, -9, vec![-9, 1, 2]).unwrap();
    let r = value_range(&g).unwrap();
    assert_eq!(grayscale_layer(&g, r)[0], 0);
    assert_eq!(color_positions(&g, r)[0], None);
    assert_eq!(kernel_sums_layer(&g)[0], None);
    let white = Rgb { r: 255, g: 255, b: 255 };
    let px = composite_layer(&g, &vec![white; 3], &vec![0; 3]);
    assert_eq!(px, vec![black_pixel(), white, white]);
}

#[test]
fn layers_have_one_entry_per_cell() {
    let g = parse_grid("ncols 3\nnrows 2\n1 2 3\n4 5 6\n").unwrap();
    let r = value_range(&g).unwrap();
    assert_eq!(grayscale_layer(&g, r).len(), 6);
    assert_eq!(color_positions(&g, r).len(), 6);
    assert_eq!(kernel_sums_layer(&g).len(), 6);
    assert_eq!(grayscale_layer(&g, r), vec![0, 51, 102, 153, 204, 255]);
}

#[test]
fn composite_extremes_and_monotonicity() {
    let base = Rgb { r: 200, g: 100, b: 1 };
    assert_eq!(composite(base, 0), base);
    assert_eq!(composite(base, 255), Rgb { r: 0, g: 0, b: 0 });
    assert_eq!(composite(base, 128), Rgb { r: 100, g: 50, b: 0 });
    let mut last = base;
    for s in 0..=255u8 {
        let p = composite(base, s);
        assert!(p.r <= last.r && p.g <= last.g && p.b <= last.b);
        last = p;
    }
}

#[test]
fn darken_rounds() {
    assert_eq!(darken(255, 1), 254);
    assert_eq!(darken(1, 127), 1);
    assert_eq!(darken(1, 128), 0);
    assert_eq!(darken(3, 85), 2);
}

#[test]
fn kernel_of_literal_neighborhood() {
    let nb = Neighborhood { nw: 1, n: 2, ne: 3, w: 4, c: 5, e: 6, sw: 7, s: 8, se: 9 };
    assert_eq!(kernel_sums(&nb), KernelSums { x: 8, y: 24 });
}

#[test]
fn flat_interior_has_zero_kernel() {
    let g = ElevationGrid::from_cells(3, 3, -9999, vec![50; 9]).unwrap();
    assert_eq!(kernel_sums(&neighborhood(&g, 1, 1)), KernelSums { x: 0, y: 0 });
    let ks = kernel_sums_layer(&g);
    assert_eq!(ks[4], Some(KernelSums { x: 0, y: 0 }));
    // The corner sees the sentinel beyond the edge.
    assert_eq!(ks[0], Some(KernelSums { x: 3 * (50 + 9999), y: 3 * (50 + 9999) }));
}

#[test]
fn neighbors_outside_are_the_sentinel() {
    let g = ElevationGrid::from_cells(2, 2, -1, vec![1, 2, 3, 4]).unwrap();
    assert_eq!(neighbor(&g, 0, 0, -1, 0), -1);
    assert_eq!(neighbor(&g, 0, 0, 0, -1), -1);
    assert_eq!(neighbor(&g, 1, 1, 1, 0), -1);
    assert_eq!(neighbor(&g, 0, 0, 1, 1), 4);
    assert_eq!(neighbor(&g, 1, 0, -1, 1), 3);
    let nb = neighborhood(&g, 0, 0);
    assert_eq!(nb, Neighborhood { nw: -1, n: -1, ne: -1, w: -1, c: 1, e: 2, sw: -1, s: 3, se: 4 });
}

#[test]
fn ramp_colors() {
    assert_eq!(
        gray_to_color_gradient(&vec![0, 255, 100]),
        vec![Rgb { r: 0, g: 255, b: 0 }, Rgb { r: 255, g: 0, b: 127 }, Rgb { r: 100, g: 155, b: 50 }]
    );
}

#[test]
fn color_layer_blacks_out_sentinel() {
    let g = ElevationGrid::from_cells(3, 1, -9, vec![-9, 1, 2]).unwrap();
    let red = Rgb { r: 255, g: 0, b: 0 };
    assert_eq!(color_layer(&g, &vec![red; 3]), vec![black_pixel(), red, red]);
}

#[test]
fn grayscale_has_one_pixel_per_cell() {
    let g = parse_grid("ncols 4\nnrows 2\n1 2 3 4\n5 6 7 -99999\n").unwrap();
    let px = render_grayscale(&g).unwrap();
    assert_eq!(px.len(), 8);
    assert_eq!(px[7], 0);
    assert_eq!(px[6], 255);
}
