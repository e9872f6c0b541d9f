use elevation_raster::grid::{parse_grid, ElevationGrid, GridError, DEFAULT_NO_DATA};
use elevation_raster::number::{parse_count, parse_fixed};

fn chars(s: &str) -> Vec<char> {
    s.chars().collect()
}

#[test]
fn end_to_end_header_and_rows() {
    let g = parse_grid("ncols 2\nnrows 2\nnodata_value -9999\n10 20\n-9999 30\n").unwrap();
    assert_eq!(g.columns, 2);
    assert_eq!(g.rows, 2);
    assert_eq!(g.no_data, -9_999_000_000);
    assert_eq!(g.cells, vec![10_000_000, 20_000_000, -9_999_000_000, 30_000_000]);
}

#[test]
fn row_mismatch_recovery() {
    // The short row is skipped; the two rows of three make up the grid.
    let g = parse_grid("ncols 3\nnrows 2\n1 2 3\n4 5\n6 7 8\n").unwrap();
    assert_eq!(g.cells, vec![1_000_000, 2_000_000, 3_000_000, 6_000_000, 7_000_000, 8_000_000]);
    // Skipped rows do not count toward the declared number.
    let r = parse_grid("ncols 3\nnrows 3\n1 2 3\n4 5\n6 7 8\n");
    assert_eq!(r.err(), Some(GridError::RowCountMismatch { declared: 3, collected: 2 }));
    let r = parse_grid("ncols 3\nnrows 2\n1 2 3\n4 5\n");
    assert_eq!(r.err(), Some(GridError::RowCountMismatch { declared: 2, collected: 1 }));
}

#[test]
fn header_keys_ignore_case_and_order() {
    let text = "NRows 1\nNCOLS 3\nXllCorner 100.5\nyllcorner -20\nCELLSIZE 30\nNODATA_value -1\n1 -1 3\n";
    let g = parse_grid(text).unwrap();
    assert_eq!(g.columns, 3);
    assert_eq!(g.rows, 1);
    assert_eq!(g.no_data, -1_000_000);
    assert_eq!(g.x_ll_corner, Some(100_500_000));
    assert_eq!(g.y_ll_corner, Some(-20_000_000));
    assert_eq!(g.cell_size, Some(30_000_000));
    assert_eq!(g.cells, vec![1_000_000, -1_000_000, 3_000_000]);
}

#[test]
fn default_sentinel_and_bad_tokens() {
    let g = parse_grid("ncols 3\nnrows 1\n1 abc 2.5\n").unwrap();
    assert_eq!(g.no_data, DEFAULT_NO_DATA);
    assert_eq!(g.cells, vec![1_000_000, DEFAULT_NO_DATA, 2_500_000]);
}

#[test]
fn unparsable_sentinel_falls_back_to_default() {
    let g = parse_grid("ncols 1\nnrows 1\nnodata_value none\nx\n").unwrap();
    assert_eq!(g.no_data, -99_999_000_000);
    assert_eq!(g.cells, vec![-99_999_000_000]);
}

#[test]
fn blank_lines_and_crlf_are_ignored() {
    let g = parse_grid("ncols 2\r\n\r\nnrows 1\r\n\n   \n 4\t5 \r\n\n").unwrap();
    assert_eq!(g.cells, vec![4_000_000, 5_000_000]);
}

#[test]
fn last_line_without_newline() {
    let g = parse_grid("ncols 1\nnrows 2\n7\n8").unwrap();
    assert_eq!(g.cells, vec![7_000_000, 8_000_000]);
}

#[test]
fn header_key_after_data_is_a_row() {
    let g = parse_grid("ncols 2\nnrows 2\n1 2\nnrows 5\n").unwrap();
    assert_eq!(g.rows, 2);
    assert_eq!(g.cells, vec![1_000_000, 2_000_000, DEFAULT_NO_DATA, 5_000_000]);
}

#[test]
fn missing_or_bad_dimensions_are_format_errors() {
    assert_eq!(parse_grid("nrows 1\n1 2\n").err(), Some(GridError::Format));
    assert_eq!(parse_grid("ncols two\nnrows 1\n1 2\n").err(), Some(GridError::Format));
    assert_eq!(parse_grid("ncols 2\nnrows 0\n").err(), Some(GridError::Format));
    assert_eq!(parse_grid("ncols\nnrows 1\n1\n").err(), Some(GridError::Format));
    assert_eq!(parse_grid("").err(), Some(GridError::Format));
}

#[test]
fn bad_corner_is_a_format_error() {
    assert_eq!(parse_grid("ncols 1\nnrows 1\nxllcorner west\n1\n").err(), Some(GridError::Format));
}

#[test]
fn bad_cell_size_is_left_unset() {
    let g = parse_grid("ncols 1\nnrows 1\ncellsize\n1\n").unwrap();
    assert_eq!(g.cell_size, None);
    let g = parse_grid("ncols 1\nnrows 1\ncellsize thirty\n1\n").unwrap();
    assert_eq!(g.cell_size, None);
    assert_eq!(g.cells, vec![1_000_000]);
}

#[test]
fn extra_rows_are_a_count_mismatch() {
    assert_eq!(
        parse_grid("ncols 1\nnrows 1\n1\n2\n").err(),
        Some(GridError::RowCountMismatch { declared: 1, collected: 2 })
    );
}

#[test]
fn from_cells_checks_shape() {
    assert!(ElevationGrid::from_cells(2, 2, 0, vec![1, 2, 3]).is_none());
    assert!(ElevationGrid::from_cells(0, 0, 0, vec![]).is_none());
    let g = ElevationGrid::from_cells(2, 1, 0, vec![1, 2]).unwrap();
    assert_eq!(g.value_at(1, 0), 2);
}

#[test]
fn value_at_is_row_major() {
    let g = parse_grid("ncols 3\nnrows 2\n1 2 3\n4 5 6\n").unwrap();
    assert_eq!(g.value_at(0, 0), 1_000_000);
    assert_eq!(g.value_at(2, 0), 3_000_000);
    assert_eq!(g.value_at(0, 1), 4_000_000);
    assert_eq!(g.value_at(2, 1), 6_000_000);
}

#[test]
fn fixed_decimals() {
    assert_eq!(parse_fixed(&chars("12.5")), Some(12_500_000));
    assert_eq!(parse_fixed(&chars("-0.000001")), Some(-1));
    assert_eq!(parse_fixed(&chars(".5")), Some(500_000));
    assert_eq!(parse_fixed(&chars("5.")), Some(5_000_000));
    assert_eq!(parse_fixed(&chars("+3")), Some(3_000_000));
    assert_eq!(parse_fixed(&chars("-0")), Some(0));
    assert_eq!(parse_fixed(&chars("12.1234567")), Some(12_123_456));
    assert_eq!(parse_fixed(&chars("9223372036854.775807")), Some(i64::MAX));
    assert_eq!(parse_fixed(&chars("-9223372036854.775807")), Some(-i64::MAX));
}

#[test]
fn fixed_rejects_non_decimals() {
    for t in ["", ".", "-", "+", "1.2.3", "inf", "NaN", "12a", "--1", "9223372036854.775808", "99999999999999999999"] {
        assert_eq!(parse_fixed(&chars(t)), None, "token {:?}", t);
    }
}

#[test]
fn counts() {
    assert_eq!(parse_count(&chars("5")), Some(5));
    assert_eq!(parse_count(&chars("+5")), Some(5));
    assert_eq!(parse_count(&chars("007")), Some(7));
    assert_eq!(parse_count(&chars("-1")), None);
    assert_eq!(parse_count(&chars("")), None);
    assert_eq!(parse_count(&chars("+")), None);
    assert_eq!(parse_count(&chars("3.0")), None);
    assert_eq!(parse_count(&chars("99999999999999999999999")), None);
}

#[test]
fn fixed_exponents() {
    assert_eq!(parse_fixed(&chars("1e3")), Some(1_000_000_000));
    assert_eq!(parse_fixed(&chars("1.5E+02")), Some(150_000_000));
    assert_eq!(parse_fixed(&chars("-2.5e1")), Some(-25_000_000));
    assert_eq!(parse_fixed(&chars("1E-1")), Some(100_000));
    assert_eq!(parse_fixed(&chars("1e-6")), Some(1));
    assert_eq!(parse_fixed(&chars("2.5e-7")), Some(0));
    assert_eq!(parse_fixed(&chars("1.e2")), Some(100_000_000));
    assert_eq!(parse_fixed(&chars(".5e1")), Some(5_000_000));
    assert_eq!(parse_fixed(&chars("0e999999999999999999999999")), Some(0));
    assert_eq!(parse_fixed(&chars("5e-999999999999999999999999")), Some(0));
    assert_eq!(parse_fixed(&chars("9.223372036854775807e12")), Some(i64::MAX));
}

#[test]
fn fixed_rejects_bad_exponents() {
    for t in ["1e", "e5", "1e+", "1e-", "1e1.5", "1ee2", "1e2e3", ".e1", "1e99999999999999999999999", "-3.4028234663852886e+38", "1e13"] {
        assert_eq!(parse_fixed(&chars(t)), None, "token {:?}", t);
    }
}

#[test]
fn exponent_samples_are_read() {
    let g = parse_grid("ncols 2\nnrows 1\nnodata_value -9.999e3\n1e3 -9999\n").unwrap();
    assert_eq!(g.no_data, -9_999_000_000);
    assert_eq!(g.cells, vec![1_000_000_000, -9_999_000_000]);
}
