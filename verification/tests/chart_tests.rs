use barchart::BarChart2;
use barchart::Block;
use barchart::Buffer;
use barchart::Rect;
use barchart::Style;

const FULL: char = '\u{2588}';
const THREE_QUARTERS: char = '\u{2586}';
const ONE_QUARTER: char = '\u{2582}';

fn sym(buf: &Buffer, x: u16, y: u16) -> char {
    buf.get(x, y).symbol
}

#[test]
fn single_bar_full_height_round_trip() {
    // One group, one series, value equal to the maximum, width 1, height 3:
    // solid full glyphs on the body rows, the formatted value on row 1.
    let chart = BarChart2::default().add_data(&[5]);
    let area = Rect::new(0, 0, 1, 3);
    let mut buf = Buffer::empty(area);
    chart.render(area, &mut buf);
    assert_eq!(sym(&buf, 0, 0), FULL);
    assert_eq!(sym(&buf, 0, 1), '5');
    assert_eq!(sym(&buf, 0, 2), ' ');
}

#[test]
fn four_groups_auto_max_heights() {
    // groups [9, 12, 5, 8], auto max 12, height 10: 9 data rows.
    let chart = BarChart2::default().add_data(&[9, 12, 5, 8]);
    let area = Rect::new(0, 0, 12, 10);
    let mut buf = Buffer::empty(area);
    chart.render(area, &mut buf);
    // Group 1 ("12") is full height: eighths = 12 * 9 * 8 / 12 = 72.
    for py in 0..8 {
        assert_eq!(sym(&buf, 3, py), FULL, "group 1 row {}", py);
    }
    assert_eq!(sym(&buf, 3, 8), '1');
    assert_eq!(sym(&buf, 4, 8), '2');
    // Group 2 ("5"): eighths = 30; three full rows, then a 6/8 glyph.
    assert_eq!(sym(&buf, 6, 4), ' ');
    assert_eq!(sym(&buf, 6, 5), THREE_QUARTERS);
    assert_eq!(sym(&buf, 6, 6), FULL);
    assert_eq!(sym(&buf, 6, 7), FULL);
    assert_eq!(sym(&buf, 6, 8), '5');
    // Group 0 ("9"): eighths = 54; six full rows, then a 6/8 glyph.
    assert_eq!(sym(&buf, 0, 1), ' ');
    assert_eq!(sym(&buf, 0, 2), THREE_QUARTERS);
    assert_eq!(sym(&buf, 0, 3), FULL);
    assert_eq!(sym(&buf, 0, 8), '9');
    // Group 3 ("8"): eighths = 48; exactly six full rows, no partial row.
    assert_eq!(sym(&buf, 9, 2), ' ');
    assert_eq!(sym(&buf, 9, 3), FULL);
    assert_eq!(sym(&buf, 9, 8), '8');
}

#[test]
fn too_narrow_paints_nothing() {
    // One group needs 7 columns; only 4 are there: the grid stays blank.
    let chart = BarChart2::default().bar_width(5).add_data(&[5]);
    let area = Rect::new(0, 0, 4, 10);
    let mut buf = Buffer::empty(area);
    chart.render(area, &mut buf);
    for x in 0..4 {
        for y in 0..10 {
            assert_eq!(sym(&buf, x, y), ' ', "cell ({}, {})", x, y);
        }
    }
}

#[test]
fn short_area_paints_nothing() {
    let chart = BarChart2::default().add_data(&[5]);
    let area = Rect::new(0, 0, 8, 1);
    let mut buf = Buffer::empty(area);
    chart.render(area, &mut buf);
    for x in 0..8 {
        assert_eq!(sym(&buf, x, 0), ' ');
    }
}

#[test]
fn empty_data_paints_nothing() {
    let chart = BarChart2::default();
    let area = Rect::new(0, 0, 6, 6);
    let mut buf = Buffer::empty(area);
    chart.render(area, &mut buf);
    for x in 0..6 {
        for y in 0..6 {
            assert_eq!(sym(&buf, x, y), ' ');
        }
    }
}

#[test]
fn zero_value_has_no_label() {
    // A value of zero is suppressed: no "0" appears on the label row.
    let chart = BarChart2::default().add_data(&[0]);
    let area = Rect::new(0, 0, 1, 3);
    let mut buf = Buffer::empty(area);
    chart.render(area, &mut buf);
    assert_eq!(sym(&buf, 0, 0), ' ');
    assert_eq!(sym(&buf, 0, 1), ' ');
    assert_eq!(sym(&buf, 0, 2), ' ');
}

#[test]
fn all_zero_data_renders_empty_bars() {
    let chart = BarChart2::default().add_data(&[0]).add_data(&[0]);
    let area = Rect::new(0, 0, 5, 4);
    let mut buf = Buffer::empty(area);
    chart.render(area, &mut buf);
    for x in 0..5 {
        for y in 0..4 {
            assert_eq!(sym(&buf, x, y), ' ');
        }
    }
}

#[test]
fn partial_glyph_levels() {
    // Height 3 and max 8 scale a value v to 2*v eighths.
    let chart = BarChart2::default().bar_width(3).max(8).add_data(&[1]);
    let area = Rect::new(0, 0, 5, 3);
    let mut buf = Buffer::empty(area);
    chart.render(area, &mut buf);
    // 2 eighths: a one-quarter block on the base row; the centered label
    // covers only the middle column.
    assert_eq!(sym(&buf, 0, 1), ONE_QUARTER);
    assert_eq!(sym(&buf, 1, 1), '1');
    assert_eq!(sym(&buf, 2, 1), ONE_QUARTER);
    assert_eq!(sym(&buf, 0, 0), ' ');
}

#[test]
fn value_above_fixed_max_fills_column() {
    let chart = BarChart2::default().max(4).add_data(&[8]);
    let area = Rect::new(0, 0, 1, 3);
    let mut buf = Buffer::empty(area);
    chart.render(area, &mut buf);
    assert_eq!(sym(&buf, 0, 0), FULL);
    assert_eq!(sym(&buf, 0, 1), '8');
}

#[test]
fn value_label_centered_by_display_width() {
    // A two-column label under a five-column bar starts one column in.
    let chart = BarChart2::default().bar_width(5).add_data(&[12]);
    let area = Rect::new(0, 0, 5, 3);
    let mut buf = Buffer::empty(area);
    chart.render(area, &mut buf);
    assert_eq!(sym(&buf, 0, 1), FULL);
    assert_eq!(sym(&buf, 1, 1), '1');
    assert_eq!(sym(&buf, 2, 1), '2');
    assert_eq!(sym(&buf, 3, 1), FULL);
    assert_eq!(sym(&buf, 4, 1), FULL);
}

#[test]
fn category_label_centered_by_display_width() {
    // The category label is centered by its displayed width: a two-byte
    // but one-column label starts at offset (5 - 1) / 2 = 2.
    let chart = BarChart2::default()
        .bar_width(5)
        .add_data(&[5])
        .labels(vec![String::from("\u{e9}")]);
    let area = Rect::new(0, 0, 5, 3);
    let mut buf = Buffer::empty(area);
    chart.render(area, &mut buf);
    assert_eq!(sym(&buf, 1, 2), ' ');
    assert_eq!(sym(&buf, 2, 2), '\u{e9}');
    assert_eq!(sym(&buf, 3, 2), ' ');
}

#[test]
fn ascii_category_label_centered() {
    let chart = BarChart2::default()
        .bar_width(3)
        .add_data(&[2])
        .labels(vec![String::from("A")]);
    let area = Rect::new(0, 0, 5, 4);
    let mut buf = Buffer::empty(area);
    chart.render(area, &mut buf);
    assert_eq!(sym(&buf, 1, 3), 'A');
}

#[test]
fn extra_labels_are_dropped() {
    // Labels beyond the visible groups are silently not rendered.
    let chart = BarChart2::default()
        .add_data(&[3])
        .labels(vec![String::from("a"), String::from("b")]);
    let area = Rect::new(0, 0, 2, 4);
    let mut buf = Buffer::empty(area);
    chart.render(area, &mut buf);
    assert_eq!(sym(&buf, 0, 3), 'a');
    assert_eq!(sym(&buf, 1, 3), ' ');
}

#[test]
fn block_border_and_inner_chart() {
    let chart = BarChart2::default().block(Block::new()).add_data(&[5]);
    let area = Rect::new(0, 0, 7, 5);
    let mut buf = Buffer::empty(area);
    chart.render(area, &mut buf);
    assert_eq!(sym(&buf, 0, 0), '\u{250c}');
    assert_eq!(sym(&buf, 6, 0), '\u{2510}');
    assert_eq!(sym(&buf, 0, 4), '\u{2514}');
    assert_eq!(sym(&buf, 6, 4), '\u{2518}');
    assert_eq!(sym(&buf, 3, 0), '\u{2500}');
    assert_eq!(sym(&buf, 0, 2), '\u{2502}');
    // Inside the frame: one bar of full height with its value label.
    assert_eq!(sym(&buf, 1, 1), FULL);
    assert_eq!(sym(&buf, 1, 2), '5');
}

#[test]
fn styles_applied_to_bars_and_values() {
    let red = Style { fg: 1, bg: 0, modifier: 0 };
    let bold = Style { fg: 2, bg: 0, modifier: 1 };
    let chart = BarChart2::default()
        .bar_styles(vec![red])
        .value_styles(vec![bold])
        .add_data(&[5]);
    let area = Rect::new(0, 0, 1, 3);
    let mut buf = Buffer::empty(area);
    chart.render(area, &mut buf);
    assert_eq!(buf.get(0, 0).style, red);
    assert_eq!(buf.get(0, 1).style, bold);
}

#[test]
fn add_data_zips_series_into_groups() {
    let chart = BarChart2::default().add_data(&[1, 2, 3]).add_data(&[4, 5]);
    assert_eq!(chart.data, vec![vec![1, 4], vec![2, 5], vec![3]]);
}

#[test]
fn add_data_drops_extra_values() {
    let chart = BarChart2::default().add_data(&[1]).add_data(&[7, 9]);
    assert_eq!(chart.data, vec![vec![1, 7]]);
}

#[test]
fn size_hint_without_block_echoes_area() {
    let chart = BarChart2::default();
    let area = Rect::new(0, 0, 9, 4);
    let s = chart.size_hint(&area);
    assert_eq!(s.width, 9);
    assert_eq!(s.height, 4);
}

#[test]
fn size_hint_with_block_reserves_rows() {
    let chart = BarChart2::default().block(Block::new());
    let small = Rect::new(0, 0, 1, 1);
    let s = chart.size_hint(&small);
    assert_eq!(s.width, 2);
    assert_eq!(s.height, 3);
    let big = Rect::new(0, 0, 9, 7);
    let s2 = chart.size_hint(&big);
    assert_eq!(s2.width, 9);
    assert_eq!(s2.height, 7);
}

#[test]
fn render_at_offset_area() {
    // The chart draws inside the given area of a larger grid.
    let chart = BarChart2::default().add_data(&[4]);
    let grid = Rect::new(0, 0, 10, 8);
    let area = Rect::new(2, 1, 3, 4);
    let mut buf = Buffer::empty(grid);
    chart.render(area, &mut buf);
    assert_eq!(sym(&buf, 2, 1), FULL);
    assert_eq!(sym(&buf, 2, 2), FULL);
    assert_eq!(sym(&buf, 2, 3), '4');
    assert_eq!(sym(&buf, 2, 4), ' ');
}

#[test]
fn render_leaves_cells_outside_area_untouched() {
    let chart = BarChart2::default().add_data(&[9, 12, 5]);
    let grid = Rect::new(0, 0, 12, 8);
    let area = Rect::new(1, 1, 9, 6);
    let mut buf = Buffer::empty(grid);
    buf.set_cell(0, 0, 'z', Style::default());
    buf.set_cell(11, 7, 'q', Style::default());
    chart.render(area, &mut buf);
    assert_eq!(sym(&buf, 0, 0), 'z');
    assert_eq!(sym(&buf, 11, 7), 'q');
    for y in 0..8 {
        assert_eq!(sym(&buf, 10, y), ' ', "column right of area, row {}", y);
    }
}

#[test]
fn degenerate_render_is_a_no_op() {
    // Too few rows: nothing is touched, styles included.
    let styled = Style { fg: 7, bg: 2, modifier: 1 };
    let chart = BarChart2::default().add_data(&[5]);
    let grid = Rect::new(0, 0, 4, 1);
    let mut buf = Buffer::empty(grid);
    buf.set_cell(1, 0, 'k', styled);
    chart.render(grid, &mut buf);
    assert_eq!(buf.get(1, 0).symbol, 'k');
    assert_eq!(buf.get(1, 0).style, styled);
    assert_eq!(buf.get(0, 0).style, Style::default());
}

#[test]
fn empty_data_render_is_a_no_op() {
    let styled = Style { fg: 3, bg: 4, modifier: 0 };
    let chart = BarChart2::default();
    let grid = Rect::new(0, 0, 3, 3);
    let mut buf = Buffer::empty(grid);
    buf.set_cell(2, 2, 'w', styled);
    chart.render(grid, &mut buf);
    assert_eq!(buf.get(2, 2).symbol, 'w');
    assert_eq!(buf.get(2, 2).style, styled);
}

#[test]
fn wide_value_label_clipped_at_area_edge() {
    // The label "12345" starts at the bar but the area is three columns
    // wide inside a wider grid: the overflow is dropped, not written
    // into the grid beyond the area.
    let chart = BarChart2::default().add_data(&[12345]);
    let grid = Rect::new(0, 0, 6, 3);
    let area = Rect::new(0, 0, 3, 3);
    let mut buf = Buffer::empty(grid);
    chart.render(area, &mut buf);
    assert_eq!(sym(&buf, 0, 1), '1');
    assert_eq!(sym(&buf, 1, 1), '2');
    assert_eq!(sym(&buf, 2, 1), '3');
    assert_eq!(sym(&buf, 3, 1), ' ');
    assert_eq!(sym(&buf, 4, 1), ' ');
}
