use barchart::Block;
use barchart::Buffer;
use barchart::Rect;
use barchart::Size;
use barchart::Style;
use barchart::data_max;
use barchart::format_value;
use barchart::height_eighths;
use barchart::nine_levels;
use barchart::visible_group_count;

#[test]
fn format_value_decimal() {
    assert_eq!(format_value(0), "0");
    assert_eq!(format_value(7), "7");
    assert_eq!(format_value(10), "10");
    assert_eq!(format_value(12345), "12345");
    assert_eq!(format_value(u64::MAX), "18446744073709551615");
}

#[test]
fn data_max_over_groups_and_series() {
    assert_eq!(data_max(&vec![vec![3, 9], vec![7, 2]]), 9);
    assert_eq!(data_max(&vec![]), 0);
    assert_eq!(data_max(&vec![vec![]]), 0);
}

#[test]
fn height_eighths_extremes() {
    // value 0 scales to 0; value == max scales to (rows - 1) * 8.
    assert_eq!(height_eighths(0, 10, 12), 0);
    assert_eq!(height_eighths(12, 10, 12), 72);
}

#[test]
fn height_eighths_truncates() {
    assert_eq!(height_eighths(9, 10, 12), 54);
    assert_eq!(height_eighths(5, 10, 12), 30);
    assert_eq!(height_eighths(1, 3, 3), 5);
}

#[test]
fn height_eighths_zero_max_divides_by_one() {
    assert_eq!(height_eighths(0, 10, 0), 0);
}

#[test]
fn height_eighths_monotonic_example() {
    let mut last = 0;
    for v in 0..=12 {
        let h = height_eighths(v, 10, 12);
        assert!(h >= last);
        last = h;
    }
}

#[test]
fn visible_groups_counts_whole_groups() {
    // bar width 1, gaps 1, one series: one group per 3 columns.
    assert_eq!(visible_group_count(12, 1, 1, 1, 1, 4), 4);
    assert_eq!(visible_group_count(6, 1, 1, 1, 1, 4), 2);
    assert_eq!(visible_group_count(4, 5, 1, 1, 1, 4), 0);
}

#[test]
fn visible_groups_monotonic_in_geometry() {
    let base = visible_group_count(12, 1, 1, 1, 1, 9);
    assert!(visible_group_count(12, 2, 1, 1, 1, 9) <= base);
    assert!(visible_group_count(12, 1, 2, 1, 1, 9) <= base);
    assert!(visible_group_count(12, 1, 1, 2, 1, 9) <= base);
}

#[test]
fn nine_levels_glyphs() {
    let set = nine_levels();
    assert_eq!(set.empty, ' ');
    assert_eq!(set.one_eighth, '\u{2581}');
    assert_eq!(set.half, '\u{2584}');
    assert_eq!(set.full, '\u{2588}');
    assert_eq!(set.glyph(0), ' ');
    assert_eq!(set.glyph(3), '\u{2583}');
    assert_eq!(set.glyph(8), '\u{2588}');
    assert_eq!(set.glyph(250), '\u{2588}');
}

#[test]
fn block_inner_shrinks_by_one() {
    let b = Block::new();
    assert_eq!(b.inner(Rect::new(0, 0, 10, 10)), Rect::new(1, 1, 8, 8));
    assert_eq!(b.inner(Rect::new(2, 3, 1, 5)), Rect::new(2, 4, 0, 3));
}

#[test]
fn block_size_hint_floors_at_two() {
    let b = Block::new();
    let s = b.size_hint(&Rect::default());
    assert_eq!((s.width, s.height), (2, 2));
    let s2 = b.size_hint(&Rect::new(0, 0, 9, 4));
    assert_eq!((s2.width, s2.height), (9, 4));
}

#[test]
fn size_new_holds_fields() {
    let s = Size::new(3, 4);
    assert_eq!(s.width, 3);
    assert_eq!(s.height, 4);
}

#[test]
fn buffer_set_string_clips_at_right_edge() {
    let area = Rect::new(0, 0, 3, 1);
    let mut buf = Buffer::empty(area);
    buf.set_string(1, 0, "abcd", Style::default());
    assert_eq!(buf.get(0, 0).symbol, ' ');
    assert_eq!(buf.get(1, 0).symbol, 'a');
    assert_eq!(buf.get(2, 0).symbol, 'b');
}

#[test]
fn buffer_set_stringn_truncates() {
    let area = Rect::new(0, 0, 8, 1);
    let mut buf = Buffer::empty(area);
    buf.set_stringn(0, 0, "abcd", 2, Style::default());
    assert_eq!(buf.get(0, 0).symbol, 'a');
    assert_eq!(buf.get(1, 0).symbol, 'b');
    assert_eq!(buf.get(2, 0).symbol, ' ');
}

#[test]
fn buffer_set_string_outside_rows_is_ignored() {
    let area = Rect::new(0, 0, 3, 2);
    let mut buf = Buffer::empty(area);
    buf.set_string(0, 5, "ab", Style::default());
    for x in 0..3 {
        for y in 0..2 {
            assert_eq!(buf.get(x, y).symbol, ' ');
        }
    }
}

#[test]
fn buffer_set_cell_and_get() {
    let area = Rect::new(1, 1, 4, 3);
    let mut buf = Buffer::empty(area);
    let st = Style { fg: 3, bg: 1, modifier: 2 };
    buf.set_cell(2, 2, 'x', st);
    assert_eq!(buf.get(2, 2).symbol, 'x');
    assert_eq!(buf.get(2, 2).style, st);
    assert_eq!(buf.get(1, 1).symbol, ' ');
}

#[test]
fn buffer_set_style_keeps_glyphs() {
    let area = Rect::new(0, 0, 2, 2);
    let mut buf = Buffer::empty(area);
    buf.set_cell(0, 0, 'q', Style::default());
    let st = Style { fg: 9, bg: 0, modifier: 0 };
    buf.set_style(Rect::new(0, 0, 2, 1), st);
    assert_eq!(buf.get(0, 0).symbol, 'q');
    assert_eq!(buf.get(0, 0).style, st);
    assert_eq!(buf.get(0, 1).style, Style::default());
}
