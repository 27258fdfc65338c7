use term_stream::trim::buf_trim;
use term_stream::trim::place_glyph;
use term_stream::trim::scrollback_lines;

#[test]
fn trim_wraps_on_width() {
    let buf = b"abcdefghijklmno";
    assert_eq!(scrollback_lines(buf, 2, 10, 0), 0);
}

#[test]
fn trim_respects_escape() {
    let buf = b"\x1b[31mABC\x1b[0m\n";
    let start = scrollback_lines(buf, 1, 80, 0);
    assert_eq!(start, 0);
    assert_eq!(&buf[start..], &b"\x1b[31mABC\x1b[0m\n"[..]);
}

#[test]
fn trim_wide_glyph() {
    let buf = "AB漢字".as_bytes();
    assert_eq!(scrollback_lines(buf, 1, 4, 0), 0);
}

#[test]
fn trim_empty_buffer() {
    assert_eq!(buf_trim(b"", 80, 10), 0);
    assert_eq!(scrollback_lines(b"", 24, 80, 1000), 0);
}

#[test]
fn trim_zero_budget_keeps_nothing() {
    assert_eq!(buf_trim(b"a\nb\nc\n", 80, 0), 6);
}

#[test]
fn trim_stops_at_line_feed() {
    let buf = b"a\nb\nc\n";
    assert_eq!(buf_trim(buf, 80, 1), 5);
    assert_eq!(buf_trim(buf, 80, 2), 3);
    assert_eq!(buf_trim(buf, 80, 3), 1);
    assert_eq!(buf_trim(buf, 80, 4), 0);
}

#[test]
fn trim_counts_a_line_when_the_row_is_full() {
    let buf = b"abcdefghij";
    assert_eq!(buf_trim(buf, 5, 1), 5);
    assert_eq!(buf_trim(buf, 5, 2), 0);
    assert_eq!(buf_trim(buf, 3, 2), 4);
}

#[test]
fn trim_wide_glyphs_take_two_columns() {
    let buf = "漢字漢字".as_bytes();
    assert_eq!(buf.len(), 12);
    assert_eq!(buf_trim(buf, 4, 1), 6);
    assert_eq!(buf_trim(buf, 4, 2), 0);
}

#[test]
fn trim_wide_glyph_crossing_the_margin_carries_over() {
    // 'b' 1, wide 3 >= 3: line, col 0; 'a' 1; wide 3: line.
    let buf = "漢a字b".as_bytes();
    assert_eq!(buf_trim(buf, 3, 1), 4);
    // cols = 2 after 'b': 1 + 2 = 3 > 2: line, col 1; 'a' makes 2 == cols: line.
    assert_eq!(buf_trim(buf, 2, 2), 3);
}

#[test]
fn trim_zero_width_mark_takes_no_column() {
    let buf = "a\u{301}b".as_bytes();
    assert_eq!(buf_trim(buf, 2, 1), 0);
    let plain = b"axb";
    assert_eq!(buf_trim(plain, 2, 1), 1);
}

#[test]
fn trim_malformed_run_counts_as_one_column() {
    let buf = [0x61u8, 0x80, 0x80];
    assert_eq!(buf_trim(&buf, 80, 1), 0);
    let two = [0x62u8, 0x61, 0x80, 0x62, 0x80];
    // both runs count one column each; with two columns the second fills the row
    assert_eq!(buf_trim(&two, 2, 1), 1);
}

#[test]
fn trim_jumps_from_escape_to_before_the_nearest_m() {
    let buf = b"a\nbm\ncd\x1b[0mE";
    assert_eq!(buf_trim(buf, 80, 1), 1);
    let without = b"a\nbx\ncd [0mE";
    assert_eq!(buf_trim(without, 80, 1), 4);
}

#[test]
fn trim_escape_without_terminator_is_skipped() {
    let buf = b"ab\ncd\x1b[1mZ";
    assert_eq!(buf_trim(buf, 80, 1), 2);
}

#[test]
fn trim_control_bytes_take_no_room() {
    let buf = b"a\x07\x07\x07b\x7f";
    assert_eq!(buf_trim(buf, 2, 1), 0);
}

#[test]
fn trim_never_lands_inside_a_code_point() {
    let text = "é漢\n字😀x\nñ";
    let buf = text.as_bytes();
    for cols in 1u16..6 {
        for lines in 0u32..8 {
            let start = buf_trim(buf, cols, lines);
            assert!(start <= buf.len());
            assert!(text.is_char_boundary(start));
        }
    }
}

#[test]
fn trim_budget_is_rows_plus_scrollback_plus_margin() {
    let mut buf = Vec::new();
    for _ in 0..60 {
        buf.extend_from_slice(b"x\n");
    }
    assert_eq!(scrollback_lines(&buf, 5, 80, 0), 11);
    assert_eq!(scrollback_lines(&buf, 5, 80, 3), 5);
    assert_eq!(scrollback_lines(&buf, 5, 80, 5), 1);
    assert_eq!(scrollback_lines(&buf, 5, 80, 6), 0);
    assert_eq!(scrollback_lines(&buf, 65535, 80, 4294967295), 0);
}

#[test]
fn trim_kept_lines_do_not_exceed_the_budget() {
    let mut buf = Vec::new();
    for i in 0..200u32 {
        buf.extend_from_slice(format!("line {}\n", i).as_bytes());
    }
    let start = scrollback_lines(&buf, 10, 80, 20);
    let kept = buf[start..].iter().filter(|b| **b == b'\n').count();
    assert_eq!(kept, 80);
    assert_eq!(buf[start], b'\n');
    assert_eq!(scrollback_lines(&buf[start..], 10, 80, 20), 0);
}

#[test]
fn trim_escape_jumps_pass_over_line_feeds() {
    let mut buf = Vec::new();
    for i in 0..200u32 {
        buf.extend_from_slice(format!("\x1b[3{}mline {}\x1b[0m\n", i % 8, i).as_bytes());
    }
    assert_eq!(buf_trim(&buf, 65535, 2), 0);
    assert_eq!(buf_trim(&buf, 65535, 1), buf.len() - 1);
}

#[test]
fn place_glyph_wraps_at_and_past_the_margin() {
    assert_eq!(place_glyph(0, Some(2), 4), (false, 2));
    assert_eq!(place_glyph(2, Some(2), 4), (true, 0));
    assert_eq!(place_glyph(3, Some(2), 4), (true, 1));
    assert_eq!(place_glyph(3, Some(0), 4), (false, 3));
    assert_eq!(place_glyph(1, None, 4), (false, 2));
    assert_eq!(place_glyph(3, None, 4), (true, 0));
    assert_eq!(place_glyph(0, Some(1), 0), (true, 1));
}
