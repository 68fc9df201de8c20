use vt::color::Color;
use vt::create;

#[test]
fn created_terminal_reports_its_size() {
    let vt = create(10, 4, 100, false);
    assert_eq!(vt.get_size(), vec![10, 4]);
}

#[test]
fn resize_changes_the_size() {
    let mut vt = create(10, 4, 100, false);
    vt.resize(6, 3);
    assert_eq!(vt.get_size(), vec![6, 3]);
}

#[test]
fn feed_reports_changed_lines() {
    let mut vt = create(10, 4, 100, false);
    let changed = vt.feed("hello");
    assert!(changed.contains(&0));
    assert_eq!(vt.get_size(), vec![10, 4]);
}

#[test]
fn fed_text_comes_back_compacted() {
    let mut vt = create(10, 4, 100, false);
    vt.feed("hello");
    let row = vt.get_line(0, false);
    assert_eq!(
        row.chars,
        vec!['h', 'e', 'l', 'l', 'o', ' ', ' ', ' ', ' ', ' ']
    );
    // one run of identical style covers the whole row
    assert_eq!(row.fg.len(), 1);
    assert_eq!(row.fg[0].column, 0);
    assert_eq!(row.fg[0].start, 0);
    assert_eq!(row.fg[0].len, 10);
    assert_eq!(row.bg.len(), 0);
}

#[test]
fn sgr_colors_reach_the_spans() {
    let mut vt = create(8, 2, 0, false);
    vt.feed("\u{1b}[31mab\u{1b}[0m");
    let row = vt.get_line(0, false);
    assert!(row.fg.len() >= 1);
    assert_eq!(row.fg[0].fg, Color::Indexed(1));
    assert_eq!(row.chars[0], 'a');
    assert_eq!(row.chars[1], 'b');
}

#[test]
fn sgr_background_makes_a_span() {
    let mut vt = create(8, 2, 0, false);
    vt.feed("\u{1b}[44mxy\u{1b}[0m");
    let row = vt.get_line(0, false);
    assert_eq!(row.bg.len(), 1);
    assert_eq!(row.bg[0].column, 0);
    assert_eq!(row.bg[0].width, 2);
    assert_eq!(row.bg[0].color, Color::Indexed(4));
}

#[test]
fn cursor_is_reported_when_visible() {
    let mut vt = create(10, 4, 100, false);
    vt.feed("hello");
    assert_eq!(vt.get_cursor(), Some((5, 0)));
}

#[test]
fn hidden_cursor_is_not_reported() {
    let mut vt = create(10, 4, 100, false);
    vt.feed("\u{1b}[?25l");
    assert_eq!(vt.get_cursor(), None);
}

#[test]
fn cursor_inverts_the_queried_cell() {
    let mut vt = create(6, 2, 0, false);
    vt.feed("ab");
    // cursor sits at column 2 of row 0
    let with_cursor = vt.get_line(0, true);
    assert_eq!(with_cursor.bg.len(), 1);
    assert_eq!(with_cursor.bg[0].column, 2);
    assert_eq!(with_cursor.bg[0].width, 1);
    assert_eq!(with_cursor.bg[0].color, Color::DefaultFg);
    let without_cursor = vt.get_line(0, false);
    assert_eq!(without_cursor.bg.len(), 0);
}

#[test]
fn box_drawing_becomes_raster_record() {
    let mut vt = create(6, 2, 0, false);
    vt.feed("\u{2500}");
    let row = vt.get_line(0, false);
    assert_eq!(row.raster.len(), 1);
    assert_eq!(row.raster[0].column, 0);
    assert_eq!(row.raster[0].ch, '\u{2500}');
    assert_eq!(row.chars[0], ' ');
}

#[test]
fn wide_char_occupies_two_columns() {
    let mut vt = create(10, 2, 0, false);
    vt.feed("\u{65e5}a");
    let row = vt.get_line(0, false);
    // the wide head plus eight single cells leave nine characters
    assert_eq!(row.chars.len(), 9);
    assert_eq!(row.chars[0], '\u{65e5}');
    assert_eq!(row.chars[1], 'a');
    // the wide character is a span of its own
    assert_eq!(row.fg[0].len, 1);
    assert_eq!(row.fg[1].column, 2);
}

#[test]
fn bold_is_bright_option_promotes_colors() {
    let mut bright = create(8, 2, 0, true);
    bright.feed("\u{1b}[1;33mZ");
    let row = bright.get_line(0, false);
    assert_eq!(row.fg[0].fg, Color::Indexed(11));
    let mut plain = create(8, 2, 0, false);
    plain.feed("\u{1b}[1;33mZ");
    let row2 = plain.get_line(0, false);
    assert_eq!(row2.fg[0].fg, Color::Indexed(3));
}

#[test]
fn other_rows_stay_blank() {
    let mut vt = create(5, 3, 0, false);
    vt.feed("abc");
    let row = vt.get_line(2, false);
    assert_eq!(row.chars, vec![' ', ' ', ' ', ' ', ' ']);
    assert_eq!(row.fg.len(), 1);
    assert_eq!(row.bg.len(), 0);
}

#[test]
fn changed_lines_are_valid_rows() {
    let mut vt = create(5, 3, 0, false);
    let changed = vt.feed("a\r\nbc");
    assert!(!changed.is_empty());
    for &l in &changed {
        let row = vt.get_line(l, false);
        assert_eq!(row.chars.len(), 5);
    }
    let resized = vt.resize(4, 2);
    for &l in &resized {
        let row = vt.get_line(l, false);
        assert_eq!(row.chars.len(), 4);
    }
}

#[test]
fn fed_symbol_row_exports_byte_exact() {
    let mut vt = create(4, 2, 0, false);
    vt.feed("\u{1b}[31m\u{2500}");
    let row = vt.get_line(0, false);
    let e = vt::export::encode_row(&row);
    assert_eq!(e.raster_count, 1);
    // column 0, pad, codepoint 0x2500, indexed color 1
    assert_eq!(e.raster, vec![0, 0, 0, 0, 0x00, 0x25, 0, 0, 3, 1, 0, 0]);
    assert_eq!(e.char_count, 4);
    assert_eq!(&e.chars[0..4], &[0x20, 0, 0, 0]);
}
