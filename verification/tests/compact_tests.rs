use vt::classify::CharClassifier;
use vt::color::{Color, Pen};
use vt::compact::{compact, Cell, CursorPos};

fn default_pen() -> Pen {
    Pen {
        foreground: None,
        background: None,
        bold: false,
        faint: false,
        italic: false,
        underline: false,
        strikethrough: false,
        blink: false,
        inverse: false,
    }
}

fn cell(ch: char, width: u16, pen: Pen) -> Cell {
    Cell { ch, width, pen }
}

fn no_cursor() -> CursorPos {
    CursorPos { col: 0, row: 0, visible: false }
}

#[test]
fn single_ascii_cell_is_one_text_span() {
    let cls = CharClassifier::new();
    let cells = vec![cell('A', 1, default_pen())];
    let out = compact(&cells, &cls, no_cursor(), false, 0, false);
    assert_eq!(out.bg.len(), 0);
    assert_eq!(out.fg.len(), 1);
    assert_eq!(out.fg[0].column, 0);
    assert_eq!(out.fg[0].start, 0);
    assert_eq!(out.fg[0].len, 1);
    assert_eq!(out.fg[0].fg, Color::Unset);
    assert_eq!(out.chars, vec!['A']);
    assert_eq!(out.raster.len(), 0);
    assert_eq!(out.vector.len(), 0);
}

#[test]
fn box_drawing_at_column_five_is_raster_record() {
    let cls = CharClassifier::new();
    let mut red = default_pen();
    red.foreground = Some(Color::Indexed(1));
    let mut cells = Vec::new();
    for _ in 0..5 {
        cells.push(cell(' ', 1, default_pen()));
    }
    cells.push(cell('\u{2500}', 1, red));
    let out = compact(&cells, &cls, no_cursor(), false, 0, false);
    assert_eq!(out.raster.len(), 1);
    assert_eq!(out.raster[0].column, 5);
    assert_eq!(out.raster[0].ch, '\u{2500}');
    assert_eq!(out.raster[0].fg, Color::Indexed(1));
    assert_eq!(out.chars[5], ' ');
    // the symbol cell is not part of any text span
    assert_eq!(out.fg.len(), 1);
    assert_eq!(out.fg[0].start, 0);
    assert_eq!(out.fg[0].len, 5);
    assert_eq!(out.vector.len(), 0);
}

#[test]
fn cursor_swaps_default_colors() {
    let cls = CharClassifier::new();
    let cells = vec![
        cell('a', 1, default_pen()),
        cell('b', 1, default_pen()),
        cell('c', 1, default_pen()),
    ];
    let cursor = CursorPos { col: 2, row: 0, visible: true };
    let out = compact(&cells, &cls, cursor, true, 0, false);
    // the cursor cell gets the default foreground as its background
    assert_eq!(out.bg.len(), 1);
    assert_eq!(out.bg[0].column, 2);
    assert_eq!(out.bg[0].width, 1);
    assert_eq!(out.bg[0].color, Color::DefaultFg);
    // and the default background as its foreground, splitting the text span
    assert_eq!(out.fg.len(), 2);
    assert_eq!(out.fg[0].len, 2);
    assert_eq!(out.fg[1].column, 2);
    assert_eq!(out.fg[1].len, 1);
    assert_eq!(out.fg[1].fg, Color::DefaultBg);
}

#[test]
fn cursor_on_other_row_changes_nothing() {
    let cls = CharClassifier::new();
    let cells = vec![cell('a', 1, default_pen())];
    let cursor = CursorPos { col: 0, row: 3, visible: true };
    let out = compact(&cells, &cls, cursor, true, 0, false);
    assert_eq!(out.bg.len(), 0);
    assert_eq!(out.fg.len(), 1);
    assert_eq!(out.fg[0].fg, Color::Unset);
}

#[test]
fn cursor_cancels_explicit_inverse() {
    let cls = CharClassifier::new();
    let mut pen = default_pen();
    pen.inverse = true;
    pen.foreground = Some(Color::Indexed(2));
    pen.background = Some(Color::Indexed(4));
    let cells = vec![cell('x', 1, pen)];
    let cursor = CursorPos { col: 0, row: 0, visible: true };
    // inverse pen + cursor on the cell: the two inversions cancel
    let out = compact(&cells, &cls, cursor, true, 0, false);
    assert_eq!(out.fg[0].fg, Color::Indexed(2));
    assert_eq!(out.bg[0].color, Color::Indexed(4));
    // without the cursor the pen's own inverse applies
    let out2 = compact(&cells, &cls, cursor, false, 0, false);
    assert_eq!(out2.fg[0].fg, Color::Indexed(4));
    assert_eq!(out2.bg[0].color, Color::Indexed(2));
}

#[test]
fn identical_cells_merge_into_one_span() {
    let cls = CharClassifier::new();
    let mut pen = default_pen();
    pen.foreground = Some(Color::Indexed(3));
    pen.bold = true;
    let cells = vec![cell('a', 1, pen), cell('b', 1, pen)];
    let out = compact(&cells, &cls, no_cursor(), false, 0, false);
    assert_eq!(out.fg.len(), 1);
    assert_eq!(out.fg[0].len, 2);
    assert_eq!(out.chars, vec!['a', 'b']);
}

#[test]
fn different_foreground_splits_spans() {
    let cls = CharClassifier::new();
    let mut red = default_pen();
    red.foreground = Some(Color::Indexed(1));
    let mut green = default_pen();
    green.foreground = Some(Color::Indexed(2));
    let cells = vec![cell('a', 1, red), cell('b', 1, green)];
    let out = compact(&cells, &cls, no_cursor(), false, 0, false);
    assert_eq!(out.fg.len(), 2);
    assert_eq!(out.fg[0].fg, Color::Indexed(1));
    assert_eq!(out.fg[1].fg, Color::Indexed(2));
}

#[test]
fn attribute_change_splits_spans() {
    let cls = CharClassifier::new();
    let mut bold = default_pen();
    bold.bold = true;
    let cells = vec![cell('a', 1, default_pen()), cell('b', 1, bold)];
    let out = compact(&cells, &cls, no_cursor(), false, 0, false);
    assert_eq!(out.fg.len(), 2);
}

#[test]
fn space_merges_despite_attribute_noise() {
    let cls = CharClassifier::new();
    let mut red = default_pen();
    red.foreground = Some(Color::Indexed(1));
    let mut blue_bold = default_pen();
    blue_bold.foreground = Some(Color::Indexed(4));
    blue_bold.bold = true;
    // a space with different color and bold still extends the open span,
    // since a blank column shows no styling besides underline/strikethrough
    let cells = vec![cell('a', 1, red), cell(' ', 1, blue_bold)];
    let out = compact(&cells, &cls, no_cursor(), false, 0, false);
    assert_eq!(out.fg.len(), 1);
    assert_eq!(out.fg[0].len, 2);
    assert_eq!(out.fg[0].fg, Color::Indexed(1));
}

#[test]
fn space_with_underline_mismatch_does_not_merge() {
    let cls = CharClassifier::new();
    let mut red = default_pen();
    red.foreground = Some(Color::Indexed(1));
    let mut underlined_space = default_pen();
    underlined_space.underline = true;
    let cells = vec![cell('a', 1, red), cell(' ', 1, underlined_space)];
    let out = compact(&cells, &cls, no_cursor(), false, 0, false);
    assert_eq!(out.fg.len(), 2);
}

#[test]
fn nonspace_after_merged_space_starts_new_span() {
    let cls = CharClassifier::new();
    let mut red = default_pen();
    red.foreground = Some(Color::Indexed(1));
    let mut blue = default_pen();
    blue.foreground = Some(Color::Indexed(4));
    // the space merges into the red span; the following blue cell has the
    // same style as the space but cannot join a red span
    let cells = vec![cell('a', 1, red), cell(' ', 1, blue), cell('b', 1, blue)];
    let out = compact(&cells, &cls, no_cursor(), false, 0, false);
    assert_eq!(out.fg.len(), 2);
    assert_eq!(out.fg[0].len, 2);
    assert_eq!(out.fg[1].len, 1);
    assert_eq!(out.fg[1].fg, Color::Indexed(4));
}

#[test]
fn wide_char_is_isolated() {
    let cls = CharClassifier::new();
    let cells = vec![
        cell('a', 1, default_pen()),
        cell('\u{65e5}', 2, default_pen()),
        cell(' ', 0, default_pen()),
        cell('b', 1, default_pen()),
    ];
    let out = compact(&cells, &cls, no_cursor(), false, 0, false);
    assert_eq!(out.fg.len(), 3);
    assert_eq!(out.fg[0].len, 1);
    assert_eq!(out.fg[1].len, 1);
    assert_eq!(out.fg[1].column, 1);
    assert_eq!(out.fg[2].len, 1);
    assert_eq!(out.fg[2].column, 3);
    // the continuation cell leaves no character
    assert_eq!(out.chars, vec!['a', '\u{65e5}', 'b']);
}

#[test]
fn braille_char_is_isolated() {
    let cls = CharClassifier::new();
    let cells = vec![
        cell('\u{2800}', 1, default_pen()),
        cell('\u{2801}', 1, default_pen()),
    ];
    let out = compact(&cells, &cls, no_cursor(), false, 0, false);
    assert_eq!(out.fg.len(), 2);
    assert_eq!(out.fg[0].len, 1);
    assert_eq!(out.fg[1].len, 1);
}

#[test]
fn vector_symbol_carries_attributes() {
    let cls = CharClassifier::new();
    let mut pen = default_pen();
    pen.italic = true;
    pen.foreground = Some(Color::Rgb(1, 2, 3));
    let cells = vec![cell('\u{e0b0}', 1, pen)];
    let out = compact(&cells, &cls, no_cursor(), false, 0, false);
    assert_eq!(out.vector.len(), 1);
    assert_eq!(out.vector[0].column, 0);
    assert_eq!(out.vector[0].ch, '\u{e0b0}');
    assert_eq!(out.vector[0].fg, Color::Rgb(1, 2, 3));
    assert!(out.vector[0].italic);
    assert!(!out.vector[0].bold);
    assert_eq!(out.chars, vec![' ']);
    assert_eq!(out.fg.len(), 0);
    assert_eq!(out.raster.len(), 0);
}

#[test]
fn background_runs_merge_and_split() {
    let cls = CharClassifier::new();
    let mut blue_bg = default_pen();
    blue_bg.background = Some(Color::Indexed(4));
    let mut red_bg = default_pen();
    red_bg.background = Some(Color::Indexed(1));
    let cells = vec![
        cell('a', 1, blue_bg),
        cell('b', 1, blue_bg),
        cell('c', 1, red_bg),
        cell('d', 1, default_pen()),
        cell('e', 1, red_bg),
    ];
    let out = compact(&cells, &cls, no_cursor(), false, 0, false);
    assert_eq!(out.bg.len(), 3);
    assert_eq!(
        (out.bg[0].column, out.bg[0].width, out.bg[0].color),
        (0, 2, Color::Indexed(4))
    );
    assert_eq!(
        (out.bg[1].column, out.bg[1].width, out.bg[1].color),
        (2, 1, Color::Indexed(1))
    );
    assert_eq!(
        (out.bg[2].column, out.bg[2].width, out.bg[2].color),
        (4, 1, Color::Indexed(1))
    );
}

#[test]
fn bold_is_bright_promotes_both_channels() {
    let cls = CharClassifier::new();
    let mut pen = default_pen();
    pen.bold = true;
    pen.foreground = Some(Color::Indexed(3));
    pen.background = Some(Color::Indexed(2));
    let cells = vec![cell('a', 1, pen)];
    let on = compact(&cells, &cls, no_cursor(), false, 0, true);
    assert_eq!(on.fg[0].fg, Color::Indexed(11));
    assert_eq!(on.bg[0].color, Color::Indexed(10));
    let off = compact(&cells, &cls, no_cursor(), false, 0, false);
    assert_eq!(off.fg[0].fg, Color::Indexed(3));
    assert_eq!(off.bg[0].color, Color::Indexed(2));
}

#[test]
fn bold_is_bright_applies_after_inversion() {
    let cls = CharClassifier::new();
    let mut pen = default_pen();
    pen.bold = true;
    pen.foreground = Some(Color::Indexed(3));
    pen.inverse = true;
    // the indexed color lands on the background after inversion and is
    // promoted there
    let cells = vec![cell('a', 1, pen)];
    let out = compact(&cells, &cls, no_cursor(), false, 0, true);
    assert_eq!(out.bg[0].color, Color::Indexed(11));
    assert_eq!(out.fg[0].fg, Color::DefaultBg);
}

#[test]
fn explicit_default_background_still_makes_a_span() {
    let cls = CharClassifier::new();
    let mut pen = default_pen();
    pen.inverse = true;
    // inversion of an unset foreground yields the default-foreground color,
    // which is a span, distinct from "no background"
    let cells = vec![cell('a', 1, pen)];
    let out = compact(&cells, &cls, no_cursor(), false, 0, false);
    assert_eq!(out.bg.len(), 1);
    assert_eq!(out.bg[0].color, Color::DefaultFg);
}

#[test]
fn empty_row_gives_empty_output() {
    let cls = CharClassifier::new();
    let cells: Vec<Cell> = Vec::new();
    let out = compact(&cells, &cls, no_cursor(), false, 0, false);
    assert_eq!(out.bg.len(), 0);
    assert_eq!(out.fg.len(), 0);
    assert_eq!(out.raster.len(), 0);
    assert_eq!(out.vector.len(), 0);
    assert_eq!(out.chars.len(), 0);
}
