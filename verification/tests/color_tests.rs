use vt::color::{bg_color, color_eq, eff_bg, eff_fg, fg_color, promote, Color, Pen};

fn default_pen() -> Pen {
    Pen {
        foreground: None,
        background: None,
        bold: false,
        faint: false,
        italic: false,
        underline: false,
        strikethrough: false,
        blink: false,
        inverse: false,
    }
}

#[test]
fn cursor_inverts_unset_colors_to_defaults() {
    let pen = default_pen();
    assert_eq!(bg_color(&pen, true), Some(Color::DefaultFg));
    assert_eq!(fg_color(&pen, true), Color::DefaultBg);
}

#[test]
fn cursor_inverts_explicit_colors() {
    let mut pen = default_pen();
    pen.foreground = Some(Color::Indexed(1));
    pen.background = Some(Color::Rgb(9, 8, 7));
    assert_eq!(bg_color(&pen, true), Some(Color::Indexed(1)));
    assert_eq!(fg_color(&pen, true), Color::Rgb(9, 8, 7));
}

#[test]
fn cursor_cancels_inverse_pen() {
    let mut pen = default_pen();
    pen.inverse = true;
    pen.foreground = Some(Color::Indexed(1));
    pen.background = Some(Color::Indexed(2));
    assert_eq!(bg_color(&pen, true), pen.background);
    assert_eq!(fg_color(&pen, true), Color::Indexed(1));
}

#[test]
fn no_cursor_no_inverse_keeps_raw_colors() {
    let mut pen = default_pen();
    pen.foreground = Some(Color::Indexed(6));
    assert_eq!(bg_color(&pen, false), None);
    assert_eq!(fg_color(&pen, false), Color::Indexed(6));
    let plain = default_pen();
    assert_eq!(fg_color(&plain, false), Color::Unset);
}

#[test]
fn bold_is_bright_promotes_low_indexed() {
    assert_eq!(promote(Color::Indexed(3), true, true), Color::Indexed(11));
    assert_eq!(promote(Color::Indexed(0), true, true), Color::Indexed(8));
    assert_eq!(promote(Color::Indexed(7), true, true), Color::Indexed(15));
}

#[test]
fn bold_is_bright_disabled_changes_nothing() {
    assert_eq!(promote(Color::Indexed(3), true, false), Color::Indexed(3));
    assert_eq!(promote(Color::Indexed(3), false, false), Color::Indexed(3));
}

#[test]
fn bold_is_bright_needs_bold() {
    assert_eq!(promote(Color::Indexed(3), false, true), Color::Indexed(3));
}

#[test]
fn bold_is_bright_skips_high_and_nonindexed() {
    assert_eq!(promote(Color::Indexed(8), true, true), Color::Indexed(8));
    assert_eq!(promote(Color::Indexed(11), true, true), Color::Indexed(11));
    assert_eq!(promote(Color::Rgb(1, 2, 3), true, true), Color::Rgb(1, 2, 3));
    assert_eq!(promote(Color::DefaultFg, true, true), Color::DefaultFg);
    assert_eq!(promote(Color::Unset, true, true), Color::Unset);
}

#[test]
fn effective_colors_combine_inversion_and_promotion() {
    let mut pen = default_pen();
    pen.bold = true;
    pen.foreground = Some(Color::Indexed(2));
    assert_eq!(eff_fg(&pen, false, true), Color::Indexed(10));
    // under the cursor the bold foreground becomes the background and is
    // promoted there
    assert_eq!(eff_bg(&pen, true, true), Some(Color::Indexed(10)));
    assert_eq!(eff_fg(&pen, true, true), Color::DefaultBg);
}

#[test]
fn color_equality_is_exact() {
    assert!(color_eq(Color::Indexed(5), Color::Indexed(5)));
    assert!(!color_eq(Color::Indexed(5), Color::Indexed(6)));
    assert!(!color_eq(Color::Indexed(1), Color::Rgb(1, 0, 0)));
    assert!(color_eq(Color::Rgb(1, 2, 3), Color::Rgb(1, 2, 3)));
    assert!(!color_eq(Color::Rgb(1, 2, 3), Color::Rgb(1, 2, 4)));
    assert!(!color_eq(Color::DefaultFg, Color::DefaultBg));
    assert!(color_eq(Color::Unset, Color::Unset));
}
