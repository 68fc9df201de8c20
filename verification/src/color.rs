//! Style and color model: a cell's paint state and the rules that resolve it
//! into effective colors (cursor inversion, bold-is-bright promotion).

use vstd::prelude::*;

verus! {

/// A resolved color value. `Unset` is only meaningful as a resolved
/// foreground (absence of an explicit color); an absent background is
/// represented as no background span rather than as a color value.
#[derive(Clone, Copy, PartialEq, Eq, Structural, Debug)]
pub enum Color {
    Unset,
    DefaultFg,
    DefaultBg,
    Indexed(u8),
    Rgb(u8, u8, u8),
}

/// A cell's raw paint state, as the terminal engine tracks it.
/// `bold` and `faint` may both be tracked as raw flags; rendering gives
/// `bold` precedence.
#[derive(Clone, Copy, Debug)]
pub struct Pen {
    pub foreground: Option<Color>,
    pub background: Option<Color>,
    pub bold: bool,
    pub faint: bool,
    pub italic: bool,
    pub underline: bool,
    pub strikethrough: bool,
    pub blink: bool,
    pub inverse: bool,
}

/// Equality of two color values (exact tag + payload match).
pub fn color_eq(a: Color, b: Color) -> (r: bool)
    ensures
        r == (a == b),
{
    match (a, b) {
        (Color::Unset, Color::Unset) => true,
        (Color::DefaultFg, Color::DefaultFg) => true,
        (Color::DefaultBg, Color::DefaultBg) => true,
        (Color::Indexed(x), Color::Indexed(y)) => x == y,
        (Color::Rgb(r1, g1, b1), Color::Rgb(r2, g2, b2)) => r1 == r2 && g1 == g2 && b1 == b2,
        _ => false,
    }
}

/// A cell's effective inverse state: the pen's raw `inverse` flag XOR-ed
/// with "the cursor is shown on this cell".
pub open spec fn spec_effective_inverse(pen: Pen, cursor_here: bool) -> bool {
    pen.inverse != cursor_here
}

/// Resolved background before bold-is-bright promotion: under inversion the
/// foreground becomes the background (`DefaultFg` when none is set);
/// otherwise the explicit background, or none.
pub open spec fn spec_bg_color(pen: Pen, cursor_here: bool) -> Option<Color> {
    if spec_effective_inverse(pen, cursor_here) {
        match pen.foreground {
            Some(c) => Some(c),
            None => Some(Color::DefaultFg),
        }
    } else {
        pen.background
    }
}

/// Resolved foreground before bold-is-bright promotion: under inversion the
/// background becomes the foreground (`DefaultBg` when none is set);
/// otherwise the explicit foreground, or `Unset`.
pub open spec fn spec_fg_color(pen: Pen, cursor_here: bool) -> Color {
    if spec_effective_inverse(pen, cursor_here) {
        match pen.background {
            Some(c) => c,
            None => Color::DefaultBg,
        }
    } else {
        match pen.foreground {
            Some(c) => c,
            None => Color::Unset,
        }
    }
}

/// Bold-is-bright: a bold cell's `Indexed(n)` color with `n < 8` is promoted
/// to `Indexed(n + 8)` when the option is enabled; all other colors are
/// returned unchanged.
pub open spec fn spec_promote(c: Color, bold: bool, bold_is_bright: bool) -> Color {
    if bold_is_bright && bold {
        match c {
            Color::Indexed(n) => if n < 8 {
                Color::Indexed((n + 8) as u8)
            } else {
                c
            },
            _ => c,
        }
    } else {
        c
    }
}

/// Effective background of a cell: resolved background with bold-is-bright
/// promotion applied after inversion is resolved.
pub open spec fn spec_eff_bg(pen: Pen, cursor_here: bool, bold_is_bright: bool) -> Option<Color> {
    match spec_bg_color(pen, cursor_here) {
        Some(c) => Some(spec_promote(c, pen.bold, bold_is_bright)),
        None => None,
    }
}

/// Effective foreground of a cell: resolved foreground with bold-is-bright
/// promotion applied after inversion is resolved.
pub open spec fn spec_eff_fg(pen: Pen, cursor_here: bool, bold_is_bright: bool) -> Color {
    spec_promote(spec_fg_color(pen, cursor_here), pen.bold, bold_is_bright)
}

/// Resolved background of a cell under the given cursor state.
pub fn bg_color(pen: &Pen, cursor_here: bool) -> (r: Option<Color>)
    ensures
        r == spec_bg_color(*pen, cursor_here),
{
    if pen.inverse != cursor_here {
        match pen.foreground {
            Some(c) => Some(c),
            None => Some(Color::DefaultFg),
        }
    } else {
        pen.background
    }
}

/// Resolved foreground of a cell under the given cursor state.
pub fn fg_color(pen: &Pen, cursor_here: bool) -> (r: Color)
    ensures
        r == spec_fg_color(*pen, cursor_here),
{
    if pen.inverse != cursor_here {
        match pen.background {
            Some(c) => c,
            None => Color::DefaultBg,
        }
    } else {
        match pen.foreground {
            Some(c) => c,
            None => Color::Unset,
        }
    }
}

/// Bold-is-bright promotion of a resolved color.
pub fn promote(c: Color, bold: bool, bold_is_bright: bool) -> (r: Color)
    ensures
        r == spec_promote(c, bold, bold_is_bright),
{
    if bold_is_bright && bold {
        match c {
            Color::Indexed(n) => if n < 8 {
                Color::Indexed(n + 8)
            } else {
                c
            },
            _ => c,
        }
    } else {
        c
    }
}

/// Effective background of a cell.
pub fn eff_bg(pen: &Pen, cursor_here: bool, bold_is_bright: bool) -> (r: Option<Color>)
    ensures
        r == spec_eff_bg(*pen, cursor_here, bold_is_bright),
{
    match bg_color(pen, cursor_here) {
        Some(c) => Some(promote(c, pen.bold, bold_is_bright)),
        None => None,
    }
}

/// Effective foreground of a cell.
pub fn eff_fg(pen: &Pen, cursor_here: bool, bold_is_bright: bool) -> (r: Color)
    ensures
        r == spec_eff_fg(*pen, cursor_here, bold_is_bright),
{
    promote(fg_color(pen, cursor_here), pen.bold, bold_is_bright)
}

/// Cursor inversion round-trip. With the cursor shown on a cell whose pen
/// has `inverse` clear, the resolved background is the pen's raw foreground
/// (`DefaultFg` when unset) and the resolved foreground is the pen's raw
/// background (`DefaultBg` when unset). With `inverse` set, the cursor
/// cancels the inversion and the raw values come back out.
pub proof fn lemma_cursor_inversion(pen: Pen)
    ensures
        !pen.inverse ==> spec_bg_color(pen, true) == Some(
            match pen.foreground {
                Some(c) => c,
                None => Color::DefaultFg,
            },
        ),
        !pen.inverse ==> spec_fg_color(pen, true) == (match pen.background {
            Some(c) => c,
            None => Color::DefaultBg,
        }),
        pen.inverse ==> spec_bg_color(pen, true) == pen.background,
        pen.inverse ==> spec_fg_color(pen, true) == (match pen.foreground {
            Some(c) => c,
            None => Color::Unset,
        }),
{
}

/// Bold-is-bright idempotence. With the option disabled no color changes;
/// non-indexed colors and indices at or above 8 are never promoted; a bold
/// low index is promoted by exactly 8.
pub proof fn lemma_bold_is_bright(c: Color, bold: bool, bold_is_bright: bool)
    ensures
        !bold_is_bright ==> spec_promote(c, bold, bold_is_bright) == c,
        !bold ==> spec_promote(c, bold, bold_is_bright) == c,
        !(c matches Color::Indexed(_)) ==> spec_promote(c, bold, bold_is_bright) == c,
        forall|n: u8| n >= 8 ==> spec_promote(Color::Indexed(n), bold, bold_is_bright) == Color::Indexed(n),
        forall|n: u8|
            n < 8 ==> spec_promote(Color::Indexed(n), true, true) == Color::Indexed((n + 8) as u8),
{
}

} // verus!
