//! Row compactor: consumes one row's cells plus cursor state and produces
//! background spans, text spans, symbol records and the row's character
//! buffer, in a single left-to-right pass.

use vstd::prelude::*;

use crate::classify::{
    spec_is_standalone, spec_symbol_category, CharClassifier, SymbolCategory,
};
use crate::color::{
    color_eq, eff_bg, eff_fg, spec_eff_bg, spec_eff_fg, Color, Pen,
};

verus! {

/// The widest row the binary protocol can describe: columns are 16-bit and a
/// cell may be two columns wide.
pub const MAX_ROW_CELLS: usize = 32767;

/// One character position of a terminal row: character, display width
/// (0 marks the continuation of a wide character and is filtered out before
/// compaction), and paint style.
#[derive(Clone, Copy, Debug)]
pub struct Cell {
    pub ch: char,
    pub width: u16,
    pub pen: Pen,
}

/// Mathematical value of a `Cell`.
pub struct CellV {
    pub ch: char,
    pub width: int,
    pub pen: Pen,
}

impl View for Cell {
    type V = CellV;

    open spec fn view(&self) -> CellV {
        CellV { ch: self.ch, width: self.width as int, pen: self.pen }
    }
}

/// A maximal run of consecutive cells sharing one resolved background color.
#[derive(Clone, Copy, Debug)]
pub struct BgSpan {
    pub column: u16,
    pub width: u16,
    pub color: Color,
}

/// Mathematical value of a `BgSpan`.
pub struct BgSpanV {
    pub column: int,
    pub width: int,
    pub color: Color,
}

impl View for BgSpan {
    type V = BgSpanV;

    open spec fn view(&self) -> BgSpanV {
        BgSpanV { column: self.column as int, width: self.width as int, color: self.color }
    }
}

/// A maximal run of consecutive cells sharing a resolved foreground color
/// and the merge-relevant attributes. `start` and `len` index the row's
/// character buffer.
#[derive(Clone, Copy, Debug)]
pub struct TextSpan {
    pub column: u16,
    pub start: u16,
    pub len: u16,
    pub fg: Color,
    pub bold: bool,
    pub faint: bool,
    pub italic: bool,
    pub underline: bool,
    pub strikethrough: bool,
    pub blink: bool,
}

/// Mathematical value of a `TextSpan`.
pub struct TextSpanV {
    pub column: int,
    pub start: int,
    pub len: int,
    pub fg: Color,
    pub bold: bool,
    pub faint: bool,
    pub italic: bool,
    pub underline: bool,
    pub strikethrough: bool,
    pub blink: bool,
}

impl View for TextSpan {
    type V = TextSpanV;

    open spec fn view(&self) -> TextSpanV {
        TextSpanV {
            column: self.column as int,
            start: self.start as int,
            len: self.len as int,
            fg: self.fg,
            bold: self.bold,
            faint: self.faint,
            italic: self.italic,
            underline: self.underline,
            strikethrough: self.strikethrough,
            blink: self.blink,
        }
    }
}

/// One raster-rendered glyph, extracted from the text stream; the character
/// buffer holds a space in its place.
#[derive(Clone, Copy, Debug)]
pub struct RasterSymbol {
    pub column: u16,
    pub ch: char,
    pub fg: Color,
}

/// Mathematical value of a `RasterSymbol`.
pub struct RasterSymbolV {
    pub column: int,
    pub ch: char,
    pub fg: Color,
}

impl View for RasterSymbol {
    type V = RasterSymbolV;

    open spec fn view(&self) -> RasterSymbolV {
        RasterSymbolV { column: self.column as int, ch: self.ch, fg: self.fg }
    }
}

/// One vector-rendered glyph; unlike a raster glyph it carries the cell's
/// attribute flags.
#[derive(Clone, Copy, Debug)]
pub struct VectorSymbol {
    pub column: u16,
    pub ch: char,
    pub fg: Color,
    pub bold: bool,
    pub faint: bool,
    pub italic: bool,
    pub underline: bool,
    pub strikethrough: bool,
    pub blink: bool,
}

/// Mathematical value of a `VectorSymbol`.
pub struct VectorSymbolV {
    pub column: int,
    pub ch: char,
    pub fg: Color,
    pub bold: bool,
    pub faint: bool,
    pub italic: bool,
    pub underline: bool,
    pub strikethrough: bool,
    pub blink: bool,
}

impl View for VectorSymbol {
    type V = VectorSymbolV;

    open spec fn view(&self) -> VectorSymbolV {
        VectorSymbolV {
            column: self.column as int,
            ch: self.ch,
            fg: self.fg,
            bold: self.bold,
            faint: self.faint,
            italic: self.italic,
            underline: self.underline,
            strikethrough: self.strikethrough,
            blink: self.blink,
        }
    }
}

/// One compacted row: ordered spans and symbol records, plus the resolved
/// display characters (one per non-continuation cell, symbol cells replaced
/// by a space).
#[derive(Debug)]
pub struct RowOutput {
    pub bg: Vec<BgSpan>,
    pub fg: Vec<TextSpan>,
    pub raster: Vec<RasterSymbol>,
    pub vector: Vec<VectorSymbol>,
    pub chars: Vec<char>,
}

/// Mathematical value of a `RowOutput`.
#[verifier::ext_equal]
pub struct RowOutputV {
    pub bg: Seq<BgSpanV>,
    pub fg: Seq<TextSpanV>,
    pub raster: Seq<RasterSymbolV>,
    pub vector: Seq<VectorSymbolV>,
    pub chars: Seq<char>,
}

impl View for RowOutput {
    type V = RowOutputV;

    open spec fn view(&self) -> RowOutputV {
        RowOutputV {
            bg: self.bg@.map_values(|s: BgSpan| s@),
            fg: self.fg@.map_values(|s: TextSpan| s@),
            raster: self.raster@.map_values(|s: RasterSymbol| s@),
            vector: self.vector@.map_values(|s: VectorSymbol| s@),
            chars: self.chars@,
        }
    }
}

/// Cursor position and visibility, as reported by the terminal engine.
#[derive(Clone, Copy, Debug)]
pub struct CursorPos {
    pub col: usize,
    pub row: usize,
    pub visible: bool,
}

/// The column carrying cursor inversion for the compacted row, if any: the
/// cursor must be visible, rendering must request it, and its row must be
/// the compacted row.
pub open spec fn active_cursor_col(cursor: CursorPos, cursor_on: bool, row: int) -> Option<int> {
    if cursor.visible && cursor_on && cursor.row == row {
        Some(cursor.col as int)
    } else {
        None
    }
}

/// State of the single pass: closed spans, at most one open background and
/// one open text span, the character buffer so far, and the current column.
#[verifier::ext_equal]
pub struct CompactStateV {
    pub bg: Seq<BgSpanV>,
    pub open_bg: Option<BgSpanV>,
    pub fg: Seq<TextSpanV>,
    pub open_fg: Option<TextSpanV>,
    pub raster: Seq<RasterSymbolV>,
    pub vector: Seq<VectorSymbolV>,
    pub chars: Seq<char>,
    pub x: int,
}

pub open spec fn init_state() -> CompactStateV {
    CompactStateV {
        bg: Seq::empty(),
        open_bg: None,
        fg: Seq::empty(),
        open_fg: None,
        raster: Seq::empty(),
        vector: Seq::empty(),
        chars: Seq::empty(),
        x: 0,
    }
}

/// The character the row buffer records for a cell: symbol cells are
/// replaced by a space.
pub open spec fn display_char(c: CellV) -> char {
    if spec_symbol_category(c.ch) == SymbolCategory::NoSymbol {
        c.ch
    } else {
        ' '
    }
}

/// Attribute equivalence used by the text merge rule: all flags except
/// `inverse`, which is resolved into the colors beforehand.
pub open spec fn spec_same_text_style(sp: TextSpanV, pen: Pen) -> bool {
    &&& sp.bold == pen.bold
    &&& sp.faint == pen.faint
    &&& sp.italic == pen.italic
    &&& sp.underline == pen.underline
    &&& sp.strikethrough == pen.strikethrough
    &&& sp.blink == pen.blink
}

/// A fresh single-cell text span for a cell at column `x` whose character
/// sits at index `start` of the character buffer.
pub open spec fn new_text_span(x: int, start: int, fg: Color, pen: Pen) -> TextSpanV {
    TextSpanV {
        column: x,
        start: start,
        len: 1,
        fg: fg,
        bold: pen.bold,
        faint: pen.faint,
        italic: pen.italic,
        underline: pen.underline,
        strikethrough: pen.strikethrough,
        blink: pen.blink,
    }
}

/// Background merge rule: extend the open span on an equal color, close it
/// on a different color or on a cell without background, open a new span on
/// a cell with background.
pub open spec fn bg_step(s: CompactStateV, ebg: Option<Color>, w: int) -> CompactStateV {
    match (s.open_bg, ebg) {
        (None, None) => s,
        (None, Some(c)) => CompactStateV {
            open_bg: Some(BgSpanV { column: s.x, width: w, color: c }),
            ..s
        },
        (Some(sp), None) => CompactStateV { bg: s.bg.push(sp), open_bg: None, ..s },
        (Some(sp), Some(c)) => if sp.color == c {
            CompactStateV {
                open_bg: Some(BgSpanV { column: sp.column, width: sp.width + w, color: sp.color }),
                ..s
            }
        } else {
            CompactStateV {
                bg: s.bg.push(sp),
                open_bg: Some(BgSpanV { column: s.x, width: w, color: c }),
                ..s
            }
        },
    }
}

/// Close the open text span, if any.
pub open spec fn flush_fg(s: CompactStateV) -> CompactStateV {
    match s.open_fg {
        None => s,
        Some(sp) => CompactStateV { fg: s.fg.push(sp), open_fg: None, ..s },
    }
}

/// Text/symbol rule for one cell: a symbol cell closes the open span and
/// becomes a symbol record; a standalone character becomes a closed
/// single-cell span; otherwise the cell extends the open span when the
/// resolved foreground and attributes match, or when it is a space whose
/// underline/strikethrough flags match, and starts a new span otherwise.
pub open spec fn fg_step(s: CompactStateV, c: CellV, efg: Color) -> CompactStateV {
    let j = s.chars.len() as int;
    let cat = spec_symbol_category(c.ch);
    if cat == SymbolCategory::Raster {
        let s1 = flush_fg(s);
        CompactStateV {
            raster: s1.raster.push(RasterSymbolV { column: s.x, ch: c.ch, fg: efg }),
            ..s1
        }
    } else if cat == SymbolCategory::Vector {
        let s1 = flush_fg(s);
        CompactStateV {
            vector: s1.vector.push(
                VectorSymbolV {
                    column: s.x,
                    ch: c.ch,
                    fg: efg,
                    bold: c.pen.bold,
                    faint: c.pen.faint,
                    italic: c.pen.italic,
                    underline: c.pen.underline,
                    strikethrough: c.pen.strikethrough,
                    blink: c.pen.blink,
                },
            ),
            ..s1
        }
    } else if spec_is_standalone(c.ch, c.width) {
        let s1 = flush_fg(s);
        CompactStateV { fg: s1.fg.push(new_text_span(s.x, j, efg, c.pen)), open_fg: None, ..s1 }
    } else {
        match s.open_fg {
            None => CompactStateV { open_fg: Some(new_text_span(s.x, j, efg, c.pen)), ..s },
            Some(sp) => if (sp.fg == efg && spec_same_text_style(sp, c.pen)) || (c.ch == ' '
                && sp.underline == c.pen.underline && sp.strikethrough == c.pen.strikethrough) {
                CompactStateV {
                    open_fg: Some(TextSpanV { len: sp.len + 1, ..sp }),
                    ..s
                }
            } else {
                CompactStateV {
                    fg: s.fg.push(sp),
                    open_fg: Some(new_text_span(s.x, j, efg, c.pen)),
                    ..s
                }
            },
        }
    }
}

/// One cell of the pass: continuation cells are invisible to every rule;
/// otherwise resolve the effective colors under the cursor, apply the
/// background and text rules, record the display character and advance the
/// column by the cell's width.
pub open spec fn step(s: CompactStateV, c: CellV, cur: Option<int>, bold_is_bright: bool) -> CompactStateV {
    if c.width <= 0 {
        s
    } else {
        let here = cur == Some(s.x);
        let ebg = spec_eff_bg(c.pen, here, bold_is_bright);
        let efg = spec_eff_fg(c.pen, here, bold_is_bright);
        let s1 = bg_step(s, ebg, c.width);
        let s2 = fg_step(s1, c, efg);
        CompactStateV { chars: s2.chars.push(display_char(c)), x: s2.x + c.width, ..s2 }
    }
}

/// The pass over a whole row.
pub open spec fn run(cells: Seq<CellV>, cur: Option<int>, bold_is_bright: bool) -> CompactStateV
    decreases cells.len(),
{
    if cells.len() == 0 {
        init_state()
    } else {
        step(run(cells.drop_last(), cur, bold_is_bright), cells.last(), cur, bold_is_bright)
    }
}

/// Closing flush after the pass: any still-open spans are emitted.
pub open spec fn finish(s: CompactStateV) -> RowOutputV {
    let s1 = match s.open_bg {
        None => s,
        Some(sp) => CompactStateV { bg: s.bg.push(sp), open_bg: None, ..s },
    };
    let s2 = flush_fg(s1);
    RowOutputV { bg: s2.bg, fg: s2.fg, raster: s2.raster, vector: s2.vector, chars: s2.chars }
}

/// The compacted form of one row of cells under the given cursor column.
pub open spec fn compact_spec(cells: Seq<CellV>, cur: Option<int>, bold_is_bright: bool) -> RowOutputV {
    finish(run(cells, cur, bold_is_bright))
}

/// Attribute equivalence of an open span and a cell's pen (all flags except
/// `inverse`).
pub fn is_same_text_style(sp: &TextSpan, pen: &Pen) -> (r: bool)
    ensures
        r == spec_same_text_style(sp@, *pen),
{
    sp.bold == pen.bold && sp.faint == pen.faint && sp.italic == pen.italic && sp.underline
        == pen.underline && sp.strikethrough == pen.strikethrough && sp.blink == pen.blink
}

/// A fresh single-cell text span for a cell.
pub fn build_fg_span(x: u16, start: u16, fg: Color, pen: &Pen) -> (r: TextSpan)
    ensures
        r@ == new_text_span(x as int, start as int, fg, *pen),
{
    TextSpan {
        column: x,
        start: start,
        len: 1,
        fg: fg,
        bold: pen.bold,
        faint: pen.faint,
        italic: pen.italic,
        underline: pen.underline,
        strikethrough: pen.strikethrough,
        blink: pen.blink,
    }
}

/// Applies the background merge rule for one visible cell, mirroring
/// `bg_step` on the executable state.
fn apply_bg(
    bg: &mut Vec<BgSpan>,
    open_bg: &mut Option<BgSpan>,
    x: u16,
    w: u16,
    ebg: Option<Color>,
    Ghost(pre): Ghost<CompactStateV>,
)
    requires
        pre.bg == old(bg)@.map_values(|s: BgSpan| s@),
        pre.open_bg == (match *old(open_bg) {
            None => None::<BgSpanV>,
            Some(sp) => Some(sp@),
        }),
        pre.x == x as int,
        *old(open_bg) matches Some(sp) ==> sp.column as int + sp.width as int == x as int,
        x as int + w as int <= 0xffff,
        w >= 1,
    ensures
        final(bg)@.map_values(|s: BgSpan| s@) == bg_step(pre, ebg, w as int).bg,
        (match *final(open_bg) {
            None => None::<BgSpanV>,
            Some(sp) => Some(sp@),
        }) == bg_step(pre, ebg, w as int).open_bg,
        *final(open_bg) matches Some(sp) ==> sp.column as int + sp.width as int == x as int
            + w as int,
{
    let ghost post = bg_step(pre, ebg, w as int);
    match (*open_bg, ebg) {
        (None, None) => {},
        (None, Some(color)) => {
            *open_bg = Some(BgSpan { column: x, width: w, color });
        },
        (Some(sp), None) => {
            bg.push(sp);
            *open_bg = None;
        },
        (Some(sp), Some(color)) => {
            if color_eq(sp.color, color) {
                *open_bg = Some(BgSpan { column: sp.column, width: sp.width + w, color: sp.color });
            } else {
                bg.push(sp);
                *open_bg = Some(BgSpan { column: x, width: w, color });
            }
        },
    }
    proof {
        assert(bg@.map_values(|s: BgSpan| s@) =~= post.bg);
    }
}

/// Applies symbol extraction and the text merge rule for one visible cell,
/// mirroring `fg_step` on the executable state. `start` is the character
/// buffer index of the cell.
fn apply_fg(
    fg: &mut Vec<TextSpan>,
    open_fg: &mut Option<TextSpan>,
    raster: &mut Vec<RasterSymbol>,
    vector: &mut Vec<VectorSymbol>,
    cls: &CharClassifier,
    x: u16,
    start: u16,
    c: Cell,
    efg: Color,
    Ghost(pre): Ghost<CompactStateV>,
)
    requires
        cls.wf(),
        pre.fg == old(fg)@.map_values(|s: TextSpan| s@),
        pre.open_fg == (match *old(open_fg) {
            None => None::<TextSpanV>,
            Some(sp) => Some(sp@),
        }),
        pre.raster == old(raster)@.map_values(|s: RasterSymbol| s@),
        pre.vector == old(vector)@.map_values(|s: VectorSymbol| s@),
        pre.x == x as int,
        pre.chars.len() == start as int,
        *old(open_fg) matches Some(sp) ==> sp.len as int <= start as int,
        start as int + 1 <= 0xffff,
    ensures
        final(fg)@.map_values(|s: TextSpan| s@) == fg_step(pre, c@, efg).fg,
        (match *final(open_fg) {
            None => None::<TextSpanV>,
            Some(sp) => Some(sp@),
        }) == fg_step(pre, c@, efg).open_fg,
        final(raster)@.map_values(|s: RasterSymbol| s@) == fg_step(pre, c@, efg).raster,
        final(vector)@.map_values(|s: VectorSymbol| s@) == fg_step(pre, c@, efg).vector,
        *final(open_fg) matches Some(sp) ==> sp.len as int <= start as int + 1,
{
    let ghost post = fg_step(pre, c@, efg);
    let cat = crate::classify::symbol_category(c.ch);
    match cat {
        SymbolCategory::Raster => {
            if let Some(sp) = *open_fg {
                fg.push(sp);
                *open_fg = None;
            }
            raster.push(RasterSymbol { column: x, ch: c.ch, fg: efg });
        },
        SymbolCategory::Vector => {
            if let Some(sp) = *open_fg {
                fg.push(sp);
                *open_fg = None;
            }
            vector.push(
                VectorSymbol {
                    column: x,
                    ch: c.ch,
                    fg: efg,
                    bold: c.pen.bold,
                    faint: c.pen.faint,
                    italic: c.pen.italic,
                    underline: c.pen.underline,
                    strikethrough: c.pen.strikethrough,
                    blink: c.pen.blink,
                },
            );
        },
        SymbolCategory::NoSymbol => {
            if cls.is_standalone(c.ch, c.width) {
                if let Some(sp) = *open_fg {
                    fg.push(sp);
                    *open_fg = None;
                }
                fg.push(build_fg_span(x, start, efg, &c.pen));
            } else {
                match *open_fg {
                    None => {
                        *open_fg = Some(build_fg_span(x, start, efg, &c.pen));
                    },
                    Some(sp) => {
                        if (color_eq(sp.fg, efg) && is_same_text_style(&sp, &c.pen)) || (c.ch
                            == ' ' && sp.underline == c.pen.underline && sp.strikethrough
                            == c.pen.strikethrough) {
                            *open_fg = Some(TextSpan { len: sp.len + 1, ..sp });
                        } else {
                            fg.push(sp);
                            *open_fg = Some(build_fg_span(x, start, efg, &c.pen));
                        }
                    },
                }
            }
        },
    }
    proof {
        assert(fg@.map_values(|s: TextSpan| s@) =~= post.fg);
        assert(raster@.map_values(|s: RasterSymbol| s@) =~= post.raster);
        assert(vector@.map_values(|s: VectorSymbol| s@) =~= post.vector);
    }
}

/// Compacts one row of cells into background spans, text spans, symbol
/// records and the character buffer, exactly as the single-pass rules
/// describe.
#[verifier::loop_isolation(false)]
#[verifier::rlimit(100)]
pub fn compact(
    cells: &Vec<Cell>,
    cls: &CharClassifier,
    cursor: CursorPos,
    cursor_on: bool,
    row: usize,
    bold_is_bright: bool,
) -> (r: RowOutput)
    requires
        cls.wf(),
        cells@.len() <= MAX_ROW_CELLS,
        forall|i: int| 0 <= i < cells@.len() ==> #[trigger] cells@[i].width <= 2,
    ensures
        r@ == compact_spec(
            cells@.map_values(|c: Cell| c@),
            active_cursor_col(cursor, cursor_on, row as int),
            bold_is_bright,
        ),
{
    let ghost cvs = cells@.map_values(|c: Cell| c@);
    let ghost cur = active_cursor_col(cursor, cursor_on, row as int);

    let mut bg: Vec<BgSpan> = Vec::new();
    let mut open_bg: Option<BgSpan> = None;
    let mut fg: Vec<TextSpan> = Vec::new();
    let mut open_fg: Option<TextSpan> = None;
    let mut raster: Vec<RasterSymbol> = Vec::new();
    let mut vector: Vec<VectorSymbol> = Vec::new();
    let mut chars: Vec<char> = Vec::new();
    let mut x: u16 = 0;

    let mut i: usize = 0;
    while i < cells.len()
        invariant
            i <= cells@.len(),
            x as int <= 2 * i,
            chars@.len() <= i,
            open_bg matches Some(sp) ==> sp.column as int + sp.width as int == x as int,
            open_fg matches Some(sp) ==> sp.len as int <= chars@.len(),
            run(cvs.take(i as int), cur, bold_is_bright) == (CompactStateV {
                bg: bg@.map_values(|s: BgSpan| s@),
                open_bg: match open_bg {
                    None => None,
                    Some(sp) => Some(sp@),
                },
                fg: fg@.map_values(|s: TextSpan| s@),
                open_fg: match open_fg {
                    None => None,
                    Some(sp) => Some(sp@),
                },
                raster: raster@.map_values(|s: RasterSymbol| s@),
                vector: vector@.map_values(|s: VectorSymbol| s@),
                chars: chars@,
                x: x as int,
            }),
        decreases cells@.len() - i,
    {
        let ghost pre = run(cvs.take(i as int), cur, bold_is_bright);
        proof {
            assert(cvs.take(i as int + 1).drop_last() =~= cvs.take(i as int));
            assert(cvs.take(i as int + 1).last() == cvs[i as int]);
        }
        let c = cells[i];
        if c.width > 0 {
            let here = cursor.visible && cursor_on && cursor.row == row && cursor.col == x as usize;
            assert(here == (cur == Some(x as int)));
            let ebg = eff_bg(&c.pen, here, bold_is_bright);
            let efg = eff_fg(&c.pen, here, bold_is_bright);

            apply_bg(&mut bg, &mut open_bg, x, c.width, ebg, Ghost(pre));
            let ghost mid = bg_step(pre, ebg, c.width as int);
            let start = chars.len() as u16;
            apply_fg(
                &mut fg,
                &mut open_fg,
                &mut raster,
                &mut vector,
                cls,
                x,
                start,
                c,
                efg,
                Ghost(mid),
            );

            let dch = match crate::classify::symbol_category(c.ch) {
                SymbolCategory::NoSymbol => c.ch,
                _ => ' ',
            };
            chars.push(dch);
            x = x + c.width;
        }
        proof {
            let post = run(cvs.take(i as int + 1), cur, bold_is_bright);
            assert(post == step(pre, cvs[i as int], cur, bold_is_bright));
            assert(bg@.map_values(|s: BgSpan| s@) =~= post.bg);
            assert(fg@.map_values(|s: TextSpan| s@) =~= post.fg);
            assert(raster@.map_values(|s: RasterSymbol| s@) =~= post.raster);
            assert(vector@.map_values(|s: VectorSymbol| s@) =~= post.vector);
            assert(chars@ =~= post.chars);
        }
        i = i + 1;
    }
    proof {
        assert(cvs.take(cells@.len() as int) =~= cvs);
    }

    // flush any still-open spans
    if let Some(sp) = open_bg {
        bg.push(sp);
    }
    if let Some(sp) = open_fg {
        fg.push(sp);
    }

    let r = RowOutput { bg, fg, raster, vector, chars };
    proof {
        let out = compact_spec(cvs, cur, bold_is_bright);
        assert(r@.bg =~= out.bg);
        assert(r@.fg =~= out.fg);
        assert(r@.raster =~= out.raster);
        assert(r@.vector =~= out.vector);
        assert(r@.chars =~= out.chars);
        assert(r@ == out);
    }
    r
}

} // verus!
