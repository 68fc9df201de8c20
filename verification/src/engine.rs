//! The terminal engine boundary. The emulator itself (escape-sequence
//! parsing, cursor movement, scrollback, resize) is the `avt` crate,
//! consumed through trusted declarations; everything computed from the cells
//! it hands back is verified.
//!
//! The engine's observable state is modeled by three uninterpreted
//! functions: the grid size (`engine_cols`/`engine_rows`), the cells of each
//! visible row (`engine_line_cells`) and the cursor (`engine_cursor_state`).
//! `Vt` mirrors the grid size in plain fields so callers can discharge the
//! row-bounds obligation of `get_line`.

use vstd::prelude::*;

use avt::Cell as AvtCell;
use avt::Color as AvtColor;
use avt::Vt as AvtVt;

use crate::classify::CharClassifier;
use crate::color::{Color, Pen};
use crate::compact::{
    active_cursor_col, compact, compact_spec, Cell, CellV, CursorPos, RowOutput, MAX_ROW_CELLS,
};
use crate::props::{lemma_span_coverage, row_wf};

verus! {

#[verifier::external_type_specification]
#[verifier::external_body]
pub struct ExAvtVt(AvtVt);

#[verifier::external_type_specification]
#[verifier::external_body]
pub struct ExAvtCell(AvtCell);

#[verifier::external_type_specification]
#[verifier::external_body]
pub struct ExAvtColor(AvtColor);

/// Columns of the engine's visible grid.
pub uninterp spec fn engine_cols(vt: AvtVt) -> int;

/// Rows of the engine's visible grid.
pub uninterp spec fn engine_rows(vt: AvtVt) -> int;

/// The cells of one visible row of the engine's grid, as plain values.
pub uninterp spec fn engine_line_cells(vt: AvtVt, row: int) -> Seq<CellV>;

/// The engine's cursor: column, row, visibility.
pub uninterp spec fn engine_cursor_state(vt: AvtVt) -> (int, int, bool);

/// Relies on AvtVt::builder, Builder::size, Builder::scrollback_limit and
/// Builder::build: constructs an emulator with exactly the given grid size
/// (the builder stores the size as given). avt requires a positive size
/// (row and column arithmetic subtracts one).
#[verifier::external_body]
fn new_engine(cols: usize, rows: usize, scrollback_limit: usize) -> (r: AvtVt)
    requires
        1 <= cols,
        1 <= rows,
    ensures
        engine_cols(r) == cols as int,
        engine_rows(r) == rows as int,
{
    avt::Vt::builder().size(cols, rows).scrollback_limit(scrollback_limit).build()
}

/// Relies on AvtVt::feed_str: feeds text to the emulator and returns the
/// indices of the changed visible lines. The engine keeps one dirty flag per
/// visible row, so each index is below the row count; control sequences may
/// resize the grid, so nothing else is assumed about the size afterwards.
#[verifier::external_body]
fn engine_feed(vt: &mut AvtVt, s: &str) -> (r: Vec<usize>)
    ensures
        forall|i: int| 0 <= i < r@.len() ==> (#[trigger] r@[i]) < engine_rows(*final(vt)),
{
    vt.feed_str(s).lines
}

/// Relies on AvtVt::resize: sets the grid to exactly the given size (the
/// terminal stores the new size unconditionally) and returns the changed
/// line indices, each below the new row count (the engine keeps one dirty
/// flag per visible row). avt requires a positive size.
#[verifier::external_body]
fn engine_resize(vt: &mut AvtVt, cols: usize, rows: usize) -> (r: Vec<usize>)
    requires
        1 <= cols,
        1 <= rows,
    ensures
        engine_cols(*final(vt)) == cols as int,
        engine_rows(*final(vt)) == rows as int,
        forall|i: int| 0 <= i < r@.len() ==> (#[trigger] r@[i]) < engine_rows(*final(vt)),
{
    vt.resize(cols, rows).lines
}

/// Relies on AvtVt::size: returns the current grid size.
#[verifier::external_body]
fn engine_size(vt: &AvtVt) -> (r: (usize, usize))
    ensures
        r.0 as int == engine_cols(*vt),
        r.1 as int == engine_rows(*vt),
{
    vt.size()
}

/// Relies on AvtVt::cursor: the cursor's column, row and visibility.
#[verifier::external_body]
fn engine_cursor(vt: &AvtVt) -> (r: (usize, usize, bool))
    ensures
        engine_cursor_state(*vt) == (r.0 as int, r.1 as int, r.2),
{
    let c = vt.cursor();
    (c.col, c.row, c.visible)
}

/// Relies on AvtColor: maps the engine's color to the library's value
/// (indexed stays indexed, RGB keeps its components).
#[verifier::external_body]
fn color_from_engine(c: AvtColor) -> Color {
    match c {
        AvtColor::Indexed(n) => Color::Indexed(n),
        AvtColor::RGB(rgb) => Color::Rgb(rgb.r, rgb.g, rgb.b),
    }
}

/// Relies on AvtCell::char, AvtCell::width, AvtCell::pen and the
/// avt::Pen accessors: copies one engine cell into the library's cell value.
#[verifier::external_body]
fn cell_from_engine(c: &AvtCell) -> Cell {
    let p = c.pen();
    Cell {
        ch: c.char(),
        width: c.width() as u16,
        pen: Pen {
            foreground: p.foreground().map(color_from_engine),
            background: p.background().map(color_from_engine),
            bold: p.is_bold(), faint: p.is_faint(), italic: p.is_italic(),
            underline: p.is_underline(), strikethrough: p.is_strikethrough(),
            blink: p.is_blink(), inverse: p.is_inverse(),
        },
    }
}

/// Relies on AvtVt::line and avt::Line::cells: the cells of one visible
/// row, converted to plain values. A cell is 0, 1 or 2 columns wide
/// (avt's occupancy is single, wide head or wide tail), and a two-column
/// cell always holds a non-ASCII character: avt gives double width only to
/// characters that unicode-width reports as wide, and every ASCII character
/// has at most single width there.
#[verifier::external_body]
fn engine_row(vt: &AvtVt, row: usize) -> (r: Vec<Cell>)
    requires
        row < engine_rows(*vt),
    ensures
        r@.map_values(|c: Cell| c@) == engine_line_cells(*vt, row as int),
        forall|i: int| 0 <= i < r@.len() ==> (#[trigger] r@[i]).width <= 2,
        forall|i: int|
            0 <= i < r@.len() && (#[trigger] r@[i]).width == 2 ==> (r@[i].ch as u32) >= 0x80,
{
    vt.line(row).cells().iter().map(cell_from_engine).collect()
}

/// A virtual terminal: the emulator, the row compactor's classifier table,
/// a mirror of the grid size, and the bold-is-bright rendering option.
pub struct Vt {
    engine: AvtVt,
    classifier: CharClassifier,
    cols: usize,
    rows: usize,
    bold_is_bright: bool,
}

/// Creates a virtual terminal with the given grid size (positive, at most
/// 32767 columns so every row fits the binary protocol's 16-bit columns),
/// scrollback limit, and bold-is-bright option.
pub fn create(cols: usize, rows: usize, scrollback_limit: usize, bold_is_bright: bool) -> (r: Vt)
    requires
        1 <= cols <= MAX_ROW_CELLS,
        1 <= rows,
    ensures
        r.wf(),
        r.spec_cols() == cols,
        r.spec_rows() == rows,
        r.spec_bold_is_bright() == bold_is_bright,
{
    let engine = new_engine(cols, rows, scrollback_limit);
    Vt { engine, classifier: CharClassifier::new(), cols, rows, bold_is_bright }
}

impl Vt {
    /// The size mirror matches the engine and the classifier table is built.
    pub closed spec fn wf(&self) -> bool {
        &&& self.classifier.wf()
        &&& self.cols as int == engine_cols(self.engine)
        &&& self.rows as int == engine_rows(self.engine)
    }

    pub closed spec fn spec_cols(&self) -> int {
        self.cols as int
    }

    pub closed spec fn spec_rows(&self) -> int {
        self.rows as int
    }

    pub closed spec fn spec_bold_is_bright(&self) -> bool {
        self.bold_is_bright
    }

    /// The emulator value, for contracts over the engine's modeled state.
    pub closed spec fn spec_engine(&self) -> AvtVt {
        self.engine
    }

    /// Feeds text to the emulator and returns the indices of the changed
    /// visible lines, each a valid row for `get_line`. Control sequences may
    /// resize the grid, so the size mirror is re-read from the engine
    /// afterwards.
    pub fn feed(&mut self, s: &str) -> (r: Vec<usize>)
        requires
            old(self).wf(),
        ensures
            final(self).wf(),
            final(self).spec_bold_is_bright() == old(self).spec_bold_is_bright(),
            forall|i: int| 0 <= i < r@.len() ==> (#[trigger] r@[i]) < final(self).spec_rows(),
    {
        let r = engine_feed(&mut self.engine, s);
        let (cols, rows) = engine_size(&self.engine);
        self.cols = cols;
        self.rows = rows;
        r
    }

    /// Resizes the grid and returns the indices of the changed visible
    /// lines, each a valid row for `get_line`. The column bound keeps every
    /// row within the binary protocol's 16-bit columns.
    pub fn resize(&mut self, cols: usize, rows: usize) -> (r: Vec<usize>)
        requires
            old(self).wf(),
            1 <= cols <= MAX_ROW_CELLS,
            1 <= rows,
        ensures
            final(self).wf(),
            final(self).spec_cols() == cols,
            final(self).spec_rows() == rows,
            final(self).spec_bold_is_bright() == old(self).spec_bold_is_bright(),
            forall|i: int| 0 <= i < r@.len() ==> (#[trigger] r@[i]) < final(self).spec_rows(),
    {
        let r = engine_resize(&mut self.engine, cols, rows);
        self.cols = cols;
        self.rows = rows;
        r
    }

    /// The grid size, as a two-element column/row vector.
    pub fn get_size(&self) -> (r: Vec<usize>)
        requires
            self.wf(),
        ensures
            r@.len() == 2,
            r@[0] as int == self.spec_cols(),
            r@[1] as int == self.spec_rows(),
    {
        let mut r: Vec<usize> = Vec::new();
        r.push(self.cols);
        r.push(self.rows);
        r
    }

    /// The cursor position when it is visible.
    pub fn get_cursor(&self) -> (r: Option<(usize, usize)>)
        ensures
            (match r {
                Some(p) => engine_cursor_state(self.spec_engine()) == (
                    p.0 as int,
                    p.1 as int,
                    true,
                ),
                None => !engine_cursor_state(self.spec_engine()).2,
            }),
    {
        let (col, row, visible) = engine_cursor(&self.engine);
        if visible {
            Some((col, row))
        } else {
            None
        }
    }

    /// Compacts one visible row: the row's cells are read from the emulator
    /// and compacted under the current cursor state. `cursor_on` lets the
    /// caller render with the cursor hidden (a blinked-off phase) without
    /// touching emulator state; the result also satisfies the row coverage
    /// law. Out-of-range rows are a contract violation.
    ///
    /// Rows wider than the binary protocol's 16-bit column range (possible
    /// only when a control sequence resized the grid beyond `resize`'s
    /// bound) are cut at `MAX_ROW_CELLS` cells.
    pub fn get_line(&self, row: usize, cursor_on: bool) -> (r: RowOutput)
        requires
            self.wf(),
            row < self.spec_rows(),
        ensures
            r@ == compact_spec(
                clip_row(engine_line_cells(self.spec_engine(), row as int)),
                active_cursor_col(
                    cursor_of(engine_cursor_state(self.spec_engine())),
                    cursor_on,
                    row as int,
                ),
                self.spec_bold_is_bright(),
            ),
            row_wf(r@, clip_row(engine_line_cells(self.spec_engine(), row as int))),
    {
        let raw = engine_row(&self.engine, row);
        let cells = clip_row_exec(raw);
        proof {
            assert forall|i: int| 0 <= i < cells@.len() implies (#[trigger] cells@[i]).width
                <= 2 by {
                assert(cells@.map_values(|c: Cell| c@)[i] == cells@[i]@);
                assert(raw@.map_values(|c: Cell| c@)[i] == raw@[i]@);
                assert(cells@[i]@.width == raw@[i]@.width);
            }
        }
        let (ccol, crow, cvis) = engine_cursor(&self.engine);
        let cursor = CursorPos { col: ccol, row: crow, visible: cvis };
        proof {
            lemma_span_coverage(
                cells@.map_values(|c: Cell| c@),
                active_cursor_col(cursor, cursor_on, row as int),
                self.bold_is_bright,
            );
        }
        compact(&cells, &self.classifier, cursor, cursor_on, row, self.bold_is_bright)
    }
}

/// A cursor triple as a cursor position value.
pub open spec fn cursor_of(c: (int, int, bool)) -> CursorPos {
    CursorPos { col: c.0 as usize, row: c.1 as usize, visible: c.2 }
}

/// A row cut to the widest prefix the binary protocol can describe.
pub open spec fn clip_row(cells: Seq<CellV>) -> Seq<CellV> {
    if cells.len() <= MAX_ROW_CELLS {
        cells
    } else {
        cells.take(MAX_ROW_CELLS as int)
    }
}

/// Cuts a row to the widest prefix the binary protocol can describe.
fn clip_row_exec(cells: Vec<Cell>) -> (r: Vec<Cell>)
    ensures
        r@.map_values(|c: Cell| c@) == clip_row(cells@.map_values(|c: Cell| c@)),
        r@.len() <= MAX_ROW_CELLS,
{
    if cells.len() <= MAX_ROW_CELLS {
        cells
    } else {
        let mut r: Vec<Cell> = Vec::new();
        let mut i: usize = 0;
        while i < MAX_ROW_CELLS
            invariant
                i <= MAX_ROW_CELLS,
                MAX_ROW_CELLS < cells@.len(),
                r@ == cells@.take(i as int),
            decreases MAX_ROW_CELLS - i,
        {
            r.push(cells[i]);
            proof {
                assert(r@ =~= cells@.take(i as int + 1));
            }
            i = i + 1;
        }
        proof {
            assert(r@.map_values(|c: Cell| c@) =~= cells@.map_values(|c: Cell| c@).take(
                MAX_ROW_CELLS as int,
            ));
        }
        r
    }
}

} // verus!
