//! Row-level laws of the compactor, proved over the single-pass model:
//! span coverage, merge correctness and standalone isolation.

use vstd::prelude::*;

use crate::classify::{is_ascii_char, spec_is_standalone, spec_symbol_category, SymbolCategory};
use crate::color::{spec_eff_fg, Color};
use crate::compact::{
    bg_step, compact_spec, display_char, finish, init_state, new_text_span, run,
    spec_same_text_style, step, CellV, CompactStateV, RowOutputV, TextSpanV,
};

verus! {

/// The visible cells of a row: continuation cells (width 0) are invisible to
/// every compaction rule.
pub open spec fn visible(cells: Seq<CellV>) -> Seq<CellV>
    decreases cells.len(),
{
    if cells.len() == 0 {
        Seq::empty()
    } else if cells.last().width <= 0 {
        visible(cells.drop_last())
    } else {
        visible(cells.drop_last()).push(cells.last())
    }
}

/// The column where the `j`-th visible cell starts: the sum of the widths of
/// the visible cells before it.
#[verifier::opaque]
pub open spec fn widths_before(vis: Seq<CellV>, j: int) -> int
    decreases j,
{
    if j <= 0 {
        0
    } else {
        widths_before(vis, j - 1) + vis[j - 1].width
    }
}

/// The total width of a row.
pub open spec fn total_width(cells: Seq<CellV>) -> int {
    widths_before(visible(cells), visible(cells).len() as int)
}

/// A cell whose character leaves the text stream as a symbol record.
pub open spec fn is_symbol_cell(c: CellV) -> bool {
    spec_symbol_category(c.ch) != SymbolCategory::NoSymbol
}

/// Text span `sp` covers the cell at character-buffer index `j`.
pub open spec fn text_in_range(sp: TextSpanV, j: int) -> bool {
    sp.start <= j < sp.start + sp.len
}

/// Some text span of the state (closed or open) covers index `j`.
pub open spec fn text_covers(s: CompactStateV, j: int) -> bool {
    (exists|k: int| 0 <= k < s.fg.len() && text_in_range(#[trigger] s.fg[k], j)) || (
    s.open_fg matches Some(sp) && text_in_range(sp, j))
}

/// Some text span of the output covers index `j`.
pub open spec fn out_text_covers(out: RowOutputV, j: int) -> bool {
    exists|k: int| 0 <= k < out.fg.len() && text_in_range(#[trigger] out.fg[k], j)
}

/// A raster record of the output sits at column `col`.
pub open spec fn raster_at(out: RowOutputV, col: int) -> bool {
    exists|k: int| 0 <= k < out.raster.len() && (#[trigger] out.raster[k]).column == col
}

/// A vector record of the output sits at column `col`.
pub open spec fn vector_at(out: RowOutputV, col: int) -> bool {
    exists|k: int| 0 <= k < out.vector.len() && (#[trigger] out.vector[k]).column == col
}

/// Counting part of the pass invariant: one buffered character per visible
/// cell, the column counter equals the width consumed, and visible cells are
/// at least one column wide.
pub open spec fn base_inv(s: CompactStateV, vis: Seq<CellV>) -> bool {
    &&& s.chars.len() == vis.len()
    &&& s.x == widths_before(vis, vis.len() as int)
    &&& (forall|j: int| 0 <= j < vis.len() ==> s.chars[j] == display_char(#[trigger] vis[j]))
    &&& (forall|j: int| 0 <= j < vis.len() ==> (#[trigger] vis[j]).width >= 1)
}

/// Background part of the pass invariant: closed spans are non-empty,
/// pairwise ordered and disjoint, and end at or before the current column;
/// the open span, when there is one, starts after every closed span and ends
/// exactly at the current column.
pub open spec fn bg_inv(s: CompactStateV) -> bool {
    &&& s.x >= 0
    &&& (forall|k: int|
        0 <= k < s.bg.len() ==> (#[trigger] s.bg[k]).width >= 1 && s.bg[k].column >= 0)
    &&& (forall|k1: int, k2: int|
        0 <= k1 < k2 < s.bg.len() ==> (#[trigger] s.bg[k1]).column + s.bg[k1].width <= (
        #[trigger] s.bg[k2]).column)
    &&& (forall|k: int| 0 <= k < s.bg.len() ==> (#[trigger] s.bg[k]).column + s.bg[k].width <= s.x)
    &&& (s.open_bg matches Some(sp) ==> sp.width >= 1 && sp.column >= 0 && sp.column + sp.width
        == s.x && (forall|k: int|
        0 <= k < s.bg.len() ==> (#[trigger] s.bg[k]).column + s.bg[k].width <= sp.column))
}

/// A text span covers exactly the non-symbol cells.
#[verifier::opaque]
pub open spec fn covers_ok(s: CompactStateV, vis: Seq<CellV>) -> bool {
    forall|j: int| 0 <= j < s.chars.len() ==> (text_covers(s, j) <==> !is_symbol_cell(vis[j]))
}

/// Text part of the pass invariant: closed spans are non-empty, ordered and
/// disjoint ranges of the character buffer; the open span ends exactly at
/// the buffer's end and starts after every closed span; a text span covers
/// exactly the non-symbol cells; a span covering a standalone cell is a
/// single-cell span, and the open span never covers one.
pub open spec fn fg_inv(s: CompactStateV, vis: Seq<CellV>) -> bool {
    let n = s.chars.len() as int;
    &&& (forall|k: int|
        0 <= k < s.fg.len() ==> (#[trigger] s.fg[k]).len >= 1 && s.fg[k].start >= 0 && s.fg[
            k
        ].start + s.fg[k].len <= n)
    &&& (forall|k1: int, k2: int|
        0 <= k1 < k2 < s.fg.len() ==> (#[trigger] s.fg[k1]).start + s.fg[k1].len <= (
        #[trigger] s.fg[k2]).start)
    &&& (s.open_fg matches Some(sp) ==> sp.len >= 1 && sp.start >= 0 && sp.start + sp.len == n && (
    forall|k: int| 0 <= k < s.fg.len() ==> (#[trigger] s.fg[k]).start + s.fg[k].len <= sp.start))
    &&& covers_ok(s, vis)
    &&& (forall|k: int, j: int|
        0 <= k < s.fg.len() && #[trigger] text_in_range(s.fg[k], j) && spec_is_standalone(
            vis[j].ch,
            vis[j].width,
        ) ==> s.fg[k].len == 1)
    &&& (s.open_fg matches Some(sp) ==> (forall|j: int|
        #[trigger] text_in_range(sp, j) ==> !spec_is_standalone(vis[j].ch, vis[j].width)))
}

/// Every raster record sits at the column of a visible raster cell.
#[verifier::opaque]
pub open spec fn raster_sound(s: CompactStateV, vis: Seq<CellV>) -> bool {
    forall|k: int|
        0 <= k < s.raster.len() ==> exists|j: int|
            0 <= j < vis.len() && (#[trigger] s.raster[k]).column == widths_before(vis, j)
                && spec_symbol_category(vis[j].ch) == SymbolCategory::Raster
}

/// Every visible raster cell has a raster record at its column.
#[verifier::opaque]
pub open spec fn raster_complete(s: CompactStateV, vis: Seq<CellV>) -> bool {
    forall|j: int|
        0 <= j < vis.len() && spec_symbol_category((#[trigger] vis[j]).ch)
            == SymbolCategory::Raster ==> exists|k: int|
            0 <= k < s.raster.len() && (#[trigger] s.raster[k]).column == widths_before(vis, j)
}

/// Every vector record sits at the column of a visible vector cell.
#[verifier::opaque]
pub open spec fn vector_sound(s: CompactStateV, vis: Seq<CellV>) -> bool {
    forall|k: int|
        0 <= k < s.vector.len() ==> exists|j: int|
            0 <= j < vis.len() && (#[trigger] s.vector[k]).column == widths_before(vis, j)
                && spec_symbol_category(vis[j].ch) == SymbolCategory::Vector
}

/// Every visible vector cell has a vector record at its column.
#[verifier::opaque]
pub open spec fn vector_complete(s: CompactStateV, vis: Seq<CellV>) -> bool {
    forall|j: int|
        0 <= j < vis.len() && spec_symbol_category((#[trigger] vis[j]).ch)
            == SymbolCategory::Vector ==> exists|k: int|
            0 <= k < s.vector.len() && (#[trigger] s.vector[k]).column == widths_before(vis, j)
}

/// Symbol part of the pass invariant: record columns are strictly increasing
/// and below the current column, every record sits at the column of a
/// visible cell of its category, and every such cell has a record.
pub open spec fn sym_inv(s: CompactStateV, vis: Seq<CellV>) -> bool {
    &&& (forall|k: int| 0 <= k < s.raster.len() ==> (#[trigger] s.raster[k]).column < s.x)
    &&& (forall|k1: int, k2: int|
        0 <= k1 < k2 < s.raster.len() ==> (#[trigger] s.raster[k1]).column < (
        #[trigger] s.raster[k2]).column)
    &&& raster_sound(s, vis)
    &&& raster_complete(s, vis)
    &&& (forall|k: int| 0 <= k < s.vector.len() ==> (#[trigger] s.vector[k]).column < s.x)
    &&& (forall|k1: int, k2: int|
        0 <= k1 < k2 < s.vector.len() ==> (#[trigger] s.vector[k1]).column < (
        #[trigger] s.vector[k2]).column)
    &&& vector_sound(s, vis)
    &&& vector_complete(s, vis)
}

/// The whole pass invariant.
pub open spec fn state_inv(s: CompactStateV, vis: Seq<CellV>) -> bool {
    &&& base_inv(s, vis)
    &&& bg_inv(s)
    &&& fg_inv(s, vis)
    &&& sym_inv(s, vis)
}

/// Appending a cell does not change the columns of earlier visible cells.
pub proof fn lemma_widths_before_push(vis: Seq<CellV>, c: CellV, j: int)
    requires
        0 <= j <= vis.len(),
    ensures
        widths_before(vis.push(c), j) == widths_before(vis, j),
    decreases j,
{
    reveal(widths_before);
    if j > 0 {
        lemma_widths_before_push(vis, c, j - 1);
        assert(vis.push(c)[j - 1] == vis[j - 1]);
    }
}

/// Columns of visible cells grow by at least one per cell.
pub proof fn lemma_widths_before_mono(vis: Seq<CellV>, j1: int, j2: int)
    requires
        0 <= j1 <= j2 <= vis.len(),
        forall|j: int| 0 <= j < vis.len() ==> (#[trigger] vis[j]).width >= 1,
    ensures
        widths_before(vis, j1) + (j2 - j1) <= widths_before(vis, j2),
    decreases j2 - j1,
{
    reveal(widths_before);
    if j1 < j2 {
        lemma_widths_before_mono(vis, j1, j2 - 1);
    }
}

/// One visible cell maintains the counting invariant.
proof fn lemma_step_base(s: CompactStateV, vis: Seq<CellV>, c: CellV, cur: Option<int>, bib: bool)
    requires
        base_inv(s, vis),
        c.width >= 1,
    ensures
        base_inv(step(s, c, cur, bib), vis.push(c)),
{
    reveal(widths_before);
    let s2 = step(s, c, cur, bib);
    let vis2 = vis.push(c);
    assert(s2.chars =~= s.chars.push(display_char(c)));
    lemma_widths_before_push(vis, c, vis.len() as int);
    assert(widths_before(vis2, vis2.len() as int) == widths_before(vis2, vis.len() as int)
        + c.width);
    assert forall|j: int| 0 <= j < vis2.len() implies s2.chars[j] == display_char(
        #[trigger] vis2[j],
    ) by {
        if j < vis.len() {
            assert(vis2[j] == vis[j]);
        }
    }
}

/// One visible cell maintains the background geometry.
proof fn lemma_step_bg(s: CompactStateV, c: CellV, cur: Option<int>, bib: bool)
    requires
        bg_inv(s),
        c.width >= 1,
    ensures
        bg_inv(step(s, c, cur, bib)),
{
    let here = cur == Some(s.x);
    let ebg = crate::color::spec_eff_bg(c.pen, here, bib);
    let s1 = bg_step(s, ebg, c.width);
    let s2 = step(s, c, cur, bib);
    assert(s2.bg == s1.bg && s2.open_bg == s1.open_bg && s2.x == s.x + c.width);
    match (s.open_bg, ebg) {
        (None, None) => {},
        (None, Some(color)) => {},
        (Some(sp), None) => {
            assert forall|k: int| 0 <= k < s2.bg.len() implies (#[trigger] s2.bg[k]).width >= 1
                && s2.bg[k].column >= 0 && s2.bg[k].column + s2.bg[k].width <= s2.x by {
                if k < s.bg.len() {
                    assert(s2.bg[k] == s.bg[k]);
                } else {
                    assert(s2.bg[k] == sp);
                }
            }
            assert forall|k1: int, k2: int| 0 <= k1 < k2 < s2.bg.len() implies (
            #[trigger] s2.bg[k1]).column + s2.bg[k1].width <= (#[trigger] s2.bg[k2]).column by {
                if k2 < s.bg.len() {
                    assert(s2.bg[k1] == s.bg[k1] && s2.bg[k2] == s.bg[k2]);
                } else {
                    assert(s2.bg[k1] == s.bg[k1] && s2.bg[k2] == sp);
                }
            }
        },
        (Some(sp), Some(color)) => {
            if sp.color == color {
            } else {
                assert forall|k: int| 0 <= k < s2.bg.len() implies (#[trigger] s2.bg[k]).width
                    >= 1 && s2.bg[k].column >= 0 && s2.bg[k].column + s2.bg[k].width <= s2.x by {
                    if k < s.bg.len() {
                        assert(s2.bg[k] == s.bg[k]);
                    } else {
                        assert(s2.bg[k] == sp);
                    }
                }
                assert forall|k1: int, k2: int| 0 <= k1 < k2 < s2.bg.len() implies (
                #[trigger] s2.bg[k1]).column + s2.bg[k1].width <= (#[trigger] s2.bg[k2]).column by {
                    if k2 < s.bg.len() {
                        assert(s2.bg[k1] == s.bg[k1] && s2.bg[k2] == s.bg[k2]);
                    } else {
                        assert(s2.bg[k1] == s.bg[k1] && s2.bg[k2] == sp);
                    }
                }
                assert(s2.open_bg matches Some(nsp) && nsp.column == s.x);
                assert forall|k: int| 0 <= k < s2.bg.len() implies (#[trigger] s2.bg[k]).column
                    + s2.bg[k].width <= s.x by {
                    if k < s.bg.len() {
                        assert(s2.bg[k] == s.bg[k]);
                    } else {
                        assert(s2.bg[k] == sp);
                    }
                }
            }
        },
    }
}

/// Symbol correspondence after one visible cell: at most one record is
/// appended, at the cell's column.
proof fn lemma_sym_grow(s: CompactStateV, s2: CompactStateV, vis: Seq<CellV>, c: CellV)
    requires
        base_inv(s, vis),
        sym_inv(s, vis),
        c.width >= 1,
        s2.x == s.x + c.width,
        spec_symbol_category(c.ch) == SymbolCategory::Raster ==> s2.raster.len() == s.raster.len()
            + 1 && s2.raster[s.raster.len() as int].column == s.x && s2.vector == s.vector && (
        forall|k: int| 0 <= k < s.raster.len() ==> s2.raster[k] == s.raster[k]),
        spec_symbol_category(c.ch) == SymbolCategory::Vector ==> s2.vector.len() == s.vector.len()
            + 1 && s2.vector[s.vector.len() as int].column == s.x && s2.raster == s.raster && (
        forall|k: int| 0 <= k < s.vector.len() ==> s2.vector[k] == s.vector[k]),
        spec_symbol_category(c.ch) == SymbolCategory::NoSymbol ==> s2.raster == s.raster
            && s2.vector == s.vector,
    ensures
        sym_inv(s2, vis.push(c)),
{
    let vis2 = vis.push(c);
    let cat = spec_symbol_category(c.ch);
    lemma_widths_before_push(vis, c, vis.len() as int);
    assert(widths_before(vis2, vis.len() as int) == s.x);

    assert forall|k: int| 0 <= k < s2.raster.len() implies (#[trigger] s2.raster[k]).column
        < s2.x by {
        if k < s.raster.len() {
            assert(s2.raster[k] == s.raster[k]);
        }
    }
    assert forall|k1: int, k2: int| 0 <= k1 < k2 < s2.raster.len() implies (
    #[trigger] s2.raster[k1]).column < (#[trigger] s2.raster[k2]).column by {
        assert(s2.raster[k1] == s.raster[k1]);
        if k2 < s.raster.len() {
            assert(s2.raster[k2] == s.raster[k2]);
        }
    }
    assert forall|k: int| 0 <= k < s2.vector.len() implies (#[trigger] s2.vector[k]).column
        < s2.x by {
        if k < s.vector.len() {
            assert(s2.vector[k] == s.vector[k]);
        }
    }
    assert forall|k1: int, k2: int| 0 <= k1 < k2 < s2.vector.len() implies (
    #[trigger] s2.vector[k1]).column < (#[trigger] s2.vector[k2]).column by {
        assert(s2.vector[k1] == s.vector[k1]);
        if k2 < s.vector.len() {
            assert(s2.vector[k2] == s.vector[k2]);
        }
    }

    assert(raster_sound(s2, vis2)) by {
        reveal(raster_sound);
        assert forall|k: int| 0 <= k < s2.raster.len() implies exists|j: int|
            0 <= j < vis2.len() && (#[trigger] s2.raster[k]).column == widths_before(vis2, j)
                && spec_symbol_category(vis2[j].ch) == SymbolCategory::Raster by {
            if k < s.raster.len() {
                assert(s2.raster[k] == s.raster[k]);
                let j0 = choose|j: int|
                    0 <= j < vis.len() && s.raster[k].column == widths_before(vis, j)
                        && spec_symbol_category(vis[j].ch) == SymbolCategory::Raster;
                lemma_widths_before_push(vis, c, j0);
                assert(vis2[j0] == vis[j0]);
                assert(0 <= j0 < vis2.len() && s2.raster[k].column == widths_before(vis2, j0)
                    && spec_symbol_category(vis2[j0].ch) == SymbolCategory::Raster);
            } else {
                let j0 = vis.len() as int;
                assert(vis2[j0] == c);
                assert(0 <= j0 < vis2.len() && s2.raster[k].column == widths_before(vis2, j0)
                    && spec_symbol_category(vis2[j0].ch) == SymbolCategory::Raster);
            }
        }
    }
    assert(raster_complete(s2, vis2)) by {
        reveal(raster_complete);
        assert forall|j: int|
            0 <= j < vis2.len() && spec_symbol_category((#[trigger] vis2[j]).ch)
                == SymbolCategory::Raster implies exists|k: int|
            0 <= k < s2.raster.len() && (#[trigger] s2.raster[k]).column == widths_before(
                vis2,
                j,
            ) by {
            if j < vis.len() {
                assert(vis2[j] == vis[j]);
                let k0 = choose|k: int|
                    0 <= k < s.raster.len() && s.raster[k].column == widths_before(vis, j);
                lemma_widths_before_push(vis, c, j);
                assert(s2.raster[k0] == s.raster[k0]);
                assert(0 <= k0 < s2.raster.len() && s2.raster[k0].column == widths_before(
                    vis2,
                    j,
                ));
            } else {
                assert(vis2[j] == c);
                let k0 = s.raster.len() as int;
                assert(0 <= k0 < s2.raster.len() && s2.raster[k0].column == widths_before(
                    vis2,
                    j,
                ));
            }
        }
    }
    assert(vector_sound(s2, vis2)) by {
        reveal(vector_sound);
        assert forall|k: int| 0 <= k < s2.vector.len() implies exists|j: int|
            0 <= j < vis2.len() && (#[trigger] s2.vector[k]).column == widths_before(vis2, j)
                && spec_symbol_category(vis2[j].ch) == SymbolCategory::Vector by {
            if k < s.vector.len() {
                assert(s2.vector[k] == s.vector[k]);
                let j0 = choose|j: int|
                    0 <= j < vis.len() && s.vector[k].column == widths_before(vis, j)
                        && spec_symbol_category(vis[j].ch) == SymbolCategory::Vector;
                lemma_widths_before_push(vis, c, j0);
                assert(vis2[j0] == vis[j0]);
                assert(0 <= j0 < vis2.len() && s2.vector[k].column == widths_before(vis2, j0)
                    && spec_symbol_category(vis2[j0].ch) == SymbolCategory::Vector);
            } else {
                let j0 = vis.len() as int;
                assert(vis2[j0] == c);
                assert(0 <= j0 < vis2.len() && s2.vector[k].column == widths_before(vis2, j0)
                    && spec_symbol_category(vis2[j0].ch) == SymbolCategory::Vector);
            }
        }
    }
    assert(vector_complete(s2, vis2)) by {
        reveal(vector_complete);
        assert forall|j: int|
            0 <= j < vis2.len() && spec_symbol_category((#[trigger] vis2[j]).ch)
                == SymbolCategory::Vector implies exists|k: int|
            0 <= k < s2.vector.len() && (#[trigger] s2.vector[k]).column == widths_before(
                vis2,
                j,
            ) by {
            if j < vis.len() {
                assert(vis2[j] == vis[j]);
                let k0 = choose|k: int|
                    0 <= k < s.vector.len() && s.vector[k].column == widths_before(vis, j);
                lemma_widths_before_push(vis, c, j);
                assert(s2.vector[k0] == s.vector[k0]);
                assert(0 <= k0 < s2.vector.len() && s2.vector[k0].column == widths_before(
                    vis2,
                    j,
                ));
            } else {
                assert(vis2[j] == c);
                let k0 = s.vector.len() as int;
                assert(0 <= k0 < s2.vector.len() && s2.vector[k0].column == widths_before(
                    vis2,
                    j,
                ));
            }
        }
    }
}

/// One visible cell maintains the symbol-record correspondence.
proof fn lemma_step_sym(s: CompactStateV, vis: Seq<CellV>, c: CellV, cur: Option<int>, bib: bool)
    requires
        base_inv(s, vis),
        sym_inv(s, vis),
        c.width >= 1,
    ensures
        sym_inv(step(s, c, cur, bib), vis.push(c)),
{
    let s2 = step(s, c, cur, bib);
    let cat = spec_symbol_category(c.ch);
    assert(s2.x == s.x + c.width);
    if cat == SymbolCategory::Raster {
        assert(s2.raster.len() == s.raster.len() + 1 && s2.raster[s.raster.len() as int].column
            == s.x && s2.vector == s.vector && (forall|k: int|
            0 <= k < s.raster.len() ==> s2.raster[k] == s.raster[k]));
    } else if cat == SymbolCategory::Vector {
        assert(s2.vector.len() == s.vector.len() + 1 && s2.vector[s.vector.len() as int].column
            == s.x && s2.raster == s.raster && (forall|k: int|
            0 <= k < s.vector.len() ==> s2.vector[k] == s.vector[k]));
    } else {
        assert(s2.raster == s.raster && s2.vector == s.vector);
    }
    lemma_sym_grow(s, s2, vis, c);
}

/// Text spans after a symbol cell: the open span (if any) is flushed, no
/// span covers the new cell, which gets a symbol record instead.
proof fn lemma_fg_symbol(s: CompactStateV, s2: CompactStateV, vis: Seq<CellV>, c: CellV)
    requires
        base_inv(s, vis),
        fg_inv(s, vis),
        c.width >= 1,
        is_symbol_cell(c),
        s2.chars.len() == vis.len() + 1,
        s2.open_fg == None::<TextSpanV>,
        s.open_fg matches Some(sp) ==> s2.fg == s.fg.push(sp),
        s.open_fg == None::<TextSpanV> ==> s2.fg == s.fg,
    ensures
        fg_inv(s2, vis.push(c)),
{
    let n = vis.len() as int;
    let vis2 = vis.push(c);
    assert forall|k: int| 0 <= k < s2.fg.len() implies (#[trigger] s2.fg[k]).len >= 1
        && s2.fg[k].start >= 0 && s2.fg[k].start + s2.fg[k].len <= n + 1 by {
        if k < s.fg.len() {
            assert(s2.fg[k] == s.fg[k]);
        }
    }
    assert forall|k1: int, k2: int| 0 <= k1 < k2 < s2.fg.len() implies (#[trigger] s2.fg[k1]).start
        + s2.fg[k1].len <= (#[trigger] s2.fg[k2]).start by {
        assert(s2.fg[k1] == s.fg[k1]);
        if k2 < s.fg.len() {
            assert(s2.fg[k2] == s.fg[k2]);
        }
    }
    assert(covers_ok(s2, vis2)) by {
        reveal(covers_ok);
        assert forall|j: int| 0 <= j < n + 1 implies (text_covers(s2, j) <==> !is_symbol_cell(
            vis2[j],
        )) by {
            if j < n {
                assert(vis2[j] == vis[j]);
                if text_covers(s2, j) {
                    let k0 = choose|k: int|
                        0 <= k < s2.fg.len() && text_in_range(#[trigger] s2.fg[k], j);
                    if k0 < s.fg.len() {
                        assert(s2.fg[k0] == s.fg[k0]);
                        assert(text_in_range(s.fg[k0], j));
                        assert(text_covers(s, j));
                    } else {
                        assert(s.open_fg matches Some(sp) && s2.fg[k0] == sp);
                        assert(text_covers(s, j));
                    }
                }
                if text_covers(s, j) {
                    if exists|k: int| 0 <= k < s.fg.len() && text_in_range(#[trigger] s.fg[k], j) {
                        let k0 = choose|k: int|
                            0 <= k < s.fg.len() && text_in_range(#[trigger] s.fg[k], j);
                        assert(s2.fg[k0] == s.fg[k0]);
                        assert(text_in_range(s2.fg[k0], j));
                        assert(text_covers(s2, j));
                    } else {
                        assert(s.open_fg matches Some(sp) && text_in_range(sp, j));
                        assert(text_in_range(s2.fg[s.fg.len() as int], j));
                        assert(text_covers(s2, j));
                    }
                }
            } else {
                assert(vis2[j] == c);
                assert forall|k: int| 0 <= k < s2.fg.len() implies !text_in_range(
                    #[trigger] s2.fg[k],
                    j,
                ) by {
                    if k < s.fg.len() {
                        assert(s2.fg[k] == s.fg[k]);
                        assert(s.fg[k].start + s.fg[k].len <= n);
                    }
                }
                assert(!text_covers(s2, j));
            }
        }
    }
    assert forall|k: int, j: int|
        0 <= k < s2.fg.len() && #[trigger] text_in_range(s2.fg[k], j) && spec_is_standalone(
            vis2[j].ch,
            vis2[j].width,
        ) implies s2.fg[k].len == 1 by {
        if k < s.fg.len() {
            assert(s2.fg[k] == s.fg[k]);
            assert(0 <= j < n);
            assert(vis2[j] == vis[j]);
        } else {
            assert(s.open_fg matches Some(sp) && s2.fg[k] == sp);
            assert(0 <= j < n);
            assert(vis2[j] == vis[j]);
        }
    }
}

/// Text spans after a standalone, non-symbol cell: the open span is flushed
/// and the cell becomes a closed single-cell span of its own.
proof fn lemma_fg_standalone(
    s: CompactStateV,
    s2: CompactStateV,
    vis: Seq<CellV>,
    c: CellV,
    nspan: TextSpanV,
)
    requires
        base_inv(s, vis),
        fg_inv(s, vis),
        c.width >= 1,
        !is_symbol_cell(c),
        s2.chars.len() == vis.len() + 1,
        s2.open_fg == None::<TextSpanV>,
        nspan.start == vis.len() && nspan.len == 1,
        s.open_fg matches Some(sp) ==> s2.fg == s.fg.push(sp).push(nspan),
        s.open_fg == None::<TextSpanV> ==> s2.fg == s.fg.push(nspan),
    ensures
        fg_inv(s2, vis.push(c)),
{
    let n = vis.len() as int;
    let vis2 = vis.push(c);
    assert forall|k: int| 0 <= k < s2.fg.len() implies (#[trigger] s2.fg[k]).len >= 1
        && s2.fg[k].start >= 0 && s2.fg[k].start + s2.fg[k].len <= n + 1 by {
        if k < s.fg.len() {
            assert(s2.fg[k] == s.fg[k]);
        } else if k + 1 < s2.fg.len() {
            assert(s.open_fg matches Some(sp) && s2.fg[k] == sp);
        } else {
            assert(s2.fg[k] == nspan);
        }
    }
    assert forall|k1: int, k2: int| 0 <= k1 < k2 < s2.fg.len() implies (#[trigger] s2.fg[k1]).start
        + s2.fg[k1].len <= (#[trigger] s2.fg[k2]).start by {
        if k1 < s.fg.len() {
            assert(s2.fg[k1] == s.fg[k1]);
        } else if k1 + 1 < s2.fg.len() {
            assert(s.open_fg matches Some(sp) && s2.fg[k1] == sp);
        }
        if k2 < s.fg.len() {
            assert(s2.fg[k2] == s.fg[k2]);
        } else if k2 + 1 < s2.fg.len() {
            assert(s.open_fg matches Some(sp) && s2.fg[k2] == sp);
        } else {
            assert(s2.fg[k2] == nspan);
        }
    }
    assert(covers_ok(s2, vis2)) by {
        reveal(covers_ok);
        assert forall|j: int| 0 <= j < n + 1 implies (text_covers(s2, j) <==> !is_symbol_cell(
            vis2[j],
        )) by {
            if j < n {
                assert(vis2[j] == vis[j]);
                if text_covers(s2, j) {
                    let k0 = choose|k: int|
                        0 <= k < s2.fg.len() && text_in_range(#[trigger] s2.fg[k], j);
                    if k0 < s.fg.len() {
                        assert(s2.fg[k0] == s.fg[k0]);
                        assert(text_covers(s, j));
                    } else if k0 + 1 < s2.fg.len() {
                        assert(s.open_fg matches Some(sp) && s2.fg[k0] == sp);
                        assert(text_covers(s, j));
                    } else {
                        assert(s2.fg[k0] == nspan);
                        assert(false);
                    }
                }
                if text_covers(s, j) {
                    if exists|k: int| 0 <= k < s.fg.len() && text_in_range(#[trigger] s.fg[k], j) {
                        let k0 = choose|k: int|
                            0 <= k < s.fg.len() && text_in_range(#[trigger] s.fg[k], j);
                        assert(s2.fg[k0] == s.fg[k0]);
                        assert(text_in_range(s2.fg[k0], j));
                        assert(text_covers(s2, j));
                    } else {
                        assert(s.open_fg matches Some(sp) && text_in_range(sp, j));
                        assert(text_in_range(s2.fg[s.fg.len() as int], j));
                        assert(text_covers(s2, j));
                    }
                }
            } else {
                assert(vis2[j] == c);
                assert(text_in_range(s2.fg[s2.fg.len() - 1], j));
                assert(text_covers(s2, j));
            }
        }
    }
    assert forall|k: int, j: int|
        0 <= k < s2.fg.len() && #[trigger] text_in_range(s2.fg[k], j) && spec_is_standalone(
            vis2[j].ch,
            vis2[j].width,
        ) implies s2.fg[k].len == 1 by {
        if k < s.fg.len() {
            assert(s2.fg[k] == s.fg[k]);
            assert(0 <= j < n);
            assert(vis2[j] == vis[j]);
        } else if k + 1 < s2.fg.len() {
            assert(s.open_fg matches Some(sp) && s2.fg[k] == sp);
            assert(0 <= j < n);
            assert(vis2[j] == vis[j]);
        } else {
            assert(s2.fg[k] == nspan);
        }
    }
}

/// Text spans after a plain cell that starts a new span: any open span is
/// flushed (or there was none) and the new open span covers the new cell
/// alone.
proof fn lemma_fg_new(s: CompactStateV, s2: CompactStateV, vis: Seq<CellV>, c: CellV)
    requires
        base_inv(s, vis),
        fg_inv(s, vis),
        c.width >= 1,
        !is_symbol_cell(c),
        !spec_is_standalone(c.ch, c.width),
        s2.chars.len() == vis.len() + 1,
        s2.open_fg matches Some(nsp) && nsp.start == vis.len() && nsp.len == 1,
        s.open_fg matches Some(sp) ==> s2.fg == s.fg.push(sp),
        s.open_fg == None::<TextSpanV> ==> s2.fg == s.fg,
    ensures
        fg_inv(s2, vis.push(c)),
{
    let n = vis.len() as int;
    let vis2 = vis.push(c);
    assert forall|k: int| 0 <= k < s2.fg.len() implies (#[trigger] s2.fg[k]).len >= 1
        && s2.fg[k].start >= 0 && s2.fg[k].start + s2.fg[k].len <= n + 1 by {
        if k < s.fg.len() {
            assert(s2.fg[k] == s.fg[k]);
        }
    }
    assert forall|k1: int, k2: int| 0 <= k1 < k2 < s2.fg.len() implies (#[trigger] s2.fg[k1]).start
        + s2.fg[k1].len <= (#[trigger] s2.fg[k2]).start by {
        assert(s2.fg[k1] == s.fg[k1]);
        if k2 < s.fg.len() {
            assert(s2.fg[k2] == s.fg[k2]);
        }
    }
    assert forall|k: int| 0 <= k < s2.fg.len() implies (#[trigger] s2.fg[k]).start + s2.fg[k].len
        <= n by {
        if k < s.fg.len() {
            assert(s2.fg[k] == s.fg[k]);
        }
    }
    assert(covers_ok(s2, vis2)) by {
        reveal(covers_ok);
        assert forall|j: int| 0 <= j < n + 1 implies (text_covers(s2, j) <==> !is_symbol_cell(
            vis2[j],
        )) by {
            if j < n {
                assert(vis2[j] == vis[j]);
                if text_covers(s2, j) {
                    if exists|k: int|
                        0 <= k < s2.fg.len() && text_in_range(#[trigger] s2.fg[k], j) {
                        let k0 = choose|k: int|
                            0 <= k < s2.fg.len() && text_in_range(#[trigger] s2.fg[k], j);
                        if k0 < s.fg.len() {
                            assert(s2.fg[k0] == s.fg[k0]);
                            assert(text_covers(s, j));
                        } else {
                            assert(s.open_fg matches Some(sp) && s2.fg[k0] == sp);
                            assert(text_covers(s, j));
                        }
                    } else {
                        assert(s2.open_fg matches Some(nsp) && text_in_range(nsp, j));
                        assert(false);
                    }
                }
                if text_covers(s, j) {
                    if exists|k: int| 0 <= k < s.fg.len() && text_in_range(#[trigger] s.fg[k], j) {
                        let k0 = choose|k: int|
                            0 <= k < s.fg.len() && text_in_range(#[trigger] s.fg[k], j);
                        assert(s2.fg[k0] == s.fg[k0]);
                        assert(text_in_range(s2.fg[k0], j));
                        assert(text_covers(s2, j));
                    } else {
                        assert(s.open_fg matches Some(sp) && text_in_range(sp, j));
                        assert(text_in_range(s2.fg[s.fg.len() as int], j));
                        assert(text_covers(s2, j));
                    }
                }
            } else {
                assert(vis2[j] == c);
                assert(s2.open_fg matches Some(nsp) && text_in_range(nsp, j));
                assert(text_covers(s2, j));
            }
        }
    }
    assert forall|k: int, j: int|
        0 <= k < s2.fg.len() && #[trigger] text_in_range(s2.fg[k], j) && spec_is_standalone(
            vis2[j].ch,
            vis2[j].width,
        ) implies s2.fg[k].len == 1 by {
        if k < s.fg.len() {
            assert(s2.fg[k] == s.fg[k]);
            assert(0 <= j < n);
            assert(vis2[j] == vis[j]);
        } else {
            assert(s.open_fg matches Some(sp) && s2.fg[k] == sp);
            assert(0 <= j < n);
            assert(vis2[j] == vis[j]);
        }
    }
    assert(s2.open_fg matches Some(nsp) ==> (forall|j: int|
        #[trigger] text_in_range(nsp, j) ==> !spec_is_standalone(vis2[j].ch, vis2[j].width)));
}

/// Text spans after a plain cell that merges into the open span: the span
/// grows by one cell at the top of the character buffer.
proof fn lemma_fg_merge(s: CompactStateV, s2: CompactStateV, vis: Seq<CellV>, c: CellV)
    requires
        base_inv(s, vis),
        fg_inv(s, vis),
        c.width >= 1,
        !is_symbol_cell(c),
        !spec_is_standalone(c.ch, c.width),
        s2.chars.len() == vis.len() + 1,
        s.open_fg matches Some(sp) && s2.open_fg == Some(
            TextSpanV { len: sp.len + 1, ..sp },
        ),
        s2.fg == s.fg,
    ensures
        fg_inv(s2, vis.push(c)),
{
    let n = vis.len() as int;
    let vis2 = vis.push(c);
    let sp = s.open_fg->Some_0;
    let nsp = s2.open_fg->Some_0;
    assert(nsp.start == sp.start && nsp.len == sp.len + 1);
    assert(covers_ok(s2, vis2)) by {
        reveal(covers_ok);
        assert forall|j: int| 0 <= j < n + 1 implies (text_covers(s2, j) <==> !is_symbol_cell(
            vis2[j],
        )) by {
            if j < n {
                assert(vis2[j] == vis[j]);
                if text_covers(s2, j) {
                    if exists|k: int|
                        0 <= k < s2.fg.len() && text_in_range(#[trigger] s2.fg[k], j) {
                        assert(text_covers(s, j));
                    } else {
                        assert(text_in_range(nsp, j));
                        assert(sp.start + sp.len == n);
                        assert(text_in_range(sp, j));
                        assert(text_covers(s, j));
                    }
                }
                if text_covers(s, j) {
                    if exists|k: int| 0 <= k < s.fg.len() && text_in_range(#[trigger] s.fg[k], j) {
                        assert(text_covers(s2, j));
                    } else {
                        assert(text_in_range(sp, j));
                        assert(text_in_range(nsp, j));
                        assert(text_covers(s2, j));
                    }
                }
            } else {
                assert(vis2[j] == c);
                assert(sp.start + sp.len == n);
                assert(text_in_range(nsp, j));
                assert(text_covers(s2, j));
            }
        }
    }
    assert forall|k: int, j: int|
        0 <= k < s2.fg.len() && #[trigger] text_in_range(s2.fg[k], j) && spec_is_standalone(
            vis2[j].ch,
            vis2[j].width,
        ) implies s2.fg[k].len == 1 by {
        assert(s2.fg[k] == s.fg[k]);
        assert(0 <= j < n);
        assert(vis2[j] == vis[j]);
    }
    assert forall|j: int| #[trigger] text_in_range(nsp, j) implies !spec_is_standalone(
        vis2[j].ch,
        vis2[j].width,
    ) by {
        if j < n {
            assert(text_in_range(sp, j));
            assert(vis2[j] == vis[j]);
        } else {
            assert(vis2[j] == c);
        }
    }
}

/// One visible cell maintains the text-span invariant.
proof fn lemma_step_fg(s: CompactStateV, vis: Seq<CellV>, c: CellV, cur: Option<int>, bib: bool)
    requires
        base_inv(s, vis),
        fg_inv(s, vis),
        c.width >= 1,
    ensures
        fg_inv(step(s, c, cur, bib), vis.push(c)),
{
    let n = vis.len() as int;
    let s2 = step(s, c, cur, bib);
    let cat = spec_symbol_category(c.ch);
    let here = cur == Some(s.x);
    let efg = spec_eff_fg(c.pen, here, bib);
    assert(s2.chars.len() == n + 1);
    if cat != SymbolCategory::NoSymbol {
        assert(s2.open_fg == None::<TextSpanV>);
        if let Some(sp) = s.open_fg {
            assert(s2.fg == s.fg.push(sp));
        } else {
            assert(s2.fg == s.fg);
        }
        lemma_fg_symbol(s, s2, vis, c);
    } else if spec_is_standalone(c.ch, c.width) {
        let nspan = new_text_span(s.x, n, efg, c.pen);
        assert(s2.open_fg == None::<TextSpanV>);
        if let Some(sp) = s.open_fg {
            assert(s2.fg == s.fg.push(sp).push(nspan));
        } else {
            assert(s2.fg == s.fg.push(nspan));
        }
        lemma_fg_standalone(s, s2, vis, c, nspan);
    } else {
        if let Some(sp) = s.open_fg {
            if (sp.fg == efg && spec_same_text_style(sp, c.pen)) || (c.ch == ' ' && sp.underline
                == c.pen.underline && sp.strikethrough == c.pen.strikethrough) {
                assert(s2.open_fg == Some(TextSpanV { len: sp.len + 1, ..sp }) && s2.fg == s.fg);
                lemma_fg_merge(s, s2, vis, c);
            } else {
                assert(s2.fg == s.fg.push(sp));
                assert(s2.open_fg matches Some(nsp) && nsp.start == n && nsp.len == 1);
                lemma_fg_new(s, s2, vis, c);
            }
        } else {
            assert(s2.fg == s.fg);
            assert(s2.open_fg matches Some(nsp) && nsp.start == n && nsp.len == 1);
            lemma_fg_new(s, s2, vis, c);
        }
    }
}

/// Text spans of the output cover exactly the non-symbol visible cells:
/// every other cell lies in some text span, and no symbol cell does.
#[verifier::opaque]
pub open spec fn out_covers_exact(out: RowOutputV, vis: Seq<CellV>) -> bool {
    forall|j: int|
        0 <= j < vis.len() ==> (out_text_covers(out, j) <==> !is_symbol_cell(#[trigger] vis[j]))
}

/// Raster records sit exactly at the columns of the visible raster cells.
#[verifier::opaque]
pub open spec fn out_raster_exact(out: RowOutputV, vis: Seq<CellV>) -> bool {
    forall|j: int|
        0 <= j < vis.len() ==> (raster_at(out, widths_before(vis, j)) <==> spec_symbol_category(
            (#[trigger] vis[j]).ch,
        ) == SymbolCategory::Raster)
}

/// Vector records sit exactly at the columns of the visible vector cells.
#[verifier::opaque]
pub open spec fn out_vector_exact(out: RowOutputV, vis: Seq<CellV>) -> bool {
    forall|j: int|
        0 <= j < vis.len() ==> (vector_at(out, widths_before(vis, j)) <==> spec_symbol_category(
            (#[trigger] vis[j]).ch,
        ) == SymbolCategory::Vector)
}

/// A text span covering a standalone cell is a single-cell span.
#[verifier::opaque]
pub open spec fn out_standalone_isolated(out: RowOutputV, vis: Seq<CellV>) -> bool {
    forall|k: int, j: int|
        0 <= k < out.fg.len() && #[trigger] text_in_range(out.fg[k], j) && spec_is_standalone(
            vis[j].ch,
            vis[j].width,
        ) ==> out.fg[k].len == 1
}

/// Span coverage of one compacted row. The background spans are non-empty,
/// pairwise ordered and disjoint, and lie within the row, so their widths
/// plus the gaps between them add up to the total row width and no cell is
/// covered by more than one of them. The character buffer holds one resolved
/// display character per visible cell. The text spans are non-empty, ordered
/// and disjoint ranges of the character buffer; together with the symbol
/// records they cover each visible cell exactly once: a non-symbol cell lies
/// in exactly one text span and under no record, a symbol cell lies in no
/// text span and under exactly one record of its category (record columns
/// are strictly increasing, so no column carries two).
pub open spec fn row_wf(out: RowOutputV, cells: Seq<CellV>) -> bool {
    let vis = visible(cells);
    let n = vis.len() as int;
    &&& out.chars.len() == n
    &&& (forall|j: int| 0 <= j < n ==> out.chars[j] == display_char(#[trigger] vis[j]))
    &&& (forall|k: int|
        0 <= k < out.bg.len() ==> (#[trigger] out.bg[k]).width >= 1 && out.bg[k].column >= 0
            && out.bg[k].column + out.bg[k].width <= total_width(cells))
    &&& (forall|k1: int, k2: int|
        0 <= k1 < k2 < out.bg.len() ==> (#[trigger] out.bg[k1]).column + out.bg[k1].width <= (
        #[trigger] out.bg[k2]).column)
    &&& (forall|k: int|
        0 <= k < out.fg.len() ==> (#[trigger] out.fg[k]).len >= 1 && out.fg[k].start >= 0
            && out.fg[k].start + out.fg[k].len <= n)
    &&& (forall|k1: int, k2: int|
        0 <= k1 < k2 < out.fg.len() ==> (#[trigger] out.fg[k1]).start + out.fg[k1].len <= (
        #[trigger] out.fg[k2]).start)
    &&& (forall|k1: int, k2: int|
        0 <= k1 < k2 < out.raster.len() ==> (#[trigger] out.raster[k1]).column < (
        #[trigger] out.raster[k2]).column)
    &&& (forall|k1: int, k2: int|
        0 <= k1 < k2 < out.vector.len() ==> (#[trigger] out.vector[k1]).column < (
        #[trigger] out.vector[k2]).column)
    &&& out_covers_exact(out, vis)
    &&& out_raster_exact(out, vis)
    &&& out_vector_exact(out, vis)
    &&& out_standalone_isolated(out, vis)
}

/// The pass invariant holds after running the whole row.
proof fn lemma_run_inv(cells: Seq<CellV>, cur: Option<int>, bib: bool)
    ensures
        state_inv(run(cells, cur, bib), visible(cells)),
    decreases cells.len(),
{
    reveal(widths_before);
    if cells.len() == 0 {
        let s0 = init_state();
        let vis = visible(cells);
        assert(vis =~= Seq::<CellV>::empty());
        assert(covers_ok(s0, vis)) by {
            reveal(covers_ok);
        }
        assert(raster_sound(s0, vis)) by {
            reveal(raster_sound);
        }
        assert(raster_complete(s0, vis)) by {
            reveal(raster_complete);
        }
        assert(vector_sound(s0, vis)) by {
            reveal(vector_sound);
        }
        assert(vector_complete(s0, vis)) by {
            reveal(vector_complete);
        }
    } else {
        lemma_run_inv(cells.drop_last(), cur, bib);
        let s = run(cells.drop_last(), cur, bib);
        let c = cells.last();
        let vis = visible(cells.drop_last());
        if c.width <= 0 {
            assert(step(s, c, cur, bib) == s);
            assert(visible(cells) == vis);
        } else {
            lemma_step_base(s, vis, c, cur, bib);
            lemma_step_bg(s, c, cur, bib);
            lemma_step_fg(s, vis, c, cur, bib);
            lemma_step_sym(s, vis, c, cur, bib);
            assert(visible(cells) == vis.push(c));
        }
    }
}

/// The closing flush turns the pass invariant into the row's coverage
/// properties.
proof fn lemma_finish(s: CompactStateV, cells: Seq<CellV>)
    requires
        state_inv(s, visible(cells)),
    ensures
        row_wf(finish(s), cells),
{
    let vis = visible(cells);
    let n = vis.len() as int;
    let out = finish(s);
    assert(s.x == total_width(cells));

    // background spans of the output
    assert forall|k: int| 0 <= k < out.bg.len() implies (#[trigger] out.bg[k]).width >= 1
        && out.bg[k].column >= 0 && out.bg[k].column + out.bg[k].width <= total_width(cells) by {
        if k < s.bg.len() {
            assert(out.bg[k] == s.bg[k]);
        } else {
            assert(s.open_bg matches Some(sp) && out.bg[k] == sp);
        }
    }
    assert forall|k1: int, k2: int| 0 <= k1 < k2 < out.bg.len() implies (#[trigger] out.bg[k1]).column
        + out.bg[k1].width <= (#[trigger] out.bg[k2]).column by {
        assert(out.bg[k1] == s.bg[k1]);
        if k2 < s.bg.len() {
            assert(out.bg[k2] == s.bg[k2]);
        } else {
            assert(s.open_bg matches Some(sp) && out.bg[k2] == sp);
        }
    }

    // text spans of the output
    assert forall|k: int| 0 <= k < out.fg.len() implies (#[trigger] out.fg[k]).len >= 1 && out.fg[
        k
    ].start >= 0 && out.fg[k].start + out.fg[k].len <= n by {
        if k < s.fg.len() {
            assert(out.fg[k] == s.fg[k]);
        } else {
            assert(s.open_fg matches Some(sp) && out.fg[k] == sp);
        }
    }
    assert forall|k1: int, k2: int| 0 <= k1 < k2 < out.fg.len() implies (#[trigger] out.fg[k1]).start
        + out.fg[k1].len <= (#[trigger] out.fg[k2]).start by {
        assert(out.fg[k1] == s.fg[k1]);
        if k2 < s.fg.len() {
            assert(out.fg[k2] == s.fg[k2]);
        } else {
            assert(s.open_fg matches Some(sp) && out.fg[k2] == sp);
        }
    }

    // coverage carries over from the state to the output
    assert(out_covers_exact(out, vis)) by {
        reveal(out_covers_exact);
        reveal(covers_ok);
        assert forall|j: int| 0 <= j < n implies (out_text_covers(out, j) <==> !is_symbol_cell(
            #[trigger] vis[j],
        )) by {
            if out_text_covers(out, j) {
                let k0 = choose|k: int|
                    0 <= k < out.fg.len() && text_in_range(#[trigger] out.fg[k], j);
                if k0 < s.fg.len() {
                    assert(out.fg[k0] == s.fg[k0]);
                    assert(text_covers(s, j));
                } else {
                    assert(s.open_fg matches Some(sp) && out.fg[k0] == sp);
                    assert(text_covers(s, j));
                }
            }
            if text_covers(s, j) {
                if exists|k: int| 0 <= k < s.fg.len() && text_in_range(#[trigger] s.fg[k], j) {
                    let k0 = choose|k: int|
                        0 <= k < s.fg.len() && text_in_range(#[trigger] s.fg[k], j);
                    assert(out.fg[k0] == s.fg[k0]);
                    assert(text_in_range(out.fg[k0], j));
                    assert(out_text_covers(out, j));
                } else {
                    assert(s.open_fg matches Some(sp) && text_in_range(sp, j));
                    assert(text_in_range(out.fg[s.fg.len() as int], j));
                    assert(out_text_covers(out, j));
                }
            }
        }
    }

    // symbol records carry over unchanged; exactness needs injectivity of
    // the column map
    assert(out.raster == s.raster && out.vector == s.vector);
    assert(out_raster_exact(out, vis)) by {
        reveal(out_raster_exact);
        reveal(raster_sound);
        reveal(raster_complete);
        assert forall|j: int| 0 <= j < n implies (raster_at(out, widths_before(vis, j))
            <==> spec_symbol_category((#[trigger] vis[j]).ch) == SymbolCategory::Raster) by {
            if raster_at(out, widths_before(vis, j)) {
                let k0 = choose|k: int|
                    0 <= k < out.raster.len() && (#[trigger] out.raster[k]).column
                        == widths_before(vis, j);
                let j1 = choose|j1: int|
                    0 <= j1 < vis.len() && s.raster[k0].column == widths_before(vis, j1)
                        && spec_symbol_category(vis[j1].ch) == SymbolCategory::Raster;
                if j1 < j {
                    lemma_widths_before_mono(vis, j1, j);
                    assert(false);
                } else if j < j1 {
                    lemma_widths_before_mono(vis, j, j1);
                    assert(false);
                }
            }
            if spec_symbol_category(vis[j].ch) == SymbolCategory::Raster {
                let k0 = choose|k: int|
                    0 <= k < s.raster.len() && (#[trigger] s.raster[k]).column == widths_before(
                        vis,
                        j,
                    );
                assert(out.raster[k0].column == widths_before(vis, j));
                assert(raster_at(out, widths_before(vis, j)));
            }
        }
    }
    assert(out_vector_exact(out, vis)) by {
        reveal(out_vector_exact);
        reveal(vector_sound);
        reveal(vector_complete);
        assert forall|j: int| 0 <= j < n implies (vector_at(out, widths_before(vis, j))
            <==> spec_symbol_category((#[trigger] vis[j]).ch) == SymbolCategory::Vector) by {
            if vector_at(out, widths_before(vis, j)) {
                let k0 = choose|k: int|
                    0 <= k < out.vector.len() && (#[trigger] out.vector[k]).column
                        == widths_before(vis, j);
                let j1 = choose|j1: int|
                    0 <= j1 < vis.len() && s.vector[k0].column == widths_before(vis, j1)
                        && spec_symbol_category(vis[j1].ch) == SymbolCategory::Vector;
                if j1 < j {
                    lemma_widths_before_mono(vis, j1, j);
                    assert(false);
                } else if j < j1 {
                    lemma_widths_before_mono(vis, j, j1);
                    assert(false);
                }
            }
            if spec_symbol_category(vis[j].ch) == SymbolCategory::Vector {
                let k0 = choose|k: int|
                    0 <= k < s.vector.len() && (#[trigger] s.vector[k]).column == widths_before(
                        vis,
                        j,
                    );
                assert(out.vector[k0].column == widths_before(vis, j));
                assert(vector_at(out, widths_before(vis, j)));
            }
        }
    }
    assert(out_standalone_isolated(out, vis)) by {
        reveal(out_standalone_isolated);
        assert forall|k: int, j: int|
            0 <= k < out.fg.len() && #[trigger] text_in_range(out.fg[k], j) && spec_is_standalone(
                vis[j].ch,
                vis[j].width,
            ) implies out.fg[k].len == 1 by {
            if k < s.fg.len() {
                assert(out.fg[k] == s.fg[k]);
            } else {
                let sp = s.open_fg->Some_0;
                assert(out.fg[k] == sp);
                assert(text_in_range(sp, j));
                assert(false);
            }
        }
    }
}

/// Span coverage: for any row, the background spans are ordered, disjoint
/// and within the row (their widths plus the gaps between them make up the
/// total row width), and every visible cell is covered by at most one
/// background span and by exactly one of a text span or a symbol record.
pub proof fn lemma_span_coverage(cells: Seq<CellV>, cur: Option<int>, bib: bool)
    ensures
        row_wf(compact_spec(cells, cur, bib), cells),
{
    lemma_run_inv(cells, cur, bib);
    lemma_finish(run(cells, cur, bib), cells);
}

/// Standalone isolation: a wide (two-column, hence non-ASCII), non-symbol
/// character is always a single-cell text span of its own, never merged with
/// a neighbor, whatever its style.
pub proof fn lemma_standalone_isolation(cells: Seq<CellV>, cur: Option<int>, bib: bool, j: int)
    requires
        0 <= j < visible(cells).len(),
        visible(cells)[j].width == 2,
        !is_ascii_char(visible(cells)[j].ch),
        !is_symbol_cell(visible(cells)[j]),
    ensures
        exists|k: int|
            0 <= k < compact_spec(cells, cur, bib).fg.len() && text_in_range(
                #[trigger] compact_spec(cells, cur, bib).fg[k],
                j,
            ) && compact_spec(cells, cur, bib).fg[k].len == 1,
{
    let out = compact_spec(cells, cur, bib);
    let vis = visible(cells);
    lemma_span_coverage(cells, cur, bib);
    assert(spec_is_standalone(vis[j].ch, vis[j].width));
    assert(out_text_covers(out, j)) by {
        reveal(out_covers_exact);
    }
    let k0 = choose|k: int| 0 <= k < out.fg.len() && text_in_range(#[trigger] out.fg[k], j);
    assert(out.fg[k0].len == 1) by {
        reveal(out_standalone_isolated);
    }
}

/// Running the pass from an intermediate state.
pub open spec fn run_from(
    s: CompactStateV,
    cells: Seq<CellV>,
    cur: Option<int>,
    bib: bool,
) -> CompactStateV
    decreases cells.len(),
{
    if cells.len() == 0 {
        s
    } else {
        step(run_from(s, cells.drop_last(), cur, bib), cells.last(), cur, bib)
    }
}

/// The pass over a concatenation is the pass over the first part continued
/// over the second.
proof fn lemma_run_append(a: Seq<CellV>, b: Seq<CellV>, cur: Option<int>, bib: bool)
    ensures
        run(a + b, cur, bib) == run_from(run(a, cur, bib), b, cur, bib),
    decreases b.len(),
{
    if b.len() == 0 {
        assert(a + b =~= a);
    } else {
        lemma_run_append(a, b.drop_last(), cur, bib);
        assert((a + b).drop_last() =~= a + b.drop_last());
        assert((a + b).last() == b.last());
    }
}

/// Continuation cells leave the state untouched.
proof fn lemma_run_from_zero(s: CompactStateV, zs: Seq<CellV>, cur: Option<int>, bib: bool)
    requires
        forall|i: int| 0 <= i < zs.len() ==> (#[trigger] zs[i]).width <= 0,
    ensures
        run_from(s, zs, cur, bib) == s,
    decreases zs.len(),
{
    if zs.len() > 0 {
        lemma_run_from_zero(s, zs.drop_last(), cur, bib);
    }
}

/// Continuation cells do not change the visible row.
proof fn lemma_visible_append_zeros(a: Seq<CellV>, zs: Seq<CellV>)
    requires
        forall|i: int| 0 <= i < zs.len() ==> (#[trigger] zs[i]).width <= 0,
    ensures
        visible(a + zs) == visible(a),
    decreases zs.len(),
{
    if zs.len() == 0 {
        assert(a + zs =~= a);
    } else {
        lemma_visible_append_zeros(a, zs.drop_last());
        assert((a + zs).drop_last() =~= a + zs.drop_last());
        assert((a + zs).last() == zs.last());
    }
}

/// Unfolding the pass from the left.
proof fn lemma_run_from_first(s: CompactStateV, cells: Seq<CellV>, cur: Option<int>, bib: bool)
    requires
        cells.len() > 0,
    ensures
        run_from(s, cells, cur, bib) == run_from(
            step(s, cells.first(), cur, bib),
            cells.drop_first(),
            cur,
            bib,
        ),
    decreases cells.len(),
{
    if cells.len() == 1 {
        assert(cells.drop_last() =~= Seq::<CellV>::empty());
        assert(cells.drop_first() =~= Seq::<CellV>::empty());
        assert(cells.last() == cells.first());
    } else {
        lemma_run_from_first(s, cells.drop_last(), cur, bib);
        assert(cells.drop_last().first() == cells.first());
        assert(cells.drop_first().drop_last() =~= cells.drop_last().drop_first());
        assert(cells.drop_first().last() == cells.last());
    }
}

/// Closed text spans persist through the rest of the pass.
proof fn lemma_closed_persist(
    s: CompactStateV,
    rest: Seq<CellV>,
    cur: Option<int>,
    bib: bool,
    k: int,
)
    requires
        0 <= k < s.fg.len(),
    ensures
        run_from(s, rest, cur, bib).fg.len() >= s.fg.len(),
        run_from(s, rest, cur, bib).fg[k] == s.fg[k],
    decreases rest.len(),
{
    if rest.len() > 0 {
        lemma_closed_persist(s, rest.drop_last(), cur, bib, k);
    }
}

/// After a plain (non-symbol, non-standalone) visible cell the open span
/// covers that cell, ends right after it, carries its underline and
/// strikethrough flags, and — unless the cell is a space that merged under
/// the space exception — its effective foreground and all its non-inverse
/// attributes.
proof fn lemma_step_open_props(s: CompactStateV, c: CellV, cur: Option<int>, bib: bool)
    requires
        c.width >= 1,
        !is_symbol_cell(c),
        !spec_is_standalone(c.ch, c.width),
        s.open_fg matches Some(osp) ==> osp.start + osp.len == s.chars.len() && osp.len >= 1,
    ensures
        step(s, c, cur, bib).open_fg matches Some(sp) && text_in_range(sp, s.chars.len() as int)
            && sp.start + sp.len == s.chars.len() + 1 && sp.underline == c.pen.underline
            && sp.strikethrough == c.pen.strikethrough && (c.ch != ' ' ==> sp.fg == spec_eff_fg(
            c.pen,
            cur == Some(s.x),
            bib,
        ) && spec_same_text_style(sp, c.pen)),
{
    let here = cur == Some(s.x);
    let efg = spec_eff_fg(c.pen, here, bib);
    if let Some(osp) = s.open_fg {
        if (osp.fg == efg && spec_same_text_style(osp, c.pen)) || (c.ch == ' ' && osp.underline
            == c.pen.underline && osp.strikethrough == c.pen.strikethrough) {
            if c.ch != ' ' {
                assert(osp.fg == efg && spec_same_text_style(osp, c.pen));
            }
        }
    }
}

/// One cell either keeps the open span (possibly longer) or flushes it into
/// the closed spans; either way a span still covers what it covered.
proof fn lemma_step_keeps(
    s: CompactStateV,
    c: CellV,
    cur: Option<int>,
    bib: bool,
    j1: int,
    j2: int,
)
    requires
        s.open_fg matches Some(osp) && text_in_range(osp, j1) && text_in_range(osp, j2),
    ensures
        (step(s, c, cur, bib).open_fg matches Some(nsp) && text_in_range(nsp, j1) && text_in_range(
            nsp,
            j2,
        )) || (exists|k: int|
            0 <= k < step(s, c, cur, bib).fg.len() && text_in_range(
                #[trigger] step(s, c, cur, bib).fg[k],
                j1,
            ) && text_in_range(step(s, c, cur, bib).fg[k], j2)),
{
    let s2 = step(s, c, cur, bib);
    let osp = s.open_fg->Some_0;
    if c.width >= 1 {
        let cat = spec_symbol_category(c.ch);
        if cat != SymbolCategory::NoSymbol || spec_is_standalone(c.ch, c.width) {
            assert(s2.fg[s.fg.len() as int] == osp);
        } else {
            let here = cur == Some(s.x);
            let efg = spec_eff_fg(c.pen, here, bib);
            if (osp.fg == efg && spec_same_text_style(osp, c.pen)) || (c.ch == ' ' && osp.underline
                == c.pen.underline && osp.strikethrough == c.pen.strikethrough) {
                assert(s2.open_fg matches Some(nsp) && text_in_range(nsp, j1) && text_in_range(
                    nsp,
                    j2,
                ));
            } else {
                assert(s2.fg[s.fg.len() as int] == osp);
            }
        }
    }
}

/// What the open span covers, some output span still covers after the rest
/// of the row and the closing flush.
proof fn lemma_open_persists(
    s: CompactStateV,
    rest: Seq<CellV>,
    cur: Option<int>,
    bib: bool,
    j1: int,
    j2: int,
)
    requires
        s.open_fg matches Some(osp) && text_in_range(osp, j1) && text_in_range(osp, j2),
    ensures
        exists|k: int|
            0 <= k < finish(run_from(s, rest, cur, bib)).fg.len() && text_in_range(
                #[trigger] finish(run_from(s, rest, cur, bib)).fg[k],
                j1,
            ) && text_in_range(finish(run_from(s, rest, cur, bib)).fg[k], j2),
    decreases rest.len(),
{
    if rest.len() == 0 {
        let f = finish(s);
        let osp = s.open_fg->Some_0;
        assert(f.fg[s.fg.len() as int] == osp);
    } else {
        let c = rest.first();
        let s1 = step(s, c, cur, bib);
        lemma_run_from_first(s, rest, cur, bib);
        lemma_step_keeps(s, c, cur, bib, j1, j2);
        if s1.open_fg matches Some(nsp) && text_in_range(nsp, j1) && text_in_range(nsp, j2) {
            lemma_open_persists(s1, rest.drop_first(), cur, bib, j1, j2);
        } else {
            let k0 = choose|k: int|
                0 <= k < s1.fg.len() && text_in_range(#[trigger] s1.fg[k], j1) && text_in_range(
                    s1.fg[k],
                    j2,
                );
            lemma_closed_persist(s1, rest.drop_first(), cur, bib, k0);
            let x = run_from(s1, rest.drop_first(), cur, bib);
            assert(finish(x).fg[k0] == x.fg[k0]);
            assert(text_in_range(finish(x).fg[k0], j1) && text_in_range(finish(x).fg[k0], j2));
        }
    }
}

/// The visible index of the cell at position `p` (which must be visible).
pub open spec fn vis_index(cells: Seq<CellV>, p: int) -> int {
    visible(cells.take(p + 1)).len() - 1
}

/// The effective foreground of the cell at position `p`, resolved at the
/// column where that cell lands.
pub open spec fn eff_fg_at(cells: Seq<CellV>, p: int, cur: Option<int>, bib: bool) -> Color {
    spec_eff_fg(cells[p].pen, cur == Some(total_width(cells.take(p))), bib)
}

/// One text span of the output covers both indices.
pub open spec fn merged_in_one_span(out: RowOutputV, j1: int, j2: int) -> bool {
    exists|k: int|
        0 <= k < out.fg.len() && text_in_range(#[trigger] out.fg[k], j1) && text_in_range(
            out.fg[k],
            j2,
        )
}

/// Merge correctness: two adjacent visible cells with identical effective
/// foreground color and identical non-inverse attributes, neither standalone
/// nor a symbol, always land in one common text span — except when the first
/// is a space and the second is not: the space exception can merge a space
/// into a span whose color differs from the space's own, and the next
/// non-space cell then starts a new span.
#[verifier::rlimit(100)]
#[verifier::spinoff_prover]
pub proof fn lemma_merge_correctness(
    cells: Seq<CellV>,
    cur: Option<int>,
    bib: bool,
    pos1: int,
    pos2: int,
)
    requires
        0 <= pos1 < pos2 < cells.len(),
        cells[pos1].width >= 1,
        cells[pos2].width >= 1,
        forall|q: int| pos1 < q < pos2 ==> (#[trigger] cells[q]).width <= 0,
        !is_symbol_cell(cells[pos1]),
        !is_symbol_cell(cells[pos2]),
        !spec_is_standalone(cells[pos1].ch, cells[pos1].width),
        !spec_is_standalone(cells[pos2].ch, cells[pos2].width),
        eff_fg_at(cells, pos1, cur, bib) == eff_fg_at(cells, pos2, cur, bib),
        cells[pos1].pen.bold == cells[pos2].pen.bold,
        cells[pos1].pen.faint == cells[pos2].pen.faint,
        cells[pos1].pen.italic == cells[pos2].pen.italic,
        cells[pos1].pen.underline == cells[pos2].pen.underline,
        cells[pos1].pen.strikethrough == cells[pos2].pen.strikethrough,
        cells[pos1].pen.blink == cells[pos2].pen.blink,
        cells[pos1].ch != ' ' || cells[pos2].ch == ' ',
    ensures
        merged_in_one_span(
            compact_spec(cells, cur, bib),
            vis_index(cells, pos1),
            vis_index(cells, pos2),
        ),
        vis_index(cells, pos2) == vis_index(cells, pos1) + 1,
{
    let a0 = cells.take(pos1);
    let a1 = cells.take(pos1 + 1);
    let s0 = run(a0, cur, bib);
    lemma_run_inv(a0, cur, bib);
    assert(a1.drop_last() =~= a0);
    assert(a1.last() == cells[pos1]);
    let s1 = run(a1, cur, bib);
    assert(s1 == step(s0, cells[pos1], cur, bib));
    assert(visible(a1) == visible(a0).push(cells[pos1]));
    let j1 = visible(a0).len() as int;
    assert(vis_index(cells, pos1) == j1);
    assert(s0.chars.len() == j1);
    assert(s0.x == total_width(a0));

    lemma_step_open_props(s0, cells[pos1], cur, bib);
    let sp1 = s1.open_fg->Some_0;
    assert(text_in_range(sp1, j1));
    assert(sp1.start + sp1.len == j1 + 1);

    // the continuation cells between the two do not change anything
    let mid = cells.subrange(pos1 + 1, pos2);
    assert(a1 + mid =~= cells.take(pos2));
    lemma_run_append(a1, mid, cur, bib);
    lemma_run_from_zero(s1, mid, cur, bib);
    assert(run(cells.take(pos2), cur, bib) == s1);
    lemma_visible_append_zeros(a1, mid);
    assert(visible(cells.take(pos2)) == visible(a1));
    lemma_run_inv(cells.take(pos2), cur, bib);
    assert(s1.x == total_width(cells.take(pos2)));
    assert(s1.chars.len() == j1 + 1);

    // the second cell merges into the open span
    let a2 = cells.take(pos2 + 1);
    assert(a2.drop_last() =~= cells.take(pos2));
    assert(a2.last() == cells[pos2]);
    let s2 = run(a2, cur, bib);
    assert(s2 == step(s1, cells[pos2], cur, bib));
    let here2 = cur == Some(s1.x);
    let efg2 = spec_eff_fg(cells[pos2].pen, here2, bib);
    assert(efg2 == eff_fg_at(cells, pos2, cur, bib));
    if cells[pos1].ch != ' ' {
        assert(sp1.fg == efg2 && spec_same_text_style(sp1, cells[pos2].pen));
    } else {
        assert(cells[pos2].ch == ' ' && sp1.underline == cells[pos2].pen.underline
            && sp1.strikethrough == cells[pos2].pen.strikethrough);
    }
    assert(s2.open_fg == Some(TextSpanV { len: sp1.len + 1, ..sp1 }));
    let sp2 = s2.open_fg->Some_0;
    assert(text_in_range(sp2, j1) && text_in_range(sp2, j1 + 1));

    // the second cell's visible index is right after the first's
    assert(visible(a2) == visible(cells.take(pos2)).push(cells[pos2]));
    assert(vis_index(cells, pos2) == j1 + 1);

    // and the common span survives to the output
    let rest = cells.skip(pos2 + 1);
    assert(a2 + rest =~= cells);
    lemma_run_append(a2, rest, cur, bib);
    lemma_open_persists(s2, rest, cur, bib, j1, j1 + 1);
}

} // verus!
