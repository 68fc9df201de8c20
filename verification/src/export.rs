//! Binary export layer: lays the compactor's output out in fixed-size,
//! alignment-exact records inside contiguous byte buffers. The record sizes
//! below are a binary contract with the host consumer; every encoder's
//! contract pins each field to its exact byte offset, so any change to field
//! order or width fails verification.
//!
//! Layout (all integers little-endian):
//! - color value, 4 bytes: tag byte (0 none, 1 default foreground, 2 default
//!   background, 3 indexed, 4 rgb) and 3 payload bytes;
//! - background span, 8 bytes / 2-byte fields: column u16, width u16, color;
//! - text span, 12 bytes: column u16, start u16, length u16, color,
//!   attribute byte, one pad byte;
//! - raster symbol, 12 bytes / 4-byte alignment: column u16, 2 pad bytes,
//!   codepoint u32, color;
//! - vector symbol, 16 bytes / 4-byte alignment: column u16, attribute byte,
//!   one pad byte, codepoint u32, color, 4 pad bytes;
//! - character buffer: one u32 codepoint per cell.

use vstd::prelude::*;

use crate::color::Color;
use crate::compact::{
    BgSpan, BgSpanV, RasterSymbol, RasterSymbolV, RowOutput, TextSpan, TextSpanV, VectorSymbol,
    VectorSymbolV,
};

verus! {

pub const BG_RECORD_SIZE: usize = 8;

pub const TEXT_RECORD_SIZE: usize = 12;

pub const RASTER_RECORD_SIZE: usize = 12;

pub const VECTOR_RECORD_SIZE: usize = 16;

pub const COLOR_SIZE: usize = 4;

pub const CHAR_SIZE: usize = 4;

/// Attribute bitset: bold 0x01, faint 0x02, italic 0x04, underline 0x08,
/// strikethrough 0x10, blink 0x20. `inverse` is resolved into the colors
/// before compaction and has no bit.
pub open spec fn spec_attrs_byte(
    bold: bool,
    faint: bool,
    italic: bool,
    underline: bool,
    strikethrough: bool,
    blink: bool,
) -> u8 {
    ((if bold {
        1int
    } else {
        0int
    }) + (if faint {
        2int
    } else {
        0int
    }) + (if italic {
        4int
    } else {
        0int
    }) + (if underline {
        8int
    } else {
        0int
    }) + (if strikethrough {
        16int
    } else {
        0int
    }) + (if blink {
        32int
    } else {
        0int
    })) as u8
}

/// A 16-bit value as two little-endian bytes.
pub open spec fn u16_le(v: int) -> Seq<u8> {
    seq![(v % 256) as u8, ((v / 256) % 256) as u8]
}

/// The Unicode codepoint of a character.
pub open spec fn codepoint(c: char) -> int {
    (c as u32) as int
}

/// A 32-bit value as four little-endian bytes.
pub open spec fn u32_le(v: int) -> Seq<u8> {
    seq![
        (v % 256) as u8,
        ((v / 256) % 256) as u8,
        ((v / 65536) % 256) as u8,
        ((v / 16777216) % 256) as u8,
    ]
}

/// A color value as tag byte plus three payload bytes.
pub open spec fn color_bytes(c: Color) -> Seq<u8> {
    match c {
        Color::Unset => seq![0u8, 0u8, 0u8, 0u8],
        Color::DefaultFg => seq![1u8, 0u8, 0u8, 0u8],
        Color::DefaultBg => seq![2u8, 0u8, 0u8, 0u8],
        Color::Indexed(n) => seq![3u8, n, 0u8, 0u8],
        Color::Rgb(r, g, b) => seq![4u8, r, g, b],
    }
}

/// A background span as one 8-byte record.
pub open spec fn bg_record_bytes(s: BgSpanV) -> Seq<u8> {
    u16_le(s.column) + u16_le(s.width) + color_bytes(s.color)
}

/// A text span as one 12-byte record.
pub open spec fn text_record_bytes(s: TextSpanV) -> Seq<u8> {
    u16_le(s.column) + u16_le(s.start) + u16_le(s.len) + color_bytes(s.fg) + seq![
        spec_attrs_byte(s.bold, s.faint, s.italic, s.underline, s.strikethrough, s.blink),
        0u8,
    ]
}

/// A raster symbol as one 12-byte record (codepoint aligned to 4 bytes).
pub open spec fn raster_record_bytes(s: RasterSymbolV) -> Seq<u8> {
    u16_le(s.column) + seq![0u8, 0u8] + u32_le(codepoint(s.ch)) + color_bytes(s.fg)
}

/// A vector symbol as one 16-byte record (codepoint aligned to 4 bytes).
pub open spec fn vector_record_bytes(s: VectorSymbolV) -> Seq<u8> {
    u16_le(s.column) + seq![
        spec_attrs_byte(s.bold, s.faint, s.italic, s.underline, s.strikethrough, s.blink),
        0u8,
    ] + u32_le(codepoint(s.ch)) + color_bytes(s.fg) + seq![0u8, 0u8, 0u8, 0u8]
}

/// The record sizes are fixed: this is the layout invariant the encoders
/// are held to at verification time.
pub proof fn lemma_record_sizes(b: BgSpanV, t: TextSpanV, r: RasterSymbolV, v: VectorSymbolV, c: Color)
    ensures
        bg_record_bytes(b).len() == BG_RECORD_SIZE,
        text_record_bytes(t).len() == TEXT_RECORD_SIZE,
        raster_record_bytes(r).len() == RASTER_RECORD_SIZE,
        vector_record_bytes(v).len() == VECTOR_RECORD_SIZE,
        color_bytes(c).len() == COLOR_SIZE,
{
    assert(color_bytes(c).len() == 4);
}

fn attrs_byte(
    bold: bool,
    faint: bool,
    italic: bool,
    underline: bool,
    strikethrough: bool,
    blink: bool,
) -> (r: u8)
    ensures
        r == spec_attrs_byte(bold, faint, italic, underline, strikethrough, blink),
{
    let mut r: u8 = 0;
    if bold {
        r = r + 1;
    }
    if faint {
        r = r + 2;
    }
    if italic {
        r = r + 4;
    }
    if underline {
        r = r + 8;
    }
    if strikethrough {
        r = r + 16;
    }
    if blink {
        r = r + 32;
    }
    r
}

fn push_u16_le(out: &mut Vec<u8>, v: u16)
    ensures
        final(out)@ == old(out)@ + u16_le(v as int),
{
    out.push((v % 256) as u8);
    out.push((v / 256) as u8);
    proof {
        assert(out@ =~= old(out)@ + u16_le(v as int));
    }
}

fn push_u32_le(out: &mut Vec<u8>, v: u32)
    ensures
        final(out)@ == old(out)@ + u32_le(v as int),
{
    out.push((v % 256) as u8);
    out.push(((v / 256) % 256) as u8);
    out.push(((v / 65536) % 256) as u8);
    out.push((v / 16777216) as u8);
    proof {
        assert(out@ =~= old(out)@ + u32_le(v as int));
    }
}

fn push_color(out: &mut Vec<u8>, c: Color)
    ensures
        final(out)@ == old(out)@ + color_bytes(c),
{
    match c {
        Color::Unset => {
            out.push(0);
            out.push(0);
            out.push(0);
            out.push(0);
        },
        Color::DefaultFg => {
            out.push(1);
            out.push(0);
            out.push(0);
            out.push(0);
        },
        Color::DefaultBg => {
            out.push(2);
            out.push(0);
            out.push(0);
            out.push(0);
        },
        Color::Indexed(n) => {
            out.push(3);
            out.push(n);
            out.push(0);
            out.push(0);
        },
        Color::Rgb(r, g, b) => {
            out.push(4);
            out.push(r);
            out.push(g);
            out.push(b);
        },
    }
    proof {
        assert(out@ =~= old(out)@ + color_bytes(c));
    }
}

fn push_bg_record(out: &mut Vec<u8>, s: &BgSpan)
    ensures
        final(out)@ == old(out)@ + bg_record_bytes(s@),
{
    push_u16_le(out, s.column);
    push_u16_le(out, s.width);
    push_color(out, s.color);
    proof {
        assert(out@ =~= old(out)@ + bg_record_bytes(s@));
    }
}

fn push_text_record(out: &mut Vec<u8>, s: &TextSpan)
    ensures
        final(out)@ == old(out)@ + text_record_bytes(s@),
{
    push_u16_le(out, s.column);
    push_u16_le(out, s.start);
    push_u16_le(out, s.len);
    push_color(out, s.fg);
    out.push(attrs_byte(s.bold, s.faint, s.italic, s.underline, s.strikethrough, s.blink));
    out.push(0);
    proof {
        assert(out@ =~= old(out)@ + text_record_bytes(s@));
    }
}

fn push_raster_record(out: &mut Vec<u8>, s: &RasterSymbol)
    ensures
        final(out)@ == old(out)@ + raster_record_bytes(s@),
{
    push_u16_le(out, s.column);
    out.push(0);
    out.push(0);
    push_u32_le(out, s.ch as u32);
    push_color(out, s.fg);
    proof {
        assert(out@ =~= old(out)@ + raster_record_bytes(s@));
    }
}

fn push_vector_record(out: &mut Vec<u8>, s: &VectorSymbol)
    ensures
        final(out)@ == old(out)@ + vector_record_bytes(s@),
{
    push_u16_le(out, s.column);
    out.push(attrs_byte(s.bold, s.faint, s.italic, s.underline, s.strikethrough, s.blink));
    out.push(0);
    push_u32_le(out, s.ch as u32);
    push_color(out, s.fg);
    out.push(0);
    out.push(0);
    out.push(0);
    out.push(0);
    proof {
        assert(out@ =~= old(out)@ + vector_record_bytes(s@));
    }
}

/// Encodes the background spans: one 8-byte record per span, in order.
pub fn encode_bg_spans(spans: &Vec<BgSpan>) -> (out: Vec<u8>)
    ensures
        out@.len() == spans@.len() * BG_RECORD_SIZE,
        forall|k: int|
            0 <= k < spans@.len() ==> out@.subrange(k * 8, k * 8 + 8) == bg_record_bytes(
                spans@[k]@,
            ),
{
    let mut out: Vec<u8> = Vec::new();
    let mut i: usize = 0;
    while i < spans.len()
        invariant
            i <= spans@.len(),
            out@.len() == i * 8,
            forall|k: int|
                0 <= k < i ==> out@.subrange(k * 8, k * 8 + 8) == bg_record_bytes(spans@[k]@),
        decreases spans@.len() - i,
    {
        let ghost prev = out@;
        push_bg_record(&mut out, &spans[i]);
        proof {
            assert forall|k: int|
                0 <= k < i + 1 implies out@.subrange(k * 8, k * 8 + 8) == bg_record_bytes(
                spans@[k]@,
            ) by {
                if k < i {
                    assert(out@.subrange(k * 8, k * 8 + 8) =~= prev.subrange(k * 8, k * 8 + 8));
                } else {
                    assert(out@.subrange(k * 8, k * 8 + 8) =~= bg_record_bytes(spans@[k]@));
                }
            }
        }
        i = i + 1;
    }
    out
}

/// Encodes the text spans: one 12-byte record per span, in order.
pub fn encode_text_spans(spans: &Vec<TextSpan>) -> (out: Vec<u8>)
    ensures
        out@.len() == spans@.len() * TEXT_RECORD_SIZE,
        forall|k: int|
            0 <= k < spans@.len() ==> out@.subrange(k * 12, k * 12 + 12) == text_record_bytes(
                spans@[k]@,
            ),
{
    let mut out: Vec<u8> = Vec::new();
    let mut i: usize = 0;
    while i < spans.len()
        invariant
            i <= spans@.len(),
            out@.len() == i * 12,
            forall|k: int|
                0 <= k < i ==> out@.subrange(k * 12, k * 12 + 12) == text_record_bytes(spans@[k]@),
        decreases spans@.len() - i,
    {
        let ghost prev = out@;
        push_text_record(&mut out, &spans[i]);
        proof {
            assert forall|k: int|
                0 <= k < i + 1 implies out@.subrange(k * 12, k * 12 + 12) == text_record_bytes(
                spans@[k]@,
            ) by {
                if k < i {
                    assert(out@.subrange(k * 12, k * 12 + 12) =~= prev.subrange(k * 12, k * 12 + 12));
                } else {
                    assert(out@.subrange(k * 12, k * 12 + 12) =~= text_record_bytes(spans@[k]@));
                }
            }
        }
        i = i + 1;
    }
    out
}

/// Encodes the raster symbols: one 12-byte record per symbol, in order.
pub fn encode_raster_symbols(syms: &Vec<RasterSymbol>) -> (out: Vec<u8>)
    ensures
        out@.len() == syms@.len() * RASTER_RECORD_SIZE,
        forall|k: int|
            0 <= k < syms@.len() ==> out@.subrange(k * 12, k * 12 + 12) == raster_record_bytes(
                syms@[k]@,
            ),
{
    let mut out: Vec<u8> = Vec::new();
    let mut i: usize = 0;
    while i < syms.len()
        invariant
            i <= syms@.len(),
            out@.len() == i * 12,
            forall|k: int|
                0 <= k < i ==> out@.subrange(k * 12, k * 12 + 12) == raster_record_bytes(
                    syms@[k]@,
                ),
        decreases syms@.len() - i,
    {
        let ghost prev = out@;
        push_raster_record(&mut out, &syms[i]);
        proof {
            assert forall|k: int|
                0 <= k < i + 1 implies out@.subrange(k * 12, k * 12 + 12) == raster_record_bytes(
                syms@[k]@,
            ) by {
                if k < i {
                    assert(out@.subrange(k * 12, k * 12 + 12) =~= prev.subrange(k * 12, k * 12 + 12));
                } else {
                    assert(out@.subrange(k * 12, k * 12 + 12) =~= raster_record_bytes(syms@[k]@));
                }
            }
        }
        i = i + 1;
    }
    out
}

/// Encodes the vector symbols: one 16-byte record per symbol, in order.
pub fn encode_vector_symbols(syms: &Vec<VectorSymbol>) -> (out: Vec<u8>)
    ensures
        out@.len() == syms@.len() * VECTOR_RECORD_SIZE,
        forall|k: int|
            0 <= k < syms@.len() ==> out@.subrange(k * 16, k * 16 + 16) == vector_record_bytes(
                syms@[k]@,
            ),
{
    let mut out: Vec<u8> = Vec::new();
    let mut i: usize = 0;
    while i < syms.len()
        invariant
            i <= syms@.len(),
            out@.len() == i * 16,
            forall|k: int|
                0 <= k < i ==> out@.subrange(k * 16, k * 16 + 16) == vector_record_bytes(
                    syms@[k]@,
                ),
        decreases syms@.len() - i,
    {
        let ghost prev = out@;
        push_vector_record(&mut out, &syms[i]);
        proof {
            assert forall|k: int|
                0 <= k < i + 1 implies out@.subrange(k * 16, k * 16 + 16) == vector_record_bytes(
                syms@[k]@,
            ) by {
                if k < i {
                    assert(out@.subrange(k * 16, k * 16 + 16) =~= prev.subrange(k * 16, k * 16 + 16));
                } else {
                    assert(out@.subrange(k * 16, k * 16 + 16) =~= vector_record_bytes(syms@[k]@));
                }
            }
        }
        i = i + 1;
    }
    out
}

/// Encodes the character buffer: one little-endian u32 codepoint per cell.
pub fn encode_chars(chars: &Vec<char>) -> (out: Vec<u8>)
    ensures
        out@.len() == chars@.len() * CHAR_SIZE,
        forall|k: int|
            0 <= k < chars@.len() ==> out@.subrange(k * 4, k * 4 + 4) == u32_le(codepoint(chars@[k])),
{
    let mut out: Vec<u8> = Vec::new();
    let mut i: usize = 0;
    while i < chars.len()
        invariant
            i <= chars@.len(),
            out@.len() == i * 4,
            forall|k: int|
                0 <= k < i ==> out@.subrange(k * 4, k * 4 + 4) == u32_le(codepoint(chars@[k])),
        decreases chars@.len() - i,
    {
        let ghost prev = out@;
        push_u32_le(&mut out, chars[i] as u32);
        proof {
            assert forall|k: int|
                0 <= k < i + 1 implies out@.subrange(k * 4, k * 4 + 4) == u32_le(
                codepoint(chars@[k]),
            ) by {
                if k < i {
                    assert(out@.subrange(k * 4, k * 4 + 4) =~= prev.subrange(k * 4, k * 4 + 4));
                } else {
                    assert(out@.subrange(k * 4, k * 4 + 4) =~= u32_le(codepoint(chars@[k])));
                }
            }
        }
        i = i + 1;
    }
    out
}

/// One exported row: per-kind byte buffers and record counts. Each buffer is
/// count times the record size; the host reads (pointer, count) pairs off
/// these. The buffers are plain owned memory, valid until dropped.
pub struct EncodedRow {
    pub bg: Vec<u8>,
    pub bg_count: usize,
    pub fg: Vec<u8>,
    pub fg_count: usize,
    pub raster: Vec<u8>,
    pub raster_count: usize,
    pub vector: Vec<u8>,
    pub vector_count: usize,
    pub chars: Vec<u8>,
    pub char_count: usize,
}

/// Exports one compacted row in the fixed binary layout.
pub fn encode_row(r: &RowOutput) -> (e: EncodedRow)
    ensures
        e.bg_count == r.bg@.len(),
        e.bg@.len() == r.bg@.len() * BG_RECORD_SIZE,
        forall|k: int|
            0 <= k < r.bg@.len() ==> e.bg@.subrange(k * 8, k * 8 + 8) == bg_record_bytes(r@.bg[k]),
        e.fg_count == r.fg@.len(),
        e.fg@.len() == r.fg@.len() * TEXT_RECORD_SIZE,
        forall|k: int|
            0 <= k < r.fg@.len() ==> e.fg@.subrange(k * 12, k * 12 + 12) == text_record_bytes(
                r@.fg[k],
            ),
        e.raster_count == r.raster@.len(),
        e.raster@.len() == r.raster@.len() * RASTER_RECORD_SIZE,
        forall|k: int|
            0 <= k < r.raster@.len() ==> e.raster@.subrange(k * 12, k * 12 + 12)
                == raster_record_bytes(r@.raster[k]),
        e.vector_count == r.vector@.len(),
        e.vector@.len() == r.vector@.len() * VECTOR_RECORD_SIZE,
        forall|k: int|
            0 <= k < r.vector@.len() ==> e.vector@.subrange(k * 16, k * 16 + 16)
                == vector_record_bytes(r@.vector[k]),
        e.char_count == r.chars@.len(),
        e.chars@.len() == r.chars@.len() * CHAR_SIZE,
        forall|k: int|
            0 <= k < r.chars@.len() ==> e.chars@.subrange(k * 4, k * 4 + 4) == u32_le(
                codepoint(r@.chars[k]),
            ),
{
    EncodedRow {
        bg: encode_bg_spans(&r.bg),
        bg_count: r.bg.len(),
        fg: encode_text_spans(&r.fg),
        fg_count: r.fg.len(),
        raster: encode_raster_symbols(&r.raster),
        raster_count: r.raster.len(),
        vector: encode_vector_symbols(&r.vector),
        vector_count: r.vector.len(),
        chars: encode_chars(&r.chars),
        char_count: r.chars.len(),
    }
}

} // verus!
