//! Character classifier: which characters must be isolated into their own
//! span ("standalone"), and which belong to the raster- or vector-rendered
//! symbol categories.

use vstd::prelude::*;

verus! {

/// Symbol category of a character: most characters are plain text; a fixed
/// set of block/line glyphs is rendered by the host from bitmaps (raster)
/// and another fixed set from vector paths.
#[derive(Clone, Copy, PartialEq, Eq, Structural, Debug)]
pub enum SymbolCategory {
    NoSymbol,
    Raster,
    Vector,
}

pub open spec fn is_ascii_char(ch: char) -> bool {
    (ch as u32) < 0x80
}

/// Standalone characters in the basic multilingual plane, as a fixed list of
/// Unicode ranges: box drawing, block elements, braille patterns, and the
/// icon ranges used by terminal UIs ("nerd fonts").
#[verifier::opaque]
pub open spec fn standalone_bmp(cp: u32) -> bool {
    ||| (0x2500 <= cp && cp <= 0x257f)  // box drawing
    ||| (0x2580 <= cp && cp <= 0x259f)  // block elements
    ||| (0x2800 <= cp && cp <= 0x28ff)  // braille patterns
    ||| (0xe5fa <= cp && cp <= 0xe6b7)  // NF Seti-UI
    ||| (0xe700 <= cp && cp <= 0xe8ef)  // NF Devicons
    ||| (0xed00 <= cp && cp <= 0xf2ff)  // NF Font Awesome
    ||| (0xe200 <= cp && cp <= 0xe2a9)  // NF Font Awesome Extension
    ||| (0xe300 <= cp && cp <= 0xe3e3)  // NF Weather
    ||| (0xf400 <= cp && cp <= 0xf533)  // NF Octicons
    ||| cp == 0x2665
    ||| cp == 0x26a1
    ||| (0xe0a0 <= cp && cp <= 0xe0a2)  // NF Powerline Symbols
    ||| (0xe0b0 <= cp && cp <= 0xe0b3)
    ||| cp == 0xe0a3  // NF Powerline Extra Symbols
    ||| (0xe0b4 <= cp && cp <= 0xe0c8)
    ||| cp == 0xe0ca
    ||| (0xe0cc <= cp && cp <= 0xe0d7)
    ||| cp == 0x2630
    ||| (0x23fb <= cp && cp <= 0x23fe)  // NF IEC Power Symbols
    ||| cp == 0x2b58
    ||| (0xf300 <= cp && cp <= 0xf381)  // NF Font Logos
    ||| (0xe000 <= cp && cp <= 0xe00a)  // NF Pomicons
    ||| (0xea60 <= cp && cp <= 0xec1e)  // NF Codicons
}

/// The supplementary icon block (nerd-font material design icons); checked
/// directly since no table covers codepoints above 0xffff.
pub open spec fn standalone_supplementary(cp: u32) -> bool {
    0xf0001 <= cp && cp <= 0xf1af0
}

/// A character that must never be merged into a multi-character span:
/// every non-ASCII wide character, and the fixed standalone ranges.
/// ASCII characters are never standalone.
pub open spec fn spec_is_standalone(ch: char, width: int) -> bool {
    if is_ascii_char(ch) {
        false
    } else if width > 1 {
        true
    } else if (ch as u32) < 0x10000 {
        standalone_bmp(ch as u32)
    } else {
        standalone_supplementary(ch as u32)
    }
}

/// Raster-symbol ranges: straight box-drawing lines and half lines, block
/// elements, the filled square, and the sextant block glyphs.
#[verifier::opaque]
pub open spec fn raster_symbol(cp: u32) -> bool {
    ||| (0x2500 <= cp && cp <= 0x2503)  // box drawing horizontal/vertical lines
    ||| (0x2574 <= cp && cp <= 0x257f)  // box drawing half lines
    ||| (0x2580 <= cp && cp <= 0x259f)  // block elements
    ||| cp == 0x25a0  // black square
    ||| (0x1fb00 <= cp && cp <= 0x1fb3b)  // sextant blocks
}

/// Vector-symbol ranges: filled triangles, triangular corner glyphs, the
/// yin-yang glyph, powerline arrow glyphs, and the diagonal/triangular
/// legacy-computing block glyphs. Disjoint from the raster ranges.
#[verifier::opaque]
pub open spec fn vector_symbol(cp: u32) -> bool {
    ||| cp == 0x25b2  // filled triangles
    ||| cp == 0x25b6
    ||| cp == 0x25bc
    ||| cp == 0x25c0
    ||| (0x25e2 <= cp && cp <= 0x25e5)  // triangular corners
    ||| cp == 0x262f  // yin yang
    ||| (0xe0b0 <= cp && cp <= 0xe0b3)  // powerline arrows
    ||| (0x1fb3c <= cp && cp <= 0x1fb6f)  // diagonal/triangular blocks
}

/// Symbol category of a character. ASCII characters are never symbols; the
/// raster and vector sets are disjoint, so the order of the checks does not
/// matter.
pub open spec fn spec_symbol_category(ch: char) -> SymbolCategory {
    if is_ascii_char(ch) {
        SymbolCategory::NoSymbol
    } else if raster_symbol(ch as u32) {
        SymbolCategory::Raster
    } else if vector_symbol(ch as u32) {
        SymbolCategory::Vector
    } else {
        SymbolCategory::NoSymbol
    }
}

/// The raster and vector categories never overlap.
pub proof fn lemma_symbol_ranges_disjoint(cp: u32)
    ensures
        !(raster_symbol(cp) && vector_symbol(cp)),
{
    reveal(raster_symbol);
    reveal(vector_symbol);
}

/// Standalone check for a basic-multilingual-plane codepoint by direct range
/// comparison.
pub fn is_standalone_bmp(cp: u32) -> (r: bool)
    ensures
        r == standalone_bmp(cp),
{
    proof {
        reveal(standalone_bmp);
    }
    (0x2500 <= cp && cp <= 0x257f) || (0x2580 <= cp && cp <= 0x259f) || (0x2800 <= cp && cp
        <= 0x28ff) || (0xe5fa <= cp && cp <= 0xe6b7) || (0xe700 <= cp && cp <= 0xe8ef) || (0xed00
        <= cp && cp <= 0xf2ff) || (0xe200 <= cp && cp <= 0xe2a9) || (0xe300 <= cp && cp <= 0xe3e3)
        || (0xf400 <= cp && cp <= 0xf533) || cp == 0x2665 || cp == 0x26a1 || (0xe0a0 <= cp && cp
        <= 0xe0a2) || (0xe0b0 <= cp && cp <= 0xe0b3) || cp == 0xe0a3 || (0xe0b4 <= cp && cp
        <= 0xe0c8) || cp == 0xe0ca || (0xe0cc <= cp && cp <= 0xe0d7) || cp == 0x2630 || (0x23fb
        <= cp && cp <= 0x23fe) || cp == 0x2b58 || (0xf300 <= cp && cp <= 0xf381) || (0xe000 <= cp
        && cp <= 0xe00a) || (0xea60 <= cp && cp <= 0xec1e)
}

/// Standalone check from character and display width alone, without a
/// lookup table.
pub fn is_standalone_char(ch: char, width: u16) -> (r: bool)
    ensures
        r == spec_is_standalone(ch, width as int),
{
    let cp = ch as u32;
    if cp < 0x80 {
        false
    } else if width > 1 {
        true
    } else if cp < 0x10000 {
        is_standalone_bmp(cp)
    } else {
        0xf0001 <= cp && cp <= 0xf1af0
    }
}

/// Symbol category of a character.
pub fn symbol_category(ch: char) -> (r: SymbolCategory)
    ensures
        r == spec_symbol_category(ch),
{
    proof {
        reveal(raster_symbol);
        reveal(vector_symbol);
    }
    let cp = ch as u32;
    if cp < 0x80 {
        SymbolCategory::NoSymbol
    } else if (0x2500 <= cp && cp <= 0x2503) || (0x2574 <= cp && cp <= 0x257f) || (0x2580 <= cp
        && cp <= 0x259f) || cp == 0x25a0 || (0x1fb00 <= cp && cp <= 0x1fb3b) {
        SymbolCategory::Raster
    } else if cp == 0x25b2 || cp == 0x25b6 || cp == 0x25bc || cp == 0x25c0 || (0x25e2 <= cp && cp
        <= 0x25e5) || cp == 0x262f || (0xe0b0 <= cp && cp <= 0xe0b3) || (0x1fb3c <= cp && cp
        <= 0x1fb6f) {
        SymbolCategory::Vector
    } else {
        SymbolCategory::NoSymbol
    }
}

/// Classifier with the precomputed standalone table for the 16-bit codepoint
/// space (one entry per codepoint, built once from the fixed range list), so
/// per-cell classification is a table lookup.
pub struct CharClassifier {
    table: Vec<bool>,
}

impl CharClassifier {
    /// The table covers the basic multilingual plane and agrees with the
    /// fixed standalone ranges everywhere.
    pub closed spec fn wf(&self) -> bool {
        &&& self.table@.len() == 0x10000
        &&& forall|cp: int| 0 <= cp < 0x10000 ==> self.table@[cp] == standalone_bmp(cp as u32)
    }

    /// Builds the standalone lookup table for the 16-bit codepoint space.
    pub fn new() -> (r: Self)
        ensures
            r.wf(),
    {
        let mut table: Vec<bool> = Vec::new();
        let mut cp: u32 = 0;
        while cp < 0x10000
            invariant
                cp <= 0x10000,
                table@.len() == cp,
                forall|i: int| 0 <= i < cp ==> table@[i] == standalone_bmp(i as u32),
            decreases 0x10000 - cp,
        {
            table.push(is_standalone_bmp(cp));
            cp = cp + 1;
        }
        CharClassifier { table }
    }

    /// Standalone check: ASCII fast path, wide characters always standalone,
    /// table lookup for the 16-bit space, direct range check above it.
    pub fn is_standalone(&self, ch: char, width: u16) -> (r: bool)
        requires
            self.wf(),
        ensures
            r == spec_is_standalone(ch, width as int),
    {
        let cp = ch as u32;
        if cp < 0x80 {
            false
        } else if width > 1 {
            true
        } else if cp < 0x10000 {
            self.table[cp as usize]
        } else {
            0xf0001 <= cp && cp <= 0xf1af0
        }
    }
}

} // verus!
