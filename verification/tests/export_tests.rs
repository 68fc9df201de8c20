use vt::color::Color;
use vt::compact::{BgSpan, RasterSymbol, RowOutput, TextSpan, VectorSymbol};
use vt::export::{
    encode_bg_spans, encode_chars, encode_raster_symbols, encode_row, encode_text_spans,
    encode_vector_symbols, BG_RECORD_SIZE, CHAR_SIZE, RASTER_RECORD_SIZE, TEXT_RECORD_SIZE,
    VECTOR_RECORD_SIZE,
};

fn text_span(column: u16, start: u16, len: u16, fg: Color) -> TextSpan {
    TextSpan {
        column,
        start,
        len,
        fg,
        bold: false,
        faint: false,
        italic: false,
        underline: false,
        strikethrough: false,
        blink: false,
    }
}

#[test]
fn bg_record_layout() {
    let spans = vec![BgSpan { column: 0x0201, width: 2, color: Color::Indexed(5) }];
    let out = encode_bg_spans(&spans);
    assert_eq!(out, vec![0x01, 0x02, 2, 0, 3, 5, 0, 0]);
}

#[test]
fn bg_records_are_consecutive() {
    let spans = vec![
        BgSpan { column: 1, width: 1, color: Color::DefaultFg },
        BgSpan { column: 7, width: 3, color: Color::Rgb(0xaa, 0xbb, 0xcc) },
    ];
    let out = encode_bg_spans(&spans);
    assert_eq!(out.len(), 2 * BG_RECORD_SIZE);
    assert_eq!(&out[0..8], &[1, 0, 1, 0, 1, 0, 0, 0]);
    assert_eq!(&out[8..16], &[7, 0, 3, 0, 4, 0xaa, 0xbb, 0xcc]);
}

#[test]
fn text_record_layout() {
    let mut sp = text_span(1, 2, 3, Color::Rgb(9, 8, 7));
    sp.bold = true;
    sp.underline = true;
    let out = encode_text_spans(&vec![sp]);
    assert_eq!(out.len(), TEXT_RECORD_SIZE);
    assert_eq!(out, vec![1, 0, 2, 0, 3, 0, 4, 9, 8, 7, 0x09, 0]);
}

#[test]
fn attribute_bits() {
    let mut sp = text_span(0, 0, 1, Color::Unset);
    sp.faint = true;
    sp.italic = true;
    sp.strikethrough = true;
    sp.blink = true;
    let out = encode_text_spans(&vec![sp]);
    assert_eq!(out[10], 0x02 + 0x04 + 0x10 + 0x20);
    assert_eq!(out[4..8].to_vec(), vec![1, 0, 0, 0]);
    assert_eq!(out[6], 0); // color tag 0 for an unset foreground
}

#[test]
fn raster_record_layout() {
    let syms = vec![RasterSymbol { column: 5, ch: '\u{2500}', fg: Color::Indexed(1) }];
    let out = encode_raster_symbols(&syms);
    assert_eq!(out.len(), RASTER_RECORD_SIZE);
    assert_eq!(out, vec![5, 0, 0, 0, 0x00, 0x25, 0, 0, 3, 1, 0, 0]);
}

#[test]
fn vector_record_layout() {
    let syms = vec![VectorSymbol {
        column: 4,
        ch: '\u{e0b0}',
        fg: Color::DefaultFg,
        bold: false,
        faint: false,
        italic: true,
        underline: false,
        strikethrough: false,
        blink: false,
    }];
    let out = encode_vector_symbols(&syms);
    assert_eq!(out.len(), VECTOR_RECORD_SIZE);
    assert_eq!(
        out,
        vec![4, 0, 0x04, 0, 0xb0, 0xe0, 0, 0, 1, 0, 0, 0, 0, 0, 0, 0]
    );
}

#[test]
fn chars_are_codepoints() {
    let out = encode_chars(&vec!['A', '\u{2500}', '\u{1fb00}']);
    assert_eq!(out.len(), 3 * CHAR_SIZE);
    assert_eq!(&out[0..4], &[0x41, 0, 0, 0]);
    assert_eq!(&out[4..8], &[0x00, 0x25, 0, 0]);
    assert_eq!(&out[8..12], &[0x00, 0xfb, 0x01, 0]);
}

#[test]
fn row_export_counts_and_sizes() {
    let row = RowOutput {
        bg: vec![BgSpan { column: 0, width: 1, color: Color::Indexed(2) }],
        fg: vec![
            text_span(0, 0, 1, Color::Unset),
            text_span(1, 1, 2, Color::Indexed(1)),
        ],
        raster: vec![RasterSymbol { column: 3, ch: '\u{2580}', fg: Color::Unset }],
        vector: Vec::new(),
        chars: vec!['a', 'b', 'c', ' '],
    };
    let e = encode_row(&row);
    assert_eq!(e.bg_count, 1);
    assert_eq!(e.bg.len(), BG_RECORD_SIZE);
    assert_eq!(e.fg_count, 2);
    assert_eq!(e.fg.len(), 2 * TEXT_RECORD_SIZE);
    assert_eq!(e.raster_count, 1);
    assert_eq!(e.raster.len(), RASTER_RECORD_SIZE);
    assert_eq!(e.vector_count, 0);
    assert_eq!(e.vector.len(), 0);
    assert_eq!(e.char_count, 4);
    assert_eq!(e.chars.len(), 4 * CHAR_SIZE);
}
