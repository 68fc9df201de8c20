use vt::classify::{is_standalone_char, symbol_category, CharClassifier, SymbolCategory};

#[test]
fn ascii_is_never_standalone() {
    assert!(!is_standalone_char('A', 1));
    assert!(!is_standalone_char(' ', 1));
    assert!(!is_standalone_char('~', 1));
    // the ASCII fast path wins even over a (nonsensical) wide width
    assert!(!is_standalone_char('x', 2));
}

#[test]
fn wide_chars_are_standalone() {
    assert!(is_standalone_char('\u{65e5}', 2));
    assert!(is_standalone_char('\u{ac00}', 2));
}

#[test]
fn standalone_ranges_hit_and_miss() {
    assert!(is_standalone_char('\u{2500}', 1)); // box drawing
    assert!(is_standalone_char('\u{257f}', 1));
    assert!(is_standalone_char('\u{2580}', 1)); // block elements
    assert!(is_standalone_char('\u{2800}', 1)); // braille
    assert!(is_standalone_char('\u{28ff}', 1));
    assert!(is_standalone_char('\u{e0b0}', 1)); // powerline
    assert!(is_standalone_char('\u{2665}', 1)); // heart
    assert!(is_standalone_char('\u{26a1}', 1)); // zap
    assert!(!is_standalone_char('\u{2400}', 1));
    assert!(!is_standalone_char('\u{00e9}', 1)); // latin letter
    assert!(!is_standalone_char('\u{e0cb}', 1)); // gap in powerline extras
}

#[test]
fn supplementary_icons_are_standalone() {
    assert!(is_standalone_char('\u{f0001}', 1));
    assert!(is_standalone_char('\u{f1af0}', 1));
    assert!(!is_standalone_char('\u{f0000}', 1));
    assert!(!is_standalone_char('\u{f1af1}', 1));
    assert!(!is_standalone_char('\u{10000}', 1));
}

#[test]
fn classifier_table_agrees_with_direct_check() {
    let cls = CharClassifier::new();
    let samples = [
        'A', ' ', '\u{00e9}', '\u{2500}', '\u{257f}', '\u{2580}', '\u{2800}', '\u{e0b0}',
        '\u{2665}', '\u{2400}', '\u{e0cb}', '\u{ffff}', '\u{f0001}', '\u{f1af1}',
    ];
    for &ch in samples.iter() {
        assert_eq!(cls.is_standalone(ch, 1), is_standalone_char(ch, 1));
        assert_eq!(cls.is_standalone(ch, 2), is_standalone_char(ch, 2));
    }
}

#[test]
fn symbol_categories() {
    assert_eq!(symbol_category('A'), SymbolCategory::NoSymbol);
    assert_eq!(symbol_category('\u{2500}'), SymbolCategory::Raster);
    assert_eq!(symbol_category('\u{2580}'), SymbolCategory::Raster);
    assert_eq!(symbol_category('\u{259f}'), SymbolCategory::Raster);
    assert_eq!(symbol_category('\u{25a0}'), SymbolCategory::Raster);
    assert_eq!(symbol_category('\u{1fb00}'), SymbolCategory::Raster);
    assert_eq!(symbol_category('\u{25b2}'), SymbolCategory::Vector);
    assert_eq!(symbol_category('\u{262f}'), SymbolCategory::Vector);
    assert_eq!(symbol_category('\u{e0b0}'), SymbolCategory::Vector);
    assert_eq!(symbol_category('\u{1fb3c}'), SymbolCategory::Vector);
    // braille is standalone but no symbol
    assert_eq!(symbol_category('\u{2800}'), SymbolCategory::NoSymbol);
    // ordinary box-drawing joints are no symbols either
    assert_eq!(symbol_category('\u{253c}'), SymbolCategory::NoSymbol);
}
