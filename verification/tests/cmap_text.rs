use verditum::cmap::{to_unicode_cmap, CMAP_FOOTER, CMAP_HEADER};

#[test]
fn maps_identifiers_to_utf16_text() {
    let cmap = to_unicode_cmap(&vec![(1, 'A'), (0x2a, 'ş'), (0xbeef, '😀')]);
    let expected = format!(
        "{CMAP_HEADER}3 beginbfchar\n<0001> <0041>\n<002A> <015F>\n<BEEF> <D83DDE00>\nendbfchar\n{CMAP_FOOTER}"
    );
    assert_eq!(cmap, expected);
}

#[test]
fn writes_at_most_a_hundred_mappings_per_block() {
    let mappings: Vec<(u16, char)> = (0..250u16).map(|i| (i, 'x')).collect();
    let cmap = to_unicode_cmap(&mappings);
    assert_eq!(cmap.matches("beginbfchar").count(), 3);
    assert!(cmap.contains("100 beginbfchar\n<0000> <0078>\n"));
    assert!(cmap.contains("50 beginbfchar\n<00C8> <0078>\n"));
    assert_eq!(cmap.matches("> <0078>\n").count(), 250);
    assert!(cmap.ends_with(CMAP_FOOTER));
}

#[test]
fn an_empty_font_has_no_blocks() {
    assert_eq!(to_unicode_cmap(&vec![]), format!("{CMAP_HEADER}{CMAP_FOOTER}"));
}

#[test]
fn matches_the_standard_utf16_encoding() {
    for c in ['a', 'ğ', '€', '\u{ffff}', '\u{10000}', '\u{10ffff}'] {
        let units: String = c.encode_utf16(&mut [0; 2]).iter().map(|v| format!("{v:04X}")).collect();
        let cmap = to_unicode_cmap(&vec![(7, c)]);
        assert!(cmap.contains(&format!("<0007> <{units}>\n")), "{c:?}");
    }
}
