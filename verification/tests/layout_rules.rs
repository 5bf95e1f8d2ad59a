use verditum::layout::{inline_items, InlineItem};
use verditum::layout::{cell_shape, nesting_allowed, pages_allowed, row_shape};
use verditum::layout::{breaks_page, cell_page_breaks, margin_page_breaks};
use verditum::layout::{eq_ignore_ascii_case, font_substitution};
use verditum::layout::{
    alignment, block_kind, border_mode, border_style_approximated, cell_alignment, cell_borders, cell_fill, channels,
    color_channels, inline_kind, outlines_table, paragraph_warnings, sections, table_columns, text_run, text_style,
    Align, Block,
    CellAlign, CharClass, Inline, TEXT_LIMIT,
};
use verditum::model::{parse_template, Element};

fn elements(inner: &str) -> Vec<Element> {
    let xml = format!("<template><content><![CDATA[ab]]></content><elements>{inner}</elements></template>");
    parse_template(&xml).unwrap().elements
}

#[test]
fn parts_headers_footers_and_body_in_order() {
    let all = elements("<header><paragraph/></header><paragraph/><footer/><table/><header/>");
    let parts = sections(&all);
    let tags = |v: &Vec<Element>| v.iter().map(|e| e.tag.clone()).collect::<Vec<_>>();
    assert_eq!(tags(&parts.headers), vec!["header", "header"]);
    assert_eq!(parts.headers[0].children.len(), 1);
    assert_eq!(tags(&parts.footers), vec!["footer"]);
    assert_eq!(tags(&parts.body), vec!["paragraph", "table"]);
}

#[test]
fn decides_how_blocks_are_laid_out() {
    assert!(matches!(block_kind("paragraph"), Block::Paragraph));
    assert!(matches!(block_kind("table"), Block::Table));
    assert!(matches!(block_kind("page-break"), Block::PageBreak));
    for tag in ["content", "field", "space", "tab", "image"] {
        assert!(matches!(block_kind(tag), Block::Wrapped));
    }
    for tag in ["header", "footer", "cell"] {
        assert!(matches!(block_kind(tag), Block::Flattened(None)));
    }
    match block_kind("unknown") {
        Block::Flattened(Some(w)) => assert_eq!(w, "Unsupported block 'unknown' was flattened."),
        other => panic!("unexpected {other:?}"),
    }
}

#[test]
fn decides_how_inline_elements_are_laid_out() {
    assert!(matches!(inline_kind("image"), Inline::Image));
    for tag in ["content", "field", "space", "tab"] {
        assert!(matches!(inline_kind(tag), Inline::Text));
    }
    for tag in ["paragraph", "cell"] {
        assert!(matches!(inline_kind(tag), Inline::Flattened(None)));
    }
    match inline_kind("unknown") {
        Inline::Flattened(Some(w)) => assert_eq!(w, "Unsupported inline element 'unknown' was flattened."),
        other => panic!("unexpected {other:?}"),
    }
}

#[test]
fn warns_about_paragraph_formatting_it_cannot_reproduce() {
    let all = elements(
        "<paragraph Bulleted=\"true\"/><paragraph Numbered=\"true\"/><paragraph TabSet=\"120\"/>\
         <paragraph Bulleted=\"false\" Numbered=\"\"/><paragraph TabSet=\"1\" Numbered=\"1\" Bulleted=\"1\"/>",
    );
    assert_eq!(paragraph_warnings(&all[0]), vec!["Automatic bullets are not supported in PDF output."]);
    assert_eq!(paragraph_warnings(&all[1]), vec!["Automatic list numbering is not supported in PDF output."]);
    assert_eq!(paragraph_warnings(&all[2]), vec!["Custom tab stops use four spaces in PDF output."]);
    assert!(paragraph_warnings(&all[3]).is_empty());
    assert_eq!(paragraph_warnings(&all[4]).len(), 3);
    assert!(paragraph_warnings(&all[4])[0].contains("tab stops"));
}

#[test]
fn picks_cell_fills_and_borders() {
    let all = elements(
        "<table border=\"borderTable\"><row border=\"rowBorder\">\
         <cell fillColor=\"255\" background=\"7\" borderStyle=\"dashed\"/>\
         <cell background=\"7\" border=\"borderNone\" borderStyle=\"solid\"/>\
         <cell/></row><row><cell/></row></table>",
    );
    let table = &all[0];
    let row = &table.children[0];
    assert_eq!(cell_fill(&row.children[0]), "255");
    assert_eq!(cell_fill(&row.children[1]), "7");
    assert_eq!(cell_fill(&row.children[2]), "");
    assert_eq!(border_mode(&row.children[0], row, table), "rowBorder");
    assert_eq!(border_mode(&row.children[1], row, table), "borderNone");
    let plain_row = &table.children[1];
    assert_eq!(border_mode(&plain_row.children[0], plain_row, table), "borderTable");
    assert!(!cell_borders("borderNone"));
    assert!(!cell_borders("borderTable"));
    assert!(cell_borders("rowBorder"));
    assert!(cell_borders(""));
    assert!(border_style_approximated(&row.children[0]));
    assert!(!border_style_approximated(&row.children[1]));
    assert!(!border_style_approximated(&row.children[2]));
}

#[test]
fn reads_colours_as_decimal_rgb_numbers() {
    assert_eq!(color_channels("16711680"), [255, 0, 0]);
    assert_eq!(color_channels("65280"), [0, 255, 0]);
    assert_eq!(color_channels("255"), [0, 0, 255]);
    assert_eq!(color_channels("-1"), [255, 255, 255]);
    assert_eq!(color_channels("-16777216"), [0, 0, 0]);
    assert_eq!(color_channels("4278190335"), [0, 0, 255]);
    assert_eq!(color_channels(""), [0, 0, 0]);
    assert_eq!(color_channels("red"), [0, 0, 0]);
    assert_eq!(channels(Some(0x123456)), [0x12, 0x34, 0x56]);
    assert_eq!(channels(None), [0, 0, 0]);
}

#[test]
fn classifies_the_characters_of_text() {
    let run = text_run("a\r\nb\tc", 10);
    assert_eq!(
        run.classes,
        vec![CharClass::Glyph('a'), CharClass::Newline, CharClass::Glyph('b'), CharClass::Tab, CharClass::Glyph('c')]
    );
    assert_eq!(run.count, 15);
    assert!(run.error.is_none());
}

#[test]
fn refuses_control_characters() {
    let run = text_run("ab\u{7f}c", 0);
    assert_eq!(run.classes, vec![CharClass::Glyph('a'), CharClass::Glyph('b')]);
    assert_eq!(run.error.as_deref(), Some("Unsupported control character U+007F in UDF."));
    assert_eq!(run.count, 3);
    let run = text_run("\u{1b}", 0);
    assert_eq!(run.error.as_deref(), Some("Unsupported control character U+001B in UDF."));
    let run = text_run("\u{9f}", 0);
    assert_eq!(run.error.as_deref(), Some("Unsupported control character U+009F in UDF."));
    let run = text_run("\u{a0}", 0);
    assert!(run.error.is_none());
}

#[test]
fn refuses_text_beyond_the_limit() {
    let run = text_run("ab", TEXT_LIMIT - 1);
    assert_eq!(run.classes, vec![CharClass::Glyph('a')]);
    assert_eq!(run.error.as_deref(), Some("Document exceeds the PDF export text limit."));
    let run = text_run("\r\r", TEXT_LIMIT);
    assert!(run.error.is_none());
    assert_eq!(run.count, TEXT_LIMIT);
    let text = "a".repeat(500_001);
    let run = text_run(&text, 0);
    assert_eq!(run.classes.len(), 500_000);
    assert!(run.error.unwrap().contains("text limit"));
}

#[test]
fn reads_alignment_codes() {
    let all = elements(
        "<paragraph/><paragraph Alignment=\"1\"/><paragraph Alignment=\"2\"/><paragraph Alignment=\"3\"/>\
         <paragraph Alignment=\"0\"/>",
    );
    let aligns: Vec<Align> = all.iter().map(alignment).collect();
    assert_eq!(aligns, vec![Align::Left, Align::Center, Align::Right, Align::Justify, Align::Left]);
}

#[test]
fn places_cell_content_and_outlines_tables() {
    let all = elements(
        "<table border=\"borderTable\"><row><cell align=\"vcenter\"/><cell align=\"bottom\"/><cell align=\"top\"/></row></table>\
         <table border=\"borderNone\"/>",
    );
    let cells = &all[0].children[0].children;
    let aligns: Vec<CellAlign> = cells.iter().map(cell_alignment).collect();
    assert_eq!(aligns, vec![CellAlign::Middle, CellAlign::Bottom, CellAlign::Top]);
    assert!(outlines_table(&all[0]));
    assert!(!outlines_table(&all[1]));
}

#[test]
fn reads_text_style_switches() {
    let all = elements(
        "<content bold=\"true\" italic=\"false\" underline=\"true\" strikeThrough=\"true\" superscript=\"TRUE\" subscript=\"true\"/>",
    );
    let style = text_style(&all[0]);
    assert!(style.bold && !style.italic && style.underline && style.strike_through);
    assert!(!style.superscript && style.subscript);
}

#[test]
fn a_count_already_past_the_limit_refuses_the_next_character() {
    let run = text_run("a", TEXT_LIMIT + 5);
    assert!(run.classes.is_empty());
    assert_eq!(run.count, TEXT_LIMIT + 6);
    assert!(run.error.is_some());
    let run = text_run("\r", TEXT_LIMIT + 5);
    assert_eq!(run.count, TEXT_LIMIT + 5);
    assert!(run.error.is_none());
}

#[test]
fn counts_table_columns_by_the_widest_row() {
    assert_eq!(table_columns(&vec![]), Ok(None));
    assert_eq!(table_columns(&vec![vec![], vec![]]), Ok(None));
    assert_eq!(table_columns(&vec![vec![1, 2], vec![4], vec![1]]), Ok(Some(4)));
    assert_eq!(table_columns(&vec![vec![1000]]), Ok(Some(1000)));
    assert_eq!(table_columns(&vec![vec![1000, 1000]]), Err("Too many table columns."));
}

#[test]
fn walks_inline_content_in_layout_order_and_counts_the_whole_document() {
    let all = elements(
        "<paragraph><content startOffset=\"0\" length=\"1\"/><unknown><image/><content startOffset=\"1\" length=\"1\"/></unknown></paragraph>",
    );
    let run = inline_items(&all[0], 7);
    assert!(run.error.is_none());
    assert_eq!(run.count, 9);
    let kinds: Vec<String> = run
        .items
        .iter()
        .map(|item| match item {
            InlineItem::Text(e, classes) => format!("text {} {:?}", e.tag, classes),
            InlineItem::Image(e) => format!("image {}", e.tag),
            InlineItem::Warning(w) => w.clone(),
        })
        .collect();
    assert_eq!(
        kinds,
        vec![
            "text content [Glyph('a')]".to_string(),
            "Unsupported inline element 'unknown' was flattened.".to_string(),
            "image image".to_string(),
            "text content [Glyph('b')]".to_string(),
        ]
    );
    // The limit counts across the elements: the second text passes it.
    let run = inline_items(&all[0], TEXT_LIMIT - 1);
    assert_eq!(run.error.as_deref(), Some("Document exceeds the PDF export text limit."));
    assert_eq!(run.items.len(), 4);
    assert!(matches!(&run.items[3], InlineItem::Text(_, classes) if classes.is_empty()));
}

#[test]
fn refuses_table_shapes_and_layouts_beyond_the_limits() {
    let all = elements("<table><row><cell/><paragraph/></row><cell/></table>");
    let table = &all[0];
    assert_eq!(row_shape(&table.children[0]), Ok(()));
    assert_eq!(row_shape(&table.children[1]), Err("Unsupported table structure."));
    let row = &table.children[0];
    assert_eq!(cell_shape(&row.children[0], 1), Ok(()));
    assert_eq!(cell_shape(&row.children[0], 2), Err("PDF export does not yet support cells spanning multiple rows."));
    assert_eq!(cell_shape(&row.children[1], 2), Err("Unsupported table row structure."));
    assert_eq!(nesting_allowed(100), Ok(()));
    assert_eq!(nesting_allowed(101), Err("PDF layout nesting limit exceeded."));
    assert_eq!(pages_allowed(2000), Ok(()));
    assert_eq!(pages_allowed(2001), Err("PDF exceeds 2000 pages."));
}

#[test]
fn warns_when_a_font_is_substituted() {
    let names = vec!["Times New Roman".to_string(), "Times".to_string()];
    assert_eq!(font_substitution(true, Some(&names), "times new roman"), None);
    assert_eq!(font_substitution(true, None, "Arial"), None);
    assert_eq!(
        font_substitution(true, Some(&names), "Arial").as_deref(),
        Some("A system font was substituted for Arial or some of its characters.")
    );
    assert!(font_substitution(false, Some(&names), "Times").is_some());
    for (a, b) in [("Ab", "aB"), ("ş", "Ş"), ("a", "ab"), ("İ", "i"), ("", "")] {
        assert_eq!(eq_ignore_ascii_case(a, b), a.eq_ignore_ascii_case(b), "{a:?} {b:?}");
    }
}

#[test]
fn finds_page_breaks_where_the_block_layout_would_start_a_page() {
    assert!(!breaks_page(&elements("")));
    assert!(breaks_page(&elements("<page-break/>")));
    assert!(breaks_page(&elements("<paragraph/><section><unknown><page-break/></unknown></section>")));
    assert!(!breaks_page(&elements("<paragraph><page-break/></paragraph><table><row><cell><page-break/></cell></row></table>")));
    assert!(!breaks_page(&elements("<content><page-break/></content><image/>")));

    let tables = elements("<table><row><cell><header><page-break/></header></cell><cell><paragraph/></cell></row></table>");
    let row = &tables[0].children[0];
    assert_eq!(cell_page_breaks(&row.children[0]), Err("Page breaks inside table cells are not yet supported."));
    assert_eq!(cell_page_breaks(&row.children[1]), Ok(()));

    let plain = elements("<header><paragraph/></header>");
    let broken = elements("<footer><page-break/></footer>");
    assert_eq!(margin_page_breaks(&plain, &plain), Ok(()));
    assert_eq!(margin_page_breaks(&plain, &broken), Err("Page breaks in headers or footers are unsupported."));
    assert_eq!(margin_page_breaks(&broken, &Vec::new()), Err("Page breaks in headers or footers are unsupported."));
}
