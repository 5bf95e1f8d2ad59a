//! The decisions of the PDF layout that measure nothing: which elements form
//! the headers, footers and body, how each element is laid out, which
//! formatting is only approximated, what each character of a text becomes,
//! and what the attributes of paragraphs, text, tables and cells ask for
//! (alignment, style switches, colours, fills and borders). Measuring and
//! drawing are left to the renderer.
use vstd::prelude::*;

use crate::model::{models_of, Element, ElementModel};
use crate::decimal::{i64_from_str, parse_i64};
use crate::text::{owned, str_eq};
use vstd::string::StringExecFns;

verus! {

/// A finished PDF and the formatting it could only approximate.
pub struct Output {
    pub bytes: Vec<u8>,
    pub warnings: Vec<String>,
}

/// Whether an element has this tag.
pub open spec fn tagged(tag: Seq<char>) -> spec_fn(ElementModel) -> bool {
    |m: ElementModel| m.tag == tag
}

/// Whether an element is neither a header nor a footer.
pub open spec fn in_body() -> spec_fn(ElementModel) -> bool {
    |m: ElementModel| m.tag != "header"@ && m.tag != "footer"@
}

/// The top-level elements parted into headers, footers and body, each in
/// document order.
pub struct Sections {
    pub headers: Vec<Element>,
    pub footers: Vec<Element>,
    pub body: Vec<Element>,
}

/// Parts the top-level elements into headers, footers and the body.
pub fn sections(elements: &Vec<Element>) -> (parts: Sections)
    ensures
        models_of(parts.headers@) == models_of(elements@).filter(tagged("header"@)),
        models_of(parts.footers@) == models_of(elements@).filter(tagged("footer"@)),
        models_of(parts.body@) == models_of(elements@).filter(in_body()),
{
    let ghost all = models_of(elements@);
    let mut headers: Vec<Element> = Vec::new();
    let mut footers: Vec<Element> = Vec::new();
    let mut body: Vec<Element> = Vec::new();
    let mut k: usize = 0;
    while k < elements.len()
        invariant
            k <= elements@.len(),
            all == models_of(elements@),
            models_of(headers@) == all.take(k as int).filter(tagged("header"@)),
            models_of(footers@) == all.take(k as int).filter(tagged("footer"@)),
            models_of(body@) == all.take(k as int).filter(in_body()),
        decreases elements@.len() - k,
    {
        let e = &elements[k];
        let ghost m = all[k as int];
        assert(m == crate::model::model_of(*e));
        proof {
            reveal_strlit("header");
            reveal_strlit("footer");
            assert("header"@[0] != "footer"@[0]);
            assert(all.take(k + 1) =~= all.take(k as int).push(m));
            all.take(k as int).lemma_filter_push(m, tagged("header"@));
            all.take(k as int).lemma_filter_push(m, tagged("footer"@));
            all.take(k as int).lemma_filter_push(m, in_body());
        }
        let copy = e.duplicate();
        if str_eq(e.tag.as_str(), "header") {
            let ghost before = headers@;
            headers.push(copy);
            assert(models_of(headers@) =~= models_of(before).push(m));
        } else if str_eq(e.tag.as_str(), "footer") {
            let ghost before = footers@;
            footers.push(copy);
            assert(models_of(footers@) =~= models_of(before).push(m));
        } else {
            let ghost before = body@;
            body.push(copy);
            assert(models_of(body@) =~= models_of(before).push(m));
        }
        k += 1;
    }
    assert(all.take(elements@.len() as int) =~= all);
    Sections { headers, footers, body }
}

/// How an element of a block list is laid out.
#[derive(Debug)]
pub enum Block {
    /// As a paragraph.
    Paragraph,
    /// As a table.
    Table,
    /// As a page break, followed by its children.
    PageBreak,
    /// As the only child of a paragraph with the same attributes.
    Wrapped,
    /// As its children in its place, with a warning where the element is
    /// not one that is expected to hold blocks.
    Flattened(Option<String>),
}

pub enum BlockView {
    Paragraph,
    Table,
    PageBreak,
    Wrapped,
    Flattened(Option<Seq<char>>),
}

impl DeepView for Block {
    type V = BlockView;

    open spec fn deep_view(&self) -> BlockView {
        match self {
            Block::Paragraph => BlockView::Paragraph,
            Block::Table => BlockView::Table,
            Block::PageBreak => BlockView::PageBreak,
            Block::Wrapped => BlockView::Wrapped,
            Block::Flattened(w) => BlockView::Flattened(w.deep_view()),
        }
    }
}

pub const BLOCK_START: &'static str = "Unsupported block '";
pub const INLINE_START: &'static str = "Unsupported inline element '";
pub const FLATTENED_END: &'static str = "' was flattened.";

/// How an element with this tag is laid out among blocks.
pub open spec fn block_of(tag: Seq<char>) -> BlockView {
    if tag == "paragraph"@ {
        BlockView::Paragraph
    } else if tag == "table"@ {
        BlockView::Table
    } else if tag == "page-break"@ {
        BlockView::PageBreak
    } else if tag == "content"@ || tag == "field"@ || tag == "space"@ || tag == "tab"@ || tag == "image"@ {
        BlockView::Wrapped
    } else if tag == "header"@ || tag == "footer"@ || tag == "cell"@ {
        BlockView::Flattened(None)
    } else {
        BlockView::Flattened(Some(BLOCK_START@ + tag + FLATTENED_END@))
    }
}

/// The message that names a flattened element.
fn flattened(start: &str, tag: &str) -> (message: String)
    ensures
        message@ == start@ + tag@ + FLATTENED_END@,
{
    let mut message = owned(start);
    message.append(tag);
    message.append(FLATTENED_END);
    message
}

/// Decides how an element with this tag is laid out among blocks.
pub fn block_kind(tag: &str) -> (kind: Block)
    ensures
        kind.deep_view() == block_of(tag@),
{
    if str_eq(tag, "paragraph") {
        Block::Paragraph
    } else if str_eq(tag, "table") {
        Block::Table
    } else if str_eq(tag, "page-break") {
        Block::PageBreak
    } else if str_eq(tag, "content") || str_eq(tag, "field") || str_eq(tag, "space") || str_eq(tag, "tab")
        || str_eq(tag, "image") {
        Block::Wrapped
    } else if str_eq(tag, "header") || str_eq(tag, "footer") || str_eq(tag, "cell") {
        Block::Flattened(None)
    } else {
        Block::Flattened(Some(flattened(BLOCK_START, tag)))
    }
}

/// How an element inside a paragraph is laid out.
#[derive(Debug)]
pub enum Inline {
    /// As an image.
    Image,
    /// As its text, character by character.
    Text,
    /// As its children in its place, with a warning where the element is
    /// not a paragraph or a cell.
    Flattened(Option<String>),
}

pub enum InlineView {
    Image,
    Text,
    Flattened(Option<Seq<char>>),
}

impl DeepView for Inline {
    type V = InlineView;

    open spec fn deep_view(&self) -> InlineView {
        match self {
            Inline::Image => InlineView::Image,
            Inline::Text => InlineView::Text,
            Inline::Flattened(w) => InlineView::Flattened(w.deep_view()),
        }
    }
}

/// How an element with this tag is laid out inside a paragraph.
pub open spec fn inline_of(tag: Seq<char>) -> InlineView {
    if tag == "image"@ {
        InlineView::Image
    } else if tag == "content"@ || tag == "field"@ || tag == "space"@ || tag == "tab"@ {
        InlineView::Text
    } else if tag == "paragraph"@ || tag == "cell"@ {
        InlineView::Flattened(None)
    } else {
        InlineView::Flattened(Some(INLINE_START@ + tag + FLATTENED_END@))
    }
}

/// Decides how an element with this tag is laid out inside a paragraph.
pub fn inline_kind(tag: &str) -> (kind: Inline)
    ensures
        kind.deep_view() == inline_of(tag@),
{
    if str_eq(tag, "image") {
        Inline::Image
    } else if str_eq(tag, "content") || str_eq(tag, "field") || str_eq(tag, "space") || str_eq(tag, "tab") {
        Inline::Text
    } else if str_eq(tag, "paragraph") || str_eq(tag, "cell") {
        Inline::Flattened(None)
    } else {
        Inline::Flattened(Some(flattened(INLINE_START, tag)))
    }
}

/// The value of an attribute, or nothing where it is not set.
pub open spec fn attr(m: Map<Seq<char>, Seq<char>>, key: Seq<char>) -> Seq<char> {
    if m.contains_key(key) {
        m[key]
    } else {
        Seq::empty()
    }
}

/// Whether a paragraph switches on a feature: the attribute is set to
/// anything but `false`.
pub open spec fn switched_on(m: Map<Seq<char>, Seq<char>>, key: Seq<char>) -> bool {
    attr(m, key).len() > 0 && attr(m, key) != "false"@
}

pub const TAB_STOPS: &'static str = "Custom tab stops use four spaces in PDF output.";
pub const NUMBERING: &'static str = "Automatic list numbering is not supported in PDF output.";
pub const BULLETS: &'static str = "Automatic bullets are not supported in PDF output.";

/// The warnings that a paragraph's attributes call for, in this order: tab
/// stops, numbering, bullets.
pub open spec fn paragraph_warnings_of(m: Map<Seq<char>, Seq<char>>) -> Seq<Seq<char>> {
    (if switched_on(m, "TabSet"@) { seq![TAB_STOPS@] } else { Seq::empty() })
        + (if switched_on(m, "Numbered"@) { seq![NUMBERING@] } else { Seq::empty() })
        + (if switched_on(m, "Bulleted"@) { seq![BULLETS@] } else { Seq::empty() })
}

fn switched(e: &Element, key: &str) -> (on: bool)
    ensures
        on == switched_on(e.attrs@, key@),
{
    let value = e.get(key);
    !value.is_empty() && !str_eq(value, "false")
}

/// The warnings about paragraph formatting that the PDF only approximates.
pub fn paragraph_warnings(e: &Element) -> (warnings: Vec<&'static str>)
    ensures
        warnings@.map_values(|w: &'static str| w@) == paragraph_warnings_of(e.attrs@),
{
    let mut warnings: Vec<&'static str> = Vec::new();
    let tabs = switched(e, "TabSet");
    let numbered = switched(e, "Numbered");
    let bulleted = switched(e, "Bulleted");
    if tabs {
        warnings.push(TAB_STOPS);
    }
    let ghost first = warnings@;
    if numbered {
        warnings.push(NUMBERING);
    }
    let ghost second = warnings@;
    if bulleted {
        warnings.push(BULLETS);
    }
    let ghost expected_first: Seq<Seq<char>> = if tabs { seq![TAB_STOPS@] } else { Seq::empty() };
    let ghost expected_second: Seq<Seq<char>> = if numbered { seq![NUMBERING@] } else { Seq::empty() };
    let ghost expected_third: Seq<Seq<char>> = if bulleted { seq![BULLETS@] } else { Seq::empty() };
    assert(first.map_values(|w: &'static str| w@) =~= expected_first);
    assert(second.map_values(|w: &'static str| w@) =~= expected_first + expected_second);
    assert(warnings@.map_values(|w: &'static str| w@) =~= expected_first + expected_second + expected_third);
    warnings
}

/// The colour that fills a table cell: `fillColor`, or else `background`;
/// empty for none.
pub open spec fn fill_of(cell: Map<Seq<char>, Seq<char>>) -> Seq<char> {
    if attr(cell, "fillColor"@).len() > 0 {
        attr(cell, "fillColor"@)
    } else {
        attr(cell, "background"@)
    }
}

/// The colour that fills a table cell, empty for none.
pub fn cell_fill(cell: &Element) -> (fill: &str)
    ensures
        fill@ == fill_of(cell.attrs@),
{
    let fill = cell.get("fillColor");
    if !fill.is_empty() {
        fill
    } else {
        cell.get("background")
    }
}

/// The border mode of a cell: the first that is set of the cell's, the
/// row's and the table's `border`; empty for none.
pub open spec fn border_mode_of(
    cell: Map<Seq<char>, Seq<char>>,
    row: Map<Seq<char>, Seq<char>>,
    table: Map<Seq<char>, Seq<char>>,
) -> Seq<char> {
    if attr(cell, "border"@).len() > 0 {
        attr(cell, "border"@)
    } else if attr(row, "border"@).len() > 0 {
        attr(row, "border"@)
    } else {
        attr(table, "border"@)
    }
}

/// The border mode that applies to a cell.
pub fn border_mode<'a>(cell: &'a Element, row: &'a Element, table: &'a Element) -> (mode: &'a str)
    ensures
        mode@ == border_mode_of(cell.attrs@, row.attrs@, table.attrs@),
{
    let mode = cell.get("border");
    if !mode.is_empty() {
        return mode;
    }
    let mode = row.get("border");
    if !mode.is_empty() {
        return mode;
    }
    table.get("border")
}

/// Whether a cell draws its own borders: not where the mode is
/// `borderNone`, nor `borderTable`, which draws only around the table.
pub open spec fn draws_cell_borders(mode: Seq<char>) -> bool {
    mode != "borderNone"@ && mode != "borderTable"@
}

/// Whether a cell with this border mode draws its own borders.
pub fn cell_borders(mode: &str) -> (draws: bool)
    ensures
        draws == draws_cell_borders(mode@),
{
    !str_eq(mode, "borderNone") && !str_eq(mode, "borderTable")
}

pub const SOLID_BORDERS: &'static str = "Table borders use solid lines in PDF output.";

/// Whether a cell asks for a border style other than solid lines.
pub open spec fn styled_border(cell: Map<Seq<char>, Seq<char>>) -> bool {
    let style = attr(cell, "borderStyle"@);
    style.len() > 0 && style != "borderStyle-solid"@ && style != "solid"@
}

/// Solid borders are drawn as they are: a cell with no border style, an
/// empty one, `solid` or `borderStyle-solid` is never approximated, and a
/// cell with any other border style always is.
pub proof fn lemma_solid_borders_drawn_as_they_are(cell: Map<Seq<char>, Seq<char>>)
    ensures
        !cell.contains_key("borderStyle"@) ==> !styled_border(cell),
        cell.contains_key("borderStyle"@) && (cell["borderStyle"@] == Seq::<char>::empty()
            || cell["borderStyle"@] == "solid"@ || cell["borderStyle"@] == "borderStyle-solid"@)
            ==> !styled_border(cell),
        cell.contains_key("borderStyle"@) && cell["borderStyle"@] != Seq::<char>::empty()
            && cell["borderStyle"@] != "solid"@ && cell["borderStyle"@] != "borderStyle-solid"@
            ==> styled_border(cell),
{
    if cell.contains_key("borderStyle"@) && cell["borderStyle"@].len() == 0 {
        assert(cell["borderStyle"@] =~= Seq::<char>::empty());
    }
}

/// Whether the cell's border style can only be drawn as solid lines.
pub fn border_style_approximated(cell: &Element) -> (approximated: bool)
    ensures
        approximated == styled_border(cell.attrs@),
{
    let style = cell.get("borderStyle");
    !style.is_empty() && !str_eq(style, "borderStyle-solid") && !str_eq(style, "solid")
}

/// What a character of a text element becomes.
#[derive(Clone, Copy, Debug, PartialEq, Eq, Structural)]
pub enum CharClass {
    /// A line break.
    Newline,
    /// A tab: the advance of four spaces, drawn as nothing.
    Tab,
    /// A glyph.
    Glyph(char),
}

/// The most characters a document lays out.
pub const TEXT_LIMIT: usize = 500_000;
pub const TOO_MUCH_TEXT: &'static str = "Document exceeds the PDF export text limit.";
pub const CONTROL_START: &'static str = "Unsupported control character U+";
pub const CONTROL_END: &'static str = " in UDF.";

/// Whether the character is a control character (general category Cc), as
/// `char::is_control` says.
pub open spec fn is_control(c: char) -> bool {
    (c as u32) <= 0x1f || (0x7f <= (c as u32) && (c as u32) <= 0x9f)
}

/// The upper-case hexadecimal digits.
pub const HEX_DIGITS: [char; 16] = ['0', '1', '2', '3', '4', '5', '6', '7', '8', '9', 'A', 'B', 'C', 'D', 'E', 'F'];

/// The upper-case hexadecimal digit of a value below 16.
pub open spec fn hex_digit(v: nat) -> char {
    HEX_DIGITS@[v as int]
}

/// A value below `0x10000` as four upper-case hexadecimal digits, as
/// `{:04X}` writes it.
pub open spec fn hex4(v: nat) -> Seq<char> {
    seq![hex_digit((v / 4096) % 16), hex_digit((v / 256) % 16), hex_digit((v / 16) % 16), hex_digit(v % 16)]
}

/// The error for an unsupported control character.
pub open spec fn control_message(c: char) -> Seq<char> {
    CONTROL_START@ + hex4(c as nat) + CONTROL_END@
}

/// The characters of a text element, with `count` characters of the
/// document laid out before them: what each becomes, the count after them,
/// and the error that stops the layout, if one does. Carriage returns are
/// skipped; every other character counts, and the one that passes the limit
/// is refused, as is a control character other than a tab or a line break.
pub open spec fn text_classes(chars: Seq<char>, count: nat) -> (Seq<CharClass>, nat, Option<Seq<char>>)
    decreases chars.len(),
{
    if chars.len() == 0 {
        (Seq::empty(), count, None)
    } else {
        let c = chars[0];
        let rest = chars.drop_first();
        if c == '\r' {
            text_classes(rest, count)
        } else if count + 1 > TEXT_LIMIT {
            (Seq::empty(), count + 1, Some(TOO_MUCH_TEXT@))
        } else if c != '\n' && c != '\t' && is_control(c) {
            (Seq::empty(), count + 1, Some(control_message(c)))
        } else {
            let class = if c == '\n' {
                CharClass::Newline
            } else if c == '\t' {
                CharClass::Tab
            } else {
                CharClass::Glyph(c)
            };
            let after = text_classes(rest, count + 1);
            (seq![class] + after.0, after.1, after.2)
        }
    }
}

/// A value below 16 as an upper-case hexadecimal digit.
fn hex_char(v: u32) -> (c: char)
    requires
        v < 16,
    ensures
        c == hex_digit(v as nat),
{
    HEX_DIGITS[v as usize]
}

/// The error message for a control character.
fn control_error(c: char) -> (message: String)
    requires
        (c as u32) < 0x10000,
    ensures
        message@ == control_message(c),
{
    let v = c as u32;
    let mut message = owned(CONTROL_START);
    crate::text::push_char(&mut message, hex_char((v / 4096) % 16));
    crate::text::push_char(&mut message, hex_char((v / 256) % 16));
    crate::text::push_char(&mut message, hex_char((v / 16) % 16));
    crate::text::push_char(&mut message, hex_char(v % 16));
    message.append(CONTROL_END);
    message
}

/// What becomes of the characters of a text element.
#[derive(Debug)]
pub struct TextRun {
    /// What each character becomes, up to any error.
    pub classes: Vec<CharClass>,
    /// The characters of the document laid out so far.
    pub count: usize,
    /// The error that stops the layout after `classes`, if any.
    pub error: Option<String>,
}

/// One step of `text_classes` on a character that is laid out.
proof fn lemma_text_step(chars: Seq<char>, count: nat, class: CharClass, done: Seq<CharClass>)
    requires
        chars.len() > 0,
        chars[0] != '\r',
        count + 1 <= TEXT_LIMIT,
        !(chars[0] != '\n' && chars[0] != '\t' && is_control(chars[0])),
        class == (if chars[0] == '\n' {
            CharClass::Newline
        } else if chars[0] == '\t' {
            CharClass::Tab
        } else {
            CharClass::Glyph(chars[0])
        }),
    ensures
        ({
            let r = text_classes(chars, count);
            let s = text_classes(chars.drop_first(), count + 1);
            (done + r.0, r.1, r.2) == (done.push(class) + s.0, s.1, s.2)
        }),
{
    let s = text_classes(chars.drop_first(), count + 1);
    let one: Seq<CharClass> = seq![class];
    assert(one =~= Seq::<CharClass>::empty().push(class));
    vstd::seq_lib::lemma_concat_associative(done, one, s.0);
    assert(done + one =~= done.push(class));
}

/// Classifies the characters of a text element, `count` characters of the
/// document having been laid out before them.
pub fn text_run(text: &str, count: usize) -> (run: TextRun)
    requires
        count < usize::MAX,
    ensures
        (run.classes@, run.count as nat, run.error.deep_view()) == text_classes(text@, count as nat),
{
    let mut chars: Vec<char> = Vec::new();
    crate::text::append_chars(&mut chars, text);
    assert(chars@ =~= text@);
    let ghost all = chars@;
    let mut classes: Vec<CharClass> = Vec::new();
    let mut n = count;
    let mut i: usize = 0;
    assert(all.skip(0) =~= all);
    assert(Seq::<CharClass>::empty() + text_classes(all, count as nat).0 =~= text_classes(all, count as nat).0);
    while i < chars.len()
        invariant
            i <= chars@.len(),
            all == chars@,
            all == text@,
            count <= n,
            n <= count || n <= TEXT_LIMIT,
            count < usize::MAX,
            ({
                let r = text_classes(all.skip(i as int), n as nat);
                text_classes(all, count as nat) == (classes@ + r.0, r.1, r.2)
            }),
        decreases chars@.len() - i,
    {
        let c = chars[i];
        assert(all.skip(i as int).drop_first() =~= all.skip(i + 1));
        assert(all.skip(i as int)[0] == c);
        if c == '\r' {
            i += 1;
            continue;
        }
        if n >= TEXT_LIMIT {
            assert(classes@ + Seq::<CharClass>::empty() =~= classes@);
            return TextRun { classes, count: n + 1, error: Some(owned(TOO_MUCH_TEXT)) };
        }
        let v = c as u32;
        if c != '\n' && c != '\t' && (v <= 0x1f || (0x7f <= v && v <= 0x9f)) {
            let message = control_error(c);
            assert(classes@ + Seq::<CharClass>::empty() =~= classes@);
            return TextRun { classes, count: n + 1, error: Some(message) };
        }
        let class = if c == '\n' {
            CharClass::Newline
        } else if c == '\t' {
            CharClass::Tab
        } else {
            CharClass::Glyph(c)
        };
        proof {
            lemma_text_step(all.skip(i as int), n as nat, class, classes@);
        }
        classes.push(class);
        n += 1;
        i += 1;
    }
    assert(all.skip(chars@.len() as int) =~= Seq::<char>::empty());
    assert(classes@ + Seq::<CharClass>::empty() =~= classes@);
    TextRun { classes, count: n, error: None }
}

/// The red, green and blue bytes of a colour number: the number, 0 where
/// there is none, taken to 32 bits as `as u32` does, red in bits 16 to 23,
/// green in bits 8 to 15 and blue in bits 0 to 7.
pub open spec fn channels_of(value: Option<i64>) -> Seq<u8> {
    let v = (match value {
        Some(n) => n,
        None => 0,
    }) as u32;
    seq![((v >> 16u32) & 255u32) as u8, ((v >> 8u32) & 255u32) as u8, (v & 255u32) as u8]
}

/// The red, green and blue bytes of a parsed colour number.
pub fn channels(value: Option<i64>) -> (rgb: [u8; 3])
    ensures
        rgb@ == channels_of(value),
{
    let n: i64 = match value {
        Some(n) => n,
        None => 0,
    };
    let v = n as u32;
    let rgb: [u8; 3] = [((v >> 16u32) & 255u32) as u8, ((v >> 8u32) & 255u32) as u8, (v & 255u32) as u8];
    assert(rgb@ =~= channels_of(value));
    rgb
}

/// The red, green and blue bytes of a colour attribute, written as a
/// decimal number.
pub fn color_channels(value: &str) -> (rgb: [u8; 3])
    ensures
        rgb@ == channels_of(i64_from_str(value@)),
{
    channels(parse_i64(value))
}

/// How the lines of a paragraph sit between its indents.
#[derive(Clone, Copy, Debug, PartialEq, Eq, Structural)]
pub enum Align {
    Left,
    Center,
    Right,
    /// Stretched to both indents, except the last line.
    Justify,
}

/// The alignment that a paragraph's `Alignment` code names: `1` centred,
/// `2` right, `3` justified, anything else left.
pub open spec fn align_of(code: Seq<char>) -> Align {
    if code == "1"@ {
        Align::Center
    } else if code == "2"@ {
        Align::Right
    } else if code == "3"@ {
        Align::Justify
    } else {
        Align::Left
    }
}

/// The alignment of a paragraph.
pub fn alignment(e: &Element) -> (align: Align)
    ensures
        align == align_of(attr(e.attrs@, "Alignment"@)),
{
    let code = e.get("Alignment");
    if str_eq(code, "1") {
        Align::Center
    } else if str_eq(code, "2") {
        Align::Right
    } else if str_eq(code, "3") {
        Align::Justify
    } else {
        Align::Left
    }
}

/// Where a table cell's content sits in its row.
#[derive(Clone, Copy, Debug, PartialEq, Eq, Structural)]
pub enum CellAlign {
    Top,
    Middle,
    Bottom,
}

/// The placement that a cell's `align` names: `vcenter` in the middle,
/// `bottom` at the bottom, anything else at the top.
pub open spec fn cell_align_of(value: Seq<char>) -> CellAlign {
    if value == "vcenter"@ {
        CellAlign::Middle
    } else if value == "bottom"@ {
        CellAlign::Bottom
    } else {
        CellAlign::Top
    }
}

/// Where a table cell's content sits.
pub fn cell_alignment(cell: &Element) -> (align: CellAlign)
    ensures
        align == cell_align_of(attr(cell.attrs@, "align"@)),
{
    let value = cell.get("align");
    if str_eq(value, "vcenter") {
        CellAlign::Middle
    } else if str_eq(value, "bottom") {
        CellAlign::Bottom
    } else {
        CellAlign::Top
    }
}

/// The switches of a text element's style; each is on where its attribute
/// is `true`.
#[derive(Clone, Copy, Debug, PartialEq, Eq, Structural)]
pub struct TextStyle {
    pub bold: bool,
    pub italic: bool,
    pub underline: bool,
    pub strike_through: bool,
    pub superscript: bool,
    pub subscript: bool,
}

/// Whether an attribute is `true`.
pub open spec fn is_true(m: Map<Seq<char>, Seq<char>>, key: Seq<char>) -> bool {
    attr(m, key) == "true"@
}

fn flag(e: &Element, key: &str) -> (on: bool)
    ensures
        on == is_true(e.attrs@, key@),
{
    str_eq(e.get(key), "true")
}

/// The style switches of a text element.
pub fn text_style(e: &Element) -> (style: TextStyle)
    ensures
        style.bold == is_true(e.attrs@, "bold"@),
        style.italic == is_true(e.attrs@, "italic"@),
        style.underline == is_true(e.attrs@, "underline"@),
        style.strike_through == is_true(e.attrs@, "strikeThrough"@),
        style.superscript == is_true(e.attrs@, "superscript"@),
        style.subscript == is_true(e.attrs@, "subscript"@),
{
    TextStyle {
        bold: flag(e, "bold"),
        italic: flag(e, "italic"),
        underline: flag(e, "underline"),
        strike_through: flag(e, "strikeThrough"),
        superscript: flag(e, "superscript"),
        subscript: flag(e, "subscript"),
    }
}

/// Whether a table is drawn with an outline of its own: its `border` is
/// `borderTable`.
pub fn outlines_table(table: &Element) -> (outlined: bool)
    ensures
        outlined == (attr(table.attrs@, "border"@) == "borderTable"@),
{
    str_eq(table.get("border"), "borderTable")
}

/// The most columns a table may have.
pub const MAX_COLUMNS: usize = 1000;
pub const TOO_MANY_COLUMNS: &'static str = "Too many table columns.";

/// The columns that a row's cells span together.
pub open spec fn row_width(spans: Seq<usize>) -> nat
    decreases spans.len(),
{
    if spans.len() == 0 {
        0
    } else {
        row_width(spans.drop_last()) + (spans.last() as nat)
    }
}

/// The columns of a table: those of its widest row, 0 without rows.
pub open spec fn table_width(rows: Seq<Seq<usize>>) -> nat
    decreases rows.len(),
{
    if rows.len() == 0 {
        0
    } else {
        let rest = table_width(rows.drop_last());
        let last = row_width(rows.last());
        if last > rest {
            last
        } else {
            rest
        }
    }
}

/// The number of columns that a table is laid out in, given the column span
/// of each cell of each row: `None` for a table without cells, which is
/// skipped, and an error for one wider than 1000 columns.
pub open spec fn columns_of(rows: Seq<Seq<usize>>) -> Result<Option<usize>, Seq<char>> {
    if table_width(rows) == 0 {
        Ok(None)
    } else if table_width(rows) > MAX_COLUMNS {
        Err(TOO_MANY_COLUMNS@)
    } else {
        Ok(Some(table_width(rows) as usize))
    }
}

/// The columns that a row's cells span together.
fn row_columns(spans: &Vec<usize>) -> (width: usize)
    requires
        row_width(spans@) <= usize::MAX,
    ensures
        width == row_width(spans@),
{
    let mut width: usize = 0;
    let mut i: usize = 0;
    while i < spans.len()
        invariant
            i <= spans@.len(),
            row_width(spans@) <= usize::MAX,
            width == row_width(spans@.take(i as int)),
        decreases spans@.len() - i,
    {
        proof {
            assert(spans@.take(i + 1).drop_last() =~= spans@.take(i as int));
            lemma_row_width_prefix(spans@, i + 1);
        }
        width = width + spans[i];
        i += 1;
    }
    assert(spans@.take(spans@.len() as int) =~= spans@);
    width
}

/// A row's first cells span no more columns than all of them.
proof fn lemma_row_width_prefix(spans: Seq<usize>, i: int)
    requires
        0 <= i <= spans.len(),
    ensures
        row_width(spans.take(i)) <= row_width(spans),
    decreases spans.len() - i,
{
    if i < spans.len() {
        lemma_row_width_prefix(spans, i + 1);
        assert(spans.take(i + 1).drop_last() =~= spans.take(i));
    } else {
        assert(spans.take(i) =~= spans);
    }
}

/// The number of columns that a table is laid out in, from the column span
/// of each cell of each row.
pub fn table_columns(rows: &Vec<Vec<usize>>) -> (columns: Result<Option<usize>, &'static str>)
    requires
        forall|r: int| 0 <= r < rows@.len() ==> row_width(#[trigger] rows@[r]@) <= usize::MAX,
    ensures
        match columns {
            Ok(c) => columns_of(rows.deep_view()) == Ok::<Option<usize>, Seq<char>>(c),
            Err(m) => columns_of(rows.deep_view()) == Err::<Option<usize>, Seq<char>>(m@),
        },
{
    let ghost all = rows.deep_view();
    let mut widest: usize = 0;
    let mut r: usize = 0;
    while r < rows.len()
        invariant
            r <= rows@.len(),
            all == rows.deep_view(),
            forall|k: int| 0 <= k < rows@.len() ==> row_width(#[trigger] rows@[k]@) <= usize::MAX,
            widest == table_width(all.take(r as int)),
        decreases rows@.len() - r,
    {
        assert(all[r as int] == rows@[r as int]@);
        assert(all.take(r + 1).drop_last() =~= all.take(r as int));
        let w = row_columns(&rows[r]);
        if w > widest {
            widest = w;
        }
        r += 1;
    }
    assert(all.take(rows@.len() as int) =~= all);
    if widest == 0 {
        Ok(None)
    } else if widest > MAX_COLUMNS {
        Err(TOO_MANY_COLUMNS)
    } else {
        Ok(Some(widest))
    }
}

/// The characters of a text that count towards the limit: all but
/// carriage returns.
pub open spec fn text_count(text: Seq<char>) -> nat
    decreases text.len(),
{
    if text.len() == 0 {
        0
    } else {
        (if text[0] == '\r' { 0nat } else { 1nat }) + text_count(text.drop_first())
    }
}

/// A text run that ends without an error has counted every character but
/// carriage returns, and, where it counted any, stays within the limit.
pub proof fn lemma_text_run_count(text: Seq<char>, count: nat)
    ensures
        text_classes(text, count).2 is None ==> text_classes(text, count).1 == count + text_count(text),
        text_classes(text, count).2 is None && text_count(text) > 0 ==> text_classes(text, count).1 <= TEXT_LIMIT,
    decreases text.len(),
{
    if text.len() > 0 {
        let c = text[0];
        if c == '\r' {
            lemma_text_run_count(text.drop_first(), count);
        } else if count + 1 <= TEXT_LIMIT {
            lemma_text_run_count(text.drop_first(), count + 1);
        }
    }
}

/// Characters counted in two texts one after the other.
pub proof fn lemma_text_count_add(a: Seq<char>, b: Seq<char>)
    ensures
        text_count(a + b) == text_count(a) + text_count(b),
    decreases a.len(),
{
    if a.len() > 0 {
        assert((a + b).drop_first() =~= a.drop_first() + b);
        assert((a + b)[0] == a[0]);
        lemma_text_count_add(a.drop_first(), b);
    }
}

/// What an element inside a paragraph becomes, in layout order.
#[derive(Debug)]
pub enum InlineItem<'a> {
    /// An image element.
    Image(&'a Element),
    /// A text element and what each of its characters becomes.
    Text(&'a Element, Vec<CharClass>),
    /// A warning about an element that was flattened.
    Warning(String),
}

pub enum InlineItemView {
    Image(ElementModel),
    Text(ElementModel, Seq<CharClass>),
    Warning(Seq<char>),
}

impl<'a> DeepView for InlineItem<'a> {
    type V = InlineItemView;

    open spec fn deep_view(&self) -> InlineItemView {
        match self {
            InlineItem::Image(e) => InlineItemView::Image(crate::model::model_of(**e)),
            InlineItem::Text(e, classes) => InlineItemView::Text(crate::model::model_of(**e), classes@),
            InlineItem::Warning(w) => InlineItemView::Warning(w@),
        }
    }
}

/// What an element inside a paragraph and its descendants become, with
/// `count` characters of the document laid out before them: the items in
/// layout order, the count after them, and the error that stops the layout,
/// if one does.
pub open spec fn inline_items_of(m: ElementModel, count: nat) -> (Seq<InlineItemView>, nat, Option<Seq<char>>)
    decreases m,
{
    match inline_of(m.tag) {
        InlineView::Image => (seq![InlineItemView::Image(m)], count, None),
        InlineView::Text => {
            let r = text_classes(m.text, count);
            (seq![InlineItemView::Text(m, r.0)], r.1, r.2)
        },
        InlineView::Flattened(w) => {
            let head: Seq<InlineItemView> = match w {
                Some(w) => seq![InlineItemView::Warning(w)],
                None => Seq::empty(),
            };
            let r = inline_list_of(m.children, count);
            (head + r.0, r.1, r.2)
        },
    }
}

/// What a list of elements inside a paragraph becomes, in order; the first
/// error stops it.
pub open spec fn inline_list_of(ms: Seq<ElementModel>, count: nat) -> (Seq<InlineItemView>, nat, Option<Seq<char>>)
    decreases ms,
{
    if ms.len() == 0 {
        (Seq::empty(), count, None)
    } else {
        let a = inline_items_of(ms[0], count);
        if a.2 is Some {
            a
        } else {
            let b = inline_list_of(ms.subrange(1, ms.len() as int), a.1);
            (a.0 + b.0, b.1, b.2)
        }
    }
}

/// The text that an element inside a paragraph lays out, descendants
/// included, in layout order.
pub open spec fn inline_text(m: ElementModel) -> Seq<char>
    decreases m,
{
    match inline_of(m.tag) {
        InlineView::Image => Seq::empty(),
        InlineView::Text => m.text,
        InlineView::Flattened(_) => inline_list_text(m.children),
    }
}

/// The text that a list of elements inside a paragraph lays out.
pub open spec fn inline_list_text(ms: Seq<ElementModel>) -> Seq<char>
    decreases ms,
{
    if ms.len() == 0 {
        Seq::empty()
    } else {
        inline_text(ms[0]) + inline_list_text(ms.subrange(1, ms.len() as int))
    }
}

/// The text limit holds over a whole element and its descendants: laying
/// them out without an error counts every character of their text but
/// carriage returns, and stays within the limit where it counts any; so
/// where the text would pass the limit, the layout stops with an error.
pub proof fn lemma_inline_count(m: ElementModel, count: nat)
    ensures
        inline_items_of(m, count).2 is None ==> inline_items_of(m, count).1 == count + text_count(inline_text(m)),
        inline_items_of(m, count).2 is None && text_count(inline_text(m)) > 0 ==> inline_items_of(m, count).1
            <= TEXT_LIMIT,
        count + text_count(inline_text(m)) > TEXT_LIMIT && text_count(inline_text(m)) > 0 ==> inline_items_of(
            m,
            count,
        ).2 is Some,
    decreases m,
{
    match inline_of(m.tag) {
        InlineView::Image => {},
        InlineView::Text => {
            lemma_text_run_count(m.text, count);
        },
        InlineView::Flattened(_) => {
            lemma_inline_list_count(m.children, count);
        },
    }
}

/// `lemma_inline_count` for a list of elements.
pub proof fn lemma_inline_list_count(ms: Seq<ElementModel>, count: nat)
    ensures
        inline_list_of(ms, count).2 is None ==> inline_list_of(ms, count).1 == count + text_count(inline_list_text(ms)),
        inline_list_of(ms, count).2 is None && text_count(inline_list_text(ms)) > 0 ==> inline_list_of(ms, count).1
            <= TEXT_LIMIT,
        count + text_count(inline_list_text(ms)) > TEXT_LIMIT && text_count(inline_list_text(ms)) > 0
            ==> inline_list_of(ms, count).2 is Some,
    decreases ms,
{
    if ms.len() > 0 {
        let rest = ms.subrange(1, ms.len() as int);
        lemma_inline_count(ms[0], count);
        lemma_text_count_add(inline_text(ms[0]), inline_list_text(rest));
        let a = inline_items_of(ms[0], count);
        if a.2 is None {
            lemma_inline_list_count(rest, a.1);
        }
    }
}

/// What an element inside a paragraph and its descendants become.
#[derive(Debug)]
pub struct InlineRun<'a> {
    /// The items in layout order, up to any error.
    pub items: Vec<InlineItem<'a>>,
    /// The characters of the document laid out so far.
    pub count: usize,
    /// The error that stops the layout after `items`, if any.
    pub error: Option<String>,
}

/// Appends what an element inside a paragraph and its descendants become.
fn collect_inline<'a>(e: &'a Element, count: usize, out: &mut Vec<InlineItem<'a>>) -> (result: (usize, Option<String>))
    requires
        count < usize::MAX,
    ensures
        ({
            let r = inline_items_of(crate::model::model_of(*e), count as nat);
            &&& final(out).deep_view() == old(out).deep_view() + r.0
            &&& result.0 == r.1
            &&& result.1.deep_view() == r.2
        }),
    decreases e,
{
    let ghost m = crate::model::model_of(*e);
    let ghost start = out.deep_view();
    match inline_kind(e.tag.as_str()) {
        Inline::Image => {
            out.push(InlineItem::Image(e));
            assert(out.deep_view() =~= start + seq![InlineItemView::Image(m)]);
            (count, None)
        },
        Inline::Text => {
            let run = text_run(e.text.as_str(), count);
            let ghost classes = run.classes@;
            out.push(InlineItem::Text(e, run.classes));
            assert(out.deep_view() =~= start + seq![InlineItemView::Text(m, classes)]);
            (run.count, run.error)
        },
        Inline::Flattened(w) => {
            match w {
                Some(w) => {
                    let ghost wv = w@;
                    out.push(InlineItem::Warning(w));
                    assert(out.deep_view() =~= start + seq![InlineItemView::Warning(wv)]);
                },
                None => {
                    assert(out.deep_view() =~= start + Seq::<InlineItemView>::empty());
                },
            }
            let ghost head = out.deep_view();
            let ghost pushed: Seq<InlineItemView> = match inline_of(m.tag) {
                InlineView::Flattened(Some(w)) => seq![InlineItemView::Warning(w)],
                _ => Seq::empty(),
            };
            assert(head == start + pushed);
            let ghost ms = m.children;
            let ghost mut done: Seq<InlineItemView> = Seq::empty();
            let mut n = count;
            let mut i: usize = 0;
            assert(ms.subrange(0, ms.len() as int) =~= ms);
            assert(Seq::<InlineItemView>::empty() + inline_list_of(ms, count as nat).0 =~= inline_list_of(ms, count as nat).0);
            while i < e.children.len()
                invariant
                    i <= e.children@.len(),
                    m == crate::model::model_of(*e),
                    ms == m.children,
                    ms.len() == e.children@.len(),
                    n < usize::MAX,
                    out.deep_view() == head + done,
                    head == start + pushed,
                    start == old(out).deep_view(),
                    inline_items_of(m, count as nat) == (
                        pushed + inline_list_of(ms, count as nat).0,
                        inline_list_of(ms, count as nat).1,
                        inline_list_of(ms, count as nat).2,
                    ),
                    ({
                        let r = inline_list_of(ms.subrange(i as int, ms.len() as int), n as nat);
                        inline_list_of(ms, count as nat) == (done + r.0, r.1, r.2)
                    }),
                decreases e.children@.len() - i,
            {
                let ghost rest = ms.subrange(i as int, ms.len() as int);
                assert(rest[0] == ms[i as int]);
                assert(ms[i as int] == crate::model::model_of(e.children@[i as int]));
                assert(rest.subrange(1, rest.len() as int) =~= ms.subrange(i + 1, ms.len() as int));
                let ghost before = out.deep_view();
                let ghost a = inline_items_of(ms[i as int], n as nat);
                proof {
                    lemma_inline_count(ms[i as int], n as nat);
                }
                let (next, error) = collect_inline(&e.children[i], n, out);
                assert(out.deep_view() == before + a.0);
                assert(before == head + done);
                proof {
                    vstd::seq_lib::lemma_concat_associative(head, done, a.0);
                    vstd::seq_lib::lemma_concat_associative(done, a.0, inline_list_of(ms.subrange(i + 1, ms.len() as int), next as nat).0);
                }
                if error.is_some() {
                    assert(inline_list_of(rest, n as nat) == a);
                    assert(out.deep_view() =~= start + (pushed + (done + a.0)));
                    return (next, error);
                }
                proof {
                    done = done + a.0;
                }
                n = next;
                i += 1;
            }
            assert(ms.subrange(i as int, ms.len() as int) =~= Seq::<ElementModel>::empty());
            assert(done + Seq::<InlineItemView>::empty() =~= done);
            assert(out.deep_view() =~= start + (pushed + done));
            (n, None)
        },
    }
}

/// What an element inside a paragraph and its descendants become, `count`
/// characters of the document having been laid out before them.
pub fn inline_items<'a>(e: &'a Element, count: usize) -> (run: InlineRun<'a>)
    requires
        count < usize::MAX,
    ensures
        (run.items.deep_view(), run.count as nat, run.error.deep_view()) == inline_items_of(
            crate::model::model_of(*e),
            count as nat,
        ),
{
    let mut items: Vec<InlineItem<'a>> = Vec::new();
    assert(items.deep_view() =~= Seq::<InlineItemView>::empty());
    let (after, error) = collect_inline(e, count, &mut items);
    assert(items.deep_view() =~= Seq::<InlineItemView>::empty() + inline_items_of(crate::model::model_of(*e), count as nat).0);
    InlineRun { items, count: after, error }
}

pub const NOT_ROWS: &'static str = "Unsupported table structure.";
pub const NOT_CELLS: &'static str = "Unsupported table row structure.";
pub const ROW_SPANS: &'static str = "PDF export does not yet support cells spanning multiple rows.";
pub const NESTED_TOO_DEEP: &'static str = "PDF layout nesting limit exceeded.";
pub const TOO_MANY_PAGES: &'static str = "PDF exceeds 2000 pages.";
pub const CELL_PAGE_BREAKS: &'static str = "Page breaks inside table cells are not yet supported.";
pub const MARGIN_PAGE_BREAKS: &'static str = "Page breaks in headers or footers are unsupported.";
/// The deepest nesting of blocks that is laid out.
pub const MAX_LAYOUT_DEPTH: usize = 100;
/// The most pages a PDF may have.
pub const MAX_PAGES: usize = 2000;

/// A table holds only rows.
pub fn row_shape(row: &Element) -> (shape: Result<(), &'static str>)
    ensures
        match shape {
            Ok(()) => row.tag@ == "row"@,
            Err(m) => row.tag@ != "row"@ && m == NOT_ROWS,
        },
{
    if str_eq(row.tag.as_str(), "row") {
        Ok(())
    } else {
        Err(NOT_ROWS)
    }
}

/// A row holds only cells, and no cell spans more than one row; `rowspan`
/// is the rows that the cell asks to span.
pub fn cell_shape(cell: &Element, rowspan: usize) -> (shape: Result<(), &'static str>)
    ensures
        match shape {
            Ok(()) => cell.tag@ == "cell"@ && rowspan <= 1,
            Err(m) => if cell.tag@ != "cell"@ {
                m == NOT_CELLS
            } else {
                rowspan > 1 && m == ROW_SPANS
            },
        },
{
    if !str_eq(cell.tag.as_str(), "cell") {
        Err(NOT_CELLS)
    } else if rowspan > 1 {
        Err(ROW_SPANS)
    } else {
        Ok(())
    }
}

/// Blocks nest at most 100 levels deep.
pub fn nesting_allowed(depth: usize) -> (allowed: Result<(), &'static str>)
    ensures
        match allowed {
            Ok(()) => depth <= MAX_LAYOUT_DEPTH,
            Err(m) => depth > MAX_LAYOUT_DEPTH && m == NESTED_TOO_DEEP,
        },
{
    if depth > MAX_LAYOUT_DEPTH {
        Err(NESTED_TOO_DEEP)
    } else {
        Ok(())
    }
}

/// A PDF has at most 2000 pages.
pub fn pages_allowed(pages: usize) -> (allowed: Result<(), &'static str>)
    ensures
        match allowed {
            Ok(()) => pages <= MAX_PAGES,
            Err(m) => pages > MAX_PAGES && m == TOO_MANY_PAGES,
        },
{
    if pages > MAX_PAGES {
        Err(TOO_MANY_PAGES)
    } else {
        Ok(())
    }
}

/// Whether the block layout of an element starts a new page within it: a
/// page break does; an element that is flattened into its children does
/// where one of them does; paragraphs, tables, and the text and image
/// elements that are wrapped in paragraphs never do.
pub open spec fn block_breaks_page(m: ElementModel) -> bool
    decreases m,
{
    match block_of(m.tag) {
        BlockView::PageBreak => true,
        BlockView::Flattened(_) => blocks_break_page(m.children),
        _ => false,
    }
}

/// Whether the block layout of a list of elements starts a new page
/// within it.
pub open spec fn blocks_break_page(ms: Seq<ElementModel>) -> bool
    decreases ms,
{
    if ms.len() == 0 {
        false
    } else {
        block_breaks_page(ms[0]) || blocks_break_page(ms.subrange(1, ms.len() as int))
    }
}

/// Decides whether the block layout of an element starts a new page
/// within it.
fn element_breaks_page(e: &Element) -> (breaks: bool)
    ensures
        breaks == block_breaks_page(crate::model::model_of(*e)),
    decreases e,
{
    let ghost m = crate::model::model_of(*e);
    match block_kind(e.tag.as_str()) {
        Block::PageBreak => {
            return true;
        },
        Block::Flattened(_) => {},
        _ => {
            return false;
        },
    }
    let ghost ms = m.children;
    let mut i: usize = 0;
    assert(ms.subrange(0, ms.len() as int) =~= ms);
    while i < e.children.len()
        invariant
            i <= e.children@.len(),
            m == crate::model::model_of(*e),
            ms == m.children,
            ms.len() == e.children@.len(),
            block_breaks_page(m) == blocks_break_page(m.children),
            blocks_break_page(ms) == blocks_break_page(ms.subrange(i as int, ms.len() as int)),
        decreases e.children@.len() - i,
    {
        let ghost rest = ms.subrange(i as int, ms.len() as int);
        assert(rest[0] == ms[i as int]);
        assert(ms[i as int] == crate::model::model_of(e.children@[i as int]));
        assert(rest.subrange(1, rest.len() as int) =~= ms.subrange(i + 1, ms.len() as int));
        if element_breaks_page(&e.children[i]) {
            return true;
        }
        i += 1;
    }
    assert(ms.subrange(i as int, ms.len() as int) =~= Seq::<ElementModel>::empty());
    false
}

/// Decides whether the block layout of a list of elements starts a new
/// page within it, as a page break inside a table cell, a header or a
/// footer would.
pub fn breaks_page(elements: &Vec<Element>) -> (breaks: bool)
    ensures
        breaks == blocks_break_page(elements.deep_view()),
{
    let ghost ms = elements.deep_view();
    let mut i: usize = 0;
    assert(ms.subrange(0, ms.len() as int) =~= ms);
    while i < elements.len()
        invariant
            i <= elements@.len(),
            ms == elements.deep_view(),
            ms.len() == elements@.len(),
            blocks_break_page(ms) == blocks_break_page(ms.subrange(i as int, ms.len() as int)),
        decreases elements@.len() - i,
    {
        let ghost rest = ms.subrange(i as int, ms.len() as int);
        assert(rest[0] == ms[i as int]);
        assert(ms[i as int] == crate::model::model_of(elements@[i as int]));
        assert(rest.subrange(1, rest.len() as int) =~= ms.subrange(i + 1, ms.len() as int));
        if element_breaks_page(&elements[i]) {
            return true;
        }
        i += 1;
    }
    assert(ms.subrange(i as int, ms.len() as int) =~= Seq::<ElementModel>::empty());
    false
}

/// A table cell's content starts no new page.
pub fn cell_page_breaks(cell: &Element) -> (allowed: Result<(), &'static str>)
    ensures
        match allowed {
            Ok(()) => !blocks_break_page(crate::model::model_of(*cell).children),
            Err(m) => blocks_break_page(crate::model::model_of(*cell).children) && m == CELL_PAGE_BREAKS,
        },
{
    assert(cell.children.deep_view() =~= crate::model::model_of(*cell).children);
    if breaks_page(&cell.children) {
        Err(CELL_PAGE_BREAKS)
    } else {
        Ok(())
    }
}

/// Neither the headers nor the footers start a new page.
pub fn margin_page_breaks(headers: &Vec<Element>, footers: &Vec<Element>) -> (allowed: Result<(), &'static str>)
    ensures
        match allowed {
            Ok(()) => !blocks_break_page(headers.deep_view()) && !blocks_break_page(footers.deep_view()),
            Err(m) => (blocks_break_page(headers.deep_view()) || blocks_break_page(footers.deep_view()))
                && m == MARGIN_PAGE_BREAKS,
        },
{
    if breaks_page(headers) || breaks_page(footers) {
        Err(MARGIN_PAGE_BREAKS)
    } else {
        Ok(())
    }
}

/// The character with ASCII capitals made small, as
/// `char::to_ascii_lowercase` does.
pub open spec fn ascii_lower(c: char) -> char {
    if 'A' <= c && c <= 'Z' {
        ((c as u32) + 32) as char
    } else {
        c
    }
}

/// Whether two texts are equal but for the case of ASCII letters, as
/// `str::eq_ignore_ascii_case` says.
pub open spec fn same_ignoring_ascii_case(a: Seq<char>, b: Seq<char>) -> bool {
    a.len() == b.len() && forall|i: int| 0 <= i < a.len() ==> ascii_lower(#[trigger] a[i]) == ascii_lower(b[i])
}

fn lower(c: char) -> (l: char)
    ensures
        l == ascii_lower(c),
{
    if 'A' <= c && c <= 'Z' {
        let small: [char; 26] = [
            'a', 'b', 'c', 'd', 'e', 'f', 'g', 'h', 'i', 'j', 'k', 'l', 'm', 'n', 'o', 'p', 'q', 'r', 's', 't',
            'u', 'v', 'w', 'x', 'y', 'z',
        ];
        let k = (c as u32 - 'A' as u32) as usize;
        assert(small@[k as int] == ((c as u32) + 32) as char);
        small[k]
    } else {
        c
    }
}

/// Whether two texts are equal but for the case of ASCII letters.
pub fn eq_ignore_ascii_case(a: &str, b: &str) -> (same: bool)
    ensures
        same == same_ignoring_ascii_case(a@, b@),
{
    let mut x: Vec<char> = Vec::new();
    crate::text::append_chars(&mut x, a);
    let mut y: Vec<char> = Vec::new();
    crate::text::append_chars(&mut y, b);
    assert(x@ =~= a@);
    assert(y@ =~= b@);
    if x.len() != y.len() {
        return false;
    }
    let mut i: usize = 0;
    while i < x.len()
        invariant
            x@ == a@,
            y@ == b@,
            x@.len() == y@.len(),
            i <= x@.len(),
            forall|j: int| 0 <= j < i ==> ascii_lower(#[trigger] x@[j]) == ascii_lower(y@[j]),
        decreases x@.len() - i,
    {
        if lower(x[i]) != lower(y[i]) {
            return false;
        }
        i += 1;
    }
    true
}

pub const SUBSTITUTED_START: &'static str = "A system font was substituted for ";
pub const SUBSTITUTED_END: &'static str = " or some of its characters.";

/// Whether the face chosen for a family stands in for it: it is not the one
/// the query found first, or it is known and none of its family names is the
/// requested one, ASCII case aside.
pub open spec fn substitutes(first_choice: bool, face_families: Option<Seq<Seq<char>>>, family: Seq<char>) -> bool {
    !first_choice || (face_families is Some && !names_family(face_families->0, family))
}

/// Whether one of the names is the family, ASCII case aside.
pub open spec fn names_family(names: Seq<Seq<char>>, family: Seq<char>) -> bool {
    exists|i: int| 0 <= i < names.len() && same_ignoring_ascii_case(#[trigger] names[i], family)
}

/// The warning for a substituted family, where the chosen face substitutes
/// for it: `first_choice` says whether the face is the one that the font
/// query found, and `face_families` gives the face's family names where the
/// face is known.
pub fn font_substitution(first_choice: bool, face_families: Option<&Vec<String>>, family: &str) -> (warning: Option<
    String,
>)
    ensures
        match warning {
            Some(w) => substitutes(
                first_choice,
                match face_families {
                    Some(n) => Some(n.deep_view()),
                    None => None,
                },
                family@,
            ) && w@ == SUBSTITUTED_START@ + family@ + SUBSTITUTED_END@,
            None => !substitutes(
                first_choice,
                match face_families {
                    Some(n) => Some(n.deep_view()),
                    None => None,
                },
                family@,
            ),
        },
{
    let mut substituted = !first_choice;
    match face_families {
        Some(names) => {
            let ghost all = names.deep_view();
            let mut found = false;
            let mut i: usize = 0;
            while i < names.len()
                invariant
                    i <= names@.len(),
                    all == names.deep_view(),
                    all.len() == names@.len(),
                    found == exists|j: int| 0 <= j < i && same_ignoring_ascii_case(#[trigger] all[j], family@),
                decreases names@.len() - i,
            {
                assert(all[i as int] == names@[i as int]@);
                if eq_ignore_ascii_case(names[i].as_str(), family) {
                    found = true;
                }
                i += 1;
            }
            if !found {
                substituted = true;
            }
            assert(substituted == (!first_choice || !found));
            assert(found == names_family(all, family@));
            assert(substituted == substitutes(first_choice, Some(all), family@));
        },
        None => {
            assert(substituted == substitutes(first_choice, None, family@));
        },
    }
    if substituted {
        let mut w = owned(SUBSTITUTED_START);
        w.append(family);
        w.append(SUBSTITUTED_END);
        Some(w)
    } else {
        None
    }
}

} // verus!
