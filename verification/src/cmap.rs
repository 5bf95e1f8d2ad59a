//! The `ToUnicode` CMap of an embedded font: for each character identifier
//! the text it stands for, as UTF-16 in hexadecimal, so that text copied out
//! of the PDF reads as it was written.
use vstd::prelude::*;

use crate::layout::{hex4, hex_digit, HEX_DIGITS};
use crate::text::owned;
use vstd::string::StringExecFns;

verus! {

pub const CMAP_HEADER: &'static str = "/CIDInit /ProcSet findresource begin\n12 dict begin\nbegincmap\n/CIDSystemInfo << /Registry (Adobe) /Ordering (UCS) /Supplement 0 >> def\n/CMapName /Adobe-Identity-UCS def\n/CMapType 2 def\n1 begincodespacerange\n<0000> <FFFF>\nendcodespacerange\n";
pub const CMAP_FOOTER: &'static str = "endcmap\nCMapName currentdict /CMap defineresource pop\nend\nend\n";
pub const BFCHAR_START: &'static str = " beginbfchar\n";
pub const BFCHAR_END: &'static str = "endbfchar\n";
/// The most mappings in one `beginbfchar` block.
pub const BLOCK: usize = 100;

/// The character in UTF-16, as `char::encode_utf16` gives it: itself below
/// `0x10000`, otherwise its high and low surrogates.
pub open spec fn utf16(c: char) -> Seq<nat> {
    let v = c as nat;
    if v < 0x10000 {
        seq![v]
    } else {
        seq![0xD800 + ((v - 0x10000) as nat) / 0x400, 0xDC00 + ((v - 0x10000) as nat) % 0x400]
    }
}

/// The UTF-16 units of the character, each as four hexadecimal digits.
pub open spec fn utf16_hex(c: char) -> Seq<char> {
    let units = utf16(c);
    if units.len() == 1 {
        hex4(units[0])
    } else {
        hex4(units[0]) + hex4(units[1])
    }
}

/// The line that maps a character identifier to its character.
pub open spec fn bfchar_line(cid: u16, c: char) -> Seq<char> {
    "<"@ + hex4(cid as nat) + "> <"@ + utf16_hex(c) + ">\n"@
}

/// A number in decimal, as `{}` writes it.
pub open spec fn decimal(n: nat) -> Seq<char>
    decreases n,
{
    if n < 10 {
        seq![hex_digit(n)]
    } else {
        decimal(n / 10).push(hex_digit(n % 10))
    }
}

/// The lines in blocks of at most 100, each with its count, in order.
pub open spec fn bfchar_blocks(lines: Seq<Seq<char>>) -> Seq<char>
    decreases lines.len(),
{
    if lines.len() == 0 {
        Seq::empty()
    } else {
        let k = if lines.len() < BLOCK { lines.len() } else { BLOCK as nat };
        decimal(k) + BFCHAR_START@ + lines.take(k as int).flatten() + BFCHAR_END@ + bfchar_blocks(
            lines.skip(k as int),
        )
    }
}

/// The text of the CMap for these mappings, in their order.
pub open spec fn cmap_text(mappings: Seq<(u16, char)>) -> Seq<char> {
    CMAP_HEADER@ + bfchar_blocks(lines_of(mappings)) + CMAP_FOOTER@
}

/// Appends four hexadecimal digits of a value below `0x10000`.
fn push_hex4(out: &mut String, v: u32)
    requires
        v < 0x10000,
    ensures
        final(out)@ == old(out)@ + hex4(v as nat),
{
    crate::text::push_char(out, HEX_DIGITS[((v / 4096) % 16) as usize]);
    crate::text::push_char(out, HEX_DIGITS[((v / 256) % 16) as usize]);
    crate::text::push_char(out, HEX_DIGITS[((v / 16) % 16) as usize]);
    crate::text::push_char(out, HEX_DIGITS[(v % 16) as usize]);
    assert(final(out)@ =~= old(out)@ + hex4(v as nat));
}

/// Appends the line that maps `cid` to `c`.
fn push_line(out: &mut String, cid: u16, c: char)
    ensures
        final(out)@ == old(out)@ + bfchar_line(cid, c),
{
    let ghost start = out@;
    out.append("<");
    push_hex4(out, cid as u32);
    out.append("> <");
    let v = c as u32;
    if v < 0x10000 {
        push_hex4(out, v);
    } else {
        let w = v - 0x10000;
        assert(w / 0x400 < 0x400) by (nonlinear_arith)
            requires
                w <= 0x10FFFF - 0x10000,
        ;
        push_hex4(out, 0xD800 + w / 0x400);
        push_hex4(out, 0xDC00 + w % 0x400);
    }
    out.append(">\n");
    assert(out@ =~= start + bfchar_line(cid, c));
}

/// Appends a block count, between 1 and 100, in decimal.
fn push_count(out: &mut String, n: usize)
    requires
        1 <= n <= BLOCK,
    ensures
        final(out)@ == old(out)@ + decimal(n as nat),
{
    let ghost start = out@;
    if n == 100 {
        crate::text::push_char(out, '1');
        crate::text::push_char(out, '0');
        crate::text::push_char(out, '0');
        assert(decimal(100) == decimal(10).push(hex_digit(0)));
        assert(decimal(10) == decimal(1).push(hex_digit(0)));
    } else if n >= 10 {
        crate::text::push_char(out, HEX_DIGITS[n / 10]);
        crate::text::push_char(out, HEX_DIGITS[n % 10]);
        assert(decimal(n as nat) == decimal((n / 10) as nat).push(hex_digit((n % 10) as nat)));
    } else {
        crate::text::push_char(out, HEX_DIGITS[n]);
    }
    assert(out@ =~= start + decimal(n as nat));
}

/// The lines of the mappings, in order.
pub open spec fn lines_of(mappings: Seq<(u16, char)>) -> Seq<Seq<char>> {
    mappings.map_values(|m: (u16, char)| bfchar_line(m.0, m.1))
}

/// Appends the block of the mappings `start..end`.
fn push_block(out: &mut String, mappings: &Vec<(u16, char)>, start: usize, end: usize)
    requires
        start < end <= mappings@.len(),
        end - start <= BLOCK,
    ensures
        final(out)@ == old(out)@ + decimal((end - start) as nat) + BFCHAR_START@ + lines_of(mappings@).subrange(
            start as int,
            end as int,
        ).flatten() + BFCHAR_END@,
{
    let ghost lines = lines_of(mappings@);
    push_count(out, end - start);
    out.append(BFCHAR_START);
    let ghost opened = out@;
    let mut j = start;
    assert(lines.subrange(start as int, start as int).flatten() =~= Seq::<char>::empty());
    while j < end
        invariant
            lines == lines_of(mappings@),
            start <= j <= end <= mappings@.len(),
            out@ == opened + lines.subrange(start as int, j as int).flatten(),
        decreases end - j,
    {
        let (cid, c) = mappings[j];
        let ghost so_far = lines.subrange(start as int, j as int);
        push_line(out, cid, c);
        proof {
            assert(lines[j as int] == bfchar_line(cid, c));
            assert(lines.subrange(start as int, j + 1) =~= so_far.push(lines[j as int]));
            so_far.lemma_flatten_push(lines[j as int]);
        }
        j += 1;
    }
    out.append(BFCHAR_END);
}

/// One block of the text: the first `k` lines, then the rest.
proof fn lemma_blocks_step(lines: Seq<Seq<char>>, start: int, end: int)
    requires
        0 <= start < end <= lines.len(),
        end - start == (if lines.len() - start < BLOCK { lines.len() - start } else { BLOCK as int }),
    ensures
        bfchar_blocks(lines.skip(start)) == decimal((end - start) as nat) + BFCHAR_START@ + lines.subrange(start, end).flatten()
            + BFCHAR_END@ + bfchar_blocks(lines.skip(end)),
{
    let rest = lines.skip(start);
    let k = end - start;
    assert(rest.take(k) =~= lines.subrange(start, end));
    assert(rest.skip(k) =~= lines.skip(end));
}

/// The `ToUnicode` CMap for these mappings of character identifiers to
/// characters, in their order.
pub fn to_unicode_cmap(mappings: &Vec<(u16, char)>) -> (cmap: String)
    ensures
        cmap@ == cmap_text(mappings@),
{
    let ghost lines = lines_of(mappings@);
    let n = mappings.len();
    let mut cmap = owned(CMAP_HEADER);
    let mut start: usize = 0;
    assert(lines.skip(0) =~= lines);
    while start < n
        invariant
            n == mappings@.len(),
            lines == lines_of(mappings@),
            start <= n,
            cmap_text(mappings@) == cmap@ + bfchar_blocks(lines.skip(start as int)) + CMAP_FOOTER@,
        decreases n - start,
    {
        let end = if n - start < BLOCK { n } else { start + BLOCK };
        let ghost before = cmap@;
        push_block(&mut cmap, mappings, start, end);
        proof {
            lemma_blocks_step(lines, start as int, end as int);
            let head = decimal((end - start) as nat) + BFCHAR_START@ + lines.subrange(start as int, end as int).flatten()
                + BFCHAR_END@;
            let tail = bfchar_blocks(lines.skip(end as int));
            assert(cmap@ == before + head);
            assert(before + (head + tail) + CMAP_FOOTER@ =~= (before + head) + tail + CMAP_FOOTER@);
        }
        start = end;
    }
    assert(lines.skip(n as int) =~= Seq::<Seq<char>>::empty());
    cmap.append(CMAP_FOOTER);
    cmap
}

} // verus!
