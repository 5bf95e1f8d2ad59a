//! Counting the records of a ZIP central directory straight from the archive
//! bytes, so that entries that share a name cannot hide behind an index that
//! keeps one of them.
use vstd::prelude::*;

verus! {

/// The most central-directory records that are counted.
pub const MAX_ENTRIES: usize = 4096;

/// A little-endian 16-bit field.
pub open spec fn le_u16(bytes: Seq<u8>, at: int) -> int {
    bytes[at] + 256 * bytes[at + 1]
}

/// Whether the four bytes at `pos` are `P`, `K`, `a`, `b`.
pub open spec fn is_signature(bytes: Seq<u8>, pos: int, a: u8, b: u8) -> bool {
    bytes[pos] == 0x50u8 && bytes[pos + 1] == 0x4bu8 && bytes[pos + 2] == a && bytes[pos + 3] == b
}

/// The number of central file headers from `pos` up to an end-of-directory
/// record (ZIP or ZIP64), having counted `count` already. Each header is 46
/// bytes followed by its name, extra field and comment, whose lengths are
/// stored 28, 30 and 32 bytes into the header.
pub open spec fn count_entries_from(bytes: Seq<u8>, pos: int, count: int) -> Option<int>
    decreases 4097 - count,
{
    if count > MAX_ENTRIES || count < 0 || pos < 0 || pos + 4 > bytes.len() {
        None
    } else if is_signature(bytes, pos, 5, 6) || is_signature(bytes, pos, 6, 6) {
        Some(count)
    } else if is_signature(bytes, pos, 1, 2) && count < MAX_ENTRIES {
        if pos + 46 > bytes.len() {
            None
        } else {
            let variable = le_u16(bytes, pos + 28) + le_u16(bytes, pos + 30) + le_u16(bytes, pos + 32);
            count_entries_from(bytes, pos + 46 + variable, count + 1)
        }
    } else {
        None
    }
}

/// The number of records in the central directory that starts at `start`.
pub open spec fn spec_central_entry_count(bytes: Seq<u8>, start: u64) -> Option<int> {
    count_entries_from(bytes, start as int, 0)
}

/// Counting from a position with `count` already counted never ends below
/// `count` nor above the limit.
proof fn lemma_count_bounds(bytes: Seq<u8>, pos: int, count: int)
    ensures
        count_entries_from(bytes, pos, count) matches Some(k) ==> count <= k <= MAX_ENTRIES,
    decreases 4097 - count,
{
    if count > MAX_ENTRIES || count < 0 || pos < 0 || pos + 4 > bytes.len() {
    } else if is_signature(bytes, pos, 5, 6) || is_signature(bytes, pos, 6, 6) {
    } else if is_signature(bytes, pos, 1, 2) && count < MAX_ENTRIES && pos + 46 <= bytes.len() {
        let variable = le_u16(bytes, pos + 28) + le_u16(bytes, pos + 30) + le_u16(bytes, pos + 32);
        lemma_count_bounds(bytes, pos + 46 + variable, count + 1);
    }
}

/// Counting with one more record already counted gives one more, or
/// nothing where that passes the limit.
proof fn lemma_count_shift(bytes: Seq<u8>, pos: int, count: int)
    requires
        0 <= count < MAX_ENTRIES,
    ensures
        count_entries_from(bytes, pos, count + 1) == match count_entries_from(bytes, pos, count) {
            Some(k) => if k < MAX_ENTRIES { Some(k + 1) } else { None },
            None => None,
        },
    decreases 4097 - count,
{
    if pos < 0 || pos + 4 > bytes.len() {
    } else if is_signature(bytes, pos, 5, 6) || is_signature(bytes, pos, 6, 6) {
    } else if is_signature(bytes, pos, 1, 2) && pos + 46 <= bytes.len() {
        let next = pos + 46 + le_u16(bytes, pos + 28) + le_u16(bytes, pos + 30) + le_u16(bytes, pos + 32);
        if count + 1 < MAX_ENTRIES {
            lemma_count_shift(bytes, next, count + 1);
        } else {
            lemma_count_bounds(bytes, next, count + 1);
        }
    }
}

/// A central directory that starts with an end record (ZIP or ZIP64) holds
/// no records.
pub proof fn lemma_end_record_counts_nothing(bytes: Seq<u8>, start: u64)
    requires
        start + 4 <= bytes.len(),
        bytes[start as int] == 0x50u8,
        bytes[start + 1] == 0x4bu8,
        bytes[start + 2] == 5u8 || bytes[start + 2] == 6u8,
        bytes[start + 3] == 6u8,
    ensures
        spec_central_entry_count(bytes, start) == Some(0int),
{
}

/// Each central file header counts as one record, and the next record
/// starts 46 bytes after it plus the lengths of its file name, extra field
/// and comment, the little-endian 16-bit numbers stored 28, 30 and 32 bytes
/// into the header; so a directory of `n` headers and an end record counts
/// `n`, whatever their extra fields hold.
pub proof fn lemma_central_header_counts_once(bytes: Seq<u8>, start: u64, next: u64)
    requires
        start + 46 <= bytes.len(),
        bytes[start as int] == 0x50u8,
        bytes[start + 1] == 0x4bu8,
        bytes[start + 2] == 1u8,
        bytes[start + 3] == 2u8,
        next == start + 46 + (bytes[start + 28] + 256 * bytes[start + 29]) + (bytes[start + 30] + 256
            * bytes[start + 31]) + (bytes[start + 32] + 256 * bytes[start + 33]),
    ensures
        spec_central_entry_count(bytes, start) == match spec_central_entry_count(bytes, next) {
            Some(n) => if n < MAX_ENTRIES { Some(n + 1) } else { None },
            None => None,
        },
{
    lemma_count_shift(bytes, next as int, 0);
}

/// Counts the central-directory records from `start` to the end record;
/// `None` where the directory is cut short, malformed, or holds more than
/// `MAX_ENTRIES` records.
pub fn central_entry_count(bytes: &[u8], start: u64) -> (count: Option<usize>)
    ensures
        match count {
            Some(n) => spec_central_entry_count(bytes@, start) == Some(n as int),
            None => spec_central_entry_count(bytes@, start) is None,
        },
        count matches Some(n) ==> n <= MAX_ENTRIES,
{
    let len = bytes.len();
    if start > len as u64 {
        return None;
    }
    let mut pos: usize = start as usize;
    let mut count: usize = 0;
    while count <= MAX_ENTRIES
        invariant
            len == bytes@.len(),
            pos <= len,
            count <= MAX_ENTRIES + 1,
            spec_central_entry_count(bytes@, start) == count_entries_from(bytes@, pos as int, count as int),
        decreases MAX_ENTRIES + 1 - count,
    {
        if len - pos < 4 {
            return None;
        }
        let b0 = bytes[pos];
        let b1 = bytes[pos + 1];
        let b2 = bytes[pos + 2];
        let b3 = bytes[pos + 3];
        if b0 == 0x50 && b1 == 0x4b && ((b2 == 5 && b3 == 6) || (b2 == 6 && b3 == 6)) {
            return Some(count);
        }
        if b0 == 0x50 && b1 == 0x4b && b2 == 1 && b3 == 2 && count < MAX_ENTRIES {
            if len - pos < 46 {
                return None;
            }
            let name = bytes[pos + 28] as usize + 256 * bytes[pos + 29] as usize;
            let extra = bytes[pos + 30] as usize + 256 * bytes[pos + 31] as usize;
            let comment = bytes[pos + 32] as usize + 256 * bytes[pos + 33] as usize;
            let variable = name + extra + comment;
            if len - pos - 46 < variable {
                assert(count_entries_from(bytes@, pos + 46 + variable, count + 1) is None);
                return None;
            }
            pos = pos + 46 + variable;
            count = count + 1;
        } else {
            return None;
        }
    }
    None
}

} // verus!
