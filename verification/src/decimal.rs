//! Decimal integers in text, read as `str::parse::<usize>` and
//! `str::parse::<i64>` read them: an optional sign (`-` only for signed
//! numbers), then at least one ASCII digit and nothing else, within range.
use vstd::prelude::*;

verus! {

/// Whether the character is an ASCII digit.
pub open spec fn is_digit(c: char) -> bool {
    '0' <= c && c <= '9'
}

/// Whether the text is made of ASCII digits only.
pub open spec fn all_digits(text: Seq<char>) -> bool {
    forall|i: int| 0 <= i < text.len() ==> is_digit(#[trigger] text[i])
}

/// The number that a string of ASCII digits writes.
pub open spec fn decimal_value(digits: Seq<char>) -> nat
    decreases digits.len(),
{
    if digits.len() == 0 {
        0
    } else {
        decimal_value(digits.drop_last()) * 10 + ((digits.last() as nat) - ('0' as nat)) as nat
    }
}

/// The digits after an optional leading `+`.
pub open spec fn unsigned_digits(text: Seq<char>) -> Seq<char> {
    if text.len() > 0 && text[0] == '+' {
        text.drop_first()
    } else {
        text
    }
}

/// What `str::parse::<usize>` gives for this text: the number that an
/// optional `+` and at least one ASCII digit write, where it fits.
pub open spec fn usize_from_str(text: Seq<char>) -> Option<usize> {
    let digits = unsigned_digits(text);
    if digits.len() == 0 || !all_digits(digits) || decimal_value(digits) > usize::MAX {
        None
    } else {
        Some(decimal_value(digits) as usize)
    }
}

/// What `str::parse::<i64>` gives for this text: the number that an
/// optional `+` or `-` and at least one ASCII digit write, where it fits.
pub open spec fn i64_from_str(text: Seq<char>) -> Option<i64> {
    if text.len() > 0 && text[0] == '-' {
        let digits = text.drop_first();
        if digits.len() == 0 || !all_digits(digits) || decimal_value(digits) > 0x8000_0000_0000_0000 {
            None
        } else {
            Some((0 - decimal_value(digits)) as i64)
        }
    } else {
        let digits = unsigned_digits(text);
        if digits.len() == 0 || !all_digits(digits) || decimal_value(digits) > i64::MAX {
            None
        } else {
            Some(decimal_value(digits) as i64)
        }
    }
}

/// A longer string of digits writes at least as large a number.
proof fn lemma_prefix_value(digits: Seq<char>, i: int)
    requires
        0 <= i <= digits.len(),
        all_digits(digits),
    ensures
        decimal_value(digits.take(i)) <= decimal_value(digits),
    decreases digits.len() - i,
{
    if i < digits.len() {
        lemma_prefix_value(digits, i + 1);
        let next = digits.take(i + 1);
        assert(next.drop_last() =~= digits.take(i));
        assert(is_digit(digits[i]));
    } else {
        assert(digits.take(i) =~= digits);
    }
}

/// The number that the digits `chars[start..]` write, or `None` where a
/// character is not a digit, where there is none, or where the number is
/// above `max`.
fn read_digits(chars: &Vec<char>, start: usize, max: u64) -> (value: Option<u64>)
    requires
        start <= chars@.len(),
    ensures
        ({
            let digits = chars@.skip(start as int);
            match value {
                Some(v) => digits.len() > 0 && all_digits(digits) && decimal_value(digits) <= max
                    && v == decimal_value(digits),
                None => digits.len() == 0 || !all_digits(digits) || decimal_value(digits) > max,
            }
        }),
{
    let ghost digits = chars@.skip(start as int);
    if start == chars.len() {
        return None;
    }
    let mut acc: u64 = 0;
    let mut i = start;
    while i < chars.len()
        invariant
            start <= i <= chars@.len(),
            digits == chars@.skip(start as int),
            all_digits(digits.take(i - start)),
            acc == decimal_value(digits.take(i - start)),
            acc <= max,
        decreases chars@.len() - i,
    {
        let c = chars[i];
        let ghost k = i - start;
        assert(digits[k] == c);
        assert(digits.take(k + 1).drop_last() =~= digits.take(k));
        assert(digits.take(k + 1).last() == c);
        if !('0' <= c && c <= '9') {
            assert(!is_digit(digits[k]));
            return None;
        }
        let d = (c as u32 - '0' as u32) as u64;
        let next = match acc.checked_mul(10) {
            Some(t) => t.checked_add(d),
            None => None,
        };
        match next {
            Some(n) if n <= max => {
                assert forall|j: int| 0 <= j < k + 1 implies is_digit(#[trigger] digits.take(k + 1)[j]) by {
                    if j < k {
                        assert(digits.take(k + 1)[j] == digits.take(k)[j]);
                    }
                }
                acc = n;
            },
            _ => {
                proof {
                    if all_digits(digits) {
                        lemma_prefix_value(digits, k + 1);
                    }
                }
                return None;
            },
        }
        i += 1;
    }
    assert(digits.take(i - start) =~= digits);
    Some(acc)
}

/// The characters of the text.
fn chars_of(text: &str) -> (chars: Vec<char>)
    ensures
        chars@ == text@,
{
    let mut chars: Vec<char> = Vec::new();
    crate::text::append_chars(&mut chars, text);
    assert(chars@ =~= text@);
    chars
}

/// Reads a decimal `usize` as `str::parse::<usize>` does.
pub fn parse_usize(text: &str) -> (value: Option<usize>)
    ensures
        value == usize_from_str(text@),
{
    let chars = chars_of(text);
    let start: usize = if chars.len() > 0 && chars[0] == '+' { 1 } else { 0 };
    assert(chars@.skip(start as int) =~= unsigned_digits(text@));
    match read_digits(&chars, start, usize::MAX as u64) {
        Some(v) => Some(v as usize),
        None => None,
    }
}

/// Reads a decimal `i64` as `str::parse::<i64>` does.
pub fn parse_i64(text: &str) -> (value: Option<i64>)
    ensures
        value == i64_from_str(text@),
{
    let chars = chars_of(text);
    if chars.len() > 0 && chars[0] == '-' {
        assert(chars@.skip(1) =~= text@.drop_first());
        match read_digits(&chars, 1, 0x8000_0000_0000_0000) {
            Some(v) => {
                if v == 0x8000_0000_0000_0000 {
                    Some(i64::MIN)
                } else {
                    Some(0 - (v as i64))
                }
            },
            None => None,
        }
    } else {
        let start: usize = if chars.len() > 0 && chars[0] == '+' { 1 } else { 0 };
        assert(chars@.skip(start as int) =~= unsigned_digits(text@));
        match read_digits(&chars, start, i64::MAX as u64) {
            Some(v) => Some(v as i64),
            None => None,
        }
    }
}

} // verus!
