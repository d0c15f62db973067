//! Numeric handling of the command-line flags: each duration flag is parsed
//! as an unsigned decimal count of seconds and turned into a millisecond
//! threshold, with a fixed fallback where parsing fails.

use vstd::prelude::*;

verus! {

/// A decimal digit character.
pub open spec fn is_digit(c: char) -> bool {
    '0' as int <= c as int <= '9' as int
}

/// The value of a decimal digit character.
pub open spec fn digit_val(c: char) -> int {
    c as int - '0' as int
}

/// Whether every character of the sequence is a decimal digit.
pub open spec fn all_digits(s: Seq<char>) -> bool {
    forall|i: int| 0 <= i < s.len() ==> is_digit(#[trigger] s[i])
}

/// The value of a sequence of decimal digits, most significant first.
pub open spec fn dec_value(s: Seq<char>) -> int
    decreases s.len(),
{
    if s.len() == 0 {
        0
    } else {
        dec_value(s.drop_last()) * 10 + digit_val(s.last())
    }
}

/// What parsing an unsigned 32-bit decimal integer accepts: an optional
/// leading plus sign, then one or more decimal digits, valued at most
/// `u32::MAX`.
/// The digits of the flag text: what follows an optional leading plus sign.
pub open spec fn spec_parse_body(s: Seq<char>) -> Seq<char> {
    if s.len() > 0 && s[0] == '+' {
        s.drop_first()
    } else {
        s
    }
}

pub open spec fn spec_parse_u32(s: Seq<char>) -> Option<u32> {
    let body = spec_parse_body(s);
    if body.len() > 0 && all_digits(body) && dec_value(body) <= u32::MAX {
        Some(dec_value(body) as u32)
    } else {
        None
    }
}

/// A sequence of digits has a non-negative value.
proof fn lemma_dec_value_nonneg(s: Seq<char>)
    requires
        all_digits(s),
    ensures
        dec_value(s) >= 0,
    decreases s.len(),
{
    if s.len() > 0 {
        assert(all_digits(s.drop_last())) by {
            assert(forall|i: int|
                0 <= i < s.drop_last().len() ==> #[trigger] s.drop_last()[i] == s[i]);
        }
        lemma_dec_value_nonneg(s.drop_last());
    }
}

/// Reading further digits never lowers the value.
proof fn lemma_dec_value_extend(s: Seq<char>, j: int)
    requires
        all_digits(s),
        0 <= j <= s.len(),
    ensures
        dec_value(s) >= dec_value(s.take(j)),
    decreases s.len(),
{
    if j == s.len() {
        assert(s.take(j) =~= s);
    } else {
        assert(all_digits(s.drop_last())) by {
            assert(forall|i: int|
                0 <= i < s.drop_last().len() ==> #[trigger] s.drop_last()[i] == s[i]);
        }
        lemma_dec_value_nonneg(s.drop_last());
        lemma_dec_value_extend(s.drop_last(), j);
        assert(s.drop_last().take(j) =~= s.take(j));
    }
}

/// Parses an unsigned decimal integer: an optional leading plus sign, then
/// one or more decimal digits; rejects anything else and values above
/// `u32::MAX`.
pub fn parse_u32(s: &str) -> (r: Option<u32>)
    ensures
        r == spec_parse_u32(s@),
{
    let n = s.unicode_len();
    let start: usize = if n > 0 && s.get_char(0) == '+' {
        1
    } else {
        0
    };
    let ghost body = if start == 1 {
        s@.drop_first()
    } else {
        s@
    };
    if n == start {
        return None;
    }
    let mut acc: u64 = 0;
    let mut j: usize = start;
    while j < n
        invariant
            n == s@.len(),
            start <= j <= n,
            start <= 1,
            start < n,
            body == (if start == 1 {
                s@.drop_first()
            } else {
                s@
            }),
            body == spec_parse_body(s@),
            all_digits(body.take(j - start)),
            acc == dec_value(body.take(j - start)),
            acc <= u32::MAX,
        decreases n - j,
    {
        let c = s.get_char(j);
        let v = c as u32;
        if v < 48 || v > 57 {
            proof {
                assert(body[j - start] == s@[j as int]);
                assert(!is_digit(body[j - start]));
            }
            return None;
        }
        let t: u64 = acc * 10 + (v - 48) as u64;
        proof {
            assert(body.take(j + 1 - start).drop_last() =~= body.take(j - start));
            assert(body.take(j + 1 - start).last() == body[j - start]);
            assert(body[j - start] == s@[j as int]);
        }
        if t > 0xffff_ffff {
            proof {
                if all_digits(body) {
                    lemma_dec_value_extend(body, j + 1 - start);
                }
            }
            return None;
        }
        acc = t;
        j = j + 1;
    }
    proof {
        assert(body.take(n - start) =~= body);
    }
    Some(acc as u32)
}

// ---------------------------------------------------------------------------
// The three duration thresholds, in milliseconds.
// ---------------------------------------------------------------------------

/// The chapter transition threshold: the flag's seconds value times one
/// thousand, or 3000 where the flag does not parse.
pub open spec fn spec_chapter_threshold(s: Seq<char>) -> u64 {
    match spec_parse_u32(s) {
        Some(i) => (i * 1000) as u64,
        None => 3000,
    }
}

/// The part transition threshold: the flag's seconds value times one
/// thousand, or 1 (millisecond) where the flag does not parse. A raw seconds
/// value above the chapter threshold's millisecond count — a deliberately
/// preserved mismatched-unit comparison — is overridden to one second below
/// the chapter threshold (zero where that would fall below zero).
pub open spec fn spec_part_threshold(s: Seq<char>, chapter_ms: u64) -> u64 {
    match spec_parse_u32(s) {
        Some(i) => if i > chapter_ms {
            if chapter_ms >= 1000 {
                (chapter_ms - 1000) as u64
            } else {
                0
            }
        } else {
            (i * 1000) as u64
        },
        None => 1,
    }
}

/// The split threshold: the flag's seconds value times one thousand, or
/// 300000 where the flag does not parse.
pub open spec fn spec_split_threshold(s: Seq<char>) -> u64 {
    match spec_parse_u32(s) {
        Some(i) => (i * 1000) as u64,
        None => 300000,
    }
}

/// The chapter transition threshold of the `chapter` flag.
pub fn chapter_threshold(s: &str) -> (r: u64)
    ensures
        r == spec_chapter_threshold(s@),
{
    match parse_u32(s) {
        Some(i) => (i as u64) * 1000,
        None => 3000,
    }
}

/// The part transition threshold of the `part` flag, bounded by the chapter
/// threshold.
pub fn part_threshold(s: &str, chapter_ms: u64) -> (r: u64)
    ensures
        r == spec_part_threshold(s@, chapter_ms),
{
    match parse_u32(s) {
        Some(i) => {
            if (i as u64) > chapter_ms {
                if chapter_ms >= 1000 {
                    chapter_ms - 1000
                } else {
                    0
                }
            } else {
                (i as u64) * 1000
            }
        },
        None => 1,
    }
}

/// The split threshold of the `split` flag.
pub fn split_threshold(s: &str) -> (r: u64)
    ensures
        r == spec_split_threshold(s@),
{
    match parse_u32(s) {
        Some(i) => (i as u64) * 1000,
        None => 300000,
    }
}

} // verus!
