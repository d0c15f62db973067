//! Duration codec: between an ISO-8601-style duration literal and a
//! millisecond count.
//!
//! Encoding (milliseconds to text) is implemented and verified here in full.
//! Decoding of a literal is delegated to the `iso8601` crate behind a trusted
//! wrapper; the verified part turns the decoded calendar/clock fields into a
//! millisecond count.

use vstd::prelude::*;

verus! {

// ---------------------------------------------------------------------------
// Decimal rendering of integers, as sequences of characters.
// ---------------------------------------------------------------------------

/// The decimal digit character for a value below ten.
pub open spec fn digit_char(d: int) -> char {
    seq!['0', '1', '2', '3', '4', '5', '6', '7', '8', '9'][d]
}

/// The usual decimal rendering of a non-negative integer, without sign,
/// padding or separators: `dec_digits(105)` is `1`, `0`, `5`.
pub open spec fn dec_digits(n: int) -> Seq<char>
    decreases n,
{
    if n < 10 {
        seq![digit_char(n)]
    } else {
        dec_digits(n / 10) + seq![digit_char(n % 10)]
    }
}

/// A value below one thousand, zero-padded on the left to three digits.
pub open spec fn pad3(n: int) -> Seq<char> {
    if n < 10 {
        "00"@ + dec_digits(n)
    } else if n < 100 {
        "0"@ + dec_digits(n)
    } else {
        dec_digits(n)
    }
}

/// What encoding a millisecond count as a duration literal yields: `PT`,
/// the hour and minute components each omitted entirely when zero, and a
/// seconds component that is always present, its fractional part zero-padded
/// to three digits.
pub open spec fn spec_encode(d: u64) -> Seq<char> {
    let total_seconds = d as int / 1000;
    let ms_part = d as int % 1000;
    let hours = total_seconds / 3600;
    let rem = total_seconds % 3600;
    let minutes = rem / 60;
    let seconds = rem % 60;
    "PT"@ + (if hours > 0 {
        dec_digits(hours) + "H"@
    } else {
        Seq::<char>::empty()
    }) + (if minutes > 0 {
        dec_digits(minutes) + "M"@
    } else {
        Seq::<char>::empty()
    }) + dec_digits(seconds) + "."@ + pad3(ms_part) + "S"@
}

/// The one-character string slice for a decimal digit value.
fn digit_str(d: u64) -> (r: &'static str)
    requires
        d < 10,
    ensures
        r@ == seq![digit_char(d as int)],
{
    let r: &'static str = if d == 0 {
        "0"
    } else if d == 1 {
        "1"
    } else if d == 2 {
        "2"
    } else if d == 3 {
        "3"
    } else if d == 4 {
        "4"
    } else if d == 5 {
        "5"
    } else if d == 6 {
        "6"
    } else if d == 7 {
        "7"
    } else if d == 8 {
        "8"
    } else {
        "9"
    };
    proof {
        reveal_strlit("0");
        reveal_strlit("1");
        reveal_strlit("2");
        reveal_strlit("3");
        reveal_strlit("4");
        reveal_strlit("5");
        reveal_strlit("6");
        reveal_strlit("7");
        reveal_strlit("8");
        reveal_strlit("9");
        assert(r@ =~= seq![digit_char(d as int)]);
    }
    r
}

/// Renders an integer in decimal.
pub fn u64_to_string(n: u64) -> (s: String)
    ensures
        s@ == dec_digits(n as int),
    decreases n,
{
    if n < 10 {
        let s = digit_str(n).to_owned();
        proof {
            assert(s@ =~= dec_digits(n as int));
        }
        s
    } else {
        let mut s = u64_to_string(n / 10);
        s.append(digit_str(n % 10));
        proof {
            assert(s@ =~= dec_digits(n as int));
        }
        s
    }
}

/// Renders a value below one thousand, zero-padded to three digits.
fn u64_to_pad3(n: u64) -> (s: String)
    requires
        n < 1000,
    ensures
        s@ == pad3(n as int),
{
    let mut s: String = if n < 10 {
        "00".to_owned()
    } else if n < 100 {
        "0".to_owned()
    } else {
        "".to_owned()
    };
    s.append(u64_to_string(n).as_str());
    proof {
        reveal_strlit("");
        assert(s@ =~= pad3(n as int));
    }
    s
}

/// Encodes a millisecond count as a duration literal, omitting zero hour and
/// minute components and always rendering the seconds component.
pub fn duration2string(d: u64) -> (r: String)
    ensures
        r@ == spec_encode(d),
{
    let total_seconds = d / 1000;
    let ms_part = d % 1000;
    let hours = total_seconds / 3600;
    let rem = total_seconds % 3600;
    let minutes = rem / 60;
    let seconds = rem % 60;
    let mut r = "PT".to_owned();
    if hours > 0 {
        r.append(u64_to_string(hours).as_str());
        r.append("H");
    }
    if minutes > 0 {
        r.append(u64_to_string(minutes).as_str());
        r.append("M");
    }
    r.append(u64_to_string(seconds).as_str());
    r.append(".");
    r.append(u64_to_pad3(ms_part).as_str());
    r.append("S");
    proof {
        assert(r@ =~= spec_encode(d));
    }
    r
}

// ---------------------------------------------------------------------------
// Laws of the encoder.
// ---------------------------------------------------------------------------

/// A digit character lies between `'0'` and `'9'`.
proof fn lemma_digit_char_range(n: int)
    requires
        0 <= n <= 9,
    ensures
        '0' as int <= digit_char(n) as int <= '9' as int,
{
    if n == 0 {
        assert(digit_char(0) == '0');
    } else if n == 1 {
        assert(digit_char(1) == '1');
    } else if n == 2 {
        assert(digit_char(2) == '2');
    } else if n == 3 {
        assert(digit_char(3) == '3');
    } else if n == 4 {
        assert(digit_char(4) == '4');
    } else if n == 5 {
        assert(digit_char(5) == '5');
    } else if n == 6 {
        assert(digit_char(6) == '6');
    } else if n == 7 {
        assert(digit_char(7) == '7');
    } else if n == 8 {
        assert(digit_char(8) == '8');
    } else {
        assert(digit_char(9) == '9');
    }
}

/// Every character of a decimal rendering is a digit.
proof fn lemma_dec_digits_chars(n: int)
    requires
        n >= 0,
    ensures
        forall|i: int|
            0 <= i < dec_digits(n).len() ==> '0' as int <= (#[trigger] dec_digits(n)[i]) as int
                <= '9' as int,
    decreases n,
{
    if n < 10 {
        lemma_digit_char_range(n);
        assert(dec_digits(n) == seq![digit_char(n)]);
        assert(dec_digits(n)[0] == digit_char(n));
    } else {
        lemma_dec_digits_chars(n / 10);
        lemma_digit_char_range(n % 10);
        assert(dec_digits(n) == dec_digits(n / 10) + seq![digit_char(n % 10)]);
        assert forall|i: int|
            0 <= i < dec_digits(n).len() implies '0' as int <= (#[trigger] dec_digits(n)[i]) as int
            <= '9' as int by {
            if i < dec_digits(n / 10).len() {
                assert(dec_digits(n)[i] == dec_digits(n / 10)[i]);
            } else {
                assert(dec_digits(n)[i] == digit_char(n % 10));
            }
        }
    }
}

/// Every character of the three-digit padding is a digit.
proof fn lemma_pad3_chars(n: int)
    requires
        n >= 0,
    ensures
        forall|i: int|
            0 <= i < pad3(n).len() ==> '0' as int <= (#[trigger] pad3(n)[i]) as int <= '9' as int,
{
    reveal_strlit("00");
    reveal_strlit("0");
    lemma_dec_digits_chars(n);
}

/// The encoder omits zero higher units: below one hour the rendering holds
/// no hour component, and below one minute no minute component either.
pub proof fn lemma_encode_omits_zero_units(d: u64)
    ensures
        d < 3600000 ==> !spec_encode(d).contains('H'),
        d < 60000 ==> !spec_encode(d).contains('M'),
{
    reveal_strlit("PT");
    reveal_strlit(".");
    reveal_strlit("S");
    reveal_strlit("M");
    let total_seconds = d as int / 1000;
    let ms_part = d as int % 1000;
    let hours = total_seconds / 3600;
    let rem = total_seconds % 3600;
    let minutes = rem / 60;
    let seconds = rem % 60;
    lemma_dec_digits_chars(minutes);
    lemma_dec_digits_chars(seconds);
    lemma_pad3_chars(ms_part);
    if d < 3600000 {
        assert(hours == 0);
        assert(forall|i: int| 0 <= i < spec_encode(d).len() ==> spec_encode(d)[i] != 'H');
    }
    if d < 60000 {
        assert(hours == 0 && minutes == 0);
        assert(forall|i: int| 0 <= i < spec_encode(d).len() ==> spec_encode(d)[i] != 'M');
    }
}

/// Decoded components with zero year through minute fields and a sub-minute
/// second count carry `second * 1000 + millisecond` milliseconds, and that
/// count encodes back to the plain `PT{s}.{fff}S` form — the codec
/// round-trips on values with zero hours and minutes.
pub proof fn lemma_codec_round_trip(second: u32, millisecond: u32)
    requires
        second < 60,
        millisecond < 1000,
    ensures
        ({
            let p = DurationParts::Calendar {
                year: 0,
                month: 0,
                day: 0,
                hour: 0,
                minute: 0,
                second,
                millisecond,
            };
            &&& spec_parts_ms(p) == second * 1000 + millisecond
            &&& spec_encode(spec_parts_ms(p)) == "PT"@ + dec_digits(second as int) + "."@ + pad3(
                millisecond as int,
            ) + "S"@
        }),
{
    let d = (second * 1000 + millisecond) as u64;
    assert(d as int / 1000 == second as int);
    assert(d as int % 1000 == millisecond as int);
    assert(spec_encode(d) =~= "PT"@ + dec_digits(second as int) + "."@ + pad3(millisecond as int)
        + "S"@);
}

// ---------------------------------------------------------------------------
// Decoding a duration literal.
// ---------------------------------------------------------------------------

/// The decoded components of a duration literal: either calendar/clock
/// fields, or the weeks-only form, which is recognized but carries no
/// millisecond value downstream.
#[derive(Clone, Copy, Debug, PartialEq, Eq, Structural)]
pub enum DurationParts {
    Calendar {
        year: u32,
        month: u32,
        day: u32,
        hour: u32,
        minute: u32,
        second: u32,
        millisecond: u32,
    },
    Weeks(u32),
}

/// The millisecond count of decoded duration components: hour, minute,
/// second and millisecond fields are combined, year/month/day fields are
/// discarded, and the weeks form contributes nothing.
pub open spec fn spec_parts_ms(p: DurationParts) -> u64 {
    match p {
        DurationParts::Calendar { hour, minute, second, millisecond, .. } => ((hour * 3600
            + minute * 60 + second) * 1000 + millisecond) as u64,
        DurationParts::Weeks(_) => 0,
    }
}

/// Combines decoded duration components into a millisecond count.
pub fn duration_parts_ms(p: &DurationParts) -> (r: u64)
    ensures
        r == spec_parts_ms(*p),
{
    match p {
        DurationParts::Calendar { hour, minute, second, millisecond, .. } => {
            let h = *hour as u64;
            let m = *minute as u64;
            let s = *second as u64;
            let ms = *millisecond as u64;
            (h * 3600 + m * 60 + s) * 1000 + ms
        },
        DurationParts::Weeks(_) => 0,
    }
}

/// What the third-party parser decodes a duration literal to, or nothing
/// where the literal is malformed.
pub uninterp spec fn iso_duration_of(s: Seq<char>) -> Option<DurationParts>;

/// Relies on `iso8601::duration`: decodes an ISO-8601 duration literal into
/// calendar/clock or weeks components; the result depends on the text alone,
/// and on a malformed literal the error text is `Failed to parse duration: `
/// followed by the input.
#[verifier::external_body]
fn parse_duration_literal(s: &str) -> (r: Result<DurationParts, String>)
    ensures
        (match r {
            Ok(p) => iso_duration_of(s@) == Some(p),
            Err(e) => iso_duration_of(s@) is None && e@ == "Failed to parse duration: "@ + s@,
        }),
{
    match iso8601::duration(s) {
        Ok(iso8601::Duration::YMDHMS { year, month, day, hour, minute, second, millisecond }) => {
            Ok(DurationParts::Calendar { year, month, day, hour, minute, second, millisecond })
        },
        Ok(iso8601::Duration::Weeks(w)) => Ok(DurationParts::Weeks(w)),
        Err(e) => Err(e),
    }
}

/// What decoding a duration literal yields: a millisecond count where the
/// literal decodes to calendar/clock components, and otherwise no value and
/// an informational message — `Invalid date: ...` for a malformed literal,
/// `weeks: ...` for the unsupported weeks form.
pub open spec fn spec_decode(s: Seq<char>) -> (Option<u64>, Option<Seq<char>>) {
    match iso_duration_of(s) {
        None => (
            None,
            Some("Invalid date: "@ + "Failed to parse duration: "@ + s),
        ),
        Some(p) => match p {
            DurationParts::Calendar { .. } => (Some(spec_parts_ms(p)), None),
            DurationParts::Weeks(w) => (None, Some("weeks: "@ + dec_digits(w as int))),
        },
    }
}

/// Decodes one duration literal: the millisecond count where it has
/// calendar/clock components, otherwise no value and an informational
/// message. Decoding never fails the run.
pub fn decode_duration(value: &str) -> (r: (Option<u64>, Option<String>))
    ensures
        r.0 == spec_decode(value@).0,
        (match r.1 {
            Some(m) => spec_decode(value@).1 == Some(m@),
            None => spec_decode(value@).1 is None,
        }),
{
    match parse_duration_literal(value) {
        Ok(p) => match p {
            DurationParts::Calendar { .. } => (Some(duration_parts_ms(&p)), None),
            DurationParts::Weeks(w) => {
                let mut m = "weeks: ".to_owned();
                m.append(u64_to_string(w as u64).as_str());
                (None, Some(m))
            },
        },
        Err(e) => {
            let mut m = "Invalid date: ".to_owned();
            m.append(e.as_str());
            (None, Some(m))
        },
    }
}

} // verus!
