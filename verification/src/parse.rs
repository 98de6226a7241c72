//! The parser chain: a free-form string is tried against six formats in a
//! fixed priority order, and the first match yields a canonical instant.
//!
//! The order is a contract, not an accident: a bare epoch number first
//! (with magnitude detection), then ISO-8601 and RFC-2822 (both carry
//! their own offset), then the three local formats — combined date and
//! time, bare date, bare time — which are resolved against the snapshot's
//! local offset.
use vstd::prelude::*;
use vstd::string::StrSliceExecFns;
use vstd::string::StringExecFns;
use crate::civil::days_from_civil;
use crate::civil::days_from_civil_x;
use crate::civil::days_in_month;
use crate::civil::floor_div;
use crate::digits::digit_val;
use crate::digits::is_digit;
use crate::digits::parse_i64;
use crate::digits::parse_i64_spec;
use crate::digits::pow10;
use crate::moment::Context;
use crate::moment::Moment;
use crate::moment::MAX_EPOCH_SECS;
use crate::moment::MIN_EPOCH_SECS;
use vstd::arithmetic::div_mod::lemma_div_denominator;
use vstd::arithmetic::div_mod::lemma_div_is_ordered;
use vstd::arithmetic::div_mod::lemma_fundamental_div_mod;
use vstd::arithmetic::div_mod::lemma_fundamental_div_mod_converse;
use vstd::arithmetic::div_mod::lemma_mod_division_less_than_divisor;

verus! {

/// Why a string could not be parsed.
#[derive(Clone, Copy, Debug, PartialEq, Eq, Structural)]
pub enum ParseError {
    /// The input was empty; no format was tried.
    EmptyInput,
    /// The input was longer than any plausible epoch number and matched
    /// no textual format.
    TooLong,
    /// The input was an integer, but out of the representable range
    /// even after magnitude normalization.
    NotATimestamp,
    /// None of the six formats matched.
    NoFormatMatched,
}

impl ParseError {
    /// A human-readable diagnostic for the failure.
    pub fn message(&self) -> (r: String)
        ensures
            self is EmptyInput ==> r@ == "empty input"@,
            self is TooLong ==> r@ == "too long: timestamps have at most 20 digits"@,
            self is NotATimestamp ==> r@ == "not a representable timestamp"@,
            self is NoFormatMatched ==> r@ == "no supported date or time format matched"@,
    {
        match self {
            ParseError::EmptyInput => String::from_str("empty input"),
            ParseError::TooLong => String::from_str("too long: timestamps have at most 20 digits"),
            ParseError::NotATimestamp => String::from_str("not a representable timestamp"),
            ParseError::NoFormatMatched => String::from_str(
                "no supported date or time format matched",
            ),
        }
    }
}

/// Where an instant came from; this decides which representations the
/// expander emits.
#[derive(Clone, Copy, Debug, PartialEq, Eq, Structural)]
pub enum SourceKind {
    /// The text was a bare integer of ambiguous epoch magnitude.
    NumericInput,
    /// The text matched a calendar or time format.
    TextualInput,
    /// No text was supplied; the instant is the current one.
    NoInput,
}

/// How many times an integer, read as epoch seconds, must be divided by
/// a thousand before it fits the plausible second range (at most
/// `u32::MAX`, about the year 2106). Each division demotes three decimal
/// digits into the sub-second fraction.
pub open spec fn demote_count(v: int) -> nat
    decreases v,
{
    if v <= 0xFFFF_FFFF {
        0
    } else {
        1 + demote_count(v / 1000)
    }
}

/// The whole-second part an integer is left with after demotion.
pub open spec fn demoted(v: int) -> int
    decreases v,
{
    if v <= 0xFFFF_FFFF {
        v
    } else {
        demoted(v / 1000)
    }
}

/// The instant a bare integer stands for, if any: after `k` demotions the
/// low `3k` decimal digits become the fraction, scaled to nanoseconds.
/// An integer that would need more than three demotions, or whose second
/// falls outside the representable range, stands for no instant. A
/// negative integer is never demoted: it passes through as raw seconds,
/// a documented limitation kept for reproducibility.
pub open spec fn timestamp_spec(v: int) -> Option<Moment> {
    let k = demote_count(v);
    if k > 3 {
        None
    } else {
        let secs = demoted(v);
        if MIN_EPOCH_SECS <= secs <= MAX_EPOCH_SECS {
            Some(
                Moment {
                    secs: secs as i64,
                    nanos: ((v % pow10((3 * k) as nat)) * pow10((9 - 3 * k) as nat)) as u32,
                },
            )
        } else {
            None
        }
    }
}

/// What the whole numeric sub-parser yields: nothing for strings over 22
/// characters, for non-integers, and for unrepresentable integers.
pub open spec fn numeric_moment(s: Seq<char>) -> Option<Moment> {
    if s.len() > 22 {
        None
    } else {
        match parse_i64_spec(s) {
            Some(v) => timestamp_spec(v as int),
            None => None,
        }
    }
}

/// The small decimal powers, spelled out.
pub proof fn lemma_pow10_vals()
    ensures
        pow10(0) == 1,
        pow10(1) == 10,
        pow10(2) == 100,
        pow10(3) == 1000,
        pow10(4) == 10000,
        pow10(5) == 100000,
        pow10(6) == 1000000,
        pow10(7) == 10000000,
        pow10(8) == 100000000,
        pow10(9) == 1000000000,
        pow10(10) == 10000000000,
        pow10(11) == 100000000000,
        pow10(12) == 1000000000000,
{
    assert(pow10(0) == 1);
    assert(pow10(1) == 10 * pow10(0));
    assert(pow10(2) == 10 * pow10(1));
    assert(pow10(3) == 10 * pow10(2));
    assert(pow10(4) == 10 * pow10(3));
    assert(pow10(5) == 10 * pow10(4));
    assert(pow10(6) == 10 * pow10(5));
    assert(pow10(7) == 10 * pow10(6));
    assert(pow10(8) == 10 * pow10(7));
    assert(pow10(9) == 10 * pow10(8));
    assert(pow10(10) == 10 * pow10(9));
    assert(pow10(11) == 10 * pow10(10));
    assert(pow10(12) == 10 * pow10(11));
}

/// Executable magnitude detection; see [`timestamp_spec`].
fn normalize_timestamp(v: i64) -> (r: Option<Moment>)
    ensures
        r == timestamp_spec(v as int),
        r matches Some(m) ==> m.wf(),
{
    proof {
        lemma_pow10_vals();
    }
    if v < 0 {
        if v >= MIN_EPOCH_SECS {
            Some(Moment { secs: v, nanos: 0 })
        } else {
            None
        }
    } else {
        let mut secs: u64 = v as u64;
        let mut k: u32 = 0;
        while secs > 0xFFFF_FFFF
            invariant
                0 <= v,
                k <= 4,
                demote_count(v as int) == k + demote_count(secs as int),
                demoted(v as int) == demoted(secs as int),
                secs as int == v as int / pow10((3 * k) as nat),
                k == 4 ==> secs <= 0xFFFF_FFFF,
            decreases secs,
        {
            proof {
                lemma_pow10_vals();
                assert(k <= 3);
                assert(pow10((3 * k) as nat) * 1000 == pow10((3 * k + 3) as nat) && 0 < pow10(
                    (3 * k) as nat,
                )) by {
                    lemma_pow10_vals();
                    if k == 0 {
                    } else if k == 1 {
                    } else if k == 2 {
                    } else {
                        assert(k == 3);
                    }
                }
                lemma_div_denominator(v as int, pow10((3 * k) as nat), 1000);
            }
            secs = secs / 1000;
            k = k + 1;
            proof {
                lemma_pow10_vals();
                if k == 4 {
                    lemma_div_is_ordered(v as int, 0x7FFF_FFFF_FFFF_FFFF, pow10(12));
                }
            }
        }
        if k > 3 {
            return None;
        }
        let p_low: u64 = if k == 0 {
            1
        } else if k == 1 {
            1000
        } else if k == 2 {
            1000000
        } else {
            1000000000
        };
        let p_high: u64 = if k == 0 {
            1000000000
        } else if k == 1 {
            1000000
        } else if k == 2 {
            1000
        } else {
            1
        };
        let rem: u64 = (v as u64) % p_low;
        proof {
            lemma_pow10_vals();
            assert(p_low == pow10((3 * k) as nat));
            assert(p_high == pow10((9 - 3 * k) as nat));
            assert(p_low as int * p_high as int == 1000000000) by {
                lemma_pow10_vals();
                if k == 0 {
                } else if k == 1 {
                } else if k == 2 {
                } else {
                    assert(k == 3);
                }
            }
            assert(rem < p_low);
            assert((rem as int) * (p_high as int) < 1000000000) by (nonlinear_arith)
                requires
                    rem < p_low,
                    p_low as int * p_high as int == 1000000000,
                    0 < p_high,
            ;
        }
        let nanos: u64 = rem * p_high;
        Some(Moment { secs: secs as i64, nanos: nanos as u32 })
    }
}

/// What `str::parse::<chrono::DateTime<chrono::Utc>>` yields on a given
/// string, as epoch seconds paired with subsecond nanoseconds.
pub uninterp spec fn iso8601_instant(s: Seq<char>) -> Option<(i64, u32)>;

/// Relies on chrono's `FromStr` for `DateTime<Utc>`: a relaxed RFC 3339
/// (ISO-8601) parse that requires an explicit offset or `Z` and yields a
/// UTC instant. The result depends on the characters alone; a successful
/// parse lies within chrono's representable range, and its fraction is
/// below two seconds (a leap second is carried in the fraction).
#[verifier::external_body]
fn parse_iso8601(s: &str) -> (r: Option<(i64, u32)>)
    ensures
        r == iso8601_instant(s@),
        r matches Some(p) ==> MIN_EPOCH_SECS <= p.0 <= MAX_EPOCH_SECS && p.1 < 2000000000,
{
    match s.parse::<chrono::DateTime<chrono::Utc>>() {
        Ok(dt) => Some((dt.timestamp(), dt.timestamp_subsec_nanos())),
        Err(_) => None,
    }
}

/// What `chrono::DateTime::parse_from_rfc2822` yields on a given string,
/// as epoch seconds paired with subsecond nanoseconds.
pub uninterp spec fn rfc2822_instant(s: Seq<char>) -> Option<(i64, u32)>;

/// Relies on `chrono::DateTime::parse_from_rfc2822`: the mail-date format
/// `Day, DD Mon YYYY HH:MM:SS +ZZZZ`, normalized here to UTC. The result
/// depends on the characters alone; bounds as for the ISO-8601 parse.
#[verifier::external_body]
fn parse_rfc2822(s: &str) -> (r: Option<(i64, u32)>)
    ensures
        r == rfc2822_instant(s@),
        r matches Some(p) ==> MIN_EPOCH_SECS <= p.0 <= MAX_EPOCH_SECS && p.1 < 2000000000,
{
    match chrono::DateTime::parse_from_rfc2822(s) {
        Ok(dt) => Some((dt.timestamp(), dt.timestamp_subsec_nanos())),
        Err(_) => None,
    }
}

/// The value of the two digits of `s` at `i`.
pub open spec fn num2(s: Seq<char>, i: int) -> int {
    digit_val(s[i]) * 10 + digit_val(s[i + 1])
}

/// The value of the four digits of `s` at `i`.
pub open spec fn num4(s: Seq<char>, i: int) -> int {
    digit_val(s[i]) * 1000 + digit_val(s[i + 1]) * 100 + digit_val(s[i + 2]) * 10 + digit_val(
        s[i + 3],
    )
}

/// Four digits, dash, two digits, dash, two digits at position `i`.
pub open spec fn date_shape(s: Seq<char>, i: int) -> bool {
    is_digit(s[i]) && is_digit(s[i + 1]) && is_digit(s[i + 2]) && is_digit(s[i + 3]) && s[i + 4]
        == '-' && is_digit(s[i + 5]) && is_digit(s[i + 6]) && s[i + 7] == '-' && is_digit(
        s[i + 8],
    ) && is_digit(s[i + 9])
}

/// Two digits, colon, two digits, colon, two digits at position `i`.
pub open spec fn time_shape(s: Seq<char>, i: int) -> bool {
    is_digit(s[i]) && is_digit(s[i + 1]) && s[i + 2] == ':' && is_digit(s[i + 3]) && is_digit(
        s[i + 4],
    ) && s[i + 5] == ':' && is_digit(s[i + 6]) && is_digit(s[i + 7])
}

/// The date fields of a shaped date at `i`: year, month, day.
pub open spec fn date_fields(s: Seq<char>, i: int) -> (int, int, int) {
    (num4(s, i), num2(s, i + 5), num2(s, i + 8))
}

/// The time fields of a shaped time at `i`, as seconds into the day.
pub open spec fn time_field_secs(s: Seq<char>, i: int) -> int {
    num2(s, i) * 3600 + num2(s, i + 3) * 60 + num2(s, i + 6)
}

/// A shaped date's fields name a real calendar date.
pub open spec fn date_fields_valid(s: Seq<char>, i: int) -> bool {
    let (y, m, d) = date_fields(s, i);
    1 <= m <= 12 && 1 <= d <= days_in_month(y, m)
}

/// A shaped time's fields name a real time of day.
pub open spec fn time_fields_valid(s: Seq<char>, i: int) -> bool {
    num2(s, i) <= 23 && num2(s, i + 3) <= 59 && num2(s, i + 6) <= 59
}

/// The instant of a combined `YYYY-MM-DD HH:MM:SS` string, read in local
/// time and converted to its UTC equivalent.
pub open spec fn date_time_moment(s: Seq<char>, ctx: Context) -> Option<Moment> {
    if s.len() == 19 && date_shape(s, 0) && s[10] == ' ' && time_shape(s, 11) && date_fields_valid(
        s,
        0,
    ) && time_fields_valid(s, 11) {
        let (y, m, d) = date_fields(s, 0);
        let secs = days_from_civil(y, m, d) * 86400 + time_field_secs(s, 11) - ctx.offset_secs;
        Some(Moment { secs: secs as i64, nanos: 0 })
    } else {
        None
    }
}

/// The instant of a bare `YYYY-MM-DD` string: local midnight of that
/// date, converted to its UTC equivalent.
pub open spec fn date_moment(s: Seq<char>, ctx: Context) -> Option<Moment> {
    if s.len() == 10 && date_shape(s, 0) && date_fields_valid(s, 0) {
        let (y, m, d) = date_fields(s, 0);
        let secs = days_from_civil(y, m, d) * 86400 - ctx.offset_secs;
        Some(Moment { secs: secs as i64, nanos: 0 })
    } else {
        None
    }
}

/// The instant of a bare `HH:MM:SS` string: that time on today's local
/// date, converted to its UTC equivalent. Yields nothing in the
/// degenerate case of a "today" at the very edge of the representable
/// range pushing the instant out of it.
pub open spec fn time_moment(s: Seq<char>, ctx: Context) -> Option<Moment> {
    if s.len() == 8 && time_shape(s, 0) && time_fields_valid(s, 0) {
        let today = (ctx.now.secs + ctx.offset_secs) / 86400;
        let secs = today * 86400 + time_field_secs(s, 0) - ctx.offset_secs;
        if MIN_EPOCH_SECS <= secs <= MAX_EPOCH_SECS {
            Some(Moment { secs: secs as i64, nanos: 0 })
        } else {
            None
        }
    } else {
        None
    }
}

/// The whole parser chain; see [`parse`].
pub open spec fn parse_spec(s: Seq<char>, ctx: Context) -> Result<(Moment, SourceKind), ParseError> {
    if s.len() == 0 {
        Err(ParseError::EmptyInput)
    } else if numeric_moment(s) is Some {
        Ok((numeric_moment(s)->Some_0, SourceKind::NumericInput))
    } else if iso8601_instant(s) is Some {
        let p = iso8601_instant(s)->Some_0;
        Ok((Moment { secs: p.0, nanos: p.1 }, SourceKind::TextualInput))
    } else if rfc2822_instant(s) is Some {
        let p = rfc2822_instant(s)->Some_0;
        Ok((Moment { secs: p.0, nanos: p.1 }, SourceKind::TextualInput))
    } else if date_time_moment(s, ctx) is Some {
        Ok((date_time_moment(s, ctx)->Some_0, SourceKind::TextualInput))
    } else if date_moment(s, ctx) is Some {
        Ok((date_moment(s, ctx)->Some_0, SourceKind::TextualInput))
    } else if time_moment(s, ctx) is Some {
        Ok((time_moment(s, ctx)->Some_0, SourceKind::TextualInput))
    } else if s.len() > 22 {
        Err(ParseError::TooLong)
    } else if parse_i64_spec(s) is Some {
        Err(ParseError::NotATimestamp)
    } else {
        Err(ParseError::NoFormatMatched)
    }
}

/// Reads two digit characters at `i` as a number below 100.
fn read_num2(s: &str, i: usize) -> (r: Option<u64>)
    requires
        i <= 100,
        i + 2 <= s@.len(),
    ensures
        r is Some <==> is_digit(s@[i as int]) && is_digit(s@[i + 1]),
        r matches Some(v) ==> v == num2(s@, i as int) && v < 100,
{
    let c0 = s.get_char(i);
    let c1 = s.get_char(i + 1);
    let u0 = c0 as u32;
    let u1 = c1 as u32;
    if 48 <= u0 && u0 <= 57 && 48 <= u1 && u1 <= 57 {
        Some(((u0 - 48) * 10 + (u1 - 48)) as u64)
    } else {
        None
    }
}

/// Reads four digit characters at `i` as a number below 10000.
fn read_num4(s: &str, i: usize) -> (r: Option<u64>)
    requires
        i <= 98,
        i + 4 <= s@.len(),
    ensures
        r is Some <==> is_digit(s@[i as int]) && is_digit(s@[i + 1]) && is_digit(s@[i + 2])
            && is_digit(s@[i + 3]),
        r matches Some(v) ==> v == num4(s@, i as int) && v < 10000,
{
    let hi = read_num2(s, i);
    let lo = read_num2(s, i + 2);
    match (hi, lo) {
        (Some(h), Some(l)) => Some(h * 100 + l),
        _ => None,
    }
}

/// Executable form of [`days_in_month`] for non-negative years.
fn days_in_month_x(y: u64, m: u64) -> (r: u64)
    requires
        1 <= m <= 12,
    ensures
        r == days_in_month(y as int, m as int),
{
    if m == 4 || m == 6 || m == 9 || m == 11 {
        30
    } else if m == 2 {
        if (y % 4 == 0 && y % 100 != 0) || y % 400 == 0 {
            29
        } else {
            28
        }
    } else {
        31
    }
}

/// Reads the date shape at `i` and validates its fields.
fn read_date(s: &str, i: usize) -> (r: Option<(u64, u64, u64)>)
    requires
        i <= 90,
        i + 10 <= s@.len(),
    ensures
        r is Some <==> date_shape(s@, i as int) && date_fields_valid(s@, i as int),
        r matches Some(f) ==> (f.0 as int, f.1 as int, f.2 as int) == date_fields(s@, i as int)
            && f.0 < 10000 && 1 <= f.1 <= 12 && 1 <= f.2 <= 31,
{
    let y = match read_num4(s, i) {
        Some(v) => v,
        None => {
            return None;
        },
    };
    if s.get_char(i + 4) != '-' {
        return None;
    }
    let m = match read_num2(s, i + 5) {
        Some(v) => v,
        None => {
            return None;
        },
    };
    if s.get_char(i + 7) != '-' {
        return None;
    }
    let d = match read_num2(s, i + 8) {
        Some(v) => v,
        None => {
            return None;
        },
    };
    if m < 1 || m > 12 {
        return None;
    }
    if d < 1 || d > days_in_month_x(y, m) {
        return None;
    }
    Some((y, m, d))
}

/// Reads the time shape at `i` and validates its fields, yielding
/// seconds into the day.
fn read_time_secs(s: &str, i: usize) -> (r: Option<u64>)
    requires
        i <= 90,
        i + 8 <= s@.len(),
    ensures
        r is Some <==> time_shape(s@, i as int) && time_fields_valid(s@, i as int),
        r matches Some(v) ==> v == time_field_secs(s@, i as int) && v < 86400,
{
    let h = match read_num2(s, i) {
        Some(v) => v,
        None => {
            return None;
        },
    };
    if s.get_char(i + 2) != ':' {
        return None;
    }
    let mi = match read_num2(s, i + 3) {
        Some(v) => v,
        None => {
            return None;
        },
    };
    if s.get_char(i + 5) != ':' {
        return None;
    }
    let se = match read_num2(s, i + 6) {
        Some(v) => v,
        None => {
            return None;
        },
    };
    if h > 23 || mi > 59 || se > 59 {
        return None;
    }
    Some(h * 3600 + mi * 60 + se)
}

/// The day count of a four-digit-year date stays within a narrow band
/// around the epoch.
pub(crate) proof fn lemma_dfc_small_range(y: int, m: int, d: int)
    requires
        0 <= y <= 9999,
        1 <= m <= 12,
        1 <= d <= 31,
    ensures
        -1000000 <= days_from_civil(y, m, d) <= 4000000,
{
    let yy = if m <= 2 {
        y - 1
    } else {
        y
    };
    let era = yy / 400;
    lemma_div_is_ordered(-1, yy, 400);
    lemma_div_is_ordered(yy, 9999, 400);
    assert((-1int) / 400 == -1) by {
        lemma_fundamental_div_mod_converse(-1, 400, -1, 399);
    }
    assert(9999int / 400 == 24) by {
        lemma_fundamental_div_mod_converse(9999, 400, 24, 399);
    }
    lemma_fundamental_div_mod(yy, 400);
    lemma_mod_division_less_than_divisor(yy, 400);
    let yoe = yy - era * 400;
    assert(0 <= yoe < 400);
    let mp = if m <= 2 {
        m + 9
    } else {
        m - 3
    };
    assert(0 <= mp <= 11);
    lemma_div_is_ordered(2, 153 * mp + 2, 5);
    lemma_div_is_ordered(153 * mp + 2, 1685, 5);
    assert((2int) / 5 == 0) by {
        lemma_fundamental_div_mod_converse(2, 5, 0, 2);
    }
    assert((1685int) / 5 == 337) by {
        lemma_fundamental_div_mod_converse(1685, 5, 337, 0);
    }
    lemma_div_is_ordered(0, yoe, 4);
    lemma_div_is_ordered(yoe, 399, 4);
    assert((399int) / 4 == 99) by {
        lemma_fundamental_div_mod_converse(399, 4, 99, 3);
    }
    lemma_div_is_ordered(0, yoe, 100);
    lemma_div_is_ordered(yoe, 399, 100);
    assert((399int) / 100 == 3) by {
        lemma_fundamental_div_mod_converse(399, 100, 3, 99);
    }
    assert((0int) / 4 == 0 && (0int) / 100 == 0 && (0int) / 400 == 0);
}

/// Tries the combined date-and-time format.
fn parse_date_time(s: &str, ctx: &Context) -> (r: Option<Moment>)
    requires
        ctx.wf(),
    ensures
        r == date_time_moment(s@, *ctx),
        r matches Some(m) ==> m.wf(),
{
    let n = s.unicode_len();
    if n != 19 {
        return None;
    }
    let date = match read_date(s, 0) {
        Some(f) => f,
        None => {
            return None;
        },
    };
    if s.get_char(10) != ' ' {
        return None;
    }
    let tod = match read_time_secs(s, 11) {
        Some(v) => v,
        None => {
            return None;
        },
    };
    let (y, m, d) = date;
    let days = days_from_civil_x(y as i64, m as i64, d as i64);
    proof {
        lemma_dfc_small_range(y as int, m as int, d as int);
    }
    let secs: i64 = days * 86400 + (tod as i64) - (ctx.offset_secs as i64);
    Some(Moment { secs, nanos: 0 })
}

/// Tries the bare date format.
fn parse_date(s: &str, ctx: &Context) -> (r: Option<Moment>)
    requires
        ctx.wf(),
    ensures
        r == date_moment(s@, *ctx),
        r matches Some(m) ==> m.wf(),
{
    let n = s.unicode_len();
    if n != 10 {
        return None;
    }
    let date = match read_date(s, 0) {
        Some(f) => f,
        None => {
            return None;
        },
    };
    let (y, m, d) = date;
    let days = days_from_civil_x(y as i64, m as i64, d as i64);
    proof {
        lemma_dfc_small_range(y as int, m as int, d as int);
    }
    let secs: i64 = days * 86400 - (ctx.offset_secs as i64);
    Some(Moment { secs, nanos: 0 })
}

/// Tries the bare time format.
fn parse_time(s: &str, ctx: &Context) -> (r: Option<Moment>)
    requires
        ctx.wf(),
    ensures
        r == time_moment(s@, *ctx),
        r matches Some(m) ==> m.wf(),
{
    let n = s.unicode_len();
    if n != 8 {
        return None;
    }
    let tod = match read_time_secs(s, 0) {
        Some(v) => v,
        None => {
            return None;
        },
    };
    let local_now: i64 = ctx.now.secs + (ctx.offset_secs as i64);
    let today: i64 = floor_div(local_now, 86400);
    proof {
        lemma_fundamental_div_mod(local_now as int, 86400);
        lemma_mod_division_less_than_divisor(local_now as int, 86400);
        assert(today as int * 86400 == 86400 * (local_now as int / 86400)) by (nonlinear_arith)
            requires
                today as int == local_now as int / 86400,
        ;
    }
    let secs: i64 = today * 86400 + (tod as i64) - (ctx.offset_secs as i64);
    if MIN_EPOCH_SECS <= secs && secs <= MAX_EPOCH_SECS {
        Some(Moment { secs, nanos: 0 })
    } else {
        None
    }
}

/// Tries the six formats in priority order and returns the first match,
/// or the most diagnostic failure: `EmptyInput` for an empty string,
/// `TooLong` for a string over 22 characters that matched nothing,
/// `NotATimestamp` for an integer whose instant is unrepresentable, and
/// `NoFormatMatched` otherwise.
pub fn parse(s: &str, ctx: &Context) -> (r: Result<(Moment, SourceKind), ParseError>)
    requires
        ctx.wf(),
    ensures
        r == parse_spec(s@, *ctx),
        r matches Ok(p) ==> p.0.wf(),
        s@.len() == 0 <==> r == Err::<(Moment, SourceKind), ParseError>(ParseError::EmptyInput),
{
    let n = s.unicode_len();
    if n == 0 {
        return Err(ParseError::EmptyInput);
    }
    let mut was_integer = false;
    if n <= 22 {
        match parse_i64(s) {
            Some(v) => {
                was_integer = true;
                match normalize_timestamp(v) {
                    Some(m) => {
                        return Ok((m, SourceKind::NumericInput));
                    },
                    None => {},
                }
            },
            None => {},
        }
    }
    match parse_iso8601(s) {
        Some(p) => {
            return Ok((Moment { secs: p.0, nanos: p.1 }, SourceKind::TextualInput));
        },
        None => {},
    }
    match parse_rfc2822(s) {
        Some(p) => {
            return Ok((Moment { secs: p.0, nanos: p.1 }, SourceKind::TextualInput));
        },
        None => {},
    }
    match parse_date_time(s, ctx) {
        Some(m) => {
            return Ok((m, SourceKind::TextualInput));
        },
        None => {},
    }
    match parse_date(s, ctx) {
        Some(m) => {
            return Ok((m, SourceKind::TextualInput));
        },
        None => {},
    }
    match parse_time(s, ctx) {
        Some(m) => {
            return Ok((m, SourceKind::TextualInput));
        },
        None => {},
    }
    if n > 22 {
        Err(ParseError::TooLong)
    } else if was_integer {
        Err(ParseError::NotATimestamp)
    } else {
        Err(ParseError::NoFormatMatched)
    }
}

} // verus!
