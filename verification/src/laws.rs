//! The general laws of the library, stated and proved once over the spec
//! functions that the executable contracts are written against.
use vstd::prelude::*;
use crate::digits::all_digits;
use crate::digits::digits_val;
use crate::digits::int_literal_digits;
use crate::digits::is_digit;
use crate::digits::is_int_literal;
use crate::digits::lemma_digits_val_bounds;
use crate::digits::parse_i64_spec;
use crate::digits::pow10;
use crate::digits::signed_dec;
use crate::expand::current_block;
use crate::expand::expand_spec;
use crate::expand::local_entry;
use crate::expand::relative_entry;
use crate::expand::trunc_div;
use crate::expand::ts_entries;
use crate::expand::utc_entry;
use crate::expand::EntryView;
use crate::moment::Context;
use crate::moment::Moment;
use crate::moment::MAX_EPOCH_SECS;
use crate::moment::MIN_EPOCH_SECS;
use crate::parse::demote_count;
use crate::parse::demoted;
use crate::parse::iso8601_instant;
use crate::parse::lemma_pow10_vals;
use crate::parse::numeric_moment;
use crate::parse::parse_spec;
use crate::parse::rfc2822_instant;
use crate::parse::timestamp_spec;
use crate::parse::ParseError;
use crate::parse::SourceKind;
use vstd::arithmetic::div_mod::lemma_div_denominator;
use vstd::arithmetic::div_mod::lemma_div_is_ordered;
use vstd::arithmetic::div_mod::lemma_div_multiples_vanish;
use vstd::arithmetic::div_mod::lemma_fundamental_div_mod;
use vstd::arithmetic::div_mod::lemma_mod_division_less_than_divisor;

verus! {

/// Ten to a sum is the product of the powers.
proof fn lemma_pow10_add(a: nat, b: nat)
    ensures
        pow10((a + b) as nat) == pow10(a) * pow10(b),
    decreases a,
{
    if a == 0 {
        assert(pow10(b) == 1 * pow10(b));
    } else {
        lemma_pow10_add((a - 1) as nat, b);
        assert(pow10((a + b) as nat) == 10 * pow10((a - 1 + b) as nat));
        assert(10 * (pow10((a - 1) as nat) * pow10(b)) == (10 * pow10((a - 1) as nat)) * pow10(
            b,
        )) by (nonlinear_arith);
    }
}

/// The demoted second is the integer divided by the matching power of a
/// thousand, and always fits the plausible second range.
proof fn lemma_demoted_div(v: int)
    requires
        0 <= v,
    ensures
        demoted(v) == v / pow10((3 * demote_count(v)) as nat),
        0 <= demoted(v) <= 0xFFFF_FFFF,
    decreases v,
{
    crate::digits::lemma_pow10_pos((3 * demote_count(v)) as nat);
    if v <= 0xFFFF_FFFF {
        assert(demote_count(v) == 0);
        assert(pow10(0) == 1);
        assert(v / 1 == v);
    } else {
        lemma_demoted_div(v / 1000);
        let j = demote_count(v / 1000);
        crate::digits::lemma_pow10_pos((3 * j) as nat);
        lemma_pow10_vals();
        lemma_div_denominator(v, 1000, pow10((3 * j) as nat));
        lemma_pow10_add(3, (3 * j) as nat);
        assert(1000 * pow10((3 * j) as nat) == pow10((3 + 3 * j) as nat));
        assert(demote_count(v) == 1 + j);
        assert((3 * demote_count(v)) as nat == (3 + 3 * j) as nat);
    }
}

/// An integer needing at most three demotions is below the plausible
/// nanosecond magnitude, and in particular fits an `i64`.
proof fn lemma_demote_small(v: int)
    requires
        0 <= v,
        demote_count(v) <= 3,
    ensures
        v < 4294967296000000000,
{
    if v >= 4294967296000000000 {
        lemma_div_is_ordered(4294967296000000000, v, 1000);
        lemma_div_is_ordered(4294967296000000, v / 1000, 1000);
        lemma_div_is_ordered(4294967296000, v / 1000 / 1000, 1000);
        assert(demote_count(v) == 1 + demote_count(v / 1000));
        assert(demote_count(v / 1000) == 1 + demote_count(v / 1000 / 1000));
        assert(demote_count(v / 1000 / 1000) == 1 + demote_count(v / 1000 / 1000 / 1000));
        assert(demote_count(v / 1000 / 1000 / 1000) >= 1);
    }
}

/// Every digit string of at most twenty characters whose integer needs
/// at most three demotions parses as a numeric input, and the epoch
/// rendering at the detected magnitude reproduces its value exactly: the
/// magnitude detection and the expander's truncating divisions are
/// inverse to one another.
pub proof fn lemma_numeric_round_trip(s: Seq<char>, desc: Seq<char>, ctx: Context)
    requires
        all_digits(s),
        1 <= s.len() <= 20,
        demote_count(digits_val(s)) <= 3,
    ensures
        ({
            let v = digits_val(s);
            let k = demote_count(v) as int;
            &&& parse_spec(s, ctx) is Ok
            &&& parse_spec(s, ctx)->Ok_0.1 == SourceKind::NumericInput
            &&& parse_spec(s, ctx)->Ok_0.0.total_nanos() == v * pow10((9 - 3 * k) as nat)
            &&& trunc_div(parse_spec(s, ctx)->Ok_0.0.total_nanos(), pow10((9 - 3 * k) as nat))
                == v
            &&& ts_entries(parse_spec(s, ctx)->Ok_0.0, desc)[k].title == signed_dec(v)
            &&& (s[0] != '0' || s.len() == 1) ==> ts_entries(
                parse_spec(s, ctx)->Ok_0.0,
                desc,
            )[k].title == s
        }),
{
    let v = digits_val(s);
    let k = demote_count(v) as int;
    lemma_digits_val_bounds(s);
    lemma_demote_small(v);
    lemma_pow10_vals();
    // the string is a plain integer literal of value v
    assert(is_digit(s[0]));
    assert(int_literal_digits(s) == s);
    assert(is_int_literal(s));
    assert(parse_i64_spec(s) == Some(v as i64));
    // magnitude detection accepts it
    lemma_demoted_div(v);
    let p = pow10((3 * k) as nat);
    let q = pow10((9 - 3 * k) as nat);
    assert(p * q == 1000000000) by {
        lemma_pow10_vals();
        if k == 0 {
        } else if k == 1 {
        } else if k == 2 {
        } else {
            assert(k == 3);
        }
    }
    crate::digits::lemma_pow10_pos((3 * k) as nat);
    crate::digits::lemma_pow10_pos((9 - 3 * k) as nat);
    let secs = demoted(v);
    assert(MIN_EPOCH_SECS <= secs <= MAX_EPOCH_SECS);
    lemma_mod_division_less_than_divisor(v, p);
    assert((v % p) * q < 1000000000) by (nonlinear_arith)
        requires
            0 <= v % p < p,
            p * q == 1000000000,
            0 < q,
    ;
    assert((v % p) * q >= 0) by (nonlinear_arith)
        requires
            0 <= v % p,
            0 < q,
    ;
    assert(timestamp_spec(v) is Some);
    let m = timestamp_spec(v)->Some_0;
    assert(m.secs == secs && m.nanos == (v % p) * q);
    // the nanosecond count is exactly v scaled to the detected magnitude
    lemma_fundamental_div_mod(v, p);
    assert(m.total_nanos() == v * q) by (nonlinear_arith)
        requires
            m.total_nanos() == (v / p) * 1000000000 + (v % p) * q,
            v == p * (v / p) + v % p,
            p * q == 1000000000,
    ;
    // and dividing back down returns v
    lemma_div_multiples_vanish(v, q);
    assert(q * v == v * q) by (nonlinear_arith);
    assert(v * q >= 0) by (nonlinear_arith)
        requires
            0 <= v,
            0 < q,
    ;
    assert(trunc_div(m.total_nanos(), q) == v);
    // the chain takes the numeric branch
    assert(numeric_moment(s) == Some(m));
    assert(parse_spec(s, ctx) == Ok::<(Moment, SourceKind), ParseError>(
        (m, SourceKind::NumericInput),
    ));
    // the title at the detected magnitude is the canonical numeral of v
    let es = ts_entries(m, desc);
    if k == 0 {
        assert(es[0].title == signed_dec(trunc_div(m.total_nanos(), 1000000000)));
    } else if k == 1 {
        assert(es[1].title == signed_dec(trunc_div(m.total_nanos(), 1000000)));
    } else if k == 2 {
        assert(es[2].title == signed_dec(trunc_div(m.total_nanos(), 1000)));
    } else {
        assert(es[3].title == signed_dec(m.total_nanos()));
        assert(trunc_div(m.total_nanos(), 1) == m.total_nanos());
    }
    // a canonical numeral renders back to the very same characters
    if s[0] != '0' || s.len() == 1 {
        crate::digits::lemma_dec_digits_inverse(s);
        assert(signed_dec(v) == s);
    }
}

/// A bare date never smuggles in sub-second or sub-day precision: its
/// instant has no fraction and falls exactly on a local midnight.
pub proof fn lemma_date_is_local_midnight(s: Seq<char>, ctx: Context)
    requires
        crate::parse::date_moment(s, ctx) is Some,
    ensures
        crate::parse::date_moment(s, ctx)->Some_0.nanos == 0,
        (crate::parse::date_moment(s, ctx)->Some_0.secs + ctx.offset_secs) % 86400 == 0,
{
    let m = crate::parse::date_moment(s, ctx)->Some_0;
    let (y, mo, d) = crate::parse::date_fields(s, 0);
    let days = crate::civil::days_from_civil(y, mo, d);
    crate::parse::lemma_dfc_small_range(y, mo, d);
    assert(m.secs + ctx.offset_secs == days * 86400);
    vstd::arithmetic::div_mod::lemma_mod_multiples_basic(days, 86400);
}

/// Parsing the empty string always fails with `EmptyInput`.
pub proof fn lemma_parse_empty(ctx: Context)
    ensures
        parse_spec(Seq::<char>::empty(), ctx) == Err::<(Moment, SourceKind), ParseError>(
            ParseError::EmptyInput,
        ),
{
}

/// A string longer than 22 characters is never tried as an integer; it
/// can still be a long ISO-8601 or RFC-2822 date, but when neither of
/// those parses accepts it, the chain fails with `TooLong`.
pub proof fn lemma_parse_too_long(s: Seq<char>, ctx: Context)
    requires
        s.len() > 22,
        iso8601_instant(s) is None,
        rfc2822_instant(s) is None,
    ensures
        parse_spec(s, ctx) == Err::<(Moment, SourceKind), ParseError>(ParseError::TooLong),
{
}

/// A numeric-source expansion has exactly three entries — local civil,
/// UTC civil, relative duration, in that order — before the appended
/// current-time block of six.
#[verifier::spinoff_prover]
#[verifier::rlimit(50)]
pub proof fn lemma_numeric_expansion_shape(m: Moment, desc: Seq<char>, ctx: Context)
    ensures
        expand_spec(m, SourceKind::NumericInput, desc, ctx) == seq![
            local_entry(m, desc, ctx),
            utc_entry(m, desc),
            relative_entry(m, ctx),
        ] + current_block(ctx.now, ctx),
        expand_spec(m, SourceKind::NumericInput, desc, ctx).len() == 9,
{
    assert(seq![local_entry(m, desc, ctx), utc_entry(m, desc), relative_entry(m, ctx)].len() == 3);
    assert(current_block(ctx.now, ctx).len() == 6);
}

/// A textual-source expansion has exactly four entries — seconds,
/// milliseconds, microseconds, nanoseconds, in that order — before the
/// appended current-time block of six.
#[verifier::spinoff_prover]
#[verifier::rlimit(50)]
pub proof fn lemma_textual_expansion_shape(m: Moment, desc: Seq<char>, ctx: Context)
    ensures
        expand_spec(m, SourceKind::TextualInput, desc, ctx) == ts_entries(m, "Time since epoch"@)
            + current_block(ctx.now, ctx),
        expand_spec(m, SourceKind::TextualInput, desc, ctx).len() == 10,
{
    assert(ts_entries(m, "Time since epoch"@).len() == 4);
    assert(current_block(ctx.now, ctx).len() == 6);
}

/// Expanding the same instant, kind and description against the same
/// snapshot twice yields identical sequences: the expansion is a
/// function of its arguments, with no hidden environmental read beyond
/// the snapshot itself.
pub proof fn lemma_expand_idempotent(
    a: Seq<EntryView>,
    b: Seq<EntryView>,
    m: Moment,
    kind: SourceKind,
    desc: Seq<char>,
    ctx: Context,
)
    requires
        a.len() == expand_spec(m, kind, desc, ctx).len(),
        forall|i: int| 0 <= i < a.len() ==> a[i] == expand_spec(m, kind, desc, ctx)[i],
        b.len() == expand_spec(m, kind, desc, ctx).len(),
        forall|i: int| 0 <= i < b.len() ==> b[i] == expand_spec(m, kind, desc, ctx)[i],
    ensures
        a == b,
{
    assert(a =~= b);
}

} // verus!
