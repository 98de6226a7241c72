//! The representation expander: one canonical instant, re-expressed as an
//! ordered list of renderable entries. Which entries appear, and in what
//! order, depends on where the instant came from; the order is a
//! user-facing contract.
use vstd::prelude::*;
use vstd::string::StrSliceExecFns;
use vstd::string::StringExecFns;
use crate::civil::civil_of_days;
use crate::civil::civil_of_days_x;
use crate::civil::floor_div;
use crate::civil::floor_mod;
use crate::digits::pad2;
use crate::digits::push_pad2;
use crate::digits::push_year;
use crate::digits::signed_dec;
use crate::digits::signed_dec_string;
use crate::digits::year_chars;
use crate::moment::Context;
use crate::moment::Moment;
use crate::moment::MAX_EPOCH_SECS;
use crate::moment::MIN_EPOCH_SECS;
use crate::parse::SourceKind;
use vstd::arithmetic::div_mod::lemma_div_is_ordered;
use vstd::arithmetic::div_mod::lemma_fundamental_div_mod_converse;

verus! {

/// One renderable result: a display title, a description beneath it, and
/// a machine-usable value. The value always equals the title.
pub struct OutputEntry {
    /// The display title.
    pub title: String,
    /// The descriptive subtitle.
    pub subtitle: String,
    /// The machine-usable value.
    pub value: String,
}

/// The mathematical shadow of an [`OutputEntry`]: its three texts.
pub ghost struct EntryView {
    /// The display title.
    pub title: Seq<char>,
    /// The descriptive subtitle.
    pub subtitle: Seq<char>,
    /// The machine-usable value.
    pub value: Seq<char>,
}

impl View for OutputEntry {
    type V = EntryView;

    open spec fn view(&self) -> EntryView {
        EntryView { title: self.title@, subtitle: self.subtitle@, value: self.value@ }
    }
}

/// An entry whose value repeats its title, as every entry of this crate
/// does.
pub open spec fn entry_view(title: Seq<char>, subtitle: Seq<char>) -> EntryView {
    EntryView { title, subtitle, value: title }
}

/// Truncating division, rounding toward zero, for a positive divisor.
pub open spec fn trunc_div(a: int, b: int) -> int {
    if a < 0 {
        -((-a) / b)
    } else {
        a / b
    }
}

/// A local offset as civil formatting shows it: a sign, two hour digits,
/// a colon, two minute digits.
pub open spec fn offset_chars(off: int) -> Seq<char> {
    let a = if off < 0 {
        -off
    } else {
        off
    };
    (if off < 0 {
        seq!['-']
    } else {
        seq!['+']
    }) + pad2(a / 3600) + seq![':'] + pad2((a % 3600) / 60)
}

/// The `YYYY-MM-DD HH:MM:SS` rendering of an instant's whole second,
/// shifted by an offset. A shifted second that leaves the representable
/// range is clamped to its edge.
pub open spec fn civil_chars(secs: int, off: int) -> Seq<char> {
    let l0 = secs + off;
    let l = if l0 < MIN_EPOCH_SECS {
        MIN_EPOCH_SECS as int
    } else if l0 > MAX_EPOCH_SECS {
        MAX_EPOCH_SECS as int
    } else {
        l0
    };
    let z = l / 86400;
    let sod = l % 86400;
    let (y, m, d) = civil_of_days(z);
    year_chars(y) + seq!['-'] + pad2(m) + seq!['-'] + pad2(d) + seq![' '] + pad2(sod / 3600)
        + seq![':'] + pad2((sod % 3600) / 60) + seq![':'] + pad2(sod % 60)
}

/// The magnitude of the nanosecond distance between two instants.
pub open spec fn rel_mag(m: Moment, now: Moment) -> int {
    let d = m.total_nanos() - now.total_nanos();
    if d < 0 {
        -d
    } else {
        d
    }
}

/// What `humantime::format_duration` yields for a duration of whole
/// seconds plus a nanosecond fraction.
pub uninterp spec fn human_duration(secs: int, nanos: int) -> Seq<char>;

/// Relies on `humantime::format_duration`: the coarse human-readable
/// rendering of a duration, largest units first. The result depends on
/// the duration alone.
#[verifier::external_body]
fn human_duration_str(secs: u64, nanos: u32) -> (r: String)
    requires
        nanos < 1000000000,
    ensures
        r@ == human_duration(secs as int, nanos as int),
{
    humantime::format_duration(std::time::Duration::new(secs, nanos)).to_string()
}

/// The local-civil-time entry of an instant.
pub open spec fn local_entry(m: Moment, desc: Seq<char>, ctx: Context) -> EntryView {
    entry_view(
        civil_chars(m.secs as int, ctx.offset_secs as int),
        "From "@ + desc + ": Local time ("@ + offset_chars(ctx.offset_secs as int) + ")"@,
    )
}

/// The UTC-civil-time entry of an instant.
pub open spec fn utc_entry(m: Moment, desc: Seq<char>) -> EntryView {
    entry_view(civil_chars(m.secs as int, 0), "From "@ + desc + ": UTC"@)
}

/// The relative-duration entry of an instant: the distance to the
/// snapshot's current instant, magnitude only, with no sign shown.
pub open spec fn relative_entry(m: Moment, ctx: Context) -> EntryView {
    entry_view(
        human_duration(rel_mag(m, ctx.now) / 1000000000, rel_mag(m, ctx.now) % 1000000000),
        "Relative time"@,
    )
}

/// The four epoch renderings of an instant, in the fixed order seconds,
/// milliseconds, microseconds, nanoseconds, each a truncating division
/// of the nanosecond count.
pub open spec fn ts_entries(m: Moment, desc: Seq<char>) -> Seq<EntryView> {
    seq![
        entry_view(signed_dec(trunc_div(m.total_nanos(), 1000000000)), desc + " in seconds (s)"@),
        entry_view(
            signed_dec(trunc_div(m.total_nanos(), 1000000)),
            desc + " in milliseconds (ms)"@,
        ),
        entry_view(signed_dec(trunc_div(m.total_nanos(), 1000)), desc + " in microseconds (µs)"@),
        entry_view(signed_dec(m.total_nanos()), desc + " in nanoseconds (ns)"@),
    ]
}

/// The current-time block: the four epoch renderings of an instant, then
/// its local and UTC civil renderings.
pub open spec fn current_block(m: Moment, ctx: Context) -> Seq<EntryView> {
    ts_entries(m, "Current time"@) + seq![
        local_entry(m, "Current time"@, ctx),
        utc_entry(m, "Current time"@),
    ]
}

/// What [`expand`] yields; see there.
pub open spec fn expand_spec(m: Moment, kind: SourceKind, desc: Seq<char>, ctx: Context) -> Seq<
    EntryView,
> {
    match kind {
        SourceKind::NumericInput => seq![
            local_entry(m, desc, ctx),
            utc_entry(m, desc),
            relative_entry(m, ctx),
        ] + current_block(ctx.now, ctx),
        SourceKind::TextualInput => ts_entries(m, "Time since epoch"@) + current_block(
            ctx.now,
            ctx,
        ),
        SourceKind::NoInput => current_block(m, ctx),
    }
}

/// Builds one entry; the value repeats the title.
fn make_entry(title: String, subtitle: String) -> (e: OutputEntry)
    ensures
        e@ == entry_view(title@, subtitle@),
{
    let value = title.clone();
    OutputEntry { title, subtitle, value }
}

/// Renders a local offset; see [`offset_chars`].
fn offset_string(off: i32) -> (r: String)
    requires
        -86400 < off < 86400,
    ensures
        r@ == offset_chars(off as int),
{
    proof {
        reveal_strlit("+");
        reveal_strlit("-");
        reveal_strlit(":");
    }
    let mut t = String::new();
    if off < 0 {
        t.append("-");
    } else {
        t.append("+");
    }
    let a: u64 = if off < 0 {
        (-(off as i64)) as u64
    } else {
        off as u64
    };
    push_pad2(&mut t, a / 3600);
    t.append(":");
    push_pad2(&mut t, (a % 3600) / 60);
    proof {
        assert(t@ =~= offset_chars(off as int));
    }
    t
}

/// Renders an instant's whole second as civil time; see [`civil_chars`].
fn civil_string(secs: i64, off: i64) -> (r: String)
    requires
        MIN_EPOCH_SECS <= secs <= MAX_EPOCH_SECS,
        -86400 <= off <= 86400,
    ensures
        r@ == civil_chars(secs as int, off as int),
{
    proof {
        reveal_strlit("-");
        reveal_strlit(" ");
        reveal_strlit(":");
    }
    let l0: i64 = secs + off;
    let l: i64 = if l0 < MIN_EPOCH_SECS {
        MIN_EPOCH_SECS
    } else if l0 > MAX_EPOCH_SECS {
        MAX_EPOCH_SECS
    } else {
        l0
    };
    let z = floor_div(l, 86400);
    let sod = floor_mod(l, 86400);
    proof {
        crate::moment::lemma_epoch_secs_bounds();
        lemma_div_is_ordered(MIN_EPOCH_SECS as int, l as int, 86400);
        lemma_div_is_ordered(l as int, MAX_EPOCH_SECS as int, 86400);
        assert(MIN_EPOCH_SECS as int / 86400 == crate::civil::EPOCH_DAY_MIN) by {
            lemma_fundamental_div_mod_converse(
                MIN_EPOCH_SECS as int,
                86400,
                crate::civil::EPOCH_DAY_MIN as int,
                0,
            );
        }
        assert(MAX_EPOCH_SECS as int / 86400 == crate::civil::EPOCH_DAY_MAX) by {
            lemma_fundamental_div_mod_converse(
                MAX_EPOCH_SECS as int,
                86400,
                crate::civil::EPOCH_DAY_MAX as int,
                86399,
            );
        }
    }
    let ymd = civil_of_days_x(z);
    let sodu: u64 = sod as u64;
    proof {
        lemma_div_is_ordered(sodu as int, 86399, 3600);
        assert(86399int / 3600 == 23) by {
            lemma_fundamental_div_mod_converse(86399, 3600, 23, 3599);
        }
    }
    let mut t = String::new();
    push_year(&mut t, ymd.0);
    t.append("-");
    push_pad2(&mut t, ymd.1 as u64);
    t.append("-");
    push_pad2(&mut t, ymd.2 as u64);
    t.append(" ");
    push_pad2(&mut t, sodu / 3600);
    t.append(":");
    push_pad2(&mut t, (sodu % 3600) / 60);
    t.append(":");
    push_pad2(&mut t, sodu % 60);
    proof {
        assert(t@ =~= civil_chars(secs as int, off as int));
    }
    t
}

/// The distance from `m` to the snapshot's current instant, as whole
/// seconds plus a nanosecond fraction of its magnitude.
fn duration_parts(m: &Moment, now: &Moment) -> (r: (u64, u32))
    requires
        m.wf(),
        now.wf(),
    ensures
        r.0 == rel_mag(*m, *now) / 1000000000,
        r.1 == rel_mag(*m, *now) % 1000000000,
{
    let (negm, magm) = m.total_nanos_parts();
    let (negn, magn) = now.total_nanos_parts();
    let mg: u128 = if negm == negn {
        if magm >= magn {
            magm - magn
        } else {
            magn - magm
        }
    } else {
        magm + magn
    };
    proof {
        assert(mg == rel_mag(*m, *now));
        lemma_div_is_ordered(mg as int, 20000000000000000000000, 1000000000);
    }
    ((mg / 1000000000) as u64, (mg % 1000000000) as u32)
}

/// Builds the local-civil-time entry.
fn local_entry_x(m: &Moment, desc: &str, ctx: &Context) -> (e: OutputEntry)
    requires
        m.wf(),
        ctx.wf(),
    ensures
        e@ == local_entry(*m, desc@, *ctx),
{
    let title = civil_string(m.secs, ctx.offset_secs as i64);
    let mut sub = String::from_str("From ");
    sub.append(desc);
    sub.append(": Local time (");
    let off = offset_string(ctx.offset_secs);
    sub.append(off.as_str());
    sub.append(")");
    make_entry(title, sub)
}

/// Builds the UTC-civil-time entry.
fn utc_entry_x(m: &Moment, desc: &str) -> (e: OutputEntry)
    requires
        m.wf(),
    ensures
        e@ == utc_entry(*m, desc@),
{
    let title = civil_string(m.secs, 0);
    let mut sub = String::from_str("From ");
    sub.append(desc);
    sub.append(": UTC");
    make_entry(title, sub)
}

/// Builds the relative-duration entry.
fn relative_entry_x(m: &Moment, ctx: &Context) -> (e: OutputEntry)
    requires
        m.wf(),
        ctx.wf(),
    ensures
        e@ == relative_entry(*m, *ctx),
{
    let (ds, dn) = duration_parts(m, &ctx.now);
    let title = human_duration_str(ds, dn);
    let sub = String::from_str("Relative time");
    make_entry(title, sub)
}

/// Appends the four epoch renderings of `m`; see [`ts_entries`].
fn push_ts_entries(out: &mut Vec<OutputEntry>, m: &Moment, desc: &str)
    requires
        m.wf(),
    ensures
        final(out)@.len() == old(out)@.len() + 4,
        forall|i: int| 0 <= i < old(out)@.len() ==> final(out)@[i] == old(out)@[i],
        forall|j: int|
            0 <= j < 4 ==> final(out)@[old(out)@.len() + j]@ == ts_entries(*m, desc@)[j],
{
    let (neg, mag) = m.total_nanos_parts();
    let t_s = signed_dec_string(neg, mag / 1000000000);
    let t_ms = signed_dec_string(neg, mag / 1000000);
    let t_us = signed_dec_string(neg, mag / 1000);
    let t_ns = signed_dec_string(neg, mag);
    proof {
        let tn = m.total_nanos();
        if tn < 0 {
            assert(mag == -tn);
        } else {
            assert(mag == tn);
        }
        assert(mag as int / 1 == mag as int);
        assert(t_ns@ == signed_dec(tn));
        assert(t_s@ == signed_dec(trunc_div(tn, 1000000000)));
        assert(t_ms@ == signed_dec(trunc_div(tn, 1000000)));
        assert(t_us@ == signed_dec(trunc_div(tn, 1000)));
    }
    let mut sub_s = String::from_str(desc);
    sub_s.append(" in seconds (s)");
    out.push(make_entry(t_s, sub_s));
    let mut sub_ms = String::from_str(desc);
    sub_ms.append(" in milliseconds (ms)");
    out.push(make_entry(t_ms, sub_ms));
    let mut sub_us = String::from_str(desc);
    sub_us.append(" in microseconds (µs)");
    out.push(make_entry(t_us, sub_us));
    let mut sub_ns = String::from_str(desc);
    sub_ns.append(" in nanoseconds (ns)");
    out.push(make_entry(t_ns, sub_ns));
}

/// Appends the current-time block of `m`; see [`current_block`].
fn push_block(out: &mut Vec<OutputEntry>, m: &Moment, ctx: &Context)
    requires
        m.wf(),
        ctx.wf(),
    ensures
        final(out)@.len() == old(out)@.len() + 6,
        forall|i: int| 0 <= i < old(out)@.len() ==> final(out)@[i] == old(out)@[i],
        forall|j: int|
            0 <= j < 6 ==> final(out)@[old(out)@.len() + j]@ == current_block(*m, *ctx)[j],
{
    push_ts_entries(out, m, "Current time");
    out.push(local_entry_x(m, "Current time", ctx));
    out.push(utc_entry_x(m, "Current time"));
    proof {
        let cb = current_block(*m, *ctx);
        let base = old(out)@.len() as int;
        assert(cb.len() == 6);
        assert forall|j: int| 0 <= j < 6 implies out@[base + j]@ == cb[j] by {
            if j < 4 {
                assert(cb[j] == ts_entries(*m, "Current time"@)[j]);
            } else {
                assert(cb[4] == local_entry(*m, "Current time"@, *ctx));
                assert(cb[5] == utc_entry(*m, "Current time"@));
            }
        }
    }
}

/// Re-expresses one instant as its ordered entries. A `NumericInput`
/// instant yields its local, UTC and relative renderings, then the
/// current-time block; a `TextualInput` instant yields its four epoch
/// renderings, then the current-time block; with `NoInput` the instant
/// is the current one and yields the block alone.
#[verifier::spinoff_prover]
#[verifier::rlimit(100)]
pub fn expand(m: &Moment, kind: SourceKind, desc: &str, ctx: &Context) -> (r: Vec<OutputEntry>)
    requires
        m.wf(),
        ctx.wf(),
    ensures
        r@.len() == expand_spec(*m, kind, desc@, *ctx).len(),
        forall|i: int|
            0 <= i < r@.len() ==> r@[i]@ == expand_spec(*m, kind, desc@, *ctx)[i],
        kind is NumericInput ==> r@.len() == 9,
        kind is TextualInput ==> r@.len() == 10,
        kind is NoInput ==> r@.len() == 6,
{
    let mut out: Vec<OutputEntry> = Vec::new();
    match kind {
        SourceKind::NumericInput => {
            out.push(local_entry_x(m, desc, ctx));
            out.push(utc_entry_x(m, desc));
            out.push(relative_entry_x(m, ctx));
            push_block(&mut out, &ctx.now, ctx);
        },
        SourceKind::TextualInput => {
            push_ts_entries(&mut out, m, "Time since epoch");
            push_block(&mut out, &ctx.now, ctx);
        },
        SourceKind::NoInput => {
            push_block(&mut out, m, ctx);
        },
    }
    proof {
        let es = expand_spec(*m, kind, desc@, *ctx);
        if kind is NumericInput {
            let lead = seq![
                local_entry(*m, desc@, *ctx),
                utc_entry(*m, desc@),
                relative_entry(*m, *ctx),
            ];
            let cb = current_block(ctx.now, *ctx);
            assert(es == lead + cb);
            assert(out@.len() == es.len());
            assert forall|i: int| 0 <= i < out@.len() implies out@[i]@ == es[i] by {
                if i < 3 {
                    assert(es[i] == lead[i]);
                } else {
                    assert(es[i] == cb[i - 3]);
                }
            }
        } else if kind is TextualInput {
            let lead = ts_entries(*m, "Time since epoch"@);
            let cb = current_block(ctx.now, *ctx);
            assert(es == lead + cb);
            assert(out@.len() == es.len());
            assert forall|i: int| 0 <= i < out@.len() implies out@[i]@ == es[i] by {
                if i < 4 {
                    assert(es[i] == lead[i]);
                } else {
                    assert(es[i] == cb[i - 4]);
                }
            }
        } else {
            assert(out@.len() == es.len());
            assert(forall|i: int| 0 <= i < out@.len() ==> out@[i]@ == es[i]);
        }
    }
    out
}

} // verus!
