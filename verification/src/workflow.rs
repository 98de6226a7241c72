//! The single invocation: one primary string, an optional secondary
//! string used only when the primary is empty, and the environmental
//! snapshot; out comes the ordered list of entries, or the parse failure
//! of the primary string.
use vstd::prelude::*;
use vstd::string::StrSliceExecFns;
use crate::expand::expand;
use crate::expand::expand_spec;
use crate::expand::EntryView;
use crate::expand::OutputEntry;
use crate::moment::Context;
use crate::parse::parse;
use crate::parse::parse_spec;
use crate::parse::ParseError;
use crate::parse::SourceKind;

verus! {

/// The view of an optional secondary string.
pub open spec fn clip_view(c: Option<&str>) -> Option<Seq<char>> {
    match c {
        Some(s) => Some(s@),
        None => None,
    }
}

/// What [`run`] yields. A non-empty primary string is parsed and
/// expanded, or its failure is the result. An empty primary falls back
/// to the secondary string, whose failure is absorbed; with neither, the
/// current instant alone is expanded.
pub open spec fn run_spec(q: Seq<char>, clip: Option<Seq<char>>, ctx: Context) -> Result<
    Seq<EntryView>,
    ParseError,
> {
    if q.len() == 0 {
        match clip {
            Some(c) => match parse_spec(c, ctx) {
                Ok(p) => Ok(expand_spec(p.0, p.1, "timestamp from clipboard"@, ctx)),
                Err(_) => Ok(expand_spec(ctx.now, SourceKind::NoInput, "Current time"@, ctx)),
            },
            None => Ok(expand_spec(ctx.now, SourceKind::NoInput, "Current time"@, ctx)),
        }
    } else {
        match parse_spec(q, ctx) {
            Ok(p) => Ok(expand_spec(p.0, p.1, "timestamp"@, ctx)),
            Err(e) => Err(e),
        }
    }
}

/// Runs one invocation; see [`run_spec`].
pub fn run(query: &str, clipboard: Option<&str>, ctx: &Context) -> (r: Result<
    Vec<OutputEntry>,
    ParseError,
>)
    requires
        ctx.wf(),
    ensures
        ({
            let rs = run_spec(query@, clip_view(clipboard), *ctx);
            match r {
                Ok(v) => rs is Ok && v@.len() == rs->Ok_0.len() && forall|i: int|
                    0 <= i < v@.len() ==> v@[i]@ == rs->Ok_0[i],
                Err(e) => rs == Err::<Seq<EntryView>, ParseError>(e),
            }
        }),
{
    if query.unicode_len() == 0 {
        match clipboard {
            Some(c) => match parse(c, ctx) {
                Ok(p) => {
                    let (m, kind) = p;
                    Ok(expand(&m, kind, "timestamp from clipboard", ctx))
                },
                Err(_) => Ok(expand(&ctx.now, SourceKind::NoInput, "Current time", ctx)),
            },
            None => Ok(expand(&ctx.now, SourceKind::NoInput, "Current time", ctx)),
        }
    } else {
        match parse(query, ctx) {
            Ok(p) => {
                let (m, kind) = p;
                Ok(expand(&m, kind, "timestamp", ctx))
            },
            Err(e) => Err(e),
        }
    }
}

} // verus!
