//! The canonical instant: a timezone-free point in time anchored to UTC,
//! held as whole seconds since the Unix epoch plus a nanosecond fraction.
//!
//! The range of representable instants spans the years
//! [`crate::civil::YEAR_MIN`] through [`crate::civil::YEAR_MAX`]. The
//! fraction may reach into a second second (up to but excluding two
//! billion nanoseconds) so that a leap second read from a textual format
//! is representable.
use vstd::prelude::*;
use crate::civil::days_from_civil;
use crate::civil::EPOCH_DAY_MAX;
use crate::civil::EPOCH_DAY_MIN;
use crate::civil::YEAR_MAX;
use crate::civil::YEAR_MIN;

verus! {

/// Smallest representable whole-second count: the first instant of the
/// first representable day.
pub const MIN_EPOCH_SECS: i64 = -8334601228800;

/// Largest representable whole-second count: the last whole second of the
/// last representable day.
pub const MAX_EPOCH_SECS: i64 = 8210266876799;

/// The second bounds are the day bounds scaled to seconds.
pub proof fn lemma_epoch_secs_bounds()
    ensures
        MIN_EPOCH_SECS == EPOCH_DAY_MIN * 86400,
        MAX_EPOCH_SECS == EPOCH_DAY_MAX * 86400 + 86399,
        EPOCH_DAY_MIN == days_from_civil(YEAR_MIN as int, 1, 1),
        EPOCH_DAY_MAX == days_from_civil(YEAR_MAX as int, 12, 31),
{
    crate::civil::lemma_epoch_day_bounds();
}

/// A canonical instant: whole seconds since the Unix epoch and a
/// nanosecond fraction.
#[derive(Clone, Copy, Debug, PartialEq, Eq, Structural)]
pub struct Moment {
    /// Whole seconds since 1970-01-01T00:00:00 UTC, negative before it.
    pub secs: i64,
    /// Nanoseconds past the whole second.
    pub nanos: u32,
}

impl Moment {
    /// A well-formed instant: its second lies in the representable span
    /// and its fraction stays below two seconds.
    pub open spec fn wf(self) -> bool {
        MIN_EPOCH_SECS <= self.secs <= MAX_EPOCH_SECS && self.nanos < 2000000000
    }

    /// The instant as a single nanosecond count since the epoch.
    pub open spec fn total_nanos(self) -> int {
        self.secs * 1000000000 + self.nanos
    }

    /// Builds an instant after checking the representable range.
    pub fn new_checked(secs: i64, nanos: u32) -> (r: Option<Moment>)
        ensures
            match r {
                Some(m) => m.secs == secs && m.nanos == nanos && m.wf(),
                None => !(MIN_EPOCH_SECS <= secs <= MAX_EPOCH_SECS && nanos < 2000000000),
            },
    {
        if MIN_EPOCH_SECS <= secs && secs <= MAX_EPOCH_SECS && nanos < 2000000000 {
            Some(Moment { secs, nanos })
        } else {
            None
        }
    }

    /// The sign and magnitude of the instant's nanosecond count: `neg`
    /// holds exactly when the count is negative, and `mag` is its
    /// absolute value.
    pub fn total_nanos_parts(&self) -> (r: (bool, u128))
        requires
            self.wf(),
        ensures
            r.1 == if self.total_nanos() < 0 {
                -self.total_nanos()
            } else {
                self.total_nanos()
            },
            r.0 == (self.total_nanos() < 0),
    {
        if self.secs >= 0 {
            let mag = (self.secs as u128) * 1000000000 + (self.nanos as u128);
            (false, mag)
        } else {
            let below = ((-(self.secs as i128)) as u128) * 1000000000;
            if (self.nanos as u128) >= below {
                // a fraction long enough to reach past the epoch
                (false, (self.nanos as u128) - below)
            } else {
                (true, below - (self.nanos as u128))
            }
        }
    }
}

/// The environmental snapshot a single run works from: the current
/// instant and the machine's current local offset, both read once before
/// any parsing or expanding, so that one run is internally consistent.
#[derive(Clone, Copy, Debug, PartialEq, Eq, Structural)]
pub struct Context {
    /// The current instant.
    pub now: Moment,
    /// Seconds east of UTC of the machine's current local offset.
    pub offset_secs: i32,
}

impl Context {
    /// A well-formed snapshot: a well-formed instant and an offset of
    /// less than a day in either direction.
    pub open spec fn wf(self) -> bool {
        self.now.wf() && -86400 < self.offset_secs < 86400
    }

    /// Builds a snapshot after checking both bounds.
    pub fn new_checked(now_secs: i64, now_nanos: u32, offset_secs: i32) -> (r: Option<Context>)
        ensures
            match r {
                Some(c) => c.now.secs == now_secs && c.now.nanos == now_nanos
                    && c.offset_secs == offset_secs && c.wf(),
                None => !(MIN_EPOCH_SECS <= now_secs <= MAX_EPOCH_SECS && now_nanos < 2000000000
                    && -86400 < offset_secs < 86400),
            },
    {
        if -86400 < offset_secs && offset_secs < 86400 {
            match Moment::new_checked(now_secs, now_nanos) {
                Some(now) => Some(Context { now, offset_secs }),
                None => None,
            }
        } else {
            None
        }
    }
}

} // verus!
