//! Instants, and the wall clock that supplies them.

use chrono::{DateTime, Utc};
use vstd::prelude::*;

verus! {

/// Nanoseconds in a second.
pub const NANOS_PER_SEC: u32 = 1_000_000_000;

/// The first second that the clock can name, counted from the Unix epoch:
/// the start of the first day of the year 262144 BCE.
pub const MIN_SECS: i64 = -8_334_601_228_800;

/// The last second that the clock can name, counted from the Unix epoch:
/// the end of the last day of the year 262142 CE.
pub const MAX_SECS: i64 = 8_210_266_876_799;

/// An instant: whole seconds since the Unix epoch, leap seconds not
/// counted, and the nanoseconds into the running second. No leap second is
/// represented.
#[derive(Clone, Copy, Debug, PartialEq, Eq)]
pub struct Timestamp {
    secs: i64,
    nanos: u32,
}

impl View for Timestamp {
    type V = int;

    /// Nanoseconds since the Unix epoch.
    closed spec fn view(&self) -> int {
        self.secs * NANOS_PER_SEC + self.nanos
    }
}

/// Whether `nanos` nanoseconds since the Unix epoch is an instant that the
/// clock can name.
pub open spec fn is_instant(nanos: int) -> bool {
    MIN_SECS * NANOS_PER_SEC <= nanos < (MAX_SECS + 1) * NANOS_PER_SEC
}

/// The whole milliseconds in a span of `nanos` nanoseconds, rounded towards
/// zero.
pub open spec fn whole_millis(nanos: int) -> int {
    if nanos >= 0 {
        nanos / 1_000_000
    } else {
        -((-nanos) / 1_000_000)
    }
}

/// The whole milliseconds from one instant to another, both given in
/// nanoseconds since the Unix epoch. Negative when `later` lies before
/// `earlier`.
pub open spec fn elapsed_millis(earlier: int, later: int) -> int {
    whole_millis(later - earlier)
}

impl Timestamp {
    /// A second that the clock can name, and less than a second into it.
    #[verifier::type_invariant]
    spec fn in_range(self) -> bool {
        MIN_SECS <= self.secs <= MAX_SECS && self.nanos < NANOS_PER_SEC
    }

    /// Whether this is an instant that the clock can name: a second between
    /// `MIN_SECS` and `MAX_SECS`, and less than a second into it.
    pub closed spec fn well_formed(&self) -> bool {
        self.in_range()
    }

    /// The instant `secs` seconds after the Unix epoch (before it, where
    /// `secs` is negative) and `nanos` nanoseconds into that second.
    pub fn new(secs: i64, nanos: u32) -> (t: Option<Timestamp>)
        ensures
            match t {
                Some(time) => MIN_SECS <= secs <= MAX_SECS && nanos < NANOS_PER_SEC && time@
                    == secs * NANOS_PER_SEC + nanos && time.well_formed(),
                None => secs < MIN_SECS || secs > MAX_SECS || nanos >= NANOS_PER_SEC,
            },
    {
        if MIN_SECS <= secs && secs <= MAX_SECS && nanos < NANOS_PER_SEC {
            Some(Timestamp { secs, nanos })
        } else {
            None
        }
    }

    /// Whole seconds since the Unix epoch.
    pub fn secs(&self) -> (s: i64)
        ensures
            s == self@ / (NANOS_PER_SEC as int),
            MIN_SECS <= s <= MAX_SECS,
    {
        proof {
            use_type_invariant(self);
        }
        self.secs
    }

    /// Nanoseconds into the running second.
    pub fn nanos(&self) -> (n: u32)
        ensures
            n == self@ % (NANOS_PER_SEC as int),
            n < NANOS_PER_SEC,
    {
        proof {
            use_type_invariant(self);
        }
        self.nanos
    }

    /// Every well-formed timestamp is an instant that the clock can name.
    pub proof fn lemma_is_instant(self)
        requires
            self.well_formed(),
        ensures
            is_instant(self@),
    {
    }
}

/// `chrono::Utc::now`: the current instant, read off with
/// `DateTime::timestamp` and `DateTime::timestamp_subsec_nanos`.
///
/// The clock is built, with `DateTime::from_timestamp`, from a Unix time
/// whose fraction of a second is below one second. So what comes back is a
/// second that `DateTime::from_timestamp` accepts, which are those from
/// `MIN_SECS` to `MAX_SECS`, and no leap second. Where the system clock
/// stands before 1970 or beyond that range, `Utc::now` panics.
#[verifier::external_body]
pub(crate) fn now() -> (t: Timestamp)
    ensures
        t.well_formed(),
{
    let time = Utc::now();
    Timestamp { secs: time.timestamp(), nanos: time.timestamp_subsec_nanos() }
}

/// `DateTime::signed_duration_since`, then `TimeDelta::num_milliseconds`:
/// the whole milliseconds from `earlier` to `later`, rounded towards zero.
///
/// Both instants are rebuilt with `DateTime::from_timestamp`, which accepts
/// every second from `MIN_SECS` to `MAX_SECS`.
#[verifier::external_body]
pub(crate) fn millis_between(earlier: Timestamp, later: Timestamp) -> (millis: i64)
    ensures
        millis == elapsed_millis(earlier@, later@),
{
    let from: DateTime<Utc> = DateTime::from_timestamp(earlier.secs, earlier.nanos).unwrap();
    let to: DateTime<Utc> = DateTime::from_timestamp(later.secs, later.nanos).unwrap();
    to.signed_duration_since(from).num_milliseconds()
}

} // verus!
