//! Points in time.

use vstd::prelude::*;

verus! {

/// The earliest second that a calendar date can name, counted from the Unix
/// epoch.
pub const MIN_SECS: i64 = -8_334_601_228_800;

/// The latest second that a calendar date can name, counted from the Unix
/// epoch.
pub const MAX_SECS: i64 = 8_210_266_876_799;

/// Nanoseconds in a second.
pub const NANOS_PER_SEC: u32 = 1_000_000_000;

/// A point in time: seconds since the Unix epoch and the nanoseconds past that
/// second.
#[derive(Clone, Copy, Debug, PartialEq, Eq, Structural)]
pub struct Timestamp {
    secs: i64,
    nanos: u32,
}

impl Timestamp {
    /// The second is one that a calendar date can name, and the nanoseconds are
    /// below one second.
    #[verifier::type_invariant]
    spec fn valid(self) -> bool {
        &&& MIN_SECS <= self.secs <= MAX_SECS
        &&& self.nanos < NANOS_PER_SEC
    }

    /// Seconds since the Unix epoch.
    pub closed spec fn secs(self) -> int {
        self.secs as int
    }

    /// Nanoseconds past the second.
    pub closed spec fn nanos(self) -> int {
        self.nanos as int
    }

    /// The point in nanoseconds since the Unix epoch.
    pub open spec fn instant(self) -> int {
        self.secs() * NANOS_PER_SEC + self.nanos()
    }

    /// Whether this point is earlier than `other`.
    pub open spec fn earlier(self, other: Timestamp) -> bool {
        self.instant() < other.instant()
    }

    /// The whole seconds from `then` to this point, rounded toward zero;
    /// negative where `then` is later.
    pub open spec fn seconds_since(self, then: Timestamp) -> int {
        let span = self.instant() - then.instant();
        if span >= 0 {
            span / (NANOS_PER_SEC as int)
        } else {
            -((-span) / (NANOS_PER_SEC as int))
        }
    }

    /// Whether `then` lies at most `window` whole seconds before this point, and
    /// less than a second after it.
    pub open spec fn fresh(self, then: Timestamp, window: i64) -> bool {
        0 <= self.seconds_since(then) <= window
    }

    /// A point from its parts, where a calendar date can name the second and the
    /// nanoseconds are below one second.
    pub fn from_parts(secs: i64, nanos: u32) -> (r: Option<Timestamp>)
        ensures
            match r {
                Some(t) => t.secs() == secs && t.nanos() == nanos,
                None => !(MIN_SECS <= secs <= MAX_SECS && nanos < NANOS_PER_SEC),
            },
    {
        if secs < MIN_SECS || secs > MAX_SECS || nanos >= NANOS_PER_SEC {
            None
        } else {
            Some(Timestamp { secs, nanos })
        }
    }

    /// The current time.
    pub fn now() -> (t: Timestamp)
        ensures
            0 <= t.secs() <= MAX_SECS,
            0 <= t.nanos() < NANOS_PER_SEC,
    {
        let (secs, nanos) = utc_now();
        Timestamp { secs, nanos }
    }

    /// Seconds since the Unix epoch.
    pub fn unix_seconds(self) -> (r: i64)
        ensures
            r == self.secs(),
            MIN_SECS <= r <= MAX_SECS,
    {
        proof {
            use_type_invariant(self);
        }
        self.secs
    }

    /// Nanoseconds past the second.
    pub fn subsec_nanos(self) -> (r: u32)
        ensures
            r == self.nanos(),
            r < NANOS_PER_SEC,
    {
        proof {
            use_type_invariant(self);
        }
        self.nanos
    }

    /// Whether this point is earlier than `other`.
    pub fn is_before(self, other: Timestamp) -> (r: bool)
        ensures
            r == self.earlier(other),
    {
        proof {
            use_type_invariant(self);
            use_type_invariant(other);
        }
        self.secs < other.secs || (self.secs == other.secs && self.nanos < other.nanos)
    }

    /// The whole seconds from `then` to this point.
    pub fn whole_seconds_since(self, then: Timestamp) -> (r: i64)
        ensures
            r == self.seconds_since(then),
            r > i64::MIN,
    {
        proof {
            use_type_invariant(self);
            use_type_invariant(then);
        }
        let mut secs: i64 = self.secs - then.secs;
        if secs > 0 && self.nanos < then.nanos {
            secs = secs - 1;
        } else if secs < 0 && self.nanos > then.nanos {
            secs = secs + 1;
        }
        proof {
            let span = self.instant() - then.instant();
            let unit = NANOS_PER_SEC as int;
            let d = self.secs - then.secs;
            let n = self.nanos - then.nanos;
            assert(span == d * unit + n) by (nonlinear_arith)
                requires
                    span == (self.secs * unit + self.nanos) - (then.secs * unit + then.nanos),
                    d == self.secs - then.secs,
                    n == self.nanos - then.nanos,
            ;
            if span >= 0 {
                if n >= 0 {
                    vstd::arithmetic::div_mod::lemma_fundamental_div_mod_converse(span, unit, d, n);
                } else {
                    vstd::arithmetic::div_mod::lemma_fundamental_div_mod_converse(
                        span,
                        unit,
                        d - 1,
                        n + unit,
                    );
                }
            } else {
                if n <= 0 {
                    vstd::arithmetic::div_mod::lemma_fundamental_div_mod_converse(
                        -span,
                        unit,
                        -d,
                        -n,
                    );
                } else {
                    vstd::arithmetic::div_mod::lemma_fundamental_div_mod_converse(
                        -span,
                        unit,
                        -d - 1,
                        unit - n,
                    );
                }
            }
        }
        secs
    }

    /// Whether `then` lies within `window` whole seconds before this point.
    pub fn is_fresh(self, then: Timestamp, window: i64) -> (r: bool)
        ensures
            r == self.fresh(then, window),
    {
        let age: i64 = self.whole_seconds_since(then);
        0 <= age && age <= window
    }

    /// The point `secs` seconds before this one; the first or the last second
    /// that a calendar date can name where that lies outside.
    pub closed spec fn before(self, secs: i64) -> Timestamp {
        Timestamp { secs: clamped(self.secs - secs), nanos: self.nanos }
    }

    /// Going back keeps the nanoseconds, and the seconds within the calendar.
    pub proof fn before_goes_back(self, secs: i64)
        ensures
            self.before(secs).secs() == clamped(self.secs() - secs),
            self.before(secs).nanos() == self.nanos(),
    {
    }

    /// The point `secs` seconds before this one.
    pub fn minus_seconds(self, secs: i64) -> (r: Timestamp)
        ensures
            r == self.before(secs),
            r.secs() == clamped(self.secs() - secs),
            r.nanos() == self.nanos(),
    {
        proof {
            use_type_invariant(self);
        }
        let exact: i128 = self.secs as i128 - secs as i128;
        let held: i64 = if exact < MIN_SECS as i128 {
            MIN_SECS
        } else if exact > MAX_SECS as i128 {
            MAX_SECS
        } else {
            exact as i64
        };
        Timestamp { secs: held, nanos: self.nanos }
    }
}

/// A second brought into the range that a calendar date can name.
pub open spec fn clamped(secs: int) -> i64 {
    if secs < MIN_SECS {
        MIN_SECS
    } else if secs > MAX_SECS {
        MAX_SECS
    } else {
        secs as i64
    }
}

/// `Utc::now` of chrono: the current time, as the seconds since the Unix epoch
/// and the nanoseconds past that second. Of the outcome only the range is known:
/// chrono refuses a clock that is set before the epoch or past its last date.
#[verifier::external_body]
fn utc_now() -> (r: (i64, u32))
    ensures
        0 <= r.0 <= MAX_SECS,
        r.1 < NANOS_PER_SEC,
{
    let now = chrono::Utc::now();
    (now.timestamp(), now.timestamp_subsec_nanos())
}

/// One point is earlier than another where its second is, or where that is the
/// same and its nanoseconds are fewer.
pub proof fn earlier_by_second_then_nanos(a: Timestamp, b: Timestamp)
    requires
        0 <= a.nanos() < 1_000_000_000,
        0 <= b.nanos() < 1_000_000_000,
    ensures
        a.earlier(b) <==> a.secs() < b.secs() || (a.secs() == b.secs() && a.nanos() < b.nanos()),
        !(a.earlier(b) && b.earlier(a)),
{
    let x = a.secs();
    let y = b.secs();
    assert(a.instant() == x * 1_000_000_000 + a.nanos());
    assert(b.instant() == y * 1_000_000_000 + b.nanos());
}

/// The whole seconds between two points are those that fit between them: a
/// second more would be too much. The other way round they are the same,
/// negative.
pub proof fn whole_seconds_fit(now: Timestamp, then: Timestamp)
    ensures
        now.seconds_since(then) == -then.seconds_since(now),
        ({
            let span = (now.secs() - then.secs()) * 1_000_000_000 + now.nanos() - then.nanos();
            span >= 0 ==> now.seconds_since(then) * 1_000_000_000 <= span < (now.seconds_since(then)
                + 1) * 1_000_000_000
        }),
{
    let span = now.instant() - then.instant();
    vstd::arithmetic::div_mod::lemma_fundamental_div_mod(span, 1_000_000_000);
    vstd::arithmetic::div_mod::lemma_fundamental_div_mod(-span, 1_000_000_000);
}

/// A point is fresh where it lies no further back than the window, in whole
/// seconds, and not a second or more ahead.
pub proof fn fresh_is_within_the_window(now: Timestamp, then: Timestamp, window: i64)
    requires
        window >= 0,
    ensures
        ({
            let span = (now.secs() - then.secs()) * 1_000_000_000 + now.nanos() - then.nanos();
            now.fresh(then, window) <==> -1_000_000_000 < span < (window + 1) * 1_000_000_000
        }),
{
    let span = now.instant() - then.instant();
    vstd::arithmetic::div_mod::lemma_fundamental_div_mod(span, 1_000_000_000);
    vstd::arithmetic::div_mod::lemma_fundamental_div_mod(-span, 1_000_000_000);
}

/// Going back by seconds gives the point that many seconds earlier, as long as a
/// calendar date can name it.
pub proof fn going_back_is_exact(t: Timestamp, secs: i64)
    requires
        -8_334_601_228_800 <= t.secs() - secs <= 8_210_266_876_799,
    ensures
        t.before(secs).secs() == t.secs() - secs,
        t.before(secs).nanos() == t.nanos(),
        secs > 0 ==> t.before(secs).earlier(t),
{
    t.before_goes_back(secs);
}

/// Going back further than a calendar date can name stops at the first second
/// that one can, and going forward further at the last.
pub proof fn going_back_stops_at_the_calendar(t: Timestamp, secs: i64)
    ensures
        t.secs() - secs < -8_334_601_228_800 ==> t.before(secs).secs() == -8_334_601_228_800,
        t.secs() - secs > 8_210_266_876_799 ==> t.before(secs).secs() == 8_210_266_876_799,
{
    t.before_goes_back(secs);
}

} // verus!
