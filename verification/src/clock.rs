//! Time as plain numbers: readings of a monotonic clock, lengths of time, and
//! points of UTC time.

use vstd::prelude::*;

verus! {

// ── Monotonic time ──────────────────────────────────────────────────────────

/// A length of time.
#[derive(Clone, Copy, Debug, PartialEq, Eq, PartialOrd, Ord, Hash, Structural)]
pub struct Duration {
    /// The length in nanoseconds.
    pub nanos: u128,
}

/// A reading of a monotonic clock.
#[derive(Clone, Copy, Debug, PartialEq, Eq, PartialOrd, Ord, Hash, Structural)]
pub struct Instant {
    /// Nanoseconds since the clock's origin.
    pub nanos: u128,
}

impl Duration {
    /// A whole number of seconds.
    pub fn from_secs(secs: u64) -> (r: Self)
        ensures
            r.nanos == secs * 1_000_000_000,
    {
        Duration { nanos: secs as u128 * 1_000_000_000 }
    }

    /// A whole number of milliseconds.
    pub fn from_millis(millis: u64) -> (r: Self)
        ensures
            r.nanos == millis * 1_000_000,
    {
        Duration { nanos: millis as u128 * 1_000_000 }
    }

    /// The whole seconds of the duration.
    pub open spec fn whole_secs(self) -> nat {
        self.nanos as nat / 1_000_000_000
    }

    /// The whole milliseconds of the duration.
    pub open spec fn whole_millis(self) -> nat {
        self.nanos as nat / 1_000_000
    }

    /// The whole milliseconds as a 64-bit number: the low 64 bits of the count.
    pub open spec fn millis_u64(self) -> u64 {
        (self.whole_millis() % 0x1_0000_0000_0000_0000) as u64
    }

    /// The whole seconds of the duration.
    pub fn as_secs(&self) -> (r: u128)
        ensures
            r == self.whole_secs(),
    {
        self.nanos / 1_000_000_000
    }

    /// The whole seconds as a 64-bit number: the largest one where they are more.
    pub open spec fn secs_u64(self) -> u64 {
        if self.whole_secs() <= u64::MAX {
            self.whole_secs() as u64
        } else {
            u64::MAX
        }
    }

    /// The whole seconds as a 64-bit number: the largest one where they are more.
    pub fn as_secs_u64(&self) -> (r: u64)
        ensures
            r == self.secs_u64(),
    {
        let s: u128 = self.nanos / 1_000_000_000;
        if s <= u64::MAX as u128 {
            s as u64
        } else {
            u64::MAX
        }
    }

    /// The whole milliseconds, cut to 64 bits.
    pub fn as_millis_u64(&self) -> (r: u64)
        ensures
            r == self.millis_u64(),
    {
        let m: u128 = self.nanos / 1_000_000;
        (m % 0x1_0000_0000_0000_0000) as u64
    }
}

impl Instant {
    /// The instant `d` later, where the clock can represent it.
    pub open spec fn later(self, d: Duration) -> Option<Instant> {
        if self.nanos + d.nanos <= u128::MAX {
            Some(Instant { nanos: (self.nanos + d.nanos) as u128 })
        } else {
            None
        }
    }

    /// The time from `earlier` to `self`, zero where `earlier` is the later one.
    pub open spec fn since(self, earlier: Instant) -> Duration {
        Duration {
            nanos: if self.nanos >= earlier.nanos {
                (self.nanos - earlier.nanos) as u128
            } else {
                0
            },
        }
    }

    /// The instant `d` later, or `None` past the end of the clock.
    pub fn checked_add(self, d: Duration) -> (r: Option<Instant>)
        ensures
            r == self.later(d),
    {
        match self.nanos.checked_add(d.nanos) {
            Some(nanos) => Some(Instant { nanos }),
            None => None,
        }
    }

    /// The time since `earlier`, or zero.
    pub fn saturating_duration_since(self, earlier: Instant) -> (r: Duration)
        ensures
            r == self.since(earlier),
    {
        if self.nanos >= earlier.nanos {
            Duration { nanos: self.nanos - earlier.nanos }
        } else {
            Duration { nanos: 0 }
        }
    }
}

// ── UTC time ────────────────────────────────────────────────────────────────

/// The day number of 1970-01-01, where 0001-01-01 is day 1.
pub const EPOCH_DAY: i32 = 719_163;

/// The number of the first day that a [`Timestamp`] can lie on.
pub const FIRST_DAY: i32 = -95_746_129;

/// The number of the last day that a [`Timestamp`] can lie on.
pub const LAST_DAY: i32 = 95_745_399;

/// Seconds in a day.
pub const DAY_SECS: i64 = 86_400;

/// A point of UTC time: seconds since 1970-01-01T00:00:00Z and nanoseconds
/// within the second.
#[derive(Clone, Copy, Debug, PartialEq, Eq, PartialOrd, Ord, Hash, Structural)]
pub struct Timestamp {
    secs: i64,
    nanos: u32,
}

/// Whether `secs` lies on a day from [`FIRST_DAY`] to [`LAST_DAY`].
pub open spec fn secs_in_range(secs: int) -> bool {
    (FIRST_DAY - EPOCH_DAY) * DAY_SECS <= secs < (LAST_DAY - EPOCH_DAY + 1) * DAY_SECS
}

impl Timestamp {
    #[verifier::type_invariant]
    spec fn well_formed(self) -> bool {
        secs_in_range(self.secs as int) && self.nanos < 1_000_000_000
    }

    /// Seconds since the Unix epoch.
    pub closed spec fn unix_secs(self) -> int {
        self.secs as int
    }

    /// Nanoseconds within the second.
    pub closed spec fn subsec(self) -> nat {
        self.nanos as nat
    }

    /// Whether `self` comes before `other`.
    pub open spec fn before(self, other: Timestamp) -> bool {
        self.unix_secs() < other.unix_secs() || (self.unix_secs() == other.unix_secs()
            && self.subsec() < other.subsec())
    }

    /// The number of the UTC day, with 0001-01-01 as day 1.
    pub open spec fn day(self) -> int {
        self.unix_secs() / 86_400 + 719_163
    }

    /// The point of time at `secs` and `nanos`, where it is representable.
    pub fn at(secs: i64, nanos: u32) -> (r: Option<Timestamp>)
        ensures
            r is Some <==> secs_in_range(secs as int) && nanos < 1_000_000_000,
            r matches Some(t) ==> t.unix_secs() == secs && t.subsec() == nanos,
    {
        if secs >= -8_334_601_228_800 && secs < 8_210_266_876_800 && nanos < 1_000_000_000 {
            Some(Timestamp { secs, nanos })
        } else {
            None
        }
    }

    /// `chrono::Utc::now`: the current time, of which nothing more is known.
    #[verifier::external_body]
    pub(crate) fn now() -> (r: Timestamp) {
        let t = chrono::Utc::now();
        Timestamp { secs: t.timestamp(), nanos: t.timestamp_subsec_nanos() }
    }

    /// Seconds since the Unix epoch.
    pub fn secs(&self) -> (r: i64)
        ensures
            r == self.unix_secs(),
            secs_in_range(r as int),
    {
        proof {
            use_type_invariant(&*self);
        }
        self.secs
    }

    /// Nanoseconds within the second.
    pub fn subsec_nanos(&self) -> (r: u32)
        ensures
            r == self.subsec(),
            r < 1_000_000_000,
    {
        proof {
            use_type_invariant(&*self);
        }
        self.nanos
    }

    /// Whether `self` comes before `other`.
    pub fn is_before(&self, other: &Timestamp) -> (r: bool)
        ensures
            r == self.before(*other),
    {
        self.secs < other.secs || (self.secs == other.secs && self.nanos < other.nanos)
    }

    /// The number of the UTC day.
    pub fn day_number(&self) -> (r: i32)
        ensures
            r == self.day(),
            FIRST_DAY <= r <= LAST_DAY,
    {
        proof {
            use_type_invariant(&*self);
        }
        let shifted: i64 = self.secs + 8_334_601_228_800;
        let days: i64 = shifted / DAY_SECS;
        (days - 95_746_129) as i32
    }

    /// The same time of day so many days before, where that is representable.
    pub fn minus_days(&self, days: u64) -> (r: Option<Timestamp>)
        ensures
            r is Some <==> secs_in_range(self.unix_secs() - days * 86_400),
            r matches Some(t) ==> t.unix_secs() == self.unix_secs() - days * 86_400 && t.subsec()
                == self.subsec(),
    {
        proof {
            use_type_invariant(&*self);
        }
        let total: i128 = self.secs as i128 - days as i128 * 86_400;
        if total >= -8_334_601_228_800 {
            Timestamp::at(total as i64, self.nanos)
        } else {
            None
        }
    }

    /// The time `minutes` later, where it is representable.
    pub fn plus_minutes(&self, minutes: u64) -> (r: Option<Timestamp>)
        ensures
            r is Some <==> secs_in_range(self.unix_secs() + minutes * 60),
            r matches Some(t) ==> t.unix_secs() == self.unix_secs() + minutes * 60 && t.subsec()
                == self.subsec(),
    {
        proof {
            use_type_invariant(&*self);
        }
        let total: i128 = self.secs as i128 + minutes as i128 * 60;
        if total < 8_210_266_876_800 {
            Timestamp::at(total as i64, self.nanos)
        } else {
            None
        }
    }
}

impl Timestamp {
    /// The nanoseconds since the Unix epoch.
    pub open spec fn unix_nanos(self) -> int {
        self.unix_secs() * 1_000_000_000 + self.subsec()
    }

    /// The whole seconds from `self` until `later`, zero where that lies in the past.
    pub open spec fn secs_until(self, later: Timestamp) -> int {
        let nanos = later.unix_nanos() - self.unix_nanos();
        if nanos <= 0 {
            0
        } else {
            nanos / 1_000_000_000
        }
    }

    /// The whole seconds until `later`.
    pub fn seconds_until(&self, later: &Timestamp) -> (r: i64)
        ensures
            r == self.secs_until(*later),
    {
        proof {
            use_type_invariant(&*self);
            use_type_invariant(&*later);
        }
        let nanos: i128 = (later.secs as i128 - self.secs as i128) * 1_000_000_000 + (
        later.nanos as i128 - self.nanos as i128);
        if nanos <= 0 {
            0
        } else {
            (nanos / 1_000_000_000) as i64
        }
    }

    /// The time until `later`, zero where that lies in the past.
    pub fn time_until(&self, later: &Timestamp) -> (r: Duration)
        ensures
            r.nanos == if later.unix_nanos() > self.unix_nanos() {
                later.unix_nanos() - self.unix_nanos()
            } else {
                0
            },
    {
        proof {
            use_type_invariant(&*self);
            use_type_invariant(&*later);
        }
        let nanos: i128 = (later.secs as i128 - self.secs as i128) * 1_000_000_000 + (
        later.nanos as i128 - self.nanos as i128);
        Duration {
            nanos: if nanos <= 0 {
                0
            } else {
                nanos as u128
            },
        }
    }

    /// The nanoseconds since the Unix epoch, where they fit in 64 bits.
    pub fn nanos_i64(&self) -> (r: Option<i64>)
        ensures
            r == if i64::MIN <= self.unix_nanos() <= i64::MAX {
                Some(self.unix_nanos() as i64)
            } else {
                None
            },
    {
        proof {
            use_type_invariant(&*self);
        }
        let nanos: i128 = self.secs as i128 * 1_000_000_000 + self.nanos as i128;
        if nanos >= -9_223_372_036_854_775_808 && nanos <= 9_223_372_036_854_775_807 {
            Some(nanos as i64)
        } else {
            None
        }
    }

    /// The time as RFC 3339 text.
    pub fn to_rfc3339(&self) -> (r: String)
        ensures
            r@ == rfc3339_text(self.unix_secs(), self.subsec()),
    {
        proof {
            use_type_invariant(&*self);
        }
        print_rfc3339(self.secs, self.nanos)
    }
}

/// The RFC 3339 text that `chrono` prints for a point of UTC time.
pub uninterp spec fn rfc3339_text(secs: int, nanos: nat) -> Seq<char>;

/// `chrono::DateTime::to_rfc3339`: the point of UTC time as RFC 3339 text.
#[verifier::external_body]
fn print_rfc3339(secs: i64, nanos: u32) -> (r: String)
    requires
        secs_in_range(secs as int),
        nanos < 1_000_000_000,
    ensures
        r@ == rfc3339_text(secs as int, nanos as nat),
{
    chrono::DateTime::from_timestamp(secs, nanos).unwrap().to_rfc3339()
}

// ── Calendar dates ──────────────────────────────────────────────────────────

/// The text that `chrono` prints for the date with this day number.
pub uninterp spec fn date_text(day: int) -> Seq<char>;

/// The day number of the date that `chrono` reads in a text, where there is one.
pub uninterp spec fn parsed_date(text: Seq<char>) -> Option<i32>;

/// `chrono::NaiveDate`'s `Display`: the date with this day number, printed as
/// `YYYY-MM-DD`. What is printed can be read back as the same date.
#[verifier::external_body]
pub(crate) fn print_date(day: i32) -> (r: String)
    requires
        FIRST_DAY <= day <= LAST_DAY,
    ensures
        r@ == date_text(day as int),
        parsed_date(r@) == Some(day),
{
    chrono::NaiveDate::from_num_days_from_ce_opt(day).unwrap().to_string()
}

/// `chrono::NaiveDate`'s `FromStr`: reads a `YYYY-MM-DD` date; a date that is
/// read lies within `chrono`'s range.
#[verifier::external_body]
pub(crate) fn read_date(text: &str) -> (r: Option<i32>)
    ensures
        r == parsed_date(text@),
        r matches Some(day) ==> FIRST_DAY <= day <= LAST_DAY,
{
    text.parse::<chrono::NaiveDate>().ok().map(|d| chrono::Datelike::num_days_from_ce(&d))
}

// ── What holds of time ──────────────────────────────────────────────────────

/// Of two points of time one comes before the other, or they are the same, and never
/// both; and which it is goes by the seconds first and by the nanoseconds then.
pub proof fn law_time_goes_one_way(a: Timestamp, b: Timestamp, c: Timestamp)
    ensures
        !a.before(a),
        !(a.before(b) && b.before(a)),
        a.before(b) || b.before(a) || (a.unix_secs() == b.unix_secs() && a.subsec() == b.subsec()),
        a.before(b) && b.before(c) ==> a.before(c),
        a.unix_secs() < b.unix_secs() ==> a.before(b),
        a.unix_secs() == b.unix_secs() ==> (a.before(b) <==> a.subsec() < b.subsec()),
{
}

/// A day is 86400 seconds long, and the first of 1970 is day 719163.
pub proof fn law_days_are_days(t: Timestamp, day: int)
    ensures
        t.day() == day <==> (day - 719_163) * 86_400 <= t.unix_secs() < (day - 719_163) * 86_400
            + 86_400,
{
}

/// What lies a while after an instant is that while away from it, and nothing lies after
/// what comes later.
pub proof fn law_elapsed_time_is_what_was_added(start: Instant, d: Duration, end: Instant)
    ensures
        start.later(d) == Some(end) ==> end.since(start) == d,
        start.later(d) == Some(end) ==> start.since(end).nanos == 0,
        start.later(d) is None <==> start.nanos + d.nanos > u128::MAX,
        start.since(start).nanos == 0,
{
}

/// Whole seconds and milliseconds are rounded down.
pub proof fn law_lengths_are_rounded_down(d: Duration)
    ensures
        d.whole_secs() * 1_000_000_000 <= d.nanos < (d.whole_secs() + 1) * 1_000_000_000,
        d.whole_millis() * 1_000_000 <= d.nanos < (d.whole_millis() + 1) * 1_000_000,
        d.whole_secs() <= u64::MAX ==> d.secs_u64() == d.whole_secs(),
        d.whole_secs() > u64::MAX ==> d.secs_u64() == u64::MAX,
        d.whole_millis() <= u64::MAX ==> d.millis_u64() == d.whole_millis(),
{
}

/// The seconds until a later time are whole ones, and there are none until an earlier.
pub proof fn law_seconds_left_are_whole(now: Timestamp, then: Timestamp)
    ensures
        then.unix_nanos() <= now.unix_nanos() ==> now.secs_until(then) == 0,
        then.unix_nanos() > now.unix_nanos() ==> now.secs_until(then) * 1_000_000_000
            <= then.unix_nanos() - now.unix_nanos() < (now.secs_until(then) + 1) * 1_000_000_000,
        then.unix_nanos() == then.unix_secs() * 1_000_000_000 + then.subsec(),
{
}

/// The points of time that there are reach from the first day of all to the last.
pub proof fn law_time_has_its_bounds(secs: int)
    ensures
        secs_in_range(secs) <==> -8_334_601_228_800 <= secs < 8_210_266_876_800,
{
}

/// Going back some days and forth as many minutes as they have leads back.
pub proof fn law_days_back_are_minutes_forth(
    t: &Timestamp,
    days: u64,
    minutes: u64,
    back: Option<Timestamp>,
    forth: Option<Timestamp>,
)
    requires
        call_ensures(Timestamp::minus_days, (t, days), back),
        back is Some,
        minutes == days * 24 * 60,
        call_ensures(Timestamp::plus_minutes, (&back->0, minutes), forth),
    ensures
        back->0.unix_secs() + days * 86_400 == t.unix_secs(),
        forth matches Some(x) ==> x.unix_secs() == t.unix_secs() && x.subsec() == t.subsec(),
{
}

} // verus!
