//! Points in time and calendar dates.
//!
//! [`Timestamp`] is a UTC instant held as Unix seconds plus a sub-second nanosecond
//! part; [`Date`] is a proleptic-Gregorian calendar day held as its day number counted
//! from the Common Era (January 1 of year 1 is day 1). Construction from calendar
//! fields and rendering go through `chrono`; the arithmetic the domain reads is done
//! here on plain integers.

use vstd::prelude::*;

verus! {

/// Seconds in a day.
pub const SECONDS_PER_DAY: i64 = 86_400;

/// Nanoseconds in a second.
pub const NANOS_PER_SECOND: u32 = 1_000_000_000;

/// Day number (from the Common Era) of 1970-01-01.
pub const UNIX_EPOCH_DAY: i64 = 719_163;

/// A bound on the magnitude of the Unix seconds of a representable instant: chrono
/// represents every instant within it (its calendar spans years -262143 to 262142).
pub const MAX_ABS_SECONDS: i64 = 8_000_000_000_000;

/// The day number (from the Common Era) of chrono's earliest date, -262143-01-01.
pub const MIN_DAY_NUMBER: i32 = -95_746_129;

/// The day number (from the Common Era) of chrono's latest date, 262142-12-31.
pub const MAX_DAY_NUMBER: i32 = 95_745_399;

/// Whether chrono's `DateTime::<Utc>::from_timestamp` accepts the given parts.
pub uninterp spec fn chrono_accepts_timestamp(secs: i64, nsecs: u32) -> bool;

/// `DateTime::<Utc>::from_timestamp(secs, nsecs)`, taken apart again into its Unix
/// seconds and sub-second nanoseconds. The contract claims that an accepted instant
/// gives back exactly the parts it was built from, and that chrono accepts every
/// instant within [`MAX_ABS_SECONDS`] of the epoch with a nanosecond part below one
/// second.
#[verifier::external_body]
fn chrono_from_timestamp(secs: i64, nsecs: u32) -> (r: Option<(i64, u32)>)
    ensures
        r is Some == chrono_accepts_timestamp(secs, nsecs),
        r matches Some(p) ==> p.0 == secs && p.1 == nsecs,
        -MAX_ABS_SECONDS <= secs <= MAX_ABS_SECONDS && nsecs < NANOS_PER_SECOND ==> r is Some,
{
    match chrono::DateTime::from_timestamp(secs, nsecs) {
        Some(instant) => Some((instant.timestamp(), instant.timestamp_subsec_nanos())),
        None => None,
    }
}

/// A UTC instant: Unix seconds plus nanoseconds within the second.
#[derive(Clone, Copy, Debug, PartialEq, Eq, Structural)]
pub struct Timestamp {
    secs: i64,
    nanos: u32,
}

impl Timestamp {
    /// The instant's Unix seconds.
    pub closed spec fn spec_secs(self) -> int {
        self.secs as int
    }

    /// The instant's nanoseconds within its second.
    pub closed spec fn spec_nanos(self) -> int {
        self.nanos as int
    }

    /// The instant as nanoseconds since the Unix epoch.
    pub open spec fn total_nanos(self) -> int {
        self.spec_secs() * 1_000_000_000 + self.spec_nanos()
    }

    /// The representation invariant: nanoseconds below one second, seconds in range.
    #[verifier::type_invariant]
    pub closed spec fn wf(self) -> bool {
        &&& self.nanos < NANOS_PER_SECOND
        &&& -MAX_ABS_SECONDS <= self.secs <= MAX_ABS_SECONDS
    }

    /// Builds the instant `secs` seconds and `nsecs` nanoseconds after the Unix epoch.
    ///
    /// Returns `None` beyond [`MAX_ABS_SECONDS`] of the epoch, and for a leap-second
    /// nanosecond part (`nsecs` of a full second or more).
    pub fn from_timestamp(secs: i64, nsecs: u32) -> (r: Option<Timestamp>)
        ensures
            r matches Some(t) ==> t.spec_secs() == secs && t.spec_nanos() == nsecs,
            r is Some <==> -MAX_ABS_SECONDS <= secs <= MAX_ABS_SECONDS && nsecs < NANOS_PER_SECOND,
    {
        if secs < -MAX_ABS_SECONDS || secs > MAX_ABS_SECONDS || nsecs >= NANOS_PER_SECOND {
            return None;
        }
        match chrono_from_timestamp(secs, nsecs) {
            Some((s, n)) => Some(Timestamp { secs: s, nanos: n }),
            None => None,
        }
    }

    /// The Unix seconds of this instant.
    pub fn timestamp(&self) -> (r: i64)
        ensures
            r == self.spec_secs(),
            -MAX_ABS_SECONDS <= r <= MAX_ABS_SECONDS,
    {
        proof {
            use_type_invariant(self);
        }
        self.secs
    }

    /// The nanoseconds within the second of this instant.
    pub fn subsec_nanos(&self) -> (r: u32)
        ensures
            r == self.spec_nanos(),
            r < NANOS_PER_SECOND,
    {
        proof {
            use_type_invariant(self);
        }
        self.nanos
    }

    /// The instant `seconds` whole seconds later (earlier when negative), with the same
    /// nanoseconds within the second.
    pub closed spec fn spec_add_seconds(self, seconds: int) -> Timestamp {
        Timestamp { secs: (self.secs + seconds) as i64, nanos: self.nanos }
    }

    /// The same instant moved `seconds` seconds later (earlier when negative), or `None`
    /// when the result leaves the representable range.
    pub fn checked_add_seconds(&self, seconds: i64) -> (r: Option<Timestamp>)
        ensures
            r matches Some(t) ==> t == self.spec_add_seconds(seconds as int),
            r matches Some(t) ==> t.spec_secs() == self.spec_secs() + seconds && t.spec_nanos()
                == self.spec_nanos(),
            r is None <==> !(-MAX_ABS_SECONDS <= self.spec_secs() + seconds <= MAX_ABS_SECONDS),
    {
        proof {
            use_type_invariant(self);
        }
        if seconds > 2 * MAX_ABS_SECONDS || seconds < -2 * MAX_ABS_SECONDS {
            return None;
        }
        let s = self.secs + seconds;
        if -MAX_ABS_SECONDS <= s && s <= MAX_ABS_SECONDS {
            Some(Timestamp { secs: s, nanos: self.nanos })
        } else {
            None
        }
    }

    /// Whether `self` is a strictly later instant than `other`.
    pub fn is_after(&self, other: &Timestamp) -> (r: bool)
        ensures
            r == (self.total_nanos() > other.total_nanos()),
    {
        proof {
            use_type_invariant(self);
            use_type_invariant(other);
            assert(self.total_nanos() > other.total_nanos() <==> (self.secs > other.secs || (
            self.secs == other.secs && self.nanos > other.nanos))) by (nonlinear_arith)
                requires
                    self.total_nanos() == self.secs * 1_000_000_000 + self.nanos,
                    other.total_nanos() == other.secs * 1_000_000_000 + other.nanos,
                    0 <= self.nanos < 1_000_000_000,
                    0 <= other.nanos < 1_000_000_000,
            ;
        }
        self.secs > other.secs || (self.secs == other.secs && self.nanos > other.nanos)
    }

    /// Whether `self` and `other` are the same instant.
    pub fn same_instant(&self, other: &Timestamp) -> (r: bool)
        ensures
            r == (self.total_nanos() == other.total_nanos()),
            r == (*self == *other),
    {
        proof {
            use_type_invariant(self);
            use_type_invariant(other);
            assert(self.total_nanos() == other.total_nanos() <==> (self.secs == other.secs
                && self.nanos == other.nanos)) by (nonlinear_arith)
                requires
                    self.total_nanos() == self.secs * 1_000_000_000 + self.nanos,
                    other.total_nanos() == other.secs * 1_000_000_000 + other.nanos,
                    0 <= self.nanos < 1_000_000_000,
                    0 <= other.nanos < 1_000_000_000,
            ;
        }
        self.secs == other.secs && self.nanos == other.nanos
    }

    /// The calendar day (UTC) on which this instant falls.
    pub fn date_naive(&self) -> (r: Date)
        ensures
            r.day_number() == day_of_seconds(self.spec_secs()),
    {
        proof {
            use_type_invariant(self);
        }
        let day = day_index(self.secs);
        Date { days: (day + UNIX_EPOCH_DAY) as i32 }
    }
}

/// Whole seconds from `then` to `now`, truncated toward zero (negative when `now` is
/// earlier).
pub open spec fn seconds_between(then: Timestamp, now: Timestamp) -> int {
    let diff = now.total_nanos() - then.total_nanos();
    if diff >= 0 {
        diff / 1_000_000_000
    } else {
        -((-diff) / 1_000_000_000)
    }
}

/// The day number (from the Common Era) of the UTC day containing Unix second `secs`.
pub open spec fn day_of_seconds(secs: int) -> int {
    floor_div(secs, 86_400) + 719_163
}

/// Division rounding toward negative infinity.
pub open spec fn floor_div(a: int, b: int) -> int
    recommends
        b > 0,
{
    if a >= 0 {
        a / b
    } else {
        -((-a + b - 1) / b)
    }
}

/// The index of the UTC day containing Unix second `a` (day 0 starts at the epoch).
fn day_index(a: i64) -> (r: i64)
    requires
        -MAX_ABS_SECONDS <= a <= MAX_ABS_SECONDS,
    ensures
        r == floor_div(a as int, 86_400),
        -92_592_593 <= r <= 92_592_592,
{
    if a >= 0 {
        a / SECONDS_PER_DAY
    } else {
        -((-a + SECONDS_PER_DAY - 1) / SECONDS_PER_DAY)
    }
}

/// Whole seconds elapsed from `then` to `now`, truncated toward zero.
pub fn elapsed_seconds(then: &Timestamp, now: &Timestamp) -> (r: i64)
    ensures
        r == seconds_between(*then, *now),
        -2 * MAX_ABS_SECONDS - 1 <= r <= 2 * MAX_ABS_SECONDS + 1,
{
    proof {
        use_type_invariant(then);
        use_type_invariant(now);
        lemma_seconds_between_bounded(*then, *now);
        reveal_parts(*then);
        reveal_parts(*now);
    }
    let ds: i64 = now.secs - then.secs;
    let dn: i64 = now.nanos as i64 - then.nanos as i64;
    // Normalise to (secs, nanos) with nanos in [0, 1e9), then truncate toward zero.
    let (secs, nanos): (i64, i64) = if dn >= 0 {
        (ds, dn)
    } else {
        (ds - 1, dn + 1_000_000_000)
    };
    proof {
        let diff = now.total_nanos() - then.total_nanos();
        assert(diff == secs * 1_000_000_000 + nanos) by (nonlinear_arith)
            requires
                diff == now.spec_secs() * 1_000_000_000 + now.spec_nanos() - (then.spec_secs()
                    * 1_000_000_000 + then.spec_nanos()),
                ds == now.spec_secs() - then.spec_secs(),
                dn == now.spec_nanos() - then.spec_nanos(),
                (dn >= 0 ==> secs == ds && nanos == dn),
                (dn < 0 ==> secs == ds - 1 && nanos == dn + 1_000_000_000),
        ;
        lemma_truncate(diff, secs as int, nanos as int);
    }
    if secs < 0 && nanos > 0 {
        secs + 1
    } else {
        secs
    }
}

/// The seconds between two representable instants stay well within `i64`.
/// Moving `then` forward by no more whole seconds than have elapsed by `now` stays in
/// the representable range.
pub proof fn lemma_elapsed_instant_in_range(then: Timestamp, now: Timestamp, seconds: int)
    requires
        then.wf(),
        now.wf(),
        0 <= seconds <= seconds_between(then, now),
    ensures
        -MAX_ABS_SECONDS <= then.spec_secs() + seconds <= MAX_ABS_SECONDS,
{
    let diff = now.total_nanos() - then.total_nanos();
    if diff >= 0 {
        assert(then.spec_secs() + seconds <= now.spec_secs()) by (nonlinear_arith)
            requires
                diff == now.spec_secs() * 1_000_000_000 + now.spec_nanos() - (then.spec_secs()
                    * 1_000_000_000 + then.spec_nanos()),
                0 <= now.spec_nanos() < 1_000_000_000,
                0 <= then.spec_nanos() < 1_000_000_000,
                diff >= 0,
                seconds <= diff / 1_000_000_000,
        ;
    }
}

proof fn lemma_seconds_between_bounded(then: Timestamp, now: Timestamp)
    requires
        then.wf(),
        now.wf(),
    ensures
        -2 * MAX_ABS_SECONDS - 1 <= seconds_between(then, now) <= 2 * MAX_ABS_SECONDS + 1,
{
    let diff = now.total_nanos() - then.total_nanos();
    assert(-(2 * MAX_ABS_SECONDS + 1) * 1_000_000_000 <= diff <= (2 * MAX_ABS_SECONDS + 1)
        * 1_000_000_000) by (nonlinear_arith)
        requires
            diff == now.spec_secs() * 1_000_000_000 + now.spec_nanos() - (then.spec_secs()
                * 1_000_000_000 + then.spec_nanos()),
            -MAX_ABS_SECONDS <= now.spec_secs() <= MAX_ABS_SECONDS,
            -MAX_ABS_SECONDS <= then.spec_secs() <= MAX_ABS_SECONDS,
            0 <= now.spec_nanos() < 1_000_000_000,
            0 <= then.spec_nanos() < 1_000_000_000,
    ;
    if diff >= 0 {
        assert(diff / 1_000_000_000 <= 2 * MAX_ABS_SECONDS + 1) by (nonlinear_arith)
            requires
                0 <= diff <= (2 * MAX_ABS_SECONDS + 1) * 1_000_000_000,
        ;
    } else {
        assert((-diff) / 1_000_000_000 <= 2 * MAX_ABS_SECONDS + 1) by (nonlinear_arith)
            requires
                0 < -diff <= (2 * MAX_ABS_SECONDS + 1) * 1_000_000_000,
        ;
    }
}

proof fn reveal_parts(t: Timestamp)
    ensures
        t.spec_secs() == t.secs,
        t.spec_nanos() == t.nanos,
{
}

proof fn lemma_truncate(diff: int, secs: int, nanos: int)
    requires
        0 <= nanos < 1_000_000_000,
        diff == secs * 1_000_000_000 + nanos,
    ensures
        (if diff >= 0 {
            diff / 1_000_000_000
        } else {
            -((-diff) / 1_000_000_000)
        }) == (if secs < 0 && nanos > 0 {
            secs + 1
        } else {
            secs
        }),
{
    if diff >= 0 {
        assert(secs >= 0) by (nonlinear_arith)
            requires
                diff >= 0,
                diff == secs * 1_000_000_000 + nanos,
                nanos < 1_000_000_000,
        ;
        vstd::arithmetic::div_mod::lemma_fundamental_div_mod_converse(
            diff,
            1_000_000_000,
            secs,
            nanos,
        );
    } else {
        assert(secs < 0) by (nonlinear_arith)
            requires
                diff < 0,
                diff == secs * 1_000_000_000 + nanos,
                nanos >= 0,
        ;
        if nanos > 0 {
            // -diff == (-secs - 1) * 1e9 + (1e9 - nanos)
            vstd::arithmetic::div_mod::lemma_fundamental_div_mod_converse(
                -diff,
                1_000_000_000,
                -secs - 1,
                1_000_000_000 - nanos,
            );
        } else {
            vstd::arithmetic::div_mod::lemma_fundamental_div_mod_converse(
                -diff,
                1_000_000_000,
                -secs,
                0,
            );
        }
    }
}

/// Whether chrono's `NaiveDate::from_ymd_opt` accepts the given calendar fields, and
/// the day number (from the Common Era) of the date it builds.
pub uninterp spec fn chrono_ymd_day_number(year: i32, month: u32, day: u32) -> Option<i32>;

/// `NaiveDate::from_ymd_opt(year, month, day)` mapped to the date's
/// `num_days_from_ce()`; the contract says that the result is the named one, and that
/// a date chrono builds lies between its earliest and latest dates.
#[verifier::external_body]
fn chrono_ymd(year: i32, month: u32, day: u32) -> (r: Option<i32>)
    ensures
        r == chrono_ymd_day_number(year, month, day),
        r matches Some(n) ==> MIN_DAY_NUMBER <= n <= MAX_DAY_NUMBER,
{
    match chrono::NaiveDate::from_ymd_opt(year, month, day) {
        Some(date) => Some(chrono::Datelike::num_days_from_ce(&date)),
        None => None,
    }
}

/// The ISO `%Y-%m-%d` rendering chrono gives the date with the given day number.
pub uninterp spec fn chrono_iso_date(days_from_ce: i32) -> Seq<char>;

/// `NaiveDate::from_num_days_from_ce_opt(days)` formatted with `"%Y-%m-%d"`; the
/// contract says that the text is the named one. chrono accepts exactly the day
/// numbers between its earliest and latest dates, which `requires` asks for.
#[verifier::external_body]
fn chrono_format_ymd(days_from_ce: i32) -> (r: String)
    requires
        MIN_DAY_NUMBER <= days_from_ce <= MAX_DAY_NUMBER,
    ensures
        r@ == chrono_iso_date(days_from_ce),
{
    match chrono::NaiveDate::from_num_days_from_ce_opt(days_from_ce) {
        Some(date) => date.format("%Y-%m-%d").to_string(),
        None => String::new(),
    }
}

/// A calendar day, held as its day number counted from the Common Era.
#[derive(Clone, Copy, Debug, PartialEq, Eq, Structural)]
pub struct Date {
    days: i32,
}

impl Date {
    /// The date's day number from the Common Era (January 1 of year 1 is day 1).
    pub closed spec fn day_number(self) -> int {
        self.days as int
    }

    /// The representation invariant: a day of chrono's calendar.
    #[verifier::type_invariant]
    pub closed spec fn wf(self) -> bool {
        MIN_DAY_NUMBER <= self.days <= MAX_DAY_NUMBER
    }

    /// The date with the given year, month and day, or `None` if there is no such date
    /// in range.
    pub fn from_ymd_opt(year: i32, month: u32, day: u32) -> (r: Option<Date>)
        ensures
            r is Some == chrono_ymd_day_number(year, month, day) is Some,
            r matches Some(d) ==> d.day_number() == chrono_ymd_day_number(
                year,
                month,
                day,
            )->0,
    {
        match chrono_ymd(year, month, day) {
            Some(days) => Some(Date { days }),
            None => None,
        }
    }

    /// The date's day number from the Common Era.
    pub fn num_days_from_ce(&self) -> (r: i32)
        ensures
            r == self.day_number(),
    {
        self.days
    }

    /// Whether `self` falls strictly before `other`.
    pub fn is_before(&self, other: &Date) -> (r: bool)
        ensures
            r == (self.day_number() < other.day_number()),
    {
        self.days < other.days
    }

    /// The date rendered as `YYYY-MM-DD`.
    pub fn to_iso_string(&self) -> (r: String)
        ensures
            r@ == chrono_iso_date(self.day_number() as i32),
    {
        proof {
            use_type_invariant(self);
        }
        chrono_format_ymd(self.days)
    }
}

} // verus!
