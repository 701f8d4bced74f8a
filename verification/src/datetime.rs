//! Date and time of day in UTC, durations in nanoseconds, and rounding to a multiple of a
//! duration.

use vstd::prelude::*;
use crate::date::{
    NaiveDate, days_from_ce, is_valid_date, min_days_from_ce, max_days_from_ce,
    law_days_from_ce_injective,
};

verus! {

/// Nanoseconds in one second.
pub const NANOS_PER_SEC: i64 = 1_000_000_000;

/// Day number (0001-01-01 being day 1) of 1970-01-01.
pub const UNIX_EPOCH_DAY: i64 = 719_163;

/// The largest duration in nanoseconds: `i64::MAX` milliseconds.
pub open spec fn max_delta_nanos() -> int {
    i64::MAX as int * 1_000_000
}

/// A signed duration with nanosecond precision.
#[derive(Clone, Copy, Debug, PartialEq, Eq, Structural)]
pub struct TimeDelta {
    secs: i64,
    nanos: i32,
}

impl View for TimeDelta {
    /// The length of the duration in nanoseconds.
    type V = int;

    closed spec fn view(&self) -> int {
        self.secs as int * 1_000_000_000 + self.nanos as int
    }
}

impl TimeDelta {
    #[verifier::type_invariant]
    spec fn inv(self) -> bool {
        &&& 0 <= self.nanos < 1_000_000_000
        &&& -max_delta_nanos() <= self@ <= max_delta_nanos()
    }

    /// The duration of length zero.
    pub fn zero() -> (d: TimeDelta)
        ensures
            d@ == 0,
    {
        TimeDelta { secs: 0, nanos: 0 }
    }

    /// The duration of `nanos` nanoseconds.
    pub fn nanoseconds(nanos: i64) -> (d: TimeDelta)
        ensures
            d@ == nanos,
    {
        // Split on whole seconds, rounding towards minus infinity.
        let shifted: u128 = (nanos as i128 + 10_000_000_000 * 1_000_000_000) as u128;
        let secs: i64 = ((shifted / 1_000_000_000) as i128 - 10_000_000_000) as i64;
        let sub: i32 = (shifted % 1_000_000_000) as i32;
        TimeDelta { secs, nanos: sub }
    }

    /// The length in nanoseconds.
    pub fn nanos_i128(&self) -> (n: i128)
        ensures
            n == self@,
            -max_delta_nanos() <= n <= max_delta_nanos(),
    {
        proof {
            use_type_invariant(self);
        }
        self.secs as i128 * 1_000_000_000 + self.nanos as i128
    }

    /// The duration of the same length in the other direction.
    pub fn negated(&self) -> (d: TimeDelta)
        ensures
            d@ == -self@,
    {
        proof {
            use_type_invariant(self);
        }
        if self.nanos == 0 {
            TimeDelta { secs: 0 - self.secs, nanos: 0 }
        } else {
            TimeDelta { secs: 0 - self.secs - 1, nanos: 1_000_000_000 - self.nanos }
        }
    }

    /// The length in nanoseconds, or `None` when it does not fit an `i64`.
    pub fn num_nanoseconds(&self) -> (n: Option<i64>)
        ensures
            n is Some <==> i64::MIN <= self@ <= i64::MAX,
            n matches Some(v) ==> v == self@,
    {
        proof {
            use_type_invariant(self);
        }
        let total: i128 = self.secs as i128 * 1_000_000_000 + self.nanos as i128;
        if total < i64::MIN as i128 || total > i64::MAX as i128 {
            None
        } else {
            Some(total as i64)
        }
    }
}

/// The time of day may be held in `(secs, frac)`: a second of the day and the nanoseconds
/// within it, which reach past one second during a leap second.
pub open spec fn is_valid_time(secs: int, frac: int) -> bool {
    &&& 0 <= secs < 86_400
    &&& 0 <= frac < 2_000_000_000
}

/// A leap second, as a clock reading gives it, follows second 59 of a minute.
pub open spec fn leap_second_at_minute_end(secs: int, frac: int) -> bool {
    frac >= 1_000_000_000 ==> secs % 60 == 59
}

/// Seconds from 1970-01-01T00:00:00 to the start of the second `secs` of day `day`.
pub open spec fn spec_timestamp(day: int, secs: int) -> int {
    (day - UNIX_EPOCH_DAY) * 86_400 + secs
}

/// Nanoseconds from 1970-01-01T00:00:00 to a moment `(day, secs, frac)`.
pub open spec fn instant_nanos(v: (int, int, int)) -> int {
    spec_timestamp(v.0, v.1) * 1_000_000_000 + v.2
}

/// The moment `n` nanoseconds after 1970-01-01T00:00:00, outside any leap second.
pub open spec fn from_instant(n: int) -> (int, int, int) {
    let secs = n / 1_000_000_000;
    (secs / 86_400 + UNIX_EPOCH_DAY, secs % 86_400, n % 1_000_000_000)
}

/// The whole seconds of `d` nanoseconds, rounded towards zero.
pub open spec fn trunc_secs(d: int) -> int {
    if d >= 0 {
        d / 1_000_000_000
    } else {
        -((-d) / 1_000_000_000)
    }
}

/// What remains of `d` nanoseconds after its whole seconds; it has the sign of `d`.
pub open spec fn trunc_frac(d: int) -> int {
    d - trunc_secs(d) * 1_000_000_000
}

/// Adding `d` nanoseconds to `v` leaves it inside the leap second it is in.
pub open spec fn stays_in_leap(v: (int, int, int), d: int) -> bool {
    &&& v.2 >= 1_000_000_000
    &&& trunc_secs(d) == 0
    &&& !(trunc_frac(d) > 0 && v.2 + trunc_frac(d) >= 2_000_000_000)
}

/// Adding `d` nanoseconds to `v` moves forward out of the leap second it is in; the leap
/// second then counts as the second that follows it.
pub open spec fn leaves_leap_forward(v: (int, int, int), d: int) -> bool {
    &&& v.2 >= 1_000_000_000
    &&& (trunc_secs(d) > 0 || (trunc_frac(d) > 0 && v.2 + trunc_frac(d) >= 2_000_000_000))
}

/// The moment `d` nanoseconds after `v`, or `None` when its day is out of range.
pub open spec fn spec_add(v: (int, int, int), d: int) -> Option<(int, int, int)> {
    if stays_in_leap(v, d) {
        Some((v.0, v.1, v.2 + trunc_frac(d)))
    } else {
        let n = instant_nanos(v) + d - (if leaves_leap_forward(v, d) { 1_000_000_000int } else { 0int });
        let w = from_instant(n);
        if min_days_from_ce() <= w.0 <= max_days_from_ce() {
            Some(w)
        } else {
            None
        }
    }
}

/// A date and a time of day, without time zone.
#[derive(Clone, Copy, Debug, PartialEq, Eq, Structural)]
pub struct NaiveDateTime {
    date: NaiveDate,
    secs: u32,
    frac: u32,
}

impl View for NaiveDateTime {
    /// The day number (0001-01-01 being day 1), the second of the day and the nanoseconds
    /// within it.
    type V = (int, int, int);

    closed spec fn view(&self) -> (int, int, int) {
        (days_from_ce(self.date@.0, self.date@.1), self.secs as int, self.frac as int)
    }
}

impl NaiveDateTime {
    #[verifier::type_invariant]
    spec fn inv(self) -> bool {
        is_valid_time(self.secs as int, self.frac as int)
    }

    /// The parts of the moment are in range.
    pub fn valid(&self)
        ensures
            is_valid_time(self@.1, self@.2),
            min_days_from_ce() <= self@.0 <= max_days_from_ce(),
    {
        proof {
            use_type_invariant(self);
        }
        let _ = self.date.num_days_from_ce();
    }

    /// The date.
    pub fn date(&self) -> (d: NaiveDate)
        ensures
            days_from_ce(d@.0, d@.1) == self@.0,
            is_valid_date(d@.0, d@.1),
    {
        let _ = self.date.ordinal();
        self.date
    }

    /// The second of the day.
    pub fn secs_of_day(&self) -> (s: u32)
        ensures
            s == self@.1,
            is_valid_time(self@.1, self@.2),
    {
        proof {
            use_type_invariant(self);
        }
        self.secs
    }

    /// The nanoseconds within the second; from one second up during a leap second.
    pub fn nanosecond(&self) -> (n: u32)
        ensures
            n == self@.2,
            is_valid_time(self@.1, self@.2),
    {
        proof {
            use_type_invariant(self);
        }
        self.frac
    }

    /// The day with number `day` at second `secs` and `frac` nanoseconds, when all are in range.
    pub fn from_parts(day: i64, secs: u32, frac: u32) -> (r: Option<NaiveDateTime>)
        ensures
            r is Some <==> (min_days_from_ce() <= day <= max_days_from_ce() && is_valid_time(secs as int, frac as int)),
            r matches Some(t) ==> t@ == (day as int, secs as int, frac as int),
    {
        if frac >= 2_000_000_000 || secs >= 86_400 {
            return None;
        }
        if day < i32::MIN as i64 || day > i32::MAX as i64 {
            proof {
                assert(max_days_from_ce() == 95745399);
                assert(min_days_from_ce() == -95746129);
            }
            return None;
        }
        match NaiveDate::from_num_days_from_ce_opt(day as i32) {
            Some(date) => Some(NaiveDateTime { date, secs, frac }),
            None => None,
        }
    }

    /// The moment `n` nanoseconds after 1970-01-01T00:00:00, when its day is in range.
    fn from_instant_exec(n: i128) -> (r: Option<NaiveDateTime>)
        requires
            -20_000_000_000_000_000_000_000_000 <= n <= 20_000_000_000_000_000_000_000_000,
        ensures
            r is Some <==> min_days_from_ce() <= from_instant(n as int).0 <= max_days_from_ce(),
            r matches Some(t) ==> t@ == from_instant(n as int),
    {
        // Shift by a whole number of days so that the divisions work on a non-negative number.
        let shifted: u128 = (n + 86_400_000_000_000 * 300_000_000_000) as u128;
        let total_secs: u128 = shifted / 1_000_000_000;
        let frac: u128 = shifted % 1_000_000_000;
        let day: i64 = ((total_secs / 86_400) as i128 - 300_000_000_000 + UNIX_EPOCH_DAY as i128) as i64;
        let secs: u128 = total_secs % 86_400;
        proof {
            let k: int = 86_400_000_000_000int * 300_000_000_000int;
            assert((n + k) / 1_000_000_000 == n / 1_000_000_000 + 86_400 * 300_000_000_000);
            assert((n + k) % 1_000_000_000 == n % 1_000_000_000);
            let s = n / 1_000_000_000;
            assert((s + 86_400 * 300_000_000_000) / 86_400 == s / 86_400 + 300_000_000_000);
            assert((s + 86_400 * 300_000_000_000) % 86_400 == s % 86_400);
        }
        NaiveDateTime::from_parts(day, secs as u32, frac as u32)
    }

    /// Nanoseconds from 1970-01-01T00:00:00 to this moment, counting a leap second as an
    /// overrun of the second before it.
    fn instant_exec(&self) -> (n: i128)
        ensures
            n == instant_nanos(self@),
            -10_000_000_000_000_000_000_000 <= n <= 10_000_000_000_000_000_000_000,
    {
        self.valid();
        let t = self.timestamp();
        t as i128 * 1_000_000_000 + self.frac as i128
    }

    /// The moment `rhs` later, or `None` when its day is out of range.
    ///
    /// From inside a leap second, moving forward out of it counts the leap second as the
    /// second that follows it; see `spec_add`.
    pub fn checked_add_signed(&self, rhs: TimeDelta) -> (r: Option<NaiveDateTime>)
        ensures
            r matches Some(t) ==> spec_add(self@, rhs@) == Some(t@),
            r is None ==> spec_add(self@, rhs@) is None,
    {
        proof {
            use_type_invariant(self);
        }
        let d: i128 = rhs.nanos_i128();
        let s_add: i128 = if d >= 0 {
            ((d as u128) / 1_000_000_000) as i128
        } else {
            0 - (((0 - d) as u128) / 1_000_000_000) as i128
        };
        let f_add: i128 = d - s_add * 1_000_000_000;
        let frac = self.frac as i128;
        if frac >= 1_000_000_000 && s_add == 0 && !(f_add > 0 && frac + f_add >= 2_000_000_000) {
            return Some(NaiveDateTime { date: self.date, secs: self.secs, frac: (frac + f_add) as u32 });
        }
        let forward = frac >= 1_000_000_000 && (s_add > 0 || (f_add > 0 && frac + f_add >= 2_000_000_000));
        let adjust: i128 = if forward { 1_000_000_000 } else { 0 };
        let n = self.instant_exec() + d - adjust;
        NaiveDateTime::from_instant_exec(n)
    }

    /// Seconds since 1970-01-01T00:00:00, not counting the leap second.
    pub fn timestamp(&self) -> (t: i64)
        ensures
            t == spec_timestamp(self@.0, self@.1),
    {
        proof {
            use_type_invariant(self);
        }
        let day = self.date.num_days_from_ce() as i64;
        proof {
            assert(max_days_from_ce() == 95745399);
            assert(min_days_from_ce() == -95746129);
        }
        (day - UNIX_EPOCH_DAY) * 86_400 + self.secs as i64
    }
}

/// `timestamp_nanos_opt` on the model: the nanoseconds since 1970-01-01T00:00:00, when the
/// computation in `i64` (moved by one second for moments before 1970) does not overflow.
pub open spec fn spec_timestamp_nanos_opt(v: (int, int, int)) -> Option<int> {
    let t = spec_timestamp(v.0, v.1);
    let whole = if t < 0 { t + 1 } else { t };
    let sub = if t < 0 { v.2 - 1_000_000_000 } else { v.2 };
    if i64::MIN <= whole * 1_000_000_000 <= i64::MAX && i64::MIN <= whole * 1_000_000_000 + sub <= i64::MAX {
        Some(whole * 1_000_000_000 + sub)
    } else {
        None
    }
}

/// Why rounding to a duration failed.
#[derive(Clone, Copy, Debug, PartialEq, Eq, Structural)]
pub enum RoundingError {
    /// The duration is longer than the distance of the moment from 1970-01-01T00:00:00.
    DurationExceedsTimestamp,
    /// The duration is not positive or does not fit an `i64` in nanoseconds.
    DurationExceedsLimit,
    /// The moment does not fit an `i64` in nanoseconds since 1970-01-01T00:00:00.
    TimestampExceedsLimit,
}

/// `stamp` rounded to the nearest multiple of `span`; halfway rounds up.
pub open spec fn round_to_multiple(stamp: int, span: int) -> int {
    let m = stamp % span;
    if m == 0 {
        stamp
    } else if span - m <= m {
        stamp + (span - m)
    } else {
        stamp - m
    }
}

/// `duration_round` on the model.
pub open spec fn spec_duration_round(v: (int, int, int), span: int) -> Result<(int, int, int), RoundingError> {
    if span < i64::MIN || span > i64::MAX || span <= 0 {
        Err(RoundingError::DurationExceedsLimit)
    } else {
        match spec_timestamp_nanos_opt(v) {
            None => Err(RoundingError::TimestampExceedsLimit),
            Some(stamp) => if span > (if stamp < 0 { -stamp } else { stamp }) {
                Err(RoundingError::DurationExceedsTimestamp)
            } else {
                let m = stamp % span;
                if m == 0 {
                    Ok(v)
                } else if span - m <= m {
                    Ok(spec_add(v, span - m)->0)
                } else {
                    Ok(spec_add(v, -m)->0)
                }
            },
        }
    }
}

/// A moment in UTC.
#[derive(Clone, Copy, Debug, PartialEq, Eq, Structural)]
pub struct DateTimeUtc {
    datetime: NaiveDateTime,
}

impl View for DateTimeUtc {
    /// The day number, second of the day and nanoseconds of the moment in UTC.
    type V = (int, int, int);

    closed spec fn view(&self) -> (int, int, int) {
        self.datetime@
    }
}

/// Seconds and nanoseconds that `from_timestamp` turns into a moment: the nanoseconds reach
/// past one second only for a leap second, and the day is in range.
pub open spec fn timestamp_in_range(secs: int, nsecs: int) -> bool {
    &&& is_valid_time(secs % 86_400, nsecs)
    &&& leap_second_at_minute_end(secs % 86_400, nsecs)
    &&& min_days_from_ce() <= secs / 86_400 + UNIX_EPOCH_DAY <= max_days_from_ce()
}

impl DateTimeUtc {
    /// The moment `secs` seconds and `nsecs` nanoseconds after 1970-01-01T00:00:00 UTC.
    pub fn from_timestamp(secs: i64, nsecs: u32) -> (r: Option<DateTimeUtc>)
        ensures
            r is Some <==> timestamp_in_range(secs as int, nsecs as int),
            r matches Some(t) ==> t@ == ((secs as int) / 86_400 + UNIX_EPOCH_DAY, (secs as int) % 86_400, nsecs as int),
    {
        let shifted: u128 = (secs as i128 + 86_400 * 200_000_000_000_000) as u128;
        let day: i64 = ((shifted / 86_400) as i128 - 200_000_000_000_000 + UNIX_EPOCH_DAY as i128) as i64;
        let sod: u32 = (shifted % 86_400) as u32;
        proof {
            let k: int = 86_400int * 200_000_000_000_000int;
            assert((secs + k) / 86_400 == secs / 86_400 + 200_000_000_000_000);
            assert((secs + k) % 86_400 == secs % 86_400);
        }
        if nsecs >= 1_000_000_000 && sod % 60 != 59 {
            return None;
        }
        match NaiveDateTime::from_parts(day, sod, nsecs) {
            Some(datetime) => Some(DateTimeUtc { datetime }),
            None => None,
        }
    }

    /// The date and time of day in UTC.
    pub fn naive_utc(&self) -> (t: NaiveDateTime)
        ensures
            t@ == self@,
    {
        self.datetime
    }

    /// Seconds since 1970-01-01T00:00:00 UTC, not counting the leap second.
    pub fn timestamp(&self) -> (t: i64)
        ensures
            t == spec_timestamp(self@.0, self@.1),
    {
        self.datetime.timestamp()
    }

    /// Nanoseconds since 1970-01-01T00:00:00 UTC, or `None` when they do not fit an `i64`.
    pub fn timestamp_nanos_opt(&self) -> (n: Option<i64>)
        ensures
            n matches Some(v) ==> spec_timestamp_nanos_opt(self@) == Some(v as int),
            n is None ==> spec_timestamp_nanos_opt(self@) is None,
    {
        self.datetime.valid();
        let mut timestamp = self.timestamp();
        let mut subsec: i64 = self.datetime.nanosecond() as i64;
        if timestamp < 0 {
            subsec = subsec - 1_000_000_000;
            timestamp = timestamp + 1;
        }
        match timestamp.checked_mul(1_000_000_000) {
            Some(whole) => whole.checked_add(subsec),
            None => None,
        }
    }

    /// The moment `rhs` later, or `None` when its day is out of range.
    pub fn checked_add_signed(&self, rhs: TimeDelta) -> (r: Option<DateTimeUtc>)
        ensures
            r matches Some(t) ==> spec_add(self@, rhs@) == Some(t@),
            r is None ==> spec_add(self@, rhs@) is None,
    {
        match self.datetime.checked_add_signed(rhs) {
            Some(datetime) => Some(DateTimeUtc { datetime }),
            None => None,
        }
    }

    /// The moment `rhs` earlier, or `None` when its day is out of range.
    pub fn checked_sub_signed(&self, rhs: TimeDelta) -> (r: Option<DateTimeUtc>)
        ensures
            r matches Some(t) ==> spec_add(self@, -rhs@) == Some(t@),
            r is None ==> spec_add(self@, -rhs@) is None,
    {
        self.checked_add_signed(rhs.negated())
    }

    /// This moment rounded to the nearest multiple of `duration` since 1970-01-01T00:00:00,
    /// halfway rounding up.
    ///
    /// A duration that is not positive, or not an `i64` in nanoseconds, gives
    /// `DurationExceedsLimit`; a moment not an `i64` in nanoseconds gives
    /// `TimestampExceedsLimit`; a duration longer than the distance from 1970 gives
    /// `DurationExceedsTimestamp`. The step to the multiple is added as `checked_add_signed`
    /// adds, so a moment inside a leap second moves as `spec_add` says.
    pub fn duration_round(&self, duration: TimeDelta) -> (r: Result<DateTimeUtc, RoundingError>)
        requires
            spec_timestamp_nanos_opt(self@) != Some(i64::MIN as int),
        ensures
            r matches Ok(t) ==> spec_duration_round(self@, duration@) == Ok::<(int, int, int), RoundingError>(t@),
            r matches Err(e) ==> spec_duration_round(self@, duration@) == Err::<(int, int, int), RoundingError>(e),
    {
        let span = match duration.num_nanoseconds() {
            Some(v) => v,
            None => return Err(RoundingError::DurationExceedsLimit),
        };
        if span <= 0 {
            return Err(RoundingError::DurationExceedsLimit);
        }
        self.datetime.valid();
        let stamp = match self.timestamp_nanos_opt() {
            Some(v) => v,
            None => return Err(RoundingError::TimestampExceedsLimit),
        };
        let magnitude: i64 = if stamp < 0 { 0 - stamp } else { stamp };
        if span > magnitude {
            return Err(RoundingError::DurationExceedsTimestamp);
        }
        // The remainder of `stamp / span` rounded towards zero: it has the sign of `stamp`.
        let delta_down: i64 = if stamp < 0 { 0 - (magnitude % span) } else { stamp % span };
        proof {
            lemma_round_bounds(self@, stamp as int, span as int);
        }
        if delta_down == 0 {
            return Ok(*self);
        }
        let (delta_up, delta_down) = if delta_down < 0 {
            (0 - delta_down, span - (0 - delta_down))
        } else {
            (span - delta_down, delta_down)
        };
        if delta_up <= delta_down {
            let t = self.checked_add_signed(TimeDelta::nanoseconds(delta_up));
            Ok(t.unwrap())
        } else {
            let t = self.checked_sub_signed(TimeDelta::nanoseconds(delta_down));
            Ok(t.unwrap())
        }
    }
}

/// Rounding to a duration of length zero is always refused with `DurationExceedsLimit`.
pub proof fn law_round_to_zero_is_refused(v: (int, int, int))
    ensures
        spec_duration_round(v, 0) == Err::<(int, int, int), RoundingError>(RoundingError::DurationExceedsLimit),
{
}

/// `from_instant` gives back the nanoseconds it was made from, outside any leap second.
pub proof fn lemma_from_instant(n: int)
    ensures
        instant_nanos(from_instant(n)) == n,
        0 <= from_instant(n).2 < 1_000_000_000,
        0 <= from_instant(n).1 < 86_400,
{
    let secs = n / 1_000_000_000;
    assert(secs * 1_000_000_000 + n % 1_000_000_000 == n);
    assert((secs / 86_400) * 86_400 + secs % 86_400 == secs);
}

/// Rounding a moment outside a leap second gives the multiple of the span nearest to it
/// (halfway rounding up), again outside a leap second.
pub proof fn law_round_gives_nearest_multiple(v: (int, int, int), span: int)
    requires
        v.2 < 1_000_000_000,
        spec_duration_round(v, span) is Ok,
    ensures
        instant_nanos(spec_duration_round(v, span)->Ok_0) == round_to_multiple(instant_nanos(v), span),
        round_to_multiple(instant_nanos(v), span) % span == 0,
        spec_duration_round(v, span)->Ok_0.2 < 1_000_000_000,
{
    let stamp = spec_timestamp_nanos_opt(v)->0;
    assert(stamp == instant_nanos(v));
    let m = stamp % span;
    if m != 0 {
        let d = if span - m <= m { span - m } else { -m };
        assert(!stays_in_leap(v, d));
        assert(!leaves_leap_forward(v, d));
        lemma_from_instant(stamp + d);
        let q = stamp / span;
        assert(stamp == q * span + m) by (nonlinear_arith)
            requires
                q == stamp / span,
                m == stamp % span,
                span > 0,
        ;
        if span - m <= m {
            assert(stamp + d == (q + 1) * span) by (nonlinear_arith)
                requires
                    stamp == q * span + m,
                    d == span - m,
            ;
            assert((stamp + d) % span == 0) by (nonlinear_arith)
                requires
                    stamp + d == (q + 1) * span,
                    span > 0,
            ;
        } else {
            assert(stamp + d == q * span) by (nonlinear_arith)
                requires
                    stamp == q * span + m,
                    d == -m,
            ;
            assert((stamp + d) % span == 0) by (nonlinear_arith)
                requires
                    stamp + d == q * span,
                    span > 0,
            ;
        }
    }
}

/// The moment made from a timestamp has that timestamp.
pub proof fn law_from_timestamp_round_trip(secs: int, nsecs: int)
    ensures
        spec_timestamp(secs / 86_400 + UNIX_EPOCH_DAY, secs % 86_400) == secs,
{
}

/// The Euclidean and the truncated remainders of `stamp / span` agree, and a step of less
/// than one span from `stamp` stays on a day in range.
proof fn lemma_round_bounds(v: (int, int, int), stamp: int, span: int)
    requires
        0 < span <= (if stamp < 0 { -stamp } else { stamp }),
        stamp <= i64::MAX,
        stamp > i64::MIN,
        min_days_from_ce() <= v.0 <= max_days_from_ce(),
        is_valid_time(v.1, v.2),
        instant_nanos(v) == stamp,
    ensures
        stamp >= 0 ==> stamp % span == (stamp as nat % span as nat),
        stamp < 0 ==> (if (-stamp) % span == 0 { stamp % span == 0 } else { stamp % span == span - (-stamp) % span }),
        forall|d: int| -span <= d <= span ==> (#[trigger] spec_add(v, d)) is Some,
{
    if stamp < 0 {
        let a = -stamp;
        let q = a / span;
        let r = a % span;
        assert(a == q * span + r) by (nonlinear_arith)
            requires
                q == a / span,
                r == a % span,
                span > 0,
        ;
        if r == 0 {
            assert(stamp == (-q) * span) by (nonlinear_arith)
                requires
                    a == q * span + r,
                    r == 0,
                    stamp == -a,
            ;
            assert(stamp % span == 0) by (nonlinear_arith)
                requires
                    stamp == (-q) * span,
                    span > 0,
            ;
        } else {
            assert(stamp == (-q - 1) * span + (span - r)) by (nonlinear_arith)
                requires
                    a == q * span + r,
                    stamp == -a,
            ;
            assert(stamp % span == span - r) by (nonlinear_arith)
                requires
                    stamp == (-q - 1) * span + (span - r),
                    0 < span - r < span,
            ;
        }
    }
    assert forall|d: int| -span <= d <= span implies (#[trigger] spec_add(v, d)) is Some by {
        assert(max_days_from_ce() == 95745399);
        assert(min_days_from_ce() == -95746129);
        let n = instant_nanos(v) + d - (if leaves_leap_forward(v, d) { 1_000_000_000int } else { 0int });
        assert(-20_000_000_000_000_000_000 <= n <= 20_000_000_000_000_000_000);
        let secs = n / 1_000_000_000;
        assert(-20_000_000_001 <= secs <= 20_000_000_000);
        assert(-300_000 <= secs / 86_400 <= 300_000);
    }
}

/// The UTC moment of the local moment `v` at `offset` seconds east of UTC, or `None` when
/// its day is out of range.
pub open spec fn spec_local_to_utc(v: (int, int, int), offset: int) -> Option<(int, int, int)> {
    let t = v.1 - offset;
    let day = v.0 + t / 86_400;
    if min_days_from_ce() <= day <= max_days_from_ce() {
        Some((day, t % 86_400, v.2))
    } else {
        None
    }
}

/// A moment together with the fixed offset from UTC at which it is seen.
#[derive(Clone, Copy, Debug, PartialEq, Eq, Structural)]
pub struct DateTimeOffset {
    utc: NaiveDateTime,
    offset: i32,
}

impl View for DateTimeOffset {
    /// The moment in UTC and the offset in seconds east of UTC.
    type V = ((int, int, int), int);

    closed spec fn view(&self) -> ((int, int, int), int) {
        (self.utc@, self.offset as int)
    }
}

impl DateTimeOffset {
    #[verifier::type_invariant]
    spec fn inv(self) -> bool {
        -86_400 < self.offset < 86_400
    }

    /// The moment whose local date and time at `offset` seconds east of UTC is `local`, or
    /// `None` when its day in UTC is out of range.
    pub fn from_local(local: NaiveDateTime, offset: i32) -> (r: Option<DateTimeOffset>)
        requires
            -86_400 < offset < 86_400,
        ensures
            r matches Some(t) ==> spec_local_to_utc(local@, offset as int) == Some(t@.0) && t@.1 == offset,
            r is None ==> spec_local_to_utc(local@, offset as int) is None,
    {
        local.valid();
        let day = local.date().num_days_from_ce() as i64;
        let t: i64 = local.secs_of_day() as i64 - offset as i64;
        // Euclidean split of `t`, which lies between -86_400 and 172_800.
        let (carry, secs): (i64, i64) = if t < 0 {
            (-1, t + 86_400)
        } else if t >= 86_400 {
            (1, t - 86_400)
        } else {
            (0, t)
        };
        match NaiveDateTime::from_parts(day + carry, secs as u32, local.nanosecond()) {
            Some(utc) => Some(DateTimeOffset { utc, offset }),
            None => None,
        }
    }

    /// The moment in UTC.
    pub fn naive_utc(&self) -> (t: NaiveDateTime)
        ensures
            t@ == self@.0,
    {
        self.utc
    }

    /// The offset from UTC in seconds, east positive.
    pub fn offset_seconds(&self) -> (o: i32)
        ensures
            o == self@.1,
            -86_400 < o < 86_400,
    {
        proof {
            use_type_invariant(self);
        }
        self.offset
    }
}

} // verus!
