//! Wall-clock and monotonic time, and the `YYYY-MM-DD` labels of changelog
//! entries.
//!
//! Reading a clock gives whatever the machine says, so nothing is promised of
//! the values read; the date label is an exact function of the seconds.

use vstd::prelude::*;
use std::time::{Duration, Instant, SystemTime};
use crate::text::{decimal, string_of, zero_pad, zero_padded_chars};

verus! {

#[verifier::external_type_specification]
#[verifier::external_body]
pub struct ExSystemTime(SystemTime);

#[verifier::external_type_specification]
#[verifier::external_body]
pub struct ExInstant(Instant);

/// `SystemTime::now`: the current wall-clock time.
#[verifier::external_body]
fn system_time_now() -> SystemTime {
    SystemTime::now()
}

/// `SystemTime::duration_since(UNIX_EPOCH)`: `None` when the clock reads a
/// time before the epoch.
#[verifier::external_body]
fn since_unix_epoch(t: &SystemTime) -> Option<Duration> {
    t.duration_since(std::time::UNIX_EPOCH).ok()
}

/// `Duration::as_secs`: whole seconds of the duration.
#[verifier::external_body]
fn whole_secs(d: &Duration) -> u64 {
    d.as_secs()
}

/// `Duration::as_millis`, truncated to 64 bits.
#[verifier::external_body]
fn whole_millis(d: &Duration) -> u64 {
    d.as_millis() as u64
}

/// `Instant::now`: a reading of the monotonic clock.
#[verifier::external_body]
pub(crate) fn instant_now() -> Instant {
    Instant::now()
}

/// `Instant::elapsed`: time passed since the reading `i`.
#[verifier::external_body]
fn instant_elapsed(i: &Instant) -> Duration {
    i.elapsed()
}

/// Whole seconds since the Unix epoch (0 if the clock is before it).
pub(crate) fn unix_secs_now() -> u64 {
    let now = system_time_now();
    match since_unix_epoch(&now) {
        Some(d) => whole_secs(&d),
        None => 0,
    }
}

/// Milliseconds since the Unix epoch (0 if the clock is before it).
pub(crate) fn unix_millis_now() -> u64 {
    let now = system_time_now();
    match since_unix_epoch(&now) {
        Some(d) => whole_millis(&d),
        None => 0,
    }
}

/// Milliseconds elapsed since `started`.
pub(crate) fn elapsed_ms(started: &Instant) -> u64 {
    let d = instant_elapsed(started);
    whole_millis(&d)
}

/// Proleptic Gregorian `(year, month, day)` of the day `days` days after
/// 1970-01-01, by the days-to-civil conversion over 400-year eras.
pub open spec fn civil_from_days(days: int) -> (int, int, int) {
    let z = days + 719468;
    let era = z / 146097;
    let doe = z - era * 146097;
    let yoe = (doe - doe / 1460 + doe / 36524 - doe / 146096) / 365;
    let y = yoe + era * 400;
    let doy = doe - (365 * yoe + yoe / 4 - yoe / 100);
    let mp = (5 * doy + 2) / 153;
    let d = doy - (153 * mp + 2) / 5 + 1;
    let m = if mp < 10 {
        mp + 3
    } else {
        mp - 9
    };
    (if m <= 2 {
        y + 1
    } else {
        y
    }, m, d)
}

/// `YYYY-MM-DD` label (UTC) of a Unix time in seconds.
pub open spec fn date_label(secs: u64) -> Seq<char> {
    let (y, m, d) = civil_from_days(secs as int / 86400);
    zero_pad(decimal(y as nat), 4) + seq!['-'] + zero_pad(decimal(m as nat), 2) + seq!['-']
        + zero_pad(decimal(d as nat), 2)
}

/// Within an era, the year-of-era and day-of-year bounds.
proof fn lemma_era_bounds(doe: u64)
    requires
        doe <= 146096,
    ensures
        ({
            let yoe = (doe - doe / 1460 + doe / 36524 - doe / 146096) / 365;
            &&& 0 <= doe - doe / 1460 + doe / 36524 - doe / 146096
            &&& yoe <= 399
            &&& 365 * yoe + yoe / 4 - yoe / 100 <= doe
            &&& doe - (365 * yoe + yoe / 4 - yoe / 100) <= 365
        }),
{
    assert(({
        let yoe = (doe - doe / 1460 + doe / 36524 - doe / 146096) / 365;
        &&& 0 <= doe - doe / 1460 + doe / 36524 - doe / 146096
        &&& yoe <= 399
        &&& 365 * yoe + yoe / 4 - yoe / 100 <= doe
        &&& doe - (365 * yoe + yoe / 4 - yoe / 100) <= 365
    })) by (bit_vector)
        requires
            doe <= 146096,
    ;
}

/// Month-of-year and day-of-month bounds from a day-of-year.
proof fn lemma_month_bounds(doy: u64)
    requires
        doy <= 365,
    ensures
        ({
            let mp = (5 * doy + 2) / 153;
            &&& mp <= 11
            &&& (153 * mp + 2) / 5 <= doy
            &&& doy - (153 * mp + 2) / 5 + 1 <= 31
        }),
{
    assert(({
        let mp = (5 * doy + 2) / 153;
        &&& mp <= 11
        &&& (153 * mp + 2) / 5 <= doy
        &&& doy - (153 * mp + 2) / 5 + 1 <= 31
    })) by (bit_vector)
        requires
            doy <= 365,
    ;
}

/// Civil date of `secs` as `YYYY-MM-DD`, computed exactly.
pub fn date_string_from_secs(secs: u64) -> (r: String)
    ensures
        r@ == date_label(secs),
{
    let days = secs / 86400;
    let z: u64 = days + 719468;
    let era = z / 146097;
    let doe = z % 146097;
    proof {
        assert(z == era * 146097 + doe) by (nonlinear_arith)
            requires
                era == z / 146097,
                doe == z % 146097,
        ;
        lemma_era_bounds(doe);
    }
    let yoe = (doe - doe / 1460 + doe / 36524 - doe / 146096) / 365;
    assert(era * 400 <= z) by (nonlinear_arith)
        requires
            era == z / 146097,
    ;
    let y = yoe + era * 400;
    let doy = doe - (365 * yoe + yoe / 4 - yoe / 100);
    proof {
        lemma_month_bounds(doy);
    }
    let mp = (5 * doy + 2) / 153;
    let d = doy - (153 * mp + 2) / 5 + 1;
    let m = if mp < 10 { mp + 3 } else { mp - 9 };
    let y = if m <= 2 { y + 1 } else { y };
    assert((y as int, m as int, d as int) == civil_from_days(secs as int / 86400));
    let yv = zero_padded_chars(y, 4);
    let mv = zero_padded_chars(m, 2);
    let dv = zero_padded_chars(d, 2);
    let mut out = string_of(&yv);
    crate::text::push_chars(&mut out, &['-']);
    crate::text::push_chars(&mut out, &mv);
    crate::text::push_chars(&mut out, &['-']);
    crate::text::push_chars(&mut out, &dv);
    proof {
        assert(['-']@ =~= seq!['-']);
    }
    out
}

/// Today's date label (UTC) from the system clock.
pub fn chrono_date_string() -> (r: String)
    ensures
        exists|secs: u64| r@ == date_label(secs),
{
    let secs = unix_secs_now();
    date_string_from_secs(secs)
}

} // verus!
