//! Instants in UTC as plain numbers, the parsing of the timestamps that
//! Onionoo reports, and the whole days between two instants.

use vstd::prelude::*;

verus! {

/// An instant in UTC: whole seconds since 1970-01-01T00:00:00Z and the
/// nanoseconds past that second. As in chrono, `nanos` of a leap second is
/// 1_000_000_000 or more.
#[derive(Clone, Copy, Debug, PartialEq, Eq, Hash, Structural)]
pub struct Timestamp {
    pub secs: i64,
    pub nanos: u32,
}

/// The last second that a chrono `DateTime<Utc>` can hold (year 262142).
pub const MAX_UTC_SECS: i64 = 8210266876799;

pub open spec fn epoch() -> Timestamp {
    Timestamp { secs: 0, nanos: 0 }
}

pub open spec fn timestamp_of(t: (i64, u32)) -> Timestamp {
    Timestamp { secs: t.0, nanos: t.1 }
}

impl Timestamp {
    /// The Unix epoch, which is what `DateTime::<Utc>::default()` gives.
    pub fn epoch() -> (t: Timestamp)
        ensures
            t == epoch(),
    {
        Timestamp { secs: 0, nanos: 0 }
    }
}

// ---------------------------------------------------------------------------
// Parsing with chrono
// ---------------------------------------------------------------------------

/// The UTC instant (seconds, nanoseconds) of an RFC 3339 date and time, as
/// chrono's `DateTime::parse_from_rfc3339` reads it; `None` where it fails.
pub uninterp spec fn rfc3339_utc(text: Seq<char>) -> Option<(i64, u32)>;

/// The instant (seconds, nanoseconds) of a date and time without offset,
/// read with chrono's `NaiveDateTime::parse_from_str` under `format` and
/// taken as UTC; `None` where it fails.
pub uninterp spec fn naive_datetime_utc(text: Seq<char>, format: Seq<char>) -> Option<(i64, u32)>;

/// Calls chrono's `DateTime::parse_from_rfc3339` and takes the instant's
/// `timestamp()` and `timestamp_subsec_nanos()`. The contract only names
/// the result: chrono's grammar is not restated here.
#[verifier::external_body]
fn parse_rfc3339(text: &str) -> (r: Option<(i64, u32)>)
    ensures
        r == rfc3339_utc(text@),
{
    match chrono::DateTime::parse_from_rfc3339(text) {
        Ok(dt) => Some((dt.timestamp(), dt.timestamp_subsec_nanos())),
        Err(_) => None,
    }
}

/// Calls chrono's `NaiveDateTime::parse_from_str(text, format)` and takes
/// the `timestamp()` and `timestamp_subsec_nanos()` of the result read as
/// UTC (`and_utc`). The contract only names the result.
#[verifier::external_body]
fn parse_naive_utc(text: &str, format: &str) -> (r: Option<(i64, u32)>)
    ensures
        r == naive_datetime_utc(text@, format@),
{
    match chrono::NaiveDateTime::parse_from_str(text, format) {
        Ok(ndt) => {
            let dt = ndt.and_utc();
            Some((dt.timestamp(), dt.timestamp_subsec_nanos()))
        },
        Err(_) => None,
    }
}

/// Calls chrono's `Utc::now()`. The result depends on the clock; chrono
/// builds it from the system time since the Unix epoch (and panics where
/// the clock stands before it), so the seconds are not negative, the
/// nanoseconds are below one second, and the instant lies in chrono's range.
#[verifier::external_body]
pub(crate) fn utc_now() -> (t: Timestamp)
    ensures
        0 <= t.secs <= MAX_UTC_SECS,
        t.nanos < 1_000_000_000,
{
    let now = chrono::Utc::now();
    Timestamp { secs: now.timestamp(), nanos: now.timestamp_subsec_nanos() }
}

/// The format of the `first_seen` and `last_seen` fields of Onionoo.
pub open spec fn onionoo_time_format() -> Seq<char> {
    "%Y-%m-%d %H:%M:%S"@
}

/// An instant from an RFC 3339 reading if there is one, else from the
/// Onionoo-format reading, else the epoch.
pub open spec fn resolved_instant(rfc: Option<(i64, u32)>, plain: Option<(i64, u32)>) -> Timestamp {
    match rfc {
        Some(t) => timestamp_of(t),
        None => match plain {
            Some(t) => timestamp_of(t),
            None => epoch(),
        },
    }
}

/// Picks the instant that the two readings of a timestamp give.
pub fn resolve_instant(rfc: Option<(i64, u32)>, plain: Option<(i64, u32)>) -> (t: Timestamp)
    ensures
        t == resolved_instant(rfc, plain),
{
    match rfc {
        Some((secs, nanos)) => Timestamp { secs, nanos },
        None => match plain {
            Some((secs, nanos)) => Timestamp { secs, nanos },
            None => Timestamp::epoch(),
        },
    }
}

/// The instant of an optional Onionoo timestamp: read as RFC 3339 first,
/// then in the format `%Y-%m-%d %H:%M:%S` as UTC; the epoch where it is
/// missing or neither reading succeeds.
pub open spec fn seen_instant(text: Option<Seq<char>>) -> Timestamp {
    match text {
        None => epoch(),
        Some(t) => resolved_instant(rfc3339_utc(t), naive_datetime_utc(t, onionoo_time_format())),
    }
}

pub open spec fn opt_view(s: Option<String>) -> Option<Seq<char>> {
    match s {
        Some(x) => Some(x@),
        None => None,
    }
}

/// Reads an optional Onionoo timestamp.
pub fn seen_time(text: &Option<String>) -> (t: Timestamp)
    ensures
        t == seen_instant(opt_view(*text)),
{
    match text {
        None => Timestamp::epoch(),
        Some(s) => {
            let rfc = parse_rfc3339(s.as_str());
            match rfc {
                Some(_) => resolve_instant(rfc, None),
                None => {
                    let plain = parse_naive_utc(s.as_str(), "%Y-%m-%d %H:%M:%S");
                    resolve_instant(rfc, plain)
                },
            }
        },
    }
}

// ---------------------------------------------------------------------------
// Durations
// ---------------------------------------------------------------------------

pub open spec fn seconds_of_day(t: Timestamp) -> int {
    (t.secs as int) % 86400
}

/// One second that a leap second in `later` or `earlier` adds or takes
/// away, as chrono counts it between times of day.
pub open spec fn leap_adjustment(later: Timestamp, earlier: Timestamp) -> int {
    if seconds_of_day(later) > seconds_of_day(earlier) && earlier.nanos >= 1_000_000_000 {
        1
    } else if seconds_of_day(later) < seconds_of_day(earlier) && later.nanos >= 1_000_000_000 {
        -1
    } else {
        0
    }
}

/// chrono's `later.signed_duration_since(earlier)` as (seconds, nanoseconds),
/// with the nanoseconds in `0..1_000_000_000`.
pub open spec fn duration_between(later: Timestamp, earlier: Timestamp) -> (int, int) {
    let frac = later.nanos as int - earlier.nanos as int;
    (
        later.secs as int - earlier.secs as int + leap_adjustment(later, earlier) + frac / 1_000_000_000,
        frac % 1_000_000_000,
    )
}

/// `TimeDelta::num_seconds`: whole seconds, rounded toward zero.
pub open spec fn whole_seconds(d: (int, int)) -> int {
    if d.0 < 0 && d.1 > 0 {
        d.0 + 1
    } else {
        d.0
    }
}

/// Division by a day's seconds, rounded toward zero as Rust's `/` rounds.
pub open spec fn whole_days(secs: int) -> int {
    if secs >= 0 {
        secs / 86400
    } else {
        -((-secs) / 86400)
    }
}

/// The uptime that a relay record gives: the whole days from `first` to
/// `last` (chrono's `signed_duration_since(..).num_days()`), or 0 where that
/// is negative or does not fit in a `u32`.
pub open spec fn spec_uptime_days(first: Timestamp, last: Timestamp) -> u32 {
    let d = whole_days(whole_seconds(duration_between(last, first)));
    if 0 <= d <= u32::MAX {
        d as u32
    } else {
        0
    }
}

fn rem_euclid_i128(x: i128, d: i128) -> (r: i128)
    requires
        d > 0,
    ensures
        r as int == (x as int) % (d as int),
{
    match x.checked_rem_euclid(d) {
        Some(r) => r,
        None => 0,
    }
}

fn div_euclid_i128(x: i128, d: i128) -> (r: i128)
    requires
        d > 0,
    ensures
        r as int == (x as int) / (d as int),
{
    proof {
        if x >= 0 {
            assert(x as int / d as int <= x) by (nonlinear_arith)
                requires
                    x >= 0,
                    d > 0,
            ;
        } else {
            assert(x as int / d as int >= x) by (nonlinear_arith)
                requires
                    x < 0,
                    d > 0,
            ;
            assert(x as int / d as int <= 0) by (nonlinear_arith)
                requires
                    x < 0,
                    d > 0,
            ;
        }
    }
    match x.checked_div_euclid(d) {
        Some(r) => r,
        None => 0,
    }
}

/// The uptime in whole days from `first` to `last`, as a relay record gives it.
pub fn uptime_days(first: Timestamp, last: Timestamp) -> (days: u32)
    ensures
        days == spec_uptime_days(first, last),
{
    let sod_last = rem_euclid_i128(last.secs as i128, 86400);
    let sod_first = rem_euclid_i128(first.secs as i128, 86400);
    let adj: i128 = if sod_last > sod_first && first.nanos >= 1_000_000_000 {
        1
    } else if sod_last < sod_first && last.nanos >= 1_000_000_000 {
        -1
    } else {
        0
    };
    let frac: i128 = last.nanos as i128 - first.nanos as i128;
    let carry = div_euclid_i128(frac, 1_000_000_000);
    let nanos = rem_euclid_i128(frac, 1_000_000_000);
    proof {
        assert(-5_000_000_000 <= carry <= 5_000_000_000) by (nonlinear_arith)
            requires
                carry as int == frac as int / 1_000_000_000,
                -5_000_000_000 <= frac <= 5_000_000_000,
        ;
    }
    let secs: i128 = last.secs as i128 - first.secs as i128 + adj + carry;
    let whole: i128 = if secs < 0 && nanos > 0 {
        secs + 1
    } else {
        secs
    };
    let days: i128 = if whole >= 0 {
        div_euclid_i128(whole, 86400)
    } else {
        0 - div_euclid_i128(0 - whole, 86400)
    };
    proof {
        if whole >= 0 {
            assert(days <= whole) by (nonlinear_arith)
                requires
                    days as int == whole as int / 86400,
                    whole >= 0,
            ;
        }
    }
    if 0 <= days && days <= 4294967295 {
        days as u32
    } else {
        0
    }
}

/// chrono's `t + TimeDelta::hours(1)`: a leap second leaves its extra second.
pub open spec fn one_hour_later(t: Timestamp) -> Timestamp {
    Timestamp {
        secs: (t.secs + 3600) as i64,
        nanos: if t.nanos >= 1_000_000_000 {
            (t.nanos - 1_000_000_000) as u32
        } else {
            t.nanos
        },
    }
}

/// The instant one hour after `t`. chrono panics where the sum leaves its
/// range, so such `t` are not admitted.
pub fn add_one_hour(t: Timestamp) -> (r: Timestamp)
    requires
        t.secs + 3600 <= MAX_UTC_SECS,
    ensures
        r == one_hour_later(t),
{
    Timestamp {
        secs: t.secs + 3600,
        nanos: if t.nanos >= 1_000_000_000 {
            t.nanos - 1_000_000_000
        } else {
            t.nanos
        },
    }
}

} // verus!
