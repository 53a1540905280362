//! How durations and points in time go together.

use vstd::prelude::*;

use crate::time::Duration;
use crate::time::SystemTime;

verus! {

/// A duration has the seconds and the nanoseconds that it is made of.
pub proof fn law_parts_of_a_duration(
    secs: u64,
    nanos: u32,
    d: Duration,
    whole: u64,
    rest: u32,
    all: u128,
)
    requires
        nanos < 1_000_000_000,
        call_ensures(Duration::from_parts, (secs, nanos), d),
        call_ensures(Duration::as_secs, (&d,), whole),
        call_ensures(Duration::subsec_nanos, (&d,), rest),
        call_ensures(Duration::as_nanos, (&d,), all),
    ensures
        whole == secs,
        rest == nanos,
        all == secs * 1_000_000_000 + nanos,
{
    let n = secs * 1_000_000_000 + nanos;
    assert(n / 1_000_000_000 == secs && n % 1_000_000_000 == nanos);
}

/// The same span is the same duration, whatever the unit in which it is given.
pub proof fn law_units_of_durations(
    n: u64,
    secs: Duration,
    millis: Duration,
    micros: Duration,
    nanos: Duration,
    zero: Duration,
)
    requires
        call_ensures(Duration::from_secs, (n,), secs),
        call_ensures(Duration::from_millis, (n,), millis),
        call_ensures(Duration::from_micros, (n,), micros),
        call_ensures(Duration::from_nanos, (n,), nanos),
        call_ensures(Duration::zero, (), zero),
    ensures
        zero@ == 0,
        nanos@ == n,
        micros@ == 1_000 * nanos@,
        millis@ == 1_000 * micros@,
        secs@ == 1_000 * millis@,
{
}

/// Microseconds are counted in full.
pub proof fn law_whole_microseconds(d: &Duration, n: u128)
    requires
        call_ensures(Duration::as_micros, (d,), n),
    ensures
        n * 1_000 <= d@ < (n + 1) * 1_000,
{
}

/// Two durations add up unless they are more than `u64::MAX` seconds and 999999999
/// nanoseconds together.
pub proof fn law_durations_add_up(a: Duration, b: Duration, sum: Option<Duration>, plus: Duration)
    requires
        call_ensures(Duration::checked_add, (a, b), sum),
        call_ensures(Duration::plus, (a, b), plus),
    ensures
        sum is Some <==> a@ + b@ <= 18_446_744_073_709_551_615_999_999_999,
        sum is Some ==> sum->0@ == a@ + b@,
        plus@ == a@ + b@,
{
}

/// One duration is shorter than another or it is not.
pub proof fn law_shorter_durations(a: &Duration, b: &Duration, less: bool, more: bool)
    requires
        call_ensures(Duration::is_shorter_than, (a, b), less),
        call_ensures(Duration::is_shorter_than, (b, a), more),
    ensures
        less <==> a@ < b@,
        !(less && more),
        !less && !more ==> a@ == b@,
{
}

/// The span from a point in time to one that is a duration later is that duration, and the
/// other way round there is none, unless it is zero.
pub proof fn law_time_goes_by(
    t: SystemTime,
    d: Duration,
    later: SystemTime,
    span: Option<Duration>,
    back: Option<Duration>,
    before: bool,
)
    requires
        call_ensures(SystemTime::plus, (&t, d), later),
        call_ensures(SystemTime::duration_since, (&later, t), span),
        call_ensures(SystemTime::duration_since, (&t, later), back),
        call_ensures(SystemTime::is_before, (&t, &later), before),
    ensures
        span is Some,
        span->0@ == d@,
        back is Some <==> d@ == 0,
        before <==> d@ > 0,
{
}

/// A later point in time exists unless it is more than `i64::MAX` seconds and 999999999
/// nanoseconds after the epoch.
pub proof fn law_points_in_time(t: SystemTime, d: Duration, later: Option<SystemTime>)
    requires
        call_ensures(SystemTime::checked_add, (&t, d), later),
    ensures
        later is Some <==> t@ + d@ <= 9_223_372_036_854_775_807_999_999_999,
        later is Some ==> later->0@ == t@ + d@,
{
}

/// A point in time is as many seconds and nanoseconds from the epoch as it is made of.
pub proof fn law_parts_of_a_time(
    secs: i64,
    nanos: u32,
    t: SystemTime,
    epoch: SystemTime,
    n: i128,
)
    requires
        nanos < 1_000_000_000,
        call_ensures(SystemTime::from_parts, (secs, nanos), t),
        call_ensures(SystemTime::unix_epoch, (), epoch),
        call_ensures(SystemTime::nanos_from_epoch, (&t,), n),
    ensures
        epoch@ == 0,
        t@ == secs * 1_000_000_000 + nanos,
        n == t@,
{
}

} // verus!
