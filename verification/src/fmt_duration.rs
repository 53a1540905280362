//! Human-readable durations.

use vstd::prelude::*;

use crate::binary64;
use crate::text;
use crate::time::Duration;

verus! {

/// A count of tenths, with one digit after the decimal point.
pub open spec fn tenths_text(v: nat) -> Seq<char> {
    text::decimal(v / 10) + "."@ + text::decimal(v % 10)
}

/// A count of hundredths, with two digits after the decimal point.
pub open spec fn hundredths_text(v: nat) -> Seq<char> {
    text::decimal(v / 100) + "."@ + text::decimal2(v % 100)
}

/// `ns` nanoseconds in adaptive units. From a microsecond up the number shown is the
/// double nearest to `ns` over the unit, rounded to one digit (two for seconds).
pub open spec fn precise_text(ns: nat) -> Seq<char> {
    if ns == 0 {
        "0"@
    } else if ns < 1_000 {
        text::decimal(ns) + "ns"@
    } else if ns < 1_000_000 {
        tenths_text(binary64::fixed_point(binary64::int_quotient(ns, 1_000), 10)) + "µs"@
    } else if ns < 1_000_000_000 {
        tenths_text(binary64::fixed_point(binary64::int_quotient(ns, 1_000_000), 10)) + "ms"@
    } else {
        hundredths_text(binary64::fixed_point(binary64::int_quotient(ns, 1_000_000_000), 100))
            + "s"@
    }
}

/// `ns` nanoseconds to the nearest tenth of a second, half up. Spans past `u64::MAX`
/// nanoseconds, and spans that rounding takes past it, count as that many.
pub open spec fn tenths_of_second(ns: nat) -> nat {
    let rounded = ns + 50_000_000;
    if rounded <= u64::MAX {
        rounded / 100_000_000
    } else {
        u64::MAX as nat / 100_000_000
    }
}

/// A count of tenths of a second as `h:mm:ss.t`, without the hours or the minutes
/// when they would lead with zero.
pub open spec fn clock_text(tenths: nat) -> Seq<char> {
    let tenth = text::decimal(tenths % 10);
    let secs = tenths / 10;
    let mins = tenths / 600;
    let hours = tenths / 36_000;
    if hours != 0 {
        text::decimal(hours) + ":"@ + text::decimal2(mins % 60) + ":"@ + text::decimal2(secs % 60)
            + "."@ + tenth + "s"@
    } else if mins != 0 {
        text::decimal(mins) + ":"@ + text::decimal2(secs % 60) + "."@ + tenth + "s"@
    } else {
        text::decimal(secs) + "."@ + tenth + "s"@
    }
}

/// Format a duration in adaptive, human-readable units (ns/µs/ms/s).
///
/// Unlike [`fmt_duration`], which rounds to tenths of a second (and so renders
/// anything under ~50ms as `0.0s`), this keeps sub-second values legible by
/// picking a unit per value. Use it when durations span a wide range down to the
/// microsecond, such as the nodes of a critical path.
pub fn fmt_duration_precise(d: Duration) -> (out: String)
    ensures
        out@ == precise_text(d@),
{
    let ns: u128 = d.as_nanos();
    let mut out = String::new();
    if ns == 0 {
        out.append("0");
    } else if ns < 1_000 {
        text::push_decimal(&mut out, ns);
        out.append("ns");
    } else if ns < 1_000_000 {
        push_tenths(&mut out, binary64::fixed_quotient(ns, 1_000, 10));
        out.append("µs");
    } else if ns < 1_000_000_000 {
        push_tenths(&mut out, binary64::fixed_quotient(ns, 1_000_000, 10));
        out.append("ms");
    } else {
        let v: u128 = binary64::fixed_quotient(ns, 1_000_000_000, 100);
        text::push_decimal(&mut out, v / 100);
        out.append(".");
        text::push_decimal2(&mut out, v % 100);
        out.append("s");
    }
    out
}

fn push_tenths(out: &mut String, v: u128)
    ensures
        final(out)@ == old(out)@ + tenths_text(v as nat),
{
    text::push_decimal(out, v / 10);
    out.append(".");
    text::push_decimal(out, v % 10);
}

/// Format a duration to the nearest tenth of a second, as `s.t`, `m:ss.t` or
/// `h:mm:ss.t`.
pub fn fmt_duration(elapsed: Duration) -> (out: String)
    ensures
        out@ == clock_text(tenths_of_second(elapsed@)),
{
    let total: u128 = elapsed.as_nanos();
    let nanos: u64 = if total <= u64::MAX as u128 {
        total as u64
    } else {
        u64::MAX
    };
    let rounded: u64 = nanos.saturating_add(50_000_000);  // Round up.
    let subsec: u64 = rounded % 1_000_000_000;
    let secs: u64 = rounded / 1_000_000_000;
    let mins: u64 = secs / 60;
    let secs_of_min: u64 = secs % 60;
    let hours: u64 = mins / 60;
    let mins_of_hour: u64 = mins % 60;
    let mut out = String::new();
    if hours != 0 {
        text::push_decimal(&mut out, hours as u128);
        out.append(":");
        text::push_decimal2(&mut out, mins_of_hour as u128);
        out.append(":");
        text::push_decimal2(&mut out, secs_of_min as u128);
    } else if mins != 0 {
        text::push_decimal(&mut out, mins as u128);
        out.append(":");
        text::push_decimal2(&mut out, secs_of_min as u128);
    } else {
        text::push_decimal(&mut out, secs as u128);
    }
    out.append(".");
    text::push_decimal(&mut out, (subsec / 100_000_000) as u128);
    out.append("s");
    out
}

/// `fraction` as digits behind the decimal point, the first of which counts `unit`s,
/// without trailing zeros.
pub open spec fn fraction_digits(fraction: nat, unit: nat) -> Seq<char>
    decreases unit,
{
    if fraction == 0 || unit == 0 {
        seq![]
    } else {
        seq![text::digit(fraction / unit)] + fraction_digits(fraction % unit, unit / 10)
    }
}

/// A whole number and, if there is a fraction, its digits behind a point.
pub open spec fn with_fraction(whole: nat, fraction: nat, unit: nat) -> Seq<char> {
    if fraction == 0 {
        text::decimal(whole)
    } else {
        text::decimal(whole) + "."@ + fraction_digits(fraction, unit)
    }
}

/// `ns` nanoseconds in the largest unit that they fill, with as many digits behind the
/// point as it takes to be exact.
pub open spec fn exact_text(ns: nat) -> Seq<char> {
    if ns >= 1_000_000_000 {
        with_fraction(ns / 1_000_000_000, ns % 1_000_000_000, 100_000_000) + "s"@
    } else if ns >= 1_000_000 {
        with_fraction(ns / 1_000_000, ns % 1_000_000, 100_000) + "ms"@
    } else if ns >= 1_000 {
        with_fraction(ns / 1_000, ns % 1_000, 100) + "µs"@
    } else {
        text::decimal(ns) + "ns"@
    }
}

spec fn is_power_of_ten(n: nat) -> bool
    decreases n,
{
    n == 1 || (n > 0 && n % 10 == 0 && is_power_of_ten(n / 10))
}

fn push_fraction_digits(out: &mut String, fraction: u64, unit: u64)
    requires
        is_power_of_ten(unit as nat),
        fraction < 10 * unit,
        unit <= 100_000_000,
    ensures
        final(out)@ == old(out)@ + fraction_digits(fraction as nat, unit as nat),
    decreases unit,
{
    let ghost start = out@;
    if fraction > 0 {
        let d: u64 = fraction / unit;
        assert(d < 10) by (nonlinear_arith)
            requires
                fraction < 10 * unit,
                unit > 0,
                d == fraction / unit,
        ;
        out.push((48 + d as u8) as char);
        let rest: u64 = fraction % unit;
        assert(rest < unit);
        if unit > 1 {
            push_fraction_digits(out, rest, unit / 10);
        } else {
            assert(fraction_digits(rest as nat, 0) =~= Seq::<char>::empty());
        }
        assert(out@ =~= start + fraction_digits(fraction as nat, unit as nat));
    } else {
        assert(out@ =~= start + fraction_digits(fraction as nat, unit as nat));
    }
}

fn push_with_fraction(out: &mut String, whole: u64, fraction: u64, unit: u64)
    requires
        is_power_of_ten(unit as nat),
        fraction < 10 * unit,
        unit <= 100_000_000,
    ensures
        final(out)@ == old(out)@ + with_fraction(whole as nat, fraction as nat, unit as nat),
{
    let ghost start = out@;
    text::push_decimal(out, whole as u128);
    if fraction > 0 {
        out.append(".");
        push_fraction_digits(out, fraction, unit);
    }
    assert(out@ =~= start + with_fraction(whole as nat, fraction as nat, unit as nat));
}

/// A duration in the largest unit that it fills, with as many digits behind the point
/// as it takes to be exact.
pub fn fmt_duration_exact(d: Duration) -> (out: String)
    ensures
        out@ == exact_text(d@),
{
    reveal_with_fuel(is_power_of_ten, 9);
    let secs: u64 = d.as_secs();
    let nanos: u64 = d.subsec_nanos() as u64;
    let mut out = String::new();
    if secs > 0 {
        push_with_fraction(&mut out, secs, nanos, 100_000_000);
        out.append("s");
    } else if nanos >= 1_000_000 {
        push_with_fraction(&mut out, nanos / 1_000_000, nanos % 1_000_000, 100_000);
        out.append("ms");
    } else if nanos >= 1_000 {
        push_with_fraction(&mut out, nanos / 1_000, nanos % 1_000, 100);
        out.append("µs");
    } else {
        text::push_decimal(&mut out, nanos as u128);
        out.append("ns");
    }
    assert(out@ =~= exact_text(d@));
    out
}

} // verus!
