use buck2_telemetry::binary64;
use buck2_telemetry::fmt_duration::fmt_duration;
use buck2_telemetry::fmt_duration::fmt_duration_exact;
use buck2_telemetry::fmt_duration::fmt_duration_precise;
use buck2_telemetry::text;
use buck2_telemetry::time::Duration;
use buck2_telemetry::time::SystemTime;

/// A few numbers of every size, without a pattern.
fn samples(count: u64) -> Vec<u64> {
    let mut out = Vec::new();
    let mut x: u64 = 0x9E37_79B9_7F4A_7C15;
    for i in 0..count {
        x ^= x << 13;
        x ^= x >> 7;
        x ^= x << 17;
        out.push(x >> (i % 60));
    }
    out
}

#[test]
fn test_fmt_duration_precise() {
    assert_eq!("0", fmt_duration_precise(Duration::zero()));
    assert_eq!("1ns", fmt_duration_precise(Duration::from_nanos(1)));
    assert_eq!("999ns", fmt_duration_precise(Duration::from_nanos(999)));
    assert_eq!("1.0µs", fmt_duration_precise(Duration::from_nanos(1_000)));
    assert_eq!("48.0µs", fmt_duration_precise(Duration::from_micros(48)));
    assert_eq!("999.9µs", fmt_duration_precise(Duration::from_nanos(999_949)));
    assert_eq!("1.0ms", fmt_duration_precise(Duration::from_micros(1_000)));
    assert_eq!("30.0ms", fmt_duration_precise(Duration::from_millis(30)));
    assert_eq!("999.9ms", fmt_duration_precise(Duration::from_micros(999_949)));
    assert_eq!("1.00s", fmt_duration_precise(Duration::from_millis(1_000)));
    assert_eq!("1.23s", fmt_duration_precise(Duration::from_millis(1_234)));
    assert_eq!("90.00s", fmt_duration_precise(Duration::from_secs(90)));
}

#[test]
fn test_fmt_duration() {
    fn hmss(h: u64, m: u64, s: u64, ms: u64) -> Duration {
        Duration::from_millis(h * 3_600_000 + m * 60_000 + s * 1000 + ms)
    }

    assert_eq!("0.0s", fmt_duration(hmss(0, 0, 0, 0)));
    assert_eq!("0.0s", fmt_duration(hmss(0, 0, 0, 49)));
    assert_eq!("0.1s", fmt_duration(hmss(0, 0, 0, 50)));
    assert_eq!("0.1s", fmt_duration(hmss(0, 0, 0, 99)));
    assert_eq!("0.1s", fmt_duration(hmss(0, 0, 0, 100)));
    assert_eq!("0.9s", fmt_duration(hmss(0, 0, 0, 949)));
    assert_eq!("1.0s", fmt_duration(hmss(0, 0, 0, 999)));
    assert_eq!("1.0s", fmt_duration(hmss(0, 0, 1, 0)));
    assert_eq!("59.9s", fmt_duration(hmss(0, 0, 59, 949)));
    assert_eq!("1:00.0s", fmt_duration(hmss(0, 0, 59, 999)));
    assert_eq!("1:00.0s", fmt_duration(hmss(0, 1, 0, 0)));
    assert_eq!("59:59.9s", fmt_duration(hmss(0, 59, 59, 949)));
    assert_eq!("1:00:00.0s", fmt_duration(hmss(0, 59, 59, 950)));
    assert_eq!("1:00:00.0s", fmt_duration(hmss(1, 0, 0, 0)));
    assert_eq!("9876:54:32.1s", fmt_duration(hmss(9876, 54, 32, 100)));
}

#[test]
fn fmt_duration_caps_the_longest_span() {
    assert_eq!(
        fmt_duration(Duration::from_nanos(u64::MAX)),
        fmt_duration(Duration::from_secs(u64::MAX)),
    );
}

#[test]
fn fmt_duration_precise_agrees_with_floating_point() {
    for n in samples(2_000) {
        let expected = if n == 0 {
            "0".to_owned()
        } else if n < 1_000 {
            format!("{n}ns")
        } else if n < 1_000_000 {
            format!("{:.1}µs", n as f64 / 1_000.0)
        } else if n < 1_000_000_000 {
            format!("{:.1}ms", n as f64 / 1_000_000.0)
        } else {
            format!("{:.2}s", n as f64 / 1_000_000_000.0)
        };
        assert_eq!(fmt_duration_precise(Duration::from_nanos(n)), expected);
    }
}

#[test]
fn fmt_duration_precise_rounds_ties_as_floating_point_does() {
    for n in 0..20_000u64 {
        let ns = 1_000_000_000 + n * 5_000_000;
        assert_eq!(
            fmt_duration_precise(Duration::from_nanos(ns)),
            format!("{:.2}s", ns as f64 / 1e9),
        );
        let ns = 1_000 + n * 50;
        if ns < 1_000_000 {
            assert_eq!(
                fmt_duration_precise(Duration::from_nanos(ns)),
                format!("{:.1}µs", ns as f64 / 1e3),
            );
        }
    }
}

#[test]
fn fmt_duration_exact_is_the_debug_form() {
    for n in samples(2_000) {
        assert_eq!(
            fmt_duration_exact(Duration::from_nanos(n)),
            format!("{:?}", std::time::Duration::from_nanos(n)),
        );
    }
    assert_eq!(fmt_duration_exact(Duration::zero()), "0ns");
    assert_eq!(fmt_duration_exact(Duration::from_millis(200)), "200ms");
    assert_eq!(fmt_duration_exact(Duration::from_millis(1_500)), "1.5s");
    assert_eq!(fmt_duration_exact(Duration::from_nanos(1_000_000_001)), "1.000000001s");
    assert_eq!(fmt_duration_exact(Duration::from_nanos(1_050)), "1.05µs");
}

#[test]
fn quotient_bits_agree_with_floating_point() {
    for n in samples(2_000) {
        for d in [1u64, 3, 7, 1_000, 1_000_000_000, 999_999_937] {
            assert_eq!(binary64::quotient_bits(n, d), (n as f64 / d as f64).to_bits());
        }
    }
    assert_eq!(binary64::quotient_bits(0, 5), 0f64.to_bits());
    assert_eq!(binary64::quotient_bits(u64::MAX, 1), (u64::MAX as f64).to_bits());
}

#[test]
fn per_second_bits_agree_with_floating_point() {
    let deltas = samples(60);
    let spans = samples(60);
    for delta in &deltas {
        for span in &spans {
            let nanos = *span;
            if nanos == 0 {
                continue;
            }
            let secs = std::time::Duration::from_nanos(nanos).as_secs_f64();
            assert_eq!(
                binary64::per_second_bits(*delta, Duration::from_nanos(nanos)),
                (*delta as f64 / secs).to_bits(),
            );
        }
    }
    assert_eq!(
        binary64::per_second_bits(10, Duration::from_millis(500)),
        20f64.to_bits(),
    );
}

#[test]
fn durations_add_up() {
    let a = Duration::from_parts(3, 999_999_999);
    assert_eq!(a.as_nanos(), 3_999_999_999);
    assert_eq!(a.as_micros(), 3_999_999);
    assert_eq!(a.as_secs(), 3);
    assert_eq!(a.subsec_nanos(), 999_999_999);
    assert_eq!(a.plus(Duration::from_nanos(1)), Duration::from_secs(4));
    assert_eq!(a.checked_add(Duration::from_nanos(1)), Some(Duration::from_secs(4)));
    let longest = Duration::from_parts(u64::MAX, 999_999_999);
    assert_eq!(longest.checked_add(Duration::from_nanos(1)), None);
    assert!(a.is_shorter_than(&Duration::from_secs(4)));
    assert!(!a.is_shorter_than(&a));
}

#[test]
fn times_are_counted_from_the_epoch() {
    let t = SystemTime::from_parts(-1, 250_000_000);
    assert_eq!(t.nanos_from_epoch(), -750_000_000);
    assert!(t.is_before(&SystemTime::unix_epoch()));
    assert_eq!(
        SystemTime::unix_epoch().duration_since(t),
        Some(Duration::from_millis(750)),
    );
    assert_eq!(t.duration_since(SystemTime::unix_epoch()), None);
    assert_eq!(
        t.checked_add(Duration::from_millis(750)),
        Some(SystemTime::unix_epoch()),
    );
    let last = SystemTime::from_parts(i64::MAX, 999_999_999);
    assert_eq!(last.checked_add(Duration::from_nanos(1)), None);
}

#[test]
fn numbers_and_padding() {
    let mut out = String::new();
    text::push_decimal(&mut out, 0);
    out.push(' ');
    text::push_decimal(&mut out, u128::MAX);
    out.push(' ');
    text::push_decimal2(&mut out, 7);
    out.push(' ');
    text::push_decimal2(&mut out, 123);
    assert_eq!(out, format!("0 {} 07 123", u128::MAX));

    let mut out = String::new();
    text::push_right_aligned(&mut out, "µs", 5);
    text::push_right_aligned(&mut out, "longer", 3);
    assert_eq!(out, "   µslonger");

    let parts = vec!["a".to_owned(), "b".to_owned(), "c".to_owned()];
    assert_eq!(text::join(&parts, " / "), "a / b / c");
    assert_eq!(text::join(&Vec::new(), " / "), "");
}
