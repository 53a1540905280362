use buck2_telemetry::critical_path::add_opt;
use buck2_telemetry::critical_path::can_extend;
use buck2_telemetry::critical_path::fmt_opt;
use buck2_telemetry::critical_path::row_style;
use buck2_telemetry::critical_path::CriticalPathEntry;
use buck2_telemetry::critical_path::NodeDisplay;
use buck2_telemetry::critical_path::OptionalDuration;
use buck2_telemetry::critical_path::OutputItem;
use buck2_telemetry::critical_path::PathKind;
use buck2_telemetry::critical_path::PathNode;
use buck2_telemetry::critical_path::RowStyle;
use buck2_telemetry::path_laws::durations_fit;
use buck2_telemetry::path_report::log_critical_path;
use buck2_telemetry::path_report::LogFormat;
use buck2_telemetry::path_report::PathError;
use buck2_telemetry::time::Duration;

fn node(kind: &str, name: &str, total_us: u64, potential_us: Option<u64>) -> PathNode {
    PathNode {
        display: Ok(Some(NodeDisplay {
            kind: kind.to_owned(),
            name: name.to_owned(),
            category: None,
            identifier: None,
            execution_kind: None,
        })),
        total_duration: Some(Ok(Duration::from_micros(total_us))),
        user_duration: None,
        potential_improvement_duration: potential_us.map(|p| Ok(Duration::from_micros(p))),
        non_critical_path_duration: None,
        start_offset_ns: Some(total_us * 1_500),
    }
}

fn full_node() -> PathNode {
    PathNode {
        display: Ok(Some(NodeDisplay {
            kind: "action".to_owned(),
            name: "//:a".to_owned(),
            category: Some("cxx".to_owned()),
            identifier: Some("a.cpp".to_owned()),
            execution_kind: Some("local".to_owned()),
        })),
        total_duration: Some(Ok(Duration::from_micros(1_500))),
        user_duration: Some(Ok(Duration::from_nanos(1_999))),
        potential_improvement_duration: None,
        non_critical_path_duration: Some(Ok(Duration::from_secs(2))),
        start_offset_ns: Some(12_345),
    }
}

fn report(path: &Vec<PathNode>, format: LogFormat, threshold: Duration) -> (Vec<OutputItem>, Result<(), PathError>) {
    assert!(durations_fit(path));
    let mut out = Vec::new();
    let r = log_critical_path(path, format, threshold, &mut out);
    (out, r)
}

fn lines(out: &[OutputItem]) -> Vec<String> {
    out.iter()
        .map(|o| match o {
            OutputItem::Line(s) => s.clone(),
            OutputItem::Row { line, .. } => line.clone(),
            OutputItem::Record(e) => format!("record {} {}", e.kind, e.name),
        })
        .collect()
}

const HEAD: [&str; 7] = [
    "  start     = offset from the start of the build",
    "  total     = wall-clock time for this node",
    "  off_path  = time that overlapped other work (did not extend the build)",
    "  user      = the portion of the runtime you can actually optimize",
    "  potential = build time you'd save if this node were instant",
    "",
    "     start      total   off_path       user  potential kind name category identifier execution_kind",
];

#[test]
fn the_head_lines_up_with_the_rows() {
    assert_eq!(
        HEAD[6],
        format!(
            "{:>10} {:>10} {:>10} {:>10} {:>10} {} {} {} {} {}",
            "start",
            "total",
            "off_path",
            "user",
            "potential",
            "kind",
            "name",
            "category",
            "identifier",
            "execution_kind",
        ),
    );
    let (out, r) = report(&vec![], LogFormat::Readable, Duration::zero());
    assert!(r.is_ok());
    assert_eq!(lines(&out), HEAD);
}

#[test]
fn a_readable_row_has_all_columns() {
    let (out, r) = report(&vec![full_node()], LogFormat::Readable, Duration::zero());
    assert!(r.is_ok());
    assert_eq!(
        lines(&out)[7],
        format!(
            "{:>10} {:>10} {:>10} {:>10} {:>10} action //:a cxx a.cpp local",
            "12.0µs", "1.5ms", "2.00s", "2.0µs", "",
        ),
    );
}

#[test]
fn equal_entries_are_collapsed() {
    let path = vec![
        node("analysis", "//:a", 10, Some(1)),
        node("analysis", "//:a", 20, None),
        node("analysis", "//:b", 30, None),
        node("waiting", "unknown", 1, None),
        node("waiting", "for_deps", 2, None),
        node("waiting", "unknown", 3, None),
        node("analysis", "//:a", 40, None),
    ];
    let (out, _) = report(&path, LogFormat::Readable, Duration::zero());
    let rows = lines(&out)[7..].to_vec();
    assert_eq!(
        rows,
        vec![
            format!("{:>10} {:>10} {:>10} {:>10} {:>10} analysis //:a    (×2)", "15.0µs", "30.0µs", "", "", "1.0µs"),
            format!("{:>10} {:>10} {:>10} {:>10} {:>10} analysis //:b   ", "45.0µs", "30.0µs", "", "", ""),
            format!("{:>10} {:>10} {:>10} {:>10} {:>10} waiting unknown / for_deps    (×3)", "1.0µs", "6.0µs", "", "", ""),
            format!("{:>10} {:>10} {:>10} {:>10} {:>10} analysis //:a   ", "60.0µs", "40.0µs", "", "", ""),
        ],
    );
}

#[test]
fn entries_below_the_threshold_are_hidden() {
    let path = vec![
        node("analysis", "//:a", 10_000, None),
        node("waiting", "unknown", 5, None),
        node("analysis", "//:a", 20_000, None),
        node("waiting", "unknown", 7, None),
    ];
    let (out, _) = report(&path, LogFormat::Readable, Duration::from_millis(1));
    let rows = lines(&out)[7..].to_vec();
    assert_eq!(rows.len(), 3);
    assert!(rows[0].ends_with("(×2)"), "{}", rows[0]);
    assert_eq!(rows[1], "");
    assert_eq!(rows[2], "(hid 2 low-impact entries under 1.0ms, totaling 12.0µs)");
}

#[test]
fn a_threshold_of_zero_hides_nothing() {
    let path = vec![node("analysis", "//:a", 0, None), node("analysis", "//:b", 0, None)];
    let (out, _) = report(&path, LogFormat::Readable, Duration::zero());
    assert_eq!(out.len(), 9);
}

#[test]
fn impact_is_what_an_entry_cost_or_could_save() {
    let d = |us: Option<u64>| OptionalDuration { inner: us.map(Duration::from_micros) };
    let entry = |total, off_path, user, potential| CriticalPathEntry {
        kind: "action".to_owned(),
        name: String::new(),
        category: None,
        identifier: None,
        execution_kind: None,
        total_duration: d(total),
        user_duration: d(user),
        potential_improvement_duration: d(potential),
        non_critical_path_time: d(off_path),
        start_offset: 0,
    };
    let us = Duration::from_micros;
    assert_eq!(entry(None, None, None, None).impact(), Duration::zero());
    assert_eq!(entry(Some(3), Some(2), None, Some(1)).impact(), us(3));
    assert_eq!(entry(Some(1), Some(4), None, Some(2)).impact(), us(4));
    assert_eq!(entry(Some(1), None, None, Some(5)).impact(), us(5));
    // What the user can improve is a part of the total, and does not count by itself.
    assert_eq!(entry(Some(1), None, Some(9), None).impact(), us(1));
}

#[test]
fn runs_need_the_same_identity() {
    let entry = |kind: &str, name: &str, category: Option<&str>| CriticalPathEntry {
        kind: kind.to_owned(),
        name: name.to_owned(),
        category: category.map(|s| s.to_owned()),
        identifier: None,
        execution_kind: None,
        total_duration: OptionalDuration::default(),
        user_duration: OptionalDuration::default(),
        potential_improvement_duration: OptionalDuration::default(),
        non_critical_path_time: OptionalDuration::default(),
        start_offset: 0,
    };
    let a = entry("action", "x", Some("c"));
    assert!(can_extend(&a, &entry("action", "x", Some("c"))));
    assert!(!can_extend(&a, &entry("action", "x", None)));
    assert!(!can_extend(&a, &entry("action", "y", Some("c"))));
    assert!(!can_extend(&a, &entry("waiting", "x", Some("c"))));
    assert!(can_extend(&entry("waiting", "x", None), &entry("waiting", "y", Some("c"))));
    assert!(a.same_identity(&entry("action", "x", Some("c"))));
}

#[test]
fn sums_stay_missing_until_something_is_added() {
    let mut sum = None;
    add_opt(&mut sum, None);
    assert_eq!(sum, None);
    assert_eq!(fmt_opt(sum), "");
    add_opt(&mut sum, Some(Duration::from_millis(2)));
    add_opt(&mut sum, None);
    add_opt(&mut sum, Some(Duration::from_millis(3)));
    assert_eq!(sum, Some(Duration::from_millis(5)));
    assert_eq!(fmt_opt(sum), "5.0ms");
}

#[test]
fn rows_are_colored_by_what_they_could_save() {
    let ms = Duration::from_millis;
    assert_eq!(row_style(ms(99)), RowStyle::Gray);
    assert_eq!(row_style(ms(100)), RowStyle::Normal);
    assert_eq!(row_style(ms(999)), RowStyle::Normal);
    assert_eq!(row_style(ms(1_000)), RowStyle::Yellow);
    assert_eq!(row_style(ms(5_000)), RowStyle::Red);
    assert_eq!(row_style(ms(10_000)), RowStyle::BoldRed);

    let path = vec![
        node("a", "potential", 50_000, Some(2_000_000)),
        node("b", "total", 6_000_000, None),
    ];
    let (out, _) = report(&path, LogFormat::Readable, Duration::zero());
    assert!(matches!(out[7], OutputItem::Row { style: RowStyle::Yellow, .. }));
    assert!(matches!(out[8], OutputItem::Row { style: RowStyle::Red, .. }));
}

#[test]
fn rows_are_painted_where_colors_are_shown() {
    let row = |style| OutputItem::Row { style, line: "x".to_owned() };
    for (style, painted) in [
        (RowStyle::Gray, "\x1b[38;5;8mx\x1b[0m"),
        (RowStyle::Normal, "x"),
        (RowStyle::Yellow, "\x1b[33mx\x1b[0m"),
        (RowStyle::Red, "\x1b[31mx\x1b[0m"),
        (RowStyle::BoldRed, "\x1b[38;5;9m\x1b[1mx\x1b[0m"),
    ] {
        assert_eq!(row(style).to_text_in(true).unwrap(), painted);
        assert_eq!(row(style).to_text_in(false).unwrap(), "x");
        let plain = console::Style::new();
        let console_style = match style {
            RowStyle::Gray => plain.black().bright(),
            RowStyle::Normal => plain,
            RowStyle::Yellow => plain.yellow(),
            RowStyle::Red => plain.red(),
            RowStyle::BoldRed => plain.red().bright().bold(),
        };
        assert_eq!(row(style).to_text().unwrap(), console_style.apply_to("x").to_string());
    }
    assert_eq!(OutputItem::Line("l".to_owned()).to_text_in(true), Some("l".to_owned()));
}

#[test]
fn rows_are_painted_with_escape_codes() {
    console::set_colors_enabled(true);
    let row = |style| OutputItem::Row { style, line: "x".to_owned() };
    let text = |style| row(style).to_text().unwrap();
    assert_eq!(text(RowStyle::Gray), "\x1b[38;5;8mx\x1b[0m");
    assert_eq!(text(RowStyle::Normal), "x");
    assert_eq!(text(RowStyle::Yellow), "\x1b[33mx\x1b[0m");
    assert_eq!(text(RowStyle::Red), "\x1b[31mx\x1b[0m");
    assert_eq!(text(RowStyle::BoldRed), "\x1b[38;5;9m\x1b[1mx\x1b[0m");
    console::set_colors_enabled(false);
    assert_eq!(text(RowStyle::BoldRed), "x");
    assert_eq!(OutputItem::Line("l".to_owned()).to_text(), Some("l".to_owned()));
}

#[test]
fn the_tabulated_format_has_micros_and_tabs() {
    let (out, r) = report(&vec![full_node(), node("waiting", "w", 1, None)], LogFormat::Tabulated, Duration::from_secs(9));
    assert!(r.is_ok());
    assert_eq!(
        lines(&out),
        vec![
            "action\t//:a\tcxx\ta.cpp\tlocal\t1500\t1\t\t2000000\t12".to_owned(),
            "waiting\tw\t\t\t\t1\t\t\t\t1".to_owned(),
        ],
    );
}

#[test]
fn other_formats_hand_out_records() {
    for format in [LogFormat::Json, LogFormat::Csv] {
        let (out, r) = report(&vec![full_node(), node("waiting", "w", 1, None)], format, Duration::from_secs(9));
        assert!(r.is_ok());
        assert_eq!(out.len(), 2);
        let OutputItem::Record(e) = &out[0] else { panic!() };
        assert_eq!(e.total_duration.micros(), Some(1_500));
        assert_eq!(e.potential_improvement_duration.micros(), None);
        assert_eq!(e.start_offset, 12);
        assert!(out[0].to_text().is_none());
    }
}

#[test]
fn nodes_that_are_not_shown_are_skipped() {
    let mut hidden = node("a", "b", 1, None);
    hidden.display = Ok(None);
    hidden.total_duration = Some(Err("never read".to_owned()));
    let (out, r) = report(&vec![hidden, node("a", "c", 1, None)], LogFormat::Tabulated, Duration::zero());
    assert!(r.is_ok());
    assert_eq!(out.len(), 1);
}

#[test]
fn the_report_ends_at_the_first_bad_node() {
    let mut bad = node("a", "b", 1, None);
    bad.user_duration = Some(Err("negative".to_owned()));
    let path = vec![node("a", "x", 1, None), node("a", "y", 2, None), bad, node("a", "z", 3, None)];
    let (out, r) = report(&path, LogFormat::Readable, Duration::zero());
    assert_eq!(r, Err(PathError::InvalidDuration("negative".to_owned())));
    assert_eq!(r.unwrap_err().message(), "negative");
    // The run before the bad node was not written.
    assert_eq!(out.len(), 8);
    let (out, r) = report(&path, LogFormat::Tabulated, Duration::zero());
    assert!(r.is_err());
    assert_eq!(out.len(), 2);

    let mut nameless = node("a", "b", 1, None);
    nameless.display = Err("no label".to_owned());
    let (_, r) = report(&vec![nameless], LogFormat::Json, Duration::zero());
    assert_eq!(r, Err(PathError::Display("no label".to_owned())));
    assert_eq!(r.unwrap_err().message(), "no label");
}

#[test]
fn long_paths_do_not_fit() {
    let mut long = node("a", "b", 1, None);
    long.total_duration = Some(Ok(Duration::from_parts(u64::MAX, 999_999_999)));
    assert!(durations_fit(&vec![long]));
    let mut long = node("a", "b", 1, None);
    long.total_duration = Some(Ok(Duration::from_parts(u64::MAX, 999_999_999)));
    assert!(!durations_fit(&vec![long, node("a", "b", 1, None)]));
}

#[test]
fn optional_durations() {
    let none: Result<OptionalDuration, String> = OptionalDuration::new(None);
    assert_eq!(none, Ok(OptionalDuration { inner: None }));
    assert_eq!(none.unwrap().to_text(), "");
    let some: Result<OptionalDuration, String> = OptionalDuration::new(Some(Ok(Duration::from_nanos(2_999))));
    assert_eq!(some.unwrap().to_text(), "2");
    let bad: Result<OptionalDuration, String> = OptionalDuration::new(Some(Err("x".to_owned())));
    assert_eq!(bad, Err("x".to_owned()));
}

#[test]
fn headings_name_the_path() {
    assert_eq!(
        PathKind::Critical.heading("buck2 build //..."),
        "Showing critical path from: buck2 build //...",
    );
    assert_eq!(PathKind::Slowest.name(), "slowest path");
    assert_eq!(PathKind::Critical.pick("c", "s"), "c");
    assert_eq!(PathKind::Slowest.pick("c", "s"), "s");
}
