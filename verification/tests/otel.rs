use buck2_telemetry::otel::activate;
use buck2_telemetry::otel::batch_settings;
use buck2_telemetry::otel::built;
use buck2_telemetry::otel::endpoint_variables;
use buck2_telemetry::otel::otlp_endpoint_configured;
use buck2_telemetry::otel::resource;
use buck2_telemetry::otel::resource_attributes;
use buck2_telemetry::otel::shutdown;
use buck2_telemetry::otel::shutdown_warning;
use buck2_telemetry::otel::telemetry_enabled;
use buck2_telemetry::otel::telemetry_filter;
use buck2_telemetry::otel::Attribute;
use buck2_telemetry::otel::AttributeValue;
use buck2_telemetry::otel::BuildOutcome;
use buck2_telemetry::otel::Level;
use buck2_telemetry::otel::Telemetry;
use buck2_telemetry::time::Duration;

#[test]
fn an_endpoint_has_to_be_set_and_not_empty() {
    assert_eq!(
        endpoint_variables(),
        vec!["OTEL_EXPORTER_OTLP_TRACES_ENDPOINT", "OTEL_EXPORTER_OTLP_ENDPOINT"],
    );
    assert!(!otlp_endpoint_configured(&vec![None, None]));
    assert!(!otlp_endpoint_configured(&vec![None, Some(vec![])]));
    assert!(otlp_endpoint_configured(&vec![Some(vec![]), Some(b"x".to_vec())]));
    assert!(otlp_endpoint_configured(&vec![Some(b"x".to_vec()), None]));
}

fn text(key: &str, value: &str) -> Attribute {
    Attribute {
        key: key.to_owned(),
        value: AttributeValue::Text(value.to_owned()),
    }
}

#[test]
fn attributes_describe_the_process() {
    let pid = Attribute {
        key: "process.pid".to_owned(),
        value: AttributeValue::Int(4_294_967_295),
    };
    let mut expected = vec![
        text("service.name", "buck2"),
        text("service.version", "1.2"),
        text("service.instance.id", "id"),
        text("host.arch", "x86_64"),
        text("os.type", "linux"),
        pid,
    ];
    let id = || "id".to_owned();
    assert_eq!(resource_attributes("1.2", id(), "x86_64", "linux", u32::MAX, None), expected);
    expected.push(text("host.name", "h"));
    assert_eq!(
        resource_attributes("1.2", id(), "x86_64", "linux", u32::MAX, Some("h".to_owned())),
        expected,
    );
}

#[test]
fn every_process_has_an_id_of_its_own() {
    let id = || match &resource("v", "a", "o", 1, None)[2].value {
        AttributeValue::Text(s) => s.clone(),
        AttributeValue::Int(n) => panic!("{n}"),
    };
    let (a, b) = (id(), id());
    assert_ne!(a, b);
    for s in [a, b] {
        assert_eq!(s.len(), 36);
        for (i, c) in s.chars().enumerate() {
            match i {
                8 | 13 | 18 | 23 => assert_eq!(c, '-'),
                14 => assert_eq!(c, '4'),
                19 => assert!("89ab".contains(c)),
                _ => assert!(c.is_ascii_digit() || ('a'..='f').contains(&c)),
            }
        }
    }
}

#[test]
fn connections_are_not_exported() {
    let (level, silenced) = telemetry_filter();
    assert_eq!((level, silenced), (Level::Info, "h2::proto::connection"));
    assert!(telemetry_enabled("buck2", Level::Error));
    assert!(telemetry_enabled("buck2", Level::Warn));
    assert!(telemetry_enabled("buck2", Level::Info));
    assert!(!telemetry_enabled("buck2", Level::Debug));
    assert!(!telemetry_enabled("buck2", Level::Trace));
    assert!(!telemetry_enabled("h2::proto::connection", Level::Error));
    assert!(!telemetry_enabled("h2::proto::connection::x", Level::Error));
    assert!(telemetry_enabled("h2::proto", Level::Info));
    assert!(telemetry_enabled("", Level::Info));
}

#[test]
fn spans_are_batched() {
    let settings = batch_settings();
    assert_eq!(settings.max_queue_size, 16_384);
    assert_eq!(settings.max_export_batch_size, 8_192);
    assert_eq!(settings.scheduled_delay, Duration::from_secs(10));
}

#[test]
fn the_exporter_is_built_once() {
    let mut t = Telemetry::new();
    t.deferred_layer();
    assert!(activate(&mut t));
    assert!(!activate(&mut t));
    assert!(!shutdown(&t));
    assert_eq!(built(&mut t, BuildOutcome::Started), None);
    assert!(shutdown(&t));
}

#[test]
fn nothing_is_built_without_a_place() {
    let mut t = Telemetry::new();
    assert!(!activate(&mut t));
    // A place that comes later stays empty.
    t.deferred_layer();
    assert!(!activate(&mut t));
}

#[test]
fn failures_are_warnings() {
    let mut t = Telemetry::new();
    assert_eq!(built(&mut t, BuildOutcome::NotConfigured), None);
    assert_eq!(
        built(&mut t, BuildOutcome::ExporterFailed("x".to_owned())).unwrap(),
        "Failed to start OpenTelemetry exporter: x",
    );
    assert!(!shutdown(&t));
    assert_eq!(
        built(&mut t, BuildOutcome::LayerFailed("y".to_owned())).unwrap(),
        "Failed to start OpenTelemetry exporter: y",
    );
    assert!(shutdown(&t));
    assert_eq!(shutdown_warning(Ok(())), None);
    assert_eq!(
        shutdown_warning(Err("z".to_owned())).unwrap(),
        "Failed to shut down OpenTelemetry exporter on exit: z",
    );
}
