//! Exporting spans over OTLP: when, and with which settings.
//!
//! The exporter runs threads, so it must not be built before a process has forked for
//! the last time. A place for it is kept when logging starts; it is filled later, once.
//! At exit what is still buffered has to be flushed.

use vstd::prelude::*;

use crate::text;
use crate::text::concat;
use crate::time::Duration;

verus! {

/// The variables that name the endpoint.
pub open spec fn endpoint_variable_names() -> Seq<Seq<char>> {
    seq!["OTEL_EXPORTER_OTLP_TRACES_ENDPOINT"@, "OTEL_EXPORTER_OTLP_ENDPOINT"@]
}

/// The variables that name the endpoint.
pub fn endpoint_variables() -> (names: Vec<String>)
    ensures
        text::views(names@) == endpoint_variable_names(),
{
    let names: Vec<String> = vec![
        "OTEL_EXPORTER_OTLP_TRACES_ENDPOINT".to_owned(),
        "OTEL_EXPORTER_OTLP_ENDPOINT".to_owned(),
    ];
    assert(text::views(names@) =~= endpoint_variable_names());
    names
}

/// Whether a variable that names an endpoint is set and not empty. `values` are the
/// bytes of those that are set.
pub fn otlp_endpoint_configured(values: &Vec<Option<Vec<u8>>>) -> (b: bool)
    ensures
        b == exists|i: int|
            0 <= i < values@.len() && (#[trigger] values@[i] matches Some(v) && v@.len() > 0),
{
    let mut i: usize = 0;
    while i < values.len()
        invariant
            i <= values.len(),
            forall|k: int|
                0 <= k < i ==> !(#[trigger] values@[k] matches Some(v) && v@.len() > 0),
        decreases values.len() - i,
    {
        if let Some(v) = &values[i] {
            if v.len() > 0 {
                assert(values@[i as int] matches Some(v) && v@.len() > 0);
                return true;
            }
        }
        i = i + 1;
    }
    false
}

// What is said of this process.

/// The value of an attribute.
#[derive(Clone, Debug, PartialEq, Eq)]
pub enum AttributeValue {
    Text(String),
    Int(i64),
}

/// Something said of this process.
#[derive(Clone, Debug, PartialEq, Eq)]
pub struct Attribute {
    pub key: String,
    pub value: AttributeValue,
}

/// What an [`AttributeValue`] says.
pub enum ValueModel {
    Text(Seq<char>),
    Int(int),
}

impl View for Attribute {
    type V = (Seq<char>, ValueModel);

    open spec fn view(&self) -> (Seq<char>, ValueModel) {
        (
            self.key@,
            match self.value {
                AttributeValue::Text(s) => ValueModel::Text(s@),
                AttributeValue::Int(n) => ValueModel::Int(n as int),
            },
        )
    }
}

/// What the attributes say.
pub open spec fn attribute_views(attributes: Seq<Attribute>) -> Seq<(Seq<char>, ValueModel)> {
    attributes.map_values(|a: Attribute| a@)
}

/// What is said of this process.
pub open spec fn resource_attributes_of(
    version: Seq<char>,
    instance_id: Seq<char>,
    arch: Seq<char>,
    os: Seq<char>,
    pid: u32,
    hostname: Option<Seq<char>>,
) -> Seq<(Seq<char>, ValueModel)> {
    let base = seq![
        ("service.name"@, ValueModel::Text("buck2"@)),
        ("service.version"@, ValueModel::Text(version)),
        ("service.instance.id"@, ValueModel::Text(instance_id)),
        ("host.arch"@, ValueModel::Text(arch)),
        ("os.type"@, ValueModel::Text(os)),
        ("process.pid"@, ValueModel::Int(pid as int)),
    ];
    match hostname {
        Some(host) => base.push(("host.name"@, ValueModel::Text(host))),
        None => base,
    }
}

fn text_attribute(key: &str, value: String) -> (a: Attribute)
    ensures
        a@ == (key@, ValueModel::Text(value@)),
{
    Attribute { key: key.to_owned(), value: AttributeValue::Text(value) }
}

/// What is said of a process with the given id for the instance.
pub fn resource_attributes(
    version: &str,
    instance_id: String,
    arch: &str,
    os: &str,
    pid: u32,
    hostname: Option<String>,
) -> (attributes: Vec<Attribute>)
    ensures
        attribute_views(attributes@) == resource_attributes_of(
            version@,
            instance_id@,
            arch@,
            os@,
            pid,
            text::optional_view(hostname),
        ),
{
    let ghost id = instance_id@;
    let mut attributes: Vec<Attribute> = vec![
        text_attribute("service.name", "buck2".to_owned()),
        text_attribute("service.version", version.to_owned()),
        text_attribute("service.instance.id", instance_id),
        text_attribute("host.arch", arch.to_owned()),
        text_attribute("os.type", os.to_owned()),
        Attribute { key: "process.pid".to_owned(), value: AttributeValue::Int(pid as i64) },
    ];
    let ghost base = resource_attributes_of(version@, id, arch@, os@, pid, None);
    assert(attribute_views(attributes@) =~= base);
    if let Some(host) = hostname {
        let ghost before = attributes@;
        let attribute = text_attribute("host.name", host);
        let ghost view = attribute@;
        attributes.push(attribute);
        assert(attribute_views(attributes@) =~= attribute_views(before).push(view));
    }
    attributes
}

/// Whether a character is a hexadecimal digit in lower case.
pub open spec fn is_hex(c: char) -> bool {
    ('0' <= c && c <= '9') || ('a' <= c && c <= 'f')
}

/// Whether the text is a random UUID: 36 characters in five groups, with the version
/// and the variant in their places.
pub open spec fn is_uuid_v4(s: Seq<char>) -> bool {
    &&& s.len() == 36
    &&& s[8] == '-' && s[13] == '-' && s[18] == '-' && s[23] == '-'
    &&& s[14] == '4'
    &&& s[19] == '8' || s[19] == '9' || s[19] == 'a' || s[19] == 'b'
    &&& forall|i: int|
        0 <= i < 36 && i != 8 && i != 13 && i != 18 && i != 23 ==> is_hex(#[trigger] s[i])
}

/// An id for this process.
///
/// Trusted: `uuid::Uuid::new_v4` makes a UUID of version 4, which is displayed in lower
/// case with hyphens. The rest of it is random and is not stated.
#[verifier::external_body]
fn fresh_instance_id() -> (id: String)
    ensures
        is_uuid_v4(id@),
{
    uuid::Uuid::new_v4().to_string()
}

/// What is said of this process, under an id of its own.
pub fn resource(version: &str, arch: &str, os: &str, pid: u32, hostname: Option<String>) -> (attributes:
    Vec<Attribute>)
    ensures
        exists|id: Seq<char>| #[trigger]
            is_uuid_v4(id) && attribute_views(attributes@) == resource_attributes_of(
                version@,
                id,
                arch@,
                os@,
                pid,
                text::optional_view(hostname),
            ),
{
    let id: String = fresh_instance_id();
    let ghost view = id@;
    let attributes: Vec<Attribute> = resource_attributes(version, id, arch, os, pid, hostname);
    assert(is_uuid_v4(view));
    attributes
}

// What is exported.

/// How grave an event is, from the gravest on.
#[derive(Copy, Clone, Debug, PartialEq, Eq)]
pub enum Level {
    Error,
    Warn,
    Info,
    Debug,
    Trace,
}

impl Level {
    /// The place of the level, from the gravest on.
    pub open spec fn rank(self) -> nat {
        match self {
            Level::Error => 1,
            Level::Warn => 2,
            Level::Info => 3,
            Level::Debug => 4,
            Level::Trace => 5,
        }
    }
}

/// Whether `s` begins with `prefix`.
pub open spec fn begins_with(s: Seq<char>, prefix: Seq<char>) -> bool {
    s.len() >= prefix.len() && s.take(prefix.len() as int) == prefix
}

/// The targets from which nothing is exported.
pub open spec fn silenced_target() -> Seq<char> {
    "h2::proto::connection"@
}

/// Whether an event is exported: everything down to `Info`, but for the connections of
/// `h2`, which live longer than anything else.
pub open spec fn is_exported(target: Seq<char>, level: Level) -> bool {
    !begins_with(target, silenced_target()) && level.rank() <= Level::Info.rank()
}

/// Whether a filter with a default level and one silenced target lets an event pass.
///
/// Trusted: `tracing_subscriber::filter::Targets` goes by the longest target that the
/// event's target begins with, and by the default level where there is none. A target
/// that is off lets nothing pass.
#[verifier::external_body]
fn targets_enable(default: Level, silenced: &str, target: &str, level: Level) -> (b: bool)
    ensures
        b == (!begins_with(target@, silenced@) && level.rank() <= default.rank()),
{
    let level_of = |level: Level| match level {
        Level::Error => tracing::Level::ERROR,
        Level::Warn => tracing::Level::WARN,
        Level::Info => tracing::Level::INFO,
        Level::Debug => tracing::Level::DEBUG,
        Level::Trace => tracing::Level::TRACE,
    };
    tracing_subscriber::filter::Targets::new().with_default(level_of(default)).with_target(
        silenced,
        tracing_subscriber::filter::LevelFilter::OFF,
    ).would_enable(target, &level_of(level))
}

/// What the filter of the exported events is made of: the level down to which events
/// are exported, and the target from which none is.
pub fn telemetry_filter() -> (filter: (Level, &'static str))
    ensures
        filter.0 is Info,
        filter.1@ == silenced_target(),
{
    (Level::Info, "h2::proto::connection")
}

/// Whether an event is exported.
pub fn telemetry_enabled(target: &str, level: Level) -> (b: bool)
    ensures
        b == is_exported(target@, level),
{
    let (default, silenced) = telemetry_filter();
    targets_enable(default, silenced, target, level)
}

/// How spans are batched.
#[derive(Copy, Clone, Debug, PartialEq, Eq)]
pub struct BatchSettings {
    pub max_queue_size: usize,
    pub max_export_batch_size: usize,
    pub scheduled_delay: Duration,
}

/// How spans are batched. A build emits thousands of spans in bursts.
pub fn batch_settings() -> (settings: BatchSettings)
    ensures
        settings.max_queue_size == 16_384,
        settings.max_export_batch_size == 8_192,
        settings.scheduled_delay@ == 10_000_000_000,
{
    BatchSettings {
        max_queue_size: 16_384,
        max_export_batch_size: 8_192,
        scheduled_delay: Duration::from_secs(10),
    }
}

// Starting and stopping.

/// How far the export has come.
#[derive(Copy, Clone, Debug, PartialEq, Eq)]
pub struct Telemetry {
    /// Whether there is a place for the exporter.
    pub installed: bool,
    /// Whether the exporter was to be built.
    pub activated: bool,
    /// Whether there is an exporter to shut down.
    pub provider: bool,
}

impl Telemetry {
    /// No place for the exporter yet.
    pub fn new() -> (t: Telemetry)
        ensures
            !t.installed && !t.activated && !t.provider,
    {
        Telemetry { installed: false, activated: false, provider: false }
    }

    /// Keeps a place for the exporter.
    pub fn deferred_layer(&mut self)
        ensures
            *final(self) == after_call(*old(self), TelemetryCall::Install),
    {
        self.installed = true;
    }
}

/// How building the exporter went.
pub enum BuildOutcome {
    /// No endpoint is configured.
    NotConfigured,
    /// The exporter could not be made.
    ExporterFailed(String),
    /// The exporter was made, but could not take its place.
    LayerFailed(String),
    Started,
}

/// Whether the exporter is to be built when the export is asked to start.
pub open spec fn builds(t: Telemetry) -> bool {
    !t.activated && t.installed
}

/// Asks for the export to start. Whether the exporter is to be built now: it is, the
/// first time this is asked, if there is a place for it.
pub fn activate(telemetry: &mut Telemetry) -> (build: bool)
    ensures
        *final(telemetry) == after_call(*old(telemetry), TelemetryCall::Activate),
        build == builds(*old(telemetry)),
{
    if telemetry.activated {
        return false;
    }
    telemetry.activated = true;
    telemetry.installed
}

/// What went wrong when the exporter was built, if anything did.
pub open spec fn build_failure(outcome: BuildOutcome) -> Option<Seq<char>> {
    match outcome {
        BuildOutcome::NotConfigured => None,
        BuildOutcome::ExporterFailed(e) => Some(e@),
        BuildOutcome::LayerFailed(e) => Some(e@),
        BuildOutcome::Started => None,
    }
}

/// Takes the outcome of building the exporter. A failure is a warning and no more: it
/// never fails a command.
pub fn built(telemetry: &mut Telemetry, outcome: BuildOutcome) -> (warning: Option<String>)
    ensures
        *final(telemetry) == after_call(*old(telemetry), TelemetryCall::Built(outcome)),
        match build_failure(outcome) {
            Some(e) => warning matches Some(w) && w@
                == "Failed to start OpenTelemetry exporter: "@ + e,
            None => warning is None,
        },
{
    match outcome {
        BuildOutcome::NotConfigured => None,
        BuildOutcome::ExporterFailed(e) => Some(
            concat("Failed to start OpenTelemetry exporter: ", e.as_str()),
        ),
        BuildOutcome::LayerFailed(e) => {
            telemetry.provider = true;
            Some(concat("Failed to start OpenTelemetry exporter: ", e.as_str()))
        },
        BuildOutcome::Started => {
            telemetry.provider = true;
            None
        },
    }
}

/// Whether there is an exporter to flush and shut down.
pub fn shutdown(telemetry: &Telemetry) -> (b: bool)
    ensures
        b == telemetry.provider,
{
    telemetry.provider
}

/// What to say of the shutdown of the exporter, if it failed.
pub fn shutdown_warning(outcome: Result<(), String>) -> (warning: Option<String>)
    ensures
        match outcome {
            Ok(()) => warning is None,
            Err(e) => warning matches Some(w) && w@
                == "Failed to shut down OpenTelemetry exporter on exit: "@ + e@,
        },
{
    match outcome {
        Ok(()) => None,
        Err(e) => Some(
            concat(
                "Failed to shut down OpenTelemetry exporter on exit: ",
                e.as_str(),
            ),
        ),
    }
}

/// What is done with the export in the course of a process.
pub enum TelemetryCall {
    /// A place for the exporter is kept.
    Install,
    /// The export is asked to start.
    Activate,
    /// The exporter was built, with the given outcome.
    Built(BuildOutcome),
}

/// How far the export has come after a call.
pub open spec fn after_call(t: Telemetry, call: TelemetryCall) -> Telemetry {
    match call {
        TelemetryCall::Install => Telemetry { installed: true, ..t },
        TelemetryCall::Activate => Telemetry { activated: true, ..t },
        TelemetryCall::Built(outcome) => Telemetry {
            provider: t.provider || outcome is LayerFailed || outcome is Started,
            ..t
        },
    }
}

/// How far the export has come after some calls.
pub open spec fn after_calls(t: Telemetry, calls: Seq<TelemetryCall>) -> Telemetry
    decreases calls.len(),
{
    if calls.len() == 0 {
        t
    } else {
        after_call(after_calls(t, calls.drop_last()), calls.last())
    }
}

/// How often the exporter is to be built in the course of some calls.
pub open spec fn times_built(t: Telemetry, calls: Seq<TelemetryCall>) -> nat
    decreases calls.len(),
{
    if calls.len() == 0 {
        0
    } else {
        times_built(t, calls.drop_last()) + if calls.last() is Activate && builds(
            after_calls(t, calls.drop_last()),
        ) {
            1nat
        } else {
            0nat
        }
    }
}

/// However often the export is asked to start, the exporter is built at most once.
pub proof fn law_exporter_is_built_once(t: Telemetry, calls: Seq<TelemetryCall>)
    ensures
        times_built(t, calls) <= 1,
        times_built(t, calls) == 1 ==> after_calls(t, calls).activated,
        t.activated ==> times_built(t, calls) == 0 && after_calls(t, calls).activated,
    decreases calls.len(),
{
    if calls.len() > 0 {
        law_exporter_is_built_once(t, calls.drop_last());
    }
}

/// As long as no exporter was built, there is nothing to shut down.
pub proof fn law_nothing_to_shut_down_before_start(t: Telemetry, calls: Seq<TelemetryCall>)
    requires
        !t.provider,
        forall|i: int| 0 <= i < calls.len() ==> !(#[trigger] calls[i] is Built),
    ensures
        !after_calls(t, calls).provider,
    decreases calls.len(),
{
    if calls.len() > 0 {
        assert(!(calls[calls.len() - 1] is Built));
        assert forall|i: int| 0 <= i < calls.drop_last().len() implies !(
        #[trigger] calls.drop_last()[i] is Built) by {
            assert(!(calls[i] is Built));
        }
        law_nothing_to_shut_down_before_start(t, calls.drop_last());
    }
}

} // verus!
