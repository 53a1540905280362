use buck2_telemetry::events::BuckEvent;
use buck2_telemetry::events::EventData;
use buck2_telemetry::events::ExecutorStage;
use buck2_telemetry::events::Instant;
use buck2_telemetry::events::LocalStage;
use buck2_telemetry::events::Materialization;
use buck2_telemetry::events::NetworkInterfaceStats;
use buck2_telemetry::events::PathEntry;
use buck2_telemetry::events::ReStage;
use buck2_telemetry::events::Snapshot;
use buck2_telemetry::events::SpanEnd;
use buck2_telemetry::events::SpanStart;
use buck2_telemetry::events::Stage;
use buck2_telemetry::spans;
use buck2_telemetry::spans::Category;
use buck2_telemetry::spans::WriterError;
use buck2_telemetry::time::Duration;
use buck2_telemetry::time::SystemTime;
use buck2_telemetry::writer::PerfettoWriter;
use buck2_telemetry::writer::Stats;

// A reader of traces, for what the writer writes.

#[derive(Clone, Debug, PartialEq)]
enum Value {
    Int(u64),
    Fixed(u64),
    Bytes(Vec<u8>),
}

fn varint(b: &[u8], at: &mut usize) -> u64 {
    let mut n = 0u64;
    let mut shift = 0;
    loop {
        let byte = b[*at];
        *at += 1;
        n |= ((byte & 0x7f) as u64) << shift;
        if byte & 0x80 == 0 {
            return n;
        }
        shift += 7;
    }
}

fn fields(b: &[u8]) -> Vec<(u64, Value)> {
    let mut out = Vec::new();
    let mut at = 0;
    while at < b.len() {
        let key = varint(b, &mut at);
        let value = match key & 7 {
            0 => Value::Int(varint(b, &mut at)),
            1 => {
                let mut bytes = [0u8; 8];
                bytes.copy_from_slice(&b[at..at + 8]);
                at += 8;
                Value::Fixed(u64::from_le_bytes(bytes))
            }
            2 => {
                let len = varint(b, &mut at) as usize;
                let bytes = b[at..at + len].to_vec();
                at += len;
                Value::Bytes(bytes)
            }
            other => panic!("wire type {other}"),
        };
        out.push((key >> 3, value));
    }
    out
}

fn all(fs: &[(u64, Value)], tag: u64) -> Vec<Value> {
    fs.iter()
        .filter(|(t, _)| *t == tag)
        .map(|(_, v)| v.clone())
        .collect()
}

fn number(fs: &[(u64, Value)], tag: u64) -> Option<u64> {
    match all(fs, tag).pop() {
        Some(Value::Int(n)) => Some(n),
        None => None,
        other => panic!("{other:?}"),
    }
}

fn bytes(fs: &[(u64, Value)], tag: u64) -> Option<Vec<u8>> {
    match all(fs, tag).pop() {
        Some(Value::Bytes(b)) => Some(b),
        None => None,
        other => panic!("{other:?}"),
    }
}

fn string(fs: &[(u64, Value)], tag: u64) -> Option<String> {
    bytes(fs, tag).map(|b| String::from_utf8(b).unwrap())
}

/// A packet in a few words.
#[derive(Clone, Debug, PartialEq)]
enum Packet {
    Clock(Vec<(u64, u64)>),
    Track {
        uuid: u64,
        parent: Option<u64>,
        name: String,
        unit: Option<u64>,
        merge_key: Option<String>,
    },
    Event {
        ts: u64,
        kind: u64,
        track: u64,
        name: Option<String>,
        int: Option<i64>,
        double: Option<f64>,
        correlation: Option<u64>,
        annotations: Vec<(String, String)>,
    },
}

fn packets(trace: &[u8]) -> Vec<Packet> {
    let mut out = Vec::new();
    for (tag, value) in fields(trace) {
        assert_eq!(tag, 1);
        let Value::Bytes(body) = value else { panic!("not a packet") };
        let fs = fields(&body);
        assert_eq!(number(&fs, 10), Some(1), "sequence id");
        if let Some(snapshot) = bytes(&fs, 6) {
            assert_eq!(number(&fs, 13), Some(1), "sequence flags");
            let clocks = all(&fields(&snapshot), 1)
                .into_iter()
                .map(|v| {
                    let Value::Bytes(b) = v else { panic!("not a clock") };
                    let c = fields(&b);
                    (number(&c, 1).unwrap(), number(&c, 2).unwrap())
                })
                .collect();
            out.push(Packet::Clock(clocks));
            continue;
        }
        assert_eq!(number(&fs, 13), None, "sequence flags");
        if let Some(track) = bytes(&fs, 60) {
            let t = fields(&track);
            let unit = bytes(&t, 8).map(|c| number(&fields(&c), 3).unwrap());
            if string(&t, 16).is_some() {
                assert_eq!(number(&t, 15), Some(3));
            }
            out.push(Packet::Track {
                uuid: number(&t, 1).unwrap(),
                parent: number(&t, 5),
                name: string(&t, 2).unwrap(),
                unit,
                merge_key: string(&t, 16),
            });
            continue;
        }
        assert_eq!(number(&fs, 58), Some(1), "clock of the timestamp");
        let e = fields(&bytes(&fs, 11).unwrap());
        let annotations = all(&e, 4)
            .into_iter()
            .map(|v| {
                let Value::Bytes(b) = v else { panic!("not an annotation") };
                let a = fields(&b);
                let value = match number(&a, 3) {
                    Some(n) => n.to_string(),
                    None => string(&a, 6).unwrap(),
                };
                (string(&a, 10).unwrap(), value)
            })
            .collect();
        let double = match all(&e, 44).pop() {
            Some(Value::Fixed(bits)) => Some(f64::from_bits(bits)),
            None => None,
            other => panic!("{other:?}"),
        };
        out.push(Packet::Event {
            ts: number(&fs, 8).unwrap(),
            kind: number(&e, 9).unwrap(),
            track: number(&e, 11).unwrap(),
            name: string(&e, 23),
            int: number(&e, 30).map(|n| n as i64),
            double,
            correlation: number(&e, 52),
            annotations,
        });
    }
    out
}

const BEGIN: u64 = 1;
const END: u64 = 2;
const INSTANT: u64 = 3;
const COUNTER: u64 = 4;

const GROUP: u64 = 0xFFFF_FFFF_0000_0000;
const COUNTERS: u64 = GROUP + 0x1000;
const SALT: u64 = 0x5A5A_A5A5_C3C3_3C3D;

fn at(nanos: u64) -> SystemTime {
    SystemTime::unix_epoch().plus(Duration::from_nanos(nanos))
}

fn now() -> SystemTime {
    at(77)
}

fn clock() -> Packet {
    Packet::Clock(vec![(6, 77), (1, 77)])
}

fn group(n: u64, name: &str) -> Packet {
    Packet::Track {
        uuid: GROUP + n,
        parent: None,
        name: name.to_owned(),
        unit: None,
        merge_key: None,
    }
}

fn member(uuid: u64, n: u64, key: &str, name: &str) -> Packet {
    Packet::Track {
        uuid,
        parent: Some(GROUP + n),
        name: name.to_owned(),
        unit: None,
        merge_key: Some(key.to_owned()),
    }
}

fn counter_track(k: u64, name: &str, unit: u64, parent: Option<u64>) -> Packet {
    Packet::Track {
        uuid: COUNTERS + k,
        parent,
        name: name.to_owned(),
        unit: Some(unit),
        merge_key: None,
    }
}

fn counter(ts: u64, k: u64, value: i64) -> Packet {
    Packet::Event {
        ts,
        kind: COUNTER,
        track: COUNTERS + k,
        name: None,
        int: Some(value),
        double: None,
        correlation: None,
        annotations: vec![],
    }
}

fn double_counter(ts: u64, k: u64, value: f64) -> Packet {
    Packet::Event {
        ts,
        kind: COUNTER,
        track: COUNTERS + k,
        name: None,
        int: None,
        double: Some(value),
        correlation: None,
        annotations: vec![],
    }
}

fn begin(ts: u64, track: u64, name: &str, annotations: &[(&str, &str)]) -> Packet {
    Packet::Event {
        ts,
        kind: BEGIN,
        track,
        name: Some(name.to_owned()),
        int: None,
        double: None,
        correlation: None,
        annotations: annotations
            .iter()
            .map(|(k, v)| ((*k).to_owned(), (*v).to_owned()))
            .collect(),
    }
}

fn end(ts: u64, track: u64) -> Packet {
    Packet::Event {
        ts,
        kind: END,
        track,
        name: None,
        int: None,
        double: None,
        correlation: None,
        annotations: vec![],
    }
}

fn correlated(p: Packet, id: u64) -> Packet {
    match p {
        Packet::Event {
            ts,
            kind,
            track,
            name,
            int,
            double,
            annotations,
            ..
        } => Packet::Event {
            ts,
            kind,
            track,
            name,
            int,
            double,
            correlation: Some(id),
            annotations,
        },
        other => other,
    }
}

fn start_event(ts: u64, id: u64, parent: Option<u64>, start: SpanStart) -> BuckEvent {
    BuckEvent {
        timestamp: at(ts),
        span_id: Some(id),
        parent_id: parent,
        data: EventData::SpanStart(Some(start)),
    }
}

fn end_event(ts: u64, id: u64, nanos: u64) -> BuckEvent {
    BuckEvent {
        timestamp: at(ts),
        span_id: Some(id),
        parent_id: None,
        data: EventData::SpanEnd(SpanEnd {
            duration: Some(Ok(Duration::from_nanos(nanos))),
            materialization: None,
        }),
    }
}

fn instant_event(ts: u64, instant: Instant) -> BuckEvent {
    BuckEvent {
        timestamp: at(ts),
        span_id: None,
        parent_id: None,
        data: EventData::Instant(Some(instant)),
    }
}

fn action(name: &str) -> SpanStart {
    SpanStart::ActionExecution {
        identity: Ok(name.to_owned()),
    }
}

fn stage(stage: Stage, display: Option<&str>) -> SpanStart {
    SpanStart::ExecutorStage {
        stage: Some(ExecutorStage {
            stage,
            display: display.map(|s| s.to_owned()),
        }),
    }
}

fn load(module: &str) -> SpanStart {
    SpanStart::Load {
        module_id: module.to_owned(),
    }
}

/// Hands the events over, and reads back what was written.
fn run(min: u64, events: &[BuckEvent]) -> (Vec<Packet>, Stats) {
    let mut writer = PerfettoWriter::new(Duration::from_nanos(min));
    for event in events {
        assert!(writer.has_room(event));
        writer.handle_event(event, now()).unwrap();
    }
    let (bytes, stats) = writer.finish();
    let out = packets(&bytes);
    assert_eq!(out.len() as u64, stats.packets);
    (out, stats)
}

#[test]
fn nothing_is_written_without_events() {
    let (out, stats) = run(0, &[]);
    assert_eq!(out, vec![]);
    assert_eq!(
        stats.to_text(),
        "packets=0 tracks=0 spans_seen=0 spans_emitted=0 spans_dropped=0 counters=0 instants=0 critical_path_slices=0",
    );
}

#[test]
fn a_root_span_gets_a_track_and_a_slice() {
    let events = [
        start_event(1_000, 42, None, SpanStart::Command),
        end_event(5_000, 42, 3_000),
    ];
    let (out, stats) = run(0, &events);
    assert_eq!(
        out,
        vec![
            clock(),
            group(4, "misc"),
            member(42, 4, "misc", "command"),
            begin(1_000, 42, "command", &[("span_id", "42")]),
            end(4_000, 42),
        ],
    );
    assert_eq!(
        stats.to_text(),
        "packets=5 tracks=2 spans_seen=1 spans_emitted=1 spans_dropped=0 counters=0 instants=0 critical_path_slices=0",
    );
}

#[test]
fn the_clock_packet_comes_first_and_once() {
    let events = [
        start_event(1, 1, None, SpanStart::FileWatcher),
        end_event(2, 1, 5),
        start_event(3, 2, None, SpanStart::FileWatcher),
        end_event(4, 2, 5),
    ];
    let (out, _) = run(0, &events);
    assert_eq!(out[0], clock());
    assert_eq!(out.iter().filter(|p| matches!(p, Packet::Clock(_))).count(), 1);
}

#[test]
fn slices_are_followed_by_their_ends() {
    let events = [
        start_event(1, 1, None, SpanStart::FileWatcher),
        start_event(2, 2, Some(1), SpanStart::FinalMaterialization),
        end_event(4, 2, 5),
        end_event(9, 1, 8),
    ];
    let (out, _) = run(0, &events);
    for (i, p) in out.iter().enumerate() {
        if let Packet::Event { kind: BEGIN, track, .. } = p {
            let Packet::Event { kind: END, track: other, .. } = &out[i + 1] else {
                panic!("{:?}", out[i + 1])
            };
            assert_eq!(track, other);
        }
    }
}

#[test]
fn a_child_span_is_on_the_track_of_its_parent() {
    let events = [
        start_event(1, 1, None, SpanStart::FileWatcher),
        start_event(2, 2, Some(1), SpanStart::FinalMaterialization),
        end_event(4, 2, 5),
    ];
    let (out, stats) = run(0, &events);
    assert_eq!(
        out,
        vec![
            clock(),
            begin(2, 1, "materialization", &[("span_id", "2")]),
            end(7, 1),
        ],
    );
    assert_eq!(stats.tracks, 0);
}

#[test]
fn a_parent_that_is_not_open_does_not_count() {
    let events = [
        start_event(2, 2, Some(1), SpanStart::FinalMaterialization),
        end_event(4, 2, 5),
    ];
    let (out, _) = run(0, &events);
    assert_eq!(out[1], group(1, "actions"));
    assert_eq!(out[2], member(2, 1, "actions", "materialization"));
}

#[test]
fn short_spans_are_dropped() {
    let events = [
        start_event(1, 1, None, SpanStart::FileWatcher),
        end_event(2, 1, 99),
        start_event(3, 2, None, SpanStart::FileWatcher),
        end_event(4, 2, 100),
    ];
    let (out, stats) = run(100, &events);
    assert_eq!(stats.spans_seen, 2);
    assert_eq!(stats.spans_emitted, 1);
    assert_eq!(stats.spans_dropped, 1);
    assert_eq!(out.len(), 5);
}

#[test]
fn an_end_without_a_start_is_ignored() {
    let (out, stats) = run(0, &[end_event(2, 1, 99)]);
    assert_eq!(out, vec![]);
    assert_eq!(stats.spans_seen, 0);
}

#[test]
fn events_without_a_span_or_data_are_ignored() {
    let bare = |data: EventData| BuckEvent {
        timestamp: at(1),
        span_id: None,
        parent_id: None,
        data,
    };
    let events = [
        bare(EventData::SpanStart(Some(SpanStart::Command))),
        bare(EventData::SpanStart(None)),
        bare(EventData::SpanEnd(SpanEnd {
            duration: None,
            materialization: Some(Materialization {
                success: false,
                path: "p".to_owned(),
                file_count: 0,
                total_bytes: 0,
                error: None,
            }),
        })),
        bare(EventData::Instant(None)),
        bare(EventData::Instant(Some(Instant::Other))),
        bare(EventData::Record),
    ];
    let (out, stats) = run(0, &events);
    assert_eq!(out, vec![]);
    assert_eq!(stats.spans_seen, 0);
}

#[test]
fn open_spans_are_counted() {
    let events = [
        start_event(1, 1, None, load("a")),
        start_event(2, 2, None, load("b")),
        end_event(3, 1, 0),
        end_event(4, 2, 0),
    ];
    let (out, stats) = run(1, &events);
    assert_eq!(
        out,
        vec![
            clock(),
            group(6, "open spans"),
            counter_track(0, "spans: load", 2, Some(GROUP + 6)),
            counter(1, 0, 1),
            counter(2, 0, 2),
            counter(3, 0, 1),
            counter(4, 0, 0),
        ],
    );
    assert_eq!(stats.counters_emitted, 4);
    assert_eq!(stats.tracks, 2);
}

#[test]
fn a_span_that_starts_twice_is_counted_twice() {
    let events = [
        start_event(1, 1, None, load("a")),
        start_event(2, 1, None, load("a")),
        end_event(3, 1, 0),
    ];
    let (out, _) = run(1, &events);
    assert_eq!(out.last(), Some(&counter(3, 0, 1)));
}

#[test]
fn counters_have_tracks_of_their_own() {
    let events = [
        start_event(1, 1, None, load("a")),
        start_event(2, 2, None, SpanStart::ReUpload),
        start_event(
            3,
            3,
            None,
            SpanStart::Analysis {
                target: Some(Ok("//:t".to_owned())),
            },
        ),
        start_event(4, 4, None, stage(Stage::Other, Some("re_download"))),
        start_event(5, 5, None, stage(Stage::Other, None)),
        start_event(6, 6, None, SpanStart::ExecutorStage { stage: None }),
    ];
    let (out, _) = run(1, &events);
    let names: Vec<(u64, String)> = out
        .iter()
        .filter_map(|p| match p {
            Packet::Track { uuid, name, unit: Some(_), .. } => Some((*uuid, name.clone())),
            _ => None,
        })
        .collect();
    assert_eq!(
        names,
        vec![
            (COUNTERS, "spans: load".to_owned()),
            (COUNTERS + 1, "spans: re_upload".to_owned()),
            (COUNTERS + 2, "spans: analysis".to_owned()),
            (COUNTERS + 3, "spans: re_download".to_owned()),
        ],
    );
}

#[test]
fn stages_stand_in_for_their_action() {
    let events = [
        start_event(10, 7, None, action("//:a (cxx)")),
        start_event(11, 8, Some(7), stage(Stage::Local(Some(LocalStage::Queued)), Some("local_queued"))),
        end_event(12, 8, 1),
        start_event(13, 9, Some(7), stage(Stage::Local(Some(LocalStage::Execute)), Some("local_execute"))),
        end_event(14, 9, 2),
        start_event(15, 10, Some(7), stage(Stage::Local(Some(LocalStage::WorkerWait)), Some("worker_wait"))),
        end_event(16, 10, 3),
        start_event(17, 11, Some(7), stage(Stage::Re(Some(ReStage::Other)), Some("re_download"))),
        end_event(18, 11, 4),
        end_event(20, 7, 10),
    ];
    let (out, stats) = run(0, &events);
    let slices: Vec<Packet> = out
        .iter()
        .filter(|p| matches!(p, Packet::Event { kind: BEGIN, .. }))
        .cloned()
        .collect();
    let extra = [("action", "//:a (cxx)"), ("action_span_id", "7")];
    let with = |id: &'static str| {
        let mut v = vec![("span_id", id)];
        v.extend(extra);
        v
    };
    assert_eq!(
        slices,
        vec![
            correlated(begin(11, 7 ^ SALT, "//:a (cxx)", &with("8")), 7),
            correlated(begin(13, 7, "//:a (cxx)", &with("9")), 7),
            correlated(begin(15, 7 ^ SALT, "//:a (cxx) (worker_wait)", &with("10")), 7),
            correlated(begin(17, 7, "re_download", &with("11")), 7),
        ],
    );
    assert_eq!(stats.spans_emitted, 4);
    assert_eq!(stats.spans_seen, 5);
    assert!(out.contains(&group(7, "queued")));
    assert!(out.contains(&member(7 ^ SALT, 7, "queued", "//:a (cxx)")));
    assert!(out.contains(&member(7, 1, "actions", "//:a (cxx)")));
    let lane = out
        .iter()
        .filter(|p| **p == member(7, 1, "actions", "//:a (cxx)"))
        .count();
    assert_eq!(lane, 1);
}

#[test]
fn an_action_without_stages_gets_its_own_slice() {
    let events = [start_event(10, 7, None, action("//:a")), end_event(20, 7, 10)];
    let (out, _) = run(0, &events);
    assert_eq!(out[3], begin(10, 7, "//:a", &[("span_id", "7")]));
}

#[test]
fn a_stage_outside_an_action_is_a_plain_span() {
    let events = [
        start_event(1, 1, None, SpanStart::FileWatcher),
        start_event(2, 2, Some(1), stage(Stage::Local(Some(LocalStage::Queued)), Some("local_queued"))),
        end_event(3, 2, 1),
    ];
    let (out, _) = run(0, &events);
    let last = out.len();
    assert_eq!(out[last - 2], begin(2, 1, "local_queued", &[("span_id", "2")]));
}

#[test]
fn failed_materializations_are_marked() {
    let failed = |error: Option<&str>| {
        Some(Materialization {
            success: false,
            path: "out/x".to_owned(),
            file_count: 3,
            total_bytes: 99,
            error: error.map(|s| s.to_owned()),
        })
    };
    let event = |m: Option<Materialization>| BuckEvent {
        timestamp: at(5),
        span_id: Some(1),
        parent_id: None,
        data: EventData::SpanEnd(SpanEnd { duration: None, materialization: m }),
    };
    let ok = Some(Materialization {
        success: true,
        path: String::new(),
        file_count: 0,
        total_bytes: 0,
        error: None,
    });
    let (out, stats) = run(0, &[event(ok), event(failed(Some("boom"))), event(failed(None))]);
    let instant = |error: &str| Packet::Event {
        ts: 5,
        kind: INSTANT,
        track: GROUP + 4,
        name: Some("materialization_failure".to_owned()),
        int: None,
        double: None,
        correlation: None,
        annotations: vec![
            ("path".to_owned(), "out/x".to_owned()),
            ("file_count".to_owned(), "3".to_owned()),
            ("total_bytes".to_owned(), "99".to_owned()),
            ("error".to_owned(), error.to_owned()),
        ],
    };
    assert_eq!(out, vec![clock(), group(4, "misc"), instant("boom"), instant("")]);
    assert_eq!(stats.instants_emitted, 2);
}

#[test]
fn preemption_is_marked() {
    let (out, _) = run(0, &[instant_event(9, Instant::CommandPreempted)]);
    assert_eq!(out.len(), 3);
    let Packet::Event { kind, name, .. } = &out[2] else { panic!() };
    assert_eq!(*kind, INSTANT);
    assert_eq!(name.as_deref(), Some("command_preempted"));
}

fn snapshot(max_rss: u64, malloc: Option<u64>, rate: u64, nics: &[(&str, u64, u64)]) -> Snapshot {
    Snapshot {
        buck2_max_rss: max_rss,
        malloc_bytes_active: malloc,
        deferred_materializer_queue_size: 4,
        blocking_executor_io_queue_size: 5,
        tokio_blocking_queue_depth: u64::MAX,
        buck2_user_cpu_us: rate,
        buck2_system_cpu_us: 0,
        re_upload_bytes: 0,
        re_download_bytes: 0,
        http_download_bytes: 0,
        network_interface_stats: nics
            .iter()
            .map(|(nic, tx, rx)| NetworkInterfaceStats {
                nic: (*nic).to_owned(),
                tx_bytes: *tx,
                rx_bytes: *rx,
            })
            .collect(),
    }
}

#[test]
fn snapshots_become_counters() {
    let first = snapshot(1_234_567_891, Some(3), 100, &[("en0", 10, 20)]);
    let (out, stats) = run(0, &[instant_event(1_000_000_000, Instant::Snapshot(first))]);
    assert_eq!(
        out,
        vec![
            clock(),
            counter_track(0, "max_rss_gigabyte", 3, None),
            double_counter(1_000_000_000, 0, 1_234_567_891f64 / 1e9),
            counter_track(1, "malloc_active_gigabyte", 3, None),
            double_counter(1_000_000_000, 1, 3f64 / 1e9),
            counter_track(2, "deferred_materializer_queue_size", 2, None),
            counter(1_000_000_000, 2, 4),
            counter_track(3, "blocking_executor_io_queue_size", 2, None),
            counter(1_000_000_000, 3, 5),
            counter_track(4, "tokio_blocking_queue_depth", 2, None),
            counter(1_000_000_000, 4, -1),
        ],
    );
    assert_eq!(stats.counters_emitted, 5);
}

#[test]
fn rates_come_with_the_second_snapshot() {
    let events = [
        instant_event(1_000_000_000, Instant::Snapshot(snapshot(0, None, 100, &[("en0", 10, 20)]))),
        instant_event(3_000_000_000, Instant::Snapshot(snapshot(0, None, 700, &[("en0", 4, 27)]))),
        instant_event(3_000_000_000, Instant::Snapshot(snapshot(0, None, 900, &[("en0", 5, 28)]))),
    ];
    let (out, _) = run(0, &events);
    let rates: Vec<(String, f64)> = out
        .iter()
        .filter_map(|p| match p {
            Packet::Event { double: Some(v), track, .. } => {
                let name = out.iter().find_map(|q| match q {
                    Packet::Track { uuid, name, .. } if uuid == track => Some(name.clone()),
                    _ => None,
                });
                Some((name.unwrap(), *v))
            }
            _ => None,
        })
        .filter(|(name, _)| name.ends_with("_per_s"))
        .collect();
    assert_eq!(
        rates,
        vec![
            ("user_cpu_us_per_s".to_owned(), 300.0),
            ("system_cpu_us_per_s".to_owned(), 0.0),
            ("re_upload_bytes_per_s".to_owned(), 0.0),
            ("re_download_bytes_per_s".to_owned(), 0.0),
            ("http_download_bytes_per_s".to_owned(), 0.0),
            ("en0_send_bytes_per_s".to_owned(), 0.0),
            ("en0_receive_bytes_per_s".to_owned(), 3.5),
        ],
    );
}

fn path_entry(offset: Option<u64>, total: Option<u64>, other: Option<u64>, name: Option<&str>) -> PathEntry {
    PathEntry {
        start_offset_ns: offset,
        total_duration: total.map(Duration::from_micros),
        non_critical_path_duration: other.map(Duration::from_micros),
        display: Ok(name.map(|s| s.to_owned())),
    }
}

#[test]
fn the_critical_path_is_counted_from_the_start_of_the_command() {
    let events = [
        start_event(500, 1, None, SpanStart::Command),
        instant_event(
            600,
            Instant::BuildGraphInfo(vec![
                path_entry(Some(7), Some(900), Some(200), Some("a")),
                path_entry(None, Some(999), None, Some("too short")),
                path_entry(None, Some(5_000), None, None),
                path_entry(None, None, Some(1_000), Some("b")),
            ]),
        ),
    ];
    let (out, stats) = run(0, &events);
    assert_eq!(
        out,
        vec![
            clock(),
            group(5, "critical path"),
            begin(507, GROUP + 5, "a", &[]),
            end(507 + 1_100_000, GROUP + 5),
            begin(500, GROUP + 5, "b", &[]),
            end(500 + 1_000_000, GROUP + 5),
        ],
    );
    assert_eq!(stats.critical_path_slices, 2);
}

#[test]
fn the_critical_path_needs_a_command() {
    let info = Instant::BuildGraphInfo(vec![path_entry(None, Some(5_000), None, Some("a"))]);
    let (out, _) = run(0, &[instant_event(600, info)]);
    assert_eq!(out, vec![]);
}

#[test]
fn a_nameless_entry_ends_the_critical_path() {
    let mut writer = PerfettoWriter::new(Duration::zero());
    writer
        .handle_event(&start_event(500, 1, None, SpanStart::Command), now())
        .unwrap();
    let failing = PathEntry {
        start_offset_ns: None,
        total_duration: Some(Duration::from_secs(1)),
        non_critical_path_duration: None,
        display: Err("no target".to_owned()),
    };
    let event = instant_event(
        600,
        Instant::BuildGraphInfo(vec![
            path_entry(None, Some(5_000), None, Some("a")),
            failing,
            path_entry(None, Some(5_000), None, Some("b")),
        ]),
    );
    assert_eq!(
        writer.handle_event(&event, now()),
        Err(WriterError::Display("no target".to_owned())),
    );
    assert_eq!(writer.stats().critical_path_slices, 1);
}

#[test]
fn each_error_has_its_event() {
    let mut writer = PerfettoWriter::new(Duration::zero());
    let missing = start_event(1, 1, None, SpanStart::Analysis { target: None });
    let error = writer.handle_event(&missing, now()).unwrap_err();
    assert_eq!(error, WriterError::MissingTarget);
    assert_eq!(error.message(), "AnalysisStart missing target");
    let unknown = start_event(
        1,
        1,
        None,
        SpanStart::ActionExecution { identity: Err("bad key".to_owned()) },
    );
    let error = writer.handle_event(&unknown, now()).unwrap_err();
    assert_eq!(error.message(), "bad key");
    assert_eq!(writer.stats().spans_seen, 2);

    writer.handle_event(&start_event(1, 1, None, load("a")), now()).unwrap();
    let end = |duration| BuckEvent {
        timestamp: at(2),
        span_id: Some(1),
        parent_id: None,
        data: EventData::SpanEnd(SpanEnd { duration, materialization: None }),
    };
    let error = writer.handle_event(&end(None), now()).unwrap_err();
    assert_eq!(error, WriterError::MissingDuration);
    assert_eq!(error.message(), "SpanEnd missing duration");
    // The span was closed all the same.
    writer.handle_event(&end(None), now()).unwrap();

    writer.handle_event(&start_event(1, 1, None, load("a")), now()).unwrap();
    let error = writer.handle_event(&end(Some(Err("negative".to_owned()))), now()).unwrap_err();
    assert_eq!(error, WriterError::InvalidDuration("negative".to_owned()));
    assert_eq!(error.message(), "negative");
}

#[test]
fn output_can_be_taken_in_pieces() {
    let events = [
        start_event(1, 1, None, load("a")),
        end_event(3, 1, 9),
        instant_event(9, Instant::CommandPreempted),
    ];
    let mut whole = PerfettoWriter::new(Duration::zero());
    let mut pieces = PerfettoWriter::new(Duration::zero());
    let mut taken = Vec::new();
    for event in &events {
        whole.handle_event(event, now()).unwrap();
        pieces.handle_event(event, now()).unwrap();
        taken.extend(pieces.take_output());
    }
    assert_eq!(pieces.take_output(), Vec::<u8>::new());
    let (rest, stats) = pieces.finish();
    taken.extend(rest);
    let (bytes, whole_stats) = whole.finish();
    assert_eq!(taken, bytes);
    assert_eq!(stats, whole_stats);
}

#[test]
fn statistics_account_for_every_packet() {
    let events = [
        start_event(500, 1, None, SpanStart::Command),
        start_event(501, 2, Some(1), load("a")),
        instant_event(600, Instant::BuildGraphInfo(vec![path_entry(None, Some(5_000), None, Some("a"))])),
        instant_event(700, Instant::CommandPreempted),
        end_event(900, 2, 300),
        end_event(1000, 1, 400),
    ];
    let (out, s) = run(0, &events);
    assert_eq!(
        out.len() as u64,
        1 + s.tracks
            + s.counters_emitted
            + s.instants_emitted
            + 2 * (s.spans_emitted + s.critical_path_slices),
    );
    let mut tracks: Vec<u64> = out
        .iter()
        .filter_map(|p| match p {
            Packet::Track { uuid, .. } => Some(*uuid),
            _ => None,
        })
        .collect();
    assert_eq!(tracks.len() as u64, s.tracks);
    tracks.sort();
    tracks.dedup();
    assert_eq!(tracks.len() as u64, s.tracks);
}

#[test]
fn times_before_the_epoch_are_zero() {
    assert_eq!(PerfettoWriter::unix_nanos(SystemTime::from_parts(-5, 0)), 0);
    assert_eq!(PerfettoWriter::unix_nanos(SystemTime::from_parts(5, 1)), 5_000_000_001);
    assert_eq!(
        PerfettoWriter::unix_nanos(SystemTime::from_parts(i64::MAX, 0)),
        ((i64::MAX as u128) * 1_000_000_000) as u64,
    );
}

#[test]
fn a_slice_has_to_end_in_time() {
    let mut writer = PerfettoWriter::new(Duration::zero());
    writer
        .handle_event(&start_event(1, 1, None, SpanStart::FileWatcher), now())
        .unwrap();
    let endless = BuckEvent {
        timestamp: at(2),
        span_id: Some(1),
        parent_id: None,
        data: EventData::SpanEnd(SpanEnd {
            duration: Some(Ok(Duration::from_secs(u64::MAX))),
            materialization: None,
        }),
    };
    assert!(!writer.has_room(&endless));
    assert!(writer.has_room(&end_event(2, 1, 1)));
}

#[test]
fn span_names_and_groups() {
    let cases = [
        (SpanStart::Command, "command", Category::Misc),
        (
            SpanStart::Analysis { target: Some(Ok("//:t".to_owned())) },
            "analysis //:t",
            Category::Analysis,
        ),
        (load("m.bzl"), "load m.bzl", Category::Loads),
        (
            SpanStart::LoadPackage { path: "pkg".to_owned() },
            "listing pkg",
            Category::Loads,
        ),
        (action("//:a"), "//:a", Category::Actions),
        (stage(Stage::Other, Some("re_upload")), "re_upload", Category::Actions),
        (stage(Stage::Other, None), "executor_stage", Category::Actions),
        (SpanStart::ExecutorStage { stage: None }, "executor_stage", Category::Actions),
        (SpanStart::FinalMaterialization, "materialization", Category::Actions),
        (SpanStart::FileWatcher, "file_watcher_sync", Category::Misc),
        (SpanStart::ReUpload, "re_upload", Category::Actions),
        (
            SpanStart::Other { debug: "Bxl_2é(Bxl { .. })".to_owned() },
            "Bxl_2é",
            Category::Misc,
        ),
        (SpanStart::Other { debug: "(x)".to_owned() }, "<unknown>", Category::Misc),
        (SpanStart::Other { debug: String::new() }, "<unknown>", Category::Misc),
    ];
    for (start, name, category) in cases {
        assert_eq!(
            spans::span_name_and_category(&start),
            Ok((name.to_owned(), category)),
        );
    }
    assert_eq!(Category::Loads.key(), "loads");
    assert_eq!(Category::Analysis.key(), "analysis");
    assert_eq!(Category::Loads.group_uuid(), GROUP + 3);
}

#[test]
fn waiting_tracks_are_apart() {
    let ids = [0u64, 1, u64::MAX, 0xA5A5_5A5A_0000_0000, 42];
    for a in ids {
        assert_eq!(spans::queued_track_uuid(spans::queued_track_uuid(a)), a);
        assert_ne!(spans::queued_track_uuid(a), a);
        for b in ids {
            assert_eq!(
                spans::queued_track_uuid(a) == spans::queued_track_uuid(b),
                a == b,
            );
        }
    }
    assert!(spans::queued_track_uuid(42) < GROUP);
    assert!(spans::queued_track_uuid(0xA5A5_5A5A_0000_0000) >= GROUP);
}

#[test]
fn stages_wait_or_execute() {
    let local = |s| Stage::Local(Some(s));
    let re = |s| Stage::Re(Some(s));
    for s in [local(LocalStage::Execute), local(LocalStage::WorkerExecute), re(ReStage::Execute)] {
        assert!(spans::stage_is_execution(&s));
        assert!(!spans::stage_is_waiting(&s));
    }
    for s in [
        local(LocalStage::Queued),
        local(LocalStage::WorkerQueued),
        local(LocalStage::WorkerWait),
        local(LocalStage::AcquireLocalResource),
        re(ReStage::Queue),
        re(ReStage::QueueOverQuota),
        re(ReStage::QueueAcquiringDependencies),
        re(ReStage::QueueNoWorkerAvailable),
        re(ReStage::QueueCancelled),
    ] {
        assert!(spans::stage_is_waiting(&s));
        assert!(!spans::stage_is_execution(&s));
    }
    for s in [
        local(LocalStage::WorkerInit),
        local(LocalStage::Other),
        re(ReStage::Other),
        Stage::Local(None),
        Stage::Re(None),
        Stage::Other,
    ] {
        assert!(!spans::stage_is_waiting(&s));
        assert!(!spans::stage_is_execution(&s));
    }
}

/// A build with spans of several kinds, stages, counters, instants and a critical path.
fn busy_build() -> Vec<BuckEvent> {
    vec![
        start_event(500, 1, None, SpanStart::Command),
        start_event(510, 2, Some(1), load("a")),
        start_event(520, 3, None, action("//:a")),
        start_event(530, 4, Some(3), stage(Stage::Re(Some(ReStage::Queue)), Some("re_queued"))),
        end_event(540, 4, 10),
        start_event(550, 5, Some(3), stage(Stage::Re(Some(ReStage::Execute)), Some("re_execute"))),
        instant_event(555, Instant::Snapshot(snapshot(5, Some(6), 7, &[("en0", 8, 9)]))),
        end_event(560, 5, 10),
        end_event(570, 3, 50),
        instant_event(580, Instant::CommandPreempted),
        instant_event(590, Instant::BuildGraphInfo(vec![path_entry(None, Some(5_000), None, Some("a"))])),
        instant_event(600, Instant::Snapshot(snapshot(5, Some(6), 7, &[("en0", 8, 9)]))),
        end_event(610, 2, 100),
        end_event(620, 1, 2),
    ]
}

#[test]
fn declarations_come_first() {
    let (out, _) = run(5, &busy_build());
    let mut declared = vec![];
    for p in &out {
        match p {
            Packet::Clock(_) => assert!(declared.is_empty()),
            Packet::Track { uuid, parent, .. } => {
                assert!(parent.iter().all(|p| declared.contains(p)), "{p:?}");
                assert!(!declared.contains(uuid), "{p:?}");
                declared.push(*uuid);
            }
            // A span inside another one is on the other's track, which may come later.
            Packet::Event { track: 1, .. } => {}
            Packet::Event { track, .. } => assert!(declared.contains(track), "{p:?}"),
        }
    }
    // Five groups, two tracks of the action, and fifteen counters.
    assert_eq!(declared.len(), 22);
}

#[test]
fn counts_only_grow() {
    let mut writer = PerfettoWriter::new(Duration::from_nanos(5));
    let counts = |s: &Stats| {
        [
            s.packets,
            s.spans_seen,
            s.spans_emitted,
            s.spans_dropped,
            s.counters_emitted,
            s.instants_emitted,
            s.critical_path_slices,
            s.tracks,
        ]
    };
    let mut before = counts(&writer.stats());
    for event in &busy_build() {
        writer.handle_event(event, now()).unwrap();
        let stats = writer.stats();
        let after = counts(&stats);
        assert!(before.iter().zip(after).all(|(b, a)| *b <= a), "{before:?} {after:?}");
        assert!(stats.spans_emitted + stats.spans_dropped <= stats.spans_seen);
        before = after;
    }
    let (_, stats) = writer.finish();
    assert_eq!((stats.spans_seen, stats.spans_emitted, stats.spans_dropped), (5, 3, 1));
}

#[test]
fn an_end_undoes_its_start() {
    let (out, _) = run(5, &busy_build());
    for name in ["spans: load", "spans: re_queued", "spans: re_execute"] {
        let uuid = out.iter().find_map(|p| match p {
            Packet::Track { uuid, name: n, .. } if n == name => Some(*uuid),
            _ => None,
        });
        let values: Vec<i64> = out
            .iter()
            .filter_map(|p| match p {
                Packet::Event { track, int: Some(v), .. } if Some(*track) == uuid => Some(*v),
                _ => None,
            })
            .collect();
        assert_eq!(values, vec![1, 0], "{name}");
    }
}

#[test]
fn the_last_value_is_the_number_of_open_spans() {
    let events = [
        start_event(1, 1, None, load("a")),
        start_event(2, 2, None, load("b")),
        start_event(3, 3, None, SpanStart::ReUpload),
        start_event(4, 4, None, SpanStart::Command),
        end_event(5, 1, 0),
        // A span that was open starts anew once it has ended.
        start_event(6, 1, None, load("a")),
        end_event(7, 9, 0),
        end_event(8, 3, 0),
    ];
    for min in [0, 1_000] {
        let (out, _) = run(min, &events);
        let last = |name: &str| {
            let uuid = out.iter().find_map(|p| match p {
                Packet::Track { uuid, name: n, .. } if n == name => Some(*uuid),
                _ => None,
            });
            out.iter()
                .rev()
                .find_map(|p| match p {
                    Packet::Event { track, int: Some(v), .. } if Some(*track) == uuid => Some(*v),
                    _ => None,
                })
                .unwrap_or(0)
        };
        assert_eq!(last("spans: load"), 2);
        assert_eq!(last("spans: re_upload"), 0);
        assert_eq!(last("spans: analysis"), 0);
        let written = out.iter().filter(|p| matches!(p, Packet::Event { kind: COUNTER, .. }));
        assert_eq!(written.count(), 6);
    }
}

#[test]
fn counters_keep_their_tracks_whatever_the_ids() {
    // Root spans whose own tracks bear the uuids of counters.
    let events = [
        start_event(1, COUNTERS, None, SpanStart::FileWatcher),
        end_event(2, COUNTERS, 9),
        start_event(3, 1, None, load("a")),
        start_event(4, COUNTERS + 1, None, SpanStart::ReUpload),
        end_event(5, COUNTERS + 1, 9),
        start_event(6, 2, None, load("b")),
    ];
    let (out, _) = run(0, &events);
    let declared: Vec<(u64, &str)> = out
        .iter()
        .filter_map(|p| match p {
            Packet::Track { uuid, name, unit: Some(_), .. } => Some((*uuid, name.as_str())),
            _ => None,
        })
        .collect();
    assert_eq!(declared, vec![(COUNTERS, "spans: load"), (COUNTERS + 1, "spans: re_upload")]);
    assert_eq!(out.last(), Some(&counter(6, 0, 2)));
}
