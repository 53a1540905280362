use buck2_telemetry::perfetto_proto::Clock;
use buck2_telemetry::perfetto_proto::ClockSnapshot;
use buck2_telemetry::perfetto_proto::CounterDescriptor;
use buck2_telemetry::perfetto_proto::DebugAnnotation;
use buck2_telemetry::perfetto_proto::Trace;
use buck2_telemetry::perfetto_proto::TracePacket;
use buck2_telemetry::perfetto_proto::TracePacketWrapper;
use buck2_telemetry::perfetto_proto::TrackDescriptor;
use buck2_telemetry::perfetto_proto::TrackEvent;
use prost::encoding;

/// A field that holds a message, as prost writes it.
fn message(tag: u32, body: &[u8], out: &mut Vec<u8>) {
    encoding::encode_key(tag, encoding::WireType::LengthDelimited, out);
    encoding::encode_varint(body.len() as u64, out);
    out.extend_from_slice(body);
}

#[test]
fn an_event_is_written_as_prost_writes_it() {
    let event = TrackEvent {
        event_type: Some(-4),
        track_uuid: Some(u64::MAX),
        name: Some("naïve".to_owned()),
        categories: vec!["a".to_owned(), String::new()],
        counter_value: Some(-1),
        double_counter_value: Some(1.5f64.to_bits()),
        correlation_id: Some(300),
        debug_annotations: vec![
            DebugAnnotation::uint("n", 7),
            DebugAnnotation::string("s", "v".to_owned()),
            DebugAnnotation {
                name: None,
                uint_value: None,
                int_value: Some(i64::MIN),
                double_value: Some((-0.25f64).to_bits()),
                string_value: None,
            },
        ],
    };
    let packet = TracePacket {
        timestamp: Some(12_345_678_901_234_567_890),
        timestamp_clock_id: Some(1),
        trusted_packet_sequence_id: Some(1),
        sequence_flags: Some(0),
        track_event: Some(event),
        ..Default::default()
    };

    let mut body = Vec::new();
    let mut annotation = Vec::new();
    encoding::uint64::encode(3, &7, &mut annotation);
    encoding::string::encode(10, &"n".to_owned(), &mut annotation);
    message(4, &annotation, &mut body);
    let mut annotation = Vec::new();
    encoding::string::encode(6, &"v".to_owned(), &mut annotation);
    encoding::string::encode(10, &"s".to_owned(), &mut annotation);
    message(4, &annotation, &mut body);
    let mut annotation = Vec::new();
    encoding::int64::encode(4, &i64::MIN, &mut annotation);
    encoding::double::encode(5, &-0.25, &mut annotation);
    message(4, &annotation, &mut body);
    encoding::int32::encode(9, &-4, &mut body);
    encoding::uint64::encode(11, &u64::MAX, &mut body);
    encoding::string::encode_repeated(22, &["a".to_owned(), String::new()], &mut body);
    encoding::string::encode(23, &"naïve".to_owned(), &mut body);
    encoding::int64::encode(30, &-1, &mut body);
    encoding::double::encode(44, &1.5, &mut body);
    encoding::uint64::encode(52, &300, &mut body);

    let mut expected = Vec::new();
    encoding::uint64::encode(8, &12_345_678_901_234_567_890, &mut expected);
    encoding::uint32::encode(10, &1, &mut expected);
    message(11, &body, &mut expected);
    encoding::uint32::encode(13, &0, &mut expected);
    encoding::uint32::encode(58, &1, &mut expected);

    let mut field = Vec::new();
    message(1, &expected, &mut field);
    assert_eq!(packet.encode_as_trace_field(), field);
}

#[test]
fn a_declaration_is_written_as_prost_writes_it() {
    let packet = TracePacket {
        track_descriptor: Some(TrackDescriptor {
            uuid: Some(1),
            parent_uuid: Some(2),
            name: Some("track".to_owned()),
            counter: Some(CounterDescriptor {
                unit: Some(3),
                unit_name: Some("bytes".to_owned()),
            }),
            sibling_merge_behavior: Some(3),
            sibling_merge_key: Some("key".to_owned()),
        }),
        clock_snapshot: Some(ClockSnapshot {
            clocks: vec![
                Clock {
                    clock_id: Some(6),
                    timestamp: Some(9),
                },
                Clock {
                    clock_id: None,
                    timestamp: None,
                },
            ],
        }),
        ..Default::default()
    };

    let mut clock = Vec::new();
    encoding::uint32::encode(1, &6, &mut clock);
    encoding::uint64::encode(2, &9, &mut clock);
    let mut snapshot = Vec::new();
    message(1, &clock, &mut snapshot);
    message(1, &[], &mut snapshot);
    let mut counter = Vec::new();
    encoding::int32::encode(3, &3, &mut counter);
    encoding::string::encode(6, &"bytes".to_owned(), &mut counter);
    let mut track = Vec::new();
    encoding::uint64::encode(1, &1, &mut track);
    encoding::string::encode(2, &"track".to_owned(), &mut track);
    encoding::uint64::encode(5, &2, &mut track);
    message(8, &counter, &mut track);
    encoding::int32::encode(15, &3, &mut track);
    encoding::string::encode(16, &"key".to_owned(), &mut track);
    let mut expected = Vec::new();
    message(6, &snapshot, &mut expected);
    message(60, &track, &mut expected);

    let mut field = Vec::new();
    message(1, &expected, &mut field);
    assert_eq!(packet.encode_as_trace_field(), field);
}

#[test]
fn an_empty_packet_is_an_empty_field() {
    assert_eq!(TracePacket::default().encode_as_trace_field(), vec![0x0a, 0x00]);
}

#[test]
fn packets_one_by_one_are_the_trace() {
    let a = TracePacket {
        timestamp: Some(300),
        ..Default::default()
    };
    let b = TracePacket::default();
    let mut one_by_one = a.encode_as_trace_field();
    one_by_one.extend(b.encode_as_trace_field());
    assert_eq!(one_by_one, vec![0x0a, 0x03, 0x40, 0xac, 0x02, 0x0a, 0x00]);
    let trace = Trace {
        packet: vec![a.clone(), b],
    };
    assert_eq!(trace.encode_to_vec(), one_by_one);
    assert_eq!(
        TracePacketWrapper { packet: Some(a.clone()) }.encode_to_vec(),
        a.encode_as_trace_field(),
    );
    assert_eq!(TracePacketWrapper { packet: None }.encode_to_vec(), Vec::<u8>::new());
}

#[test]
fn annotations_hold_what_they_are_given() {
    let a = DebugAnnotation::string("k", "v".to_owned());
    assert_eq!(a.name, Some("k".to_owned()));
    assert_eq!(a.string_value, Some("v".to_owned()));
    assert_eq!(a.uint_value, None);
    let b = DebugAnnotation::uint("k", 5);
    assert_eq!(b.uint_value, Some(5));
    assert_eq!(b.string_value, None);
    assert_eq!(TrackEvent::default().name, None);
}
