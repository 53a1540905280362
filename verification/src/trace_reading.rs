//! How a reader takes a trace apart, and that it gets back the packets that were
//! written.

use vstd::prelude::*;

use crate::perfetto_proto;
use crate::perfetto_proto::Clock;
use crate::wire;
use crate::wire_reading;

verus! {

/// A number of 32 bits.
pub open spec fn narrowed(v: Option<u64>) -> Option<u32> {
    match v {
        Some(n) => Some(n as u32),
        None => None,
    }
}

/// A signed number of 32 bits.
pub open spec fn narrowed_signed(v: Option<i64>) -> Option<i32> {
    match v {
        Some(n) => Some(n as i32),
        None => None,
    }
}

/// The clock reading that the fields describe.
pub open spec fn read_clock(fields: Seq<wire::WireField>) -> Clock {
    Clock {
        clock_id: narrowed(wire_reading::as_uint(wire_reading::last_value(fields, 1))),
        timestamp: wire_reading::as_uint(wire_reading::last_value(fields, 2)),
    }
}

proof fn lemma_clock(c: Clock)
    ensures
        read_clock(c.fields()) == c,
        wire_reading::all_writable(c.fields()),
{
    broadcast use wire_reading::lemma_last_value_concat;
    broadcast use wire_reading::lemma_one_field;

}

/// The clock snapshot that the fields describe.
pub open spec fn read_clock_snapshot(
    fields: Seq<wire::WireField>,
) -> perfetto_proto::ClockSnapshotModel {
    perfetto_proto::ClockSnapshotModel {
        clocks: wire_reading::all_values(fields, 1).map_values(
            |v: wire::WireValue| read_clock(wire_reading::value_fields(v)),
        ),
    }
}

proof fn lemma_clock_snapshot(s: perfetto_proto::ClockSnapshotModel)
    ensures
        read_clock_snapshot(s.fields()) == s,
        wire_reading::all_writable(s.fields()),
{
    let messages = s.clocks.map_values(|c: Clock| c.fields());
    assert forall|i: int| 0 <= i < messages.len() implies wire_reading::all_writable(
        #[trigger] messages[i],
    ) by {
        lemma_clock(s.clocks[i]);
    }
    wire_reading::lemma_repeated_message(1, messages, 1);
    let values = wire_reading::all_values(s.fields(), 1);
    let parts = values.map_values(|v: wire::WireValue| wire_reading::value_fields(v));
    let back = read_clock_snapshot(s.fields()).clocks;
    assert forall|i: int| 0 <= i < s.clocks.len() implies back[i] == s.clocks[i] by {
        lemma_clock(s.clocks[i]);
        assert(parts[i] == messages[i]);
        assert(parts[i] == wire_reading::value_fields(values[i]));
    }
    assert(parts.len() == messages.len());
    assert(back =~= s.clocks);
}

/// The counter descriptor that the fields describe.
pub open spec fn read_counter_descriptor(
    fields: Seq<wire::WireField>,
) -> perfetto_proto::CounterDescriptorModel {
    perfetto_proto::CounterDescriptorModel {
        unit: narrowed_signed(wire_reading::as_int(wire_reading::last_value(fields, 3))),
        unit_name: wire_reading::as_text(wire_reading::last_value(fields, 6)),
    }
}

proof fn lemma_counter_descriptor(m: perfetto_proto::CounterDescriptorModel)
    ensures
        read_counter_descriptor(m.fields()) == m,
        wire_reading::all_writable(m.fields()),
{
    broadcast use wire_reading::lemma_last_value_concat;
    broadcast use wire_reading::lemma_one_field;
    broadcast use wire_reading::lemma_text_value;

    assert(read_counter_descriptor(m.fields()) =~= m);
}

/// The annotation that the fields describe.
pub open spec fn read_debug_annotation(
    fields: Seq<wire::WireField>,
) -> perfetto_proto::DebugAnnotationModel {
    perfetto_proto::DebugAnnotationModel {
        name: wire_reading::as_text(wire_reading::last_value(fields, 10)),
        uint_value: wire_reading::as_uint(wire_reading::last_value(fields, 3)),
        int_value: wire_reading::as_int(wire_reading::last_value(fields, 4)),
        double_value: wire_reading::as_fixed64(wire_reading::last_value(fields, 5)),
        string_value: wire_reading::as_text(wire_reading::last_value(fields, 6)),
    }
}

proof fn lemma_debug_annotation(m: perfetto_proto::DebugAnnotationModel)
    ensures
        read_debug_annotation(m.fields()) == m,
        wire_reading::all_writable(m.fields()),
{
    broadcast use wire_reading::lemma_last_value_concat;
    broadcast use wire_reading::lemma_one_field;
    broadcast use wire_reading::lemma_text_value;

    assert(read_debug_annotation(m.fields()) =~= m);
}

/// The track descriptor that the fields describe.
pub open spec fn read_track_descriptor(
    fields: Seq<wire::WireField>,
) -> perfetto_proto::TrackDescriptorModel {
    perfetto_proto::TrackDescriptorModel {
        uuid: wire_reading::as_uint(wire_reading::last_value(fields, 1)),
        parent_uuid: wire_reading::as_uint(wire_reading::last_value(fields, 5)),
        name: wire_reading::as_text(wire_reading::last_value(fields, 2)),
        counter: match wire_reading::last_value(fields, 8) {
            Some(v) => Some(read_counter_descriptor(wire_reading::value_fields(v))),
            None => None,
        },
        sibling_merge_behavior: narrowed_signed(wire_reading::as_int(wire_reading::last_value(fields, 15))),
        sibling_merge_key: wire_reading::as_text(wire_reading::last_value(fields, 16)),
    }
}

proof fn lemma_track_descriptor(m: perfetto_proto::TrackDescriptorModel)
    ensures
        read_track_descriptor(m.fields()) == m,
        wire_reading::all_writable(m.fields()),
{
    broadcast use wire_reading::lemma_last_value_concat;
    broadcast use wire_reading::lemma_one_field;
    broadcast use wire_reading::lemma_text_value;
    broadcast use wire_reading::lemma_message_value;

    if let Some(inner) = m.counter {
        lemma_counter_descriptor(inner);
    }
    assert(read_track_descriptor(m.fields()) =~= m);
}

/// The event that the fields describe.
pub open spec fn read_track_event(
    fields: Seq<wire::WireField>,
) -> perfetto_proto::TrackEventModel {
    perfetto_proto::TrackEventModel {
        event_type: narrowed_signed(wire_reading::as_int(wire_reading::last_value(fields, 9))),
        track_uuid: wire_reading::as_uint(wire_reading::last_value(fields, 11)),
        name: wire_reading::as_text(wire_reading::last_value(fields, 23)),
        categories: wire_reading::all_values(fields, 22).map_values(
            |v: wire::WireValue| wire_reading::value_text(v),
        ),
        counter_value: wire_reading::as_int(wire_reading::last_value(fields, 30)),
        double_counter_value: wire_reading::as_fixed64(wire_reading::last_value(fields, 44)),
        correlation_id: wire_reading::as_uint(wire_reading::last_value(fields, 52)),
        debug_annotations: wire_reading::all_values(fields, 4).map_values(
            |v: wire::WireValue| read_debug_annotation(wire_reading::value_fields(v)),
        ),
    }
}

proof fn lemma_track_event(m: perfetto_proto::TrackEventModel)
    ensures
        read_track_event(m.fields()) == m,
        wire_reading::all_writable(m.fields()),
{
    broadcast use wire_reading::lemma_last_value_concat;
    broadcast use wire_reading::lemma_one_field;
    broadcast use wire_reading::lemma_text_value;
    broadcast use wire_reading::lemma_message_value;
    broadcast use wire_reading::lemma_all_values_concat;
    broadcast use wire_reading::lemma_one_field_values;

    let messages = m.debug_annotations.map_values(
        |a: perfetto_proto::DebugAnnotationModel| a.fields(),
    );
    assert forall|i: int| 0 <= i < messages.len() implies wire_reading::all_writable(
        #[trigger] messages[i],
    ) by {
        lemma_debug_annotation(m.debug_annotations[i]);
    }
    wire_reading::lemma_repeated_message(4, messages, 9);
    wire_reading::lemma_repeated_text(22, m.categories, 9);
    wire_reading::lemma_repeated_message(4, messages, 11);
    wire_reading::lemma_repeated_text(22, m.categories, 11);
    wire_reading::lemma_repeated_message(4, messages, 23);
    wire_reading::lemma_repeated_text(22, m.categories, 23);
    wire_reading::lemma_repeated_message(4, messages, 22);
    wire_reading::lemma_repeated_message(4, messages, 30);
    wire_reading::lemma_repeated_text(22, m.categories, 30);
    wire_reading::lemma_repeated_message(4, messages, 44);
    wire_reading::lemma_repeated_text(22, m.categories, 44);
    wire_reading::lemma_repeated_message(4, messages, 52);
    wire_reading::lemma_repeated_text(22, m.categories, 52);
    wire_reading::lemma_repeated_text(22, m.categories, 4);
    let fields = m.fields();
    let values = wire_reading::all_values(wire::repeated_message(4, messages), 4);
    assert(wire_reading::all_values(fields, 4) =~= values);
    let parts = values.map_values(|v: wire::WireValue| wire_reading::value_fields(v));
    let back = read_track_event(fields).debug_annotations;
    assert forall|i: int| 0 <= i < m.debug_annotations.len() implies back[i]
        == m.debug_annotations[i] by {
        lemma_debug_annotation(m.debug_annotations[i]);
        assert(parts[i] == messages[i]);
        assert(parts[i] == wire_reading::value_fields(values[i]));
    }
    assert(parts.len() == messages.len());
    assert(back =~= m.debug_annotations);
    assert(wire_reading::all_values(fields, 22) =~= wire_reading::all_values(
        wire::repeated_text(22, m.categories),
        22,
    ));
    assert(read_track_event(m.fields()) =~= m);
}

/// The packet that the fields describe.
pub open spec fn read_trace_packet(
    fields: Seq<wire::WireField>,
) -> perfetto_proto::TracePacketModel {
    perfetto_proto::TracePacketModel {
        timestamp: wire_reading::as_uint(wire_reading::last_value(fields, 8)),
        timestamp_clock_id: narrowed(wire_reading::as_uint(wire_reading::last_value(fields, 58))),
        trusted_packet_sequence_id: narrowed(wire_reading::as_uint(wire_reading::last_value(fields, 10))),
        sequence_flags: narrowed(wire_reading::as_uint(wire_reading::last_value(fields, 13))),
        track_event: match wire_reading::last_value(fields, 11) {
            Some(v) => Some(read_track_event(wire_reading::value_fields(v))),
            None => None,
        },
        track_descriptor: match wire_reading::last_value(fields, 60) {
            Some(v) => Some(read_track_descriptor(wire_reading::value_fields(v))),
            None => None,
        },
        clock_snapshot: match wire_reading::last_value(fields, 6) {
            Some(v) => Some(read_clock_snapshot(wire_reading::value_fields(v))),
            None => None,
        },
    }
}

/// The values that a reader of a packet looks for among its fields.
proof fn lemma_trace_packet_values(
    fields: Seq<wire::WireField>,
    snapshot: Option<Seq<wire::WireField>>,
    timestamp: Option<u64>,
    sequence_id: Option<u64>,
    event: Option<Seq<wire::WireField>>,
    flags: Option<u64>,
    clock_id: Option<u64>,
    descriptor: Option<Seq<wire::WireField>>,
)
    requires
        fields == wire::optional_message(6, snapshot) + wire::optional_uint(8, timestamp)
            + wire::optional_uint(10, sequence_id) + wire::optional_message(11, event)
            + wire::optional_uint(13, flags) + wire::optional_uint(58, clock_id)
            + wire::optional_message(60, descriptor),
    ensures
        wire_reading::last_value(fields, 6) == optional_bytes(snapshot),
        wire_reading::as_uint(wire_reading::last_value(fields, 8)) == timestamp,
        wire_reading::as_uint(wire_reading::last_value(fields, 10)) == sequence_id,
        wire_reading::last_value(fields, 11) == optional_bytes(event),
        wire_reading::as_uint(wire_reading::last_value(fields, 13)) == flags,
        wire_reading::as_uint(wire_reading::last_value(fields, 58)) == clock_id,
        wire_reading::last_value(fields, 60) == optional_bytes(descriptor),
        wire_reading::all_writable(fields),
{
    assert(wire_reading::all_writable(fields)) by {
        broadcast use wire_reading::lemma_all_writable_concat;

    }
    broadcast use wire_reading::lemma_last_value_concat;
    broadcast use wire_reading::lemma_optional_uint;
    broadcast use wire_reading::lemma_optional_message;

}

spec fn optional_bytes(m: Option<Seq<wire::WireField>>) -> Option<wire::WireValue> {
    match m {
        Some(fields) => Some(wire::WireValue::Bytes(wire::encoded(fields))),
        None => None,
    }
}

proof fn lemma_trace_packet(m: perfetto_proto::TracePacketModel)
    ensures
        read_trace_packet(m.fields()) == m,
        wire_reading::all_writable(m.fields()),
{
    broadcast use wire_reading::lemma_message_value;

    lemma_trace_packet_values(
        m.fields(),
        perfetto_proto::optional_fields_snapshot(m.clock_snapshot),
        m.timestamp,
        perfetto_proto::widened(m.trusted_packet_sequence_id),
        perfetto_proto::optional_fields_event(m.track_event),
        perfetto_proto::widened(m.sequence_flags),
        perfetto_proto::widened(m.timestamp_clock_id),
        perfetto_proto::optional_fields_descriptor(m.track_descriptor),
    );
    if let Some(inner) = m.track_event {
        lemma_track_event(inner);
    }
    if let Some(inner) = m.track_descriptor {
        lemma_track_descriptor(inner);
    }
    if let Some(inner) = m.clock_snapshot {
        lemma_clock_snapshot(inner);
    }
    assert(read_trace_packet(m.fields()) =~= m);
}

/// The packets of a trace, if its bytes are well-formed.
pub open spec fn read_trace(bytes: Seq<u8>) -> Option<Seq<perfetto_proto::TracePacketModel>> {
    match wire_reading::read_fields(bytes) {
        Some(fields) => Some(
            wire_reading::all_values(fields, 1).map_values(
                |v: wire::WireValue| read_trace_packet(wire_reading::value_fields(v)),
            ),
        ),
        None => None,
    }
}

/// Packets that were written one after the other, each as a field of the trace, form
/// a well-formed trace, and reading it gives exactly these packets.
pub proof fn law_trace_reads_back(packets: Seq<perfetto_proto::TracePacketModel>)
    ensures
        read_trace(perfetto_proto::trace_bytes(packets)) == Some(packets),
{
    let messages = packets.map_values(|p: perfetto_proto::TracePacketModel| p.fields());
    let fields = wire::repeated_message(1, messages);
    assert(fields =~= packets.map_values(
        |p: perfetto_proto::TracePacketModel| p.trace_field(),
    ));
    wire_reading::law_fields_read_back(fields);
    assert forall|i: int| 0 <= i < messages.len() implies wire_reading::all_writable(
        #[trigger] messages[i],
    ) by {
        lemma_trace_packet(packets[i]);
    }
    wire_reading::lemma_repeated_message(1, messages, 1);
    let values = wire_reading::all_values(fields, 1);
    let parts = values.map_values(|v: wire::WireValue| wire_reading::value_fields(v));
    let back = values.map_values(
        |v: wire::WireValue| read_trace_packet(wire_reading::value_fields(v)),
    );
    assert forall|i: int| 0 <= i < packets.len() implies back[i] == packets[i] by {
        lemma_trace_packet(packets[i]);
        assert(parts[i] == messages[i]);
        assert(parts[i] == wire_reading::value_fields(values[i]));
    }
    assert(parts.len() == messages.len());
    assert(back =~= packets);
}

/// Appending the bytes of more packets to a trace gives the trace of all of them.
pub proof fn law_trace_extends(
    a: Seq<perfetto_proto::TracePacketModel>,
    b: Seq<perfetto_proto::TracePacketModel>,
)
    ensures
        perfetto_proto::trace_bytes(a + b) == perfetto_proto::trace_bytes(a)
            + perfetto_proto::trace_bytes(b),
{
    let field = |p: perfetto_proto::TracePacketModel| p.trace_field();
    assert((a + b).map_values(field) =~= a.map_values(field) + b.map_values(field));
    wire::lemma_encoded_concat(a.map_values(field), b.map_values(field));
}

} // verus!
