//! The part of the perfetto trace format that a native trace needs.
//!
//! Field numbers and enum values are those of perfetto's `trace_packet.proto`,
//! `track_event.proto`, `track_descriptor.proto`, `counter_descriptor.proto`,
//! `debug_annotation.proto` and `builtin_clock.proto`. Fields that are not needed
//! are left out. Numbers of type `double` are held as their bit patterns.

use vstd::prelude::*;

use crate::text;
use crate::wire;
use crate::wire::put_bytes;
use crate::wire::put_optional_fixed64;
use crate::wire::put_optional_int;
use crate::wire::put_optional_text;
use crate::wire::put_optional_uint;
use crate::wire::put_repeated_text;

verus! {

/// `builtin_clock.proto`: the wall clock.
pub const BUILTIN_CLOCK_REALTIME: u32 = 1;

/// `builtin_clock.proto`: the default clock of a trace.
pub const BUILTIN_CLOCK_BOOTTIME: u32 = 6;

/// `trace_packet.proto`, `SequenceFlags`.
pub const SEQ_INCREMENTAL_STATE_CLEARED: u32 = 1;

/// `track_event.proto`, `Type`.
pub const TYPE_SLICE_BEGIN: i32 = 1;

/// `track_event.proto`, `Type`.
pub const TYPE_SLICE_END: i32 = 2;

/// `track_event.proto`, `Type`.
pub const TYPE_INSTANT: i32 = 3;

/// `track_event.proto`, `Type`.
pub const TYPE_COUNTER: i32 = 4;

/// `track_descriptor.proto`, `SiblingMergeBehavior`.
pub const SIBLING_MERGE_BEHAVIOR_BY_SIBLING_MERGE_KEY: i32 = 3;

/// `counter_descriptor.proto`, `Unit`.
pub const UNIT_TIME_NS: i32 = 1;

/// `counter_descriptor.proto`, `Unit`.
pub const UNIT_COUNT: i32 = 2;

/// `counter_descriptor.proto`, `Unit`.
pub const UNIT_SIZE_BYTES: i32 = 3;

/// An optional 32-bit number, widened.
pub open spec fn widened(v: Option<u32>) -> Option<u64> {
    match v {
        Some(n) => Some(n as u64),
        None => None,
    }
}

/// An optional signed 32-bit number, widened.
pub open spec fn widened_signed(v: Option<i32>) -> Option<i64> {
    match v {
        Some(n) => Some(n as i64),
        None => None,
    }
}

fn widen(v: Option<u32>) -> (w: Option<u64>)
    ensures
        w == widened(v),
{
    match v {
        Some(n) => Some(n as u64),
        None => None,
    }
}

fn widen_signed(v: Option<i32>) -> (w: Option<i64>)
    ensures
        w == widened_signed(v),
{
    match v {
        Some(n) => Some(n as i64),
        None => None,
    }
}

/// One clock's reading in a [`ClockSnapshot`].
#[derive(Copy, Clone, Debug, PartialEq, Eq)]
pub struct Clock {
    pub clock_id: Option<u32>,
    pub timestamp: Option<u64>,
}

impl Clock {
    pub open spec fn fields(self) -> Seq<wire::WireField> {
        wire::optional_uint(1, widened(self.clock_id)) + wire::optional_uint(2, self.timestamp)
    }

    fn put(&self, buf: &mut Vec<u8>)
        ensures
            final(buf)@ == old(buf)@ + wire::encoded(self.fields()),
    {
        proof {
            wire::lemma_encoded_concat(
                wire::optional_uint(1, widened(self.clock_id)),
                wire::optional_uint(2, self.timestamp),
            );
        }
        put_optional_uint(1, widen(self.clock_id), buf);
        put_optional_uint(2, self.timestamp, buf);
    }
}

/// Readings of several clocks at one instant. It lets a reader of the trace convert
/// between them.
#[derive(Clone, Debug, PartialEq, Eq)]
pub struct ClockSnapshot {
    pub clocks: Vec<Clock>,
}

/// What a [`ClockSnapshot`] says.
#[verifier::ext_equal]
pub struct ClockSnapshotModel {
    pub clocks: Seq<Clock>,
}

impl View for ClockSnapshot {
    type V = ClockSnapshotModel;

    open spec fn view(&self) -> ClockSnapshotModel {
        ClockSnapshotModel { clocks: self.clocks@ }
    }
}

impl ClockSnapshotModel {
    pub open spec fn fields(self) -> Seq<wire::WireField> {
        wire::repeated_message(1, self.clocks.map_values(|c: Clock| c.fields()))
    }
}

impl ClockSnapshot {
    fn put(&self, buf: &mut Vec<u8>)
        ensures
            final(buf)@ == old(buf)@ + wire::encoded(self@.fields()),
    {
        let ghost start = buf@;
        let ghost all = self.clocks@.map_values(|c: Clock| c.fields());
        let mut i: usize = 0;
        assert(wire::repeated_message(1, all.take(0)) =~= Seq::<wire::WireField>::empty());
        while i < self.clocks.len()
            invariant
                i <= self.clocks.len(),
                all == self.clocks@.map_values(|c: Clock| c.fields()),
                buf@ == start + wire::encoded(wire::repeated_message(1, all.take(i as int))),
            decreases self.clocks.len() - i,
        {
            let ghost done = wire::repeated_message(1, all.take(i as int));
            let ghost next = wire::WireField::bytes(1, wire::encoded(all[i as int]));
            let mut part: Vec<u8> = Vec::new();
            self.clocks[i].put(&mut part);
            assert(part@ =~= wire::encoded(all[i as int]));
            put_bytes(1, part.as_slice(), buf);
            proof {
                wire::lemma_encoded_concat(done, seq![next]);
            }
            assert(wire::repeated_message(1, all.take(i + 1)) =~= done + seq![next]);
            assert(buf@ =~= start + wire::encoded(done + seq![next]));
            i = i + 1;
        }
        assert(all.take(i as int) =~= all);
    }
}

/// The fields of an optional message.
pub open spec fn optional_fields_snapshot(m: Option<ClockSnapshotModel>) -> Option<Seq<wire::WireField>> {
    match m {
        Some(m) => Some(m.fields()),
        None => None,
    }
}

/// The kind of quantity that a counter track shows.
#[derive(Clone, Debug, PartialEq, Eq)]
pub struct CounterDescriptor {
    pub unit: Option<i32>,
    pub unit_name: Option<String>,
}

/// What a [`CounterDescriptor`] says.
#[verifier::ext_equal]
pub struct CounterDescriptorModel {
    pub unit: Option<i32>,
    pub unit_name: Option<Seq<char>>,
}

impl View for CounterDescriptor {
    type V = CounterDescriptorModel;

    open spec fn view(&self) -> CounterDescriptorModel {
        CounterDescriptorModel {
            unit: self.unit,
            unit_name: text::optional_view(self.unit_name),
        }
    }
}

impl CounterDescriptorModel {
    /// The message in which no field is set.
    pub open spec fn empty() -> CounterDescriptorModel {
        CounterDescriptorModel {
            unit: None,
            unit_name: None,
        }
    }

    pub open spec fn fields(self) -> Seq<wire::WireField> {
        wire::optional_int(3, widened_signed(self.unit))
            + wire::optional_text(6, self.unit_name)
    }
}

impl Default for CounterDescriptor {
    /// The message in which no field is set.
    fn default() -> (m: CounterDescriptor)
        ensures
            m@ == CounterDescriptorModel::empty(),
    {
        let m = CounterDescriptor {
            unit: None,
            unit_name: None,
        };
        assert(m@ =~= CounterDescriptorModel::empty());
        m
    }
}

impl CounterDescriptor {
    fn put(&self, buf: &mut Vec<u8>)
        ensures
            final(buf)@ == old(buf)@ + wire::encoded(self@.fields()),
    {
        let ghost start = buf@;
        let ghost part1 = wire::optional_int(3, widened_signed(self@.unit));
        let ghost part2 = wire::optional_text(6, self@.unit_name);
        put_optional_int(3, widen_signed(self.unit), buf);
        put_optional_text(6, &self.unit_name, buf);
        proof {
            wire::lemma_append(start, part1, part2);
        }
    }
}

/// The fields of an optional message.
pub open spec fn optional_fields_counter(m: Option<CounterDescriptorModel>) -> Option<Seq<wire::WireField>> {
    match m {
        Some(m) => Some(m.fields()),
        None => None,
    }
}

/// A named value attached to an event.
#[derive(Clone, Debug, PartialEq, Eq)]
pub struct DebugAnnotation {
    pub name: Option<String>,
    pub uint_value: Option<u64>,
    pub int_value: Option<i64>,
    /// The bit pattern of a `double`.
    pub double_value: Option<u64>,
    pub string_value: Option<String>,
}

/// What a [`DebugAnnotation`] says.
#[verifier::ext_equal]
pub struct DebugAnnotationModel {
    pub name: Option<Seq<char>>,
    pub uint_value: Option<u64>,
    pub int_value: Option<i64>,
    pub double_value: Option<u64>,
    pub string_value: Option<Seq<char>>,
}

impl View for DebugAnnotation {
    type V = DebugAnnotationModel;

    open spec fn view(&self) -> DebugAnnotationModel {
        DebugAnnotationModel {
            name: text::optional_view(self.name),
            uint_value: self.uint_value,
            int_value: self.int_value,
            double_value: self.double_value,
            string_value: text::optional_view(self.string_value),
        }
    }
}

impl DebugAnnotationModel {
    /// The message in which no field is set.
    pub open spec fn empty() -> DebugAnnotationModel {
        DebugAnnotationModel {
            name: None,
            uint_value: None,
            int_value: None,
            double_value: None,
            string_value: None,
        }
    }

    pub open spec fn fields(self) -> Seq<wire::WireField> {
        wire::optional_uint(3, self.uint_value)
            + wire::optional_int(4, self.int_value)
            + wire::optional_fixed64(5, self.double_value)
            + wire::optional_text(6, self.string_value)
            + wire::optional_text(10, self.name)
    }
}

impl Default for DebugAnnotation {
    /// The message in which no field is set.
    fn default() -> (m: DebugAnnotation)
        ensures
            m@ == DebugAnnotationModel::empty(),
    {
        let m = DebugAnnotation {
            name: None,
            uint_value: None,
            int_value: None,
            double_value: None,
            string_value: None,
        };
        assert(m@ =~= DebugAnnotationModel::empty());
        m
    }
}

impl DebugAnnotation {
    fn put(&self, buf: &mut Vec<u8>)
        ensures
            final(buf)@ == old(buf)@ + wire::encoded(self@.fields()),
    {
        let ghost start = buf@;
        let ghost part1 = wire::optional_uint(3, self@.uint_value);
        let ghost part2 = wire::optional_int(4, self@.int_value);
        let ghost part3 = wire::optional_fixed64(5, self@.double_value);
        let ghost part4 = wire::optional_text(6, self@.string_value);
        let ghost part5 = wire::optional_text(10, self@.name);
        put_optional_uint(3, self.uint_value, buf);
        put_optional_int(4, self.int_value, buf);
        proof {
            wire::lemma_append(start, part1, part2);
        }
        put_optional_fixed64(5, self.double_value, buf);
        proof {
            wire::lemma_append(start, part1 + part2, part3);
        }
        put_optional_text(6, &self.string_value, buf);
        proof {
            wire::lemma_append(start, part1 + part2 + part3, part4);
        }
        put_optional_text(10, &self.name, buf);
        proof {
            wire::lemma_append(start, part1 + part2 + part3 + part4, part5);
        }
    }
}

/// Appends the annotations of an event.
fn put_annotations(annotations: &Vec<DebugAnnotation>, buf: &mut Vec<u8>)
    ensures
        final(buf)@ == old(buf)@ + wire::encoded(
            wire::repeated_message(
                4,
                annotations@.map_values(|m: DebugAnnotation| m@).map_values(
                    |m: DebugAnnotationModel| m.fields(),
                ),
            ),
        ),
{
    let ghost start = buf@;
    let ghost all = annotations@.map_values(|m: DebugAnnotation| m@).map_values(
        |m: DebugAnnotationModel| m.fields(),
    );
    let mut i: usize = 0;
    assert(wire::repeated_message(4, all.take(0)) =~= Seq::<wire::WireField>::empty());
    while i < annotations.len()
        invariant
            i <= annotations.len(),
            all == annotations@.map_values(|m: DebugAnnotation| m@).map_values(
                |m: DebugAnnotationModel| m.fields(),
            ),
            buf@ == start + wire::encoded(wire::repeated_message(4, all.take(i as int))),
        decreases annotations.len() - i,
    {
        let ghost done = wire::repeated_message(4, all.take(i as int));
        let ghost next = wire::WireField::bytes(4, wire::encoded(all[i as int]));
        let mut part: Vec<u8> = Vec::new();
        annotations[i].put(&mut part);
        assert(part@ =~= wire::encoded(all[i as int]));
        put_bytes(4, part.as_slice(), buf);
        proof {
            wire::lemma_append(start, done, seq![next]);
        }
        assert(wire::repeated_message(4, all.take(i + 1)) =~= done + seq![next]);
        i = i + 1;
    }
    assert(all.take(i as int) =~= all);
}

/// The declaration of a track.
#[derive(Clone, Debug, PartialEq, Eq)]
pub struct TrackDescriptor {
    pub uuid: Option<u64>,
    pub parent_uuid: Option<u64>,
    pub name: Option<String>,
    pub counter: Option<CounterDescriptor>,
    pub sibling_merge_behavior: Option<i32>,
    pub sibling_merge_key: Option<String>,
}

/// What a [`TrackDescriptor`] says.
#[verifier::ext_equal]
pub struct TrackDescriptorModel {
    pub uuid: Option<u64>,
    pub parent_uuid: Option<u64>,
    pub name: Option<Seq<char>>,
    pub counter: Option<CounterDescriptorModel>,
    pub sibling_merge_behavior: Option<i32>,
    pub sibling_merge_key: Option<Seq<char>>,
}

impl View for TrackDescriptor {
    type V = TrackDescriptorModel;

    open spec fn view(&self) -> TrackDescriptorModel {
        TrackDescriptorModel {
            uuid: self.uuid,
            parent_uuid: self.parent_uuid,
            name: text::optional_view(self.name),
            counter: match self.counter {
                Some(m) => Some(m@),
                None => None,
            },
            sibling_merge_behavior: self.sibling_merge_behavior,
            sibling_merge_key: text::optional_view(self.sibling_merge_key),
        }
    }
}

impl TrackDescriptorModel {
    /// The message in which no field is set.
    pub open spec fn empty() -> TrackDescriptorModel {
        TrackDescriptorModel {
            uuid: None,
            parent_uuid: None,
            name: None,
            counter: None,
            sibling_merge_behavior: None,
            sibling_merge_key: None,
        }
    }

    pub open spec fn fields(self) -> Seq<wire::WireField> {
        wire::optional_uint(1, self.uuid)
            + wire::optional_text(2, self.name)
            + wire::optional_uint(5, self.parent_uuid)
            + wire::optional_message(8, optional_fields_counter(self.counter))
            + wire::optional_int(15, widened_signed(self.sibling_merge_behavior))
            + wire::optional_text(16, self.sibling_merge_key)
    }
}

impl Default for TrackDescriptor {
    /// The message in which no field is set.
    fn default() -> (m: TrackDescriptor)
        ensures
            m@ == TrackDescriptorModel::empty(),
    {
        let m = TrackDescriptor {
            uuid: None,
            parent_uuid: None,
            name: None,
            counter: None,
            sibling_merge_behavior: None,
            sibling_merge_key: None,
        };
        assert(m@ =~= TrackDescriptorModel::empty());
        m
    }
}

impl TrackDescriptor {
    fn put(&self, buf: &mut Vec<u8>)
        ensures
            final(buf)@ == old(buf)@ + wire::encoded(self@.fields()),
    {
        let ghost start = buf@;
        let ghost part1 = wire::optional_uint(1, self@.uuid);
        let ghost part2 = wire::optional_text(2, self@.name);
        let ghost part3 = wire::optional_uint(5, self@.parent_uuid);
        let ghost part4 = wire::optional_message(8, optional_fields_counter(self@.counter));
        let ghost part5 = wire::optional_int(15, widened_signed(self@.sibling_merge_behavior));
        let ghost part6 = wire::optional_text(16, self@.sibling_merge_key);
        put_optional_uint(1, self.uuid, buf);
        put_optional_text(2, &self.name, buf);
        proof {
            wire::lemma_append(start, part1, part2);
        }
        put_optional_uint(5, self.parent_uuid, buf);
        proof {
            wire::lemma_append(start, part1 + part2, part3);
        }
        let ghost before3 = buf@;
        if let Some(m) = &self.counter {
            let mut inner: Vec<u8> = Vec::new();
            m.put(&mut inner);
            assert(inner@ =~= wire::encoded(m@.fields()));
            put_bytes(8, inner.as_slice(), buf);
        }
        assert(buf@ == before3 + wire::encoded(part4));
        proof {
            wire::lemma_append(start, part1 + part2 + part3, part4);
        }
        put_optional_int(15, widen_signed(self.sibling_merge_behavior), buf);
        proof {
            wire::lemma_append(start, part1 + part2 + part3 + part4, part5);
        }
        put_optional_text(16, &self.sibling_merge_key, buf);
        proof {
            wire::lemma_append(start, part1 + part2 + part3 + part4 + part5, part6);
        }
    }
}

/// The fields of an optional message.
pub open spec fn optional_fields_descriptor(m: Option<TrackDescriptorModel>) -> Option<Seq<wire::WireField>> {
    match m {
        Some(m) => Some(m.fields()),
        None => None,
    }
}

/// Something that happens on a track.
#[derive(Clone, Debug, PartialEq, Eq)]
pub struct TrackEvent {
    pub event_type: Option<i32>,
    pub track_uuid: Option<u64>,
    pub name: Option<String>,
    pub categories: Vec<String>,
    pub counter_value: Option<i64>,
    /// The bit pattern of a `double`.
    pub double_counter_value: Option<u64>,
    /// Links slices that belong to the same operation.
    pub correlation_id: Option<u64>,
    pub debug_annotations: Vec<DebugAnnotation>,
}

/// What a [`TrackEvent`] says.
#[verifier::ext_equal]
pub struct TrackEventModel {
    pub event_type: Option<i32>,
    pub track_uuid: Option<u64>,
    pub name: Option<Seq<char>>,
    pub categories: Seq<Seq<char>>,
    pub counter_value: Option<i64>,
    pub double_counter_value: Option<u64>,
    pub correlation_id: Option<u64>,
    pub debug_annotations: Seq<DebugAnnotationModel>,
}

impl View for TrackEvent {
    type V = TrackEventModel;

    open spec fn view(&self) -> TrackEventModel {
        TrackEventModel {
            event_type: self.event_type,
            track_uuid: self.track_uuid,
            name: text::optional_view(self.name),
            categories: text::views(self.categories@),
            counter_value: self.counter_value,
            double_counter_value: self.double_counter_value,
            correlation_id: self.correlation_id,
            debug_annotations: self.debug_annotations@.map_values(|m: DebugAnnotation| m@),
        }
    }
}

impl TrackEventModel {
    /// The message in which no field is set.
    pub open spec fn empty() -> TrackEventModel {
        TrackEventModel {
            event_type: None,
            track_uuid: None,
            name: None,
            categories: seq![],
            counter_value: None,
            double_counter_value: None,
            correlation_id: None,
            debug_annotations: seq![],
        }
    }

    pub open spec fn fields(self) -> Seq<wire::WireField> {
        wire::repeated_message(4, self.debug_annotations.map_values(|m: DebugAnnotationModel| m.fields()))
            + wire::optional_int(9, widened_signed(self.event_type))
            + wire::optional_uint(11, self.track_uuid)
            + wire::repeated_text(22, self.categories)
            + wire::optional_text(23, self.name)
            + wire::optional_int(30, self.counter_value)
            + wire::optional_fixed64(44, self.double_counter_value)
            + wire::optional_uint(52, self.correlation_id)
    }
}

impl Default for TrackEvent {
    /// The message in which no field is set.
    fn default() -> (m: TrackEvent)
        ensures
            m@ == TrackEventModel::empty(),
    {
        let m = TrackEvent {
            event_type: None,
            track_uuid: None,
            name: None,
            categories: Vec::new(),
            counter_value: None,
            double_counter_value: None,
            correlation_id: None,
            debug_annotations: Vec::new(),
        };
        assert(m@ =~= TrackEventModel::empty());
        m
    }
}

impl TrackEvent {
    fn put(&self, buf: &mut Vec<u8>)
        ensures
            final(buf)@ == old(buf)@ + wire::encoded(self@.fields()),
    {
        let ghost start = buf@;
        let ghost part1 = wire::repeated_message(4, self@.debug_annotations.map_values(|m: DebugAnnotationModel| m.fields()));
        let ghost part2 = wire::optional_int(9, widened_signed(self@.event_type));
        let ghost part3 = wire::optional_uint(11, self@.track_uuid);
        let ghost part4 = wire::repeated_text(22, self@.categories);
        let ghost part5 = wire::optional_text(23, self@.name);
        let ghost part6 = wire::optional_int(30, self@.counter_value);
        let ghost part7 = wire::optional_fixed64(44, self@.double_counter_value);
        let ghost part8 = wire::optional_uint(52, self@.correlation_id);
        put_annotations(&self.debug_annotations, buf);
        put_optional_int(9, widen_signed(self.event_type), buf);
        proof {
            wire::lemma_append(start, part1, part2);
        }
        put_optional_uint(11, self.track_uuid, buf);
        proof {
            wire::lemma_append(start, part1 + part2, part3);
        }
        put_repeated_text(22, &self.categories, buf);
        proof {
            wire::lemma_append(start, part1 + part2 + part3, part4);
        }
        put_optional_text(23, &self.name, buf);
        proof {
            wire::lemma_append(start, part1 + part2 + part3 + part4, part5);
        }
        put_optional_int(30, self.counter_value, buf);
        proof {
            wire::lemma_append(start, part1 + part2 + part3 + part4 + part5, part6);
        }
        put_optional_fixed64(44, self.double_counter_value, buf);
        proof {
            wire::lemma_append(start, part1 + part2 + part3 + part4 + part5 + part6, part7);
        }
        put_optional_uint(52, self.correlation_id, buf);
        proof {
            wire::lemma_append(start, part1 + part2 + part3 + part4 + part5 + part6 + part7, part8);
        }
    }
}

/// The fields of an optional message.
pub open spec fn optional_fields_event(m: Option<TrackEventModel>) -> Option<Seq<wire::WireField>> {
    match m {
        Some(m) => Some(m.fields()),
        None => None,
    }
}

/// One packet of a trace.
#[derive(Clone, Debug, PartialEq, Eq)]
pub struct TracePacket {
    pub timestamp: Option<u64>,
    pub timestamp_clock_id: Option<u32>,
    pub trusted_packet_sequence_id: Option<u32>,
    pub sequence_flags: Option<u32>,
    pub track_event: Option<TrackEvent>,
    pub track_descriptor: Option<TrackDescriptor>,
    pub clock_snapshot: Option<ClockSnapshot>,
}

/// What a [`TracePacket`] says.
#[verifier::ext_equal]
pub struct TracePacketModel {
    pub timestamp: Option<u64>,
    pub timestamp_clock_id: Option<u32>,
    pub trusted_packet_sequence_id: Option<u32>,
    pub sequence_flags: Option<u32>,
    pub track_event: Option<TrackEventModel>,
    pub track_descriptor: Option<TrackDescriptorModel>,
    pub clock_snapshot: Option<ClockSnapshotModel>,
}

impl View for TracePacket {
    type V = TracePacketModel;

    open spec fn view(&self) -> TracePacketModel {
        TracePacketModel {
            timestamp: self.timestamp,
            timestamp_clock_id: self.timestamp_clock_id,
            trusted_packet_sequence_id: self.trusted_packet_sequence_id,
            sequence_flags: self.sequence_flags,
            track_event: match self.track_event {
                Some(m) => Some(m@),
                None => None,
            },
            track_descriptor: match self.track_descriptor {
                Some(m) => Some(m@),
                None => None,
            },
            clock_snapshot: match self.clock_snapshot {
                Some(m) => Some(m@),
                None => None,
            },
        }
    }
}

impl TracePacketModel {
    /// The message in which no field is set.
    pub open spec fn empty() -> TracePacketModel {
        TracePacketModel {
            timestamp: None,
            timestamp_clock_id: None,
            trusted_packet_sequence_id: None,
            sequence_flags: None,
            track_event: None,
            track_descriptor: None,
            clock_snapshot: None,
        }
    }

    pub open spec fn fields(self) -> Seq<wire::WireField> {
        wire::optional_message(6, optional_fields_snapshot(self.clock_snapshot))
            + wire::optional_uint(8, self.timestamp)
            + wire::optional_uint(10, widened(self.trusted_packet_sequence_id))
            + wire::optional_message(11, optional_fields_event(self.track_event))
            + wire::optional_uint(13, widened(self.sequence_flags))
            + wire::optional_uint(58, widened(self.timestamp_clock_id))
            + wire::optional_message(60, optional_fields_descriptor(self.track_descriptor))
    }
}

impl Default for TracePacket {
    /// The message in which no field is set.
    fn default() -> (m: TracePacket)
        ensures
            m@ == TracePacketModel::empty(),
    {
        let m = TracePacket {
            timestamp: None,
            timestamp_clock_id: None,
            trusted_packet_sequence_id: None,
            sequence_flags: None,
            track_event: None,
            track_descriptor: None,
            clock_snapshot: None,
        };
        assert(m@ =~= TracePacketModel::empty());
        m
    }
}

impl TracePacket {
    fn put(&self, buf: &mut Vec<u8>)
        ensures
            final(buf)@ == old(buf)@ + wire::encoded(self@.fields()),
    {
        let ghost start = buf@;
        let ghost part1 = wire::optional_message(6, optional_fields_snapshot(self@.clock_snapshot));
        let ghost part2 = wire::optional_uint(8, self@.timestamp);
        let ghost part3 = wire::optional_uint(10, widened(self@.trusted_packet_sequence_id));
        let ghost part4 = wire::optional_message(11, optional_fields_event(self@.track_event));
        let ghost part5 = wire::optional_uint(13, widened(self@.sequence_flags));
        let ghost part6 = wire::optional_uint(58, widened(self@.timestamp_clock_id));
        let ghost part7 = wire::optional_message(60, optional_fields_descriptor(self@.track_descriptor));
        if let Some(m) = &self.clock_snapshot {
            let mut inner: Vec<u8> = Vec::new();
            m.put(&mut inner);
            assert(inner@ =~= wire::encoded(m@.fields()));
            put_bytes(6, inner.as_slice(), buf);
        }
        assert(buf@ =~= start + wire::encoded(part1));
        put_optional_uint(8, self.timestamp, buf);
        proof {
            wire::lemma_append(start, part1, part2);
        }
        put_optional_uint(10, widen(self.trusted_packet_sequence_id), buf);
        proof {
            wire::lemma_append(start, part1 + part2, part3);
        }
        let ghost before3 = buf@;
        if let Some(m) = &self.track_event {
            let mut inner: Vec<u8> = Vec::new();
            m.put(&mut inner);
            assert(inner@ =~= wire::encoded(m@.fields()));
            put_bytes(11, inner.as_slice(), buf);
        }
        assert(buf@ == before3 + wire::encoded(part4));
        proof {
            wire::lemma_append(start, part1 + part2 + part3, part4);
        }
        put_optional_uint(13, widen(self.sequence_flags), buf);
        proof {
            wire::lemma_append(start, part1 + part2 + part3 + part4, part5);
        }
        put_optional_uint(58, widen(self.timestamp_clock_id), buf);
        proof {
            wire::lemma_append(start, part1 + part2 + part3 + part4 + part5, part6);
        }
        let ghost before6 = buf@;
        if let Some(m) = &self.track_descriptor {
            let mut inner: Vec<u8> = Vec::new();
            m.put(&mut inner);
            assert(inner@ =~= wire::encoded(m@.fields()));
            put_bytes(60, inner.as_slice(), buf);
        }
        assert(buf@ == before6 + wire::encoded(part7));
        proof {
            wire::lemma_append(start, part1 + part2 + part3 + part4 + part5 + part6, part7);
        }
    }
}

impl TracePacket {
    /// Bytes that extend a trace by this packet: field 1 of a [`Trace`], with the
    /// packet as its payload.
    pub fn encode_as_trace_field(&self) -> (bytes: Vec<u8>)
        ensures
            bytes@ == self@.trace_field().encoded(),
    {
        let mut inner: Vec<u8> = Vec::new();
        self.put(&mut inner);
        assert(inner@ =~= wire::encoded(self@.fields()));
        let mut bytes: Vec<u8> = Vec::new();
        put_bytes(1, inner.as_slice(), &mut bytes);
        proof {
            wire::lemma_encoded_single(self@.trace_field());
        }
        assert(bytes@ =~= self@.trace_field().encoded());
        bytes
    }
}

impl TracePacketModel {
    /// The packet as a field of a trace.
    pub open spec fn trace_field(self) -> wire::WireField {
        wire::WireField::bytes(1, wire::encoded(self.fields()))
    }
}

/// The bytes of a trace: its packets, each as a field of the trace, in order.
pub open spec fn trace_bytes(packets: Seq<TracePacketModel>) -> Seq<u8> {
    wire::encoded(packets.map_values(|p: TracePacketModel| p.trace_field()))
}

/// A trace. When a trace is written, its packets are written one by one instead.
#[derive(Clone, Debug, PartialEq, Eq)]
pub struct Trace {
    pub packet: Vec<TracePacket>,
}

impl Trace {
    /// The bytes of the trace.
    pub fn encode_to_vec(&self) -> (bytes: Vec<u8>)
        ensures
            bytes@ == trace_bytes(self.packet@.map_values(|p: TracePacket| p@)),
    {
        let ghost all = self.packet@.map_values(|p: TracePacket| p@);
        let ghost field = |p: TracePacketModel| p.trace_field();
        let mut bytes: Vec<u8> = Vec::new();
        let mut i: usize = 0;
        assert(all.take(0).map_values(field) =~= Seq::<wire::WireField>::empty());
        while i < self.packet.len()
            invariant
                i <= self.packet.len(),
                all == self.packet@.map_values(|p: TracePacket| p@),
                field == (|p: TracePacketModel| p.trace_field()),
                bytes@ == wire::encoded(all.take(i as int).map_values(field)),
            decreases self.packet.len() - i,
        {
            let ghost done = all.take(i as int).map_values(field);
            let ghost next = all[i as int].trace_field();
            let mut part: Vec<u8> = self.packet[i].encode_as_trace_field();
            bytes.append(&mut part);
            proof {
                wire::lemma_encoded_single(next);
                wire::lemma_encoded_concat(done, seq![next]);
            }
            assert(all.take(i + 1).map_values(field) =~= done + seq![next]);
            i = i + 1;
        }
        assert(all.take(i as int) =~= all);
        bytes
    }
}

/// A trace of at most one packet.
#[derive(Clone, Debug, PartialEq, Eq)]
pub struct TracePacketWrapper {
    pub packet: Option<TracePacket>,
}

impl TracePacketWrapper {
    /// The bytes of the trace.
    pub fn encode_to_vec(&self) -> (bytes: Vec<u8>)
        ensures
            bytes@ == match self.packet {
                Some(p) => p@.trace_field().encoded(),
                None => seq![],
            },
    {
        match &self.packet {
            Some(p) => p.encode_as_trace_field(),
            None => Vec::new(),
        }
    }
}

impl DebugAnnotation {
    /// An annotation that holds a string.
    pub fn string(name: &str, value: String) -> (a: DebugAnnotation)
        ensures
            a@ == DebugAnnotationModel::string(name@, value@),
    {
        DebugAnnotation {
            name: Some(name.to_owned()),
            uint_value: None,
            int_value: None,
            double_value: None,
            string_value: Some(value),
        }
    }

    /// An annotation that holds an unsigned number.
    pub fn uint(name: &str, value: u64) -> (a: DebugAnnotation)
        ensures
            a@ == DebugAnnotationModel::uint(name@, value),
    {
        DebugAnnotation {
            name: Some(name.to_owned()),
            uint_value: Some(value),
            int_value: None,
            double_value: None,
            string_value: None,
        }
    }
}

impl DebugAnnotationModel {
    pub open spec fn string(name: Seq<char>, value: Seq<char>) -> DebugAnnotationModel {
        DebugAnnotationModel {
            name: Some(name),
            string_value: Some(value),
            ..DebugAnnotationModel::empty()
        }
    }

    pub open spec fn uint(name: Seq<char>, value: u64) -> DebugAnnotationModel {
        DebugAnnotationModel {
            name: Some(name),
            uint_value: Some(value),
            ..DebugAnnotationModel::empty()
        }
    }
}

} // verus!
