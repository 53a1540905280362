//! Turns build events into a native perfetto trace, in one pass.
//!
//! Packets need not be ordered by time, and concurrent root spans share lanes by
//! their merge key, so each event is written as it comes.

use std::collections::HashMap;
use std::collections::HashSet;

use vstd::hash_map::StringHashMap;
use vstd::prelude::*;

use crate::binary64;
use crate::events::BuckEvent;
use crate::events::EventData;
use crate::events::Instant;
use crate::events::Materialization;
use crate::events::NetworkInterfaceStats;
use crate::events::PathEntry;
use crate::events::Snapshot;
use crate::events::SpanEnd;
use crate::events::SpanStart;
use crate::perfetto_proto;
use crate::perfetto_proto::Clock;
use crate::perfetto_proto::ClockSnapshot;
use crate::perfetto_proto::CounterDescriptor;
use crate::perfetto_proto::DebugAnnotation;
use crate::perfetto_proto::TracePacket;
use crate::perfetto_proto::TrackDescriptor;
use crate::perfetto_proto::TrackEvent;
use crate::perfetto_proto::BUILTIN_CLOCK_BOOTTIME;
use crate::perfetto_proto::BUILTIN_CLOCK_REALTIME;
use crate::perfetto_proto::SEQ_INCREMENTAL_STATE_CLEARED;
use crate::perfetto_proto::SIBLING_MERGE_BEHAVIOR_BY_SIBLING_MERGE_KEY;
use crate::perfetto_proto::TYPE_COUNTER;
use crate::perfetto_proto::TYPE_INSTANT;
use crate::perfetto_proto::TYPE_SLICE_BEGIN;
use crate::perfetto_proto::TYPE_SLICE_END;
use crate::perfetto_proto::UNIT_COUNT;
use crate::perfetto_proto::UNIT_SIZE_BYTES;
use crate::spans;
use crate::spans::queued_track_uuid;
use crate::spans::span_name_and_category;
use crate::spans::span_population_counter_name;
use crate::spans::stage_is_execution;
use crate::spans::stage_is_waiting;
use crate::spans::Category;
use crate::spans::WriterError;
use crate::spans::COUNTER_TRACK_BASE;
use crate::spans::TRACK_CRITICAL_PATH;
use crate::spans::TRACK_MISC;
use crate::spans::TRACK_QUEUED;
use crate::spans::TRACK_SPAN_COUNTERS;
use crate::text;
use crate::text::concat;
use crate::text::push_decimal;
use crate::time::Duration;
use crate::time::SystemTime;
use crate::trace_reading;
use crate::writer_model;
use crate::writer_model::CounterValue;
use crate::writer_model::SEQUENCE_ID;
use crate::writer_room;

verus! {

broadcast use vstd::std_specs::hash::group_hash_axioms;

/// What a span does in its action.
pub enum SpanRole {
    /// A span that is neither an action nor a stage of one.
    Plain,
    /// An action. Whether it gets a slice of its own is decided when it ends: only
    /// if none of its stages was seen.
    Action { saw_stage: bool },
    /// A stage of an action, shown on the action's track or, if the action waits, on
    /// the action's lane among the waiting ones.
    Stage {
        action_span_id: u64,
        action_identity: String,
        is_execution: bool,
        is_waiting: bool,
    },
}

impl View for SpanRole {
    type V = writer_model::RoleModel;

    open spec fn view(&self) -> writer_model::RoleModel {
        match self {
            SpanRole::Plain => writer_model::RoleModel::Plain,
            SpanRole::Action { saw_stage } => writer_model::RoleModel::Action {
                saw_stage: *saw_stage,
            },
            SpanRole::Stage { action_span_id, action_identity, is_execution, is_waiting } =>
                writer_model::RoleModel::Stage {
                action_span_id: *action_span_id,
                action_identity: action_identity@,
                is_execution: *is_execution,
                is_waiting: *is_waiting,
            },
        }
    }
}

/// A span that has started and not ended.
pub struct OpenSpan {
    pub start: SystemTime,
    pub track_uuid: u64,
    /// Of use for root spans only.
    pub category: Category,
    /// Whether the span has a track of its own, rather than its parent's.
    pub is_root: bool,
    pub name: String,
    pub annotations: Vec<DebugAnnotation>,
    pub role: SpanRole,
}

impl View for OpenSpan {
    type V = writer_model::OpenSpanModel;

    open spec fn view(&self) -> writer_model::OpenSpanModel {
        writer_model::OpenSpanModel {
            start: self.start,
            track_uuid: self.track_uuid,
            category: self.category,
            is_root: self.is_root,
            name: self.name@,
            annotations: self.annotations@.map_values(|a: DebugAnnotation| a@),
            role: self.role@,
        }
    }
}

/// How much was written.
#[derive(Copy, Clone, Debug, PartialEq, Eq)]
pub struct Stats {
    pub packets: u64,
    pub spans_seen: u64,
    pub spans_emitted: u64,
    pub spans_dropped: u64,
    pub counters_emitted: u64,
    pub instants_emitted: u64,
    pub critical_path_slices: u64,
    pub tracks: u64,
}

impl Stats {
    /// Whether the numbers are those of the given state.
    pub open spec fn counts(self, state: writer_model::WriterState) -> bool {
        &&& self.packets == state.packets.len()
        &&& self.spans_seen == state.spans_seen
        &&& self.spans_emitted == state.spans_emitted
        &&& self.spans_dropped == state.spans_dropped
        &&& self.counters_emitted == state.counters_emitted
        &&& self.instants_emitted == state.instants_emitted
        &&& self.critical_path_slices == state.critical_path_slices
        &&& self.tracks == state.tracks
    }

    pub open spec fn line(self) -> Seq<char> {
        "packets="@ + text::decimal(self.packets as nat) + " tracks="@ + text::decimal(
            self.tracks as nat,
        ) + " spans_seen="@ + text::decimal(self.spans_seen as nat) + " spans_emitted="@
            + text::decimal(self.spans_emitted as nat) + " spans_dropped="@ + text::decimal(
            self.spans_dropped as nat,
        ) + " counters="@ + text::decimal(self.counters_emitted as nat) + " instants="@
            + text::decimal(self.instants_emitted as nat) + " critical_path_slices="@
            + text::decimal(self.critical_path_slices as nat)
    }

    /// The numbers on one line.
    pub fn to_text(&self) -> (out: String)
        ensures
            out@ == self.line(),
    {
        let mut out: String = "packets=".to_owned();
        push_decimal(&mut out, self.packets as u128);
        out.append(" tracks=");
        push_decimal(&mut out, self.tracks as u128);
        out.append(" spans_seen=");
        push_decimal(&mut out, self.spans_seen as u128);
        out.append(" spans_emitted=");
        push_decimal(&mut out, self.spans_emitted as u128);
        out.append(" spans_dropped=");
        push_decimal(&mut out, self.spans_dropped as u128);
        out.append(" counters=");
        push_decimal(&mut out, self.counters_emitted as u128);
        out.append(" instants=");
        push_decimal(&mut out, self.instants_emitted as u128);
        out.append(" critical_path_slices=");
        push_decimal(&mut out, self.critical_path_slices as u128);
        out
    }
}

/// Writes a trace. The bytes are collected until they are taken.
pub struct PerfettoWriter {
    out: Vec<u8>,
    taken: Ghost<Seq<u8>>,
    packets: Ghost<Seq<perfetto_proto::TracePacketModel>>,
    min_duration: Duration,
    first_packet: bool,
    open_spans: HashMap<u64, OpenSpan>,
    /// The tracks, other than counter tracks, that have been declared.
    emitted_tracks: HashSet<u64>,
    /// The counter tracks that have been declared, by name.
    counter_tracks: StringHashMap<u64>,
    next_counter_uuid: u64,
    /// How many spans of each kind are open.
    span_counter_values: StringHashMap<i64>,
    /// The counter that each open span has added to.
    span_counter_open: HashMap<u64, String>,
    /// The last reading of each amount whose rate is reported.
    prev_rate: StringHashMap<(SystemTime, u64)>,
    command_start: Option<SystemTime>,
    stats: Stats,
}

impl View for PerfettoWriter {
    type V = writer_model::WriterState;

    closed spec fn view(&self) -> writer_model::WriterState {
        writer_model::WriterState {
            min_duration: self.min_duration@,
            packets: self.packets@,
            open_spans: self.open_spans@.map_values(|s: OpenSpan| s@),
            emitted_tracks: self.emitted_tracks@,
            counter_tracks: self.counter_tracks@,
            next_counter_uuid: self.next_counter_uuid as nat,
            span_counter_values: self.span_counter_values@.map_values(|v: i64| v as int),
            span_counter_open: self.span_counter_open@.map_values(|s: String| s@),
            prev_rate: self.prev_rate@,
            command_start: self.command_start,
            spans_seen: self.stats.spans_seen as nat,
            spans_emitted: self.stats.spans_emitted as nat,
            spans_dropped: self.stats.spans_dropped as nat,
            counters_emitted: self.stats.counters_emitted as nat,
            instants_emitted: self.stats.instants_emitted as nat,
            critical_path_slices: self.stats.critical_path_slices as nat,
            tracks: self.stats.tracks as nat,
        }
    }
}

impl PerfettoWriter {
    /// The bytes that were taken and those that are left form the trace of the
    /// packets written so far, and those are counted.
    pub closed spec fn well_formed(self) -> bool {
        &&& perfetto_proto::trace_bytes(self.packets@) == self.taken@ + self.out@
        &&& self.stats.packets as nat == self.packets@.len()
        &&& self.first_packet == (self.packets@.len() == 0)
    }

    /// The bytes that were taken.
    pub closed spec fn taken_bytes(self) -> Seq<u8> {
        self.taken@
    }

    /// Well-formed, in the given state, with nothing more taken than in `earlier`.
    pub open spec fn moved_to(self, earlier: PerfettoWriter, state: writer_model::WriterState) -> bool {
        &&& self.well_formed()
        &&& self@ == state
        &&& self.taken_bytes() == earlier.taken_bytes()
    }

    /// The counts of a writer and its numbers of open spans fit.
    pub proof fn lemma_counts_fit(self)
        requires
            self.well_formed(),
        ensures
            self@.counts_fit(),
            self@.values_fit(),
    {
    }

    /// A writer that leaves out slices shorter than `min_duration`.
    pub fn new(min_duration: Duration) -> (w: PerfettoWriter)
        ensures
            w.well_formed(),
            w@ == writer_model::WriterState::initial(min_duration@),
            w.taken_bytes() == Seq::<u8>::empty(),
    {
        let w = PerfettoWriter {
            out: Vec::new(),
            taken: Ghost(Seq::empty()),
            packets: Ghost(Seq::empty()),
            min_duration,
            first_packet: true,
            open_spans: HashMap::new(),
            emitted_tracks: HashSet::new(),
            counter_tracks: StringHashMap::new(),
            next_counter_uuid: COUNTER_TRACK_BASE,
            span_counter_values: StringHashMap::new(),
            span_counter_open: HashMap::new(),
            prev_rate: StringHashMap::new(),
            command_start: None,
            stats: Stats {
                packets: 0,
                spans_seen: 0,
                spans_emitted: 0,
                spans_dropped: 0,
                counters_emitted: 0,
                instants_emitted: 0,
                critical_path_slices: 0,
                tracks: 0,
            },
        };
        assert(w@ =~= writer_model::WriterState::initial(min_duration@));
        assert(perfetto_proto::trace_bytes(w.packets@) =~= Seq::<u8>::empty());
        w
    }

    /// A point in time as nanoseconds since the Unix epoch: zero before the epoch,
    /// and without the bits that do not fit.
    pub fn unix_nanos(t: SystemTime) -> (n: u64)
        ensures
            n == writer_model::unix_nanos(t@),
    {
        let nanos: i128 = t.nanos_from_epoch();
        if nanos < 0 {
            0
        } else {
            (nanos % 0x1_0000_0000_0000_0000) as u64
        }
    }

    /// Appends one packet to the output.
    fn put_packet(&mut self, packet: &TracePacket)
        requires
            old(self).well_formed(),
            old(self)@.packets.len() < u64::MAX,
        ensures
            final(self).moved_to(
                *old(self),
                writer_model::WriterState {
                    packets: old(self)@.packets.push(packet@),
                    ..old(self)@
                },
            ),
    {
        let ghost before = self.packets@;
        let mut bytes: Vec<u8> = packet.encode_as_trace_field();
        let ghost added = bytes@;
        proof {
            trace_reading::law_trace_extends(before, seq![packet@]);
            let field = |p: perfetto_proto::TracePacketModel| p.trace_field();
            assert(seq![packet@].map_values(field) =~= seq![packet@.trace_field()]);
            crate::wire::lemma_encoded_single(packet@.trace_field());
            assert(before + seq![packet@] =~= before.push(packet@));
        }
        self.out.append(&mut bytes);
        self.first_packet = false;
        self.stats.packets = self.stats.packets + 1;
        self.packets = Ghost(before.push(packet@));
        assert(self.taken@ + self.out@ =~= perfetto_proto::trace_bytes(before) + added);
    }

    /// Appends a packet, behind the clock packet where it is the first.
    fn write_packet(&mut self, packet: TracePacket, now: SystemTime)
        requires
            old(self).well_formed(),
            old(self)@.written(packet@, now@).counts_fit(),
        ensures
            final(self).moved_to(*old(self), old(self)@.written(packet@, now@)),
    {
        if self.first_packet {
            let now_nanos: u64 = Self::unix_nanos(now);
            let clocks: Vec<Clock> = vec![
                Clock { clock_id: Some(BUILTIN_CLOCK_BOOTTIME), timestamp: Some(now_nanos) },
                Clock { clock_id: Some(BUILTIN_CLOCK_REALTIME), timestamp: Some(now_nanos) },
            ];
            let snap = TracePacket {
                timestamp: None,
                timestamp_clock_id: None,
                trusted_packet_sequence_id: Some(SEQUENCE_ID),
                sequence_flags: Some(SEQ_INCREMENTAL_STATE_CLEARED),
                track_event: None,
                track_descriptor: None,
                clock_snapshot: Some(ClockSnapshot { clocks }),
            };
            assert(snap@ =~= writer_model::clock_packet(now@));
            self.put_packet(&snap);
        }
        let ghost target = old(self)@.written(packet@, now@);
        let mut packet = packet;
        packet.trusted_packet_sequence_id = Some(SEQUENCE_ID);
        self.put_packet(&packet);
        assert(self@ =~= target);
    }

    /// The packet of an event at the given time.
    fn timed_track_event_packet(ts: SystemTime, ev: TrackEvent) -> (packet: TracePacket)
        ensures
            packet@ == writer_model::timed(ts@, ev@),
    {
        TracePacket {
            timestamp: Some(Self::unix_nanos(ts)),
            timestamp_clock_id: Some(BUILTIN_CLOCK_REALTIME),
            trusted_packet_sequence_id: None,
            sequence_flags: None,
            track_event: Some(ev),
            track_descriptor: None,
            clock_snapshot: None,
        }
    }

    /// The packet that declares a track.
    fn declaration_packet(track: TrackDescriptor) -> (packet: TracePacket)
        ensures
            packet@ == writer_model::declaration(track@),
    {
        TracePacket {
            timestamp: None,
            timestamp_clock_id: None,
            trusted_packet_sequence_id: None,
            sequence_flags: None,
            track_event: None,
            track_descriptor: Some(track),
            clock_snapshot: None,
        }
    }

    /// Declares a track at the top level, once.
    fn ensure_top_track(&mut self, uuid: u64, name: &str, now: SystemTime)
        requires
            old(self).well_formed(),
            old(self)@.with_top_track(uuid, name@, now@).counts_fit(),
        ensures
            final(self).moved_to(*old(self), old(self)@.with_top_track(uuid, name@, now@)),
    {
        if self.emitted_tracks.insert(uuid) {
            self.stats.tracks = self.stats.tracks + 1;
            let td = TrackDescriptor {
                uuid: Some(uuid),
                parent_uuid: None,
                name: Some(name.to_owned()),
                counter: None,
                sibling_merge_behavior: None,
                sibling_merge_key: None,
            };
            assert(td@ =~= writer_model::top_track(uuid, name@));
            assert(self@ =~= (writer_model::WriterState {
                emitted_tracks: old(self)@.emitted_tracks.insert(uuid),
                tracks: old(self)@.tracks + 1,
                ..old(self)@
            }));
            self.write_packet(Self::declaration_packet(td), now);
        } else {
            assert(self.emitted_tracks@ =~= old(self).emitted_tracks@);
        }
    }

    /// Declares a group's track, once.
    fn ensure_group_track(&mut self, category: Category, now: SystemTime)
        requires
            old(self).well_formed(),
            old(self)@.with_top_track(
                category.group_uuid(),
                category.name(),
                now@,
            ).counts_fit(),
        ensures
            final(self).moved_to(
                *old(self),
                old(self)@.with_top_track(category.group_uuid(), category.name(), now@),
            ),
    {
        self.ensure_top_track(category.group_uuid(), category.key(), now);
    }

    /// Declares the track of a member of a group whose own track has been declared.
    fn declare_member(
        &mut self,
        uuid: u64,
        group: u64,
        group_name: &str,
        name: &str,
        now: SystemTime,
    )
        requires
            old(self).well_formed(),
            (writer_model::WriterState {
                emitted_tracks: old(self)@.emitted_tracks.insert(uuid),
                tracks: old(self)@.tracks + 1,
                ..old(self)@
            }).written(
                writer_model::declaration(
                    writer_model::member_track(uuid, group, group_name@, name@),
                ),
                now@,
            ).counts_fit(),
        ensures
            final(self).moved_to(
                *old(self),
                (writer_model::WriterState {
                    emitted_tracks: old(self)@.emitted_tracks.insert(uuid),
                    tracks: old(self)@.tracks + 1,
                    ..old(self)@
                }).written(
                    writer_model::declaration(
                        writer_model::member_track(uuid, group, group_name@, name@),
                    ),
                    now@,
                ),
            ),
    {
        self.emitted_tracks.insert(uuid);
        self.stats.tracks = self.stats.tracks + 1;
        let td = TrackDescriptor {
            uuid: Some(uuid),
            parent_uuid: Some(group),
            name: Some(name.to_owned()),
            counter: None,
            sibling_merge_behavior: Some(SIBLING_MERGE_BEHAVIOR_BY_SIBLING_MERGE_KEY),
            sibling_merge_key: Some(group_name.to_owned()),
        };
        assert(td@ =~= writer_model::member_track(uuid, group, group_name@, name@));
        assert(self@ =~= (writer_model::WriterState {
            emitted_tracks: old(self)@.emitted_tracks.insert(uuid),
            tracks: old(self)@.tracks + 1,
            ..old(self)@
        }));
        self.write_packet(Self::declaration_packet(td), now);
    }

    /// Declares the track of a root span in its group, once. The spans of one group
    /// are packed into shared lanes.
    fn ensure_span_track(&mut self, uuid: u64, category: Category, name: &str, now: SystemTime)
        requires
            old(self).well_formed(),
            old(self)@.with_member_track(
                uuid,
                category.group_uuid(),
                category.name(),
                name@,
                now@,
            ).counts_fit(),
        ensures
            final(self).moved_to(
                *old(self),
                old(self)@.with_member_track(
                    uuid,
                    category.group_uuid(),
                    category.name(),
                    name@,
                    now@,
                ),
            ),
    {
        if self.emitted_tracks.contains(&uuid) {
            return ;
        }
        self.ensure_group_track(category, now);
        self.declare_member(uuid, category.group_uuid(), category.key(), name, now);
    }

    /// Declares the group of the tracks on which actions wait, once.
    fn ensure_queued_group(&mut self, now: SystemTime)
        requires
            old(self).well_formed(),
            old(self)@.with_top_track(TRACK_QUEUED, "queued"@, now@).counts_fit(),
        ensures
            final(self).moved_to(
                *old(self),
                old(self)@.with_top_track(TRACK_QUEUED, "queued"@, now@),
            ),
    {
        self.ensure_top_track(TRACK_QUEUED, "queued", now);
    }

    /// Declares the track on which an action waits, once. All of them share lanes.
    fn ensure_queued_track(&mut self, uuid: u64, name: &str, now: SystemTime)
        requires
            old(self).well_formed(),
            old(self)@.with_member_track(
                uuid,
                TRACK_QUEUED,
                "queued"@,
                name@,
                now@,
            ).counts_fit(),
        ensures
            final(self).moved_to(
                *old(self),
                old(self)@.with_member_track(uuid, TRACK_QUEUED, "queued"@, name@, now@),
            ),
    {
        if self.emitted_tracks.contains(&uuid) {
            return ;
        }
        self.ensure_queued_group(now);
        self.declare_member(uuid, TRACK_QUEUED, "queued", name, now);
    }

    /// Declares the group of the counters of open spans, once.
    fn ensure_span_counter_group(&mut self, now: SystemTime)
        requires
            old(self).well_formed(),
            old(self)@.with_top_track(TRACK_SPAN_COUNTERS, "open spans"@, now@).counts_fit(),
        ensures
            final(self).moved_to(
                *old(self),
                old(self)@.with_top_track(TRACK_SPAN_COUNTERS, "open spans"@, now@),
            ),
    {
        self.ensure_top_track(TRACK_SPAN_COUNTERS, "open spans", now);
    }

    /// The uuid of a counter's track, which is declared if it was not before.
    fn counter_track_parented(
        &mut self,
        name: &str,
        unit: i32,
        parent_uuid: Option<u64>,
        now: SystemTime,
    ) -> (uuid: u64)
        requires
            old(self).well_formed(),
            old(self)@.with_counter_track(name@, unit, parent_uuid, now@).counts_fit(),
        ensures
            final(self).moved_to(
                *old(self),
                old(self)@.with_counter_track(name@, unit, parent_uuid, now@),
            ),
            uuid == final(self)@.counter_tracks[name@],
    {
        if let Some(uuid) = self.counter_tracks.get(name) {
            return *uuid;
        }
        let uuid: u64 = self.next_counter_uuid;
        self.next_counter_uuid = self.next_counter_uuid + 1;
        self.counter_tracks.insert(name.to_owned(), uuid);
        self.stats.tracks = self.stats.tracks + 1;
        let td = TrackDescriptor {
            uuid: Some(uuid),
            parent_uuid,
            name: Some(name.to_owned()),
            counter: Some(CounterDescriptor { unit: Some(unit), unit_name: None }),
            sibling_merge_behavior: None,
            sibling_merge_key: None,
        };
        assert(td@ =~= writer_model::counter_track(uuid, name@, unit, parent_uuid));
        assert(self@ =~= (writer_model::WriterState {
            next_counter_uuid: old(self)@.next_counter_uuid + 1,
            counter_tracks: old(self)@.counter_tracks.insert(name@, uuid),
            tracks: old(self)@.tracks + 1,
            ..old(self)@
        }));
        self.write_packet(Self::declaration_packet(td), now);
        uuid
    }

    /// A counter takes a value.
    fn emit_counter(
        &mut self,
        ts: SystemTime,
        name: &str,
        unit: i32,
        parent_uuid: Option<u64>,
        value: CounterValue,
        now: SystemTime,
    )
        requires
            old(self).well_formed(),
            old(self)@.counted(ts@, name@, unit, parent_uuid, value, now@).counts_fit(),
        ensures
            final(self).moved_to(
                *old(self),
                old(self)@.counted(ts@, name@, unit, parent_uuid, value, now@),
            ),
    {
        reveal(writer_model::WriterState::counted);
        let uuid: u64 = self.counter_track_parented(name, unit, parent_uuid, now);
        let ev = TrackEvent {
            event_type: Some(TYPE_COUNTER),
            track_uuid: Some(uuid),
            name: None,
            categories: Vec::new(),
            counter_value: match value {
                CounterValue::Int(v) => Some(v),
                CounterValue::Double(_) => None,
            },
            double_counter_value: match value {
                CounterValue::Int(_) => None,
                CounterValue::Double(bits) => Some(bits),
            },
            correlation_id: None,
            debug_annotations: Vec::new(),
        };
        assert(ev@ =~= writer_model::counter_event(uuid, value));
        self.write_packet(Self::timed_track_event_packet(ts, ev), now);
        self.stats.counters_emitted = self.stats.counters_emitted + 1;
        assert(self@ =~= old(self)@.counted(ts@, name@, unit, parent_uuid, value, now@));
    }

    /// A counter takes a whole number.
    fn emit_int_counter(&mut self, ts: SystemTime, name: &str, value: i64, now: SystemTime)
        requires
            old(self).well_formed(),
            old(self)@.counted(
                ts@,
                name@,
                UNIT_COUNT,
                None,
                CounterValue::Int(value),
                now@,
            ).counts_fit(),
        ensures
            final(self).moved_to(
                *old(self),
                old(self)@.counted(
                    ts@,
                    name@,
                    UNIT_COUNT,
                    None,
                    CounterValue::Int(value),
                    now@,
                ),
            ),
    {
        self.emit_counter(ts, name, UNIT_COUNT, None, CounterValue::Int(value), now);
    }

    /// A counter takes the number whose bit pattern is given.
    fn emit_double_counter(
        &mut self,
        ts: SystemTime,
        name: &str,
        unit: i32,
        bits: u64,
        now: SystemTime,
    )
        requires
            old(self).well_formed(),
            old(self)@.counted(
                ts@,
                name@,
                unit,
                None,
                CounterValue::Double(bits),
                now@,
            ).counts_fit(),
        ensures
            final(self).moved_to(
                *old(self),
                old(self)@.counted(ts@, name@, unit, None, CounterValue::Double(bits), now@),
            ),
    {
        self.emit_counter(ts, name, unit, None, CounterValue::Double(bits), now);
    }

    /// Changes the number of open spans counted under a name, and reports it at
    /// once.
    fn bump_span_counter(&mut self, ts: SystemTime, name: &str, delta: i64, now: SystemTime)
        requires
            old(self).well_formed(),
            old(self)@.bumped(ts@, name@, delta as int, now@).counts_fit(),
            i64::MIN <= old(self)@.population(name@) + delta <= i64::MAX,
        ensures
            final(self).moved_to(
                *old(self),
                old(self)@.bumped(ts@, name@, delta as int, now@),
            ),
    {
        broadcast use writer_model::lemma_counted_grows;

        reveal(writer_model::WriterState::bumped);
        let ghost target = old(self)@.bumped(ts@, name@, delta as int, now@);
        let value: i64 = self.population(name) + delta;
        self.ensure_span_counter_group(now);
        let track_name = concat("spans: ", name);
        self.emit_counter(
            ts,
            track_name.as_str(),
            UNIT_COUNT,
            Some(TRACK_SPAN_COUNTERS),
            CounterValue::Int(value),
            now,
        );
        let ghost before = self@;
        self.span_counter_values.insert(name.to_owned(), value);
        assert(self@.span_counter_values =~= before.span_counter_values.insert(
            name@,
            value as int,
        ));
        assert(self@ =~= target);
    }

    /// Reports how fast an amount grew since its last reading.
    fn emit_rate_counter(&mut self, ts: SystemTime, name: &str, amount: u64, now: SystemTime)
        requires
            old(self).well_formed(),
            old(self)@.rated(ts, name@, amount, now@).counts_fit(),
        ensures
            final(self).moved_to(*old(self), old(self)@.rated(ts, name@, amount, now@)),
    {
        reveal(writer_model::WriterState::rated);
        let previous: Option<(SystemTime, u64)> = match self.prev_rate.get(name) {
            Some(p) => Some(*p),
            None => None,
        };
        if let Some((prev_ts, prev_amount)) = previous {
            if prev_ts.is_before(&ts) {
                let elapsed: Duration = match ts.duration_since(prev_ts) {
                    Some(d) => d,
                    None => Duration::zero(),
                };
                let delta: u64 = if amount < prev_amount {
                    0
                } else {
                    amount - prev_amount
                };
                let bits: u64 = binary64::per_second_bits(delta, elapsed);
                self.emit_double_counter(ts, name, UNIT_COUNT, bits, now);
            }
        }
        self.prev_rate.insert(name.to_owned(), (ts, amount));
        assert(self@ =~= old(self)@.rated(ts, name@, amount, now@));
    }

    /// Something happens at one moment.
    fn emit_instant(
        &mut self,
        ts: SystemTime,
        name: &str,
        annotations: Vec<DebugAnnotation>,
        now: SystemTime,
    )
        requires
            old(self).well_formed(),
            old(self)@.marked(
                ts@,
                name@,
                annotations@.map_values(|a: DebugAnnotation| a@),
                now@,
            ).counts_fit(),
        ensures
            final(self).moved_to(
                *old(self),
                old(self)@.marked(
                    ts@,
                    name@,
                    annotations@.map_values(|a: DebugAnnotation| a@),
                    now@,
                ),
            ),
    {
        reveal(writer_model::WriterState::marked);
        let ghost views = annotations@.map_values(|a: DebugAnnotation| a@);
        self.ensure_group_track(Category::Misc, now);
        let ev = TrackEvent {
            event_type: Some(TYPE_INSTANT),
            track_uuid: Some(TRACK_MISC),
            name: Some(name.to_owned()),
            categories: Vec::new(),
            counter_value: None,
            double_counter_value: None,
            correlation_id: None,
            debug_annotations: annotations,
        };
        assert(ev@ =~= writer_model::instant_event(name@, views));
        self.write_packet(Self::timed_track_event_packet(ts, ev), now);
        self.stats.instants_emitted = self.stats.instants_emitted + 1;
        assert(self@ =~= old(self)@.marked(ts@, name@, views, now@));
    }

    /// A slice from `start` to `end`.
    fn emit_slice(
        &mut self,
        start: SystemTime,
        end: SystemTime,
        uuid: u64,
        name: String,
        correlation_id: Option<u64>,
        annotations: Vec<DebugAnnotation>,
        now: SystemTime,
    )
        requires
            old(self).well_formed(),
            old(self)@.sliced(
                start@,
                end@,
                uuid,
                name@,
                correlation_id,
                annotations@.map_values(|a: DebugAnnotation| a@),
                now@,
            ).counts_fit(),
        ensures
            final(self).moved_to(
                *old(self),
                old(self)@.sliced(
                    start@,
                    end@,
                    uuid,
                    name@,
                    correlation_id,
                    annotations@.map_values(|a: DebugAnnotation| a@),
                    now@,
                ),
            ),
    {
        let ghost views = annotations@.map_values(|a: DebugAnnotation| a@);
        let ghost shown = name@;
        let begin = TrackEvent {
            event_type: Some(TYPE_SLICE_BEGIN),
            track_uuid: Some(uuid),
            name: Some(name),
            categories: Vec::new(),
            counter_value: None,
            double_counter_value: None,
            correlation_id,
            debug_annotations: annotations,
        };
        assert(begin@ =~= writer_model::begin_event(uuid, shown, correlation_id, views));
        self.write_packet(Self::timed_track_event_packet(start, begin), now);
        let slice_end = TrackEvent {
            event_type: Some(TYPE_SLICE_END),
            track_uuid: Some(uuid),
            name: None,
            categories: Vec::new(),
            counter_value: None,
            double_counter_value: None,
            correlation_id,
            debug_annotations: Vec::new(),
        };
        assert(slice_end@ =~= writer_model::end_event(uuid, correlation_id));
        self.write_packet(Self::timed_track_event_packet(end, slice_end), now);
    }

    /// The counters of a snapshot.
    fn handle_snapshot(&mut self, ts: SystemTime, snapshot: &Snapshot, now: SystemTime)
        requires
            old(self).well_formed(),
            old(self)@.sampled(ts, *snapshot, now@).counts_fit(),
        ensures
            final(self).moved_to(*old(self), old(self)@.sampled(ts, *snapshot, now@)),
    {
        let ghost sizes = old(self)@.sampled_sizes(ts@, *snapshot, now@);
        let ghost rates = sizes.sampled_rates(ts, *snapshot, now@);
        let ghost nics = snapshot.network_interface_stats@;
        proof {
            writer_model::lemma_sampled_nics_grows(rates, ts, nics, 0, now@);
            assert(nics.take(0) =~= Seq::<NetworkInterfaceStats>::empty());
            writer_model::lemma_sampled_rates_grows(sizes, ts, *snapshot, now@);
        }
        self.sample_sizes(ts, snapshot, now);
        self.sample_rates(ts, snapshot, now);
        self.sample_nics(ts, &snapshot.network_interface_stats, now);
    }

    /// The sizes and queue lengths of a snapshot.
    fn sample_sizes(&mut self, ts: SystemTime, snapshot: &Snapshot, now: SystemTime)
        requires
            old(self).well_formed(),
            old(self)@.sampled_sizes(ts@, *snapshot, now@).counts_fit(),
        ensures
            final(self).moved_to(*old(self), old(self)@.sampled_sizes(ts@, *snapshot, now@)),
    {
        broadcast use writer_model::lemma_counted_grows;

        self.emit_double_counter(
            ts,
            "max_rss_gigabyte",
            UNIT_SIZE_BYTES,
            binary64::quotient_bits(snapshot.buck2_max_rss, 1_000_000_000),
            now,
        );
        if let Some(malloc) = snapshot.malloc_bytes_active {
            self.emit_double_counter(
                ts,
                "malloc_active_gigabyte",
                UNIT_SIZE_BYTES,
                binary64::quotient_bits(malloc, 1_000_000_000),
                now,
            );
        }
        self.emit_int_counter(
            ts,
            "deferred_materializer_queue_size",
            signed(snapshot.deferred_materializer_queue_size),
            now,
        );
        self.emit_int_counter(
            ts,
            "blocking_executor_io_queue_size",
            signed(snapshot.blocking_executor_io_queue_size),
            now,
        );
        self.emit_int_counter(
            ts,
            "tokio_blocking_queue_depth",
            signed(snapshot.tokio_blocking_queue_depth),
            now,
        );
    }

    /// The rates of a snapshot.
    fn sample_rates(&mut self, ts: SystemTime, snapshot: &Snapshot, now: SystemTime)
        requires
            old(self).well_formed(),
            old(self)@.sampled_rates(ts, *snapshot, now@).counts_fit(),
        ensures
            final(self).moved_to(*old(self), old(self)@.sampled_rates(ts, *snapshot, now@)),
    {
        broadcast use writer_model::lemma_rated_grows;

        self.emit_rate_counter(ts, "user_cpu_us_per_s", snapshot.buck2_user_cpu_us, now);
        self.emit_rate_counter(ts, "system_cpu_us_per_s", snapshot.buck2_system_cpu_us, now);
        self.emit_rate_counter(ts, "re_upload_bytes_per_s", snapshot.re_upload_bytes, now);
        self.emit_rate_counter(ts, "re_download_bytes_per_s", snapshot.re_download_bytes, now);
        self.emit_rate_counter(
            ts,
            "http_download_bytes_per_s",
            snapshot.http_download_bytes,
            now,
        );
    }

    /// The traffic of the network interfaces.
    fn sample_nics(
        &mut self,
        ts: SystemTime,
        interfaces: &Vec<NetworkInterfaceStats>,
        now: SystemTime,
    )
        requires
            old(self).well_formed(),
            old(self)@.sampled_nics(ts, interfaces@, now@).counts_fit(),
        ensures
            final(self).moved_to(*old(self), old(self)@.sampled_nics(ts, interfaces@, now@)),
    {
        let ghost start = old(self)@;
        let ghost nics = interfaces@;
        let mut i: usize = 0;
        assert(nics.take(0) =~= Seq::<NetworkInterfaceStats>::empty());
        while i < interfaces.len()
            invariant
                i <= interfaces.len(),
                start == old(self)@,
                nics == interfaces@,
                start.sampled_nics(ts, nics, now@).counts_fit(),
                self.moved_to(*old(self), start.sampled_nics(ts, nics.take(i as int), now@)),
            decreases interfaces.len() - i,
        {
            let stats = &interfaces[i];
            proof {
                writer_model::lemma_sampled_nics_grows(start, ts, nics, i + 1, now@);
                assert(nics.take(i + 1).drop_last() =~= nics.take(i as int));
                let sent = self@.rated(
                    ts,
                    stats.nic@ + "_send_bytes_per_s"@,
                    stats.tx_bytes,
                    now@,
                );
                writer_model::lemma_rated_grows(
                    sent,
                    ts,
                    stats.nic@ + "_receive_bytes_per_s"@,
                    stats.rx_bytes,
                    now@,
                );
            }
            let send = concat(stats.nic.as_str(), "_send_bytes_per_s");
            self.emit_rate_counter(ts, send.as_str(), stats.tx_bytes, now);
            let receive = concat(stats.nic.as_str(), "_receive_bytes_per_s");
            self.emit_rate_counter(ts, receive.as_str(), stats.rx_bytes, now);
            i = i + 1;
        }
        assert(nics.take(i as int) =~= nics);
    }

    /// The slices of the critical path, each on one track of its own, at times
    /// counted from the start of the command.
    fn write_critical_path(
        &mut self,
        critical_path: &Vec<PathEntry>,
        now: SystemTime,
    ) -> (r: Result<(), WriterError>)
        requires
            old(self).well_formed(),
            old(self)@.after_path(critical_path@, now@).0.counts_fit(),
            old(self)@.path_fits(critical_path@),
        ensures
            final(self).moved_to(*old(self), old(self)@.after_path(critical_path@, now@).0),
            error_of(r) == old(self)@.after_path(critical_path@, now@).1,
    {
        let command_start: SystemTime = match self.command_start {
            Some(t) => t,
            None => return Ok(()),
        };
        let ghost entries = critical_path@;
        let ghost t = command_start@;
        let ghost declared = old(self)@.with_top_track(
            TRACK_CRITICAL_PATH,
            "critical path"@,
            now@,
        );
        proof {
            writer_model::lemma_path_slices_grow(declared, t, entries, 0, now@);
            assert(entries.take(0) =~= Seq::<PathEntry>::empty());
        }
        self.ensure_top_track(TRACK_CRITICAL_PATH, "critical path", now);
        let mut i: usize = 0;
        while i < critical_path.len()
            invariant
                i <= critical_path.len(),
                entries == critical_path@,
                t == command_start@,
                old(self)@.command_start == Some(command_start),
                old(self)@.path_fits(entries),
                old(self)@.after_path(entries, now@) == declared.with_path_slices(
                    t,
                    entries,
                    now@,
                ),
                declared.with_path_slices(t, entries, now@).0.counts_fit(),
                forall|k: int|
                    0 <= k < i ==> !writer_model::path_fails(#[trigger] entries[k]),
                declared.with_path_slices(t, entries.take(i as int), now@).1 is None,
                self.moved_to(
                    *old(self),
                    declared.with_path_slices(t, entries.take(i as int), now@).0,
                ),
            decreases critical_path.len() - i,
        {
            let entry = &critical_path[i];
            proof {
                writer_model::lemma_path_slices_grow(declared, t, entries, i + 1, now@);
                assert(entries.take(i + 1).drop_last() =~= entries.take(i as int));
                assert(entries.take(i + 1).last() == entries[i as int]);
                assert(writer_model::path_entry_fits(t, entries[i as int]));
            }
            let start_offset_ns: u64 = match entry.start_offset_ns {
                Some(ns) => ns,
                None => 0,
            };
            let critical: Duration = match entry.total_duration {
                Some(d) => d,
                None => Duration::zero(),
            };
            let non_critical: Duration = match entry.non_critical_path_duration {
                Some(d) => d,
                None => Duration::zero(),
            };
            let total: Duration = critical.plus(non_critical);
            if !total.is_shorter_than(&Duration::from_millis(1)) {
                match &entry.display {
                    Err(e) => {
                        return Err(WriterError::Display(e.clone()));
                    },
                    Ok(None) => {},
                    Ok(Some(name)) => {
                        let start: SystemTime = command_start.plus(
                            Duration::from_nanos(start_offset_ns),
                        );
                        let end: SystemTime = start.plus(total);
                        let annotations: Vec<DebugAnnotation> = Vec::new();
                        assert(annotations@.map_values(|a: DebugAnnotation| a@)
                            =~= Seq::<perfetto_proto::DebugAnnotationModel>::empty());
                        self.emit_slice(
                            start,
                            end,
                            TRACK_CRITICAL_PATH,
                            name.clone(),
                            None,
                            annotations,
                            now,
                        );
                        self.stats.critical_path_slices = self.stats.critical_path_slices + 1;
                        assert(self@ =~= declared.with_path_slices(
                            t,
                            entries.take(i + 1),
                            now@,
                        ).0);
                    },
                }
            }
            i = i + 1;
        }
        assert(entries.take(i as int) =~= entries);
        Ok(())
    }

    /// The start of a span.
    fn handle_span_start(
        &mut self,
        event: &BuckEvent,
        start: &SpanStart,
        now: SystemTime,
    ) -> (r: Result<(), WriterError>)
        requires
            old(self).well_formed(),
            old(self)@.after_start(*event, *start, now@).0.counts_fit(),
            old(self)@.after_start(*event, *start, now@).0.values_fit(),
        ensures
            final(self).moved_to(
                *old(self),
                old(self)@.after_start(*event, *start, now@).0,
            ),
            error_of(r) == old(self)@.after_start(*event, *start, now@).1,
    {
        broadcast use writer_model::lemma_bumped_grows;

        let span_id: u64 = match event.span_id {
            Some(id) => id,
            None => return Ok(()),
        };
        let ghost target = old(self)@.after_start(*event, *start, now@).0;
        self.stats.spans_seen = self.stats.spans_seen + 1;
        let ghost seen = writer_model::WriterState {
            spans_seen: old(self)@.spans_seen + 1,
            ..old(self)@
        };
        assert(self@ =~= seen);
        let (name, category) = match span_name_and_category(start) {
            Ok(pair) => pair,
            Err(e) => return Err(e),
        };
        if let SpanStart::Command = start {
            self.command_start = Some(event.timestamp);
        }
        let ghost begun = if *start is Command {
            writer_model::WriterState { command_start: Some(event.timestamp), ..seen }
        } else {
            seen
        };
        assert(self@ =~= begun);
        if let Some(counter_name) = span_population_counter_name(start) {
            proof {
                writer_model::lemma_bumped_frame(
                    begun,
                    event.timestamp@,
                    counter_name@,
                    1,
                    now@,
                );
                assert(target.span_counter_values.contains_key(counter_name@));
            }
            self.bump_span_counter(event.timestamp, counter_name, 1, now);
            let ghost before = self@;
            self.span_counter_open.insert(span_id, counter_name.to_owned());
            assert(self@.span_counter_open =~= before.span_counter_open.insert(
                span_id,
                counter_name@,
            ));
            assert(self@ =~= (writer_model::WriterState {
                span_counter_open: before.span_counter_open.insert(span_id, counter_name@),
                ..before
            }));
        }
        let ghost counted = begun.with_counted_span(span_id, event.timestamp@, *start, now@);
        assert(self@ == counted);
        let (parent_uuid, parent_action): (Option<u64>, Option<(u64, String)>) = match event.parent_id {
            Some(id) => match self.open_spans.get(&id) {
                Some(parent) => (
                    Some(parent.track_uuid),
                    match &parent.role {
                        SpanRole::Action { .. } => Some((id, parent.name.clone())),
                        _ => None,
                    },
                ),
                None => (None, None),
            },
            None => (None, None),
        };
        let role: SpanRole = match start {
            SpanStart::ActionExecution { .. } => SpanRole::Action { saw_stage: false },
            SpanStart::ExecutorStage { stage } => match parent_action {
                Some((action_span_id, action_identity)) => SpanRole::Stage {
                    action_span_id,
                    action_identity,
                    is_execution: match stage {
                        Some(s) => stage_is_execution(&s.stage),
                        None => false,
                    },
                    is_waiting: match stage {
                        Some(s) => stage_is_waiting(&s.stage),
                        None => false,
                    },
                },
                None => SpanRole::Plain,
            },
            _ => SpanRole::Plain,
        };
        assert(role@ == counted.role_of(*event, *start));
        if let SpanRole::Stage { action_span_id, .. } = &role {
            self.mark_stage_seen(*action_span_id);
        }
        assert(self@ == counted.with_stage_seen(*event, *start));
        let (track_uuid, is_root): (u64, bool) = match &role {
            SpanRole::Stage { action_span_id, is_waiting, .. } => if *is_waiting {
                (queued_track_uuid(*action_span_id), false)
            } else {
                (*action_span_id, false)
            },
            _ => match parent_uuid {
                Some(uuid) => (uuid, false),
                None => (span_id, true),
            },
        };
        assert((track_uuid, is_root) == counted.track_of(*event, *start, span_id));
        let annotations: Vec<DebugAnnotation> = vec![DebugAnnotation::uint("span_id", span_id)];
        let span = OpenSpan {
            start: event.timestamp,
            track_uuid,
            category,
            is_root,
            name,
            annotations,
            role,
        };
        assert(span@.annotations =~= seq![
            perfetto_proto::DebugAnnotationModel::uint("span_id"@, span_id),
        ]);
        let ghost before = self@;
        let ghost view = span@;
        self.open_spans.insert(span_id, span);
        assert(self@.open_spans =~= before.open_spans.insert(span_id, view));
        assert(self@ =~= target);
        Ok(())
    }

    /// The end of a span.
    fn handle_span_end(
        &mut self,
        event: &BuckEvent,
        end: &SpanEnd,
        now: SystemTime,
    ) -> (r: Result<(), WriterError>)
        requires
            old(self).well_formed(),
            old(self)@.after_end(*event, *end, now@).0.counts_fit(),
            old(self)@.after_end(*event, *end, now@).0.values_fit(),
            old(self)@.end_fits(*event, *end),
        ensures
            final(self).moved_to(*old(self), old(self)@.after_end(*event, *end, now@).0),
            error_of(r) == old(self)@.after_end(*event, *end, now@).1,
    {
        broadcast use writer_model::lemma_bumped_grows;

        let span_id: u64 = match event.span_id {
            Some(id) => id,
            None => return Ok(()),
        };
        let ghost target = old(self)@.after_end(*event, *end, now@).0;
        let ghost failed = old(self)@.with_failure(
            event.timestamp@,
            end.materialization,
            now@,
        );
        let ghost s = failed.without_counted_span(span_id, event.timestamp@, now@);
        proof {
            writer_model::lemma_end_frame(
                old(self)@,
                end.materialization,
                span_id,
                event.timestamp@,
                now@,
            );
            if s.open_spans.contains_key(span_id) {
                let closed = writer_model::WriterState {
                    open_spans: s.open_spans.remove(span_id),
                    ..s
                };
                if let Some(Ok(d)) = end.duration {
                    writer_model::lemma_slice_frame(
                        closed,
                        s.open_spans[span_id],
                        d@,
                        now@,
                    );
                }
            }
        }
        self.mark_failure(event.timestamp, &end.materialization, now);
        if let Some(counter_name) = self.span_counter_open.remove(&span_id) {
            let ghost without = writer_model::WriterState {
                span_counter_open: failed.span_counter_open.remove(span_id),
                ..failed
            };
            assert(self@.span_counter_open =~= failed.span_counter_open.remove(span_id));
            assert(self@ =~= without);
            proof {
                writer_model::lemma_bumped_frame(
                    without,
                    event.timestamp@,
                    counter_name@,
                    -1,
                    now@,
                );
                assert(target.span_counter_values.contains_key(counter_name@));
            }
            self.bump_span_counter(event.timestamp, counter_name.as_str(), -1, now);
        } else {
            assert(self@ =~= failed);
        }
        assert(self@ == s);
        let open: OpenSpan = match self.open_spans.remove(&span_id) {
            Some(open) => open,
            None => {
                assert(self@ =~= s);
                return Ok(());
            },
        };
        let ghost closed = writer_model::WriterState {
            open_spans: s.open_spans.remove(span_id),
            ..s
        };
        assert(self@.open_spans =~= s.open_spans.remove(span_id));
        assert(self@ =~= closed);
        let duration: Duration = match &end.duration {
            Some(Ok(d)) => *d,
            Some(Err(e)) => return Err(WriterError::InvalidDuration(e.clone())),
            None => return Err(WriterError::MissingDuration),
        };
        self.write_span(open, duration, now);
        Ok(())
    }

    /// A failed materialization is marked.
    fn mark_failure(
        &mut self,
        ts: SystemTime,
        materialization: &Option<Materialization>,
        now: SystemTime,
    )
        requires
            old(self).well_formed(),
            old(self)@.with_failure(ts@, *materialization, now@).counts_fit(),
        ensures
            final(self).moved_to(
                *old(self),
                old(self)@.with_failure(ts@, *materialization, now@),
            ),
    {
        reveal(writer_model::WriterState::with_failure);
        if let Some(m) = materialization {
            if !m.success {
                let error: String = match &m.error {
                    Some(e) => e.clone(),
                    None => String::new(),
                };
                let annotations: Vec<DebugAnnotation> = vec![
                    DebugAnnotation::string("path", m.path.clone()),
                    DebugAnnotation::uint("file_count", m.file_count),
                    DebugAnnotation::uint("total_bytes", m.total_bytes),
                    DebugAnnotation::string("error", error),
                ];
                assert(annotations@.map_values(|a: DebugAnnotation| a@)
                    =~= writer_model::failure_annotations(*m));
                self.emit_instant(ts, "materialization_failure", annotations, now);
            }
        }
    }

    /// The slice of a span that has ended, unless it is too short or its stages
    /// stand in for it.
    fn write_span(&mut self, open: OpenSpan, duration: Duration, now: SystemTime)
        requires
            old(self).well_formed(),
            old(self)@.with_slice(open@, duration@, now@).counts_fit(),
            !open@.is_replaced() && duration@ >= old(self)@.min_duration ==> open@.start@
                + duration@ <= crate::time::MAX_TIME_NANOS,
        ensures
            final(self).moved_to(
                *old(self),
                old(self)@.with_slice(open@, duration@, now@),
            ),
    {
        reveal(writer_model::WriterState::with_slice);
        let ghost span = open@;
        let mut annotations: Vec<DebugAnnotation> = open.annotations;
        let (slice_name, correlation_id): (String, Option<u64>) = match &open.role {
            SpanRole::Action { saw_stage } => {
                if *saw_stage {
                    return ;
                }
                (open.name.clone(), None)
            },
            SpanRole::Stage { action_span_id, action_identity, is_execution, is_waiting } => {
                let name: String = if *is_waiting {
                    if open.name == "local_queued".to_owned() {
                        action_identity.clone()
                    } else {
                        let mut name: String = concat(action_identity.as_str(), " (");
                        name.append(open.name.as_str());
                        name.append(")");
                        name
                    }
                } else if *is_execution {
                    action_identity.clone()
                } else {
                    open.name.clone()
                };
                annotations.push(DebugAnnotation::string("action", action_identity.clone()));
                annotations.push(DebugAnnotation::uint("action_span_id", *action_span_id));
                (name, Some(*action_span_id))
            },
            SpanRole::Plain => (open.name.clone(), None),
        };
        assert(slice_name@ =~= span.slice_name());
        assert(annotations@.map_values(|a: DebugAnnotation| a@) =~= span.slice_annotations());
        if duration.is_shorter_than(&self.min_duration) {
            self.stats.spans_dropped = self.stats.spans_dropped + 1;
            assert(self@ =~= old(self)@.with_slice(span, duration@, now@));
            return ;
        }
        self.stats.spans_emitted = self.stats.spans_emitted + 1;
        assert(self@ =~= (writer_model::WriterState {
            spans_emitted: old(self)@.spans_emitted + 1,
            ..old(self)@
        }));
        match &open.role {
            SpanRole::Stage { action_identity, is_waiting, .. } => {
                if *is_waiting {
                    self.ensure_queued_track(open.track_uuid, action_identity.as_str(), now);
                } else {
                    self.ensure_span_track(
                        open.track_uuid,
                        Category::Actions,
                        action_identity.as_str(),
                        now,
                    );
                }
            },
            _ => {
                if open.is_root {
                    self.ensure_span_track(
                        open.track_uuid,
                        open.category,
                        open.name.as_str(),
                        now,
                    );
                }
            },
        }
        let end_ts: SystemTime = open.start.plus(duration);
        self.emit_slice(
            open.start,
            end_ts,
            open.track_uuid,
            slice_name,
            correlation_id,
            annotations,
            now,
        );
    }

    /// Something that happens at one moment.
    fn handle_instant(
        &mut self,
        event: &BuckEvent,
        instant: &Instant,
        now: SystemTime,
    ) -> (r: Result<(), WriterError>)
        requires
            old(self).well_formed(),
            old(self)@.after_instant(*event, *instant, now@).0.counts_fit(),
            instant matches Instant::BuildGraphInfo(entries) ==> old(self)@.path_fits(entries@),
        ensures
            final(self).moved_to(
                *old(self),
                old(self)@.after_instant(*event, *instant, now@).0,
            ),
            error_of(r) == old(self)@.after_instant(*event, *instant, now@).1,
    {
        match instant {
            Instant::Snapshot(snapshot) => {
                self.handle_snapshot(event.timestamp, snapshot, now);
                Ok(())
            },
            Instant::CommandPreempted => {
                let annotations: Vec<DebugAnnotation> = Vec::new();
                assert(annotations@.map_values(|a: DebugAnnotation| a@) =~= Seq::<
                    perfetto_proto::DebugAnnotationModel,
                >::empty());
                self.emit_instant(event.timestamp, "command_preempted", annotations, now);
                Ok(())
            },
            Instant::BuildGraphInfo(entries) => self.write_critical_path(entries, now),
            Instant::Other => Ok(()),
        }
    }

    /// Writes what an event adds to the trace. `now` is the time of the call; the
    /// clock packet bears it if this event writes the first packet.
    pub fn handle_event(
        &mut self,
        event: &BuckEvent,
        now: SystemTime,
    ) -> (r: Result<(), WriterError>)
        requires
            old(self).well_formed(),
            old(self)@.can_handle(*event, now@),
        ensures
            final(self).well_formed(),
            final(self).taken_bytes() == old(self).taken_bytes(),
            final(self)@ == old(self)@.handled(*event, now@).0,
            error_of(r) == old(self)@.handled(*event, now@).1,
    {
        match &event.data {
            EventData::SpanStart(Some(start)) => self.handle_span_start(event, start, now),
            EventData::SpanStart(None) => Ok(()),
            EventData::SpanEnd(end) => self.handle_span_end(event, end, now),
            EventData::Instant(Some(instant)) => self.handle_instant(event, instant, now),
            EventData::Instant(None) => Ok(()),
            EventData::Record => Ok(()),
        }
    }

    /// Whether every count can grow by `k`.
    fn counts_have(&self, k: u128) -> (b: bool)
        requires
            self.well_formed(),
            k <= 0xFFFF_FFFF_FFFF_FFFF_FFFF,
        ensures
            b == writer_room::counts_have(self@, k as nat),
    {
        let max: u128 = u64::MAX as u128;
        self.stats.packets as u128 + k <= max && self.next_counter_uuid as u128 + k <= max
            && self.stats.spans_seen as u128 + k <= max && self.stats.spans_emitted as u128 + k
            <= max && self.stats.spans_dropped as u128 + k <= max
            && self.stats.counters_emitted as u128 + k <= max
            && self.stats.instants_emitted as u128 + k <= max
            && self.stats.critical_path_slices as u128 + k <= max && self.stats.tracks as u128
            + k <= max
    }

    /// How many spans are counted under the name.
    fn population(&self, name: &str) -> (n: i64)
        ensures
            n == self@.population(name@),
    {
        match self.span_counter_values.get(name) {
            Some(v) => *v,
            None => 0,
        }
    }

    /// Whether the end of the slice, if the event has one, is a point in time.
    fn end_fits(&self, event: &BuckEvent, end: &SpanEnd) -> (b: bool)
        ensures
            b == self@.end_fits(*event, *end),
    {
        if let Some(id) = event.span_id {
            if let Some(Ok(d)) = &end.duration {
                if let Some(open) = self.open_spans.get(&id) {
                    let replaced: bool = match &open.role {
                        SpanRole::Action { saw_stage } => *saw_stage,
                        _ => false,
                    };
                    assert(replaced == open@.is_replaced());
                    if !replaced && !d.is_shorter_than(&self.min_duration) {
                        return open.start.checked_add(*d).is_some();
                    }
                }
            }
        }
        true
    }

    /// Whether the durations and the times of the critical path, up to the first
    /// entry that has no name, are durations and points in time.
    fn path_fits(&self, entries: &Vec<PathEntry>) -> (b: bool)
        ensures
            b == self@.path_fits(entries@),
    {
        let command_start: SystemTime = match self.command_start {
            Some(t) => t,
            None => return true,
        };
        let mut i: usize = 0;
        while i < entries.len()
            invariant
                i <= entries.len(),
                self@.command_start == Some(command_start),
                forall|k: int|
                    0 <= k < i ==> !writer_model::path_fails(#[trigger] entries@[k]),
                forall|k: int|
                    0 <= k < i ==> writer_model::path_entry_fits(
                        command_start@,
                        #[trigger] entries@[k],
                    ),
            decreases entries.len() - i,
        {
            let entry = &entries[i];
            let critical: Duration = match entry.total_duration {
                Some(d) => d,
                None => Duration::zero(),
            };
            let non_critical: Duration = match entry.non_critical_path_duration {
                Some(d) => d,
                None => Duration::zero(),
            };
            let total: Duration = match critical.checked_add(non_critical) {
                Some(d) => d,
                None => {
                    assert(!writer_model::path_entry_fits(
                        command_start@,
                        entries@[i as int],
                    ));
                    return false;
                },
            };
            if !total.is_shorter_than(&Duration::from_millis(1)) {
                match &entry.display {
                    Err(_) => {
                        assert(writer_model::path_fails(entries@[i as int]));
                        return true;
                    },
                    Ok(None) => {},
                    Ok(Some(_)) => {
                        let offset: Duration = Duration::from_nanos(
                            match entry.start_offset_ns {
                                Some(ns) => ns,
                                None => 0,
                            },
                        );
                        let fits: bool = match command_start.checked_add(offset) {
                            Some(start) => start.checked_add(total).is_some(),
                            None => false,
                        };
                        if !fits {
                            assert(!writer_model::path_entry_fits(
                                command_start@,
                                entries@[i as int],
                            ));
                            return false;
                        }
                    },
                }
            }
            i = i + 1;
        }
        true
    }

    /// Whether the writer has room for the event: the counts can grow by as much as
    /// the event can add, and the times that it adds up are points in time.
    pub fn has_room(&self, event: &BuckEvent) -> (b: bool)
        requires
            self.well_formed(),
        ensures
            b == writer_room::has_room(self@, *event),
            b ==> forall|now: int| #[trigger] self@.can_handle(*event, now),
    {
        let need: u128 = match &event.data {
            EventData::SpanStart(_) => 7,
            EventData::SpanEnd(_) => 18,
            EventData::Instant(Some(Instant::Snapshot(snapshot))) => 40 + 8
                * snapshot.network_interface_stats.len() as u128,
            EventData::Instant(Some(Instant::CommandPreempted)) => 4,
            EventData::Instant(Some(Instant::BuildGraphInfo(entries))) => 2 + 4
                * entries.len() as u128,
            _ => 0,
        };
        let counts: bool = self.counts_have(need);
        let rest: bool = match &event.data {
            EventData::SpanStart(Some(start)) => {
                if event.span_id.is_some() {
                    match span_population_counter_name(start) {
                        Some(name) => self.population(name) < i64::MAX,
                        None => true,
                    }
                } else {
                    true
                }
            },
            EventData::SpanEnd(end) => {
                let counter: bool = match event.span_id {
                    Some(id) => match self.span_counter_open.get(&id) {
                        Some(name) => self.population(name.as_str()) > i64::MIN,
                        None => true,
                    },
                    None => true,
                };
                counter && self.end_fits(event, end)
            },
            EventData::Instant(Some(Instant::BuildGraphInfo(entries))) => self.path_fits(entries),
            _ => true,
        };
        let b: bool = counts && rest;
        assert(b == writer_room::has_room(self@, *event));
        proof {
            if b {
                assert forall|now: int| #[trigger] self@.can_handle(*event, now) by {
                    writer_room::law_room_suffices(self@, *event, now);
                }
            }
        }
        b
    }

    /// Takes the bytes written since they were last taken.
    pub fn take_output(&mut self) -> (bytes: Vec<u8>)
        requires
            old(self).well_formed(),
        ensures
            final(self).well_formed(),
            final(self)@ == old(self)@,
            final(self).taken_bytes() == old(self).taken_bytes() + bytes@,
            final(self).taken_bytes() == perfetto_proto::trace_bytes(old(self)@.packets),
    {
        let mut bytes: Vec<u8> = Vec::new();
        std::mem::swap(&mut self.out, &mut bytes);
        self.taken = Ghost(self.taken@ + bytes@);
        assert(self.taken@ + self.out@ =~= self.taken@);
        bytes
    }

    /// How much was written.
    pub fn stats(&self) -> (stats: Stats)
        requires
            self.well_formed(),
        ensures
            stats.counts(self@),
    {
        self.stats
    }

    /// Ends the trace: the bytes that were not taken, and how much was written.
    pub fn finish(self) -> (r: (Vec<u8>, Stats))
        requires
            self.well_formed(),
        ensures
            self.taken_bytes() + r.0@ == perfetto_proto::trace_bytes(self@.packets),
            r.1.counts(self@),
    {
        (self.out, self.stats)
    }

    /// An action remembers that one of its stages was seen.
    fn mark_stage_seen(&mut self, action_span_id: u64)
        requires
            old(self).well_formed(),
            old(self)@.open_spans.contains_key(action_span_id),
        ensures
            final(self).moved_to(
                *old(self),
                writer_model::WriterState {
                    open_spans: old(self)@.open_spans.insert(
                        action_span_id,
                        writer_model::OpenSpanModel {
                            role: writer_model::RoleModel::Action { saw_stage: true },
                            ..old(self)@.open_spans[action_span_id]
                        },
                    ),
                    ..old(self)@
                },
            ),
    {
        if let Some(mut action) = self.open_spans.remove(&action_span_id) {
            action.role = SpanRole::Action { saw_stage: true };
            let ghost view = action@;
            self.open_spans.insert(action_span_id, action);
            assert(self@.open_spans =~= old(self)@.open_spans.insert(action_span_id, view));
            assert(self@ =~= (writer_model::WriterState {
                open_spans: old(self)@.open_spans.insert(action_span_id, view),
                ..old(self)@
            }));
        }
    }
}

/// Why an event could not be written, if it could not.
pub open spec fn error_of(r: Result<(), WriterError>) -> Option<spans::WriterErrorModel> {
    match r {
        Ok(()) => None,
        Err(e) => Some(e@),
    }
}

/// A number of 64 bits, read as a signed one.
fn signed(v: u64) -> (n: i64)
    ensures
        n == writer_model::as_signed(v),
{
    if v <= 0x7FFF_FFFF_FFFF_FFFF {
        v as i64
    } else {
        (v as i128 - 0x1_0000_0000_0000_0000) as i64
    }
}

} // verus!
