//! What the trace writer holds, and how each event changes it.

use vstd::prelude::*;

use crate::binary64;
use crate::events::BuckEvent;
use crate::events::EventData;
use crate::events::Instant;
use crate::events::Materialization;
use crate::events::NetworkInterfaceStats;
use crate::events::PathEntry;
use crate::events::Snapshot;
use crate::events::SpanEnd;
use crate::events::SpanStart;
use crate::perfetto_proto;
use crate::perfetto_proto::Clock;
use crate::perfetto_proto::BUILTIN_CLOCK_BOOTTIME;
use crate::perfetto_proto::BUILTIN_CLOCK_REALTIME;
use crate::perfetto_proto::SEQ_INCREMENTAL_STATE_CLEARED;
use crate::perfetto_proto::SIBLING_MERGE_BEHAVIOR_BY_SIBLING_MERGE_KEY;
use crate::perfetto_proto::TYPE_COUNTER;
use crate::perfetto_proto::TYPE_INSTANT;
use crate::perfetto_proto::TYPE_SLICE_BEGIN;
use crate::perfetto_proto::TYPE_SLICE_END;
use crate::perfetto_proto::UNIT_COUNT;
use crate::perfetto_proto::UNIT_SIZE_BYTES;
use crate::spans;
use crate::spans::Category;
use crate::spans::COUNTER_TRACK_BASE;
use crate::spans::QUEUED_TRACK_SALT;
use crate::spans::TRACK_CRITICAL_PATH;
use crate::spans::TRACK_MISC;
use crate::spans::TRACK_QUEUED;
use crate::spans::TRACK_SPAN_COUNTERS;
use crate::time::SystemTime;
use crate::time::MAX_DURATION_NANOS;
use crate::time::MAX_TIME_NANOS;

verus! {

/// The sequence that every packet belongs to.
pub const SEQUENCE_ID: u32 = 1;

/// What a span does in its action.
pub enum RoleModel {
    /// A span that is neither an action nor a stage of one.
    Plain,
    /// An action. Its own slice is left out once one of its stages was seen.
    Action { saw_stage: bool },
    /// A stage of an action, shown on a track of the action's.
    Stage {
        action_span_id: u64,
        action_identity: Seq<char>,
        is_execution: bool,
        is_waiting: bool,
    },
}

/// A span that has started and not ended.
#[verifier::ext_equal]
pub struct OpenSpanModel {
    pub start: SystemTime,
    pub track_uuid: u64,
    pub category: Category,
    pub is_root: bool,
    pub name: Seq<char>,
    pub annotations: Seq<perfetto_proto::DebugAnnotationModel>,
    pub role: RoleModel,
}

/// What the writer holds.
#[verifier::ext_equal]
pub struct WriterState {
    /// The shortest span that gets a slice, in nanoseconds.
    pub min_duration: nat,
    /// The packets written so far.
    pub packets: Seq<perfetto_proto::TracePacketModel>,
    pub open_spans: Map<u64, OpenSpanModel>,
    /// The tracks, other than counter tracks, that have been declared.
    pub emitted_tracks: Set<u64>,
    /// The counter tracks that have been declared, by name.
    pub counter_tracks: Map<Seq<char>, u64>,
    pub next_counter_uuid: nat,
    /// How many spans of each kind are open.
    pub span_counter_values: Map<Seq<char>, int>,
    /// The counter that each open span has added to.
    pub span_counter_open: Map<u64, Seq<char>>,
    /// The last reading of each amount whose rate is reported.
    pub prev_rate: Map<Seq<char>, (SystemTime, u64)>,
    pub command_start: Option<SystemTime>,
    pub spans_seen: nat,
    pub spans_emitted: nat,
    pub spans_dropped: nat,
    pub counters_emitted: nat,
    pub instants_emitted: nat,
    pub critical_path_slices: nat,
    pub tracks: nat,
}

/// A point in time as nanoseconds since the Unix epoch, in 64 bits: zero before the
/// epoch, and without the bits that do not fit.
pub open spec fn unix_nanos(t: int) -> u64 {
    if t < 0 {
        0
    } else {
        (t % 0x1_0000_0000_0000_0000) as u64
    }
}

/// The packet in front of all others. It equates the wall clock with the clock of
/// the trace.
pub open spec fn clock_packet(now: int) -> perfetto_proto::TracePacketModel {
    perfetto_proto::TracePacketModel {
        trusted_packet_sequence_id: Some(SEQUENCE_ID),
        sequence_flags: Some(SEQ_INCREMENTAL_STATE_CLEARED),
        clock_snapshot: Some(
            perfetto_proto::ClockSnapshotModel {
                clocks: seq![
                    Clock {
                        clock_id: Some(BUILTIN_CLOCK_BOOTTIME),
                        timestamp: Some(unix_nanos(now)),
                    },
                    Clock {
                        clock_id: Some(BUILTIN_CLOCK_REALTIME),
                        timestamp: Some(unix_nanos(now)),
                    },
                ],
            },
        ),
        ..perfetto_proto::TracePacketModel::empty()
    }
}

/// The packet of an event at time `t`.
pub open spec fn timed(t: int, event: perfetto_proto::TrackEventModel) -> perfetto_proto::TracePacketModel {
    perfetto_proto::TracePacketModel {
        timestamp: Some(unix_nanos(t)),
        timestamp_clock_id: Some(BUILTIN_CLOCK_REALTIME),
        track_event: Some(event),
        ..perfetto_proto::TracePacketModel::empty()
    }
}

/// The packet that declares a track.
pub open spec fn declaration(
    track: perfetto_proto::TrackDescriptorModel,
) -> perfetto_proto::TracePacketModel {
    perfetto_proto::TracePacketModel {
        track_descriptor: Some(track),
        ..perfetto_proto::TracePacketModel::empty()
    }
}

/// A track at the top level.
pub open spec fn top_track(uuid: u64, name: Seq<char>) -> perfetto_proto::TrackDescriptorModel {
    perfetto_proto::TrackDescriptorModel {
        uuid: Some(uuid),
        name: Some(name),
        ..perfetto_proto::TrackDescriptorModel::empty()
    }
}

/// A track in a group. The tracks of one group are packed into shared lanes.
pub open spec fn member_track(
    uuid: u64,
    group: u64,
    group_name: Seq<char>,
    name: Seq<char>,
) -> perfetto_proto::TrackDescriptorModel {
    perfetto_proto::TrackDescriptorModel {
        uuid: Some(uuid),
        parent_uuid: Some(group),
        name: Some(name),
        sibling_merge_behavior: Some(SIBLING_MERGE_BEHAVIOR_BY_SIBLING_MERGE_KEY),
        sibling_merge_key: Some(group_name),
        ..perfetto_proto::TrackDescriptorModel::empty()
    }
}

/// A track that shows a counter.
pub open spec fn counter_track(
    uuid: u64,
    name: Seq<char>,
    unit: i32,
    parent: Option<u64>,
) -> perfetto_proto::TrackDescriptorModel {
    perfetto_proto::TrackDescriptorModel {
        uuid: Some(uuid),
        parent_uuid: parent,
        name: Some(name),
        counter: Some(
            perfetto_proto::CounterDescriptorModel {
                unit: Some(unit),
                ..perfetto_proto::CounterDescriptorModel::empty()
            },
        ),
        ..perfetto_proto::TrackDescriptorModel::empty()
    }
}

/// The value of a counter.
#[derive(Copy, Clone, Debug, PartialEq, Eq)]
pub enum CounterValue {
    Int(i64),
    /// The bit pattern of a `double`.
    Double(u64),
}

/// A counter takes a value.
pub open spec fn counter_event(uuid: u64, value: CounterValue) -> perfetto_proto::TrackEventModel {
    perfetto_proto::TrackEventModel {
        event_type: Some(TYPE_COUNTER),
        track_uuid: Some(uuid),
        counter_value: match value {
            CounterValue::Int(v) => Some(v),
            CounterValue::Double(_) => None,
        },
        double_counter_value: match value {
            CounterValue::Int(_) => None,
            CounterValue::Double(bits) => Some(bits),
        },
        ..perfetto_proto::TrackEventModel::empty()
    }
}

/// Something happens at one moment, on the track of the group for the rest.
pub open spec fn instant_event(
    name: Seq<char>,
    annotations: Seq<perfetto_proto::DebugAnnotationModel>,
) -> perfetto_proto::TrackEventModel {
    perfetto_proto::TrackEventModel {
        event_type: Some(TYPE_INSTANT),
        track_uuid: Some(TRACK_MISC),
        name: Some(name),
        debug_annotations: annotations,
        ..perfetto_proto::TrackEventModel::empty()
    }
}

/// A slice begins.
pub open spec fn begin_event(
    uuid: u64,
    name: Seq<char>,
    correlation_id: Option<u64>,
    annotations: Seq<perfetto_proto::DebugAnnotationModel>,
) -> perfetto_proto::TrackEventModel {
    perfetto_proto::TrackEventModel {
        event_type: Some(TYPE_SLICE_BEGIN),
        track_uuid: Some(uuid),
        name: Some(name),
        correlation_id,
        debug_annotations: annotations,
        ..perfetto_proto::TrackEventModel::empty()
    }
}

/// A slice ends.
pub open spec fn end_event(uuid: u64, correlation_id: Option<u64>) -> perfetto_proto::TrackEventModel {
    perfetto_proto::TrackEventModel {
        event_type: Some(TYPE_SLICE_END),
        track_uuid: Some(uuid),
        correlation_id,
        ..perfetto_proto::TrackEventModel::empty()
    }
}

/// What is said of a failed materialization.
pub open spec fn failure_annotations(m: Materialization) -> Seq<
    perfetto_proto::DebugAnnotationModel,
> {
    let error = match m.error {
        Some(e) => e@,
        None => seq![],
    };
    seq![
        perfetto_proto::DebugAnnotationModel::string("path"@, m.path@),
        perfetto_proto::DebugAnnotationModel::uint("file_count"@, m.file_count),
        perfetto_proto::DebugAnnotationModel::uint("total_bytes"@, m.total_bytes),
        perfetto_proto::DebugAnnotationModel::string("error"@, error),
    ]
}

/// A number of 64 bits, read as a signed one.
pub open spec fn as_signed(v: u64) -> i64 {
    if v <= 0x7FFF_FFFF_FFFF_FFFF {
        v as i64
    } else {
        (v - 0x1_0000_0000_0000_0000) as i64
    }
}

/// A number of bytes in gigabytes, as the bit pattern of a `double`.
pub open spec fn gigabytes(bytes: u64) -> u64 {
    binary64::bits_of(binary64::int_quotient(bytes as nat, 1_000_000_000))
}

impl WriterState {
    /// A writer that has seen nothing.
    pub open spec fn initial(min_duration: nat) -> WriterState {
        WriterState {
            min_duration,
            packets: seq![],
            open_spans: Map::empty(),
            emitted_tracks: Set::empty(),
            counter_tracks: Map::empty(),
            next_counter_uuid: COUNTER_TRACK_BASE as nat,
            span_counter_values: Map::empty(),
            span_counter_open: Map::empty(),
            prev_rate: Map::empty(),
            command_start: None,
            spans_seen: 0,
            spans_emitted: 0,
            spans_dropped: 0,
            counters_emitted: 0,
            instants_emitted: 0,
            critical_path_slices: 0,
            tracks: 0,
        }
    }

    /// Whether every count and every counter uuid fits 64 bits.
    pub open spec fn counts_fit(self) -> bool {
        &&& self.packets.len() <= u64::MAX
        &&& self.next_counter_uuid <= u64::MAX
        &&& self.spans_seen <= u64::MAX
        &&& self.spans_emitted <= u64::MAX
        &&& self.spans_dropped <= u64::MAX
        &&& self.counters_emitted <= u64::MAX
        &&& self.instants_emitted <= u64::MAX
        &&& self.critical_path_slices <= u64::MAX
        &&& self.tracks <= u64::MAX
    }

    /// Whether no count is less than in `earlier`.
    pub open spec fn counts_from(self, earlier: WriterState) -> bool {
        &&& earlier.packets.len() <= self.packets.len()
        &&& earlier.next_counter_uuid <= self.next_counter_uuid
        &&& earlier.spans_seen <= self.spans_seen
        &&& earlier.spans_emitted <= self.spans_emitted
        &&& earlier.spans_dropped <= self.spans_dropped
        &&& earlier.counters_emitted <= self.counters_emitted
        &&& earlier.instants_emitted <= self.instants_emitted
        &&& earlier.critical_path_slices <= self.critical_path_slices
        &&& earlier.tracks <= self.tracks
    }

    /// Whether the number of open spans of each kind fits its counter.
    pub open spec fn values_fit(self) -> bool {
        forall|name: Seq<char>| #[trigger]
            self.span_counter_values.contains_key(name) ==> i64::MIN
                <= self.span_counter_values[name] <= i64::MAX
    }

    /// One more packet, behind the clock packet where it is the first.
    pub open spec fn written(self, packet: perfetto_proto::TracePacketModel, now: int) -> WriterState {
        let front = if self.packets.len() == 0 {
            seq![clock_packet(now)]
        } else {
            self.packets
        };
        WriterState {
            packets: front.push(
                perfetto_proto::TracePacketModel {
                    trusted_packet_sequence_id: Some(SEQUENCE_ID),
                    ..packet
                },
            ),
            ..self
        }
    }

    /// The track is declared, if it was not before.
    pub open spec fn with_top_track(self, uuid: u64, name: Seq<char>, now: int) -> WriterState {
        if self.emitted_tracks.contains(uuid) {
            self
        } else {
            WriterState {
                emitted_tracks: self.emitted_tracks.insert(uuid),
                tracks: self.tracks + 1,
                ..self
            }.written(declaration(top_track(uuid, name)), now)
        }
    }

    /// The track is declared in a group, behind the group, if it was not before.
    pub open spec fn with_member_track(
        self,
        uuid: u64,
        group: u64,
        group_name: Seq<char>,
        name: Seq<char>,
        now: int,
    ) -> WriterState {
        if self.emitted_tracks.contains(uuid) {
            self
        } else {
            let s = self.with_top_track(group, group_name, now);
            WriterState {
                emitted_tracks: s.emitted_tracks.insert(uuid),
                tracks: s.tracks + 1,
                ..s
            }.written(declaration(member_track(uuid, group, group_name, name)), now)
        }
    }

    /// The counter's track is declared, if it was not before.
    pub open spec fn with_counter_track(
        self,
        name: Seq<char>,
        unit: i32,
        parent: Option<u64>,
        now: int,
    ) -> WriterState {
        if self.counter_tracks.contains_key(name) {
            self
        } else {
            let uuid = self.next_counter_uuid as u64;
            WriterState {
                next_counter_uuid: self.next_counter_uuid + 1,
                counter_tracks: self.counter_tracks.insert(name, uuid),
                tracks: self.tracks + 1,
                ..self
            }.written(declaration(counter_track(uuid, name, unit, parent)), now)
        }
    }

    /// A counter takes a value.
    #[verifier::opaque]
    pub open spec fn counted(
        self,
        t: int,
        name: Seq<char>,
        unit: i32,
        parent: Option<u64>,
        value: CounterValue,
        now: int,
    ) -> WriterState {
        let s = self.with_counter_track(name, unit, parent, now);
        WriterState {
            counters_emitted: s.counters_emitted + 1,
            ..s.written(timed(t, counter_event(s.counter_tracks[name], value)), now)
        }
    }

    /// How many spans are counted under the name.
    pub open spec fn population(self, name: Seq<char>) -> int {
        if self.span_counter_values.contains_key(name) {
            self.span_counter_values[name]
        } else {
            0
        }
    }

    /// The number of open spans counted under the name changes by `delta`.
    #[verifier::opaque]
    pub open spec fn bumped(self, t: int, name: Seq<char>, delta: int, now: int) -> WriterState {
        let value = self.population(name) + delta;
        let s = self.with_top_track(TRACK_SPAN_COUNTERS, "open spans"@, now).counted(
            t,
            "spans: "@ + name,
            UNIT_COUNT,
            Some(TRACK_SPAN_COUNTERS),
            CounterValue::Int(value as i64),
            now,
        );
        WriterState { span_counter_values: s.span_counter_values.insert(name, value), ..s }
    }

    /// The rate at which an amount grew since its last reading is reported, if it
    /// has one that is earlier.
    #[verifier::opaque]
    pub open spec fn rated(self, t: SystemTime, name: Seq<char>, amount: u64, now: int) -> WriterState {
        let s = if self.prev_rate.contains_key(name) && self.prev_rate[name].0@ < t@ {
            let (earlier, before) = self.prev_rate[name];
            let delta: nat = if amount < before {
                0
            } else {
                (amount - before) as nat
            };
            let bits = binary64::bits_of(binary64::per_second(delta, (t@ - earlier@) as nat));
            self.counted(t@, name, UNIT_COUNT, None, CounterValue::Double(bits), now)
        } else {
            self
        };
        WriterState { prev_rate: s.prev_rate.insert(name, (t, amount)), ..s }
    }

    /// Something happens at one moment.
    #[verifier::opaque]
    pub open spec fn marked(
        self,
        t: int,
        name: Seq<char>,
        annotations: Seq<perfetto_proto::DebugAnnotationModel>,
        now: int,
    ) -> WriterState {
        let s = self.with_top_track(TRACK_MISC, Category::Misc.name(), now);
        WriterState {
            instants_emitted: s.instants_emitted + 1,
            ..s.written(timed(t, instant_event(name, annotations)), now)
        }
    }

    /// A slice from `start` to `end`.
    pub open spec fn sliced(
        self,
        start: int,
        end: int,
        uuid: u64,
        name: Seq<char>,
        correlation_id: Option<u64>,
        annotations: Seq<perfetto_proto::DebugAnnotationModel>,
        now: int,
    ) -> WriterState {
        self.written(timed(start, begin_event(uuid, name, correlation_id, annotations)), now).written(
            timed(end, end_event(uuid, correlation_id)),
            now,
        )
    }

    /// The state after an event, and why it could not be written, if it could not.
    pub open spec fn handled(self, event: BuckEvent, now: int) -> (
        WriterState,
        Option<spans::WriterErrorModel>,
    ) {
        match event.data {
            EventData::SpanStart(Some(start)) => self.after_start(event, start, now),
            EventData::SpanStart(None) => (self, None),
            EventData::SpanEnd(end) => self.after_end(event, end, now),
            EventData::Instant(Some(instant)) => self.after_instant(event, instant, now),
            EventData::Instant(None) => (self, None),
            EventData::Record => (self, None),
        }
    }

    /// Whether the writer can take the event: the counts fit, and so do the times
    /// that it adds up.
    pub open spec fn can_handle(self, event: BuckEvent, now: int) -> bool {
        &&& self.handled(event, now).0.counts_fit()
        &&& self.handled(event, now).0.values_fit()
        &&& match event.data {
            EventData::SpanEnd(end) => self.end_fits(event, end),
            EventData::Instant(Some(Instant::BuildGraphInfo(entries))) => self.path_fits(entries@),
            _ => true,
        }
    }

    /// The open span around the event, if there is one.
    pub open spec fn parent_of(self, event: BuckEvent) -> Option<OpenSpanModel> {
        match event.parent_id {
            Some(id) => if self.open_spans.contains_key(id) {
                Some(self.open_spans[id])
            } else {
                None
            },
            None => None,
        }
    }

    /// What a span that starts does in its action.
    pub open spec fn role_of(self, event: BuckEvent, start: SpanStart) -> RoleModel {
        match start {
            SpanStart::ActionExecution { .. } => RoleModel::Action { saw_stage: false },
            SpanStart::ExecutorStage { stage } => match self.parent_of(event) {
                Some(parent) if parent.role is Action => RoleModel::Stage {
                    action_span_id: event.parent_id->0,
                    action_identity: parent.name,
                    is_execution: stage is Some && spans::is_execution(stage->0.stage),
                    is_waiting: stage is Some && spans::is_waiting(stage->0.stage),
                },
                _ => RoleModel::Plain,
            },
            _ => RoleModel::Plain,
        }
    }

    /// The track of a span that starts, and whether the span owns it.
    pub open spec fn track_of(self, event: BuckEvent, start: SpanStart, id: u64) -> (u64, bool) {
        match self.role_of(event, start) {
            RoleModel::Stage { action_span_id, is_waiting, .. } => if is_waiting {
                (action_span_id ^ QUEUED_TRACK_SALT, false)
            } else {
                (action_span_id, false)
            },
            _ => match self.parent_of(event) {
                Some(parent) => (parent.track_uuid, false),
                None => (id, true),
            },
        }
    }

    /// The span is counted among the open spans of its kind, if its kind is counted.
    pub open spec fn with_counted_span(
        self,
        id: u64,
        t: int,
        start: SpanStart,
        now: int,
    ) -> WriterState {
        match spans::population_counter(start) {
            Some(name) => {
                let s = self.bumped(t, name, 1, now);
                WriterState { span_counter_open: s.span_counter_open.insert(id, name), ..s }
            },
            None => self,
        }
    }

    /// The action around the span remembers that it has a stage, if the span is one.
    pub open spec fn with_stage_seen(self, event: BuckEvent, start: SpanStart) -> WriterState {
        match self.role_of(event, start) {
            RoleModel::Stage { action_span_id, .. } => WriterState {
                open_spans: self.open_spans.insert(
                    action_span_id,
                    OpenSpanModel {
                        role: RoleModel::Action { saw_stage: true },
                        ..self.open_spans[action_span_id]
                    },
                ),
                ..self
            },
            _ => self,
        }
    }

    /// After the start of a span.
    pub open spec fn after_start(self, event: BuckEvent, start: SpanStart, now: int) -> (
        WriterState,
        Option<spans::WriterErrorModel>,
    ) {
        match event.span_id {
            None => (self, None),
            Some(id) => {
                let seen = WriterState { spans_seen: self.spans_seen + 1, ..self };
                match spans::name_and_category(start) {
                    Err(e) => (seen, Some(e)),
                    Ok((name, category)) => {
                        let begun = if start is Command {
                            WriterState { command_start: Some(event.timestamp), ..seen }
                        } else {
                            seen
                        };
                        let s = begun.with_counted_span(id, event.timestamp@, start, now);
                        let (track_uuid, is_root) = s.track_of(event, start, id);
                        let span = OpenSpanModel {
                            start: event.timestamp,
                            track_uuid,
                            category,
                            is_root,
                            name,
                            annotations: seq![
                                perfetto_proto::DebugAnnotationModel::uint("span_id"@, id),
                            ],
                            role: s.role_of(event, start),
                        };
                        let marked = s.with_stage_seen(event, start);
                        (
                            WriterState { open_spans: marked.open_spans.insert(id, span), ..marked },
                            None,
                        )
                    },
                }
            },
        }
    }

    /// A failed materialization is marked.
    #[verifier::opaque]
    pub open spec fn with_failure(
        self,
        t: int,
        materialization: Option<Materialization>,
        now: int,
    ) -> WriterState {
        match materialization {
            Some(m) if !m.success => self.marked(
                t,
                "materialization_failure"@,
                failure_annotations(m),
                now,
            ),
            _ => self,
        }
    }

    /// The span is no longer counted among the open spans of its kind.
    pub open spec fn without_counted_span(self, id: u64, t: int, now: int) -> WriterState {
        if self.span_counter_open.contains_key(id) {
            WriterState { span_counter_open: self.span_counter_open.remove(id), ..self }.bumped(
                t,
                self.span_counter_open[id],
                -1,
                now,
            )
        } else {
            self
        }
    }

    /// After the end of a span.
    pub open spec fn after_end(self, event: BuckEvent, end: SpanEnd, now: int) -> (
        WriterState,
        Option<spans::WriterErrorModel>,
    ) {
        match event.span_id {
            None => (self, None),
            Some(id) => {
                let s = self.with_failure(event.timestamp@, end.materialization, now).without_counted_span(
                    id,
                    event.timestamp@,
                    now,
                );
                if !s.open_spans.contains_key(id) {
                    (s, None)
                } else {
                    let closed = WriterState { open_spans: s.open_spans.remove(id), ..s };
                    match end.duration {
                        None => (closed, Some(spans::WriterErrorModel::MissingDuration)),
                        Some(Err(e)) => (
                            closed,
                            Some(spans::WriterErrorModel::InvalidDuration(e@)),
                        ),
                        Some(Ok(d)) => (closed.with_slice(s.open_spans[id], d@, now), None),
                    }
                }
            },
        }
    }

    /// The slice of a span that lasted `d`, unless it is too short or its stages
    /// stand in for it.
    #[verifier::opaque]
    pub open spec fn with_slice(self, span: OpenSpanModel, d: nat, now: int) -> WriterState {
        if span.is_replaced() {
            self
        } else if d < self.min_duration {
            WriterState { spans_dropped: self.spans_dropped + 1, ..self }
        } else {
            WriterState { spans_emitted: self.spans_emitted + 1, ..self }.with_span_track(
                span,
                now,
            ).sliced(
                span.start@,
                span.start@ + d,
                span.track_uuid,
                span.slice_name(),
                span.correlation_id(),
                span.slice_annotations(),
                now,
            )
        }
    }

    /// The track of a root span or of a stage is declared, if it was not before.
    pub open spec fn with_span_track(self, span: OpenSpanModel, now: int) -> WriterState {
        match span.role {
            RoleModel::Stage { action_identity, is_waiting, .. } => if is_waiting {
                self.with_member_track(
                    span.track_uuid,
                    TRACK_QUEUED,
                    "queued"@,
                    action_identity,
                    now,
                )
            } else {
                self.with_member_track(
                    span.track_uuid,
                    Category::Actions.group_uuid(),
                    Category::Actions.name(),
                    action_identity,
                    now,
                )
            },
            _ => if span.is_root {
                self.with_member_track(
                    span.track_uuid,
                    span.category.group_uuid(),
                    span.category.name(),
                    span.name,
                    now,
                )
            } else {
                self
            },
        }
    }

    /// Whether the end of the slice, if the event has one, is a point in time.
    pub open spec fn end_fits(self, event: BuckEvent, end: SpanEnd) -> bool {
        match (event.span_id, end.duration) {
            (Some(id), Some(Ok(d))) => {
                self.open_spans.contains_key(id) && !self.open_spans[id].is_replaced() && d@
                    >= self.min_duration ==> self.open_spans[id].start@ + d@ <= MAX_TIME_NANOS
            },
            _ => true,
        }
    }

    /// After something that happens at one moment.
    pub open spec fn after_instant(self, event: BuckEvent, instant: Instant, now: int) -> (
        WriterState,
        Option<spans::WriterErrorModel>,
    ) {
        match instant {
            Instant::Snapshot(snapshot) => (self.sampled(event.timestamp, snapshot, now), None),
            Instant::CommandPreempted => (
                self.marked(event.timestamp@, "command_preempted"@, seq![], now),
                None,
            ),
            Instant::BuildGraphInfo(entries) => self.after_path(entries@, now),
            Instant::Other => (self, None),
        }
    }

    /// The counters of a snapshot.
    pub open spec fn sampled(self, t: SystemTime, snapshot: Snapshot, now: int) -> WriterState {
        self.sampled_sizes(t@, snapshot, now).sampled_rates(t, snapshot, now).sampled_nics(
            t,
            snapshot.network_interface_stats@,
            now,
        )
    }

    /// The sizes and queue lengths of a snapshot.
    pub open spec fn sampled_sizes(self, t: int, snapshot: Snapshot, now: int) -> WriterState {
        let s = self.counted(
            t,
            "max_rss_gigabyte"@,
            UNIT_SIZE_BYTES,
            None,
            CounterValue::Double(gigabytes(snapshot.buck2_max_rss)),
            now,
        );
        let s = match snapshot.malloc_bytes_active {
            Some(bytes) => s.counted(
                t,
                "malloc_active_gigabyte"@,
                UNIT_SIZE_BYTES,
                None,
                CounterValue::Double(gigabytes(bytes)),
                now,
            ),
            None => s,
        };
        s.counted(
            t,
            "deferred_materializer_queue_size"@,
            UNIT_COUNT,
            None,
            CounterValue::Int(as_signed(snapshot.deferred_materializer_queue_size)),
            now,
        ).counted(
            t,
            "blocking_executor_io_queue_size"@,
            UNIT_COUNT,
            None,
            CounterValue::Int(as_signed(snapshot.blocking_executor_io_queue_size)),
            now,
        ).counted(
            t,
            "tokio_blocking_queue_depth"@,
            UNIT_COUNT,
            None,
            CounterValue::Int(as_signed(snapshot.tokio_blocking_queue_depth)),
            now,
        )
    }

    /// The rates of a snapshot.
    pub open spec fn sampled_rates(self, t: SystemTime, snapshot: Snapshot, now: int) -> WriterState {
        self.rated(t, "user_cpu_us_per_s"@, snapshot.buck2_user_cpu_us, now).rated(
            t,
            "system_cpu_us_per_s"@,
            snapshot.buck2_system_cpu_us,
            now,
        ).rated(t, "re_upload_bytes_per_s"@, snapshot.re_upload_bytes, now).rated(
            t,
            "re_download_bytes_per_s"@,
            snapshot.re_download_bytes,
            now,
        ).rated(t, "http_download_bytes_per_s"@, snapshot.http_download_bytes, now)
    }

    /// The traffic of the network interfaces, in order.
    pub open spec fn sampled_nics(
        self,
        t: SystemTime,
        nics: Seq<NetworkInterfaceStats>,
        now: int,
    ) -> WriterState
        decreases nics.len(),
    {
        if nics.len() == 0 {
            self
        } else {
            let nic = nics.last();
            self.sampled_nics(t, nics.drop_last(), now).rated(
                t,
                nic.nic@ + "_send_bytes_per_s"@,
                nic.tx_bytes,
                now,
            ).rated(t, nic.nic@ + "_receive_bytes_per_s"@, nic.rx_bytes, now)
        }
    }

    /// The slices of the critical path, up to the first entry that has no name.
    pub open spec fn after_path(self, entries: Seq<PathEntry>, now: int) -> (
        WriterState,
        Option<spans::WriterErrorModel>,
    ) {
        match self.command_start {
            None => (self, None),
            Some(t) => self.with_top_track(
                TRACK_CRITICAL_PATH,
                "critical path"@,
                now,
            ).with_path_slices(t@, entries, now),
        }
    }

    /// The slices of the entries, up to the first one that has no name.
    pub open spec fn with_path_slices(self, t: int, entries: Seq<PathEntry>, now: int) -> (
        WriterState,
        Option<spans::WriterErrorModel>,
    )
        decreases entries.len(),
    {
        if entries.len() == 0 {
            (self, None)
        } else {
            let (s, error) = self.with_path_slices(t, entries.drop_last(), now);
            if error is Some {
                (s, error)
            } else {
                s.with_path_slice(t, entries.last(), now)
            }
        }
    }

    /// The slice of one entry, unless it is short or not shown.
    pub open spec fn with_path_slice(self, t: int, entry: PathEntry, now: int) -> (
        WriterState,
        Option<spans::WriterErrorModel>,
    ) {
        if path_nanos(entry) < 1_000_000 {
            (self, None)
        } else {
            match entry.display {
                Err(e) => (self, Some(spans::WriterErrorModel::Display(e@))),
                Ok(None) => (self, None),
                Ok(Some(name)) => {
                    let start = t + path_offset(entry);
                    let s = self.sliced(
                        start,
                        start + path_nanos(entry),
                        TRACK_CRITICAL_PATH,
                        name@,
                        None,
                        seq![],
                        now,
                    );
                    (
                        WriterState { critical_path_slices: s.critical_path_slices + 1, ..s },
                        None,
                    )
                },
            }
        }
    }

    /// Whether the durations and the times of the critical path, up to the first
    /// entry that has no name, are durations and points in time.
    pub open spec fn path_fits(self, entries: Seq<PathEntry>) -> bool {
        match self.command_start {
            None => true,
            Some(t) => forall|i: int|
                0 <= i < entries.len() && (forall|k: int|
                    0 <= k < i ==> !path_fails(#[trigger] entries[k])) ==> path_entry_fits(
                    t@,
                    #[trigger] entries[i],
                ),
        }
    }
}

impl WriterState {
    /// Whether only packets, tracks and counters differ from `earlier`.
    pub open spec fn same_spans(self, earlier: WriterState) -> bool {
        &&& self.min_duration == earlier.min_duration
        &&& self.open_spans == earlier.open_spans
        &&& self.span_counter_open == earlier.span_counter_open
        &&& self.command_start == earlier.command_start
        &&& self.spans_seen == earlier.spans_seen
        &&& self.spans_emitted == earlier.spans_emitted
        &&& self.spans_dropped == earlier.spans_dropped
        &&& self.critical_path_slices == earlier.critical_path_slices
    }
}

pub broadcast proof fn lemma_counted_frame(
    s: WriterState,
    t: int,
    name: Seq<char>,
    unit: i32,
    parent: Option<u64>,
    value: CounterValue,
    now: int,
)
    ensures
        #![trigger s.counted(t, name, unit, parent, value, now)]
        s.counted(t, name, unit, parent, value, now).same_spans(s),
        s.counted(t, name, unit, parent, value, now).span_counter_values
            == s.span_counter_values,
        s.counted(t, name, unit, parent, value, now).prev_rate == s.prev_rate,
        s.counted(t, name, unit, parent, value, now).emitted_tracks == s.emitted_tracks,
{
    reveal(WriterState::counted);
}

pub broadcast proof fn lemma_rated_frame(
    s: WriterState,
    t: SystemTime,
    name: Seq<char>,
    amount: u64,
    now: int,
)
    ensures
        #![trigger s.rated(t, name, amount, now)]
        s.rated(t, name, amount, now).same_spans(s),
        s.rated(t, name, amount, now).span_counter_values == s.span_counter_values,
        s.rated(t, name, amount, now).prev_rate == s.prev_rate.insert(name, (t, amount)),
        s.rated(t, name, amount, now).emitted_tracks == s.emitted_tracks,
{
    broadcast use lemma_counted_frame;

    reveal(WriterState::rated);
}

pub proof fn lemma_bumped_frame(
    s: WriterState,
    t: int,
    name: Seq<char>,
    delta: int,
    now: int,
)
    ensures
        s.bumped(t, name, delta, now).same_spans(s),
        s.bumped(t, name, delta, now).span_counter_values == s.span_counter_values.insert(
            name,
            s.population(name) + delta,
        ),
        s.bumped(t, name, delta, now).prev_rate == s.prev_rate,
        s.bumped(t, name, delta, now).instants_emitted == s.instants_emitted,
{
    reveal(WriterState::bumped);
    reveal(WriterState::counted);
}

pub proof fn lemma_marked_frame(
    s: WriterState,
    t: int,
    name: Seq<char>,
    annotations: Seq<perfetto_proto::DebugAnnotationModel>,
    now: int,
)
    ensures
        s.marked(t, name, annotations, now).same_spans(s),
        s.marked(t, name, annotations, now).span_counter_values == s.span_counter_values,
        s.marked(t, name, annotations, now).prev_rate == s.prev_rate,
        s.marked(t, name, annotations, now).counters_emitted == s.counters_emitted,
        s.marked(t, name, annotations, now).counter_tracks == s.counter_tracks,
        s.marked(t, name, annotations, now).next_counter_uuid == s.next_counter_uuid,
{
    reveal(WriterState::marked);
}

/// Marking a failure and counting a span out leaves the open spans as they are.
pub proof fn lemma_end_frame(
    s: WriterState,
    materialization: Option<Materialization>,
    id: u64,
    t: int,
    now: int,
)
    ensures
        ({
            let failed = s.with_failure(t, materialization, now);
            let counted = failed.without_counted_span(id, t, now);
            &&& failed.same_spans(s)
            &&& failed.counts_from(s)
            &&& counted.counts_from(failed)
            &&& counted.open_spans == s.open_spans
            &&& counted.min_duration == s.min_duration
        }),
{
    broadcast use lemma_bumped_grows;

    reveal(WriterState::with_failure);
    if let Some(m) = materialization {
        if !m.success {
            let annotations = failure_annotations(m);
            lemma_marked_frame(s, t, "materialization_failure"@, annotations, now);
            lemma_marked_grows(s, t, "materialization_failure"@, annotations, now);
        }
    }
    let failed = s.with_failure(t, materialization, now);
    if failed.span_counter_open.contains_key(id) {
        let without = WriterState {
            span_counter_open: failed.span_counter_open.remove(id),
            ..failed
        };
        lemma_bumped_frame(without, t, failed.span_counter_open[id], -1, now);
    }
}

/// Closing a span and writing its slice takes no count back, and leaves the numbers
/// of open spans as they are.
pub proof fn lemma_slice_frame(s: WriterState, span: OpenSpanModel, d: nat, now: int)
    ensures
        s.with_slice(span, d, now).counts_from(s),
        s.with_slice(span, d, now).span_counter_values == s.span_counter_values,
        s.with_slice(span, d, now).span_counter_open == s.span_counter_open,
        s.with_slice(span, d, now).open_spans == s.open_spans,
        s.with_slice(span, d, now).min_duration == s.min_duration,
        s.with_slice(span, d, now).spans_seen == s.spans_seen,
        s.with_slice(span, d, now).spans_emitted + s.with_slice(span, d, now).spans_dropped
            <= s.spans_emitted + s.spans_dropped + 1,
{
    reveal(WriterState::with_slice);
}

pub broadcast proof fn lemma_counted_grows(
    s: WriterState,
    t: int,
    name: Seq<char>,
    unit: i32,
    parent: Option<u64>,
    value: CounterValue,
    now: int,
)
    ensures
        (#[trigger] s.counted(t, name, unit, parent, value, now)).counts_from(s),
{
    reveal(WriterState::counted);
}

pub broadcast proof fn lemma_bumped_grows(
    s: WriterState,
    t: int,
    name: Seq<char>,
    delta: int,
    now: int,
)
    ensures
        (#[trigger] s.bumped(t, name, delta, now)).counts_from(s),
{
    broadcast use lemma_counted_grows;

    reveal(WriterState::bumped);
}

pub broadcast proof fn lemma_rated_grows(
    s: WriterState,
    t: SystemTime,
    name: Seq<char>,
    amount: u64,
    now: int,
)
    ensures
        (#[trigger] s.rated(t, name, amount, now)).counts_from(s),
{
    broadcast use lemma_counted_grows;

    reveal(WriterState::rated);
}

pub broadcast proof fn lemma_marked_grows(
    s: WriterState,
    t: int,
    name: Seq<char>,
    annotations: Seq<perfetto_proto::DebugAnnotationModel>,
    now: int,
)
    ensures
        (#[trigger] s.marked(t, name, annotations, now)).counts_from(s),
{
    reveal(WriterState::marked);
}

pub proof fn lemma_sampled_rates_grows(
    s: WriterState,
    t: SystemTime,
    snapshot: Snapshot,
    now: int,
)
    ensures
        s.sampled_rates(t, snapshot, now).counts_from(s),
{
    broadcast use lemma_rated_grows;

}

pub proof fn lemma_sampled_nics_grows(
    s: WriterState,
    t: SystemTime,
    nics: Seq<NetworkInterfaceStats>,
    k: int,
    now: int,
)
    requires
        0 <= k <= nics.len(),
    ensures
        s.sampled_nics(t, nics, now).counts_from(s.sampled_nics(t, nics.take(k), now)),
    decreases nics.len(),
{
    broadcast use lemma_rated_grows;

    if k < nics.len() {
        lemma_sampled_nics_grows(s, t, nics.drop_last(), k, now);
        assert(nics.drop_last().take(k) =~= nics.take(k));
    } else {
        assert(nics.take(k) =~= nics);
    }
}

pub proof fn lemma_path_slices_grow(
    s: WriterState,
    t: int,
    entries: Seq<PathEntry>,
    k: int,
    now: int,
)
    requires
        0 <= k <= entries.len(),
    ensures
        s.with_path_slices(t, entries, now).0.counts_from(
            s.with_path_slices(t, entries.take(k), now).0,
        ),
        s.with_path_slices(t, entries.take(k), now).1 is Some ==> s.with_path_slices(
            t,
            entries,
            now,
        ) == s.with_path_slices(t, entries.take(k), now),
    decreases entries.len(),
{
    if k < entries.len() {
        lemma_path_slices_grow(s, t, entries.drop_last(), k, now);
        assert(entries.drop_last().take(k) =~= entries.take(k));
    } else {
        assert(entries.take(k) =~= entries);
    }
}

/// The length of an entry of the critical path.
pub open spec fn path_nanos(entry: PathEntry) -> nat {
    let critical: nat = match entry.total_duration {
        Some(d) => d@,
        None => 0,
    };
    let other: nat = match entry.non_critical_path_duration {
        Some(d) => d@,
        None => 0,
    };
    critical + other
}

/// Where an entry starts, counted from the start of the command.
pub open spec fn path_offset(entry: PathEntry) -> nat {
    match entry.start_offset_ns {
        Some(ns) => ns as nat,
        None => 0,
    }
}

/// Whether the entry is long enough to be shown and has no name.
pub open spec fn path_fails(entry: PathEntry) -> bool {
    path_nanos(entry) >= 1_000_000 && entry.display is Err
}

/// Whether the entry's length is a duration and, if it is shown, its end is a point
/// in time.
pub open spec fn path_entry_fits(t: int, entry: PathEntry) -> bool {
    &&& path_nanos(entry) <= MAX_DURATION_NANOS
    &&& path_nanos(entry) >= 1_000_000 && (entry.display matches Ok(Some(_))) ==> t
        + path_offset(entry) + path_nanos(entry) <= MAX_TIME_NANOS
}

impl OpenSpanModel {
    /// Whether the span's stages stand in for its own slice.
    pub open spec fn is_replaced(self) -> bool {
        self.role == (RoleModel::Action { saw_stage: true })
    }

    /// The name of the span's slice. A stage in which the action executes bears the
    /// action's name; so does one in which it waits, with the kind of wait behind it
    /// unless it is the local queue.
    pub open spec fn slice_name(self) -> Seq<char> {
        match self.role {
            RoleModel::Stage { action_identity, is_execution, is_waiting, .. } => if is_waiting {
                if self.name == "local_queued"@ {
                    action_identity
                } else {
                    action_identity + " ("@ + self.name + ")"@
                }
            } else if is_execution {
                action_identity
            } else {
                self.name
            },
            _ => self.name,
        }
    }

    /// Links the slices of one action.
    pub open spec fn correlation_id(self) -> Option<u64> {
        match self.role {
            RoleModel::Stage { action_span_id, .. } => Some(action_span_id),
            _ => None,
        }
    }

    /// The annotations of the span's slice.
    pub open spec fn slice_annotations(self) -> Seq<perfetto_proto::DebugAnnotationModel> {
        match self.role {
            RoleModel::Stage { action_span_id, action_identity, .. } => self.annotations + seq![
                perfetto_proto::DebugAnnotationModel::string("action"@, action_identity),
                perfetto_proto::DebugAnnotationModel::uint("action_span_id"@, action_span_id),
            ],
            _ => self.annotations,
        }
    }
}

} // verus!
