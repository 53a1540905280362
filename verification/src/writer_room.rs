//! When the writer has room for an event.

use vstd::prelude::*;

use crate::events::BuckEvent;
use crate::events::EventData;
use crate::events::Instant;
use crate::events::NetworkInterfaceStats;
use crate::events::PathEntry;
use crate::events::Snapshot;
use crate::events::SpanEnd;
use crate::events::SpanStart;
use crate::perfetto_proto;
use crate::spans;
use crate::spans::TRACK_CRITICAL_PATH;
use crate::time::SystemTime;
use crate::time::MAX_DURATION_NANOS;
use crate::time::MAX_TIME_NANOS;
use crate::writer_model;
use crate::writer_model::CounterValue;

verus! {

/// The most that an event can add to any count.
pub open spec fn need(event: BuckEvent) -> nat {
    match event.data {
        EventData::SpanStart(_) => 7,
        EventData::SpanEnd(_) => 18,
        EventData::Instant(Some(Instant::Snapshot(snapshot))) => 40 + 8
            * snapshot.network_interface_stats@.len(),
        EventData::Instant(Some(Instant::CommandPreempted)) => 4,
        EventData::Instant(Some(Instant::BuildGraphInfo(entries))) => 2 + 4 * entries@.len(),
        _ => 0,
    }
}

/// Whether every count can grow by `k`.
pub open spec fn counts_have(s: writer_model::WriterState, k: nat) -> bool {
    &&& s.packets.len() + k <= u64::MAX
    &&& s.next_counter_uuid + k <= u64::MAX
    &&& s.spans_seen + k <= u64::MAX
    &&& s.spans_emitted + k <= u64::MAX
    &&& s.spans_dropped + k <= u64::MAX
    &&& s.counters_emitted + k <= u64::MAX
    &&& s.instants_emitted + k <= u64::MAX
    &&& s.critical_path_slices + k <= u64::MAX
    &&& s.tracks + k <= u64::MAX
}

/// Whether the number of open spans can change as the event says.
pub open spec fn population_has_room(s: writer_model::WriterState, event: BuckEvent) -> bool {
    match (event.data, event.span_id) {
        (EventData::SpanStart(Some(start)), Some(_)) => {
            match spans::population_counter(start) {
                Some(name) => s.population(name) < i64::MAX,
                None => true,
            }
        },
        (EventData::SpanEnd(_), Some(id)) => {
            s.span_counter_open.contains_key(id) ==> s.population(s.span_counter_open[id])
                > i64::MIN
        },
        _ => true,
    }
}

/// Whether the writer has room for the event.
pub open spec fn has_room(s: writer_model::WriterState, event: BuckEvent) -> bool {
    &&& counts_have(s, need(event))
    &&& population_has_room(s, event)
    &&& match event.data {
        EventData::SpanEnd(end) => s.end_fits(event, end),
        EventData::Instant(Some(Instant::BuildGraphInfo(entries))) => s.path_fits(entries@),
        _ => true,
    }
}

/// Whether no count is more than `k` above its value in `earlier`.
spec fn within(s: writer_model::WriterState, earlier: writer_model::WriterState, k: nat) -> bool {
    &&& s.packets.len() <= earlier.packets.len() + k
    &&& s.next_counter_uuid <= earlier.next_counter_uuid + k
    &&& s.spans_seen <= earlier.spans_seen + k
    &&& s.spans_emitted <= earlier.spans_emitted + k
    &&& s.spans_dropped <= earlier.spans_dropped + k
    &&& s.counters_emitted <= earlier.counters_emitted + k
    &&& s.instants_emitted <= earlier.instants_emitted + k
    &&& s.critical_path_slices <= earlier.critical_path_slices + k
    &&& s.tracks <= earlier.tracks + k
}

proof fn lemma_counted(
    s: writer_model::WriterState,
    t: int,
    name: Seq<char>,
    unit: i32,
    parent: Option<u64>,
    value: CounterValue,
    now: int,
)
    ensures
        within(s.counted(t, name, unit, parent, value, now), s, 4),
{
    reveal(writer_model::WriterState::counted);
}

proof fn lemma_bumped(
    s: writer_model::WriterState,
    t: int,
    name: Seq<char>,
    delta: int,
    now: int,
)
    ensures
        within(s.bumped(t, name, delta, now), s, 6),
{
    reveal(writer_model::WriterState::bumped);
    lemma_counted(
        s.with_top_track(spans::TRACK_SPAN_COUNTERS, "open spans"@, now),
        t,
        "spans: "@ + name,
        perfetto_proto::UNIT_COUNT,
        Some(spans::TRACK_SPAN_COUNTERS),
        CounterValue::Int((s.population(name) + delta) as i64),
        now,
    );
}

proof fn lemma_rated(
    s: writer_model::WriterState,
    t: SystemTime,
    name: Seq<char>,
    amount: u64,
    now: int,
)
    ensures
        within(s.rated(t, name, amount, now), s, 4),
{
    reveal(writer_model::WriterState::rated);
    if s.prev_rate.contains_key(name) && s.prev_rate[name].0@ < t@ {
        let (earlier, before) = s.prev_rate[name];
        let delta: nat = if amount < before {
            0
        } else {
            (amount - before) as nat
        };
        let bits = crate::binary64::bits_of(
            crate::binary64::per_second(delta, (t@ - earlier@) as nat),
        );
        lemma_counted(
            s,
            t@,
            name,
            perfetto_proto::UNIT_COUNT,
            None,
            CounterValue::Double(bits),
            now,
        );
    }
}

proof fn lemma_marked(
    s: writer_model::WriterState,
    t: int,
    name: Seq<char>,
    annotations: Seq<perfetto_proto::DebugAnnotationModel>,
    now: int,
)
    ensures
        within(s.marked(t, name, annotations, now), s, 4),
{
    reveal(writer_model::WriterState::marked);
}

proof fn lemma_sampled_sizes(s: writer_model::WriterState, t: int, snapshot: Snapshot, now: int)
    ensures
        within(s.sampled_sizes(t, snapshot, now), s, 20),
{
    assert forall|
        s: writer_model::WriterState,
        name: Seq<char>,
        unit: i32,
        value: CounterValue,
    | within(#[trigger] s.counted(t, name, unit, None, value, now), s, 4) by {
        lemma_counted(s, t, name, unit, None, value, now);
    }
}

proof fn lemma_sampled_rates(
    s: writer_model::WriterState,
    t: SystemTime,
    snapshot: Snapshot,
    now: int,
)
    ensures
        within(s.sampled_rates(t, snapshot, now), s, 20),
{
    assert forall|s: writer_model::WriterState, name: Seq<char>, amount: u64|
        within(#[trigger] s.rated(t, name, amount, now), s, 4) by {
        lemma_rated(s, t, name, amount, now);
    }
}

proof fn lemma_sampled_nics(
    s: writer_model::WriterState,
    t: SystemTime,
    nics: Seq<NetworkInterfaceStats>,
    now: int,
)
    ensures
        within(s.sampled_nics(t, nics, now), s, 8 * nics.len()),
    decreases nics.len(),
{
    assert forall|s: writer_model::WriterState, name: Seq<char>, amount: u64|
        within(#[trigger] s.rated(t, name, amount, now), s, 4) by {
        lemma_rated(s, t, name, amount, now);
    }
    if nics.len() > 0 {
        lemma_sampled_nics(s, t, nics.drop_last(), now);
    }
}

proof fn lemma_path_slices(
    s: writer_model::WriterState,
    t: int,
    entries: Seq<PathEntry>,
    now: int,
)
    ensures
        within(s.with_path_slices(t, entries, now).0, s, 4 * entries.len()),
    decreases entries.len(),
{
    if entries.len() > 0 {
        lemma_path_slices(s, t, entries.drop_last(), now);
    }
}

proof fn lemma_slice(
    s: writer_model::WriterState,
    span: writer_model::OpenSpanModel,
    d: nat,
    now: int,
)
    ensures
        within(s.with_slice(span, d, now), s, 8),
{
    reveal(writer_model::WriterState::with_slice);
}

proof fn lemma_start(
    s: writer_model::WriterState,
    event: BuckEvent,
    start: SpanStart,
    now: int,
)
    requires
        s.values_fit(),
        event.data == EventData::SpanStart(Some(start)),
        population_has_room(s, event),
    ensures
        within(s.after_start(event, start, now).0, s, 7),
        s.after_start(event, start, now).0.values_fit(),
{
    if let Some(id) = event.span_id {
        let seen = writer_model::WriterState { spans_seen: s.spans_seen + 1, ..s };
        let begun = if start is Command {
            writer_model::WriterState { command_start: Some(event.timestamp), ..seen }
        } else {
            seen
        };
        if let Some(name) = spans::population_counter(start) {
            lemma_bumped(begun, event.timestamp@, name, 1, now);
            writer_model::lemma_bumped_frame(begun, event.timestamp@, name, 1, now);
        }
    }
}

proof fn lemma_end(s: writer_model::WriterState, event: BuckEvent, end: SpanEnd, now: int)
    requires
        s.values_fit(),
        event.data == EventData::SpanEnd(end),
        population_has_room(s, event),
    ensures
        within(s.after_end(event, end, now).0, s, 18),
        s.after_end(event, end, now).0.values_fit(),
{
    if let Some(id) = event.span_id {
        let t = event.timestamp@;
        writer_model::lemma_end_frame(s, end.materialization, id, t, now);
        let failed = s.with_failure(t, end.materialization, now);
        assert(within(failed, s, 4) && failed.span_counter_values == s.span_counter_values) by {
            reveal(writer_model::WriterState::with_failure);
            if let Some(m) = end.materialization {
                if !m.success {
                    let annotations = writer_model::failure_annotations(m);
                    lemma_marked(s, t, "materialization_failure"@, annotations, now);
                    writer_model::lemma_marked_frame(
                        s,
                        t,
                        "materialization_failure"@,
                        annotations,
                        now,
                    );
                }
            }
        }
        let counted = failed.without_counted_span(id, t, now);
        if failed.span_counter_open.contains_key(id) {
            let without = writer_model::WriterState {
                span_counter_open: failed.span_counter_open.remove(id),
                ..failed
            };
            let name = failed.span_counter_open[id];
            lemma_bumped(without, t, name, -1, now);
            writer_model::lemma_bumped_frame(without, t, name, -1, now);
        }
        if counted.open_spans.contains_key(id) {
            let closed = writer_model::WriterState {
                open_spans: counted.open_spans.remove(id),
                ..counted
            };
            if let Some(Ok(d)) = end.duration {
                lemma_slice(closed, counted.open_spans[id], d@, now);
                writer_model::lemma_slice_frame(closed, counted.open_spans[id], d@, now);
            }
        }
    }
}

/// Where there is room for an event, the writer can take it, at whatever time it is
/// handed over.
pub proof fn law_room_suffices(s: writer_model::WriterState, event: BuckEvent, now: int)
    requires
        s.values_fit(),
        has_room(s, event),
    ensures
        s.can_handle(event, now),
{
    match event.data {
        EventData::SpanStart(Some(start)) => lemma_start(s, event, start, now),
        EventData::SpanEnd(end) => lemma_end(s, event, end, now),
        EventData::Instant(Some(instant)) => match instant {
            Instant::Snapshot(snapshot) => {
                let t = event.timestamp;
                let sizes = s.sampled_sizes(t@, snapshot, now);
                let rates = sizes.sampled_rates(t, snapshot, now);
                lemma_sampled_sizes(s, t@, snapshot, now);
                lemma_sampled_rates(sizes, t, snapshot, now);
                lemma_sampled_nics(rates, t, snapshot.network_interface_stats@, now);
                lemma_sampled_values(s, t, snapshot, now);
            },
            Instant::CommandPreempted => {
                let t = event.timestamp@;
                lemma_marked(s, t, "command_preempted"@, seq![], now);
                writer_model::lemma_marked_frame(s, t, "command_preempted"@, seq![], now);
            },
            Instant::BuildGraphInfo(entries) => {
                if let Some(t) = s.command_start {
                    let declared = s.with_top_track(TRACK_CRITICAL_PATH, "critical path"@, now);
                    lemma_path_slices(declared, t@, entries@, now);
                    lemma_path_values(declared, t@, entries@, now);
                }
            },
            Instant::Other => {},
        },
        _ => {},
    }
}

proof fn lemma_nic_values(
    s: writer_model::WriterState,
    t: SystemTime,
    nics: Seq<NetworkInterfaceStats>,
    now: int,
)
    ensures
        s.sampled_nics(t, nics, now).span_counter_values == s.span_counter_values,
    decreases nics.len(),
{
    broadcast use writer_model::lemma_rated_frame;

    if nics.len() > 0 {
        lemma_nic_values(s, t, nics.drop_last(), now);
    }
}

proof fn lemma_sampled_values(
    s: writer_model::WriterState,
    t: SystemTime,
    snapshot: Snapshot,
    now: int,
)
    ensures
        s.sampled(t, snapshot, now).span_counter_values == s.span_counter_values,
{
    broadcast use writer_model::lemma_counted_frame;
    broadcast use writer_model::lemma_rated_frame;

    lemma_nic_values(
        s.sampled_sizes(t@, snapshot, now).sampled_rates(t, snapshot, now),
        t,
        snapshot.network_interface_stats@,
        now,
    );
}

proof fn lemma_path_values(
    s: writer_model::WriterState,
    t: int,
    entries: Seq<PathEntry>,
    now: int,
)
    ensures
        s.with_path_slices(t, entries, now).0.span_counter_values == s.span_counter_values,
    decreases entries.len(),
{
    if entries.len() > 0 {
        lemma_path_values(s, t, entries.drop_last(), now);
    }
}

/// There is room for every event as long as the counts and the uuids of counters are far from
/// the end of their range, the numbers of open spans are not at the ends of theirs, the event
/// has fewer than a hundred million items, and the times that it adds up are points in time.
pub proof fn law_ordinary_events_have_room(s: writer_model::WriterState, event: BuckEvent)
    requires
        s.packets.len() < 0x8000_0000_0000_0000,
        s.next_counter_uuid < 0xFFFF_FFFF_8000_0000,
        s.spans_seen < 0x8000_0000_0000_0000,
        s.spans_emitted < 0x8000_0000_0000_0000,
        s.spans_dropped < 0x8000_0000_0000_0000,
        s.counters_emitted < 0x8000_0000_0000_0000,
        s.instants_emitted < 0x8000_0000_0000_0000,
        s.critical_path_slices < 0x8000_0000_0000_0000,
        s.tracks < 0x8000_0000_0000_0000,
        forall|name: Seq<char>|
            i64::MIN < #[trigger] s.population(name) < i64::MAX,
        event.data matches EventData::Instant(Some(Instant::Snapshot(snapshot)))
            ==> snapshot.network_interface_stats@.len() < 0x0800_0000,
        event.data matches EventData::Instant(Some(Instant::BuildGraphInfo(entries)))
            ==> entries@.len() < 0x1000_0000,
        match (event.data, event.span_id) {
            (EventData::SpanEnd(end), Some(id)) => s.open_spans.contains_key(id) ==> (
            end.duration matches Some(Ok(d)) ==> s.open_spans[id].start@ + d@ <= MAX_TIME_NANOS),
            _ => true,
        },
        match (event.data, s.command_start) {
            (EventData::Instant(Some(Instant::BuildGraphInfo(entries))), Some(t)) => forall|
                i: int,
            |
                0 <= i < entries@.len() ==> entry_ends_in_time(t@, #[trigger] entries@[i]),
            _ => true,
        },
    ensures
        has_room(s, event),
{
}

/// Whether the entry's length is a duration and its end a point in time.
pub open spec fn entry_ends_in_time(t: int, entry: PathEntry) -> bool {
    let on_path: nat = if entry.total_duration is Some {
        entry.total_duration->0@
    } else {
        0
    };
    let off_path: nat = if entry.non_critical_path_duration is Some {
        entry.non_critical_path_duration->0@
    } else {
        0
    };
    let offset: nat = if entry.start_offset_ns is Some {
        entry.start_offset_ns->0 as nat
    } else {
        0
    };
    &&& on_path + off_path <= MAX_DURATION_NANOS
    &&& t + offset + on_path + off_path <= MAX_TIME_NANOS
}

} // verus!
