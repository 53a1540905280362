//! That no track is declared twice.

use vstd::prelude::*;

use crate::events::BuckEvent;
use crate::events::EventData;
use crate::events::Instant;
use crate::events::NetworkInterfaceStats;
use crate::events::PathEntry;
use crate::events::Snapshot;
use crate::events::SpanEnd;
use crate::events::SpanStart;
use crate::perfetto_proto;
use crate::perfetto_proto::UNIT_COUNT;
use crate::span_laws;
use crate::spans;
use crate::spans::Category;
use crate::spans::COUNTER_TRACK_BASE;
use crate::spans::GROUP_TRACK_BASE;
use crate::spans::TRACK_CRITICAL_PATH;
use crate::spans::TRACK_MISC;
use crate::spans::TRACK_SPAN_COUNTERS;
use crate::time::SystemTime;
use crate::writer_laws;
use crate::writer_model;
use crate::writer_model::CounterValue;
use crate::writer_model::SEQUENCE_ID;

verus! {

/// The track that a packet declares.
pub open spec fn declared_track(p: perfetto_proto::TracePacketModel) -> Option<u64> {
    match p.track_descriptor {
        Some(d) => d.uuid,
        None => None,
    }
}

/// Whether a packet declares the track of a counter.
pub open spec fn is_counter_track(p: perfetto_proto::TracePacketModel) -> bool {
    p.track_descriptor matches Some(d) && d.counter is Some
}

/// No two packets declare the same track.
pub open spec fn declared_once(packets: Seq<perfetto_proto::TracePacketModel>) -> bool {
    forall|i: int, j: int|
        0 <= i < j < packets.len() && declared_track(packets[i]) is Some ==> declared_track(
            #[trigger] packets[i],
        ) != declared_track(#[trigger] packets[j])
}

/// Counters have tracks of their own, whose uuids start at the base of the counter
/// tracks.
pub open spec fn counters_distinct(s: writer_model::WriterState) -> bool {
    &&& forall|name: Seq<char>| #[trigger]
        s.counter_tracks.contains_key(name) ==> COUNTER_TRACK_BASE <= s.counter_tracks[name]
            < s.next_counter_uuid
    &&& forall|a: Seq<char>, b: Seq<char>|
        #![trigger s.counter_tracks.contains_key(a), s.counter_tracks.contains_key(b)]
        s.counter_tracks.contains_key(a) && s.counter_tracks.contains_key(b) && a != b
            ==> s.counter_tracks[a] != s.counter_tracks[b]
}

/// The tracks of groups, spans and counters stay apart, and none is declared twice.
pub open spec fn tracks_distinct(s: writer_model::WriterState) -> bool {
    &&& s.next_counter_uuid >= COUNTER_TRACK_BASE
    &&& declared_once(s.packets)
    &&& forall|i: int|
        0 <= i < s.packets.len() && declared_track(#[trigger] s.packets[i]) is Some ==> {
            let uuid = declared_track(s.packets[i])->0;
            if is_counter_track(s.packets[i]) {
                COUNTER_TRACK_BASE <= uuid < s.next_counter_uuid
            } else {
                s.emitted_tracks.contains(uuid)
            }
        }
    &&& forall|uuid: u64| #[trigger]
        s.emitted_tracks.contains(uuid) ==> uuid < COUNTER_TRACK_BASE
    &&& counters_distinct(s)
}

/// A span that declares a track declares one outside the uuids kept for groups and
/// counters.
pub open spec fn span_track_unreserved(span: writer_model::OpenSpanModel) -> bool {
    span.is_root || span.role is Stage ==> span.track_uuid < GROUP_TRACK_BASE
}

/// The same of every open span.
pub open spec fn span_tracks_unreserved(s: writer_model::WriterState) -> bool {
    forall|id: u64| #[trigger]
        s.open_spans.contains_key(id) ==> span_track_unreserved(s.open_spans[id])
}

/// Whether neither the id nor the track on which an action with this id waits is
/// kept for groups and counters.
pub open spec fn unreserved(id: u64) -> bool {
    id < GROUP_TRACK_BASE && id / 0x1_0000_0000 != 0xA5A5_5A5A
}

/// Whether the ids in the event are unreserved.
pub open spec fn event_unreserved(event: BuckEvent) -> bool {
    &&& event.span_id matches Some(id) ==> unreserved(id)
    &&& event.parent_id matches Some(id) ==> unreserved(id)
}

/// Appending a packet that declares nothing, or a track that was not declared.
proof fn lemma_distinct_written(
    before: writer_model::WriterState,
    middle: writer_model::WriterState,
    p: perfetto_proto::TracePacketModel,
    now: int,
)
    requires
        tracks_distinct(before),
        middle.packets == before.packets,
        middle.next_counter_uuid >= before.next_counter_uuid,
        counters_distinct(middle),
        forall|uuid: u64| #[trigger]
            before.emitted_tracks.contains(uuid) ==> middle.emitted_tracks.contains(uuid),
        forall|uuid: u64| #[trigger]
            middle.emitted_tracks.contains(uuid) ==> uuid < COUNTER_TRACK_BASE,
        declared_track(p) matches Some(uuid) ==> {
            if is_counter_track(p) {
                before.next_counter_uuid <= uuid < middle.next_counter_uuid
            } else {
                !before.emitted_tracks.contains(uuid) && middle.emitted_tracks.contains(uuid)
            }
        },
    ensures
        tracks_distinct(middle.written(p, now)),
{
    let q = perfetto_proto::TracePacketModel {
        trusted_packet_sequence_id: Some(SEQUENCE_ID),
        ..p
    };
    let front = if before.packets.len() == 0 {
        seq![writer_model::clock_packet(now)]
    } else {
        before.packets
    };
    let after = middle.written(p, now);
    let n = front.len() as int;
    assert(after.packets == front.push(q));
    assert forall|i: int, j: int|
        0 <= i < j < after.packets.len() && declared_track(after.packets[i])
            is Some implies declared_track(#[trigger] after.packets[i]) != declared_track(
        #[trigger] after.packets[j],
    ) by {
        assert(after.packets[i] == front[i]);
        if j < n {
            assert(after.packets[j] == front[j]);
        } else {
            assert(before.packets.len() > 0);
            let uuid = declared_track(before.packets[i])->0;
            assert(before.packets[i] == front[i]);
        }
    }
    assert forall|i: int|
        0 <= i < after.packets.len() && declared_track(#[trigger] after.packets[i])
            is Some implies ({
        let uuid = declared_track(after.packets[i])->0;
        if is_counter_track(after.packets[i]) {
            COUNTER_TRACK_BASE <= uuid < after.next_counter_uuid
        } else {
            after.emitted_tracks.contains(uuid)
        }
    }) by {
        if i < n {
            assert(before.packets.len() > 0);
            assert(after.packets[i] == before.packets[i]);
        }
    }
}

proof fn lemma_top_track(s: writer_model::WriterState, uuid: u64, name: Seq<char>, now: int)
    requires
        tracks_distinct(s),
        uuid < COUNTER_TRACK_BASE,
    ensures
        tracks_distinct(s.with_top_track(uuid, name, now)),
{
    if !s.emitted_tracks.contains(uuid) {
        let middle = writer_model::WriterState {
            emitted_tracks: s.emitted_tracks.insert(uuid),
            tracks: s.tracks + 1,
            ..s
        };
        lemma_distinct_written(
            s,
            middle,
            writer_model::declaration(writer_model::top_track(uuid, name)),
            now,
        );
    }
}

proof fn lemma_member_track(
    s: writer_model::WriterState,
    uuid: u64,
    group: u64,
    group_name: Seq<char>,
    name: Seq<char>,
    now: int,
)
    requires
        tracks_distinct(s),
        uuid < GROUP_TRACK_BASE,
        GROUP_TRACK_BASE <= group < COUNTER_TRACK_BASE,
    ensures
        tracks_distinct(s.with_member_track(uuid, group, group_name, name, now)),
{
    if !s.emitted_tracks.contains(uuid) {
        lemma_top_track(s, group, group_name, now);
        let t = s.with_top_track(group, group_name, now);
        let middle = writer_model::WriterState {
            emitted_tracks: t.emitted_tracks.insert(uuid),
            tracks: t.tracks + 1,
            ..t
        };
        lemma_distinct_written(
            t,
            middle,
            writer_model::declaration(
                writer_model::member_track(uuid, group, group_name, name),
            ),
            now,
        );
    }
}

proof fn lemma_counted(
    s: writer_model::WriterState,
    t: int,
    name: Seq<char>,
    unit: i32,
    parent: Option<u64>,
    value: CounterValue,
    now: int,
)
    requires
        tracks_distinct(s),
        s.counted(t, name, unit, parent, value, now).next_counter_uuid <= u64::MAX,
    ensures
        tracks_distinct(s.counted(t, name, unit, parent, value, now)),
{
    reveal(writer_model::WriterState::counted);
    let d = s.with_counter_track(name, unit, parent, now);
    if !s.counter_tracks.contains_key(name) {
        let uuid = s.next_counter_uuid as u64;
        let middle = writer_model::WriterState {
            next_counter_uuid: s.next_counter_uuid + 1,
            counter_tracks: s.counter_tracks.insert(name, uuid),
            tracks: s.tracks + 1,
            ..s
        };
        lemma_distinct_written(
            s,
            middle,
            writer_model::declaration(writer_model::counter_track(uuid, name, unit, parent)),
            now,
        );
    }
    assert(tracks_distinct(d));
    let p = writer_model::timed(t, writer_model::counter_event(d.counter_tracks[name], value));
    lemma_distinct_written(d, d, p, now);
}

proof fn lemma_bumped(
    s: writer_model::WriterState,
    t: int,
    name: Seq<char>,
    delta: int,
    now: int,
)
    requires
        tracks_distinct(s),
        s.bumped(t, name, delta, now).next_counter_uuid <= u64::MAX,
    ensures
        tracks_distinct(s.bumped(t, name, delta, now)),
{
    reveal(writer_model::WriterState::bumped);
    lemma_top_track(s, TRACK_SPAN_COUNTERS, "open spans"@, now);
    lemma_counted(
        s.with_top_track(TRACK_SPAN_COUNTERS, "open spans"@, now),
        t,
        "spans: "@ + name,
        UNIT_COUNT,
        Some(TRACK_SPAN_COUNTERS),
        CounterValue::Int((s.population(name) + delta) as i64),
        now,
    );
}

proof fn lemma_rated(
    s: writer_model::WriterState,
    t: SystemTime,
    name: Seq<char>,
    amount: u64,
    now: int,
)
    requires
        tracks_distinct(s),
        s.rated(t, name, amount, now).next_counter_uuid <= u64::MAX,
    ensures
        tracks_distinct(s.rated(t, name, amount, now)),
{
    reveal(writer_model::WriterState::rated);
    if s.prev_rate.contains_key(name) && s.prev_rate[name].0@ < t@ {
        let (earlier, before) = s.prev_rate[name];
        let delta: nat = if amount < before {
            0
        } else {
            (amount - before) as nat
        };
        let bits = crate::binary64::bits_of(
            crate::binary64::per_second(delta, (t@ - earlier@) as nat),
        );
        lemma_counted(s, t@, name, UNIT_COUNT, None, CounterValue::Double(bits), now);
    }
}

proof fn lemma_marked(
    s: writer_model::WriterState,
    t: int,
    name: Seq<char>,
    annotations: Seq<perfetto_proto::DebugAnnotationModel>,
    now: int,
)
    requires
        tracks_distinct(s),
    ensures
        tracks_distinct(s.marked(t, name, annotations, now)),
{
    reveal(writer_model::WriterState::marked);
    lemma_top_track(s, TRACK_MISC, Category::Misc.name(), now);
    let d = s.with_top_track(TRACK_MISC, Category::Misc.name(), now);
    lemma_distinct_written(
        d,
        d,
        writer_model::timed(t, writer_model::instant_event(name, annotations)),
        now,
    );
}

proof fn lemma_sliced(
    s: writer_model::WriterState,
    start: int,
    end: int,
    uuid: u64,
    name: Seq<char>,
    correlation_id: Option<u64>,
    annotations: Seq<perfetto_proto::DebugAnnotationModel>,
    now: int,
)
    requires
        tracks_distinct(s),
    ensures
        tracks_distinct(s.sliced(start, end, uuid, name, correlation_id, annotations, now)),
{
    let b = writer_model::timed(
        start,
        writer_model::begin_event(uuid, name, correlation_id, annotations),
    );
    let e = writer_model::timed(end, writer_model::end_event(uuid, correlation_id));
    lemma_distinct_written(s, s, b, now);
    lemma_distinct_written(s.written(b, now), s.written(b, now), e, now);
}

pub broadcast proof fn lemma_counted_distinct(
    s: writer_model::WriterState,
    t: int,
    name: Seq<char>,
    unit: i32,
    parent: Option<u64>,
    value: CounterValue,
    now: int,
)
    requires
        tracks_distinct(s),
        s.counted(t, name, unit, parent, value, now).next_counter_uuid <= u64::MAX,
    ensures
        tracks_distinct(#[trigger] s.counted(t, name, unit, parent, value, now)),
{
    lemma_counted(s, t, name, unit, parent, value, now);
}

pub broadcast proof fn lemma_rated_distinct(
    s: writer_model::WriterState,
    t: SystemTime,
    name: Seq<char>,
    amount: u64,
    now: int,
)
    requires
        tracks_distinct(s),
        s.rated(t, name, amount, now).next_counter_uuid <= u64::MAX,
    ensures
        tracks_distinct(#[trigger] s.rated(t, name, amount, now)),
{
    lemma_rated(s, t, name, amount, now);
}

proof fn lemma_sampled_nics(
    s: writer_model::WriterState,
    t: SystemTime,
    nics: Seq<NetworkInterfaceStats>,
    now: int,
)
    requires
        tracks_distinct(s),
        s.sampled_nics(t, nics, now).next_counter_uuid <= u64::MAX,
    ensures
        tracks_distinct(s.sampled_nics(t, nics, now)),
        s.sampled_nics(t, nics, now).counts_from(s),
        s.sampled_nics(t, nics, now).same_spans(s),
    decreases nics.len(),
{
    broadcast use lemma_rated_distinct;
    broadcast use writer_model::lemma_rated_grows;
    broadcast use writer_model::lemma_rated_frame;

    if nics.len() > 0 {
        lemma_sampled_nics(s, t, nics.drop_last(), now);
    }
}

proof fn lemma_sampled(
    s: writer_model::WriterState,
    t: SystemTime,
    snapshot: Snapshot,
    now: int,
)
    requires
        tracks_distinct(s),
        s.sampled(t, snapshot, now).next_counter_uuid <= u64::MAX,
    ensures
        tracks_distinct(s.sampled(t, snapshot, now)),
        s.sampled(t, snapshot, now).same_spans(s),
{
    let sizes = s.sampled_sizes(t@, snapshot, now);
    let rates = sizes.sampled_rates(t, snapshot, now);
    writer_model::lemma_sampled_nics_grows(
        rates,
        t,
        snapshot.network_interface_stats@,
        0,
        now,
    );
    assert(snapshot.network_interface_stats@.take(0) =~= Seq::<NetworkInterfaceStats>::empty());
    assert(rates.counts_from(sizes) && rates.same_spans(sizes)) by {
        broadcast use writer_model::lemma_rated_grows;
        broadcast use writer_model::lemma_rated_frame;

    }
    assert(tracks_distinct(sizes) && sizes.same_spans(s)) by {
        broadcast use lemma_counted_distinct;
        broadcast use writer_model::lemma_counted_grows;
        broadcast use writer_model::lemma_counted_frame;

    }
    assert(tracks_distinct(rates)) by {
        broadcast use lemma_rated_distinct;
        broadcast use writer_model::lemma_rated_grows;

    }
    lemma_sampled_nics(rates, t, snapshot.network_interface_stats@, now);
}

proof fn lemma_path_slices(
    s: writer_model::WriterState,
    t: int,
    entries: Seq<PathEntry>,
    now: int,
)
    requires
        tracks_distinct(s),
    ensures
        tracks_distinct(s.with_path_slices(t, entries, now).0),
        s.with_path_slices(t, entries, now).0.open_spans == s.open_spans,
    decreases entries.len(),
{
    if entries.len() > 0 {
        lemma_path_slices(s, t, entries.drop_last(), now);
        let (u, error) = s.with_path_slices(t, entries.drop_last(), now);
        let entry = entries.last();
        if error is None && writer_model::path_nanos(entry) >= 1_000_000 {
            if let Ok(Some(name)) = entry.display {
                let start = t + writer_model::path_offset(entry);
                lemma_sliced(
                    u,
                    start,
                    start + writer_model::path_nanos(entry),
                    TRACK_CRITICAL_PATH,
                    name@,
                    None,
                    seq![],
                    now,
                );
            }
        }
    }
}

proof fn lemma_slice(
    s: writer_model::WriterState,
    span: writer_model::OpenSpanModel,
    d: nat,
    now: int,
)
    requires
        tracks_distinct(s),
        span_track_unreserved(span),
    ensures
        tracks_distinct(s.with_slice(span, d, now)),
{
    reveal(writer_model::WriterState::with_slice);
    if !span.is_replaced() && d >= s.min_duration {
        let counted = writer_model::WriterState { spans_emitted: s.spans_emitted + 1, ..s };
        assert(tracks_distinct(counted));
        match span.role {
            writer_model::RoleModel::Stage { action_identity, is_waiting, .. } => {
                if is_waiting {
                    lemma_member_track(
                        counted,
                        span.track_uuid,
                        spans::TRACK_QUEUED,
                        "queued"@,
                        action_identity,
                        now,
                    );
                } else {
                    lemma_member_track(
                        counted,
                        span.track_uuid,
                        Category::Actions.group_uuid(),
                        Category::Actions.name(),
                        action_identity,
                        now,
                    );
                }
            },
            _ => {
                if span.is_root {
                    lemma_member_track(
                        counted,
                        span.track_uuid,
                        span.category.group_uuid(),
                        span.category.name(),
                        span.name,
                        now,
                    );
                }
            },
        }
        lemma_sliced(
            counted.with_span_track(span, now),
            span.start@,
            span.start@ + d,
            span.track_uuid,
            span.slice_name(),
            span.correlation_id(),
            span.slice_annotations(),
            now,
        );
    }
}

proof fn lemma_start(
    s: writer_model::WriterState,
    event: BuckEvent,
    start: SpanStart,
    now: int,
)
    requires
        tracks_distinct(s),
        span_tracks_unreserved(s),
        event_unreserved(event),
        s.after_start(event, start, now).0.next_counter_uuid <= u64::MAX,
    ensures
        tracks_distinct(s.after_start(event, start, now).0),
        span_tracks_unreserved(s.after_start(event, start, now).0),
{
    if let Some(id) = event.span_id {
        let seen = writer_model::WriterState { spans_seen: s.spans_seen + 1, ..s };
        assert(tracks_distinct(seen));
        if let Ok((name, category)) = spans::name_and_category(start) {
            let begun = if start is Command {
                writer_model::WriterState { command_start: Some(event.timestamp), ..seen }
            } else {
                seen
            };
            assert(tracks_distinct(begun));
            if let Some(counter) = spans::population_counter(start) {
                lemma_bumped(begun, event.timestamp@, counter, 1, now);
                writer_model::lemma_bumped_frame(begun, event.timestamp@, counter, 1, now);
            }
            let counted = begun.with_counted_span(id, event.timestamp@, start, now);
            assert(tracks_distinct(counted));
            assert(counted.open_spans == s.open_spans);
            if let Some(parent_id) = event.parent_id {
                spans::law_queued_track_is_not_reserved(parent_id);
            }
        }
    }
}

proof fn lemma_end(s: writer_model::WriterState, event: BuckEvent, end: SpanEnd, now: int)
    requires
        tracks_distinct(s),
        span_tracks_unreserved(s),
        s.after_end(event, end, now).0.next_counter_uuid <= u64::MAX,
    ensures
        tracks_distinct(s.after_end(event, end, now).0),
        span_tracks_unreserved(s.after_end(event, end, now).0),
{
    if let Some(id) = event.span_id {
        let t = event.timestamp@;
        writer_model::lemma_end_frame(s, end.materialization, id, t, now);
        let failed = s.with_failure(t, end.materialization, now);
        assert(tracks_distinct(failed)) by {
            reveal(writer_model::WriterState::with_failure);
            if let Some(m) = end.materialization {
                if !m.success {
                    lemma_marked(
                        s,
                        t,
                        "materialization_failure"@,
                        writer_model::failure_annotations(m),
                        now,
                    );
                }
            }
        }
        let counted = failed.without_counted_span(id, t, now);
        if counted.open_spans.contains_key(id) {
            if let Some(Ok(d)) = end.duration {
                let closed = writer_model::WriterState {
                    open_spans: counted.open_spans.remove(id),
                    ..counted
                };
                writer_model::lemma_slice_frame(closed, counted.open_spans[id], d@, now);
            }
        }
        assert(counted.next_counter_uuid <= u64::MAX);
        if failed.span_counter_open.contains_key(id) {
            let without = writer_model::WriterState {
                span_counter_open: failed.span_counter_open.remove(id),
                ..failed
            };
            assert(tracks_distinct(without));
            lemma_bumped(without, t, failed.span_counter_open[id], -1, now);
        }
        assert(tracks_distinct(counted));
        if counted.open_spans.contains_key(id) {
            let closed = writer_model::WriterState {
                open_spans: counted.open_spans.remove(id),
                ..counted
            };
            assert(tracks_distinct(closed));
            if let Some(Ok(d)) = end.duration {
                lemma_slice(closed, counted.open_spans[id], d@, now);
            }
        }
    }
}

/// Whatever event comes, no track is declared twice, as long as the ids in it are
/// unreserved and the counter uuids fit.
pub proof fn law_events_declare_new_tracks(
    s: writer_model::WriterState,
    event: BuckEvent,
    now: int,
)
    requires
        tracks_distinct(s),
        span_tracks_unreserved(s),
        event_unreserved(event),
        s.handled(event, now).0.counts_fit(),
    ensures
        tracks_distinct(s.handled(event, now).0),
        span_tracks_unreserved(s.handled(event, now).0),
{
    match event.data {
        EventData::SpanStart(Some(start)) => lemma_start(s, event, start, now),
        EventData::SpanEnd(end) => lemma_end(s, event, end, now),
        EventData::Instant(Some(instant)) => match instant {
            Instant::Snapshot(snapshot) => lemma_sampled(s, event.timestamp, snapshot, now),
            Instant::CommandPreempted => {
                lemma_marked(s, event.timestamp@, "command_preempted"@, seq![], now);
                writer_model::lemma_marked_frame(
                    s,
                    event.timestamp@,
                    "command_preempted"@,
                    seq![],
                    now,
                );
            },
            Instant::BuildGraphInfo(entries) => {
                if let Some(t) = s.command_start {
                    lemma_top_track(s, TRACK_CRITICAL_PATH, "critical path"@, now);
                    lemma_path_slices(
                        s.with_top_track(TRACK_CRITICAL_PATH, "critical path"@, now),
                        t@,
                        entries@,
                        now,
                    );
                }
            },
            Instant::Other => {},
        },
        _ => {},
    }
}

/// In every trace no track is declared twice, and no two counters share a track, as
/// long as the ids of the spans are unreserved and the counts fit.
pub proof fn law_tracks_are_declared_once(min_duration: nat, events: Seq<(BuckEvent, int)>)
    requires
        forall|i: int| 0 <= i < events.len() ==> event_unreserved(#[trigger] events[i].0),
        writer_laws::after_events(min_duration, events).counts_fit(),
    ensures
        declared_once(writer_laws::after_events(min_duration, events).packets),
        counters_distinct(writer_laws::after_events(min_duration, events)),
{
    lemma_after_events(min_duration, events);
}

proof fn lemma_after_events(min_duration: nat, events: Seq<(BuckEvent, int)>)
    requires
        forall|i: int| 0 <= i < events.len() ==> event_unreserved(#[trigger] events[i].0),
        writer_laws::after_events(min_duration, events).counts_fit(),
    ensures
        tracks_distinct(writer_laws::after_events(min_duration, events)),
        span_tracks_unreserved(writer_laws::after_events(min_duration, events)),
    decreases events.len(),
{
    if events.len() > 0 {
        let init = events.drop_last();
        assert forall|i: int| 0 <= i < init.len() implies event_unreserved(
            #[trigger] init[i].0,
        ) by {
            assert(init[i] == events[i]);
        }
        span_laws::law_counts_only_grow(
            writer_laws::after_events(min_duration, init),
            events.last().0,
            events.last().1,
        );
        lemma_after_events(min_duration, init);
        assert(event_unreserved(events[events.len() - 1].0));
        law_events_declare_new_tracks(
            writer_laws::after_events(min_duration, init),
            events.last().0,
            events.last().1,
        );
    }
}

} // verus!
