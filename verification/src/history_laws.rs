//! What each event adds to the trace, told by the events before it alone.

use vstd::prelude::*;

use crate::events::BuckEvent;
use crate::events::EventData;
use crate::events::Instant;
use crate::events::LocalStage;
use crate::events::Materialization;
use crate::events::NetworkInterfaceStats;
use crate::events::PathEntry;
use crate::events::ReStage;
use crate::events::Snapshot;
use crate::events::SpanStart;
use crate::events::Stage;
use crate::perfetto_proto;
use crate::sample_laws;
use crate::span_laws;
use crate::spans;
use crate::spans::Category;
use crate::time::SystemTime;
use crate::writer_laws;
use crate::writer_model;
use crate::writer_model::CounterValue;
use crate::writer_model::RoleModel;

verus! {

// The spans of a history.

/// What the event starts, if it starts a span.
pub open spec fn start_of(event: BuckEvent) -> Option<SpanStart> {
    match event.data {
        EventData::SpanStart(start) => start,
        _ => None,
    }
}

/// Whether the event starts the span: it has a name.
pub open spec fn starts(event: BuckEvent, id: u64) -> bool {
    &&& event.span_id == Some(id)
    &&& start_of(event) matches Some(start)
    &&& spans::name_and_category(start) is Ok
}

/// Whether the event ends the span, if it is open.
pub open spec fn ends(event: BuckEvent, id: u64) -> bool {
    event.span_id == Some(id) && event.data is SpanEnd
}

/// The place of the event that started the span, if the span is open after the events.
pub open spec fn open_since(events: Seq<(BuckEvent, int)>, id: u64) -> Option<int>
    decreases events.len(),
{
    if events.len() == 0 {
        None
    } else if starts(events.last().0, id) {
        Some(events.len() - 1)
    } else if ends(events.last().0, id) {
        None
    } else {
        open_since(events.drop_last(), id)
    }
}

/// Whether the event starts an action.
pub open spec fn is_action(event: BuckEvent) -> bool {
    start_of(event) matches Some(start) && start is ActionExecution
}

/// Whether the event starts an executor stage.
pub open spec fn is_stage(event: BuckEvent) -> bool {
    start_of(event) matches Some(start) && start is ExecutorStage
}

/// The stage that the event starts, if it says which.
pub open spec fn stage_of(event: BuckEvent) -> Option<Stage> {
    match start_of(event) {
        Some(SpanStart::ExecutorStage { stage: Some(s) }) => Some(s.stage),
        _ => None,
    }
}

/// Whether the event starts a stage in which an action waits.
pub open spec fn waits(event: BuckEvent) -> bool {
    ||| stage_of(event) == Some(Stage::Local(Some(LocalStage::Queued)))
    ||| stage_of(event) == Some(Stage::Local(Some(LocalStage::WorkerQueued)))
    ||| stage_of(event) == Some(Stage::Local(Some(LocalStage::WorkerWait)))
    ||| stage_of(event) == Some(Stage::Local(Some(LocalStage::AcquireLocalResource)))
    ||| stage_of(event) == Some(Stage::Re(Some(ReStage::Queue)))
    ||| stage_of(event) == Some(Stage::Re(Some(ReStage::QueueOverQuota)))
    ||| stage_of(event) == Some(Stage::Re(Some(ReStage::QueueAcquiringDependencies)))
    ||| stage_of(event) == Some(Stage::Re(Some(ReStage::QueueNoWorkerAvailable)))
    ||| stage_of(event) == Some(Stage::Re(Some(ReStage::QueueCancelled)))
}

/// Whether the event starts a stage in which an action executes.
pub open spec fn executes(event: BuckEvent) -> bool {
    ||| stage_of(event) == Some(Stage::Local(Some(LocalStage::Execute)))
    ||| stage_of(event) == Some(Stage::Local(Some(LocalStage::WorkerExecute)))
    ||| stage_of(event) == Some(Stage::Re(Some(ReStage::Execute)))
}

/// The name of the span that the event starts.
pub open spec fn own_name(event: BuckEvent) -> Seq<char> {
    spans::name_and_category(start_of(event)->0)->Ok_0.0
}

/// The group of the span that the event starts.
pub open spec fn own_category(event: BuckEvent) -> Category {
    spans::name_and_category(start_of(event)->0)->Ok_0.1
}

/// The place of the event that started the span around the event, if that span is open.
pub open spec fn around(before: Seq<(BuckEvent, int)>, event: BuckEvent) -> Option<int> {
    match event.parent_id {
        Some(p) => open_since(before, p),
        None => None,
    }
}

/// Whether the event starts a stage directly in an open action.
pub open spec fn is_stage_of_action(before: Seq<(BuckEvent, int)>, event: BuckEvent) -> bool {
    &&& is_stage(event)
    &&& around(before, event) matches Some(m)
    &&& is_action(before[m].0)
}

/// Whether an executor stage was started with the span as its direct parent, since the
/// span was started at place `k`.
pub open spec fn had_stage(events: Seq<(BuckEvent, int)>, k: int, id: u64) -> bool {
    exists|j: int|
        k < j < events.len() && is_stage((#[trigger] events[j]).0) && events[j].0.span_id is Some
            && events[j].0.parent_id == Some(id)
}

/// The track of the span that the event starts. A stage of an action is shown on the
/// action's track, or on the one on which the action waits. Another span is shown on the
/// track of the span around it, and on one of its own where there is none.
pub open spec fn track(before: Seq<(BuckEvent, int)>, event: BuckEvent) -> u64
    decreases before.len(),
{
    if is_stage_of_action(before, event) {
        if waits(event) {
            event.parent_id->0 ^ 0x5A5A_A5A5_C3C3_3C3Du64
        } else {
            event.parent_id->0
        }
    } else {
        match around(before, event) {
            Some(m) => if 0 <= m < before.len() {
                track(before.take(m), before[m].0)
            } else {
                0
            },
            None => event.span_id->0,
        }
    }
}

proof fn lemma_open_since(events: Seq<(BuckEvent, int)>, id: u64)
    ensures
        open_since(events, id) matches Some(k) ==> 0 <= k < events.len() && starts(
            events[k].0,
            id,
        ),
    decreases events.len(),
{
    if events.len() > 0 {
        lemma_open_since(events.drop_last(), id);
    }
}

/// Whether the annotation is a number with the given name.
pub open spec fn is_number(
    a: perfetto_proto::DebugAnnotationModel,
    name: Seq<char>,
    value: u64,
) -> bool {
    a.name == Some(name) && a.uint_value == Some(value) && a.int_value is None
        && a.double_value is None && a.string_value is None
}

/// Whether the annotation is a text with the given name.
pub open spec fn is_text(
    a: perfetto_proto::DebugAnnotationModel,
    name: Seq<char>,
    value: Seq<char>,
) -> bool {
    a.name == Some(name) && a.string_value == Some(value) && a.uint_value is None
        && a.int_value is None && a.double_value is None
}

/// Whether the open span is what the history says of it.
spec fn span_is_told(
    span: writer_model::OpenSpanModel,
    events: Seq<(BuckEvent, int)>,
    k: int,
    id: u64,
) -> bool {
    let event = events[k].0;
    let before = events.take(k);
    &&& span.start == event.timestamp
    &&& span.name == own_name(event)
    &&& span.category == own_category(event)
    &&& span.track_uuid == track(before, event)
    &&& span.is_root == (around(before, event) is None)
    &&& span.annotations.len() == 1
    &&& is_number(span.annotations[0], "span_id"@, id)
    &&& is_action(event) ==> span.role == (RoleModel::Action {
        saw_stage: had_stage(events, k, id),
    })
    &&& is_stage_of_action(before, event) ==> span.role == (RoleModel::Stage {
        action_span_id: event.parent_id->0,
        action_identity: own_name(before[around(before, event)->0].0),
        is_execution: executes(event),
        is_waiting: waits(event),
    })
    &&& !is_action(event) && !is_stage_of_action(before, event) ==> span.role is Plain
}

/// Whether the writer's open spans are those that the history says are open.
spec fn told(s: writer_model::WriterState, events: Seq<(BuckEvent, int)>) -> bool {
    &&& forall|id: u64| #[trigger]
        s.open_spans.contains_key(id) <==> open_since(events, id) is Some
    &&& forall|id: u64|
        #![trigger s.open_spans[id]]
        open_since(events, id) matches Some(k) ==> span_is_told(s.open_spans[id], events, k, id)
    &&& s.command_start == last_command(events)
}

/// When the last command started, if one did.
pub open spec fn last_command(events: Seq<(BuckEvent, int)>) -> Option<SystemTime>
    decreases events.len(),
{
    if events.len() == 0 {
        None
    } else if start_of(events.last().0) == Some(SpanStart::Command) && events.last().0.span_id
        is Some {
        Some(events.last().0.timestamp)
    } else {
        last_command(events.drop_last())
    }
}

proof fn lemma_push(events: Seq<(BuckEvent, int)>, e: (BuckEvent, int))
    ensures
        forall|id: u64| #[trigger]
            open_since(events.push(e), id) == if starts(e.0, id) {
                Some(events.len() as int)
            } else if ends(e.0, id) {
                None
            } else {
                open_since(events, id)
            },
        last_command(events.push(e)) == if start_of(e.0) == Some(SpanStart::Command)
            && e.0.span_id is Some {
            Some(e.0.timestamp)
        } else {
            last_command(events)
        },
        forall|k: int, id: u64|
            0 <= k < events.len() ==> #[trigger] had_stage(events.push(e), k, id) == (had_stage(
                events,
                k,
                id,
            ) || (is_stage(e.0) && e.0.span_id is Some && e.0.parent_id == Some(id))),
        forall|k: int| 0 <= k <= events.len() ==> events.push(e).take(k) == #[trigger] events.take(
            k,
        ),
{
    let all = events.push(e);
    assert(all.drop_last() =~= events);
    assert forall|k: int, id: u64| 0 <= k < events.len() implies #[trigger] had_stage(all, k, id)
        == (had_stage(events, k, id) || (is_stage(e.0) && e.0.span_id is Some && e.0.parent_id
        == Some(id))) by {
        if had_stage(events, k, id) {
            let j = choose|j: int|
                k < j < events.len() && is_stage((#[trigger] events[j]).0) && events[j].0.span_id
                    is Some && events[j].0.parent_id == Some(id);
            assert(all[j] == events[j]);
        }
        if is_stage(e.0) && e.0.span_id is Some && e.0.parent_id == Some(id) {
            assert(all[events.len() as int] == e);
        }
        if had_stage(all, k, id) {
            let j = choose|j: int|
                k < j < all.len() && is_stage((#[trigger] all[j]).0) && all[j].0.span_id is Some
                    && all[j].0.parent_id == Some(id);
            if j < events.len() {
                assert(events[j] == all[j]);
            }
        }
    }
    assert forall|k: int| 0 <= k <= events.len() implies all.take(k) == #[trigger] events.take(
        k,
    ) by {
        assert(all.take(k) =~= events.take(k));
    }
}

/// What a span is told to be does not change with later events, but for an action that
/// gets a stage.
proof fn lemma_still_told(
    span: writer_model::OpenSpanModel,
    events: Seq<(BuckEvent, int)>,
    k: int,
    id: u64,
    e: (BuckEvent, int),
)
    requires
        0 <= k < events.len(),
        span_is_told(span, events, k, id),
    ensures
        is_stage(e.0) && e.0.span_id is Some && e.0.parent_id == Some(id) && is_action(events[k].0)
            ==> span_is_told(
            writer_model::OpenSpanModel { role: RoleModel::Action { saw_stage: true }, ..span },
            events.push(e),
            k,
            id,
        ),
        !(is_stage(e.0) && e.0.span_id is Some && e.0.parent_id == Some(id) && is_action(
            events[k].0,
        )) ==> span_is_told(span, events.push(e), k, id),
{
    lemma_push(events, e);
    assert(events.push(e)[k] == events[k]);
    assert(events.push(e).take(k) == events.take(k));
    assert(had_stage(events.push(e), k, id) == (had_stage(events, k, id) || (is_stage(e.0)
        && e.0.span_id is Some && e.0.parent_id == Some(id))));
}

proof fn lemma_start_told(
    s: writer_model::WriterState,
    events: Seq<(BuckEvent, int)>,
    event: BuckEvent,
    start: SpanStart,
    now: int,
)
    requires
        told(s, events),
        event.data == EventData::SpanStart(Some(start)),
    ensures
        told(s.handled(event, now).0, events.push((event, now))),
{
    let e = (event, now);
    let after = s.handled(event, now).0;
    lemma_push(events, e);
    match event.span_id {
        None => {
            assert forall|id: u64|
                #![trigger after.open_spans[id]]
                open_since(events.push(e), id) matches Some(k) ==> span_is_told(
                    after.open_spans[id],
                    events.push(e),
                    k,
                    id,
                ) by {
                lemma_open_since(events, id);
                if let Some(k) = open_since(events, id) {
                    lemma_still_told(s.open_spans[id], events, k, id, e);
                }
            }
        },
        Some(id) => {
            span_laws::lemma_start(s, event, start, id, now);
            let seen = writer_model::WriterState { spans_seen: s.spans_seen + 1, ..s };
            if spans::name_and_category(start) is Ok {
                let begun = if start is Command {
                    writer_model::WriterState { command_start: Some(event.timestamp), ..seen }
                } else {
                    seen
                };
                let counted = begun.with_counted_span(id, event.timestamp@, start, now);
                if let Some(counter) = spans::population_counter(start) {
                    writer_model::lemma_bumped_frame(begun, event.timestamp@, counter, 1, now);
                }
                assert(counted.open_spans == s.open_spans);
                assert(counted.command_start == begun.command_start);
                if let Some(p) = event.parent_id {
                    lemma_open_since(events, p);
                    assert(s.open_spans.contains_key(p) <==> open_since(events, p) is Some);
                    if let Some(m) = open_since(events, p) {
                        assert(span_is_told(s.open_spans[p], events, m, p));
                    }
                }
                assert forall|x: u64|
                    #![trigger after.open_spans[x]]
                    open_since(events.push(e), x) matches Some(k) ==> span_is_told(
                        after.open_spans[x],
                        events.push(e),
                        k,
                        x,
                    ) by {
                    if x == id {
                        let k = events.len() as int;
                        assert(open_since(events.push(e), x) == Some(k));
                        assert(events.push(e)[k] == e);
                        assert(events.push(e).take(k) == events.take(k));
                        assert(events.take(k) =~= events);
                        assert(!had_stage(events.push(e), k, id));
                        assert(is_stage(event) ==> (executes(event) <==> (start->stage is Some
                            && spans::is_execution(start->stage->0.stage))));
                        assert(is_stage(event) ==> (waits(event) <==> (start->stage is Some
                            && spans::is_waiting(start->stage->0.stage))));
                        assert(counted.track_of(event, start, id).0 == track(events, event));
                        assert(span_is_told(after.open_spans[x], events.push(e), k, x));
                    } else {
                        lemma_open_since(events, x);
                        if let Some(k) = open_since(events, x) {
                            assert(span_is_told(s.open_spans[x], events, k, x));
                            lemma_still_told(s.open_spans[x], events, k, x, e);
                        }
                    }
                }
                assert forall|x: u64| #[trigger]
                    after.open_spans.contains_key(x) <==> open_since(events.push(e), x) is Some by {
                    assert(after.open_spans.dom().contains(x) <==> s.open_spans.dom().insert(
                        id,
                    ).contains(x));
                    assert(s.open_spans.contains_key(x) <==> open_since(events, x) is Some);
                }
            } else {
                assert(!is_stage(event));
                assert forall|x: u64|
                    #![trigger after.open_spans[x]]
                    open_since(events.push(e), x) matches Some(k) ==> span_is_told(
                        after.open_spans[x],
                        events.push(e),
                        k,
                        x,
                    ) by {
                    lemma_open_since(events, x);
                    if let Some(k) = open_since(events, x) {
                        assert(span_is_told(s.open_spans[x], events, k, x));
                        lemma_still_told(s.open_spans[x], events, k, x, e);
                    }
                }
            }
        },
    }
}

proof fn lemma_told_kept(
    s: writer_model::WriterState,
    after: writer_model::WriterState,
    events: Seq<(BuckEvent, int)>,
    e: (BuckEvent, int),
)
    requires
        told(s, events),
        start_of(e.0) is None,
        after.command_start == s.command_start,
        after.open_spans == (match (e.0.data, e.0.span_id) {
            (EventData::SpanEnd(_), Some(id)) => s.open_spans.remove(id),
            _ => s.open_spans,
        }),
    ensures
        told(after, events.push(e)),
{
    lemma_push(events, e);
    assert forall|x: u64|
        #![trigger after.open_spans[x]]
        open_since(events.push(e), x) matches Some(k) ==> span_is_told(
            after.open_spans[x],
            events.push(e),
            k,
            x,
        ) by {
        lemma_open_since(events, x);
        if let Some(k) = open_since(events.push(e), x) {
            assert(span_is_told(s.open_spans[x], events, k, x));
            lemma_still_told(s.open_spans[x], events, k, x, e);
        }
    }
    assert forall|x: u64| #[trigger]
        after.open_spans.contains_key(x) <==> open_since(events.push(e), x) is Some by {
        assert(s.open_spans.contains_key(x) <==> open_since(events, x) is Some);
    }
}

/// After every history the writer's open spans are those that it tells of.
proof fn lemma_told(min_duration: nat, events: Seq<(BuckEvent, int)>)
    ensures
        told(writer_laws::after_events(min_duration, events), events),
        writer_laws::after_events(min_duration, events).min_duration == min_duration,
    decreases events.len(),
{
    if events.len() > 0 {
        let init = events.drop_last();
        let (event, now) = events.last();
        lemma_told(min_duration, init);
        let s = writer_laws::after_events(min_duration, init);
        assert(init.push(events.last()) =~= events);
        match event.data {
            EventData::SpanStart(Some(start)) => {
                lemma_start_told(s, init, event, start, now);
                lemma_start_frame(s, event, start, now);
            },
            EventData::SpanEnd(end) => {
                if let Some(id) = event.span_id {
                    span_laws::lemma_end(s, event, end, id, now);
                    lemma_end_command(s, event, now);
                }
                lemma_told_kept(s, s.handled(event, now).0, init, events.last());
            },
            EventData::Instant(Some(instant)) => {
                span_laws::lemma_instant(s, event, instant, now);
                lemma_instant_command(s, event, instant, now);
                lemma_told_kept(s, s.handled(event, now).0, init, events.last());
            },
            EventData::SpanStart(None) => {
                lemma_told_kept(s, s.handled(event, now).0, init, events.last());
            },
            _ => {
                lemma_told_kept(s, s.handled(event, now).0, init, events.last());
            },
        }
    }
}

/// After every history the writer's open spans are those that it says are open.
pub proof fn lemma_open_spans(min_duration: nat, events: Seq<(BuckEvent, int)>)
    ensures
        forall|id: u64| #[trigger]
            writer_laws::after_events(min_duration, events).open_spans.contains_key(id)
                <==> open_since(events, id) is Some,
{
    lemma_told(min_duration, events);
}

proof fn lemma_start_frame(
    s: writer_model::WriterState,
    event: BuckEvent,
    start: SpanStart,
    now: int,
)
    ensures
        s.after_start(event, start, now).0.min_duration == s.min_duration,
{
    let seen = writer_model::WriterState { spans_seen: s.spans_seen + 1, ..s };
    let begun = if start is Command {
        writer_model::WriterState { command_start: Some(event.timestamp), ..seen }
    } else {
        seen
    };
    if let Some(counter) = spans::population_counter(start) {
        writer_model::lemma_bumped_frame(begun, event.timestamp@, counter, 1, now);
    }
}

proof fn lemma_end_command(s: writer_model::WriterState, event: BuckEvent, now: int)
    requires
        event.data is SpanEnd,
    ensures
        s.handled(event, now).0.command_start == s.command_start,
        s.handled(event, now).0.min_duration == s.min_duration,
{
    let end = event.data->SpanEnd_0;
    if let Some(id) = event.span_id {
        let t = event.timestamp@;
        reveal(writer_model::WriterState::with_slice);
        writer_model::lemma_end_frame(s, end.materialization, id, t, now);
        let failed = s.with_failure(t, end.materialization, now);
        if failed.span_counter_open.contains_key(id) {
            let without = writer_model::WriterState {
                span_counter_open: failed.span_counter_open.remove(id),
                ..failed
            };
            writer_model::lemma_bumped_frame(without, t, failed.span_counter_open[id], -1, now);
        }
    }
}

proof fn lemma_path_command(
    s: writer_model::WriterState,
    t: int,
    entries: Seq<PathEntry>,
    now: int,
)
    ensures
        s.with_path_slices(t, entries, now).0.command_start == s.command_start,
        s.with_path_slices(t, entries, now).0.min_duration == s.min_duration,
    decreases entries.len(),
{
    if entries.len() > 0 {
        lemma_path_command(s, t, entries.drop_last(), now);
    }
}

proof fn lemma_nics_command(
    s: writer_model::WriterState,
    t: SystemTime,
    nics: Seq<NetworkInterfaceStats>,
    now: int,
)
    ensures
        s.sampled_nics(t, nics, now).same_spans(s),
    decreases nics.len(),
{
    broadcast use writer_model::lemma_rated_frame;

    if nics.len() > 0 {
        lemma_nics_command(s, t, nics.drop_last(), now);
    }
}

proof fn lemma_instant_command(
    s: writer_model::WriterState,
    event: BuckEvent,
    instant: Instant,
    now: int,
)
    ensures
        s.after_instant(event, instant, now).0.command_start == s.command_start,
        s.after_instant(event, instant, now).0.min_duration == s.min_duration,
{
    match instant {
        Instant::Snapshot(snapshot) => {
            let t = event.timestamp;
            let sizes = s.sampled_sizes(t@, snapshot, now);
            let rates = sizes.sampled_rates(t, snapshot, now);
            assert(sizes.same_spans(s)) by {
                broadcast use writer_model::lemma_counted_frame;

            }
            assert(rates.same_spans(sizes)) by {
                broadcast use writer_model::lemma_rated_frame;

            }
            lemma_nics_command(rates, t, snapshot.network_interface_stats@, now);
        },
        Instant::CommandPreempted => {
            writer_model::lemma_marked_frame(
                s,
                event.timestamp@,
                "command_preempted"@,
                seq![],
                now,
            );
        },
        Instant::BuildGraphInfo(entries) => {
            if let Some(t) = s.command_start {
                lemma_path_command(
                    s.with_top_track(spans::TRACK_CRITICAL_PATH, "critical path"@, now),
                    t@,
                    entries@,
                    now,
                );
            }
        },
        Instant::Other => {},
    }
}

// The slices and the marks of a trace.

/// The type of the event that the packet reports.
pub open spec fn type_of(p: perfetto_proto::TracePacketModel) -> Option<i32> {
    match p.track_event {
        Some(e) => e.event_type,
        None => None,
    }
}

/// The slices of the trace, in the order in which they were written: each packet that ends
/// one, with the packet in front of it.
pub open spec fn slices(packets: Seq<perfetto_proto::TracePacketModel>) -> Seq<
    (perfetto_proto::TracePacketModel, perfetto_proto::TracePacketModel),
>
    decreases packets.len(),
{
    if packets.len() == 0 {
        seq![]
    } else if type_of(packets.last()) == Some(2i32) && packets.len() > 1 {
        slices(packets.drop_last()).push((packets[packets.len() - 2], packets.last()))
    } else {
        slices(packets.drop_last())
    }
}

/// The packets that begin a slice.
pub open spec fn begins(packets: Seq<perfetto_proto::TracePacketModel>) -> Seq<
    perfetto_proto::TracePacketModel,
>
    decreases packets.len(),
{
    if packets.len() == 0 {
        seq![]
    } else if type_of(packets.last()) == Some(1i32) {
        begins(packets.drop_last()).push(packets.last())
    } else {
        begins(packets.drop_last())
    }
}

/// The packets that mark a moment.
pub open spec fn marks(packets: Seq<perfetto_proto::TracePacketModel>) -> Seq<
    perfetto_proto::TracePacketModel,
>
    decreases packets.len(),
{
    if packets.len() == 0 {
        seq![]
    } else if type_of(packets.last()) == Some(3i32) {
        marks(packets.drop_last()).push(packets.last())
    } else {
        marks(packets.drop_last())
    }
}

/// The last declaration of the track, as one that is not a counter's.
pub open spec fn described(
    packets: Seq<perfetto_proto::TracePacketModel>,
    uuid: u64,
) -> Option<perfetto_proto::TrackDescriptorModel>
    decreases packets.len(),
{
    if packets.len() == 0 {
        None
    } else if packets.last().track_descriptor matches Some(d) && d.uuid == Some(uuid) && d.counter
        is None {
        packets.last().track_descriptor
    } else {
        described(packets.drop_last(), uuid)
    }
}

/// Whether the two packets are a slice from `start` to `end` on the track.
pub open spec fn is_slice(
    slice: (perfetto_proto::TracePacketModel, perfetto_proto::TracePacketModel),
    start: int,
    end: int,
    track: u64,
    name: Seq<char>,
    correlation_id: Option<u64>,
) -> bool {
    &&& sample_laws::is_at(slice.0, start)
    &&& sample_laws::is_at(slice.1, end)
    &&& slice.0.track_event matches Some(b)
    &&& slice.1.track_event matches Some(e)
    &&& b.event_type == Some(1i32)
    &&& e.event_type == Some(2i32)
    &&& b.track_uuid == Some(track)
    &&& e.track_uuid == Some(track)
    &&& b.name == Some(name)
    &&& b.correlation_id == correlation_id
    &&& e.correlation_id == correlation_id
}

/// Whether the trace ends with the slice.
pub open spec fn ends_trace(
    packets: Seq<perfetto_proto::TracePacketModel>,
    slice: (perfetto_proto::TracePacketModel, perfetto_proto::TracePacketModel),
) -> bool {
    packets.len() >= 2 && slice == (packets[packets.len() - 2], packets.last())
}

/// The annotations of a slice.
pub open spec fn annotations(
    slice: (perfetto_proto::TracePacketModel, perfetto_proto::TracePacketModel),
) -> Seq<perfetto_proto::DebugAnnotationModel> {
    slice.0.track_event->0.debug_annotations
}

/// Whether the packet marks a moment under the name, on the track of the group for the
/// rest.
pub open spec fn is_mark(p: perfetto_proto::TracePacketModel, t: int, name: Seq<char>) -> bool {
    &&& sample_laws::is_at(p, t)
    &&& p.track_event matches Some(e)
    &&& e.event_type == Some(3i32)
    &&& e.track_uuid == Some(0xFFFF_FFFF_0000_0004u64)
    &&& e.name == Some(name)
}

/// Whether the same slices and marks were written.
spec fn silent(after: writer_model::WriterState, before: writer_model::WriterState) -> bool {
    &&& slices(after.packets) == slices(before.packets)
    &&& begins(after.packets) == begins(before.packets)
    &&& marks(after.packets) == marks(before.packets)
    &&& grows(after, before)
}

/// Whether no description of a track was lost, and every new track is described.
spec fn grows(after: writer_model::WriterState, before: writer_model::WriterState) -> bool {
    &&& forall|uuid: u64|
        described(before.packets, uuid) is Some ==> #[trigger] described(after.packets, uuid)
            is Some
    &&& forall|uuid: u64| #[trigger]
        after.emitted_tracks.contains(uuid) ==> before.emitted_tracks.contains(uuid) || described(
            after.packets,
            uuid,
        ) is Some
}

proof fn lemma_push_packet(
    packets: Seq<perfetto_proto::TracePacketModel>,
    p: perfetto_proto::TracePacketModel,
)
    ensures
        marks(packets.push(p)) == if type_of(p) == Some(3i32) {
            marks(packets).push(p)
        } else {
            marks(packets)
        },
        begins(packets.push(p)) == if type_of(p) == Some(1i32) {
            begins(packets).push(p)
        } else {
            begins(packets)
        },
        slices(packets.push(p)) == if type_of(p) == Some(2i32) && packets.len() > 0 {
            slices(packets).push((packets.last(), p))
        } else {
            slices(packets)
        },
        forall|uuid: u64| #[trigger]
            described(packets.push(p), uuid) == if p.track_descriptor matches Some(d) && d.uuid
                == Some(uuid) && d.counter is None {
                p.track_descriptor
            } else {
                described(packets, uuid)
            },
{
    assert(packets.push(p).drop_last() =~= packets);
}

proof fn lemma_written(
    s: writer_model::WriterState,
    p: perfetto_proto::TracePacketModel,
    now: int,
)
    requires
        type_of(p) == Some(2i32) ==> s.packets.len() > 0,
    ensures
        ({
            let after = s.written(p, now).packets;
            let q = perfetto_proto::TracePacketModel {
                trusted_packet_sequence_id: Some(1u32),
                ..p
            };
            &&& after.last() == q
            &&& after.len() > 0
            &&& marks(after) == if type_of(p) == Some(3i32) {
                marks(s.packets).push(q)
            } else {
                marks(s.packets)
            }
            &&& begins(after) == if type_of(p) == Some(1i32) {
                begins(s.packets).push(q)
            } else {
                begins(s.packets)
            }
            &&& slices(after) == if type_of(p) == Some(2i32) {
                slices(s.packets).push((s.packets.last(), q))
            } else {
                slices(s.packets)
            }
            &&& forall|uuid: u64| #[trigger]
                described(after, uuid) == if p.track_descriptor matches Some(d) && d.uuid == Some(
                    uuid,
                ) && d.counter is None {
                    p.track_descriptor
                } else {
                    described(s.packets, uuid)
                }
        }),
{
    let q = perfetto_proto::TracePacketModel { trusted_packet_sequence_id: Some(1u32), ..p };
    if s.packets.len() == 0 {
        let clock = writer_model::clock_packet(now);
        assert(s.packets.push(clock) =~= seq![clock]);
        lemma_push_packet(s.packets, clock);
        lemma_push_packet(seq![clock], q);
    } else {
        lemma_push_packet(s.packets, q);
    }
}

proof fn lemma_top_track(s: writer_model::WriterState, uuid: u64, name: Seq<char>, now: int)
    ensures
        silent(s.with_top_track(uuid, name, now), s),
        !s.emitted_tracks.contains(uuid) ==> described(
            s.with_top_track(uuid, name, now).packets,
            uuid,
        ) == Some(
            perfetto_proto::TrackDescriptorModel {
                uuid: Some(uuid),
                parent_uuid: None,
                name: Some(name),
                counter: None,
                sibling_merge_behavior: None,
                sibling_merge_key: None,
            },
        ),
        forall|x: u64|
            x != uuid || s.emitted_tracks.contains(uuid) ==> #[trigger] described(
                s.with_top_track(uuid, name, now).packets,
                x,
            ) == described(s.packets, x),
{
    if !s.emitted_tracks.contains(uuid) {
        let middle = writer_model::WriterState {
            emitted_tracks: s.emitted_tracks.insert(uuid),
            tracks: s.tracks + 1,
            ..s
        };
        lemma_written(
            middle,
            writer_model::declaration(writer_model::top_track(uuid, name)),
            now,
        );
    }
}

/// Whether the track is described as a member of a group.
pub open spec fn is_member(
    track: Option<perfetto_proto::TrackDescriptorModel>,
    uuid: u64,
    group: u64,
    group_name: Seq<char>,
    name: Seq<char>,
) -> bool {
    &&& track matches Some(d)
    &&& d.uuid == Some(uuid)
    &&& d.parent_uuid == Some(group)
    &&& d.name == Some(name)
    &&& d.counter is None
    &&& d.sibling_merge_behavior == Some(3i32)
    &&& d.sibling_merge_key == Some(group_name)
}

/// Whether the track is described as a group at the top level.
pub open spec fn is_group(
    track: Option<perfetto_proto::TrackDescriptorModel>,
    uuid: u64,
    name: Seq<char>,
) -> bool {
    &&& track matches Some(d)
    &&& d.uuid == Some(uuid)
    &&& d.parent_uuid is None
    &&& d.name == Some(name)
    &&& d.counter is None
    &&& d.sibling_merge_behavior is None
    &&& d.sibling_merge_key is None
}

proof fn lemma_member_track(
    s: writer_model::WriterState,
    uuid: u64,
    group: u64,
    group_name: Seq<char>,
    name: Seq<char>,
    now: int,
)
    ensures
        ({
            let after = s.with_member_track(uuid, group, group_name, name, now);
            &&& silent(after, s)
            &&& s.emitted_tracks.contains(uuid) ==> after == s
            &&& !s.emitted_tracks.contains(uuid) ==> is_member(
                described(after.packets, uuid),
                uuid,
                group,
                group_name,
                name,
            )
            &&& !s.emitted_tracks.contains(uuid) && uuid != group && !s.emitted_tracks.contains(
                group,
            ) ==> is_group(described(after.packets, group), group, group_name)
        }),
{
    if !s.emitted_tracks.contains(uuid) {
        lemma_top_track(s, group, group_name, now);
        let t = s.with_top_track(group, group_name, now);
        let middle = writer_model::WriterState {
            emitted_tracks: t.emitted_tracks.insert(uuid),
            tracks: t.tracks + 1,
            ..t
        };
        lemma_written(
            middle,
            writer_model::declaration(
                writer_model::member_track(uuid, group, group_name, name),
            ),
            now,
        );
    }
}

proof fn lemma_counted(
    s: writer_model::WriterState,
    t: int,
    name: Seq<char>,
    unit: i32,
    parent: Option<u64>,
    value: CounterValue,
    now: int,
)
    ensures
        silent(s.counted(t, name, unit, parent, value, now), s),
        forall|x: u64| #[trigger]
            described(s.counted(t, name, unit, parent, value, now).packets, x) == described(
                s.packets,
                x,
            ),
{
    reveal(writer_model::WriterState::counted);
    let d = s.with_counter_track(name, unit, parent, now);
    if !s.counter_tracks.contains_key(name) {
        let uuid = s.next_counter_uuid as u64;
        let middle = writer_model::WriterState {
            next_counter_uuid: s.next_counter_uuid + 1,
            counter_tracks: s.counter_tracks.insert(name, uuid),
            tracks: s.tracks + 1,
            ..s
        };
        lemma_written(
            middle,
            writer_model::declaration(writer_model::counter_track(uuid, name, unit, parent)),
            now,
        );
    }
    let p = writer_model::timed(t, writer_model::counter_event(d.counter_tracks[name], value));
    lemma_written(d, p, now);
}

proof fn lemma_bumped(
    s: writer_model::WriterState,
    t: int,
    name: Seq<char>,
    delta: int,
    now: int,
)
    ensures
        silent(s.bumped(t, name, delta, now), s),
        forall|x: u64|
            x != 0xFFFF_FFFF_0000_0006 ==> #[trigger] described(
                s.bumped(t, name, delta, now).packets,
                x,
            ) == described(s.packets, x),
{
    reveal(writer_model::WriterState::bumped);
    let top = s.with_top_track(spans::TRACK_SPAN_COUNTERS, "open spans"@, now);
    lemma_top_track(s, spans::TRACK_SPAN_COUNTERS, "open spans"@, now);
    lemma_counted(
        top,
        t,
        "spans: "@ + name,
        perfetto_proto::UNIT_COUNT,
        Some(spans::TRACK_SPAN_COUNTERS),
        CounterValue::Int((s.population(name) + delta) as i64),
        now,
    );
}

broadcast proof fn lemma_rated(
    s: writer_model::WriterState,
    t: SystemTime,
    name: Seq<char>,
    amount: u64,
    now: int,
)
    ensures
        silent(#[trigger] s.rated(t, name, amount, now), s),
{
    reveal(writer_model::WriterState::rated);
    if s.prev_rate.contains_key(name) && s.prev_rate[name].0@ < t@ {
        let (earlier, before) = s.prev_rate[name];
        let delta: nat = if amount < before {
            0
        } else {
            (amount - before) as nat
        };
        let bits = crate::binary64::bits_of(
            crate::binary64::per_second(delta, (t@ - earlier@) as nat),
        );
        lemma_counted(
            s,
            t@,
            name,
            perfetto_proto::UNIT_COUNT,
            None,
            CounterValue::Double(bits),
            now,
        );
    }
}

broadcast proof fn lemma_counted_ambient(
    s: writer_model::WriterState,
    t: int,
    name: Seq<char>,
    unit: i32,
    parent: Option<u64>,
    value: CounterValue,
    now: int,
)
    ensures
        silent(#[trigger] s.counted(t, name, unit, parent, value, now), s),
{
    lemma_counted(s, t, name, unit, parent, value, now);
}

proof fn lemma_nics(
    s: writer_model::WriterState,
    t: SystemTime,
    nics: Seq<NetworkInterfaceStats>,
    now: int,
)
    ensures
        silent(s.sampled_nics(t, nics, now), s),
    decreases nics.len(),
{
    broadcast use lemma_rated;

    if nics.len() > 0 {
        lemma_nics(s, t, nics.drop_last(), now);
    }
}

proof fn lemma_sampled(s: writer_model::WriterState, t: SystemTime, snapshot: Snapshot, now: int)
    ensures
        silent(s.sampled(t, snapshot, now), s),
{
    let sizes = s.sampled_sizes(t@, snapshot, now);
    let rates = sizes.sampled_rates(t, snapshot, now);
    assert(silent(sizes, s)) by {
        broadcast use lemma_counted_ambient;

    }
    assert(silent(rates, sizes)) by {
        broadcast use lemma_rated;

    }
    lemma_nics(rates, t, snapshot.network_interface_stats@, now);
}

proof fn lemma_marked(
    s: writer_model::WriterState,
    t: int,
    name: Seq<char>,
    annotations: Seq<perfetto_proto::DebugAnnotationModel>,
    now: int,
)
    ensures
        ({
            let after = s.marked(t, name, annotations, now);
            &&& slices(after.packets) == slices(s.packets)
            &&& begins(after.packets) == begins(s.packets)
            &&& grows(after, s)
            &&& marks(after.packets) == marks(s.packets).push(marks(after.packets).last())
            &&& is_mark(marks(after.packets).last(), t, name)
            &&& marks(after.packets).last().track_event->0.debug_annotations == annotations
        }),
{
    reveal(writer_model::WriterState::marked);
    let top = s.with_top_track(spans::TRACK_MISC, Category::Misc.name(), now);
    lemma_top_track(s, spans::TRACK_MISC, Category::Misc.name(), now);
    lemma_written(
        top,
        writer_model::timed(t, writer_model::instant_event(name, annotations)),
        now,
    );
}

proof fn lemma_sliced(
    s: writer_model::WriterState,
    start: int,
    end: int,
    uuid: u64,
    name: Seq<char>,
    correlation_id: Option<u64>,
    annotated: Seq<perfetto_proto::DebugAnnotationModel>,
    now: int,
)
    ensures
        ({
            let after = s.sliced(start, end, uuid, name, correlation_id, annotated, now).packets;
            &&& grows(s.sliced(start, end, uuid, name, correlation_id, annotated, now), s)
            &&& marks(after) == marks(s.packets)
            &&& slices(after) == slices(s.packets).push(slices(after).last())
            &&& begins(after) == begins(s.packets).push(slices(after).last().0)
            &&& is_slice(slices(after).last(), start, end, uuid, name, correlation_id)
            &&& annotations(slices(after).last()) == annotated
            &&& ends_trace(after, slices(after).last())
            &&& forall|x: u64| #[trigger] described(after, x) == described(s.packets, x)
        }),
{
    let b = writer_model::timed(
        start,
        writer_model::begin_event(uuid, name, correlation_id, annotated),
    );
    let e = writer_model::timed(end, writer_model::end_event(uuid, correlation_id));
    lemma_written(s, b, now);
    lemma_written(s.written(b, now), e, now);
}

proof fn lemma_with_slice(
    s: writer_model::WriterState,
    span: writer_model::OpenSpanModel,
    d: nat,
    now: int,
)
    ensures
        ({
            let after = s.with_slice(span, d, now);
            let drawn = !span.is_replaced() && d >= s.min_duration;
            &&& grows(after, s)
            &&& marks(after.packets) == marks(s.packets)
            &&& !drawn ==> slices(after.packets) == slices(s.packets) && begins(after.packets)
                == begins(s.packets)
            &&& drawn ==> {
                let slice = slices(after.packets).last();
                &&& slices(after.packets) == slices(s.packets).push(slice)
                &&& begins(after.packets) == begins(s.packets).push(slice.0)
                &&& is_slice(
                    slice,
                    span.start@,
                    span.start@ + d,
                    span.track_uuid,
                    span.slice_name(),
                    span.correlation_id(),
                )
                &&& annotations(slice) == span.slice_annotations()
                &&& ends_trace(after.packets, slice)
                &&& !s.emitted_tracks.contains(span.track_uuid) ==> {
                    let track = described(after.packets, span.track_uuid);
                    match span.role {
                        RoleModel::Stage { action_identity, is_waiting, .. } => if is_waiting {
                            is_member(
                                track,
                                span.track_uuid,
                                0xFFFF_FFFF_0000_0007,
                                "queued"@,
                                action_identity,
                            )
                        } else {
                            is_member(
                                track,
                                span.track_uuid,
                                0xFFFF_FFFF_0000_0001,
                                "actions"@,
                                action_identity,
                            )
                        },
                        _ => span.is_root ==> is_member(
                            track,
                            span.track_uuid,
                            span.category.group_uuid(),
                            span.category.name(),
                            span.name,
                        ),
                    }
                }
            }
            &&& !drawn || (!(span.role is Stage) && !span.is_root) ==> forall|x: u64| #[trigger]
                described(after.packets, x) == described(s.packets, x)
            &&& after.spans_emitted == s.spans_emitted + if drawn {
                1nat
            } else {
                0nat
            }
            &&& after.spans_dropped == s.spans_dropped + if !span.is_replaced() && !drawn {
                1nat
            } else {
                0nat
            }
        }),
{
    reveal(writer_model::WriterState::with_slice);
    if !span.is_replaced() && d >= s.min_duration {
        let counted = writer_model::WriterState { spans_emitted: s.spans_emitted + 1, ..s };
        let declared = counted.with_span_track(span, now);
        match span.role {
            RoleModel::Stage { action_identity, is_waiting, .. } => {
                if is_waiting {
                    lemma_member_track(
                        counted,
                        span.track_uuid,
                        spans::TRACK_QUEUED,
                        "queued"@,
                        action_identity,
                        now,
                    );
                } else {
                    lemma_member_track(
                        counted,
                        span.track_uuid,
                        Category::Actions.group_uuid(),
                        Category::Actions.name(),
                        action_identity,
                        now,
                    );
                }
            },
            _ => {
                lemma_member_track(
                    counted,
                    span.track_uuid,
                    span.category.group_uuid(),
                    span.category.name(),
                    span.name,
                    now,
                );
            },
        }
        assert(silent(declared, counted));
        assert(silent(counted, s));
        lemma_sliced(
            declared,
            span.start@,
            span.start@ + d,
            span.track_uuid,
            span.slice_name(),
            span.correlation_id(),
            span.slice_annotations(),
            now,
        );
    }
}

proof fn lemma_start_silent(
    s: writer_model::WriterState,
    event: BuckEvent,
    start: SpanStart,
    now: int,
)
    ensures
        silent(s.after_start(event, start, now).0, s),
{
    if let Some(id) = event.span_id {
        let seen = writer_model::WriterState { spans_seen: s.spans_seen + 1, ..s };
        let begun = if start is Command {
            writer_model::WriterState { command_start: Some(event.timestamp), ..seen }
        } else {
            seen
        };
        if let Some(counter) = spans::population_counter(start) {
            lemma_bumped(begun, event.timestamp@, counter, 1, now);
        }
    }
}

proof fn lemma_failure(
    s: writer_model::WriterState,
    t: int,
    materialization: Option<Materialization>,
    now: int,
)
    ensures
        ({
            let after = s.with_failure(t, materialization, now);
            &&& slices(after.packets) == slices(s.packets)
            &&& begins(after.packets) == begins(s.packets)
            &&& grows(after, s)
            &&& marks_failure(after.packets, s.packets, t, materialization)
        }),
{
    reveal(writer_model::WriterState::with_failure);
    if let Some(m) = materialization {
        if !m.success {
            lemma_marked(
                s,
                t,
                "materialization_failure"@,
                writer_model::failure_annotations(m),
                now,
            );
        }
    }
}

/// Whether the marks are those before and, where the materialization failed, one that says
/// what it was about and why.
pub open spec fn marks_failure(
    after: Seq<perfetto_proto::TracePacketModel>,
    before: Seq<perfetto_proto::TracePacketModel>,
    t: int,
    materialization: Option<Materialization>,
) -> bool {
    if materialization is Some && !materialization->0.success {
        let m = materialization->0;
        let mark = marks(after).last();
        let said = mark.track_event->0.debug_annotations;
        &&& marks(after) == marks(before).push(mark)
        &&& is_mark(mark, t, "materialization_failure"@)
        &&& said.len() == 4
        &&& is_text(said[0], "path"@, m.path@)
        &&& is_number(said[1], "file_count"@, m.file_count)
        &&& is_number(said[2], "total_bytes"@, m.total_bytes)
        &&& m.error matches Some(e) ==> is_text(said[3], "error"@, e@)
        &&& m.error is None ==> is_text(said[3], "error"@, seq![])
    } else {
        marks(after) == marks(before)
    }
}

/// The end of a span: what is marked, and what is drawn of the span that was open.
proof fn lemma_end(s: writer_model::WriterState, event: BuckEvent, id: u64, now: int)
    requires
        event.data is SpanEnd,
        event.span_id == Some(id),
    ensures
        ({
            let end = event.data->SpanEnd_0;
            let after = s.handled(event, now).0;
            let open = s.open_spans.contains_key(id);
            let span = s.open_spans[id];
            let timed = end.duration matches Some(Ok(_));
            let d = end.duration->0->Ok_0@;
            let drawn = open && timed && !span.is_replaced() && d >= s.min_duration;
            &&& grows(after, s)
            &&& marks_failure(after.packets, s.packets, event.timestamp@, end.materialization)
            &&& !drawn ==> slices(after.packets) == slices(s.packets) && begins(after.packets)
                == begins(s.packets)
            &&& drawn ==> {
                let slice = slices(after.packets).last();
                &&& slices(after.packets) == slices(s.packets).push(slice)
                &&& begins(after.packets) == begins(s.packets).push(slice.0)
                &&& is_slice(
                    slice,
                    span.start@,
                    span.start@ + d,
                    span.track_uuid,
                    span.slice_name(),
                    span.correlation_id(),
                )
                &&& annotations(slice) == span.slice_annotations()
                &&& ends_trace(after.packets, slice)
            }
            &&& after.spans_emitted == s.spans_emitted + if drawn {
                1nat
            } else {
                0nat
            }
            &&& after.spans_dropped == s.spans_dropped + if open && timed && !span.is_replaced()
                && !drawn {
                1nat
            } else {
                0nat
            }
        }),
{
    let end = event.data->SpanEnd_0;
    let t = event.timestamp@;
    let failed = s.with_failure(t, end.materialization, now);
    lemma_failure(s, t, end.materialization, now);
    writer_model::lemma_end_frame(s, end.materialization, id, t, now);
    let counted = failed.without_counted_span(id, t, now);
    if failed.span_counter_open.contains_key(id) {
        let without = writer_model::WriterState {
            span_counter_open: failed.span_counter_open.remove(id),
            ..failed
        };
        lemma_bumped(without, t, failed.span_counter_open[id], -1, now);
        writer_model::lemma_bumped_frame(without, t, failed.span_counter_open[id], -1, now);
        assert(silent(without, failed));
        assert(silent(counted, without));
    }
    assert(silent(counted, failed));
    assert(counted.open_spans == s.open_spans);
    if counted.open_spans.contains_key(id) {
        let closed = writer_model::WriterState {
            open_spans: counted.open_spans.remove(id),
            ..counted
        };
        assert(silent(closed, counted));
        if let Some(Ok(d)) = end.duration {
            lemma_with_slice(closed, counted.open_spans[id], d@, now);
        }
    }
}

/// The name under which the span that the event starts is drawn. A stage in which an action
/// waits or executes bears the name of the action, and for a wait elsewhere than in the
/// local queue what it waits for; every other span bears its own.
pub open spec fn drawn_name(before: Seq<(BuckEvent, int)>, event: BuckEvent) -> Seq<char> {
    let action = own_name(before[around(before, event)->0].0);
    if is_stage_of_action(before, event) && waits(event) {
        if own_name(event) == "local_queued"@ {
            action
        } else {
            action + " ("@ + own_name(event) + ")"@
        }
    } else if is_stage_of_action(before, event) && executes(event) {
        action
    } else {
        own_name(event)
    }
}

/// Whether the span that is open since place `k` is an action that had a stage: its stages
/// are drawn in its place.
pub open spec fn is_replaced(events: Seq<(BuckEvent, int)>, k: int, id: u64) -> bool {
    is_action(events[k].0) && had_stage(events, k, id)
}

/// The end of a span draws one slice exactly if the span is open, the end says how long it
/// took, that is not too short, and no executor stage was started directly in it if it is
/// an action. The slice begins when the span started, lasts as long as it took, and stands
/// on the track and under the name that the events before the start gave it. It says which
/// span it is of and, for a stage of an action, of which action, which also links the
/// slices of one action. It is the last that the event writes. A failed materialization is
/// marked in any case.
pub proof fn law_span_end_draws_its_slice(
    min_duration: nat,
    events: Seq<(BuckEvent, int)>,
    event: BuckEvent,
    id: u64,
    now: int,
)
    requires
        event.data is SpanEnd,
        event.span_id == Some(id),
    ensures
        ({
            let end = event.data->SpanEnd_0;
            let before = writer_laws::after_events(min_duration, events);
            let after = writer_laws::after_events(min_duration, events.push((event, now)));
            let k = open_since(events, id)->0;
            let own = events[k].0;
            let history = events.take(k);
            let timed = end.duration matches Some(Ok(_));
            let d = end.duration->0->Ok_0@;
            let counts = open_since(events, id) is Some && timed && !is_replaced(events, k, id);
            let slice = slices(after.packets).last();
            let said = annotations(slice);
            &&& marks_failure(after.packets, before.packets, event.timestamp@, end.materialization)
            &&& !(counts && d >= min_duration) ==> slices(after.packets) == slices(before.packets)
                && begins(after.packets) == begins(before.packets) && after.spans_emitted
                == before.spans_emitted
            &&& counts && d >= min_duration ==> {
                &&& slices(after.packets) == slices(before.packets).push(slice)
                &&& begins(after.packets) == begins(before.packets).push(slice.0)
                &&& after.spans_emitted == before.spans_emitted + 1
                &&& ends_trace(after.packets, slice)
                &&& is_slice(
                    slice,
                    own.timestamp@,
                    own.timestamp@ + d,
                    track(history, own),
                    drawn_name(history, own),
                    if is_stage_of_action(history, own) {
                        own.parent_id
                    } else {
                        None
                    },
                )
                &&& said.len() == if is_stage_of_action(history, own) {
                    3nat
                } else {
                    1nat
                }
                &&& is_number(said[0], "span_id"@, id)
                &&& is_stage_of_action(history, own) ==> is_text(
                    said[1],
                    "action"@,
                    own_name(history[around(history, own)->0].0),
                ) && is_number(said[2], "action_span_id"@, own.parent_id->0)
            }
            &&& after.spans_dropped == before.spans_dropped + if counts && d < min_duration {
                1nat
            } else {
                0nat
            }
        }),
{
    let before = writer_laws::after_events(min_duration, events);
    assert(events.push((event, now)).drop_last() =~= events);
    lemma_told(min_duration, events);
    lemma_open_since(events, id);
    lemma_end(before, event, id, now);
    assert(before.open_spans.contains_key(id) <==> open_since(events, id) is Some);
    if let Some(k) = open_since(events, id) {
        let span = before.open_spans[id];
        assert(span_is_told(span, events, k, id));
        let after = before.handled(event, now).0;
        let history = events.take(k);
        assert(span.slice_name() == drawn_name(history, events[k].0));
        if is_stage_of_action(history, events[k].0) {
            assert(span.slice_annotations().len() == 3);
        }
    }
}

/// An action that is long enough gets a slice of its own if and only if no executor stage
/// was started with it as direct parent while it was open.
pub proof fn law_action_is_drawn_unless_its_stages_are(
    min_duration: nat,
    events: Seq<(BuckEvent, int)>,
    event: BuckEvent,
    id: u64,
    now: int,
)
    requires
        open_since(events, id) is Some,
        is_action(events[open_since(events, id)->0].0),
        event.span_id == Some(id),
        event.data is SpanEnd,
        event.data->SpanEnd_0.duration is Some,
        event.data->SpanEnd_0.duration->0 is Ok,
        event.data->SpanEnd_0.duration->0->Ok_0@ >= min_duration,
    ensures
        ({
            let before = writer_laws::after_events(min_duration, events).packets;
            let after = writer_laws::after_events(min_duration, events.push((event, now))).packets;
            let staged = exists|j: int|
                open_since(events, id)->0 < j < events.len() && is_stage((#[trigger] events[j]).0)
                    && events[j].0.span_id is Some && events[j].0.parent_id == Some(id);
            &&& staged ==> slices(after) == slices(before) && begins(after) == begins(before)
            &&& !staged ==> slices(after).len() == slices(before).len() + 1
                && slices(after).last().0.track_event->0.name == Some(
                own_name(events[open_since(events, id)->0].0),
            )
        }),
{
    let k = open_since(events, id)->0;
    law_span_end_draws_its_slice(min_duration, events, event, id, now);
    assert(!is_stage(events[k].0));
}

/// The start of a span, and everything that is neither the end of a span nor the critical
/// path, draws no slice. Only a preempted command is marked.
pub proof fn law_other_events_draw_nothing(
    min_duration: nat,
    events: Seq<(BuckEvent, int)>,
    event: BuckEvent,
    now: int,
)
    requires
        !(event.data is SpanEnd && event.span_id is Some),
        !(event.data matches EventData::Instant(Some(Instant::BuildGraphInfo(_)))),
    ensures
        ({
            let before = writer_laws::after_events(min_duration, events).packets;
            let after = writer_laws::after_events(min_duration, events.push((event, now))).packets;
            let preempted = event.data matches EventData::Instant(Some(Instant::CommandPreempted));
            &&& slices(after) == slices(before)
            &&& begins(after) == begins(before)
            &&& !preempted ==> marks(after) == marks(before)
            &&& preempted ==> {
                let mark = marks(after).last();
                &&& marks(after) == marks(before).push(mark)
                &&& is_mark(mark, event.timestamp@, "command_preempted"@)
                &&& mark.track_event->0.debug_annotations.len() == 0
            }
        }),
{
    let before = writer_laws::after_events(min_duration, events);
    assert(events.push((event, now)).drop_last() =~= events);
    match event.data {
        EventData::SpanStart(Some(start)) => lemma_start_silent(before, event, start, now),
        EventData::Instant(Some(Instant::Snapshot(snapshot))) => {
            lemma_sampled(before, event.timestamp, snapshot, now);
        },
        EventData::Instant(Some(Instant::CommandPreempted)) => {
            lemma_marked(before, event.timestamp@, "command_preempted"@, seq![], now);
        },
        _ => {},
    }
}

// The critical path.

/// How long an entry of the critical path took, on the path and off it.
pub open spec fn entry_length(entry: PathEntry) -> nat {
    (if entry.total_duration is Some {
        entry.total_duration->0@
    } else {
        0
    }) + (if entry.non_critical_path_duration is Some {
        entry.non_critical_path_duration->0@
    } else {
        0
    })
}

/// How long after the start of the command the entry starts.
pub open spec fn entry_offset(entry: PathEntry) -> nat {
    if entry.start_offset_ns is Some {
        entry.start_offset_ns->0 as nat
    } else {
        0
    }
}

/// Whether the entry takes a millisecond and has no name.
pub open spec fn entry_fails(entry: PathEntry) -> bool {
    entry_length(entry) >= 1_000_000 && entry.display is Err
}

/// The entries that are drawn: those that take a millisecond and are shown, up to the first
/// one that has no name.
pub open spec fn drawn_entries(entries: Seq<PathEntry>) -> Seq<PathEntry>
    decreases entries.len(),
{
    if entries.len() == 0 {
        seq![]
    } else {
        let rest = drawn_entries(entries.drop_last());
        let entry = entries.last();
        if (exists|i: int| 0 <= i < entries.len() && entry_fails(#[trigger] entries[i]))
            || entry_length(entry) < 1_000_000 || entry.display->Ok_0 is None {
            rest
        } else {
            rest.push(entry)
        }
    }
}

/// The entries that are drawn do not change once one has no name.
pub proof fn law_nothing_is_drawn_behind_a_failure(entries: Seq<PathEntry>, i: int)
    requires
        0 <= i < entries.len(),
        entry_fails(entries[i]),
    ensures
        drawn_entries(entries) == drawn_entries(entries.take(i)),
    decreases entries.len(),
{
    let init = entries.drop_last();
    if i == entries.len() - 1 {
        assert(entries.take(i) =~= init);
    } else {
        assert(init[i] == entries[i]);
        law_nothing_is_drawn_behind_a_failure(init, i);
        assert(init.take(i) =~= entries.take(i));
    }
}

proof fn lemma_path(s: writer_model::WriterState, t: int, entries: Seq<PathEntry>, now: int)
    ensures
        ({
            let (after, error) = s.with_path_slices(t, entries, now);
            let drawn = drawn_entries(entries);
            let all = slices(after.packets);
            let old_count = slices(s.packets).len() as int;
            &&& grows(after, s)
            &&& marks(after.packets) == marks(s.packets)
            &&& all.len() == old_count + drawn.len()
            &&& begins(after.packets).len() == begins(s.packets).len() + drawn.len()
            &&& all.take(old_count) == slices(s.packets)
            &&& forall|i: int|
                0 <= i < drawn.len() ==> is_path_slice(#[trigger] all[old_count + i], t, drawn[i])
            &&& after.critical_path_slices == s.critical_path_slices + drawn.len()
            &&& error is Some <==> exists|i: int|
                0 <= i < entries.len() && entry_fails(#[trigger] entries[i])
        }),
    decreases entries.len(),
{
    if entries.len() > 0 {
        let init = entries.drop_last();
        let entry = entries.last();
        lemma_path(s, t, init, now);
        let (u, failed) = s.with_path_slices(t, init, now);
        assert(entry_length(entry) == writer_model::path_nanos(entry));
        assert(entry_offset(entry) == writer_model::path_offset(entry));
        assert(entries[entries.len() - 1] == entry);
        if exists|i: int| 0 <= i < init.len() && entry_fails(#[trigger] init[i]) {
            let i = choose|i: int| 0 <= i < init.len() && entry_fails(#[trigger] init[i]);
            assert(entries[i] == init[i]);
        } else {
            if !entry_fails(entry) {
                assert forall|i: int| 0 <= i < entries.len() implies !entry_fails(
                    #[trigger] entries[i],
                ) by {
                    if i < init.len() {
                        assert(init[i] == entries[i]);
                    }
                }
            }
            if entry_length(entry) >= 1_000_000 {
                if let Ok(Some(name)) = entry.display {
                    let start = t + entry_offset(entry);
                    lemma_sliced(
                        u,
                        start,
                        start + entry_length(entry),
                        spans::TRACK_CRITICAL_PATH,
                        name@,
                        None,
                        seq![],
                        now,
                    );
                    let after = s.with_path_slices(t, entries, now).0;
                    let old_count = slices(s.packets).len() as int;
                    let drawn = drawn_entries(entries);
                    assert(slices(after.packets).take(old_count) =~= slices(u.packets).take(
                        old_count,
                    ));
                    assert forall|i: int| 0 <= i < drawn.len() implies is_path_slice(
                        #[trigger] slices(after.packets)[old_count + i],
                        t,
                        drawn[i],
                    ) by {
                        if i < drawn.len() - 1 {
                            assert(slices(after.packets)[old_count + i] == slices(
                                u.packets,
                            )[old_count + i]);
                        }
                    }
                }
            }
        }
    } else {
        assert(slices(s.packets).take(slices(s.packets).len() as int) =~= slices(s.packets));
    }
}

/// Whether the slice is that of an entry of the critical path of a command that started at
/// `t`.
pub open spec fn is_path_slice(
    slice: (perfetto_proto::TracePacketModel, perfetto_proto::TracePacketModel),
    t: int,
    entry: PathEntry,
) -> bool {
    &&& is_slice(
        slice,
        t + entry_offset(entry),
        t + entry_offset(entry) + entry_length(entry),
        0xFFFF_FFFF_0000_0005,
        entry.display->Ok_0->0@,
        None,
    )
    &&& annotations(slice).len() == 0
}

/// The critical path is drawn on its own track, from the start of the last command on: one
/// slice for each entry that takes a millisecond, on the path and off it together, and is
/// shown, up to the first such entry that has no name. The track is declared even where there
/// is none. Without a command nothing is drawn.
pub proof fn law_critical_path_is_drawn(
    min_duration: nat,
    events: Seq<(BuckEvent, int)>,
    event: BuckEvent,
    now: int,
)
    requires
        event.data is Instant,
        event.data->Instant_0 is Some,
        event.data->Instant_0->0 is BuildGraphInfo,
    ensures
        ({
            let entries = (event.data->Instant_0->0->BuildGraphInfo_0)@;
            let before = writer_laws::after_events(min_duration, events);
            let after = writer_laws::after_events(min_duration, events.push((event, now)));
            let all = slices(after.packets);
            let old_count = slices(before.packets).len() as int;
            let drawn = drawn_entries(entries);
            &&& marks(after.packets) == marks(before.packets)
            &&& last_command(events) is None ==> after.packets == before.packets
            &&& last_command(events) matches Some(t) ==> {
                &&& described(after.packets, 0xFFFF_FFFF_0000_0005) is Some
                &&& all.len() == old_count + drawn.len()
                &&& all.take(old_count) == slices(before.packets)
                &&& forall|i: int|
                    0 <= i < drawn.len() ==> is_path_slice(
                        #[trigger] all[old_count + i],
                        t@,
                        drawn[i],
                    )
                &&& after.critical_path_slices == before.critical_path_slices + drawn.len()
            }
        }),
{
    let entries = (event.data->Instant_0->0->BuildGraphInfo_0)@;
    let before = writer_laws::after_events(min_duration, events);
    assert(events.push((event, now)).drop_last() =~= events);
    lemma_told(min_duration, events);
    lemma_all_described(min_duration, events);
    if let Some(t) = before.command_start {
        let top = before.with_top_track(spans::TRACK_CRITICAL_PATH, "critical path"@, now);
        lemma_top_track(before, spans::TRACK_CRITICAL_PATH, "critical path"@, now);
        assert(described(top.packets, 0xFFFF_FFFF_0000_0005) is Some);
        lemma_path(top, t@, entries, now);
    }
}

// The tracks of spans.

/// Whether every track that counts as declared is described.
spec fn all_described(s: writer_model::WriterState) -> bool {
    forall|uuid: u64| #[trigger]
        s.emitted_tracks.contains(uuid) ==> described(s.packets, uuid) is Some
}

proof fn lemma_grows(s: writer_model::WriterState, event: BuckEvent, now: int)
    ensures
        grows(s.handled(event, now).0, s),
{
    match event.data {
        EventData::SpanStart(Some(start)) => lemma_start_silent(s, event, start, now),
        EventData::SpanEnd(end) => {
            if let Some(id) = event.span_id {
                lemma_end(s, event, id, now);
            }
        },
        EventData::Instant(Some(Instant::Snapshot(snapshot))) => {
            lemma_sampled(s, event.timestamp, snapshot, now);
        },
        EventData::Instant(Some(Instant::CommandPreempted)) => {
            lemma_marked(s, event.timestamp@, "command_preempted"@, seq![], now);
        },
        EventData::Instant(Some(Instant::BuildGraphInfo(entries))) => {
            if let Some(t) = s.command_start {
                let top = s.with_top_track(spans::TRACK_CRITICAL_PATH, "critical path"@, now);
                lemma_top_track(s, spans::TRACK_CRITICAL_PATH, "critical path"@, now);
                lemma_path(top, t@, entries@, now);
            }
        },
        _ => {},
    }
}

proof fn lemma_all_described(min_duration: nat, events: Seq<(BuckEvent, int)>)
    ensures
        all_described(writer_laws::after_events(min_duration, events)),
    decreases events.len(),
{
    if events.len() > 0 {
        lemma_all_described(min_duration, events.drop_last());
        lemma_grows(
            writer_laws::after_events(min_duration, events.drop_last()),
            events.last().0,
            events.last().1,
        );
    }
}

/// The group under which a span is shown: its uuid and its name.
pub open spec fn group_of(category: Category) -> (u64, Seq<char>) {
    match category {
        Category::Actions => (0xFFFF_FFFF_0000_0001, "actions"@),
        Category::Analysis => (0xFFFF_FFFF_0000_0002, "analysis"@),
        Category::Loads => (0xFFFF_FFFF_0000_0003, "loads"@),
        Category::Misc => (0xFFFF_FFFF_0000_0004, "misc"@),
    }
}

/// Where the end of a span draws a slice on a track that is not described yet, the track is
/// now. A stage of an action stands on a track under the name of the action: in the group
/// of the actions, or in that of the queues while the action waits. A span with none around
/// it stands on a track under its own name, in its group.
pub proof fn law_new_tracks_are_described(
    min_duration: nat,
    events: Seq<(BuckEvent, int)>,
    event: BuckEvent,
    id: u64,
    now: int,
)
    requires
        open_since(events, id) is Some,
        event.span_id == Some(id),
        event.data is SpanEnd,
        event.data->SpanEnd_0.duration is Some,
        event.data->SpanEnd_0.duration->0 is Ok,
        event.data->SpanEnd_0.duration->0->Ok_0@ >= min_duration,
        !is_replaced(events, open_since(events, id)->0, id),
        event.data->SpanEnd_0.materialization is None,
        described(
            writer_laws::after_events(min_duration, events).packets,
            track(events.take(open_since(events, id)->0), events[open_since(events, id)->0].0),
        ) is None,
        track(events.take(open_since(events, id)->0), events[open_since(events, id)->0].0)
            != 0xFFFF_FFFF_0000_0006,
    ensures
        ({
            let after = writer_laws::after_events(min_duration, events.push((event, now))).packets;
            let k = open_since(events, id)->0;
            let own = events[k].0;
            let history = events.take(k);
            let uuid = track(history, own);
            let action = own_name(history[around(history, own)->0].0);
            let (group, group_name) = group_of(own_category(own));
            &&& is_stage_of_action(history, own) && waits(own) ==> is_member(
                described(after, uuid),
                uuid,
                0xFFFF_FFFF_0000_0007,
                "queued"@,
                action,
            )
            &&& is_stage_of_action(history, own) && !waits(own) ==> is_member(
                described(after, uuid),
                uuid,
                0xFFFF_FFFF_0000_0001,
                "actions"@,
                action,
            )
            &&& around(history, own) is None ==> is_member(
                described(after, uuid),
                uuid,
                group,
                group_name,
                own_name(own),
            )
        }),
{
    let s = writer_laws::after_events(min_duration, events);
    assert(events.push((event, now)).drop_last() =~= events);
    lemma_told(min_duration, events);
    lemma_all_described(min_duration, events);
    lemma_open_since(events, id);
    let k = open_since(events, id)->0;
    let end = event.data->SpanEnd_0;
    let t = event.timestamp@;
    let span = s.open_spans[id];
    assert(s.open_spans.contains_key(id));
    assert(span_is_told(span, events, k, id));
    reveal(writer_model::WriterState::with_failure);
    assert(s.with_failure(t, end.materialization, now) == s);
    let counted = s.without_counted_span(id, t, now);
    writer_model::lemma_end_frame(s, end.materialization, id, t, now);
    if s.span_counter_open.contains_key(id) {
        let without = writer_model::WriterState {
            span_counter_open: s.span_counter_open.remove(id),
            ..s
        };
        lemma_bumped_tracks(without, t, s.span_counter_open[id], -1, now);
    }
    assert(!counted.emitted_tracks.contains(span.track_uuid));
    let closed = writer_model::WriterState { open_spans: counted.open_spans.remove(id), ..counted };
    lemma_with_slice(closed, span, end.duration->0->Ok_0@, now);
}

/// The end of a span that is neither a stage of an action nor without a span around it
/// declares no track, whether or not it is drawn: it stands on a track that others declare.
/// Only the group of the counters of open spans may be new.
pub proof fn law_inner_spans_declare_nothing(
    min_duration: nat,
    events: Seq<(BuckEvent, int)>,
    event: BuckEvent,
    id: u64,
    now: int,
    uuid: u64,
)
    requires
        open_since(events, id) is Some,
        event.span_id == Some(id),
        event.data is SpanEnd,
        event.data->SpanEnd_0.materialization is None,
        !is_stage_of_action(
            events.take(open_since(events, id)->0),
            events[open_since(events, id)->0].0,
        ),
        around(
            events.take(open_since(events, id)->0),
            events[open_since(events, id)->0].0,
        ) is Some,
        uuid != 0xFFFF_FFFF_0000_0006,
    ensures
        described(
            writer_laws::after_events(min_duration, events.push((event, now))).packets,
            uuid,
        ) == described(writer_laws::after_events(min_duration, events).packets, uuid),
{
    let s = writer_laws::after_events(min_duration, events);
    assert(events.push((event, now)).drop_last() =~= events);
    lemma_told(min_duration, events);
    lemma_open_since(events, id);
    let k = open_since(events, id)->0;
    let end = event.data->SpanEnd_0;
    let t = event.timestamp@;
    let span = s.open_spans[id];
    assert(s.open_spans.contains_key(id));
    assert(span_is_told(span, events, k, id));
    reveal(writer_model::WriterState::with_failure);
    assert(s.with_failure(t, end.materialization, now) == s);
    writer_model::lemma_end_frame(s, end.materialization, id, t, now);
    let counted = s.without_counted_span(id, t, now);
    if s.span_counter_open.contains_key(id) {
        let without = writer_model::WriterState {
            span_counter_open: s.span_counter_open.remove(id),
            ..s
        };
        lemma_bumped(without, t, s.span_counter_open[id], -1, now);
    }
    assert(described(counted.packets, uuid) == described(s.packets, uuid));
    let closed = writer_model::WriterState { open_spans: counted.open_spans.remove(id), ..counted };
    if let Some(Ok(d)) = end.duration {
        lemma_with_slice(closed, span, d@, now);
        assert(described(closed.with_slice(span, d@, now).packets, uuid) == described(
            closed.packets,
            uuid,
        ));
    }
}

proof fn lemma_bumped_tracks(
    s: writer_model::WriterState,
    t: int,
    name: Seq<char>,
    delta: int,
    now: int,
)
    ensures
        forall|uuid: u64| #[trigger]
            s.bumped(t, name, delta, now).emitted_tracks.contains(uuid)
                ==> s.emitted_tracks.contains(uuid) || uuid == 0xFFFF_FFFF_0000_0006,
{
    reveal(writer_model::WriterState::bumped);
    reveal(writer_model::WriterState::counted);
}

// An action with a stage.

/// Once an executor stage, whatever the stage, starts directly in an open action, a later
/// end of the action draws nothing: whatever else happens in between, as long as the action
/// is not started again.
pub proof fn law_staged_action_is_not_drawn(
    s: writer_model::WriterState,
    stage: BuckEvent,
    now: int,
    between: Seq<(BuckEvent, int)>,
    end: BuckEvent,
    later: int,
)
    requires
        is_stage(stage),
        stage.span_id is Some,
        stage.parent_id is Some,
        stage.span_id != stage.parent_id,
        s.open_spans.contains_key(stage.parent_id->0),
        s.open_spans[stage.parent_id->0].role is Action,
        forall|i: int|
            0 <= i < between.len() ==> !starts((#[trigger] between[i]).0, stage.parent_id->0)
                && !ends(between[i].0, stage.parent_id->0),
        ends(end, stage.parent_id->0),
    ensures
        ({
            let started = s.handled(stage, now).0;
            let before = crate::counter_laws::after_more(started, between);
            let after = before.handled(end, later).0;
            &&& before.open_spans.contains_key(stage.parent_id->0)
            &&& slices(after.packets) == slices(before.packets)
            &&& begins(after.packets) == begins(before.packets)
            &&& after.spans_emitted == before.spans_emitted
            &&& after.spans_dropped == before.spans_dropped
        }),
{
    let p = stage.parent_id->0;
    let id = stage.span_id->0;
    let start = start_of(stage)->0;
    let t = stage.timestamp@;
    let started = s.handled(stage, now).0;
    let seen = writer_model::WriterState { spans_seen: s.spans_seen + 1, ..s };
    if let Some(counter) = spans::population_counter(start) {
        writer_model::lemma_bumped_frame(seen, t, counter, 1, now);
    }
    assert(started.open_spans.contains_key(p) && started.open_spans[p].is_replaced());
    lemma_stays_replaced(started, between, p);
    let before = crate::counter_laws::after_more(started, between);
    lemma_end(before, end, p, later);
}

proof fn lemma_stays_replaced(
    s: writer_model::WriterState,
    events: Seq<(BuckEvent, int)>,
    p: u64,
)
    requires
        s.open_spans.contains_key(p),
        s.open_spans[p].is_replaced(),
        forall|i: int|
            0 <= i < events.len() ==> !starts((#[trigger] events[i]).0, p) && !ends(events[i].0, p),
    ensures
        ({
            let after = crate::counter_laws::after_more(s, events);
            after.open_spans.contains_key(p) && after.open_spans[p].is_replaced()
        }),
    decreases events.len(),
{
    if events.len() > 0 {
        let init = events.drop_last();
        let (event, now) = events.last();
        assert forall|i: int| 0 <= i < init.len() implies !starts((#[trigger] init[i]).0, p)
            && !ends(init[i].0, p) by {
            assert(init[i] == events[i]);
        }
        lemma_stays_replaced(s, init, p);
        let u = crate::counter_laws::after_more(s, init);
        assert(events[events.len() - 1] == (event, now));
        assert(!starts(event, p) && !ends(event, p));
        match event.data {
            EventData::SpanStart(Some(start)) => {
                if let Some(id) = event.span_id {
                    let seen = writer_model::WriterState { spans_seen: u.spans_seen + 1, ..u };
                    let begun = if start is Command {
                        writer_model::WriterState {
                            command_start: Some(event.timestamp),
                            ..seen
                        }
                    } else {
                        seen
                    };
                    if let Some(counter) = spans::population_counter(start) {
                        writer_model::lemma_bumped_frame(
                            begun,
                            event.timestamp@,
                            counter,
                            1,
                            now,
                        );
                    }
                }
            },
            EventData::SpanEnd(end) => {
                if let Some(id) = event.span_id {
                    span_laws::lemma_end(u, event, end, id, now);
                }
            },
            EventData::Instant(Some(instant)) => span_laws::lemma_instant(u, event, instant, now),
            _ => {},
        }
    }
}

} // verus!
