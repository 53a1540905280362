//! How the writer accounts for spans.

use vstd::prelude::*;

use crate::events::BuckEvent;
use crate::events::EventData;
use crate::events::Instant;
use crate::events::NetworkInterfaceStats;
use crate::events::PathEntry;
use crate::events::Snapshot;
use crate::events::SpanEnd;
use crate::events::SpanStart;
use crate::spans;
use crate::spans::TRACK_CRITICAL_PATH;
use crate::time::SystemTime;
use crate::writer_laws;
use crate::writer_model;

verus! {

/// The span that an event starts, and the counter that it adds to, if it adds to one.
pub open spec fn counted_start(event: BuckEvent) -> Option<(u64, Seq<char>)> {
    match (event.data, event.span_id) {
        (EventData::SpanStart(Some(start)), Some(id)) => {
            match (spans::name_and_category(start), spans::population_counter(start)) {
                (Ok(_), Some(name)) => Some((id, name)),
                _ => None,
            }
        },
        _ => None,
    }
}

/// The span that an event ends, if it ends one.
pub open spec fn ended(event: BuckEvent) -> Option<u64> {
    match event.data {
        EventData::SpanEnd(_) => event.span_id,
        _ => None,
    }
}

/// The open spans that are counted under a name.
pub open spec fn counted_under(s: writer_model::WriterState, name: Seq<char>) -> Set<u64> {
    s.span_counter_open.dom().filter(|id: u64| s.span_counter_open[id] == name)
}

/// Every counter is at least the number of open spans that have added to it.
pub open spec fn population_covers_open(s: writer_model::WriterState) -> bool {
    &&& s.span_counter_open.dom().finite()
    &&& forall|name: Seq<char>| #[trigger] s.population(name) >= counted_under(s, name).len()
}

/// Every counter is the number of open spans that have added to it.
pub open spec fn population_is_open(s: writer_model::WriterState) -> bool {
    &&& s.span_counter_open.dom().finite()
    &&& forall|name: Seq<char>| #[trigger] s.population(name) == counted_under(s, name).len()
}

/// Every span that was seen is open or has ended, and at most one slice was written
/// or left out for it.
pub open spec fn spans_balanced(s: writer_model::WriterState) -> bool {
    &&& s.open_spans.dom().finite()
    &&& s.spans_emitted + s.spans_dropped + s.open_spans.dom().len() <= s.spans_seen
}

/// Only packets, tracks, counters and the critical path differ.
pub open spec fn spans_untouched(after: writer_model::WriterState, before: writer_model::WriterState) -> bool {
    &&& after.min_duration == before.min_duration
    &&& after.open_spans == before.open_spans
    &&& after.span_counter_open == before.span_counter_open
    &&& after.span_counter_values == before.span_counter_values
    &&& after.spans_seen == before.spans_seen
    &&& after.spans_emitted == before.spans_emitted
    &&& after.spans_dropped == before.spans_dropped
    &&& after.counts_from(before)
}

proof fn lemma_sampled_nics(
    s: writer_model::WriterState,
    t: SystemTime,
    nics: Seq<NetworkInterfaceStats>,
    now: int,
)
    ensures
        spans_untouched(s.sampled_nics(t, nics, now), s),
    decreases nics.len(),
{
    broadcast use writer_model::lemma_rated_grows;
    broadcast use writer_model::lemma_rated_frame;

    if nics.len() > 0 {
        lemma_sampled_nics(s, t, nics.drop_last(), now);
    }
}

proof fn lemma_sampled(
    s: writer_model::WriterState,
    t: SystemTime,
    snapshot: Snapshot,
    now: int,
)
    ensures
        spans_untouched(s.sampled(t, snapshot, now), s),
{
    let sizes = s.sampled_sizes(t@, snapshot, now);
    let rates = sizes.sampled_rates(t, snapshot, now);
    assert(spans_untouched(sizes, s)) by {
        broadcast use writer_model::lemma_counted_grows;
        broadcast use writer_model::lemma_counted_frame;

    }
    assert(spans_untouched(rates, sizes)) by {
        broadcast use writer_model::lemma_rated_grows;
        broadcast use writer_model::lemma_rated_frame;

    }
    lemma_sampled_nics(rates, t, snapshot.network_interface_stats@, now);
}

proof fn lemma_path_slices(
    s: writer_model::WriterState,
    t: int,
    entries: Seq<PathEntry>,
    now: int,
)
    ensures
        spans_untouched(s.with_path_slices(t, entries, now).0, s),
    decreases entries.len(),
{
    if entries.len() > 0 {
        lemma_path_slices(s, t, entries.drop_last(), now);
    }
}

/// What happens at one moment leaves the accounts alone.
pub proof fn lemma_instant(
    s: writer_model::WriterState,
    event: BuckEvent,
    instant: Instant,
    now: int,
)
    ensures
        spans_untouched(s.after_instant(event, instant, now).0, s),
{
    match instant {
        Instant::Snapshot(snapshot) => lemma_sampled(s, event.timestamp, snapshot, now),
        Instant::CommandPreempted => {
            let t = event.timestamp@;
            writer_model::lemma_marked_frame(s, t, "command_preempted"@, seq![], now);
            writer_model::lemma_marked_grows(s, t, "command_preempted"@, seq![], now);
        },
        Instant::BuildGraphInfo(entries) => {
            if let Some(t) = s.command_start {
                lemma_path_slices(
                    s.with_top_track(TRACK_CRITICAL_PATH, "critical path"@, now),
                    t@,
                    entries@,
                    now,
                );
            }
        },
        Instant::Other => {},
    }
}

/// What the start of a span does to the accounts.
pub proof fn lemma_start(
    s: writer_model::WriterState,
    event: BuckEvent,
    start: SpanStart,
    id: u64,
    now: int,
)
    requires
        event.span_id == Some(id),
    ensures
        ({
            let after = s.after_start(event, start, now).0;
            &&& after.counts_from(s)
            &&& after.spans_seen == s.spans_seen + 1
            &&& after.spans_emitted == s.spans_emitted
            &&& after.spans_dropped == s.spans_dropped
            &&& match (spans::name_and_category(start), spans::population_counter(start)) {
                (Ok(_), Some(name)) => {
                    &&& after.span_counter_open == s.span_counter_open.insert(id, name)
                    &&& after.span_counter_values == s.span_counter_values.insert(
                        name,
                        s.population(name) + 1,
                    )
                },
                _ => {
                    &&& after.span_counter_open == s.span_counter_open
                    &&& after.span_counter_values == s.span_counter_values
                },
            }
            &&& after.open_spans.dom() == if spans::name_and_category(start) is Ok {
                s.open_spans.dom().insert(id)
            } else {
                s.open_spans.dom()
            }
        }),
{
    let after = s.after_start(event, start, now).0;
    let seen = writer_model::WriterState { spans_seen: s.spans_seen + 1, ..s };
    if let Ok((name, category)) = spans::name_and_category(start) {
        let begun = if start is Command {
            writer_model::WriterState { command_start: Some(event.timestamp), ..seen }
        } else {
            seen
        };
        if let Some(counter) = spans::population_counter(start) {
            writer_model::lemma_bumped_frame(begun, event.timestamp@, counter, 1, now);
            writer_model::lemma_bumped_grows(begun, event.timestamp@, counter, 1, now);
        }
        assert(after.open_spans.dom() =~= s.open_spans.dom().insert(id));
    }
}

/// What the end of a span does to the accounts.
pub proof fn lemma_end(
    s: writer_model::WriterState,
    event: BuckEvent,
    end: SpanEnd,
    id: u64,
    now: int,
)
    requires
        event.span_id == Some(id),
    ensures
        ({
            let after = s.after_end(event, end, now).0;
            &&& after.counts_from(s)
            &&& after.spans_seen == s.spans_seen
            &&& after.spans_emitted + after.spans_dropped <= s.spans_emitted + s.spans_dropped
                + (if s.open_spans.contains_key(id) {
                1nat
            } else {
                0nat
            })
            &&& if s.span_counter_open.contains_key(id) {
                let name = s.span_counter_open[id];
                &&& after.span_counter_open == s.span_counter_open.remove(id)
                &&& after.span_counter_values == s.span_counter_values.insert(
                    name,
                    s.population(name) - 1,
                )
            } else {
                &&& after.span_counter_open == s.span_counter_open
                &&& after.span_counter_values == s.span_counter_values
            }
            &&& after.open_spans == s.open_spans.remove(id)
        }),
{
    let t = event.timestamp@;
    let after = s.after_end(event, end, now).0;
    writer_model::lemma_end_frame(s, end.materialization, id, t, now);
    let failed = s.with_failure(t, end.materialization, now);
    assert(failed.span_counter_values == s.span_counter_values) by {
        reveal(writer_model::WriterState::with_failure);
        if let Some(m) = end.materialization {
            if !m.success {
                writer_model::lemma_marked_frame(
                    s,
                    t,
                    "materialization_failure"@,
                    writer_model::failure_annotations(m),
                    now,
                );
            }
        }
    }
    let counted = failed.without_counted_span(id, t, now);
    if failed.span_counter_open.contains_key(id) {
        let without = writer_model::WriterState {
            span_counter_open: failed.span_counter_open.remove(id),
            ..failed
        };
        writer_model::lemma_bumped_frame(without, t, failed.span_counter_open[id], -1, now);
    }
    if counted.open_spans.contains_key(id) {
        let closed = writer_model::WriterState {
            open_spans: counted.open_spans.remove(id),
            ..counted
        };
        if let Some(Ok(d)) = end.duration {
            writer_model::lemma_slice_frame(closed, counted.open_spans[id], d@, now);
        }
    } else {
        assert(s.open_spans.remove(id) =~= s.open_spans);
    }
}

/// No event takes a count back.
pub proof fn law_counts_only_grow(s: writer_model::WriterState, event: BuckEvent, now: int)
    ensures
        s.handled(event, now).0.counts_from(s),
{
    match (event.data, event.span_id) {
        (EventData::SpanStart(Some(start)), Some(id)) => {
            lemma_start(s, event, start, id, now);
        },
        (EventData::SpanEnd(end), Some(id)) => {
            lemma_end(s, event, end, id, now);
        },
        (EventData::Instant(Some(instant)), _) => {
            lemma_instant(s, event, instant, now);
        },
        _ => {},
    }
}

/// One more open span is counted under `name`.
proof fn lemma_population_start(
    before: writer_model::WriterState,
    after: writer_model::WriterState,
    id: u64,
    name: Seq<char>,
)
    requires
        before.span_counter_open.dom().finite(),
        after.span_counter_open == before.span_counter_open.insert(id, name),
        after.span_counter_values == before.span_counter_values.insert(
            name,
            before.population(name) + 1,
        ),
    ensures
        population_covers_open(before) ==> population_covers_open(after),
        population_is_open(before) && !before.span_counter_open.contains_key(id)
            ==> population_is_open(after),
{
    assert(after.span_counter_open.dom() =~= before.span_counter_open.dom().insert(id));
    let fresh = !before.span_counter_open.contains_key(id);
    assert forall|n: Seq<char>|
        true implies #[trigger] after.population(n) - before.population(n) >= counted_under(
        after,
        n,
    ).len() - counted_under(before, n).len() && (fresh ==> after.population(n)
        - before.population(n) == counted_under(after, n).len() - counted_under(
        before,
        n,
    ).len()) by {
        if n == name {
            assert(counted_under(after, n) =~= counted_under(before, n).insert(id));
            if fresh {
                assert(!counted_under(before, n).contains(id));
            }
        } else {
            assert(counted_under(after, n) =~= counted_under(before, n).remove(id));
            if fresh {
                assert(counted_under(after, n) =~= counted_under(before, n));
            }
        }
    }
}

/// One open span is no longer counted.
proof fn lemma_population_end(
    before: writer_model::WriterState,
    after: writer_model::WriterState,
    id: u64,
)
    requires
        before.span_counter_open.dom().finite(),
        before.span_counter_open.contains_key(id),
        after.span_counter_open == before.span_counter_open.remove(id),
        after.span_counter_values == before.span_counter_values.insert(
            before.span_counter_open[id],
            before.population(before.span_counter_open[id]) - 1,
        ),
    ensures
        population_covers_open(before) ==> population_covers_open(after),
        population_is_open(before) ==> population_is_open(after),
{
    let name = before.span_counter_open[id];
    assert(after.span_counter_open.dom() =~= before.span_counter_open.dom().remove(id));
    assert forall|n: Seq<char>|
        true implies #[trigger] after.population(n) - before.population(n) == counted_under(
        after,
        n,
    ).len() - counted_under(before, n).len() by {
        if n == name {
            assert(counted_under(after, n) =~= counted_under(before, n).remove(id));
            assert(counted_under(before, n).contains(id));
        } else {
            assert(counted_under(after, n) =~= counted_under(before, n));
        }
    }
}

proof fn lemma_population_same(
    before: writer_model::WriterState,
    after: writer_model::WriterState,
)
    requires
        after.span_counter_open == before.span_counter_open,
        after.span_counter_values == before.span_counter_values,
    ensures
        population_covers_open(before) ==> population_covers_open(after),
        population_is_open(before) ==> population_is_open(after),
{
    assert forall|n: Seq<char>| true implies #[trigger] after.population(n) == before.population(n)
        && counted_under(after, n) == counted_under(before, n) by {
        assert(counted_under(after, n) =~= counted_under(before, n));
    }
}

proof fn lemma_population(s: writer_model::WriterState, event: BuckEvent, now: int)
    requires
        s.span_counter_open.dom().finite(),
    ensures
        population_covers_open(s) ==> population_covers_open(s.handled(event, now).0),
        population_is_open(s) && !(counted_start(event) matches Some((id, _))
            && s.span_counter_open.contains_key(id)) ==> population_is_open(
            s.handled(event, now).0,
        ),
{
    let after = s.handled(event, now).0;
    match (event.data, event.span_id) {
        (EventData::SpanStart(Some(start)), Some(id)) => {
            lemma_start(s, event, start, id, now);
            match (spans::name_and_category(start), spans::population_counter(start)) {
                (Ok(_), Some(name)) => {
                    lemma_population_start(s, after, id, name);
                },
                _ => {
                    lemma_population_same(s, after);
                },
            }
        },
        (EventData::SpanEnd(end), Some(id)) => {
            lemma_end(s, event, end, id, now);
            if s.span_counter_open.contains_key(id) {
                lemma_population_end(s, after, id);
            } else {
                lemma_population_same(s, after);
            }
        },
        (EventData::Instant(Some(instant)), _) => {
            lemma_instant(s, event, instant, now);
            lemma_population_same(s, after);
        },
        _ => {
            lemma_population_same(s, after);
        },
    }
}

/// Whatever event comes, every counter of open spans stays at least the number of
/// spans that have added to it and not ended. In particular it is never negative.
pub proof fn law_population_covers_open_spans(
    s: writer_model::WriterState,
    event: BuckEvent,
    now: int,
)
    requires
        population_covers_open(s),
    ensures
        population_covers_open(s.handled(event, now).0),
{
    lemma_population(s, event, now);
}

/// The counters of open spans stay exact, as long as no span is counted again that is
/// still counted as open.
pub proof fn law_population_is_exact(
    s: writer_model::WriterState,
    event: BuckEvent,
    now: int,
)
    requires
        population_is_open(s),
        counted_start(event) matches Some((id, _)) ==> !s.span_counter_open.contains_key(id),
    ensures
        population_is_open(s.handled(event, now).0),
{
    lemma_population(s, event, now);
}

/// Whatever event comes, no more slices are written or left out than spans have
/// ended.
pub proof fn law_spans_stay_balanced(
    s: writer_model::WriterState,
    event: BuckEvent,
    now: int,
)
    requires
        spans_balanced(s),
    ensures
        spans_balanced(s.handled(event, now).0),
{
    match (event.data, event.span_id) {
        (EventData::SpanStart(Some(start)), Some(id)) => {
            lemma_start(s, event, start, id, now);
        },
        (EventData::SpanEnd(end), Some(id)) => {
            lemma_end(s, event, end, id, now);
            assert(s.handled(event, now).0.open_spans.dom() =~= s.open_spans.dom().remove(id));
        },
        (EventData::Instant(Some(instant)), _) => {
            lemma_instant(s, event, instant, now);
        },
        _ => {},
    }
}

/// In every run the counters of open spans cover the open spans, and the slices are
/// covered by the spans seen.
pub proof fn law_every_run_accounts_for_spans(
    min_duration: nat,
    events: Seq<(BuckEvent, int)>,
)
    ensures
        population_covers_open(writer_laws::after_events(min_duration, events)),
        spans_balanced(writer_laws::after_events(min_duration, events)),
    decreases events.len(),
{
    if events.len() > 0 {
        let init = events.drop_last();
        law_every_run_accounts_for_spans(min_duration, init);
        let s = writer_laws::after_events(min_duration, init);
        law_population_covers_open_spans(s, events.last().0, events.last().1);
        law_spans_stay_balanced(s, events.last().0, events.last().1);
    } else {
        let s = writer_model::WriterState::initial(min_duration);
        assert(s.span_counter_open.dom() =~= Set::<u64>::empty());
        assert(s.open_spans.dom() =~= Set::<u64>::empty());
        assert forall|n: Seq<char>| true implies #[trigger] s.population(n) >= counted_under(
            s,
            n,
        ).len() by {
            assert(counted_under(s, n) =~= Set::<u64>::empty());
        }
    }
}

/// The end of a span undoes its start: the span is closed again, and every counter
/// of open spans is back where it was.
pub proof fn law_end_undoes_start(
    s: writer_model::WriterState,
    first: BuckEvent,
    start: SpanStart,
    second: BuckEvent,
    end: SpanEnd,
    id: u64,
    now: int,
    later: int,
)
    requires
        first.span_id == Some(id),
        second.span_id == Some(id),
        spans::name_and_category(start) is Ok,
        !s.open_spans.contains_key(id),
        !s.span_counter_open.contains_key(id),
    ensures
        ({
            let after = s.after_start(first, start, now).0.after_end(second, end, later).0;
            &&& after.open_spans.dom() == s.open_spans.dom()
            &&& after.span_counter_open == s.span_counter_open
            &&& forall|name: Seq<char>| #[trigger] after.population(name) == s.population(name)
        }),
{
    let started = s.after_start(first, start, now).0;
    let after = started.after_end(second, end, later).0;
    lemma_start(s, first, start, id, now);
    lemma_end(started, second, end, id, later);
    assert(after.open_spans.dom() =~= s.open_spans.dom());
    assert(after.span_counter_open =~= s.span_counter_open);
}

} // verus!
