//! How spans are named, grouped and counted, and which events cannot be written.

use vstd::prelude::*;

use crate::events::BuckEvent;
use crate::events::EventData;
use crate::events::Instant;
use crate::events::SpanStart;
use crate::history_laws;
use crate::sample_laws;
use crate::spans;
use crate::spans::Category;
use crate::spans::WriterError;
use crate::writer;
use crate::writer_laws;
use crate::writer_model;

verus! {

/// Whether spans of this kind go by the name, in the group.
pub open spec fn is_called(start: SpanStart, name: Seq<char>, category: Category) -> bool {
    spans::name_and_category(start) == Ok::<(Seq<char>, Category), spans::WriterErrorModel>(
        (name, category),
    )
}

/// Loads, listings and analyses bear the name of what they are about behind a word for what
/// they do; actions and stages bear the name under which they are shown; every other kind
/// of span has one name for all.
pub proof fn law_span_names(start: SpanStart)
    ensures
        start is Command ==> is_called(start, "command"@, Category::Misc),
        start is FileWatcher ==> is_called(start, "file_watcher_sync"@, Category::Misc),
        start is FinalMaterialization ==> is_called(start, "materialization"@, Category::Actions),
        start is ReUpload ==> is_called(start, "re_upload"@, Category::Actions),
        start matches SpanStart::Load { module_id } ==> is_called(
            start,
            "load "@ + module_id@,
            Category::Loads,
        ),
        start matches SpanStart::LoadPackage { path } ==> is_called(
            start,
            "listing "@ + path@,
            Category::Loads,
        ),
        start matches SpanStart::Analysis { target: Some(Ok(target)) } ==> is_called(
            start,
            "analysis "@ + target@,
            Category::Analysis,
        ),
        start matches SpanStart::ActionExecution { identity: Ok(identity) } ==> is_called(
            start,
            identity@,
            Category::Actions,
        ),
        start matches SpanStart::ExecutorStage { stage: None } ==> is_called(
            start,
            "executor_stage"@,
            Category::Actions,
        ),
        start matches SpanStart::ExecutorStage { stage: Some(stage) } ==> match stage.display {
            Some(name) => is_called(start, name@, Category::Actions),
            None => is_called(start, "executor_stage"@, Category::Actions),
        },
{
}

/// A start has no name exactly if it is an analysis of nothing, or if what it is about
/// cannot be shown; the error says so.
pub proof fn law_starts_without_a_name(start: SpanStart)
    ensures
        spans::name_and_category(start) is Err <==> match start {
            SpanStart::Analysis { target } => !(target matches Some(Ok(_))),
            SpanStart::ActionExecution { identity } => identity is Err,
            _ => false,
        },
        start matches SpanStart::Analysis { target: None } ==> spans::name_and_category(
            start,
        )->Err_0.text() == "AnalysisStart missing target"@,
        start matches SpanStart::Analysis { target: Some(Err(e)) } ==> spans::name_and_category(
            start,
        )->Err_0.text() == e@,
        start matches SpanStart::ActionExecution { identity: Err(e) } ==> spans::name_and_category(
            start,
        )->Err_0.text() == e@,
{
}

/// A span of another kind goes by the identifier that it begins with: the longest run of
/// letters, digits and underscores in front. Where there is none it is unknown.
pub proof fn law_other_spans_go_by_their_identifier(debug: Seq<char>) -> (n: int)
    ensures
        0 <= n <= debug.len(),
        forall|i: int|
            0 <= i < n ==> (spans::alphanumeric(#[trigger] debug[i]) || debug[i] == '_'),
        n < debug.len() ==> !spans::alphanumeric(debug[n]) && debug[n] != '_',
        spans::leading_identifier(debug) == if n == 0 {
            "<unknown>"@
        } else {
            debug.take(n)
        },
        forall|start: SpanStart|
            (start matches SpanStart::Other { debug: d } && d@ == debug) ==> #[trigger] is_called(
                start,
                spans::leading_identifier(debug),
                Category::Misc,
            ),
{
    let n = lemma_identifier(debug);
    n
}

proof fn lemma_identifier(s: Seq<char>) -> (n: int)
    ensures
        0 <= n <= s.len(),
        n == spans::identifier_len(s),
        forall|i: int| 0 <= i < n ==> (spans::alphanumeric(#[trigger] s[i]) || s[i] == '_'),
        n < s.len() ==> !spans::alphanumeric(s[n]) && s[n] != '_',
    decreases s.len(),
{
    if s.len() > 0 && spans::in_identifier(s[0]) {
        let rest = s.drop_first();
        let m = lemma_identifier(rest);
        assert forall|i: int| 0 <= i < m + 1 implies (spans::alphanumeric(#[trigger] s[i]) || s[i]
            == '_') by {
            if i > 0 {
                assert(rest[i - 1] == s[i]);
            }
        }
        if m + 1 < s.len() {
            assert(rest[m] == s[m + 1]);
        }
        m + 1
    } else {
        0
    }
}

/// Open analyses, loads, uploads and stages that have a name are counted, each kind under a
/// name of its own; no other spans are.
pub proof fn law_counted_kinds(start: SpanStart)
    ensures
        start is Analysis ==> spans::population_counter(start) == Some("analysis"@),
        start is Load ==> spans::population_counter(start) == Some("load"@),
        start is ReUpload ==> spans::population_counter(start) == Some("re_upload"@),
        start matches SpanStart::ExecutorStage { stage: Some(stage) } ==> match stage.display {
            Some(name) => spans::population_counter(start) == Some(name@),
            None => spans::population_counter(start) is None,
        },
        start matches SpanStart::ExecutorStage { stage: None } ==> spans::population_counter(start)
            is None,
        start is Command || start is LoadPackage || start is ActionExecution || start
            is FinalMaterialization || start is FileWatcher || start is Other
            ==> spans::population_counter(start) is None,
{
}

/// What is said of an event that cannot be written.
pub open spec fn complaint(s: writer_model::WriterState, event: BuckEvent, now: int) -> Option<
    Seq<char>,
> {
    match s.handled(event, now).1 {
        Some(e) => Some(e.text()),
        None => None,
    }
}

/// Of a start that has no name, and of the end of an open span that does not say how long
/// the span took, there is a complaint; of other starts and ends, and of all that happens at
/// one moment but the critical path, there is none.
pub proof fn law_events_that_cannot_be_written(
    min_duration: nat,
    events: Seq<(BuckEvent, int)>,
    event: BuckEvent,
    now: int,
)
    ensures
        ({
            let said = complaint(writer_laws::after_events(min_duration, events), event, now);
            &&& event.span_id is None && !(event.data is Instant) ==> said is None
            &&& event.data is Record ==> said is None
            &&& event.data matches EventData::SpanStart(None) ==> said is None
            &&& event.data matches EventData::SpanStart(Some(start)) ==> event.span_id is Some
                ==> match spans::name_and_category(start) {
                Ok(_) => said is None,
                Err(e) => said == Some(e.text()),
            }
            &&& event.data matches EventData::SpanEnd(end) ==> event.span_id is Some ==> {
                if history_laws::open_since(events, event.span_id->0) is None {
                    said is None
                } else {
                    match end.duration {
                        Some(Ok(_)) => said is None,
                        Some(Err(e)) => said == Some(e@),
                        None => said == Some("SpanEnd missing duration"@),
                    }
                }
            }
            &&& event.data matches EventData::Instant(i) ==> !(i matches Some(
                Instant::BuildGraphInfo(_),
            )) ==> said is None
        }),
{
    let s = writer_laws::after_events(min_duration, events);
    history_laws::lemma_open_spans(min_duration, events);
    if let EventData::SpanEnd(end) = event.data {
        if let Some(id) = event.span_id {
            writer_model::lemma_end_frame(s, end.materialization, id, event.timestamp@, now);
        }
    }
}

/// How many of the events start a span, whether or not it has a name.
pub open spec fn starts_seen(events: Seq<(BuckEvent, int)>) -> nat
    decreases events.len(),
{
    if events.len() == 0 {
        0
    } else {
        starts_seen(events.drop_last()) + if history_laws::start_of(events.last().0) is Some
            && events.last().0.span_id is Some {
            1nat
        } else {
            0nat
        }
    }
}

/// Every start of a span is counted as seen.
pub proof fn law_every_start_is_seen(min_duration: nat, events: Seq<(BuckEvent, int)>)
    ensures
        writer_laws::after_events(min_duration, events).spans_seen == starts_seen(events),
    decreases events.len(),
{
    if events.len() > 0 {
        let init = events.drop_last();
        let (event, now) = events.last();
        law_every_start_is_seen(min_duration, init);
        let s = writer_laws::after_events(min_duration, init);
        match (event.data, event.span_id) {
            (EventData::SpanStart(Some(start)), Some(id)) => {
                crate::span_laws::lemma_start(s, event, start, id, now);
            },
            (EventData::SpanEnd(end), Some(id)) => {
                crate::span_laws::lemma_end(s, event, end, id, now);
            },
            (EventData::Instant(Some(instant)), _) => {
                crate::span_laws::lemma_instant(s, event, instant, now);
            },
            _ => {},
        }
    }
}

/// There is an error to report exactly if the event could not be written, and it says why.
pub proof fn law_failures_are_reported(r: Result<(), WriterError>)
    ensures
        r is Ok <==> writer::error_of(r) is None,
        r matches Err(e) ==> writer::error_of(r) == Some(e@),
        r matches Err(WriterError::MissingTarget) ==> writer::error_of(r)->0.text()
            == "AnalysisStart missing target"@,
        r matches Err(WriterError::MissingDuration) ==> writer::error_of(r)->0.text()
            == "SpanEnd missing duration"@,
        r matches Err(WriterError::Display(e)) ==> writer::error_of(r)->0.text() == e@,
        r matches Err(WriterError::InvalidDuration(e)) ==> writer::error_of(r)->0.text() == e@,
{
}

/// An event that neither starts nor ends a span that it names, nor reports something of
/// interest at one moment, changes nothing. The start of a span that is not counted writes
/// nothing yet, and neither does the end of a span that is neither open nor counted, unless
/// a materialization failed.
pub proof fn law_events_that_write_nothing(
    min_duration: nat,
    events: Seq<(BuckEvent, int)>,
    event: BuckEvent,
    now: int,
)
    ensures
        ({
            let before = writer_laws::after_events(min_duration, events);
            let after = writer_laws::after_events(min_duration, events.push((event, now)));
            &&& event.span_id is None && !(event.data is Instant) ==> after == before
            &&& event.data is Record ==> after == before
            &&& event.data matches EventData::SpanStart(None) ==> after == before
            &&& event.data matches EventData::Instant(None) ==> after == before
            &&& event.data matches EventData::Instant(Some(Instant::Other)) ==> after == before
            &&& event.data matches EventData::SpanStart(Some(start)) ==> (
            spans::population_counter(start) is None || spans::name_and_category(start) is Err
                ==> after.packets == before.packets)
            &&& match (event.data, event.span_id) {
                (EventData::SpanEnd(end), Some(id)) => end.materialization is None
                    && history_laws::open_since(events, id) is None && sample_laws::counted_as(
                    events,
                    id,
                ) is None ==> after.packets == before.packets,
                _ => true,
            }
        }),
{
    let s = writer_laws::after_events(min_duration, events);
    assert(events.push((event, now)).drop_last() =~= events);
    history_laws::lemma_open_spans(min_duration, events);
    sample_laws::lemma_counted_spans(min_duration, events);
    if let EventData::SpanEnd(end) = event.data {
        if let Some(id) = event.span_id {
            reveal(writer_model::WriterState::with_failure);
            assert(s.open_spans.contains_key(id) <==> history_laws::open_since(events, id)
                is Some);
            assert(s.span_counter_open.contains_key(id) <==> sample_laws::counted_as(events, id)
                is Some);
        }
    }
}

} // verus!
