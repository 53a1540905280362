//! What durations, reports and traces come out as.

use vstd::prelude::*;

use crate::critical_path;
use crate::critical_path::CriticalPathEntry;
use crate::critical_path::OptionalDuration;
use crate::critical_path::OutputItem;
use crate::critical_path::PathKind;
use crate::critical_path::PathNode;
use crate::critical_path::RowStyle;
use crate::digest;
use crate::events::BuckEvent;
use crate::events::LocalStage;
use crate::events::ReStage;
use crate::events::SpanStart;
use crate::events::Stage;
use crate::fmt_duration;
use crate::history_laws;
use crate::name_laws;
use crate::path_report;
use crate::path_report::LogFormat;
use crate::path_report::PathError;
use crate::perfetto_proto::Trace;
use crate::perfetto_proto::TracePacket;
use crate::rounding_laws;
use crate::spans;
use crate::spans::Category;
use crate::spans::WriterError;
use crate::telemetry_laws;
use crate::text;
use crate::text_laws;
use crate::time::Duration;
use crate::time::SystemTime;
use crate::trace_reading;
use crate::writer::PerfettoWriter;
use crate::writer::Stats;
use crate::writer_laws;
use crate::writer_room;

verus! {

/// A duration is shown on a clock by the nearest tenth of a second.
pub proof fn law_durations_on_a_clock(
    d: Duration,
    out: String,
    hours: nat,
    mins: nat,
    secs: nat,
    tenth: nat,
)
    requires
        call_ensures(fmt_duration::fmt_duration, (d,), out),
        mins < 60,
        secs < 60,
        tenth < 10,
        d@ + 50_000_000 <= u64::MAX,
        (((hours * 60 + mins) * 60 + secs) * 10 + tenth) * 100_000_000 - 50_000_000 <= d@,
        d@ < (((hours * 60 + mins) * 60 + secs) * 10 + tenth) * 100_000_000 + 50_000_000,
    ensures
        hours > 0 ==> out@ == text::decimal(hours) + ":"@ + text::decimal2(mins) + ":"@
            + text::decimal2(secs) + "."@ + text::decimal(tenth) + "s"@,
        hours == 0 && mins > 0 ==> out@ == text::decimal(mins) + ":"@ + text::decimal2(secs)
            + "."@ + text::decimal(tenth) + "s"@,
        hours == 0 && mins == 0 ==> out@ == text::decimal(secs) + "."@ + text::decimal(tenth)
            + "s"@,
{
    text_laws::law_tenths_are_nearest(d@);
    text_laws::law_clock_shows_its_parts(hours, mins, secs, tenth);
    let tenths = ((hours * 60 + mins) * 60 + secs) * 10 + tenth;
    assert(fmt_duration::tenths_of_second(d@) == tenths);
}

/// A duration below half a day is shown closely in the unit that fits.
pub proof fn law_durations_in_units(d: Duration, out: String) -> (v: nat)
    requires
        call_ensures(fmt_duration::fmt_duration_precise, (d,), out),
        d@ < 43_200_000_000_000,
    ensures
        d@ == 0 ==> out@ == "0"@,
        0 < d@ < 1_000 ==> out@ == text::decimal(d@) + "ns"@,
        1_000 <= d@ < 1_000_000 ==> out@ == text::decimal(v / 10) + "."@ + text::decimal(v % 10)
            + "µs"@ && rounding_laws::apart((v * 100) as int, d@ as int) <= 50,
        1_000_000 <= d@ < 1_000_000_000 ==> out@ == text::decimal(v / 10) + "."@ + text::decimal(
            v % 10,
        ) + "ms"@ && rounding_laws::apart((v * 100_000) as int, d@ as int) <= 50_000,
        1_000_000_000 <= d@ ==> out@ == text::decimal(v / 100) + "."@ + text::decimal2(v % 100)
            + "s"@ && rounding_laws::apart((v * 10_000_000) as int, d@ as int) <= 5_000_000,
{
    rounding_laws::law_precise_durations_are_close(d@)
}

/// An exact duration comes to itself.
pub proof fn law_exact_durations(d: Duration, out: String)
    requires
        call_ensures(fmt_duration::fmt_duration_exact, (d,), out),
    ensures
        ({
            let n = out@.len() as int;
            &&& d@ < 1_000 ==> out@ == text::decimal(d@) + "ns"@
            &&& 1_000 <= d@ < 1_000_000 ==> out@.skip(n - 2) == "µs"@ && text_laws::comes_to(
                out@.take(n - 2),
                1_000,
                d@,
            )
            &&& 1_000_000 <= d@ < 1_000_000_000 ==> out@.skip(n - 2) == "ms"@
                && text_laws::comes_to(out@.take(n - 2), 1_000_000, d@)
            &&& 1_000_000_000 <= d@ ==> out@.skip(n - 1) == "s"@ && text_laws::comes_to(
                out@.take(n - 1),
                1_000_000_000,
                d@,
            )
        }),
{
    text_laws::law_exact_durations_come_to_themselves(d@);
}

/// Whether two optional texts are both missing or are equal.
pub open spec fn same_text(a: Option<String>, b: Option<String>) -> bool {
    match (a, b) {
        (Some(a), Some(b)) => a@ == b@,
        (None, None) => true,
        _ => false,
    }
}

/// Whether two entries agree in their kind, name, category, identifier and execution kind.
pub open spec fn agree(a: CriticalPathEntry, b: CriticalPathEntry) -> bool {
    &&& a.kind@ == b.kind@
    &&& a.name@ == b.name@
    &&& same_text(a.category, b.category)
    &&& same_text(a.identifier, b.identifier)
    &&& same_text(a.execution_kind, b.execution_kind)
}

/// Two entries have the same identity exactly if they agree in all that is not timing, and
/// can share a row exactly if they do or if both wait.
pub proof fn law_entries_that_share_a_row(
    a: &CriticalPathEntry,
    b: &CriticalPathEntry,
    same: bool,
    extends: bool,
)
    requires
        call_ensures(CriticalPathEntry::same_identity, (a, b), same),
        call_ensures(critical_path::can_extend, (a, b), extends),
    ensures
        same <==> agree(*a, *b),
        extends <==> agree(*a, *b) || (a.kind@ == "waiting"@ && b.kind@ == "waiting"@),
{
}

/// The impact of an entry is the largest of three of its durations.
pub proof fn law_impact_of_an_entry(e: &CriticalPathEntry, d: Duration)
    requires
        call_ensures(CriticalPathEntry::impact, (e,), d),
    ensures
        e.total_duration.inner matches Some(t) ==> d@ >= t@,
        e.non_critical_path_time.inner matches Some(t) ==> d@ >= t@,
        e.potential_improvement_duration.inner matches Some(t) ==> d@ >= t@,
        d@ == 0 || (e.total_duration.inner is Some && e.total_duration.inner->0@ == d@) || (
        e.non_critical_path_time.inner is Some && e.non_critical_path_time.inner->0@ == d@) || (
        e.potential_improvement_duration.inner is Some
            && e.potential_improvement_duration.inner->0@ == d@),
{
}

/// The color of a row, by what it could save.
pub proof fn law_row_colors(d: Duration, style: RowStyle)
    requires
        call_ensures(critical_path::row_style, (d,), style),
    ensures
        style is Gray <==> d@ < 100_000_000,
        style is Normal <==> 100_000_000 <= d@ < 1_000_000_000,
        style is Yellow <==> 1_000_000_000 <= d@ < 5_000_000_000,
        style is Red <==> 5_000_000_000 <= d@ < 10_000_000_000,
        style is BoldRed <==> 10_000_000_000 <= d@,
{
}

/// The line above a report.
pub proof fn law_headings(kind: PathKind, command_line: &str, line: String)
    requires
        call_ensures(PathKind::heading, (kind, command_line), line),
    ensures
        kind is Critical ==> line@ == "Showing "@ + "critical path"@ + " from: "@
            + command_line@,
        kind is Slowest ==> line@ == "Showing "@ + "slowest path"@ + " from: "@ + command_line@,
{
}

/// A report is put behind what is there: as many items as it has, in order, and the first
/// node that cannot be reported is the error.
pub proof fn law_reports_are_appended(
    path: &Vec<PathNode>,
    format: LogFormat,
    threshold: Duration,
)
    ensures
        forall|out: &mut Vec<OutputItem>, r: Result<(), PathError>| #[trigger]
            call_ensures(path_report::log_critical_path, (path, format, threshold, out), r) ==> {
                let (items, error) = path_report::report(path@, format, threshold@);
                let n = (*out)@.len();
                &&& (*final(out))@.len() == n + items.len()
                &&& forall|i: int|
                    0 <= i < n ==> (#[trigger] (*final(out))@[i])@ == (*out)@[i]@
                &&& forall|i: int|
                    0 <= i < items.len() ==> (#[trigger] (*final(out))@[n + i])@ == items[i]
                &&& r is Ok <==> error is None
                &&& r is Err ==> error == Some(r->Err_0@)
            },
{
    assert forall|out: &mut Vec<OutputItem>, r: Result<(), PathError>| #[trigger]
        call_ensures(path_report::log_critical_path, (path, format, threshold, out), r) implies {
        let (items, error) = path_report::report(path@, format, threshold@);
        let n = (*out)@.len();
        &&& (*final(out))@.len() == n + items.len()
        &&& forall|i: int| 0 <= i < n ==> (#[trigger] (*final(out))@[i])@ == (*out)@[i]@
        &&& forall|i: int|
            0 <= i < items.len() ==> (#[trigger] (*final(out))@[n + i])@ == items[i]
        &&& r is Ok <==> error is None
        &&& r is Err ==> error == Some(r->Err_0@)
    } by {
        let (items, error) = path_report::report(path@, format, threshold@);
        let old_items = critical_path::items((*out)@);
        let new_items = critical_path::items((*final(out))@);
        let n = (*out)@.len();
        assert(new_items == old_items + items);
        assert(new_items.len() == (*final(out))@.len());
        assert forall|i: int| 0 <= i < n implies (#[trigger] (*final(out))@[i])@ == (*out)@[i]@ by {
            assert(new_items[i] == old_items[i]);
        }
        assert forall|i: int| 0 <= i < items.len() implies (#[trigger] (*final(out))@[n + i])@
            == items[i] by {
            assert(new_items[n + i] == items[i]);
        }
    }
}

/// A digest reads back from its text.
pub proof fn law_digests_in_text(bytes: &Vec<u8>, out: String, i: int)
    requires
        call_ensures(digest::digest_to_text, (bytes,), out),
        0 <= i < bytes@.len(),
    ensures
        out@.len() == 7 + 2 * bytes@.len(),
        out@.take(7) == "SHA256:"@,
        telemetry_laws::digit_value(out@[7 + 2 * i]) * 16 + telemetry_laws::digit_value(
            out@[8 + 2 * i],
        ) == bytes@[i],
{
    telemetry_laws::law_digest_reads_back(bytes@, i);
}

/// The stages that execute an action, and those in which it waits.
pub proof fn law_stages(stage: &Stage, executes: bool, waits: bool)
    requires
        call_ensures(spans::stage_is_execution, (stage,), executes),
        call_ensures(spans::stage_is_waiting, (stage,), waits),
    ensures
        executes <==> *stage == Stage::Local(Some(LocalStage::Execute)) || *stage == Stage::Local(
            Some(LocalStage::WorkerExecute),
        ) || *stage == Stage::Re(Some(ReStage::Execute)),
        waits <==> *stage == Stage::Local(Some(LocalStage::Queued)) || *stage == Stage::Local(
            Some(LocalStage::WorkerQueued),
        ) || *stage == Stage::Local(Some(LocalStage::WorkerWait)) || *stage == Stage::Local(
            Some(LocalStage::AcquireLocalResource),
        ) || *stage == Stage::Re(Some(ReStage::Queue)) || *stage == Stage::Re(
            Some(ReStage::QueueOverQuota),
        ) || *stage == Stage::Re(Some(ReStage::QueueAcquiringDependencies)) || *stage == Stage::Re(
            Some(ReStage::QueueNoWorkerAvailable),
        ) || *stage == Stage::Re(Some(ReStage::QueueCancelled)),
{
}

/// A span goes by the name, and in the group, that its kind has.
pub proof fn law_names_of_starts(
    start: &SpanStart,
    r: Result<(String, Category), WriterError>,
    counter: Option<&str>,
)
    requires
        call_ensures(spans::span_name_and_category, (start,), r),
        call_ensures(spans::span_population_counter_name, (start,), counter),
    ensures
        r is Ok ==> name_laws::is_called(*start, r->Ok_0.0@, r->Ok_0.1),
        r is Err <==> spans::name_and_category(*start) is Err,
        r is Err ==> spans::name_and_category(*start)->Err_0 == r->Err_0@,
        counter is Some <==> spans::population_counter(*start) is Some,
        counter is Some ==> spans::population_counter(*start)->0 == counter->0@,
{
}

/// A new writer has written nothing.
pub proof fn law_new_writer(min_duration: Duration, w: PerfettoWriter)
    requires
        call_ensures(PerfettoWriter::new, (min_duration,), w),
    ensures
        w@ == writer_laws::after_events(min_duration@, seq![]),
        w@.packets.len() == 0,
        w.taken_bytes().len() == 0,
{
}

/// A writer that has handled events has handled those and one more afterwards, or it says
/// why the event could not be written. Nothing that was taken changes.
pub proof fn law_writer_handles_events(
    min_duration: nat,
    events: Seq<(BuckEvent, int)>,
    event: &BuckEvent,
    now: SystemTime,
)
    ensures
        forall|w: &mut PerfettoWriter, r: Result<(), WriterError>|
            #[trigger] call_ensures(PerfettoWriter::handle_event, (w, event, now), r) && (*w)@
                == writer_laws::after_events(min_duration, events) ==> {
                &&& (*final(w))@ == writer_laws::after_events(
                    min_duration,
                    events.push((*event, now@)),
                )
                &&& (*final(w)).taken_bytes() == (*w).taken_bytes()
                &&& r is Ok <==> name_laws::complaint((*w)@, *event, now@) is None
                &&& r is Err ==> name_laws::complaint((*w)@, *event, now@) == Some(
                    r->Err_0@.text(),
                )
            },
{
    assert(events.push((*event, now@)).drop_last() =~= events);
}

/// The bytes that are taken, and those that are left at the end, read back as the packets
/// that were written.
pub proof fn law_bytes_read_back(w: PerfettoWriter, end: (Vec<u8>, Stats))
    requires
        call_ensures(PerfettoWriter::finish, (w,), end),
    ensures
        trace_reading::read_trace(w.taken_bytes() + end.0@) == Some(w@.packets),
        end.1.counts(w@),
        forall|v: &mut PerfettoWriter, bytes: Vec<u8>| #[trigger]
            call_ensures(PerfettoWriter::take_output, (v,), bytes) ==> {
                &&& (*final(v))@ == (*v)@
                &&& (*final(v)).taken_bytes() == (*v).taken_bytes() + bytes@
                &&& trace_reading::read_trace((*final(v)).taken_bytes()) == Some((*v)@.packets)
            },
{
    trace_reading::law_trace_reads_back(w@.packets);
    assert forall|v: &mut PerfettoWriter, bytes: Vec<u8>| #[trigger]
        call_ensures(PerfettoWriter::take_output, (v,), bytes) implies {
        &&& (*final(v))@ == (*v)@
        &&& (*final(v)).taken_bytes() == (*v).taken_bytes() + bytes@
        &&& trace_reading::read_trace((*final(v)).taken_bytes()) == Some((*v)@.packets)
    } by {
        trace_reading::law_trace_reads_back((*v)@.packets);
    }
}

/// A writer that says it has room can take the event at any time.
pub proof fn law_room_is_enough(w: &PerfettoWriter, event: &BuckEvent, b: bool, now: int)
    requires
        call_ensures(PerfettoWriter::has_room, (w, event), b),
    ensures
        b ==> w@.can_handle(*event, now),
        b <==> writer_room::has_room(w@, *event),
{
}

/// A point in time in a trace is its nanoseconds since the Unix epoch in 64 bits, zero before
/// the epoch.
pub proof fn law_times_in_a_trace(t: SystemTime, n: u64)
    requires
        call_ensures(PerfettoWriter::unix_nanos, (t,), n),
    ensures
        t@ < 0 ==> n == 0,
        t@ >= 0 ==> n == t@ % 0x1_0000_0000_0000_0000,
{
}

/// The statistics, and the errors of the writer, in words.
pub proof fn law_writer_in_words(
    stats: &Stats,
    line: String,
    e: &WriterError,
    words: String,
    p: &PathError,
    path_words: String,
)
    requires
        call_ensures(Stats::to_text, (stats,), line),
        call_ensures(WriterError::message, (e,), words),
        call_ensures(PathError::message, (p,), path_words),
    ensures
        line@ == stats.line(),
        e is MissingTarget ==> words@ == "AnalysisStart missing target"@,
        e is MissingDuration ==> words@ == "SpanEnd missing duration"@,
        e matches WriterError::Display(m) ==> words@ == m@,
        e matches WriterError::InvalidDuration(m) ==> words@ == m@,
        p matches PathError::Display(m) ==> path_words@ == m@,
        p matches PathError::InvalidDuration(m) ==> path_words@ == m@,
{
}

/// The entry of a node is what the node comes to, and its line in the tabulated format is
/// that of the entry.
pub proof fn law_entries_of_nodes(
    node: &PathNode,
    r: Result<Option<CriticalPathEntry>, PathError>,
    entry: &CriticalPathEntry,
    line: String,
)
    requires
        call_ensures(path_report::entry_from_node, (node,), r),
        call_ensures(path_report::tabulated_line, (entry,), line),
    ensures
        match path_report::entry_of(*node) {
            Ok(Some(e)) => r is Ok && r->Ok_0 is Some && r->Ok_0->0@ == e,
            Ok(None) => r is Ok && r->Ok_0 is None,
            Err(e) => r is Err && r->Err_0@ == e,
        },
        line@ == path_report::tabulated_text(entry@),
{
}

/// An item in text, with colors or without.
pub proof fn law_items_come_out(item: &OutputItem, colors: bool, out: Option<String>)
    requires
        call_ensures(OutputItem::to_text_in, (item, colors), out),
    ensures
        out is Some <==> !(item is Record),
        out is Some ==> item@.text(colors) == Some(out->0@),
{
}

/// A trace that is written at once reads back.
pub proof fn law_whole_traces_read_back(trace: &Trace, bytes: Vec<u8>)
    requires
        call_ensures(Trace::encode_to_vec, (trace,), bytes),
    ensures
        trace_reading::read_trace(bytes@) matches Some(packets) && packets.len()
            == trace.packet@.len() && forall|i: int|
            0 <= i < packets.len() ==> #[trigger] packets[i] == trace.packet@[i]@,
{
    trace_reading::law_trace_reads_back(trace.packet@.map_values(|p: TracePacket| p@));
}

/// The groups of spans, and the track on which an action waits.
pub proof fn law_tracks_of_groups(
    category: Category,
    key: &'static str,
    id: u64,
    queued: u64,
)
    requires
        call_ensures(Category::key, (category,), key),
        call_ensures(spans::queued_track_uuid, (id,), queued),
    ensures
        (category.group_uuid(), key@) == history_laws::group_of(category),
        queued == id ^ 0x5A5A_A5A5_C3C3_3C3Du64,
{
}

/// A duration that may be missing: in microseconds, and in readable units.
pub proof fn law_optional_durations(
    d: Option<Result<Duration, String>>,
    r: Result<OptionalDuration, String>,
    o: &OptionalDuration,
    micros: Option<u128>,
    written: String,
    readable: String,
)
    requires
        call_ensures(OptionalDuration::new::<String>, (d,), r),
        call_ensures(OptionalDuration::micros, (o,), micros),
        call_ensures(OptionalDuration::to_text, (o,), written),
        call_ensures(critical_path::fmt_opt, (o.inner,), readable),
    ensures
        d is None ==> r is Ok && r->Ok_0.inner is None,
        d matches Some(Ok(v)) ==> r is Ok && r->Ok_0.inner == Some(v),
        d matches Some(Err(e)) ==> r is Err && r->Err_0 == e,
        micros is Some <==> o.inner is Some,
        o.inner matches Some(v) ==> micros->0 * 1_000 <= v@ < (micros->0 + 1) * 1_000 && written@
            == text::decimal(v@ / 1_000) && readable@ == fmt_duration::precise_text(v@),
        o.inner is None ==> written@.len() == 0 && readable@.len() == 0,
{
}

/// Adding to a sum that may be missing: what is missing adds nothing, and a sum of something
/// is there.
pub proof fn law_optional_sums(v: Option<Duration>)
    ensures
        forall|acc: &mut Option<Duration>| #[trigger]
            call_ensures(critical_path::add_opt, (acc, v), ()) ==> {
                let before: nat = if (*acc) is Some {
                    (*acc)->0@
                } else {
                    0
                };
                &&& (*final(acc)) is Some <==> (*acc) is Some || v is Some
                &&& (*final(acc)) is Some ==> (*final(acc))->0@ == before + if v is Some {
                    v->0@
                } else {
                    0nat
                }
            },
{
}

/// What the two paths are called.
pub proof fn law_names_of_paths(kind: PathKind, name: &'static str)
    requires
        call_ensures(PathKind::name, (kind,), name),
    ensures
        kind is Critical ==> name@ == "critical path"@,
        kind is Slowest ==> name@ == "slowest path"@,
{
}

/// Texts are joined with the separator between neighbours, and numbers are written so that
/// they read back.
pub proof fn law_texts_are_put_together(
    parts: &Vec<String>,
    sep: &str,
    out: String,
    a: &str,
    b: &str,
    both: String,
    n: u128,
)
    requires
        call_ensures(text::join, (parts, sep), out),
        call_ensures(text::concat, (a, b), both),
    ensures
        out@ == text::joined(text::views(parts@), sep@),
        both@ == a@ + b@,
        forall|s: &mut String| #[trigger]
            call_ensures(text::push_decimal, (s, n), ()) ==> {
                let k = (*s)@.len() as int;
                &&& (*final(s))@.take(k) == (*s)@
                &&& text_laws::number((*final(s))@.skip(k)) == n
                &&& text_laws::is_number((*final(s))@.skip(k))
            },
{
    text_laws::law_decimal_reads_back(n as nat);
    assert forall|s: &mut String| #[trigger]
        call_ensures(text::push_decimal, (s, n), ()) implies {
        let k = (*s)@.len() as int;
        &&& (*final(s))@.take(k) == (*s)@
        &&& text_laws::number((*final(s))@.skip(k)) == n
        &&& text_laws::is_number((*final(s))@.skip(k))
    } by {
        let k = (*s)@.len() as int;
        assert((*final(s))@.take(k) =~= (*s)@);
        assert((*final(s))@.skip(k) =~= text::decimal(n as nat));
    }
}

} // verus!
