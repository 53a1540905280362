//! What every packet of a trace looks like.

use vstd::prelude::*;

use crate::binary64;
use crate::counter_laws;
use crate::events::BuckEvent;
use crate::events::EventData;
use crate::events::Instant;
use crate::events::NetworkInterfaceStats;
use crate::events::PathEntry;
use crate::events::Snapshot;
use crate::name_laws;
use crate::perfetto_proto;
use crate::sample_laws;
use crate::spans;
use crate::spans::Category;
use crate::text;
use crate::time::SystemTime;
use crate::writer::Stats;
use crate::writer_laws;
use crate::writer_laws::PacketKind;
use crate::writer_model;
use crate::writer_model::CounterValue;

verus! {

/// The name of a group of tracks.
pub open spec fn group_name(uuid: u64) -> Option<Seq<char>> {
    if uuid == 0xFFFF_FFFF_0000_0001 {
        Some("actions"@)
    } else if uuid == 0xFFFF_FFFF_0000_0002 {
        Some("analysis"@)
    } else if uuid == 0xFFFF_FFFF_0000_0003 {
        Some("loads"@)
    } else if uuid == 0xFFFF_FFFF_0000_0004 {
        Some("misc"@)
    } else if uuid == 0xFFFF_FFFF_0000_0005 {
        Some("critical path"@)
    } else if uuid == 0xFFFF_FFFF_0000_0006 {
        Some("open spans"@)
    } else if uuid == 0xFFFF_FFFF_0000_0007 {
        Some("queued"@)
    } else {
        None
    }
}

/// Whether the packet relates the wall clock to that of the trace: both show the same time.
/// It also tells readers to start afresh.
pub open spec fn is_clock(p: perfetto_proto::TracePacketModel) -> bool {
    &&& p.sequence_flags == Some(1u32)
    &&& p.timestamp is None && p.timestamp_clock_id is None
    &&& p.track_event is None && p.track_descriptor is None
    &&& p.clock_snapshot matches Some(c)
    &&& c.clocks.len() == 2
    &&& c.clocks[0].clock_id == Some(6u32)
    &&& c.clocks[1].clock_id == Some(1u32)
    &&& c.clocks[0].timestamp is Some
    &&& c.clocks[1].timestamp == c.clocks[0].timestamp
}

/// Whether the name is that of a counter of a network interface.
pub open spec fn is_of_nic(name: Seq<char>) -> bool {
    exists|nic: Seq<char>|
        name == #[trigger] (nic + "_send_bytes_per_s"@) || name == nic + "_receive_bytes_per_s"@
}

/// Whether the track is one that is declared: a group, a member of a group that is packed
/// with the other members of it, or a counter. Sizes are in bytes, and all else is counted.
/// The counters of open spans, and no others, stand in a group.
pub open spec fn is_track(d: perfetto_proto::TrackDescriptorModel) -> bool {
    &&& d.uuid is Some
    &&& d.name is Some
    &&& match (d.counter, d.parent_uuid) {
        (Some(c), parent) => {
            &&& c.unit == Some(
                if d.name == Some("max_rss_gigabyte"@) || d.name == Some("malloc_active_gigabyte"@) {
                    3i32
                } else {
                    2i32
                },
            )
            &&& c.unit_name is None
            &&& parent is Some ==> parent == Some(0xFFFF_FFFF_0000_0006u64)
                && counter_laws::begins_spans(d.name->0)
            &&& parent is None ==> !counter_laws::begins_spans(d.name->0) || is_of_nic(d.name->0)
            &&& d.sibling_merge_behavior is None && d.sibling_merge_key is None
        },
        (None, None) => {
            &&& group_name(d.uuid->0) == d.name
            &&& d.sibling_merge_behavior is None && d.sibling_merge_key is None
        },
        (None, Some(group)) => {
            &&& group_name(group) is Some
            &&& d.sibling_merge_behavior == Some(3i32)
            &&& d.sibling_merge_key == group_name(group)
        },
    }
}

/// Whether the event is the begin or the end of a slice, a mark, or a counter that takes
/// one value.
pub open spec fn is_event(e: perfetto_proto::TrackEventModel) -> bool {
    &&& e.track_uuid is Some
    &&& e.categories.len() == 0
    &&& e.event_type == Some(1i32) || e.event_type == Some(2i32) || e.event_type == Some(3i32)
        || e.event_type == Some(4i32)
    &&& e.name is Some <==> e.event_type == Some(1i32) || e.event_type == Some(3i32)
    &&& e.event_type == Some(4i32) ==> (e.counter_value is Some) != (e.double_counter_value is Some)
    &&& e.event_type != Some(4i32) ==> e.counter_value is None && e.double_counter_value is None
    &&& e.event_type == Some(3i32) || e.event_type == Some(4i32) ==> e.correlation_id is None
    &&& e.event_type == Some(2i32) || e.event_type == Some(4i32) ==> e.debug_annotations.len() == 0
}

/// Whether the packet is of one of the forms that are written.
pub open spec fn is_shaped(p: perfetto_proto::TracePacketModel) -> bool {
    &&& p.trusted_packet_sequence_id == Some(1u32)
    &&& {
        ||| is_clock(p)
        ||| {
            &&& p.track_descriptor matches Some(d)
            &&& is_track(d)
            &&& p.track_event is None && p.clock_snapshot is None
            &&& p.timestamp is None && p.timestamp_clock_id is None && p.sequence_flags is None
        }
        ||| {
            &&& p.track_event matches Some(e)
            &&& is_event(e)
            &&& p.track_descriptor is None && p.clock_snapshot is None && p.sequence_flags is None
            &&& p.timestamp is Some
            &&& p.timestamp_clock_id == Some(1u32)
        }
    }
}

/// Whether all packets are.
pub open spec fn all_shaped(packets: Seq<perfetto_proto::TracePacketModel>) -> bool {
    forall|i: int| 0 <= i < packets.len() ==> is_shaped(#[trigger] packets[i])
}

/// Whether the packets stay so.
spec fn stays(after: writer_model::WriterState, before: writer_model::WriterState) -> bool {
    all_shaped(before.packets) ==> all_shaped(after.packets)
}

proof fn lemma_written(
    s: writer_model::WriterState,
    p: perfetto_proto::TracePacketModel,
    now: int,
)
    requires
        is_shaped(
            perfetto_proto::TracePacketModel { trusted_packet_sequence_id: Some(1u32), ..p },
        ),
    ensures
        stays(s.written(p, now), s),
{
    let after = s.written(p, now).packets;
    if all_shaped(s.packets) {
        assert forall|i: int| 0 <= i < after.len() implies is_shaped(#[trigger] after[i]) by {
            if s.packets.len() == 0 {
                if i == 0 {
                    assert(after[0] == writer_model::clock_packet(now));
                }
            } else if i < s.packets.len() {
                assert(after[i] == s.packets[i]);
            }
        }
    }
}

proof fn lemma_top_track(s: writer_model::WriterState, uuid: u64, name: Seq<char>, now: int)
    requires
        group_name(uuid) == Some(name),
    ensures
        stays(s.with_top_track(uuid, name, now), s),
{
    if !s.emitted_tracks.contains(uuid) {
        let middle = writer_model::WriterState {
            emitted_tracks: s.emitted_tracks.insert(uuid),
            tracks: s.tracks + 1,
            ..s
        };
        lemma_written(
            middle,
            writer_model::declaration(writer_model::top_track(uuid, name)),
            now,
        );
    }
}

proof fn lemma_member_track(
    s: writer_model::WriterState,
    uuid: u64,
    group: u64,
    its_name: Seq<char>,
    name: Seq<char>,
    now: int,
)
    requires
        group_name(group) == Some(its_name),
    ensures
        stays(s.with_member_track(uuid, group, its_name, name, now), s),
{
    if !s.emitted_tracks.contains(uuid) {
        lemma_top_track(s, group, its_name, now);
        let t = s.with_top_track(group, its_name, now);
        let middle = writer_model::WriterState {
            emitted_tracks: t.emitted_tracks.insert(uuid),
            tracks: t.tracks + 1,
            ..t
        };
        lemma_written(
            middle,
            writer_model::declaration(writer_model::member_track(uuid, group, its_name, name)),
            now,
        );
    }
}

/// Whether a counter with the name, the unit and the group is one that is declared.
spec fn unit_fits(name: Seq<char>, unit: i32, parent: Option<u64>) -> bool {
    &&& unit == if name == "max_rss_gigabyte"@ || name == "malloc_active_gigabyte"@ {
        3i32
    } else {
        2i32
    }
    &&& parent is Some ==> parent == Some(0xFFFF_FFFF_0000_0006u64) && counter_laws::begins_spans(
        name,
    )
    &&& parent is None ==> !counter_laws::begins_spans(name) || is_of_nic(name)
}

proof fn lemma_counted(
    s: writer_model::WriterState,
    t: int,
    name: Seq<char>,
    unit: i32,
    parent: Option<u64>,
    value: CounterValue,
    now: int,
)
    requires
        unit_fits(name, unit, parent),
    ensures
        stays(s.counted(t, name, unit, parent, value, now), s),
{
    reveal(writer_model::WriterState::counted);
    let d = s.with_counter_track(name, unit, parent, now);
    if !s.counter_tracks.contains_key(name) {
        let uuid = s.next_counter_uuid as u64;
        let middle = writer_model::WriterState {
            next_counter_uuid: s.next_counter_uuid + 1,
            counter_tracks: s.counter_tracks.insert(name, uuid),
            tracks: s.tracks + 1,
            ..s
        };
        lemma_written(
            middle,
            writer_model::declaration(writer_model::counter_track(uuid, name, unit, parent)),
            now,
        );
    }
    lemma_written(
        d,
        writer_model::timed(t, writer_model::counter_event(d.counter_tracks[name], value)),
        now,
    );
}

proof fn lemma_bumped(
    s: writer_model::WriterState,
    t: int,
    name: Seq<char>,
    delta: int,
    now: int,
)
    ensures
        stays(s.bumped(t, name, delta, now), s),
{
    reveal(writer_model::WriterState::bumped);
    reveal_strlit("spans: ");
    sample_laws::lemma_lengths();
    let track = "spans: "@ + name;
    assert(track.take("spans: "@.len() as int) =~= "spans: "@);
    assert(track[0] == 's');
    assert("max_rss_gigabyte"@[0] == 'm' && "malloc_active_gigabyte"@[0] == 'm') by {
        reveal_strlit("max_rss_gigabyte");
        reveal_strlit("malloc_active_gigabyte");
    }
    let top = s.with_top_track(spans::TRACK_SPAN_COUNTERS, "open spans"@, now);
    lemma_top_track(s, spans::TRACK_SPAN_COUNTERS, "open spans"@, now);
    lemma_counted(
        top,
        t,
        track,
        perfetto_proto::UNIT_COUNT,
        Some(spans::TRACK_SPAN_COUNTERS),
        CounterValue::Int((s.population(name) + delta) as i64),
        now,
    );
}

proof fn lemma_rated(
    s: writer_model::WriterState,
    t: SystemTime,
    name: Seq<char>,
    amount: u64,
    now: int,
)
    requires
        name != "max_rss_gigabyte"@,
        name != "malloc_active_gigabyte"@,
        !counter_laws::begins_spans(name) || is_of_nic(name),
    ensures
        stays(s.rated(t, name, amount, now), s),
{
    reveal(writer_model::WriterState::rated);
    if s.prev_rate.contains_key(name) && s.prev_rate[name].0@ < t@ {
        let (earlier, before) = s.prev_rate[name];
        let delta: nat = if amount < before {
            0
        } else {
            (amount - before) as nat
        };
        let bits = binary64::bits_of(binary64::per_second(delta, (t@ - earlier@) as nat));
        lemma_counted(
            s,
            t@,
            name,
            perfetto_proto::UNIT_COUNT,
            None,
            CounterValue::Double(bits),
            now,
        );
    }
}

proof fn lemma_nics(
    s: writer_model::WriterState,
    t: SystemTime,
    nics: Seq<NetworkInterfaceStats>,
    now: int,
)
    ensures
        stays(s.sampled_nics(t, nics, now), s),
    decreases nics.len(),
{
    if nics.len() > 0 {
        lemma_nics(s, t, nics.drop_last(), now);
        sample_laws::lemma_lengths();
        let rest = s.sampled_nics(t, nics.drop_last(), now);
        let send = nics.last().nic@ + "_send_bytes_per_s"@;
        let receive = nics.last().nic@ + "_receive_bytes_per_s"@;
        assert(send[send.len() - 1] == 's' && receive[receive.len() - 1] == 's');
        assert(is_of_nic(send) && is_of_nic(receive)) by {
            assert(send == nics.last().nic@ + "_send_bytes_per_s"@);
            let other = nics.last().nic@ + "_send_bytes_per_s"@;
            assert(receive == nics.last().nic@ + "_receive_bytes_per_s"@);
        }
        lemma_rated(rest, t, send, nics.last().tx_bytes, now);
        lemma_rated(
            rest.rated(t, send, nics.last().tx_bytes, now),
            t,
            receive,
            nics.last().rx_bytes,
            now,
        );
    }
}

proof fn lemma_not_of_spans()
    ensures
        !counter_laws::begins_spans("max_rss_gigabyte"@),
        !counter_laws::begins_spans("malloc_active_gigabyte"@),
        !counter_laws::begins_spans("user_cpu_us_per_s"@),
        !counter_laws::begins_spans("system_cpu_us_per_s"@),
        !counter_laws::begins_spans("re_upload_bytes_per_s"@),
        !counter_laws::begins_spans("re_download_bytes_per_s"@),
        !counter_laws::begins_spans("http_download_bytes_per_s"@),
{
    reveal_strlit("spans: ");
    reveal_strlit("max_rss_gigabyte");
    reveal_strlit("malloc_active_gigabyte");
    reveal_strlit("user_cpu_us_per_s");
    reveal_strlit("system_cpu_us_per_s");
    reveal_strlit("re_upload_bytes_per_s");
    reveal_strlit("re_download_bytes_per_s");
    reveal_strlit("http_download_bytes_per_s");
    assert("spans: "@[1] == 'p');
    assert("max_rss_gigabyte"@.take(7)[1] == 'a');
    assert("malloc_active_gigabyte"@.take(7)[1] == 'a');
    assert("user_cpu_us_per_s"@.take(7)[1] == 's');
    assert("system_cpu_us_per_s"@.take(7)[1] == 'y');
    assert("re_upload_bytes_per_s"@.take(7)[1] == 'e');
    assert("re_download_bytes_per_s"@.take(7)[1] == 'e');
    assert("http_download_bytes_per_s"@.take(7)[1] == 't');
}

proof fn lemma_sizes(s: writer_model::WriterState, t: int, snapshot: Snapshot, now: int)
    ensures
        stays(s.sampled_sizes(t, snapshot, now), s),
{
    sample_laws::lemma_lengths();
    lemma_not_of_spans();
    let rss = CounterValue::Double(writer_model::gigabytes(snapshot.buck2_max_rss));
    let bytes = perfetto_proto::UNIT_SIZE_BYTES;
    let count = perfetto_proto::UNIT_COUNT;
    let a = s.counted(t, "max_rss_gigabyte"@, bytes, None, rss, now);
    lemma_counted(s, t, "max_rss_gigabyte"@, bytes, None, rss, now);
    let b = match snapshot.malloc_bytes_active {
        Some(n) => a.counted(
            t,
            "malloc_active_gigabyte"@,
            bytes,
            None,
            CounterValue::Double(writer_model::gigabytes(n)),
            now,
        ),
        None => a,
    };
    if let Some(n) = snapshot.malloc_bytes_active {
        lemma_counted(
            a,
            t,
            "malloc_active_gigabyte"@,
            bytes,
            None,
            CounterValue::Double(writer_model::gigabytes(n)),
            now,
        );
    }
    let deferred = CounterValue::Int(
        writer_model::as_signed(snapshot.deferred_materializer_queue_size),
    );
    let c = b.counted(t, "deferred_materializer_queue_size"@, count, None, deferred, now);
    lemma_counted(b, t, "deferred_materializer_queue_size"@, count, None, deferred, now);
    let blocking = CounterValue::Int(
        writer_model::as_signed(snapshot.blocking_executor_io_queue_size),
    );
    let d = c.counted(t, "blocking_executor_io_queue_size"@, count, None, blocking, now);
    lemma_counted(c, t, "blocking_executor_io_queue_size"@, count, None, blocking, now);
    let depth = CounterValue::Int(writer_model::as_signed(snapshot.tokio_blocking_queue_depth));
    lemma_counted(d, t, "tokio_blocking_queue_depth"@, count, None, depth, now);
}

proof fn lemma_rates(s: writer_model::WriterState, t: SystemTime, snapshot: Snapshot, now: int)
    ensures
        stays(s.sampled_rates(t, snapshot, now), s),
{
    sample_laws::lemma_lengths();
    lemma_not_of_spans();
    let a = s.rated(t, "user_cpu_us_per_s"@, snapshot.buck2_user_cpu_us, now);
    let b = a.rated(t, "system_cpu_us_per_s"@, snapshot.buck2_system_cpu_us, now);
    let c = b.rated(t, "re_upload_bytes_per_s"@, snapshot.re_upload_bytes, now);
    let d = c.rated(t, "re_download_bytes_per_s"@, snapshot.re_download_bytes, now);
    lemma_rated(s, t, "user_cpu_us_per_s"@, snapshot.buck2_user_cpu_us, now);
    lemma_rated(a, t, "system_cpu_us_per_s"@, snapshot.buck2_system_cpu_us, now);
    lemma_rated(b, t, "re_upload_bytes_per_s"@, snapshot.re_upload_bytes, now);
    lemma_rated(c, t, "re_download_bytes_per_s"@, snapshot.re_download_bytes, now);
    lemma_rated(d, t, "http_download_bytes_per_s"@, snapshot.http_download_bytes, now);
}

proof fn lemma_marked(
    s: writer_model::WriterState,
    t: int,
    name: Seq<char>,
    annotations: Seq<perfetto_proto::DebugAnnotationModel>,
    now: int,
)
    ensures
        stays(s.marked(t, name, annotations, now), s),
{
    reveal(writer_model::WriterState::marked);
    lemma_top_track(s, spans::TRACK_MISC, Category::Misc.name(), now);
    lemma_written(
        s.with_top_track(spans::TRACK_MISC, Category::Misc.name(), now),
        writer_model::timed(t, writer_model::instant_event(name, annotations)),
        now,
    );
}

proof fn lemma_sliced(
    s: writer_model::WriterState,
    start: int,
    end: int,
    uuid: u64,
    name: Seq<char>,
    correlation_id: Option<u64>,
    annotations: Seq<perfetto_proto::DebugAnnotationModel>,
    now: int,
)
    ensures
        stays(s.sliced(start, end, uuid, name, correlation_id, annotations, now), s),
{
    let b = writer_model::timed(
        start,
        writer_model::begin_event(uuid, name, correlation_id, annotations),
    );
    lemma_written(s, b, now);
    lemma_written(
        s.written(b, now),
        writer_model::timed(end, writer_model::end_event(uuid, correlation_id)),
        now,
    );
}

proof fn lemma_slice(
    s: writer_model::WriterState,
    span: writer_model::OpenSpanModel,
    d: nat,
    now: int,
)
    ensures
        stays(s.with_slice(span, d, now), s),
{
    reveal(writer_model::WriterState::with_slice);
    if !span.is_replaced() && d >= s.min_duration {
        let counted = writer_model::WriterState { spans_emitted: s.spans_emitted + 1, ..s };
        match span.role {
            writer_model::RoleModel::Stage { action_identity, is_waiting, .. } => {
                lemma_member_track(
                    counted,
                    span.track_uuid,
                    spans::TRACK_QUEUED,
                    "queued"@,
                    action_identity,
                    now,
                );
                lemma_member_track(
                    counted,
                    span.track_uuid,
                    Category::Actions.group_uuid(),
                    Category::Actions.name(),
                    action_identity,
                    now,
                );
            },
            _ => {
                lemma_member_track(
                    counted,
                    span.track_uuid,
                    span.category.group_uuid(),
                    span.category.name(),
                    span.name,
                    now,
                );
            },
        }
        lemma_sliced(
            counted.with_span_track(span, now),
            span.start@,
            span.start@ + d,
            span.track_uuid,
            span.slice_name(),
            span.correlation_id(),
            span.slice_annotations(),
            now,
        );
    }
}

proof fn lemma_path(s: writer_model::WriterState, t: int, entries: Seq<PathEntry>, now: int)
    ensures
        stays(s.with_path_slices(t, entries, now).0, s),
    decreases entries.len(),
{
    if entries.len() > 0 {
        lemma_path(s, t, entries.drop_last(), now);
        let (u, error) = s.with_path_slices(t, entries.drop_last(), now);
        let entry = entries.last();
        if error is None && writer_model::path_nanos(entry) >= 1_000_000 {
            if let Ok(Some(name)) = entry.display {
                let start = t + writer_model::path_offset(entry);
                lemma_sliced(
                    u,
                    start,
                    start + writer_model::path_nanos(entry),
                    spans::TRACK_CRITICAL_PATH,
                    name@,
                    None,
                    seq![],
                    now,
                );
            }
        }
    }
}

proof fn lemma_handled(s: writer_model::WriterState, event: BuckEvent, now: int)
    ensures
        stays(s.handled(event, now).0, s),
{
    let t = event.timestamp@;
    match event.data {
        EventData::SpanStart(Some(start)) => {
            if let Some(id) = event.span_id {
                let seen = writer_model::WriterState { spans_seen: s.spans_seen + 1, ..s };
                let begun = if start is Command {
                    writer_model::WriterState { command_start: Some(event.timestamp), ..seen }
                } else {
                    seen
                };
                if let Some(name) = spans::population_counter(start) {
                    lemma_bumped(begun, t, name, 1, now);
                }
            }
        },
        EventData::SpanEnd(end) => {
            if let Some(id) = event.span_id {
                let failed = s.with_failure(t, end.materialization, now);
                assert(stays(failed, s)) by {
                    reveal(writer_model::WriterState::with_failure);
                    if let Some(m) = end.materialization {
                        if !m.success {
                            lemma_marked(
                                s,
                                t,
                                "materialization_failure"@,
                                writer_model::failure_annotations(m),
                                now,
                            );
                        }
                    }
                }
                let counted = failed.without_counted_span(id, t, now);
                if failed.span_counter_open.contains_key(id) {
                    let without = writer_model::WriterState {
                        span_counter_open: failed.span_counter_open.remove(id),
                        ..failed
                    };
                    lemma_bumped(without, t, failed.span_counter_open[id], -1, now);
                }
                if counted.open_spans.contains_key(id) {
                    let closed = writer_model::WriterState {
                        open_spans: counted.open_spans.remove(id),
                        ..counted
                    };
                    if let Some(Ok(d)) = end.duration {
                        lemma_slice(closed, counted.open_spans[id], d@, now);
                    }
                }
            }
        },
        EventData::Instant(Some(Instant::Snapshot(snapshot))) => {
            let sizes = s.sampled_sizes(t, snapshot, now);
            let rates = sizes.sampled_rates(event.timestamp, snapshot, now);
            lemma_sizes(s, t, snapshot, now);
            lemma_rates(sizes, event.timestamp, snapshot, now);
            lemma_nics(rates, event.timestamp, snapshot.network_interface_stats@, now);
        },
        EventData::Instant(Some(Instant::CommandPreempted)) => {
            lemma_marked(s, t, "command_preempted"@, seq![], now);
        },
        EventData::Instant(Some(Instant::BuildGraphInfo(entries))) => {
            if let Some(start) = s.command_start {
                lemma_top_track(s, spans::TRACK_CRITICAL_PATH, "critical path"@, now);
                lemma_path(
                    s.with_top_track(spans::TRACK_CRITICAL_PATH, "critical path"@, now),
                    start@,
                    entries@,
                    now,
                );
            }
        },
        _ => {},
    }
}

/// Every packet of every trace belongs to the one sequence and is of one of the forms that
/// are written.
pub proof fn law_every_packet_is_shaped(min_duration: nat, events: Seq<(BuckEvent, int)>)
    ensures
        all_shaped(writer_laws::after_events(min_duration, events).packets),
    decreases events.len(),
{
    if events.len() > 0 {
        law_every_packet_is_shaped(min_duration, events.drop_last());
        lemma_handled(
            writer_laws::after_events(min_duration, events.drop_last()),
            events.last().0,
            events.last().1,
        );
    }
}

/// The clock packet shows the time at which it is written: the nanoseconds since the Unix
/// epoch in 64 bits, zero before the epoch.
pub proof fn law_clock_shows_the_time(now: int)
    ensures
        is_clock(writer_model::clock_packet(now)),
        ({
            let shown = (writer_model::clock_packet(now).clock_snapshot->0).clocks[0].timestamp->0;
            &&& now < 0 ==> shown == 0
            &&& now >= 0 ==> shown == now % 0x1_0000_0000_0000_0000
        }),
{
}

/// The statistics on one line: each number behind its name, between spaces.
pub proof fn law_statistics_line(stats: Stats)
    ensures
        stats.line() == text::joined(
            seq![
                "packets="@ + text::decimal(stats.packets as nat),
                "tracks="@ + text::decimal(stats.tracks as nat),
                "spans_seen="@ + text::decimal(stats.spans_seen as nat),
                "spans_emitted="@ + text::decimal(stats.spans_emitted as nat),
                "spans_dropped="@ + text::decimal(stats.spans_dropped as nat),
                "counters="@ + text::decimal(stats.counters_emitted as nat),
                "instants="@ + text::decimal(stats.instants_emitted as nat),
                "critical_path_slices="@ + text::decimal(stats.critical_path_slices as nat),
            ],
            " "@,
        ),
{
    let a = "packets="@ + text::decimal(stats.packets as nat);
    let b = "tracks="@ + text::decimal(stats.tracks as nat);
    let c = "spans_seen="@ + text::decimal(stats.spans_seen as nat);
    let d = "spans_emitted="@ + text::decimal(stats.spans_emitted as nat);
    let e = "spans_dropped="@ + text::decimal(stats.spans_dropped as nat);
    let f = "counters="@ + text::decimal(stats.counters_emitted as nat);
    let g = "instants="@ + text::decimal(stats.instants_emitted as nat);
    let h = "critical_path_slices="@ + text::decimal(stats.critical_path_slices as nat);
    let sep = " "@;
    lemma_joined_push(seq![a], b, sep);
    assert(seq![a].push(b) =~= seq![a, b]);
    lemma_joined_push(seq![a, b], c, sep);
    assert(seq![a, b].push(c) =~= seq![a, b, c]);
    lemma_joined_push(seq![a, b, c], d, sep);
    assert(seq![a, b, c].push(d) =~= seq![a, b, c, d]);
    lemma_joined_push(seq![a, b, c, d], e, sep);
    assert(seq![a, b, c, d].push(e) =~= seq![a, b, c, d, e]);
    lemma_joined_push(seq![a, b, c, d, e], f, sep);
    assert(seq![a, b, c, d, e].push(f) =~= seq![a, b, c, d, e, f]);
    lemma_joined_push(seq![a, b, c, d, e, f], g, sep);
    assert(seq![a, b, c, d, e, f].push(g) =~= seq![a, b, c, d, e, f, g]);
    lemma_joined_push(seq![a, b, c, d, e, f, g], h, sep);
    assert(seq![a, b, c, d, e, f, g].push(h) =~= seq![a, b, c, d, e, f, g, h]);
    lemma_spaced_words();
    let x1 = a;
    let x2 = x1 + sep + b;
    let x3 = x2 + sep + c;
    let x4 = x3 + sep + d;
    let x5 = x4 + sep + e;
    let x6 = x5 + sep + f;
    let x7 = x6 + sep + g;
    lemma_word(x1, "tracks="@, text::decimal(stats.tracks as nat));
    lemma_word(x2, "spans_seen="@, text::decimal(stats.spans_seen as nat));
    lemma_word(x3, "spans_emitted="@, text::decimal(stats.spans_emitted as nat));
    lemma_word(x4, "spans_dropped="@, text::decimal(stats.spans_dropped as nat));
    lemma_word(x5, "counters="@, text::decimal(stats.counters_emitted as nat));
    lemma_word(x6, "instants="@, text::decimal(stats.instants_emitted as nat));
    lemma_word(x7, "critical_path_slices="@, text::decimal(stats.critical_path_slices as nat));
}

proof fn lemma_word(x: Seq<char>, word: Seq<char>, value: Seq<char>)
    ensures
        x + (" "@ + word) + value == x + " "@ + (word + value),
{
    assert(x + (" "@ + word) + value =~= x + " "@ + (word + value));
}

proof fn lemma_joined_push(parts: Seq<Seq<char>>, part: Seq<char>, sep: Seq<char>)
    requires
        parts.len() > 0,
    ensures
        text::joined(parts.push(part), sep) == text::joined(parts, sep) + sep + part,
{
    assert(parts.push(part).drop_last() =~= parts);
}

proof fn lemma_spaced_words()
    ensures
        " tracks="@ == " "@ + "tracks="@,
        " spans_seen="@ == " "@ + "spans_seen="@,
        " spans_emitted="@ == " "@ + "spans_emitted="@,
        " spans_dropped="@ == " "@ + "spans_dropped="@,
        " counters="@ == " "@ + "counters="@,
        " instants="@ == " "@ + "instants="@,
        " critical_path_slices="@ == " "@ + "critical_path_slices="@,
{
    reveal_strlit(" ");
    reveal_strlit(" tracks=");
    reveal_strlit("tracks=");
    assert(" tracks="@ =~= " "@ + "tracks="@);
    reveal_strlit(" spans_seen=");
    reveal_strlit("spans_seen=");
    assert(" spans_seen="@ =~= " "@ + "spans_seen="@);
    reveal_strlit(" spans_emitted=");
    reveal_strlit("spans_emitted=");
    assert(" spans_emitted="@ =~= " "@ + "spans_emitted="@);
    reveal_strlit(" spans_dropped=");
    reveal_strlit("spans_dropped=");
    assert(" spans_dropped="@ =~= " "@ + "spans_dropped="@);
    reveal_strlit(" counters=");
    reveal_strlit("counters=");
    assert(" counters="@ =~= " "@ + "counters="@);
    reveal_strlit(" instants=");
    reveal_strlit("instants=");
    assert(" instants="@ =~= " "@ + "instants="@);
    reveal_strlit(" critical_path_slices=");
    reveal_strlit("critical_path_slices=");
    assert(" critical_path_slices="@ =~= " "@ + "critical_path_slices="@);
}

/// The statistics of a trace are the numbers of its packets of each kind. Every slice is that
/// of a span or of an entry of the critical path.
pub proof fn law_statistics_count_packets(
    stats: Stats,
    min_duration: nat,
    events: Seq<(BuckEvent, int)>,
)
    requires
        stats.counts(writer_laws::after_events(min_duration, events)),
    ensures
        ({
            let packets = writer_laws::after_events(min_duration, events).packets;
            &&& stats.packets == packets.len()
            &&& stats.tracks == writer_laws::number(packets, PacketKind::Declaration)
            &&& stats.counters_emitted == writer_laws::number(packets, PacketKind::Counter)
            &&& stats.instants_emitted == writer_laws::number(packets, PacketKind::Instant)
            &&& stats.spans_emitted + stats.critical_path_slices == writer_laws::number(
                packets,
                PacketKind::Begin,
            )
            &&& stats.spans_seen == name_laws::starts_seen(events)
            &&& stats.spans_dropped == writer_laws::after_events(
                min_duration,
                events,
            ).spans_dropped
        }),
{
    writer_laws::law_statistics_account_for_packets(min_duration, events);
    name_laws::law_every_start_is_seen(min_duration, events);
}

} // verus!
