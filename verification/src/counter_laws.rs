//! That counters have tracks of their own, and that the counters of open spans show how
//! many spans are open.

use vstd::prelude::*;

use crate::events::BuckEvent;
use crate::events::EventData;
use crate::events::Instant;
use crate::events::NetworkInterfaceStats;
use crate::events::PathEntry;
use crate::events::Snapshot;
use crate::events::SpanEnd;
use crate::events::SpanStart;
use crate::perfetto_proto;
use crate::perfetto_proto::UNIT_COUNT;
use crate::span_laws;
use crate::spans;
use crate::spans::Category;
use crate::spans::COUNTER_TRACK_BASE;
use crate::spans::TRACK_CRITICAL_PATH;
use crate::spans::TRACK_MISC;
use crate::spans::TRACK_SPAN_COUNTERS;
use crate::time::SystemTime;
use crate::track_laws;
use crate::writer_laws;
use crate::writer_laws::PacketKind;
use crate::writer_model;
use crate::writer_model::CounterValue;
use crate::writer_model::SEQUENCE_ID;

verus! {

/// Whether the packet declares the track of the counter with the given name.
pub open spec fn declares_named(p: perfetto_proto::TracePacketModel, name: Seq<char>) -> bool {
    p.track_descriptor matches Some(d) && d.counter is Some && d.name == Some(name)
}

/// The declaration of the counter with the given name.
pub open spec fn descriptor(
    packets: Seq<perfetto_proto::TracePacketModel>,
    name: Seq<char>,
) -> Option<perfetto_proto::TrackDescriptorModel>
    decreases packets.len(),
{
    if packets.len() == 0 {
        None
    } else if declares_named(packets.last(), name) {
        packets.last().track_descriptor
    } else {
        descriptor(packets.drop_last(), name)
    }
}

/// How often a counter with the given name is declared.
pub open spec fn times_named(
    packets: Seq<perfetto_proto::TracePacketModel>,
    name: Seq<char>,
) -> nat
    decreases packets.len(),
{
    if packets.len() == 0 {
        0
    } else {
        times_named(packets.drop_last(), name) + if declares_named(packets.last(), name) {
            1nat
        } else {
            0nat
        }
    }
}

/// How often a track is declared as that of a counter.
pub open spec fn times_declared(packets: Seq<perfetto_proto::TracePacketModel>, uuid: u64) -> nat
    decreases packets.len(),
{
    if packets.len() == 0 {
        0
    } else {
        times_declared(packets.drop_last(), uuid) + if writer_laws::declares_counter(
            packets.last(),
            uuid,
        ) {
            1nat
        } else {
            0nat
        }
    }
}

/// The whole number that the packet gives to the counter on a track, if it gives one.
pub open spec fn value_on(p: perfetto_proto::TracePacketModel, uuid: u64) -> Option<i64> {
    match p.track_event {
        Some(e) => if e.track_uuid == Some(uuid) {
            e.counter_value
        } else {
            None
        },
        None => None,
    }
}

/// The last whole number that was given to the counter on a track.
pub open spec fn last_value(packets: Seq<perfetto_proto::TracePacketModel>, uuid: u64) -> Option<
    i64,
>
    decreases packets.len(),
{
    if packets.len() == 0 {
        None
    } else if value_on(packets.last(), uuid) is Some {
        value_on(packets.last(), uuid)
    } else {
        last_value(packets.drop_last(), uuid)
    }
}

/// The last whole number that was given to the counter with the given name, zero if none
/// was.
pub open spec fn last_shown(
    packets: Seq<perfetto_proto::TracePacketModel>,
    name: Seq<char>,
) -> int {
    match descriptor(packets, name) {
        Some(d) => match d.uuid {
            Some(uuid) => match last_value(packets, uuid) {
                Some(v) => v as int,
                None => 0,
            },
            None => 0,
        },
        None => 0,
    }
}

/// What the trace shows as the number of open spans that are counted under a name.
pub open spec fn shown_population(
    packets: Seq<perfetto_proto::TracePacketModel>,
    name: Seq<char>,
) -> int {
    last_shown(packets, "spans: "@ + name)
}

/// Every counter has a track of its own, from the base of the counter tracks on, which is
/// declared exactly once as that of a counter. Nothing was written to tracks that are
/// still to come.
pub open spec fn counters_sound(s: writer_model::WriterState) -> bool {
    &&& s.next_counter_uuid >= COUNTER_TRACK_BASE
    &&& track_laws::counters_distinct(s)
    &&& forall|name: Seq<char>|
        match #[trigger] descriptor(s.packets, name) {
            Some(d) => s.counter_tracks.contains_key(name) && d.uuid == Some(
                s.counter_tracks[name],
            ),
            None => !s.counter_tracks.contains_key(name),
        }
    &&& forall|name: Seq<char>| #[trigger]
        times_named(s.packets, name) == if s.counter_tracks.contains_key(name) {
            1nat
        } else {
            0nat
        }
    &&& forall|uuid: u64| #[trigger]
        times_declared(s.packets, uuid) == if COUNTER_TRACK_BASE <= uuid < s.next_counter_uuid {
            1nat
        } else {
            0nat
        }
    &&& forall|uuid: u64|
        uuid >= s.next_counter_uuid ==> #[trigger] last_value(s.packets, uuid) is None
}

/// The counters of open spans show what the writer has counted.
pub open spec fn populations_shown(s: writer_model::WriterState) -> bool {
    forall|name: Seq<char>| #[trigger]
        shown_population(s.packets, name) == s.population(name) as i64
}

/// Every counter has its track, and those of open spans show what was counted.
pub open spec fn counters_right(s: writer_model::WriterState) -> bool {
    counters_sound(s) && populations_shown(s)
}

/// Counters that had a track keep it, under the same declaration.
pub open spec fn counters_kept(
    after: writer_model::WriterState,
    before: writer_model::WriterState,
) -> bool {
    &&& after.next_counter_uuid >= before.next_counter_uuid
    &&& forall|name: Seq<char>| #[trigger]
        before.counter_tracks.contains_key(name) ==> after.counter_tracks.contains_key(name)
            && after.counter_tracks[name] == before.counter_tracks[name] && descriptor(
            after.packets,
            name,
        ) == descriptor(before.packets, name)
}

/// Nothing was declared or written that concerns the whole numbers of counters.
spec fn quiet(after: writer_model::WriterState, before: writer_model::WriterState) -> bool {
    &&& after.counter_tracks == before.counter_tracks
    &&& after.next_counter_uuid == before.next_counter_uuid
    &&& after.span_counter_values == before.span_counter_values
    &&& forall|name: Seq<char>| #[trigger]
        descriptor(after.packets, name) == descriptor(before.packets, name)
    &&& forall|name: Seq<char>| #[trigger]
        times_named(after.packets, name) == times_named(before.packets, name)
    &&& forall|uuid: u64| #[trigger]
        times_declared(after.packets, uuid) == times_declared(before.packets, uuid)
    &&& forall|uuid: u64| #[trigger]
        last_value(after.packets, uuid) == last_value(before.packets, uuid)
}

proof fn lemma_quiet(after: writer_model::WriterState, before: writer_model::WriterState)
    requires
        quiet(after, before),
        counters_right(before),
    ensures
        counters_right(after),
        counters_kept(after, before),
{
    assert forall|name: Seq<char>| #[trigger]
        shown_population(after.packets, name) == after.population(name) as i64 by {
        assert(shown_population(before.packets, name) == before.population(name) as i64);
        assert(descriptor(after.packets, "spans: "@ + name) == descriptor(
            before.packets,
            "spans: "@ + name,
        ));
    }
}

proof fn lemma_push(
    packets: Seq<perfetto_proto::TracePacketModel>,
    p: perfetto_proto::TracePacketModel,
)
    ensures
        forall|name: Seq<char>| #[trigger]
            descriptor(packets.push(p), name) == if declares_named(p, name) {
                p.track_descriptor
            } else {
                descriptor(packets, name)
            },
        forall|name: Seq<char>| #[trigger]
            times_named(packets.push(p), name) == times_named(packets, name)
                + if declares_named(p, name) {
                1nat
            } else {
                0nat
            },
        forall|uuid: u64| #[trigger]
            times_declared(packets.push(p), uuid) == times_declared(packets, uuid)
                + if writer_laws::declares_counter(p, uuid) {
                1nat
            } else {
                0nat
            },
        forall|uuid: u64| #[trigger]
            last_value(packets.push(p), uuid) == if value_on(p, uuid) is Some {
                value_on(p, uuid)
            } else {
                last_value(packets, uuid)
            },
{
    assert(packets.push(p).drop_last() =~= packets);
}

/// What one more packet changes.
proof fn lemma_written(
    s: writer_model::WriterState,
    p: perfetto_proto::TracePacketModel,
    now: int,
)
    ensures
        forall|name: Seq<char>| #[trigger]
            descriptor(s.written(p, now).packets, name) == if declares_named(p, name) {
                p.track_descriptor
            } else {
                descriptor(s.packets, name)
            },
        forall|name: Seq<char>| #[trigger]
            times_named(s.written(p, now).packets, name) == times_named(s.packets, name)
                + if declares_named(p, name) {
                1nat
            } else {
                0nat
            },
        forall|uuid: u64| #[trigger]
            times_declared(s.written(p, now).packets, uuid) == times_declared(s.packets, uuid)
                + if writer_laws::declares_counter(p, uuid) {
                1nat
            } else {
                0nat
            },
        forall|uuid: u64| #[trigger]
            last_value(s.written(p, now).packets, uuid) == if value_on(p, uuid) is Some {
                value_on(p, uuid)
            } else {
                last_value(s.packets, uuid)
            },
{
    let q = perfetto_proto::TracePacketModel {
        trusted_packet_sequence_id: Some(SEQUENCE_ID),
        ..p
    };
    if s.packets.len() == 0 {
        let clock = writer_model::clock_packet(now);
        lemma_push(s.packets, clock);
        assert(s.packets.push(clock) =~= seq![clock]);
        lemma_push(seq![clock], q);
    } else {
        lemma_push(s.packets, q);
    }
}

/// One more packet that declares no counter and gives none a whole number.
proof fn lemma_written_quiet(
    s: writer_model::WriterState,
    p: perfetto_proto::TracePacketModel,
    now: int,
)
    requires
        p.track_descriptor matches Some(d) ==> d.counter is None,
        p.track_event matches Some(e) ==> e.counter_value is None,
    ensures
        quiet(s.written(p, now), s),
{
    lemma_written(s, p, now);
}

proof fn lemma_top_track(s: writer_model::WriterState, uuid: u64, name: Seq<char>, now: int)
    ensures
        quiet(s.with_top_track(uuid, name, now), s),
{
    if !s.emitted_tracks.contains(uuid) {
        let middle = writer_model::WriterState {
            emitted_tracks: s.emitted_tracks.insert(uuid),
            tracks: s.tracks + 1,
            ..s
        };
        lemma_written_quiet(
            middle,
            writer_model::declaration(writer_model::top_track(uuid, name)),
            now,
        );
    }
}

/// Declaring a track of another kind leaves the counters right.
pub proof fn lemma_top_track_right(
    s: writer_model::WriterState,
    uuid: u64,
    name: Seq<char>,
    now: int,
)
    requires
        counters_right(s),
    ensures
        counters_right(s.with_top_track(uuid, name, now)),
{
    lemma_top_track(s, uuid, name, now);
    lemma_quiet(s.with_top_track(uuid, name, now), s);
}

proof fn lemma_member_track(
    s: writer_model::WriterState,
    uuid: u64,
    group: u64,
    group_name: Seq<char>,
    name: Seq<char>,
    now: int,
)
    ensures
        quiet(s.with_member_track(uuid, group, group_name, name, now), s),
{
    if !s.emitted_tracks.contains(uuid) {
        lemma_top_track(s, group, group_name, now);
        let t = s.with_top_track(group, group_name, now);
        let middle = writer_model::WriterState {
            emitted_tracks: t.emitted_tracks.insert(uuid),
            tracks: t.tracks + 1,
            ..t
        };
        lemma_written_quiet(
            middle,
            writer_model::declaration(
                writer_model::member_track(uuid, group, group_name, name),
            ),
            now,
        );
    }
}

proof fn lemma_sliced(
    s: writer_model::WriterState,
    start: int,
    end: int,
    uuid: u64,
    name: Seq<char>,
    correlation_id: Option<u64>,
    annotations: Seq<perfetto_proto::DebugAnnotationModel>,
    now: int,
)
    ensures
        quiet(s.sliced(start, end, uuid, name, correlation_id, annotations, now), s),
{
    let b = writer_model::timed(
        start,
        writer_model::begin_event(uuid, name, correlation_id, annotations),
    );
    let e = writer_model::timed(end, writer_model::end_event(uuid, correlation_id));
    lemma_written_quiet(s, b, now);
    lemma_written_quiet(s.written(b, now), e, now);
}

proof fn lemma_marked(
    s: writer_model::WriterState,
    t: int,
    name: Seq<char>,
    annotations: Seq<perfetto_proto::DebugAnnotationModel>,
    now: int,
)
    ensures
        quiet(s.marked(t, name, annotations, now), s),
{
    reveal(writer_model::WriterState::marked);
    lemma_top_track(s, TRACK_MISC, Category::Misc.name(), now);
    lemma_written_quiet(
        s.with_top_track(TRACK_MISC, Category::Misc.name(), now),
        writer_model::timed(t, writer_model::instant_event(name, annotations)),
        now,
    );
}

proof fn lemma_slice(
    s: writer_model::WriterState,
    span: writer_model::OpenSpanModel,
    d: nat,
    now: int,
)
    ensures
        quiet(s.with_slice(span, d, now), s),
        s.with_slice(span, d, now).counters_emitted == s.counters_emitted,
{
    reveal(writer_model::WriterState::with_slice);
    if !span.is_replaced() && d >= s.min_duration {
        let counted = writer_model::WriterState { spans_emitted: s.spans_emitted + 1, ..s };
        let declared = counted.with_span_track(span, now);
        assert(quiet(declared, counted)) by {
            match span.role {
                writer_model::RoleModel::Stage { action_identity, is_waiting, .. } => {
                    lemma_member_track(
                        counted,
                        span.track_uuid,
                        spans::TRACK_QUEUED,
                        "queued"@,
                        action_identity,
                        now,
                    );
                    lemma_member_track(
                        counted,
                        span.track_uuid,
                        Category::Actions.group_uuid(),
                        Category::Actions.name(),
                        action_identity,
                        now,
                    );
                },
                _ => {
                    lemma_member_track(
                        counted,
                        span.track_uuid,
                        span.category.group_uuid(),
                        span.category.name(),
                        span.name,
                        now,
                    );
                },
            }
        }
        lemma_sliced(
            declared,
            span.start@,
            span.start@ + d,
            span.track_uuid,
            span.slice_name(),
            span.correlation_id(),
            span.slice_annotations(),
            now,
        );
    }
}

proof fn lemma_path_slices(
    s: writer_model::WriterState,
    t: int,
    entries: Seq<PathEntry>,
    now: int,
)
    ensures
        quiet(s.with_path_slices(t, entries, now).0, s),
    decreases entries.len(),
{
    if entries.len() > 0 {
        lemma_path_slices(s, t, entries.drop_last(), now);
        let (u, error) = s.with_path_slices(t, entries.drop_last(), now);
        let entry = entries.last();
        if error is None && writer_model::path_nanos(entry) >= 1_000_000 {
            if let Ok(Some(name)) = entry.display {
                let start = t + writer_model::path_offset(entry);
                lemma_sliced(
                    u,
                    start,
                    start + writer_model::path_nanos(entry),
                    TRACK_CRITICAL_PATH,
                    name@,
                    None,
                    seq![],
                    now,
                );
            }
        }
    }
}

/// Declaring the track of a counter.
pub proof fn lemma_counter_track(
    s: writer_model::WriterState,
    name: Seq<char>,
    unit: i32,
    parent: Option<u64>,
    now: int,
)
    requires
        counters_right(s),
        s.with_counter_track(name, unit, parent, now).next_counter_uuid <= u64::MAX,
    ensures
        counters_right(s.with_counter_track(name, unit, parent, now)),
        counters_kept(s.with_counter_track(name, unit, parent, now), s),
        s.with_counter_track(name, unit, parent, now).counter_tracks.contains_key(name),
        !s.counter_tracks.contains_key(name) ==> descriptor(
            s.with_counter_track(name, unit, parent, now).packets,
            name,
        ) == Some(
            writer_model::counter_track(
                s.with_counter_track(name, unit, parent, now).counter_tracks[name],
                name,
                unit,
                parent,
            ),
        ),
{
    let after = s.with_counter_track(name, unit, parent, now);
    if !s.counter_tracks.contains_key(name) {
        let uuid = s.next_counter_uuid as u64;
        let middle = writer_model::WriterState {
            next_counter_uuid: s.next_counter_uuid + 1,
            counter_tracks: s.counter_tracks.insert(name, uuid),
            tracks: s.tracks + 1,
            ..s
        };
        let p = writer_model::declaration(
            writer_model::counter_track(uuid, name, unit, parent),
        );
        lemma_written(middle, p, now);
        assert(after == middle.written(p, now));
        assert forall|n: Seq<char>| n != name implies descriptor(after.packets, n)
            == #[trigger] descriptor(s.packets, n) by {
            assert(!declares_named(p, n));
            assert(descriptor(middle.written(p, now).packets, n) == descriptor(s.packets, n));
        }
        assert(declares_named(p, name));
        assert(descriptor(middle.written(p, now).packets, name) == p.track_descriptor);
        assert(descriptor(s.packets, name) is None);
        assert(last_value(s.packets, uuid) is None);
        assert(counters_sound(after)) by {
            assert forall|n: Seq<char>|
                match #[trigger] descriptor(after.packets, n) {
                    Some(d) => after.counter_tracks.contains_key(n) && d.uuid == Some(
                        after.counter_tracks[n],
                    ),
                    None => !after.counter_tracks.contains_key(n),
                } by {
                if n != name {
                    assert(descriptor(after.packets, n) == descriptor(s.packets, n));
                }
            }
            assert forall|n: Seq<char>| #[trigger]
                times_named(after.packets, n) == if after.counter_tracks.contains_key(n) {
                    1nat
                } else {
                    0nat
                } by {
                assert(times_named(middle.written(p, now).packets, n) == times_named(
                    s.packets,
                    n,
                ) + if declares_named(p, n) {
                    1nat
                } else {
                    0nat
                });
                assert(declares_named(p, n) <==> n == name);
            }
            assert forall|u: u64| #[trigger]
                times_declared(after.packets, u) == if COUNTER_TRACK_BASE <= u
                    < after.next_counter_uuid {
                    1nat
                } else {
                    0nat
                } by {
                assert(times_declared(middle.written(p, now).packets, u) == times_declared(
                    s.packets,
                    u,
                ) + if writer_laws::declares_counter(p, u) {
                    1nat
                } else {
                    0nat
                });
                assert(writer_laws::declares_counter(p, u) <==> u == uuid);
            }
            assert forall|u: u64| u >= after.next_counter_uuid implies #[trigger] last_value(
                after.packets,
                u,
            ) is None by {
                assert(last_value(middle.written(p, now).packets, u) == last_value(
                    s.packets,
                    u,
                ));
            }
        }
        assert forall|n: Seq<char>| #[trigger]
            shown_population(after.packets, n) == after.population(n) as i64 by {
            let track = "spans: "@ + n;
            assert(shown_population(s.packets, n) == s.population(n) as i64);
            if track != name {
                assert(descriptor(after.packets, track) == descriptor(s.packets, track));
                if let Some(d) = descriptor(s.packets, track) {
                    let u = d.uuid->0;
                    assert(last_value(middle.written(p, now).packets, u) == last_value(
                        s.packets,
                        u,
                    ));
                }
            } else {
                assert(last_value(middle.written(p, now).packets, uuid) is None);
            }
        }
    }
}

/// A counter whose track is declared takes a value.
proof fn lemma_value(
    s: writer_model::WriterState,
    t: int,
    name: Seq<char>,
    value: CounterValue,
    now: int,
)
    requires
        counters_sound(s),
        s.counter_tracks.contains_key(name),
    ensures
        ({
            let p = writer_model::timed(
                t,
                writer_model::counter_event(s.counter_tracks[name], value),
            );
            let after = s.written(p, now);
            &&& counters_sound(after)
            &&& counters_kept(after, s)
            &&& forall|n: Seq<char>| #[trigger]
                last_shown(after.packets, n) == if n == name && value is Int {
                    value->Int_0 as int
                } else {
                    last_shown(s.packets, n)
                }
        }),
{
    let uuid = s.counter_tracks[name];
    let p = writer_model::timed(t, writer_model::counter_event(uuid, value));
    let after = s.written(p, now);
    lemma_written(s, p, now);
    assert forall|n: Seq<char>| #[trigger]
        descriptor(after.packets, n) == descriptor(s.packets, n) by {
        assert(!declares_named(p, n));
    }
    assert forall|u: u64| #[trigger]
        last_value(after.packets, u) == if u == uuid && value is Int {
            Some(value->Int_0)
        } else {
            last_value(s.packets, u)
        } by {}
    assert(descriptor(s.packets, name) is Some);
    assert forall|n: Seq<char>| #[trigger]
        last_shown(after.packets, n) == if n == name && value is Int {
            value->Int_0 as int
        } else {
            last_shown(s.packets, n)
        } by {
        assert(descriptor(after.packets, n) == descriptor(s.packets, n));
        if let Some(d) = descriptor(s.packets, n) {
            assert(s.counter_tracks.contains_key(n));
            if n != name {
                assert(s.counter_tracks[n] != uuid);
            }
            assert(last_value(after.packets, s.counter_tracks[n]) == if n == name
                && value is Int {
                Some(value->Int_0)
            } else {
                last_value(s.packets, s.counter_tracks[n])
            });
        }
    }
    assert(track_laws::counters_distinct(after));
}

/// A counter takes a value that leaves the counters of open spans alone.
pub broadcast proof fn lemma_counted(
    s: writer_model::WriterState,
    t: int,
    name: Seq<char>,
    unit: i32,
    parent: Option<u64>,
    value: CounterValue,
    now: int,
)
    requires
        counters_right(s),
        s.counted(t, name, unit, parent, value, now).next_counter_uuid <= u64::MAX,
        value is Double || !begins_spans(name),
    ensures
        #![trigger s.counted(t, name, unit, parent, value, now)]
        counters_right(s.counted(t, name, unit, parent, value, now)),
        counters_kept(s.counted(t, name, unit, parent, value, now), s),
{
    reveal(writer_model::WriterState::counted);
    let d = s.with_counter_track(name, unit, parent, now);
    lemma_counter_track(s, name, unit, parent, now);
    lemma_value(d, t, name, value, now);
    let p = writer_model::timed(t, writer_model::counter_event(d.counter_tracks[name], value));
    let w = d.written(p, now);
    let after = s.counted(t, name, unit, parent, value, now);
    assert(after.packets == w.packets);
    assert forall|n: Seq<char>| #[trigger]
        shown_population(after.packets, n) == after.population(n) as i64 by {
        assert(shown_population(d.packets, n) == d.population(n) as i64);
        assert(begins_spans("spans: "@ + n)) by {
            assert(("spans: "@ + n).take("spans: "@.len() as int) =~= "spans: "@);
        }
        assert(last_shown(w.packets, "spans: "@ + n) == last_shown(d.packets, "spans: "@ + n));
    }
    assert(counters_sound(after));
    assert(counters_kept(after, s));
}

/// Whether the name is one of a counter of open spans.
pub open spec fn begins_spans(name: Seq<char>) -> bool {
    name.len() >= "spans: "@.len() && name.take("spans: "@.len() as int) == "spans: "@
}

/// The number of open spans that are counted under a name changes.
proof fn lemma_bumped(
    s: writer_model::WriterState,
    t: int,
    name: Seq<char>,
    delta: int,
    now: int,
)
    requires
        counters_right(s),
        s.bumped(t, name, delta, now).next_counter_uuid <= u64::MAX,
    ensures
        counters_right(s.bumped(t, name, delta, now)),
        counters_kept(s.bumped(t, name, delta, now), s),
        s.bumped(t, name, delta, now).counters_emitted == s.counters_emitted + 1,
{
    reveal(writer_model::WriterState::bumped);
    reveal(writer_model::WriterState::counted);
    let track = "spans: "@ + name;
    let value = CounterValue::Int((s.population(name) + delta) as i64);
    let top = s.with_top_track(TRACK_SPAN_COUNTERS, "open spans"@, now);
    lemma_top_track(s, TRACK_SPAN_COUNTERS, "open spans"@, now);
    lemma_quiet(top, s);
    let d = top.with_counter_track(track, UNIT_COUNT, Some(TRACK_SPAN_COUNTERS), now);
    let after = s.bumped(t, name, delta, now);
    assert(after.next_counter_uuid == d.next_counter_uuid);
    lemma_counter_track(top, track, UNIT_COUNT, Some(TRACK_SPAN_COUNTERS), now);
    lemma_value(d, t, track, value, now);
    let p = writer_model::timed(t, writer_model::counter_event(d.counter_tracks[track], value));
    let w = d.written(p, now);
    assert(after.packets == w.packets);
    assert forall|n: Seq<char>| #[trigger]
        shown_population(after.packets, n) == after.population(n) as i64 by {
        let other = "spans: "@ + n;
        assert(shown_population(d.packets, n) == d.population(n) as i64);
        if n != name {
            assert(other != track) by {
                assert(other.skip("spans: "@.len() as int) =~= n);
                assert(track.skip("spans: "@.len() as int) =~= name);
            }
            assert(last_shown(w.packets, other) == last_shown(d.packets, other));
        } else {
            assert(last_shown(w.packets, track) == value->Int_0 as int);
        }
    }
    assert(counters_sound(after));
}

pub broadcast proof fn lemma_rated(
    s: writer_model::WriterState,
    t: SystemTime,
    name: Seq<char>,
    amount: u64,
    now: int,
)
    requires
        counters_right(s),
        s.rated(t, name, amount, now).next_counter_uuid <= u64::MAX,
    ensures
        #![trigger s.rated(t, name, amount, now)]
        counters_right(s.rated(t, name, amount, now)),
        counters_kept(s.rated(t, name, amount, now), s),
{
    reveal(writer_model::WriterState::rated);
    if s.prev_rate.contains_key(name) && s.prev_rate[name].0@ < t@ {
        let (earlier, before) = s.prev_rate[name];
        let delta: nat = if amount < before {
            0
        } else {
            (amount - before) as nat
        };
        let bits = crate::binary64::bits_of(
            crate::binary64::per_second(delta, (t@ - earlier@) as nat),
        );
        let counted = s.counted(t@, name, UNIT_COUNT, None, CounterValue::Double(bits), now);
        lemma_counted(s, t@, name, UNIT_COUNT, None, CounterValue::Double(bits), now);
        let after = s.rated(t, name, amount, now);
        assert(quiet(after, counted));
        lemma_quiet(after, counted);
    } else {
        let after = s.rated(t, name, amount, now);
        assert(quiet(after, s));
        lemma_quiet(after, s);
    }
}

proof fn lemma_sampled_sizes(
    s: writer_model::WriterState,
    t: int,
    snapshot: Snapshot,
    now: int,
)
    requires
        counters_right(s),
        s.sampled_sizes(t, snapshot, now).next_counter_uuid <= u64::MAX,
    ensures
        counters_right(s.sampled_sizes(t, snapshot, now)),
        counters_kept(s.sampled_sizes(t, snapshot, now), s),
{
    broadcast use lemma_counted;
    broadcast use writer_model::lemma_counted_grows;

    assert(!begins_spans("deferred_materializer_queue_size"@) && !begins_spans(
        "blocking_executor_io_queue_size"@,
    ) && !begins_spans("tokio_blocking_queue_depth"@)) by {
        reveal_strlit("spans: ");
        reveal_strlit("deferred_materializer_queue_size");
        reveal_strlit("blocking_executor_io_queue_size");
        reveal_strlit("tokio_blocking_queue_depth");
        assert("spans: "@[0] == 's');
        assert("deferred_materializer_queue_size"@.take(7)[0] == 'd');
        assert("blocking_executor_io_queue_size"@.take(7)[0] == 'b');
        assert("tokio_blocking_queue_depth"@.take(7)[0] == 't');
    }
}

proof fn lemma_sampled_nics(
    s: writer_model::WriterState,
    t: SystemTime,
    nics: Seq<NetworkInterfaceStats>,
    now: int,
)
    requires
        counters_right(s),
        s.sampled_nics(t, nics, now).next_counter_uuid <= u64::MAX,
    ensures
        counters_right(s.sampled_nics(t, nics, now)),
        counters_kept(s.sampled_nics(t, nics, now), s),
    decreases nics.len(),
{
    broadcast use lemma_rated;
    broadcast use writer_model::lemma_rated_grows;

    if nics.len() > 0 {
        lemma_sampled_nics(s, t, nics.drop_last(), now);
    }
}

proof fn lemma_sampled(
    s: writer_model::WriterState,
    t: SystemTime,
    snapshot: Snapshot,
    now: int,
)
    requires
        counters_right(s),
        s.sampled(t, snapshot, now).next_counter_uuid <= u64::MAX,
    ensures
        counters_right(s.sampled(t, snapshot, now)),
        counters_kept(s.sampled(t, snapshot, now), s),
{
    let sizes = s.sampled_sizes(t@, snapshot, now);
    let rates = sizes.sampled_rates(t, snapshot, now);
    let nics = snapshot.network_interface_stats@;
    writer_model::lemma_sampled_nics_grows(rates, t, nics, 0, now);
    assert(nics.take(0) =~= Seq::<NetworkInterfaceStats>::empty());
    writer_model::lemma_sampled_rates_grows(sizes, t, snapshot, now);
    lemma_sampled_sizes(s, t@, snapshot, now);
    assert(counters_right(rates) && counters_kept(rates, sizes)) by {
        broadcast use lemma_rated;
        broadcast use writer_model::lemma_rated_grows;

    }
    lemma_sampled_nics(rates, t, nics, now);
}

/// How many counters the event of a span moves.
spec fn moves(b: bool) -> nat {
    if b {
        1
    } else {
        0
    }
}

proof fn lemma_start(
    s: writer_model::WriterState,
    event: BuckEvent,
    start: SpanStart,
    now: int,
)
    requires
        counters_right(s),
        event.data == EventData::SpanStart(Some(start)),
        s.after_start(event, start, now).0.next_counter_uuid <= u64::MAX,
    ensures
        counters_right(s.after_start(event, start, now).0),
        counters_kept(s.after_start(event, start, now).0, s),
        s.after_start(event, start, now).0.counters_emitted == s.counters_emitted + moves(
            span_laws::counted_start(event) is Some,
        ),
{
    let after = s.after_start(event, start, now).0;
    if let Some(id) = event.span_id {
        let seen = writer_model::WriterState { spans_seen: s.spans_seen + 1, ..s };
        assert(quiet(seen, s));
        lemma_quiet(seen, s);
        if let Ok((name, category)) = spans::name_and_category(start) {
            let begun = if start is Command {
                writer_model::WriterState { command_start: Some(event.timestamp), ..seen }
            } else {
                seen
            };
            assert(quiet(begun, seen));
            lemma_quiet(begun, seen);
            if let Some(counter) = spans::population_counter(start) {
                let bumped = begun.bumped(event.timestamp@, counter, 1, now);
                assert(after.next_counter_uuid == bumped.next_counter_uuid);
                lemma_bumped(begun, event.timestamp@, counter, 1, now);
                assert(quiet(after, bumped));
                lemma_quiet(after, bumped);
            } else {
                assert(quiet(after, begun));
                lemma_quiet(after, begun);
            }
        }
    }
}

proof fn lemma_failure(
    s: writer_model::WriterState,
    end: SpanEnd,
    t: int,
    now: int,
)
    ensures
        quiet(s.with_failure(t, end.materialization, now), s),
        s.with_failure(t, end.materialization, now).counters_emitted == s.counters_emitted,
        s.with_failure(t, end.materialization, now).span_counter_open == s.span_counter_open,
{
    reveal(writer_model::WriterState::with_failure);
    if let Some(m) = end.materialization {
        if !m.success {
            let annotations = writer_model::failure_annotations(m);
            lemma_marked(s, t, "materialization_failure"@, annotations, now);
            writer_model::lemma_marked_frame(
                s,
                t,
                "materialization_failure"@,
                annotations,
                now,
            );
        }
    }
}

/// Marking a failure leaves the counters right.
pub proof fn lemma_failure_right(s: writer_model::WriterState, end: SpanEnd, t: int, now: int)
    requires
        counters_right(s),
    ensures
        ({
            let failed = s.with_failure(t, end.materialization, now);
            &&& counters_right(failed)
            &&& failed.span_counter_values == s.span_counter_values
            &&& failed.span_counter_open == s.span_counter_open
        }),
{
    lemma_failure(s, end, t, now);
    lemma_quiet(s.with_failure(t, end.materialization, now), s);
}

proof fn lemma_end(s: writer_model::WriterState, event: BuckEvent, end: SpanEnd, now: int)
    requires
        counters_right(s),
        event.data == EventData::SpanEnd(end),
        s.after_end(event, end, now).0.next_counter_uuid <= u64::MAX,
    ensures
        counters_right(s.after_end(event, end, now).0),
        counters_kept(s.after_end(event, end, now).0, s),
        s.after_end(event, end, now).0.counters_emitted == s.counters_emitted + moves(
            event.span_id matches Some(id) && s.span_counter_open.contains_key(id),
        ),
{
    if let Some(id) = event.span_id {
        let t = event.timestamp@;
        let after = s.after_end(event, end, now).0;
        let failed = s.with_failure(t, end.materialization, now);
        lemma_failure(s, end, t, now);
        lemma_quiet(failed, s);
        let counted = failed.without_counted_span(id, t, now);
        if counted.open_spans.contains_key(id) {
            let closed = writer_model::WriterState {
                open_spans: counted.open_spans.remove(id),
                ..counted
            };
            assert(quiet(closed, counted));
            if let Some(Ok(d)) = end.duration {
                lemma_slice(closed, counted.open_spans[id], d@, now);
            }
        }
        assert(quiet(after, counted));
        if failed.span_counter_open.contains_key(id) {
            let without = writer_model::WriterState {
                span_counter_open: failed.span_counter_open.remove(id),
                ..failed
            };
            assert(quiet(without, failed));
            lemma_quiet(without, failed);
            lemma_bumped(without, t, failed.span_counter_open[id], -1, now);
        }
        lemma_quiet(after, counted);
    }
}

proof fn lemma_instant(
    s: writer_model::WriterState,
    event: BuckEvent,
    instant: Instant,
    now: int,
)
    requires
        counters_right(s),
        s.after_instant(event, instant, now).0.next_counter_uuid <= u64::MAX,
    ensures
        counters_right(s.after_instant(event, instant, now).0),
        counters_kept(s.after_instant(event, instant, now).0, s),
{
    match instant {
        Instant::Snapshot(snapshot) => lemma_sampled(s, event.timestamp, snapshot, now),
        Instant::CommandPreempted => {
            lemma_marked(s, event.timestamp@, "command_preempted"@, seq![], now);
            lemma_quiet(s.after_instant(event, instant, now).0, s);
        },
        Instant::BuildGraphInfo(entries) => {
            if let Some(t) = s.command_start {
                let top = s.with_top_track(TRACK_CRITICAL_PATH, "critical path"@, now);
                lemma_top_track(s, TRACK_CRITICAL_PATH, "critical path"@, now);
                lemma_path_slices(top, t@, entries@, now);
                lemma_quiet(top, s);
                lemma_quiet(s.after_instant(event, instant, now).0, top);
            }
        },
        Instant::Other => {},
    }
}

/// Whatever event comes, every counter has a track of its own that is declared exactly
/// once, counters keep their tracks, and the counters of open spans show what was
/// counted, as long as the counter uuids fit.
pub proof fn law_events_keep_counters(s: writer_model::WriterState, event: BuckEvent, now: int)
    requires
        counters_right(s),
        s.handled(event, now).0.counts_fit(),
    ensures
        counters_right(s.handled(event, now).0),
        counters_kept(s.handled(event, now).0, s),
{
    match event.data {
        EventData::SpanStart(Some(start)) => lemma_start(s, event, start, now),
        EventData::SpanEnd(end) => lemma_end(s, event, end, now),
        EventData::Instant(Some(instant)) => lemma_instant(s, event, instant, now),
        _ => {},
    }
}

/// The writer's state after more events.
pub open spec fn after_more(
    s: writer_model::WriterState,
    events: Seq<(BuckEvent, int)>,
) -> writer_model::WriterState
    decreases events.len(),
{
    if events.len() == 0 {
        s
    } else {
        after_more(s, events.drop_last()).handled(events.last().0, events.last().1).0
    }
}

pub proof fn lemma_after_more(s: writer_model::WriterState, events: Seq<(BuckEvent, int)>)
    requires
        counters_right(s),
        after_more(s, events).counts_fit(),
    ensures
        counters_right(after_more(s, events)),
        counters_kept(after_more(s, events), s),
        after_more(s, events).counts_from(s),
    decreases events.len(),
{
    if events.len() > 0 {
        let init = events.drop_last();
        let before = after_more(s, init);
        span_laws::law_counts_only_grow(before, events.last().0, events.last().1);
        lemma_after_more(s, init);
        law_events_keep_counters(before, events.last().0, events.last().1);
    }
}

pub proof fn lemma_initial(min_duration: nat)
    ensures
        counters_right(writer_model::WriterState::initial(min_duration)),
{
    let s = writer_model::WriterState::initial(min_duration);
    assert(counters_sound(s));
}

pub proof fn lemma_same_run(min_duration: nat, events: Seq<(BuckEvent, int)>)
    ensures
        after_more(writer_model::WriterState::initial(min_duration), events)
            == writer_laws::after_events(min_duration, events),
    decreases events.len(),
{
    if events.len() > 0 {
        lemma_same_run(min_duration, events.drop_last());
    }
}

/// In every trace every counter has a track of its own, from the base of the counter
/// tracks on, and each of these tracks is declared exactly once as that of a counter, as
/// long as the counts fit. The ids of the spans do not matter. The counters of open spans
/// show what was counted.
pub proof fn law_counters_have_tracks_of_their_own(
    min_duration: nat,
    events: Seq<(BuckEvent, int)>,
)
    requires
        writer_laws::after_events(min_duration, events).counts_fit(),
    ensures
        counters_right(writer_laws::after_events(min_duration, events)),
{
    lemma_initial(min_duration);
    lemma_same_run(min_duration, events);
    lemma_after_more(writer_model::WriterState::initial(min_duration), events);
}

/// Asking twice for the track of a counter, whatever events come between. The same name
/// gets the same track, and nothing is written or changed the second time, even for
/// another unit or group; another name gets another track. The tracks lie from the base
/// of the counter tracks on. Each is declared exactly once, and a new one with the name,
/// the unit and the group that were first asked for.
pub proof fn law_counter_track_is_kept(
    s: writer_model::WriterState,
    first_name: Seq<char>,
    first_unit: i32,
    first_parent: Option<u64>,
    now: int,
    between: Seq<(BuckEvent, int)>,
    name: Seq<char>,
    unit: i32,
    parent: Option<u64>,
    later: int,
)
    requires
        counters_right(s),
        after_more(
            s.with_counter_track(first_name, first_unit, first_parent, now),
            between,
        ).with_counter_track(name, unit, parent, later).counts_fit(),
    ensures
        ({
            let first = s.with_counter_track(first_name, first_unit, first_parent, now);
            let middle = after_more(first, between);
            let second = middle.with_counter_track(name, unit, parent, later);
            let first_uuid = first.counter_tracks[first_name];
            let uuid = second.counter_tracks[name];
            &&& first.counter_tracks.contains_key(first_name)
            &&& second.counter_tracks.contains_key(name)
            &&& first_uuid >= COUNTER_TRACK_BASE
            &&& uuid >= COUNTER_TRACK_BASE
            &&& name == first_name ==> second == middle && uuid == first_uuid
            &&& name != first_name ==> uuid != first_uuid
            &&& times_named(second.packets, first_name) == 1
            &&& times_declared(second.packets, first_uuid) == 1
            &&& !s.counter_tracks.contains_key(first_name) ==> descriptor(
                second.packets,
                first_name,
            ) == Some(
                writer_model::counter_track(first_uuid, first_name, first_unit, first_parent),
            )
            &&& counters_right(second)
        }),
{
    let first = s.with_counter_track(first_name, first_unit, first_parent, now);
    let middle = after_more(first, between);
    let second = middle.with_counter_track(name, unit, parent, later);
    assert(second.counts_from(middle));
    lemma_more_grows(first, between);
    lemma_counter_track(s, first_name, first_unit, first_parent, now);
    lemma_after_more(first, between);
    assert(middle.counter_tracks.contains_key(first_name));
    lemma_counter_track(middle, name, unit, parent, later);
    assert(second.counter_tracks.contains_key(first_name));
    let first_uuid = first.counter_tracks[first_name];
    assert(second.counter_tracks[first_name] == first_uuid);
    assert(times_named(second.packets, first_name) == 1);
    assert(times_declared(second.packets, first_uuid) == 1);
}

proof fn lemma_more_grows(s: writer_model::WriterState, events: Seq<(BuckEvent, int)>)
    ensures
        after_more(s, events).counts_from(s),
    decreases events.len(),
{
    if events.len() > 0 {
        lemma_more_grows(s, events.drop_last());
        span_laws::law_counts_only_grow(
            after_more(s, events.drop_last()),
            events.last().0,
            events.last().1,
        );
    }
}

/// The spans that were started and counted under a name, and have not ended.
pub open spec fn open_under(events: Seq<(BuckEvent, int)>, name: Seq<char>) -> Set<u64>
    decreases events.len(),
{
    if events.len() == 0 {
        Set::empty()
    } else {
        let before = open_under(events.drop_last(), name);
        match (span_laws::counted_start(events.last().0), span_laws::ended(events.last().0)) {
            (Some((id, n)), _) => if n == name {
                before.insert(id)
            } else {
                before
            },
            (None, Some(id)) => before.remove(id),
            (None, None) => before,
        }
    }
}

/// Whether no span is counted again that is still open.
pub open spec fn not_restarted(events: Seq<(BuckEvent, int)>) -> bool {
    forall|k: int, name: Seq<char>|
        #![trigger open_under(events.take(k), name)]
        0 <= k < events.len() ==> (span_laws::counted_start(events[k].0) matches Some((id, _))
            ==> !open_under(events.take(k), name).contains(id))
}

proof fn lemma_not_restarted_before(events: Seq<(BuckEvent, int)>)
    requires
        events.len() > 0,
        not_restarted(events),
    ensures
        not_restarted(events.drop_last()),
        forall|name: Seq<char>|
            span_laws::counted_start(events.last().0) matches Some((id, _))
                ==> !(#[trigger] open_under(events.drop_last(), name)).contains(id),
{
    let init = events.drop_last();
    assert forall|k: int, name: Seq<char>|
        #![trigger open_under(init.take(k), name)]
        0 <= k < init.len() implies (span_laws::counted_start(init[k].0) matches Some((id, _))
        ==> !open_under(init.take(k), name).contains(id)) by {
        assert(init.take(k) =~= events.take(k));
        assert(init[k] == events[k]);
        assert(!(span_laws::counted_start(events[k].0) matches Some((id, _)) && open_under(
            events.take(k),
            name,
        ).contains(id)));
    }
    assert forall|name: Seq<char>|
        span_laws::counted_start(events.last().0) matches Some((id, _)) implies !(
    #[trigger] open_under(init, name)).contains((span_laws::counted_start(events.last().0)->0).0) by {
        assert(init =~= events.take(events.len() - 1));
        assert(!(span_laws::counted_start(events[events.len() - 1].0) matches Some((id, _))
            && open_under(events.take(events.len() - 1), name).contains(id)));
    }
}

/// A span that is open under a name is counted under it.
pub proof fn lemma_counted_is_open(
    min_duration: nat,
    events: Seq<(BuckEvent, int)>,
    name: Seq<char>,
    id: u64,
)
    requires
        not_restarted(events),
        open_under(events, name).contains(id),
    ensures
        ({
            let s = writer_laws::after_events(min_duration, events);
            s.span_counter_open.contains_key(id) && s.span_counter_open[id] == name
        }),
{
    lemma_open_under(min_duration, events);
    assert(span_laws::counted_under(
        writer_laws::after_events(min_duration, events),
        name,
    ).contains(id));
}

/// What the writer counts as open is what was started and has not ended.
proof fn lemma_open_under(min_duration: nat, events: Seq<(BuckEvent, int)>)
    requires
        not_restarted(events),
    ensures
        ({
            let s = writer_laws::after_events(min_duration, events);
            &&& span_laws::population_is_open(s)
            &&& forall|name: Seq<char>| #[trigger]
                open_under(events, name) == span_laws::counted_under(s, name)
        }),
    decreases events.len(),
{
    let s = writer_laws::after_events(min_duration, events);
    if events.len() == 0 {
        assert(s.span_counter_open.dom() =~= Set::<u64>::empty());
        assert forall|n: Seq<char>| true implies #[trigger] s.population(n)
            == span_laws::counted_under(s, n).len() by {
            assert(span_laws::counted_under(s, n) =~= Set::<u64>::empty());
        }
        assert forall|n: Seq<char>| #[trigger]
            open_under(events, n) == span_laws::counted_under(s, n) by {
            assert(span_laws::counted_under(s, n) =~= Set::<u64>::empty());
        }
    } else {
        let init = events.drop_last();
        let before = writer_laws::after_events(min_duration, init);
        let (event, now) = events.last();
        lemma_not_restarted_before(events);
        lemma_open_under(min_duration, init);
        let start = span_laws::counted_start(event);
        if let Some((id, name)) = start {
            if before.span_counter_open.contains_key(id) {
                let n = before.span_counter_open[id];
                assert(span_laws::counted_under(before, n).contains(id));
                assert(open_under(init, n).contains(id));
            }
        }
        span_laws::law_population_is_exact(before, event, now);
        match (event.data, event.span_id) {
            (EventData::SpanStart(Some(start)), Some(id)) => {
                span_laws::lemma_start(before, event, start, id, now);
            },
            (EventData::SpanEnd(end), Some(id)) => {
                span_laws::lemma_end(before, event, end, id, now);
            },
            (EventData::Instant(Some(instant)), _) => {
                span_laws::lemma_instant(before, event, instant, now);
            },
            _ => {},
        }
        assert forall|n: Seq<char>| #[trigger]
            open_under(events, n) == span_laws::counted_under(s, n) by {
            assert(open_under(init, n) == span_laws::counted_under(before, n));
            assert(open_under(events, n) =~= span_laws::counted_under(s, n));
        }
    }
}

/// After every run in which no span is counted again while it is open, the last value
/// written on the track of each counter of open spans, zero if there is none, is the
/// number of spans that were started and counted under its name and have not ended. It
/// does not depend on the shortest duration.
pub proof fn law_trace_shows_open_spans(min_duration: nat, events: Seq<(BuckEvent, int)>)
    requires
        not_restarted(events),
        writer_laws::after_events(min_duration, events).counts_fit(),
        writer_laws::after_events(min_duration, events).values_fit(),
    ensures
        forall|name: Seq<char>|
            #![trigger open_under(events, name)]
            open_under(events, name).finite() && shown_population(
                writer_laws::after_events(min_duration, events).packets,
                name,
            ) == open_under(events, name).len(),
{
    let s = writer_laws::after_events(min_duration, events);
    lemma_open_under(min_duration, events);
    lemma_initial(min_duration);
    lemma_same_run(min_duration, events);
    lemma_after_more(writer_model::WriterState::initial(min_duration), events);
    assert forall|name: Seq<char>|
        #![trigger open_under(events, name)]
        open_under(events, name).finite() && shown_population(s.packets, name) == open_under(
            events,
            name,
        ).len() by {
        assert(s.population(name) == span_laws::counted_under(s, name).len());
        assert(shown_population(s.packets, name) == s.population(name) as i64);
        if s.span_counter_values.contains_key(name) {
            assert(i64::MIN <= s.span_counter_values[name] <= i64::MAX);
        }
    }
}

/// The span that an event starts, if it starts one.
pub open spec fn started(event: BuckEvent) -> Option<u64> {
    match event.data {
        EventData::SpanStart(Some(_)) => event.span_id,
        _ => None,
    }
}

/// Whether no span starts twice.
pub open spec fn starts_once(events: Seq<(BuckEvent, int)>) -> bool {
    forall|i: int, j: int|
        0 <= i < j < events.len() && started(events[i].0) is Some ==> started(
            (#[trigger] events[i]).0,
        ) != started((#[trigger] events[j]).0)
}

proof fn lemma_open_was_started(events: Seq<(BuckEvent, int)>, name: Seq<char>, id: u64)
    requires
        open_under(events, name).contains(id),
    ensures
        exists|i: int| 0 <= i < events.len() && started((#[trigger] events[i]).0) == Some(id),
    decreases events.len(),
{
    let init = events.drop_last();
    if open_under(init, name).contains(id) {
        lemma_open_was_started(init, name, id);
        let i = choose|i: int|
            0 <= i < init.len() && started((#[trigger] init[i]).0) == Some(id);
        assert(events[i] == init[i]);
    } else {
        assert(started(events[events.len() - 1].0) == Some(id));
    }
}

/// A run in which no span starts twice is one in which no span is counted again while it
/// is open.
pub proof fn law_single_starts_are_no_restarts(events: Seq<(BuckEvent, int)>)
    requires
        starts_once(events),
    ensures
        not_restarted(events),
{
    assert forall|k: int, name: Seq<char>|
        #![trigger open_under(events.take(k), name)]
        0 <= k < events.len() implies (span_laws::counted_start(events[k].0) matches Some((id, _))
        ==> !open_under(events.take(k), name).contains(id)) by {
        if let Some((id, _)) = span_laws::counted_start(events[k].0) {
            let init = events.take(k);
            if open_under(init, name).contains(id) {
                lemma_open_was_started(init, name, id);
                let i = choose|i: int|
                    0 <= i < init.len() && started((#[trigger] init[i]).0) == Some(id);
                assert(init[i] == events[i]);
                assert(started(events[k].0) == Some(id));
            }
        }
    }
}

/// The counter of open spans that an event moves, and by how much.
pub open spec fn move_of(s: writer_model::WriterState, event: BuckEvent) -> Option<
    (Seq<char>, int),
> {
    match (span_laws::counted_start(event), span_laws::ended(event)) {
        (Some((_, name)), _) => Some((name, 1)),
        (None, Some(id)) => if s.span_counter_open.contains_key(id) {
            Some((s.span_counter_open[id], -1))
        } else {
            None
        },
        (None, None) => None,
    }
}

/// The start of a counted span writes exactly one value of a counter, which is one more
/// than was shown before, and its end exactly one, which is one less. The start or end of
/// another span writes none, and no event of another kind moves a counter of open spans.
pub proof fn law_spans_move_their_counter_once(
    s: writer_model::WriterState,
    event: BuckEvent,
    now: int,
)
    requires
        writer_laws::consistent(s),
        counters_right(s),
        s.values_fit(),
        s.handled(event, now).0.counts_fit(),
        s.handled(event, now).0.values_fit(),
    ensures
        ({
            let after = s.handled(event, now).0;
            &&& event.data is SpanStart || event.data is SpanEnd ==> writer_laws::number(
                after.packets,
                PacketKind::Counter,
            ) == writer_laws::number(s.packets, PacketKind::Counter) + (if move_of(s, event)
                is Some {
                1nat
            } else {
                0nat
            })
            &&& forall|name: Seq<char>| #[trigger]
                shown_population(after.packets, name) == shown_population(s.packets, name) + (
                match move_of(s, event) {
                    Some((moved, delta)) => if moved == name {
                        delta
                    } else {
                        0
                    },
                    None => 0,
                })
        }),
{
    let after = s.handled(event, now).0;
    law_events_keep_counters(s, event, now);
    writer_laws::law_events_keep_consistency(s, event, now);
    match event.data {
        EventData::SpanStart(Some(start)) => {
            lemma_start(s, event, start, now);
            if let Some(id) = event.span_id {
                span_laws::lemma_start(s, event, start, id, now);
            }
        },
        EventData::SpanEnd(end) => {
            lemma_end(s, event, end, now);
            if let Some(id) = event.span_id {
                span_laws::lemma_end(s, event, end, id, now);
            }
        },
        EventData::Instant(Some(instant)) => {
            span_laws::lemma_instant(s, event, instant, now);
        },
        _ => {},
    }
    assert forall|name: Seq<char>| #[trigger]
        shown_population(after.packets, name) == shown_population(s.packets, name) + (match move_of(
            s,
            event,
        ) {
            Some((moved, delta)) => if moved == name {
                delta
            } else {
                0
            },
            None => 0,
        }) by {
        assert(shown_population(s.packets, name) == s.population(name) as i64);
        assert(shown_population(after.packets, name) == after.population(name) as i64);
        if s.span_counter_values.contains_key(name) {
            assert(i64::MIN <= s.span_counter_values[name] <= i64::MAX);
        }
        if after.span_counter_values.contains_key(name) {
            assert(i64::MIN <= after.span_counter_values[name] <= i64::MAX);
        }
    }
}

} // verus!
