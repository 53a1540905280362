//! What holds of every trace that the writer produces.

use vstd::prelude::*;

use crate::events::BuckEvent;
use crate::events::EventData;
use crate::events::Instant;
use crate::events::Materialization;
use crate::events::NetworkInterfaceStats;
use crate::events::PathEntry;
use crate::events::Snapshot;
use crate::events::SpanEnd;
use crate::events::SpanStart;
use crate::perfetto_proto;
use crate::perfetto_proto::TYPE_COUNTER;
use crate::perfetto_proto::TYPE_INSTANT;
use crate::perfetto_proto::TYPE_SLICE_BEGIN;
use crate::perfetto_proto::TYPE_SLICE_END;
use crate::perfetto_proto::UNIT_COUNT;
use crate::spans;
use crate::spans::Category;
use crate::spans::TRACK_CRITICAL_PATH;
use crate::spans::TRACK_MISC;
use crate::spans::TRACK_SPAN_COUNTERS;
use crate::time::SystemTime;
use crate::writer_model;
use crate::writer_model::CounterValue;
use crate::writer_model::SEQUENCE_ID;

verus! {

/// What a packet is for.
#[derive(Copy, Clone, Debug, PartialEq, Eq)]
pub enum PacketKind {
    Clock,
    Declaration,
    Counter,
    Instant,
    Begin,
    End,
    Other,
}

/// What a packet is for.
pub open spec fn kind(p: perfetto_proto::TracePacketModel) -> PacketKind {
    if p.clock_snapshot is Some {
        PacketKind::Clock
    } else if p.track_descriptor is Some {
        PacketKind::Declaration
    } else {
        match p.track_event {
            Some(e) => if e.event_type == Some(TYPE_COUNTER) {
                PacketKind::Counter
            } else if e.event_type == Some(TYPE_INSTANT) {
                PacketKind::Instant
            } else if e.event_type == Some(TYPE_SLICE_BEGIN) {
                PacketKind::Begin
            } else if e.event_type == Some(TYPE_SLICE_END) {
                PacketKind::End
            } else {
                PacketKind::Other
            },
            None => PacketKind::Other,
        }
    }
}

/// How many packets are of a kind.
pub open spec fn number(packets: Seq<perfetto_proto::TracePacketModel>, k: PacketKind) -> nat
    decreases packets.len(),
{
    if packets.len() == 0 {
        0
    } else {
        number(packets.drop_last(), k) + if kind(packets.last()) == k {
            1nat
        } else {
            0nat
        }
    }
}

/// The track that an event is on.
pub open spec fn event_track(p: perfetto_proto::TracePacketModel) -> Option<u64> {
    match p.track_event {
        Some(e) => e.track_uuid,
        None => None,
    }
}

/// Whether the packet declares the track.
pub open spec fn declares(p: perfetto_proto::TracePacketModel, uuid: u64) -> bool {
    p.track_descriptor matches Some(d) && d.uuid == Some(uuid)
}

/// Whether the packet declares the track as that of a counter.
pub open spec fn declares_counter(p: perfetto_proto::TracePacketModel, uuid: u64) -> bool {
    p.track_descriptor matches Some(d) && d.uuid == Some(uuid) && d.counter is Some
}

/// Whether one of the first `n` packets declares the track.
pub open spec fn declared_before(
    packets: Seq<perfetto_proto::TracePacketModel>,
    uuid: u64,
    n: int,
) -> bool {
    exists|j: int| 0 <= j < n && declares(#[trigger] packets[j], uuid)
}

/// Whether one of the first `n` packets declares the track as that of a counter.
pub open spec fn counter_before(
    packets: Seq<perfetto_proto::TracePacketModel>,
    uuid: u64,
    n: int,
) -> bool {
    exists|j: int| 0 <= j < n && declares_counter(#[trigger] packets[j], uuid)
}

/// Whether `b` begins a slice that `e` ends.
pub open spec fn is_slice(
    b: perfetto_proto::TracePacketModel,
    e: perfetto_proto::TracePacketModel,
) -> bool {
    &&& kind(b) is Begin
    &&& kind(e) is End
    &&& event_track(b) == event_track(e)
    &&& b.track_event->0.correlation_id == e.track_event->0.correlation_id
}

/// Every packet belongs to the one sequence.
pub open spec fn in_sequence(packets: Seq<perfetto_proto::TracePacketModel>) -> bool {
    forall|i: int|
        0 <= i < packets.len() ==> (#[trigger] packets[i]).trusted_packet_sequence_id == Some(
            SEQUENCE_ID,
        )
}

/// The first packet, and no other, relates the clocks and starts the sequence
/// afresh.
pub open spec fn clock_first(packets: Seq<perfetto_proto::TracePacketModel>) -> bool {
    &&& packets.len() > 0 ==> exists|now: int|
        packets[0] == #[trigger] writer_model::clock_packet(now)
    &&& forall|i: int|
        0 < i < packets.len() ==> (#[trigger] packets[i]).clock_snapshot is None
            && packets[i].sequence_flags is None
}

/// The beginning of a slice is followed at once by its end, and there is no other
/// end.
pub open spec fn slices_paired(packets: Seq<perfetto_proto::TracePacketModel>) -> bool {
    &&& forall|i: int|
        0 <= i < packets.len() && kind(#[trigger] packets[i]) is Begin ==> i + 1 < packets.len()
            && is_slice(packets[i], packets[i + 1])
    &&& forall|i: int|
        0 <= i < packets.len() && kind(#[trigger] packets[i]) is End ==> 0 < i && is_slice(
            packets[i - 1],
            packets[i],
        )
}

/// A counter or an instant comes behind the declaration of its track.
pub open spec fn events_declared(packets: Seq<perfetto_proto::TracePacketModel>) -> bool {
    &&& forall|i: int|
        0 <= i < packets.len() && kind(#[trigger] packets[i]) is Counter ==> event_track(
            packets[i],
        ) is Some && counter_before(packets, event_track(packets[i])->0, i)
    &&& forall|i: int|
        0 <= i < packets.len() && kind(#[trigger] packets[i]) is Instant ==> event_track(
            packets[i],
        ) == Some(TRACK_MISC) && declared_before(packets, TRACK_MISC, i)
}

/// Whether the group of the track that the packet declares, if it has one, is
/// declared by one of the first `n` packets.
pub open spec fn parent_before(
    packets: Seq<perfetto_proto::TracePacketModel>,
    p: perfetto_proto::TracePacketModel,
    n: int,
) -> bool {
    match p.track_descriptor {
        Some(d) => match d.parent_uuid {
            Some(parent) => declared_before(packets, parent, n),
            None => true,
        },
        None => true,
    }
}

/// The declaration of a track comes behind that of its group.
pub open spec fn parents_declared(packets: Seq<perfetto_proto::TracePacketModel>) -> bool {
    forall|i: int| 0 <= i < packets.len() ==> parent_before(packets, #[trigger] packets[i], i)
}

/// Every track that counts as declared has been declared.
pub open spec fn tracks_declared(s: writer_model::WriterState) -> bool {
    &&& forall|uuid: u64| #[trigger]
        s.emitted_tracks.contains(uuid) ==> declared_before(
            s.packets,
            uuid,
            s.packets.len() as int,
        )
    &&& forall|name: Seq<char>| #[trigger]
        s.counter_tracks.contains_key(name) ==> counter_before(
            s.packets,
            s.counter_tracks[name],
            s.packets.len() as int,
        )
}

/// The packets, their kinds and their order are as they should be, with the given
/// number of slices.
pub open spec fn ordered(s: writer_model::WriterState) -> bool {
    &&& in_sequence(s.packets)
    &&& clock_first(s.packets)
    &&& slices_paired(s.packets)
    &&& events_declared(s.packets)
    &&& parents_declared(s.packets)
    &&& tracks_declared(s)
}

/// The statistics agree with the packets, with the given number of slices.
pub open spec fn tallied(s: writer_model::WriterState, slices: nat) -> bool {
    &&& number(s.packets, PacketKind::Clock) == if s.packets.len() == 0 {
        0nat
    } else {
        1nat
    }
    &&& number(s.packets, PacketKind::Declaration) == s.tracks
    &&& number(s.packets, PacketKind::Counter) == s.counters_emitted
    &&& number(s.packets, PacketKind::Instant) == s.instants_emitted
    &&& number(s.packets, PacketKind::Begin) == slices
    &&& number(s.packets, PacketKind::End) == slices
    &&& number(s.packets, PacketKind::Other) == 0
    &&& s.packets.len() == number(s.packets, PacketKind::Clock) + s.tracks + s.counters_emitted
        + s.instants_emitted + 2 * slices
}

proof fn lemma_number_push(
    packets: Seq<perfetto_proto::TracePacketModel>,
    p: perfetto_proto::TracePacketModel,
)
    ensures
        forall|k: PacketKind|
            #![trigger number(packets.push(p), k)]
            number(packets.push(p), k) == number(packets, k) + if kind(p) == k {
                1nat
            } else {
                0nat
            },
{
    assert(packets.push(p).drop_last() =~= packets);
}

/// One more packet changes the numbers as its kind says.
proof fn lemma_written_numbers(
    s: writer_model::WriterState,
    p: perfetto_proto::TracePacketModel,
    now: int,
)
    ensures
        forall|k: PacketKind|
            #![trigger number(s.written(p, now).packets, k)]
            number(s.written(p, now).packets, k) == number(s.packets, k) + (if kind(p) == k {
                1nat
            } else {
                0nat
            }) + (if s.packets.len() == 0 && k is Clock {
                1nat
            } else {
                0nat
            }),
        s.written(p, now).packets.len() == s.packets.len() + 1 + (if s.packets.len() == 0 {
            1nat
        } else {
            0nat
        }),
{
    let q = perfetto_proto::TracePacketModel {
        trusted_packet_sequence_id: Some(SEQUENCE_ID),
        ..p
    };
    assert(kind(q) == kind(p));
    if s.packets.len() == 0 {
        let clock = writer_model::clock_packet(now);
        lemma_number_push(s.packets, clock);
        assert(s.packets.push(clock) =~= seq![clock]);
        lemma_number_push(seq![clock], q);
    } else {
        lemma_number_push(s.packets, q);
    }
}

proof fn lemma_before_push(
    packets: Seq<perfetto_proto::TracePacketModel>,
    p: perfetto_proto::TracePacketModel,
    uuid: u64,
    n: int,
)
    requires
        0 <= n <= packets.len(),
    ensures
        declared_before(packets, uuid, n) ==> declared_before(packets.push(p), uuid, n),
        forall|q: perfetto_proto::TracePacketModel|
            parent_before(packets, q, n) ==> #[trigger] parent_before(packets.push(p), q, n),
        counter_before(packets, uuid, n) ==> counter_before(packets.push(p), uuid, n),
{
    if declared_before(packets, uuid, n) {
        let j = choose|j: int| 0 <= j < n && declares(#[trigger] packets[j], uuid);
        assert(declares(packets.push(p)[j], uuid));
    }
    assert forall|q: perfetto_proto::TracePacketModel|
        parent_before(packets, q, n) implies #[trigger] parent_before(packets.push(p), q, n) by {
        if let Some(d) = q.track_descriptor {
            if let Some(parent) = d.parent_uuid {
                let j = choose|j: int| 0 <= j < n && declares(#[trigger] packets[j], parent);
                assert(declares(packets.push(p)[j], parent));
            }
        }
    }
    if counter_before(packets, uuid, n) {
        let j = choose|j: int| 0 <= j < n && declares_counter(#[trigger] packets[j], uuid);
        assert(declares_counter(packets.push(p)[j], uuid));
    }
}

/// Appending a packet that is neither the clock's nor part of a slice.
proof fn lemma_ordered_push(
    before: writer_model::WriterState,
    after: writer_model::WriterState,
    p: perfetto_proto::TracePacketModel,
)
    requires
        ordered(before),
        before.packets.len() > 0,
        after.packets == before.packets.push(p),
        p.trusted_packet_sequence_id == Some(SEQUENCE_ID),
        p.clock_snapshot is None,
        p.sequence_flags is None,
        !(kind(p) is Begin),
        !(kind(p) is End),
        kind(p) is Counter ==> event_track(p) is Some && counter_before(
            before.packets,
            event_track(p)->0,
            before.packets.len() as int,
        ),
        kind(p) is Instant ==> event_track(p) == Some(TRACK_MISC) && declared_before(
            before.packets,
            TRACK_MISC,
            before.packets.len() as int,
        ),
        parent_before(before.packets, p, before.packets.len() as int),
        forall|uuid: u64| #[trigger]
            after.emitted_tracks.contains(uuid) ==> before.emitted_tracks.contains(uuid)
                || declares(p, uuid),
        forall|name: Seq<char>| #[trigger]
            after.counter_tracks.contains_key(name) ==> (before.counter_tracks.contains_key(name)
                && before.counter_tracks[name] == after.counter_tracks[name])
                || declares_counter(p, after.counter_tracks[name]),
    ensures
        ordered(after),
{
    let old = before.packets;
    let new = after.packets;
    let n = old.len() as int;
    assert forall|i: int| 0 <= i < new.len() && kind(#[trigger] new[i]) is Begin implies i + 1
        < new.len() && is_slice(new[i], new[i + 1]) by {
        assert(new[i] == old[i]);
        assert(kind(old[i]) is Begin);
        assert(new[i + 1] == old[i + 1]);
    }
    assert forall|i: int| 0 <= i < new.len() && kind(#[trigger] new[i]) is End implies 0 < i
        && is_slice(new[i - 1], new[i]) by {
        assert(new[i] == old[i]);
        assert(kind(old[i]) is End);
        assert(new[i - 1] == old[i - 1]);
    }
    assert forall|i: int| 0 <= i < new.len() && kind(#[trigger] new[i]) is Counter implies
        event_track(new[i]) is Some && counter_before(new, event_track(new[i])->0, i) by {
        if i < n {
            assert(new[i] == old[i]);
            lemma_before_push(old, p, event_track(old[i])->0, i);
        } else {
            lemma_before_push(old, p, event_track(p)->0, n);
        }
    }
    assert forall|i: int| 0 <= i < new.len() && kind(#[trigger] new[i]) is Instant implies
        event_track(new[i]) == Some(TRACK_MISC) && declared_before(new, TRACK_MISC, i) by {
        if i < n {
            assert(new[i] == old[i]);
            lemma_before_push(old, p, TRACK_MISC, i);
        } else {
            lemma_before_push(old, p, TRACK_MISC, n);
        }
    }
    assert forall|uuid: u64| #[trigger] after.emitted_tracks.contains(uuid) implies
        declared_before(new, uuid, n + 1) by {
        lemma_before_push(old, p, uuid, n);
        if declares(p, uuid) {
            assert(declares(new[n], uuid));
        } else {
            let j = choose|j: int| 0 <= j < n && declares(#[trigger] old[j], uuid);
            assert(declares(new[j], uuid));
        }
    }
    assert forall|name: Seq<char>| #[trigger] after.counter_tracks.contains_key(name) implies
        counter_before(new, after.counter_tracks[name], n + 1) by {
        let uuid = after.counter_tracks[name];
        if declares_counter(p, uuid) {
            assert(declares_counter(new[n], uuid));
        } else {
            let j = choose|j: int| 0 <= j < n && declares_counter(#[trigger] old[j], uuid);
            assert(declares_counter(new[j], uuid));
        }
    }
    assert forall|i: int| 0 <= i < new.len() implies parent_before(new, #[trigger] new[i], i) by {
        if i < n {
            assert(new[i] == old[i]);
            lemma_before_push(old, p, 0, i);
        } else {
            lemma_before_push(old, p, 0, n);
        }
    }
    assert(in_sequence(new));
    assert(new[0] == old[0]);
    assert(clock_first(new));
}

/// The clock packet in front of all others.
proof fn lemma_ordered_first(s: writer_model::WriterState, now: int)
    requires
        ordered(s),
        s.packets.len() == 0,
    ensures
        ordered(
            writer_model::WriterState { packets: seq![writer_model::clock_packet(now)], ..s },
        ),
{
    let t = writer_model::WriterState { packets: seq![writer_model::clock_packet(now)], ..s };
    assert(t.packets[0] == writer_model::clock_packet(now));
    assert forall|uuid: u64| #[trigger] t.emitted_tracks.contains(uuid) implies declared_before(
        t.packets,
        uuid,
        1,
    ) by {
        assert(s.emitted_tracks.contains(uuid));
        assert(declared_before(s.packets, uuid, 0));
    }
    assert forall|name: Seq<char>| #[trigger] t.counter_tracks.contains_key(name) implies
        counter_before(t.packets, t.counter_tracks[name], 1) by {
        assert(s.counter_tracks.contains_key(name));
        assert(counter_before(s.packets, s.counter_tracks[name], 0));
    }
}

/// Writing a packet that is neither the clock's nor part of a slice.
proof fn lemma_ordered_written(
    before: writer_model::WriterState,
    middle: writer_model::WriterState,
    p: perfetto_proto::TracePacketModel,
    now: int,
)
    requires
        ordered(before),
        middle.packets == before.packets,
        p.clock_snapshot is None,
        p.sequence_flags is None,
        !(kind(p) is Begin),
        !(kind(p) is End),
        kind(p) is Counter ==> event_track(p) is Some && counter_before(
            before.packets,
            event_track(p)->0,
            before.packets.len() as int,
        ),
        kind(p) is Instant ==> event_track(p) == Some(TRACK_MISC) && declared_before(
            before.packets,
            TRACK_MISC,
            before.packets.len() as int,
        ),
        parent_before(before.packets, p, before.packets.len() as int),
        forall|uuid: u64| #[trigger]
            middle.emitted_tracks.contains(uuid) ==> before.emitted_tracks.contains(uuid)
                || declares(p, uuid),
        forall|name: Seq<char>| #[trigger]
            middle.counter_tracks.contains_key(name) ==> (before.counter_tracks.contains_key(
                name,
            ) && before.counter_tracks[name] == middle.counter_tracks[name])
                || declares_counter(p, middle.counter_tracks[name]),
    ensures
        ordered(middle.written(p, now)),
{
    let q = perfetto_proto::TracePacketModel {
        trusted_packet_sequence_id: Some(SEQUENCE_ID),
        ..p
    };
    assert(kind(q) == kind(p));
    let front = if before.packets.len() == 0 {
        writer_model::WriterState {
            packets: seq![writer_model::clock_packet(now)],
            ..before
        }
    } else {
        before
    };
    if before.packets.len() == 0 {
        lemma_ordered_first(before, now);
    }
    lemma_ordered_push(front, middle.written(p, now), q);
}

proof fn lemma_top_track(s: writer_model::WriterState, uuid: u64, name: Seq<char>, now: int, slices: nat)
    requires
        ordered(s),
        tallied(s, slices),
    ensures
        ordered(s.with_top_track(uuid, name, now)),
        tallied(s.with_top_track(uuid, name, now), slices),
        declared_before(
            s.with_top_track(uuid, name, now).packets,
            uuid,
            s.with_top_track(uuid, name, now).packets.len() as int,
        ),
{
    if !s.emitted_tracks.contains(uuid) {
        let p = writer_model::declaration(writer_model::top_track(uuid, name));
        let middle = writer_model::WriterState {
            emitted_tracks: s.emitted_tracks.insert(uuid),
            tracks: s.tracks + 1,
            ..s
        };
        lemma_ordered_written(s, middle, p, now);
        lemma_written_numbers(middle, p, now);
        assert(s.with_top_track(uuid, name, now).emitted_tracks.contains(uuid));
    }
}

proof fn lemma_member_track(
    s: writer_model::WriterState,
    uuid: u64,
    group: u64,
    group_name: Seq<char>,
    name: Seq<char>,
    now: int,
    slices: nat,
)
    requires
        ordered(s),
        tallied(s, slices),
    ensures
        ordered(s.with_member_track(uuid, group, group_name, name, now)),
        tallied(s.with_member_track(uuid, group, group_name, name, now), slices),
        s.with_member_track(uuid, group, group_name, name, now).emitted_tracks.contains(uuid),
{
    if !s.emitted_tracks.contains(uuid) {
        lemma_top_track(s, group, group_name, now, slices);
        let t = s.with_top_track(group, group_name, now);
        let p = writer_model::declaration(
            writer_model::member_track(uuid, group, group_name, name),
        );
        let middle = writer_model::WriterState {
            emitted_tracks: t.emitted_tracks.insert(uuid),
            tracks: t.tracks + 1,
            ..t
        };
        lemma_ordered_written(t, middle, p, now);
        lemma_written_numbers(middle, p, now);
    }
}

proof fn lemma_counted(
    s: writer_model::WriterState,
    t: int,
    name: Seq<char>,
    unit: i32,
    parent: Option<u64>,
    value: CounterValue,
    now: int,
    slices: nat,
)
    requires
        ordered(s),
        tallied(s, slices),
        parent matches Some(group) ==> declared_before(s.packets, group, s.packets.len() as int),
    ensures
        ordered(s.counted(t, name, unit, parent, value, now)),
        tallied(s.counted(t, name, unit, parent, value, now), slices),
{
    reveal(writer_model::WriterState::counted);
    let d = s.with_counter_track(name, unit, parent, now);
    if !s.counter_tracks.contains_key(name) {
        let uuid = s.next_counter_uuid as u64;
        let p = writer_model::declaration(writer_model::counter_track(uuid, name, unit, parent));
        let middle = writer_model::WriterState {
            next_counter_uuid: s.next_counter_uuid + 1,
            counter_tracks: s.counter_tracks.insert(name, uuid),
            tracks: s.tracks + 1,
            ..s
        };
        lemma_ordered_written(s, middle, p, now);
        lemma_written_numbers(middle, p, now);
    }
    assert(ordered(d) && tallied(d, slices));
    assert(d.counter_tracks.contains_key(name));
    let p = writer_model::timed(t, writer_model::counter_event(d.counter_tracks[name], value));
    lemma_ordered_written(d, d, p, now);
    lemma_written_numbers(d, p, now);
}

proof fn lemma_marked(
    s: writer_model::WriterState,
    t: int,
    name: Seq<char>,
    annotations: Seq<perfetto_proto::DebugAnnotationModel>,
    now: int,
    slices: nat,
)
    requires
        ordered(s),
        tallied(s, slices),
    ensures
        ordered(s.marked(t, name, annotations, now)),
        tallied(s.marked(t, name, annotations, now), slices),
{
    reveal(writer_model::WriterState::marked);
    lemma_top_track(s, TRACK_MISC, Category::Misc.name(), now, slices);
    let d = s.with_top_track(TRACK_MISC, Category::Misc.name(), now);
    let p = writer_model::timed(t, writer_model::instant_event(name, annotations));
    lemma_ordered_written(d, d, p, now);
    lemma_written_numbers(d, p, now);
}

proof fn lemma_sliced(
    s: writer_model::WriterState,
    start: int,
    end: int,
    uuid: u64,
    name: Seq<char>,
    correlation_id: Option<u64>,
    annotations: Seq<perfetto_proto::DebugAnnotationModel>,
    now: int,
    slices: nat,
)
    requires
        ordered(s),
        tallied(s, slices),
    ensures
        ordered(s.sliced(start, end, uuid, name, correlation_id, annotations, now)),
        tallied(
            s.sliced(start, end, uuid, name, correlation_id, annotations, now),
            slices + 1,
        ),
{
    let b = writer_model::timed(
        start,
        writer_model::begin_event(uuid, name, correlation_id, annotations),
    );
    let e = writer_model::timed(end, writer_model::end_event(uuid, correlation_id));
    let middle = s.written(b, now);
    let after = middle.written(e, now);
    lemma_written_numbers(s, b, now);
    lemma_written_numbers(middle, e, now);
    let front = if s.packets.len() == 0 {
        writer_model::WriterState { packets: seq![writer_model::clock_packet(now)], ..s }
    } else {
        s
    };
    if s.packets.len() == 0 {
        lemma_ordered_first(s, now);
    }
    let old = front.packets;
    let new = after.packets;
    let n = old.len() as int;
    let pb = new[n];
    let pe = new[n + 1];
    assert(new =~= old.push(pb).push(pe));
    assert(kind(pb) is Begin && kind(pe) is End && is_slice(pb, pe));
    assert forall|i: int| 0 <= i < new.len() && kind(#[trigger] new[i]) is Begin implies i + 1
        < new.len() && is_slice(new[i], new[i + 1]) by {
        if i < n {
            assert(kind(old[i]) is Begin);
            assert(new[i + 1] == old[i + 1]);
        }
    }
    assert forall|i: int| 0 <= i < new.len() && kind(#[trigger] new[i]) is End implies 0 < i
        && is_slice(new[i - 1], new[i]) by {
        if i < n {
            assert(kind(old[i]) is End);
            assert(new[i - 1] == old[i - 1]);
        }
    }
    assert forall|i: int| 0 <= i < new.len() && kind(#[trigger] new[i]) is Counter implies
        event_track(new[i]) is Some && counter_before(new, event_track(new[i])->0, i) by {
        assert(new[i] == old[i]);
        lemma_before_push(old, pb, event_track(old[i])->0, i);
        lemma_before_push(old.push(pb), pe, event_track(old[i])->0, i);
    }
    assert forall|i: int| 0 <= i < new.len() && kind(#[trigger] new[i]) is Instant implies
        event_track(new[i]) == Some(TRACK_MISC) && declared_before(new, TRACK_MISC, i) by {
        assert(new[i] == old[i]);
        lemma_before_push(old, pb, TRACK_MISC, i);
        lemma_before_push(old.push(pb), pe, TRACK_MISC, i);
    }
    assert forall|u: u64| #[trigger] after.emitted_tracks.contains(u) implies declared_before(
        new,
        u,
        n + 2,
    ) by {
        assert(front.emitted_tracks.contains(u));
        let j = choose|j: int| 0 <= j < n && declares(#[trigger] old[j], u);
        assert(declares(new[j], u));
    }
    assert forall|name: Seq<char>| #[trigger] after.counter_tracks.contains_key(name) implies
        counter_before(new, after.counter_tracks[name], n + 2) by {
        assert(front.counter_tracks.contains_key(name));
        let u = after.counter_tracks[name];
        let j = choose|j: int| 0 <= j < n && declares_counter(#[trigger] old[j], u);
        assert(declares_counter(new[j], u));
    }
    assert forall|i: int| 0 <= i < new.len() implies parent_before(new, #[trigger] new[i], i) by {
        if i < n {
            assert(new[i] == old[i]);
            lemma_before_push(old, pb, 0, i);
            lemma_before_push(old.push(pb), pe, 0, i);
        }
    }
    assert(in_sequence(new));
    assert(new[0] == old[0]);
    assert(clock_first(new));
}

proof fn lemma_bumped(
    s: writer_model::WriterState,
    t: int,
    name: Seq<char>,
    delta: int,
    now: int,
    slices: nat,
)
    requires
        ordered(s),
        tallied(s, slices),
    ensures
        ordered(s.bumped(t, name, delta, now)),
        tallied(s.bumped(t, name, delta, now), slices),
{
    reveal(writer_model::WriterState::bumped);
    lemma_top_track(s, TRACK_SPAN_COUNTERS, "open spans"@, now, slices);
    lemma_counted(
        s.with_top_track(TRACK_SPAN_COUNTERS, "open spans"@, now),
        t,
        "spans: "@ + name,
        UNIT_COUNT,
        Some(TRACK_SPAN_COUNTERS),
        CounterValue::Int((s.population(name) + delta) as i64),
        now,
        slices,
    );
}

proof fn lemma_rated(
    s: writer_model::WriterState,
    t: SystemTime,
    name: Seq<char>,
    amount: u64,
    now: int,
    slices: nat,
)
    requires
        ordered(s),
        tallied(s, slices),
    ensures
        ordered(s.rated(t, name, amount, now)),
        tallied(s.rated(t, name, amount, now), slices),
{
    reveal(writer_model::WriterState::rated);
    if s.prev_rate.contains_key(name) && s.prev_rate[name].0@ < t@ {
        let (earlier, before) = s.prev_rate[name];
        let delta: nat = if amount < before {
            0
        } else {
            (amount - before) as nat
        };
        let bits = crate::binary64::bits_of(
            crate::binary64::per_second(delta, (t@ - earlier@) as nat),
        );
        lemma_counted(s, t@, name, UNIT_COUNT, None, CounterValue::Double(bits), now, slices);
    }
}

/// The order of the packets is right and the statistics agree with them.
pub open spec fn consistent(s: writer_model::WriterState) -> bool {
    &&& ordered(s)
    &&& tallied(s, s.spans_emitted + s.critical_path_slices)
}

pub broadcast proof fn lemma_counted_consistent(
    s: writer_model::WriterState,
    t: int,
    name: Seq<char>,
    unit: i32,
    value: CounterValue,
    now: int,
)
    requires
        consistent(s),
    ensures
        consistent(#[trigger] s.counted(t, name, unit, None, value, now)),
{
    lemma_counted(
        s,
        t,
        name,
        unit,
        None,
        value,
        now,
        s.spans_emitted + s.critical_path_slices,
    );
    writer_model::lemma_counted_frame(s, t, name, unit, None, value, now);
}

pub broadcast proof fn lemma_rated_consistent(
    s: writer_model::WriterState,
    t: SystemTime,
    name: Seq<char>,
    amount: u64,
    now: int,
)
    requires
        consistent(s),
    ensures
        consistent(#[trigger] s.rated(t, name, amount, now)),
{
    lemma_rated(s, t, name, amount, now, s.spans_emitted + s.critical_path_slices);
    writer_model::lemma_rated_frame(s, t, name, amount, now);
}

proof fn lemma_sampled_nics_consistent(
    s: writer_model::WriterState,
    t: SystemTime,
    nics: Seq<NetworkInterfaceStats>,
    now: int,
)
    requires
        consistent(s),
    ensures
        consistent(s.sampled_nics(t, nics, now)),
    decreases nics.len(),
{
    broadcast use lemma_rated_consistent;

    if nics.len() > 0 {
        lemma_sampled_nics_consistent(s, t, nics.drop_last(), now);
    }
}

proof fn lemma_sampled_consistent(
    s: writer_model::WriterState,
    t: SystemTime,
    snapshot: Snapshot,
    now: int,
)
    requires
        consistent(s),
    ensures
        consistent(s.sampled(t, snapshot, now)),
{
    assert(consistent(s.sampled_sizes(t@, snapshot, now))) by {
        broadcast use lemma_counted_consistent;

    }
    let sizes = s.sampled_sizes(t@, snapshot, now);
    assert(consistent(sizes.sampled_rates(t, snapshot, now))) by {
        broadcast use lemma_rated_consistent;

    }
    lemma_sampled_nics_consistent(
        sizes.sampled_rates(t, snapshot, now),
        t,
        snapshot.network_interface_stats@,
        now,
    );
}

proof fn lemma_path_slices_consistent(
    s: writer_model::WriterState,
    t: int,
    entries: Seq<PathEntry>,
    now: int,
)
    requires
        consistent(s),
    ensures
        consistent(s.with_path_slices(t, entries, now).0),
    decreases entries.len(),
{
    if entries.len() > 0 {
        lemma_path_slices_consistent(s, t, entries.drop_last(), now);
        let (u, error) = s.with_path_slices(t, entries.drop_last(), now);
        let entry = entries.last();
        if error is None && writer_model::path_nanos(entry) >= 1_000_000 {
            if let Ok(Some(name)) = entry.display {
                let start = t + writer_model::path_offset(entry);
                lemma_sliced(
                    u,
                    start,
                    start + writer_model::path_nanos(entry),
                    TRACK_CRITICAL_PATH,
                    name@,
                    None,
                    seq![],
                    now,
                    u.spans_emitted + u.critical_path_slices,
                );
            }
        }
    }
}

proof fn lemma_span_track(
    s: writer_model::WriterState,
    span: writer_model::OpenSpanModel,
    now: int,
    slices: nat,
)
    requires
        ordered(s),
        tallied(s, slices),
    ensures
        ordered(s.with_span_track(span, now)),
        tallied(s.with_span_track(span, now), slices),
        span.role is Stage || span.is_root ==> s.with_span_track(
            span,
            now,
        ).emitted_tracks.contains(span.track_uuid),
{
    match span.role {
        writer_model::RoleModel::Stage { action_identity, is_waiting, .. } => {
            if is_waiting {
                lemma_member_track(
                    s,
                    span.track_uuid,
                    spans::TRACK_QUEUED,
                    "queued"@,
                    action_identity,
                    now,
                    slices,
                );
            } else {
                lemma_member_track(
                    s,
                    span.track_uuid,
                    Category::Actions.group_uuid(),
                    Category::Actions.name(),
                    action_identity,
                    now,
                    slices,
                );
            }
        },
        _ => {
            if span.is_root {
                lemma_member_track(
                    s,
                    span.track_uuid,
                    span.category.group_uuid(),
                    span.category.name(),
                    span.name,
                    now,
                    slices,
                );
            }
        },
    }
}

proof fn lemma_slice_consistent(
    s: writer_model::WriterState,
    span: writer_model::OpenSpanModel,
    d: nat,
    now: int,
)
    requires
        consistent(s),
    ensures
        consistent(s.with_slice(span, d, now)),
{
    reveal(writer_model::WriterState::with_slice);
    if !span.is_replaced() && d >= s.min_duration {
        let slices = s.spans_emitted + s.critical_path_slices;
        let counted = writer_model::WriterState { spans_emitted: s.spans_emitted + 1, ..s };
        assert(ordered(counted));
        lemma_span_track(counted, span, now, slices);
        lemma_sliced(
            counted.with_span_track(span, now),
            span.start@,
            span.start@ + d,
            span.track_uuid,
            span.slice_name(),
            span.correlation_id(),
            span.slice_annotations(),
            now,
            slices,
        );
    }
}

proof fn lemma_start_consistent(
    s: writer_model::WriterState,
    event: BuckEvent,
    start: SpanStart,
    now: int,
)
    requires
        consistent(s),
    ensures
        consistent(s.after_start(event, start, now).0),
{
    if let Some(id) = event.span_id {
        let seen = writer_model::WriterState { spans_seen: s.spans_seen + 1, ..s };
        assert(consistent(seen));
        if let Ok((name, category)) = spans::name_and_category(start) {
            let begun = if start is Command {
                writer_model::WriterState { command_start: Some(event.timestamp), ..seen }
            } else {
                seen
            };
            assert(consistent(begun));
            if let Some(counter) = spans::population_counter(start) {
                lemma_bumped(
                    begun,
                    event.timestamp@,
                    counter,
                    1,
                    now,
                    s.spans_emitted + s.critical_path_slices,
                );
                writer_model::lemma_bumped_frame(begun, event.timestamp@, counter, 1, now);
            }
            assert(consistent(begun.with_counted_span(id, event.timestamp@, start, now)));
        }
    }
}

proof fn lemma_failure_consistent(
    s: writer_model::WriterState,
    t: int,
    materialization: Option<Materialization>,
    now: int,
)
    requires
        consistent(s),
    ensures
        consistent(s.with_failure(t, materialization, now)),
{
    reveal(writer_model::WriterState::with_failure);
    if let Some(m) = materialization {
        if !m.success {
            let annotations = writer_model::failure_annotations(m);
            lemma_marked(
                s,
                t,
                "materialization_failure"@,
                annotations,
                now,
                s.spans_emitted + s.critical_path_slices,
            );
            writer_model::lemma_marked_frame(
                s,
                t,
                "materialization_failure"@,
                annotations,
                now,
            );
        }
    }
}

proof fn lemma_end_consistent(
    s: writer_model::WriterState,
    event: BuckEvent,
    end: SpanEnd,
    now: int,
)
    requires
        consistent(s),
    ensures
        consistent(s.after_end(event, end, now).0),
{
    if let Some(id) = event.span_id {
        lemma_failure_consistent(s, event.timestamp@, end.materialization, now);
        let failed = s.with_failure(event.timestamp@, end.materialization, now);
        if failed.span_counter_open.contains_key(id) {
            let without = writer_model::WriterState {
                span_counter_open: failed.span_counter_open.remove(id),
                ..failed
            };
            let name = failed.span_counter_open[id];
            lemma_bumped(
                without,
                event.timestamp@,
                name,
                -1,
                now,
                failed.spans_emitted + failed.critical_path_slices,
            );
            writer_model::lemma_bumped_frame(without, event.timestamp@, name, -1, now);
        }
        let counted = failed.without_counted_span(id, event.timestamp@, now);
        assert(consistent(counted));
        if counted.open_spans.contains_key(id) {
            let closed = writer_model::WriterState {
                open_spans: counted.open_spans.remove(id),
                ..counted
            };
            assert(consistent(closed));
            if let Some(Ok(d)) = end.duration {
                lemma_slice_consistent(closed, counted.open_spans[id], d@, now);
            }
        }
    }
}

/// Whatever event comes, the order of the packets stays right and the statistics
/// keep agreeing with them.
pub proof fn law_events_keep_consistency(
    s: writer_model::WriterState,
    event: BuckEvent,
    now: int,
)
    requires
        consistent(s),
    ensures
        consistent(s.handled(event, now).0),
{
    match event.data {
        EventData::SpanStart(Some(start)) => lemma_start_consistent(s, event, start, now),
        EventData::SpanEnd(end) => lemma_end_consistent(s, event, end, now),
        EventData::Instant(Some(instant)) => match instant {
            Instant::Snapshot(snapshot) => {
                lemma_sampled_consistent(s, event.timestamp, snapshot, now);
            },
            Instant::CommandPreempted => {
                lemma_marked(
                    s,
                    event.timestamp@,
                    "command_preempted"@,
                    seq![],
                    now,
                    s.spans_emitted + s.critical_path_slices,
                );
                writer_model::lemma_marked_frame(
                    s,
                    event.timestamp@,
                    "command_preempted"@,
                    seq![],
                    now,
                );
            },
            Instant::BuildGraphInfo(entries) => {
                if let Some(t) = s.command_start {
                    lemma_top_track(
                        s,
                        TRACK_CRITICAL_PATH,
                        "critical path"@,
                        now,
                        s.spans_emitted + s.critical_path_slices,
                    );
                    lemma_path_slices_consistent(
                        s.with_top_track(TRACK_CRITICAL_PATH, "critical path"@, now),
                        t@,
                        entries@,
                        now,
                    );
                }
            },
            Instant::Other => {},
        },
        _ => {},
    }
}

/// The state of a writer after a sequence of events, each with the time at which it
/// was handed over.
pub open spec fn after_events(
    min_duration: nat,
    events: Seq<(BuckEvent, int)>,
) -> writer_model::WriterState
    decreases events.len(),
{
    if events.len() == 0 {
        writer_model::WriterState::initial(min_duration)
    } else {
        after_events(min_duration, events.drop_last()).handled(
            events.last().0,
            events.last().1,
        ).0
    }
}

/// In every run the order of the packets is right and the statistics agree with them.
pub proof fn law_every_run_is_consistent(min_duration: nat, events: Seq<(BuckEvent, int)>)
    ensures
        consistent(after_events(min_duration, events)),
    decreases events.len(),
{
    if events.len() > 0 {
        law_every_run_is_consistent(min_duration, events.drop_last());
        law_events_keep_consistency(
            after_events(min_duration, events.drop_last()),
            events.last().0,
            events.last().1,
        );
    }
}

/// In every trace all packets belong to one sequence, and the first packet, and no
/// other, relates the clocks and starts the sequence afresh.
pub proof fn law_clock_comes_first(min_duration: nat, events: Seq<(BuckEvent, int)>)
    ensures
        in_sequence(after_events(min_duration, events).packets),
        clock_first(after_events(min_duration, events).packets),
{
    law_every_run_is_consistent(min_duration, events);
}

/// In every trace the beginning of a slice is followed at once by its end, on the
/// same track and with the same correlation id.
pub proof fn law_slices_are_paired(min_duration: nat, events: Seq<(BuckEvent, int)>)
    ensures
        slices_paired(after_events(min_duration, events).packets),
{
    law_every_run_is_consistent(min_duration, events);
}

/// In every trace a counter, an instant and a member of a group come behind the
/// declaration of their track or group.
pub proof fn law_declarations_come_first(min_duration: nat, events: Seq<(BuckEvent, int)>)
    ensures
        events_declared(after_events(min_duration, events).packets),
        parents_declared(after_events(min_duration, events).packets),
        tracks_declared(after_events(min_duration, events)),
{
    law_every_run_is_consistent(min_duration, events);
}

/// The statistics count the packets of each kind; together with the clock packet
/// they account for every packet.
pub proof fn law_statistics_account_for_packets(
    min_duration: nat,
    events: Seq<(BuckEvent, int)>,
)
    ensures
        ({
            let s = after_events(min_duration, events);
            &&& tallied(s, s.spans_emitted + s.critical_path_slices)
        }),
{
    law_every_run_is_consistent(min_duration, events);
}

/// The slice of a root span or of a stage comes behind the declaration of its track.
pub proof fn law_slice_track_is_declared(
    s: writer_model::WriterState,
    span: writer_model::OpenSpanModel,
    d: nat,
    now: int,
)
    requires
        consistent(s),
        span.role is Stage || span.is_root,
        !span.is_replaced(),
        d >= s.min_duration,
    ensures
        ({
            let packets = s.with_slice(span, d, now).packets;
            let n = packets.len() - 2;
            &&& n >= 0
            &&& is_slice(packets[n], packets[n + 1])
            &&& event_track(packets[n]) == Some(span.track_uuid)
            &&& declared_before(packets, span.track_uuid, n)
        }),
{
    reveal(writer_model::WriterState::with_slice);
    let slices = s.spans_emitted + s.critical_path_slices;
    let counted = writer_model::WriterState { spans_emitted: s.spans_emitted + 1, ..s };
    assert(ordered(counted));
    lemma_span_track(counted, span, now, slices);
    let ready = counted.with_span_track(span, now);
    assert(ready.emitted_tracks.contains(span.track_uuid));
    let packets = s.with_slice(span, d, now).packets;
    let n = packets.len() - 2;
    let j = choose|j: int|
        0 <= j < ready.packets.len() && declares(
            #[trigger] ready.packets[j],
            span.track_uuid,
        );
    assert(n == ready.packets.len());
    assert(packets[j] == ready.packets[j]);
    assert(declares(packets[j], span.track_uuid));
}

} // verus!
