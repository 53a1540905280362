//! That the counters of a trace show what the snapshots say.

use vstd::prelude::*;

use crate::binary64;
use crate::counter_laws;
use crate::events::BuckEvent;
use crate::events::EventData;
use crate::events::Instant;
use crate::events::NetworkInterfaceStats;
use crate::events::PathEntry;
use crate::events::Snapshot;
use crate::perfetto_proto;
use crate::perfetto_proto::UNIT_COUNT;
use crate::perfetto_proto::UNIT_SIZE_BYTES;
use crate::spans;
use crate::time::SystemTime;
use crate::writer_laws;
use crate::writer_model;
use crate::writer_model::CounterValue;

verus! {

/// Whether the last packet gives a value to the counter that the packets before it declare
/// under the given name.
pub open spec fn ends_with_sample(
    packets: Seq<perfetto_proto::TracePacketModel>,
    name: Seq<char>,
) -> bool {
    &&& packets.last().track_event matches Some(e)
    &&& e.event_type == Some(4i32)
    &&& counter_laws::descriptor(packets.drop_last(), name) matches Some(d)
    &&& d.uuid is Some
    &&& e.track_uuid == d.uuid
}

/// The last packet that gives a value to the counter that is declared under the given
/// name.
pub open spec fn last_sample(
    packets: Seq<perfetto_proto::TracePacketModel>,
    name: Seq<char>,
) -> Option<perfetto_proto::TracePacketModel>
    decreases packets.len(),
{
    if packets.len() == 0 {
        None
    } else if ends_with_sample(packets, name) {
        Some(packets.last())
    } else {
        last_sample(packets.drop_last(), name)
    }
}

/// Whether the packet is for time `t` of the wall clock: its nanoseconds since the Unix
/// epoch in 64 bits, zero before the epoch.
pub open spec fn is_at(p: perfetto_proto::TracePacketModel, t: int) -> bool {
    &&& p.timestamp_clock_id == Some(1u32)
    &&& p.trusted_packet_sequence_id == Some(1u32)
    &&& p.timestamp is Some
    &&& t < 0 ==> p.timestamp->0 == 0
    &&& t >= 0 ==> p.timestamp->0 == t % 0x1_0000_0000_0000_0000
}

/// Whether the last sample under the name is the double with the given bits, at time `t`.
pub open spec fn shows_double(
    packets: Seq<perfetto_proto::TracePacketModel>,
    name: Seq<char>,
    t: int,
    bits: u64,
) -> bool {
    &&& last_sample(packets, name) matches Some(p)
    &&& is_at(p, t)
    &&& p.track_event matches Some(e)
    &&& e.double_counter_value == Some(bits)
    &&& e.counter_value is None
}

/// Whether the last sample under the name is the given number of 64 bits, read as a signed
/// one, at time `t`.
pub open spec fn shows_number(
    packets: Seq<perfetto_proto::TracePacketModel>,
    name: Seq<char>,
    t: int,
    n: u64,
) -> bool {
    &&& last_sample(packets, name) matches Some(p)
    &&& is_at(p, t)
    &&& p.track_event matches Some(e)
    &&& e.counter_value matches Some(v)
    &&& v == n || v == n - 0x1_0000_0000_0000_0000
    &&& e.double_counter_value is None
}

/// Whether the last sample under the name, at `later`, is the double nearest to the growth
/// from one reading to the next per second, zero where the reading went down.
pub open spec fn shows_rate(
    packets: Seq<perfetto_proto::TracePacketModel>,
    name: Seq<char>,
    earlier: int,
    before: u64,
    later: int,
    after: u64,
) -> bool {
    let growth: nat = if after > before {
        (after - before) as nat
    } else {
        0
    };
    shows_double(
        packets,
        name,
        later,
        binary64::bits_of(binary64::per_second(growth, (later - earlier) as nat)),
    )
}

/// Nothing was declared as a counter under the name, given to it or read of it.
spec fn same_under(
    after: writer_model::WriterState,
    before: writer_model::WriterState,
    name: Seq<char>,
) -> bool {
    &&& last_sample(after.packets, name) == last_sample(before.packets, name)
    &&& after.prev_rate.contains_key(name) == before.prev_rate.contains_key(name)
    &&& before.prev_rate.contains_key(name) ==> after.prev_rate[name] == before.prev_rate[name]
}

proof fn lemma_push(
    packets: Seq<perfetto_proto::TracePacketModel>,
    p: perfetto_proto::TracePacketModel,
    name: Seq<char>,
)
    ensures
        last_sample(packets.push(p), name) == if ends_with_sample(packets.push(p), name) {
            Some(p)
        } else {
            last_sample(packets, name)
        },
        ends_with_sample(packets.push(p), name) <==> (p.track_event matches Some(e)
            && e.event_type == Some(4i32) && (counter_laws::descriptor(packets, name) matches Some(
            d,
        ) && d.uuid is Some && e.track_uuid == d.uuid)),
{
    assert(packets.push(p).drop_last() =~= packets);
}

/// One more packet, behind the clock packet where it is the first.
proof fn lemma_written(
    s: writer_model::WriterState,
    p: perfetto_proto::TracePacketModel,
    now: int,
    name: Seq<char>,
)
    ensures
        ({
            let q = perfetto_proto::TracePacketModel {
                trusted_packet_sequence_id: Some(1u32),
                ..p
            };
            let hits = p.track_event matches Some(e) && e.event_type == Some(4i32) && (
            counter_laws::descriptor(s.packets, name) matches Some(d) && d.uuid is Some
                && e.track_uuid == d.uuid);
            last_sample(s.written(p, now).packets, name) == if hits {
                Some(q)
            } else {
                last_sample(s.packets, name)
            }
        }),
{
    let q = perfetto_proto::TracePacketModel { trusted_packet_sequence_id: Some(1u32), ..p };
    if s.packets.len() == 0 {
        let clock = writer_model::clock_packet(now);
        assert(s.packets.push(clock) =~= seq![clock]);
        lemma_push(s.packets, clock, name);
        lemma_push(seq![clock], q, name);
        assert(seq![clock].drop_last() =~= s.packets);
        assert(counter_laws::descriptor(seq![clock], name) == counter_laws::descriptor(
            s.packets,
            name,
        ));
    } else {
        lemma_push(s.packets, q, name);
    }
}

/// A counter takes a value: it is the last sample under its name, and nothing changes
/// under any other.
proof fn lemma_counted(
    s: writer_model::WriterState,
    t: int,
    name: Seq<char>,
    unit: i32,
    parent: Option<u64>,
    value: CounterValue,
    now: int,
)
    requires
        counter_laws::counters_right(s),
        s.counted(t, name, unit, parent, value, now).next_counter_uuid <= u64::MAX,
        value is Double || !counter_laws::begins_spans(name),
    ensures
        ({
            let after = s.counted(t, name, unit, parent, value, now);
            &&& counter_laws::counters_right(after)
            &&& after.prev_rate == s.prev_rate
            &&& value matches CounterValue::Double(bits) ==> shows_double(
                after.packets,
                name,
                t,
                bits,
            )
            &&& value matches CounterValue::Int(v) ==> {
                &&& last_sample(after.packets, name) matches Some(p)
                &&& is_at(p, t)
                &&& p.track_event matches Some(e)
                &&& e.counter_value == Some(v)
                &&& e.double_counter_value is None
            }
            &&& forall|n: Seq<char>| n != name ==> #[trigger] last_sample(after.packets, n)
                == last_sample(s.packets, n)
        }),
{
    reveal(writer_model::WriterState::counted);
    counter_laws::lemma_counted(s, t, name, unit, parent, value, now);
    counter_laws::lemma_counter_track(s, name, unit, parent, now);
    let d = s.with_counter_track(name, unit, parent, now);
    let uuid = d.counter_tracks[name];
    let p = writer_model::timed(t, writer_model::counter_event(uuid, value));
    let after = s.counted(t, name, unit, parent, value, now);
    assert(after.packets == d.written(p, now).packets);
    lemma_written(d, p, now, name);
    assert(counter_laws::descriptor(d.packets, name) is Some);
    assert forall|n: Seq<char>| n != name implies #[trigger] last_sample(after.packets, n)
        == last_sample(s.packets, n) by {
        lemma_written(d, p, now, n);
        if let Some(other) = counter_laws::descriptor(d.packets, n) {
            assert(d.counter_tracks.contains_key(n));
            assert(d.counter_tracks[n] != uuid);
        }
        if !s.counter_tracks.contains_key(name) {
            let fresh = s.next_counter_uuid as u64;
            let middle = writer_model::WriterState {
                next_counter_uuid: s.next_counter_uuid + 1,
                counter_tracks: s.counter_tracks.insert(name, fresh),
                tracks: s.tracks + 1,
                ..s
            };
            lemma_written(
                middle,
                writer_model::declaration(
                    writer_model::counter_track(fresh, name, unit, parent),
                ),
                now,
                n,
            );
        }
    }
}

/// Whether there is an earlier reading under the name.
spec fn is_due(s: writer_model::WriterState, t: SystemTime, name: Seq<char>) -> bool {
    s.prev_rate.contains_key(name) && s.prev_rate[name].0@ < t@
}

/// Whether nothing was given to the counter under the name, unless there is an earlier
/// reading.
spec fn waits_for_time(
    after: writer_model::WriterState,
    before: writer_model::WriterState,
    t: SystemTime,
    name: Seq<char>,
) -> bool {
    !is_due(before, t, name) ==> last_sample(after.packets, name) == last_sample(
        before.packets,
        name,
    )
}

/// An amount is read: it is the last reading under its name, its rate is shown if there
/// was an earlier one, and nothing changes under any other name.
proof fn lemma_rated(
    s: writer_model::WriterState,
    t: SystemTime,
    name: Seq<char>,
    amount: u64,
    now: int,
)
    requires
        counter_laws::counters_right(s),
        s.rated(t, name, amount, now).next_counter_uuid <= u64::MAX,
    ensures
        ({
            let after = s.rated(t, name, amount, now);
            &&& counter_laws::counters_right(after)
            &&& after.prev_rate.contains_key(name)
            &&& after.prev_rate[name] == (t, amount)
            &&& s.prev_rate.contains_key(name) && s.prev_rate[name].0@ < t@ ==> shows_rate(
                after.packets,
                name,
                s.prev_rate[name].0@,
                s.prev_rate[name].1,
                t@,
                amount,
            )
            &&& !is_due(s, t, name) ==> last_sample(after.packets, name) == last_sample(
                s.packets,
                name,
            )
            &&& forall|n: Seq<char>| n != name ==> #[trigger] same_under(after, s, n)
        }),
{
    reveal(writer_model::WriterState::rated);
    counter_laws::lemma_rated(s, t, name, amount, now);
    if s.prev_rate.contains_key(name) && s.prev_rate[name].0@ < t@ {
        let (earlier, before) = s.prev_rate[name];
        let delta: nat = if amount < before {
            0
        } else {
            (amount - before) as nat
        };
        let bits = binary64::bits_of(binary64::per_second(delta, (t@ - earlier@) as nat));
        lemma_counted(s, t@, name, UNIT_COUNT, None, CounterValue::Double(bits), now);
        let after = s.rated(t, name, amount, now);
        let counted = s.counted(t@, name, UNIT_COUNT, None, CounterValue::Double(bits), now);
        assert forall|n: Seq<char>| n != name implies #[trigger] same_under(after, s, n) by {
            assert(last_sample(counted.packets, n) == last_sample(s.packets, n));
        }
    }
}

/// The sizes and queue lengths of a snapshot are shown under their names.
pub open spec fn shows_sizes(
    packets: Seq<perfetto_proto::TracePacketModel>,
    t: int,
    snapshot: Snapshot,
) -> bool {
    &&& shows_double(
        packets,
        "max_rss_gigabyte"@,
        t,
        binary64::bits_of(binary64::int_quotient(snapshot.buck2_max_rss as nat, 1_000_000_000)),
    )
    &&& snapshot.malloc_bytes_active matches Some(bytes) ==> shows_double(
        packets,
        "malloc_active_gigabyte"@,
        t,
        binary64::bits_of(binary64::int_quotient(bytes as nat, 1_000_000_000)),
    )
    &&& shows_number(
        packets,
        "deferred_materializer_queue_size"@,
        t,
        snapshot.deferred_materializer_queue_size,
    )
    &&& shows_number(
        packets,
        "blocking_executor_io_queue_size"@,
        t,
        snapshot.blocking_executor_io_queue_size,
    )
    &&& shows_number(
        packets,
        "tokio_blocking_queue_depth"@,
        t,
        snapshot.tokio_blocking_queue_depth,
    )
}

/// Whether the last reading of each amount is that of the snapshot.
spec fn has_read(s: writer_model::WriterState, t: SystemTime, snapshot: Snapshot) -> bool {
    &&& reads(s, t, "user_cpu_us_per_s"@, snapshot.buck2_user_cpu_us)
    &&& reads(s, t, "system_cpu_us_per_s"@, snapshot.buck2_system_cpu_us)
    &&& reads(s, t, "re_upload_bytes_per_s"@, snapshot.re_upload_bytes)
    &&& reads(s, t, "re_download_bytes_per_s"@, snapshot.re_download_bytes)
    &&& reads(s, t, "http_download_bytes_per_s"@, snapshot.http_download_bytes)
}

spec fn reads(s: writer_model::WriterState, t: SystemTime, name: Seq<char>, amount: u64) -> bool {
    s.prev_rate.contains_key(name) && s.prev_rate[name] == (t, amount)
}

/// The rates from one snapshot to the next are shown under the names of the readings.
pub open spec fn shows_rates(
    packets: Seq<perfetto_proto::TracePacketModel>,
    earlier: int,
    first: Snapshot,
    later: int,
    second: Snapshot,
) -> bool {
    &&& shows_rate(
        packets,
        "user_cpu_us_per_s"@,
        earlier,
        first.buck2_user_cpu_us,
        later,
        second.buck2_user_cpu_us,
    )
    &&& shows_rate(
        packets,
        "system_cpu_us_per_s"@,
        earlier,
        first.buck2_system_cpu_us,
        later,
        second.buck2_system_cpu_us,
    )
    &&& shows_rate(
        packets,
        "re_upload_bytes_per_s"@,
        earlier,
        first.re_upload_bytes,
        later,
        second.re_upload_bytes,
    )
    &&& shows_rate(
        packets,
        "re_download_bytes_per_s"@,
        earlier,
        first.re_download_bytes,
        later,
        second.re_download_bytes,
    )
    &&& shows_rate(
        packets,
        "http_download_bytes_per_s"@,
        earlier,
        first.http_download_bytes,
        later,
        second.http_download_bytes,
    )
}

pub proof fn lemma_lengths()
    ensures
        "max_rss_gigabyte"@.len() == 16,
        "malloc_active_gigabyte"@.len() == 22,
        "deferred_materializer_queue_size"@.len() == 32,
        "blocking_executor_io_queue_size"@.len() == 31,
        "tokio_blocking_queue_depth"@.len() == 26,
        "user_cpu_us_per_s"@.len() == 17,
        "system_cpu_us_per_s"@.len() == 19,
        "re_upload_bytes_per_s"@.len() == 21,
        "re_download_bytes_per_s"@.len() == 23,
        "http_download_bytes_per_s"@.len() == 25,
        "max_rss_gigabyte"@[15] == 'e',
        "malloc_active_gigabyte"@[21] == 'e',
        "deferred_materializer_queue_size"@[31] == 'e',
        "blocking_executor_io_queue_size"@[30] == 'e',
        "tokio_blocking_queue_depth"@[25] == 'h',
        "user_cpu_us_per_s"@[0] == 'u',
        "system_cpu_us_per_s"@[2] == 's',
        "re_upload_bytes_per_s"@[4] == 'p' && "re_upload_bytes_per_s"@[1] == 'e',
        "re_download_bytes_per_s"@[6] == 'n' && "re_download_bytes_per_s"@[3] == 'd',
        "http_download_bytes_per_s"@[8] == 'n' && "http_download_bytes_per_s"@[5] == 'd',
        "_send_bytes_per_s"@.len() == 17,
        "_receive_bytes_per_s"@.len() == 20,
        "_send_bytes_per_s"@[0] == '_' && "_send_bytes_per_s"@[16] == 's',
        "_receive_bytes_per_s"@[0] == '_' && "_receive_bytes_per_s"@[19] == 's',
        "_receive_bytes_per_s"@[3] == 'c',
        !counter_laws::begins_spans("deferred_materializer_queue_size"@),
        !counter_laws::begins_spans("blocking_executor_io_queue_size"@),
        !counter_laws::begins_spans("tokio_blocking_queue_depth"@),
{
    reveal_strlit("max_rss_gigabyte");
    reveal_strlit("malloc_active_gigabyte");
    reveal_strlit("deferred_materializer_queue_size");
    reveal_strlit("blocking_executor_io_queue_size");
    reveal_strlit("tokio_blocking_queue_depth");
    reveal_strlit("user_cpu_us_per_s");
    reveal_strlit("system_cpu_us_per_s");
    reveal_strlit("re_upload_bytes_per_s");
    reveal_strlit("re_download_bytes_per_s");
    reveal_strlit("http_download_bytes_per_s");
    reveal_strlit("_send_bytes_per_s");
    reveal_strlit("_receive_bytes_per_s");
    reveal_strlit("spans: ");
    assert("spans: "@[0] == 's');
    assert("deferred_materializer_queue_size"@.take(7)[0] == 'd');
    assert("blocking_executor_io_queue_size"@.take(7)[0] == 'b');
    assert("tokio_blocking_queue_depth"@.take(7)[0] == 't');
}

/// The names of the rates of network interfaces differ where the interfaces do, and from
/// all other names.
proof fn lemma_nic_names(nic: Seq<char>)
    ensures
        ({
            let send = nic + "_send_bytes_per_s"@;
            let receive = nic + "_receive_bytes_per_s"@;
            &&& forall|other: Seq<char>|
                send != #[trigger] (other + "_receive_bytes_per_s"@) && (send == other
                    + "_send_bytes_per_s"@ ==> nic == other)
            &&& forall|other: Seq<char>|
                receive != #[trigger] (other + "_send_bytes_per_s"@) && (receive == other
                    + "_receive_bytes_per_s"@ ==> nic == other)
            &&& fixed_names().all(|n: Seq<char>| n != send && n != receive)
        }),
{
    lemma_lengths();
    let send = nic + "_send_bytes_per_s"@;
    let receive = nic + "_receive_bytes_per_s"@;
    assert(send[send.len() - 17] == '_' && send[send.len() - 1] == 's');
    assert(receive[receive.len() - 20] == '_' && receive[receive.len() - 1] == 's');
    assert(receive[receive.len() - 17] == 'c');
    assert forall|other: Seq<char>|
        send != #[trigger] (other + "_receive_bytes_per_s"@) && (send == other
            + "_send_bytes_per_s"@ ==> nic == other) by {
        let a = other + "_receive_bytes_per_s"@;
        assert(a[a.len() - 17] == 'c');
        let b = other + "_send_bytes_per_s"@;
        if send == b {
            assert(send.take(send.len() - 17) =~= nic);
            assert(b.take(b.len() - 17) =~= other);
        }
    }
    assert forall|other: Seq<char>|
        receive != #[trigger] (other + "_send_bytes_per_s"@) && (receive == other
            + "_receive_bytes_per_s"@ ==> nic == other) by {
        let a = other + "_send_bytes_per_s"@;
        assert(a[a.len() - 17] == '_');
        let b = other + "_receive_bytes_per_s"@;
        if receive == b {
            assert(receive.take(receive.len() - 20) =~= nic);
            assert(b.take(b.len() - 20) =~= other);
        }
    }
    let names = fixed_names();
    assert(names.len() == 10);
    assert(names[0] == "max_rss_gigabyte"@ && names[1] == "malloc_active_gigabyte"@);
    assert(names[2] == "deferred_materializer_queue_size"@);
    assert(names[3] == "blocking_executor_io_queue_size"@);
    assert(names[4] == "tokio_blocking_queue_depth"@ && names[5] == "user_cpu_us_per_s"@);
    assert(names[6] == "system_cpu_us_per_s"@ && names[7] == "re_upload_bytes_per_s"@);
    assert(names[8] == "re_download_bytes_per_s"@ && names[9] == "http_download_bytes_per_s"@);
    assert forall|i: int| 0 <= i < names.len() implies #[trigger] names[i] != send && names[i]
        != receive by {
        assert(i == 0 || i == 1 || i == 2 || i == 3 || i == 4 || i == 5 || i == 6 || i == 7 || i
            == 8 || i == 9);
    }
}

/// The names of the counters that every snapshot may have.
spec fn fixed_names() -> Seq<Seq<char>> {
    seq![
        "max_rss_gigabyte"@,
        "malloc_active_gigabyte"@,
        "deferred_materializer_queue_size"@,
        "blocking_executor_io_queue_size"@,
        "tokio_blocking_queue_depth"@,
        "user_cpu_us_per_s"@,
        "system_cpu_us_per_s"@,
        "re_upload_bytes_per_s"@,
        "re_download_bytes_per_s"@,
        "http_download_bytes_per_s"@,
    ]
}

proof fn lemma_sizes(s: writer_model::WriterState, t: int, snapshot: Snapshot, now: int)
    requires
        counter_laws::counters_right(s),
        s.sampled_sizes(t, snapshot, now).next_counter_uuid <= u64::MAX,
    ensures
        ({
            let after = s.sampled_sizes(t, snapshot, now);
            &&& counter_laws::counters_right(after)
            &&& after.prev_rate == s.prev_rate
            &&& shows_sizes(after.packets, t, snapshot)
            &&& forall|n: Seq<char>|
                n != "max_rss_gigabyte"@ && (n != "malloc_active_gigabyte"@
                    || snapshot.malloc_bytes_active is None) && n
                    != "deferred_materializer_queue_size"@ && n
                    != "blocking_executor_io_queue_size"@ && n != "tokio_blocking_queue_depth"@
                    ==> #[trigger] last_sample(after.packets, n) == last_sample(s.packets, n)
        }),
{
    broadcast use writer_model::lemma_counted_grows;

    lemma_lengths();
    let rss = CounterValue::Double(writer_model::gigabytes(snapshot.buck2_max_rss));
    let a = s.counted(t, "max_rss_gigabyte"@, UNIT_SIZE_BYTES, None, rss, now);
    let b = match snapshot.malloc_bytes_active {
        Some(bytes) => a.counted(
            t,
            "malloc_active_gigabyte"@,
            UNIT_SIZE_BYTES,
            None,
            CounterValue::Double(writer_model::gigabytes(bytes)),
            now,
        ),
        None => a,
    };
    let deferred = CounterValue::Int(
        writer_model::as_signed(snapshot.deferred_materializer_queue_size),
    );
    let c = b.counted(t, "deferred_materializer_queue_size"@, UNIT_COUNT, None, deferred, now);
    let blocking = CounterValue::Int(
        writer_model::as_signed(snapshot.blocking_executor_io_queue_size),
    );
    let d = c.counted(t, "blocking_executor_io_queue_size"@, UNIT_COUNT, None, blocking, now);
    let depth = CounterValue::Int(writer_model::as_signed(snapshot.tokio_blocking_queue_depth));
    let e = d.counted(t, "tokio_blocking_queue_depth"@, UNIT_COUNT, None, depth, now);
    assert(e == s.sampled_sizes(t, snapshot, now));
    lemma_counted(s, t, "max_rss_gigabyte"@, UNIT_SIZE_BYTES, None, rss, now);
    if let Some(bytes) = snapshot.malloc_bytes_active {
        lemma_counted(
            a,
            t,
            "malloc_active_gigabyte"@,
            UNIT_SIZE_BYTES,
            None,
            CounterValue::Double(writer_model::gigabytes(bytes)),
            now,
        );
    }
    lemma_counted(b, t, "deferred_materializer_queue_size"@, UNIT_COUNT, None, deferred, now);
    lemma_counted(c, t, "blocking_executor_io_queue_size"@, UNIT_COUNT, None, blocking, now);
    lemma_counted(d, t, "tokio_blocking_queue_depth"@, UNIT_COUNT, None, depth, now);
    assert forall|n: Seq<char>|
        n != "max_rss_gigabyte"@ && (n != "malloc_active_gigabyte"@
            || snapshot.malloc_bytes_active is None) && n != "deferred_materializer_queue_size"@
            && n != "blocking_executor_io_queue_size"@ && n
            != "tokio_blocking_queue_depth"@ implies #[trigger] last_sample(e.packets, n)
        == last_sample(s.packets, n) by {
        assert(last_sample(d.packets, n) == last_sample(c.packets, n));
        assert(last_sample(c.packets, n) == last_sample(b.packets, n));
        assert(last_sample(b.packets, n) == last_sample(a.packets, n));
    }
}

spec fn all_wait_for_time(
    after: writer_model::WriterState,
    before: writer_model::WriterState,
    t: SystemTime,
) -> bool {
    &&& waits_for_time(after, before, t, "user_cpu_us_per_s"@)
    &&& waits_for_time(after, before, t, "system_cpu_us_per_s"@)
    &&& waits_for_time(after, before, t, "re_upload_bytes_per_s"@)
    &&& waits_for_time(after, before, t, "re_download_bytes_per_s"@)
    &&& waits_for_time(after, before, t, "http_download_bytes_per_s"@)
}

proof fn lemma_rates(s: writer_model::WriterState, t: SystemTime, snapshot: Snapshot, now: int)
    requires
        counter_laws::counters_right(s),
        s.sampled_rates(t, snapshot, now).next_counter_uuid <= u64::MAX,
    ensures
        ({
            let after = s.sampled_rates(t, snapshot, now);
            &&& counter_laws::counters_right(after)
            &&& has_read(after, t, snapshot)
            &&& forall|earlier: SystemTime, first: Snapshot|
                earlier@ < t@ && #[trigger] has_read(s, earlier, first) ==> shows_rates(
                    after.packets,
                    earlier@,
                    first,
                    t@,
                    snapshot,
                )
            &&& all_wait_for_time(after, s, t)
            &&& forall|n: Seq<char>|
                n != "user_cpu_us_per_s"@ && n != "system_cpu_us_per_s"@ && n
                    != "re_upload_bytes_per_s"@ && n != "re_download_bytes_per_s"@ && n
                    != "http_download_bytes_per_s"@ ==> #[trigger] same_under(after, s, n)
        }),
{
    broadcast use writer_model::lemma_rated_grows;

    lemma_lengths();
    let a = s.rated(t, "user_cpu_us_per_s"@, snapshot.buck2_user_cpu_us, now);
    let b = a.rated(t, "system_cpu_us_per_s"@, snapshot.buck2_system_cpu_us, now);
    let c = b.rated(t, "re_upload_bytes_per_s"@, snapshot.re_upload_bytes, now);
    let d = c.rated(t, "re_download_bytes_per_s"@, snapshot.re_download_bytes, now);
    let e = d.rated(t, "http_download_bytes_per_s"@, snapshot.http_download_bytes, now);
    assert(e == s.sampled_rates(t, snapshot, now));
    lemma_rated(s, t, "user_cpu_us_per_s"@, snapshot.buck2_user_cpu_us, now);
    lemma_rated(a, t, "system_cpu_us_per_s"@, snapshot.buck2_system_cpu_us, now);
    lemma_rated(b, t, "re_upload_bytes_per_s"@, snapshot.re_upload_bytes, now);
    lemma_rated(c, t, "re_download_bytes_per_s"@, snapshot.re_download_bytes, now);
    lemma_rated(d, t, "http_download_bytes_per_s"@, snapshot.http_download_bytes, now);
    let user = "user_cpu_us_per_s"@;
    let system = "system_cpu_us_per_s"@;
    let upload = "re_upload_bytes_per_s"@;
    let download = "re_download_bytes_per_s"@;
    let http = "http_download_bytes_per_s"@;
    assert(same_under(b, a, user) && same_under(c, b, user) && same_under(d, c, user)
        && same_under(e, d, user));
    assert(same_under(a, s, system) && same_under(c, b, system) && same_under(d, c, system)
        && same_under(e, d, system));
    assert(same_under(a, s, upload) && same_under(b, a, upload) && same_under(d, c, upload)
        && same_under(e, d, upload));
    assert(same_under(a, s, download) && same_under(b, a, download) && same_under(c, b, download)
        && same_under(e, d, download));
    assert(same_under(a, s, http) && same_under(b, a, http) && same_under(c, b, http)
        && same_under(d, c, http));
    assert forall|n: Seq<char>|
        n != user && n != system && n != upload && n != download && n
            != http implies #[trigger] same_under(e, s, n) by {
        assert(same_under(a, s, n) && same_under(b, a, n) && same_under(c, b, n) && same_under(
            d,
            c,
            n,
        ) && same_under(e, d, n));
    }
}

/// Whether the interface is listed at place `i` and nowhere else.
pub open spec fn listed_once(nics: Seq<NetworkInterfaceStats>, i: int) -> bool {
    &&& 0 <= i < nics.len()
    &&& forall|j: int|
        0 <= j < nics.len() && j != i ==> (#[trigger] nics[j]).nic@ != nics[i].nic@
}

proof fn lemma_nics(
    s: writer_model::WriterState,
    t: SystemTime,
    nics: Seq<NetworkInterfaceStats>,
    now: int,
)
    requires
        counter_laws::counters_right(s),
        s.sampled_nics(t, nics, now).next_counter_uuid <= u64::MAX,
    ensures
        ({
            let after = s.sampled_nics(t, nics, now);
            &&& counter_laws::counters_right(after)
            &&& forall|n: Seq<char>|
                (forall|j: int|
                    0 <= j < nics.len() ==> n != (#[trigger] nics[j]).nic@ + "_send_bytes_per_s"@
                        && n != nics[j].nic@ + "_receive_bytes_per_s"@) ==> #[trigger] same_under(
                    after,
                    s,
                    n,
                )
            &&& forall|i: int| #[trigger] listed_once(nics, i) ==> nic_is_read(after, s, t, nics[i])
        }),
    decreases nics.len(),
{
    broadcast use writer_model::lemma_rated_grows;

    let after = s.sampled_nics(t, nics, now);
    if nics.len() > 0 {
        let init = nics.drop_last();
        let nic = nics.last();
        let rest = s.sampled_nics(t, init, now);
        let send = nic.nic@ + "_send_bytes_per_s"@;
        let receive = nic.nic@ + "_receive_bytes_per_s"@;
        let sent = rest.rated(t, send, nic.tx_bytes, now);
        lemma_nics(s, t, init, now);
        lemma_rated(rest, t, send, nic.tx_bytes, now);
        lemma_rated(sent, t, receive, nic.rx_bytes, now);
        lemma_nic_names(nic.nic@);
        assert(nics[nics.len() - 1] == nic);
        assert forall|n: Seq<char>|
            (forall|j: int|
                0 <= j < nics.len() ==> n != (#[trigger] nics[j]).nic@ + "_send_bytes_per_s"@ && n
                    != nics[j].nic@ + "_receive_bytes_per_s"@) implies #[trigger] same_under(
            after,
            s,
            n,
        ) by {
            assert forall|j: int| 0 <= j < init.len() implies n != (#[trigger] init[j]).nic@
                + "_send_bytes_per_s"@ && n != init[j].nic@ + "_receive_bytes_per_s"@ by {
                assert(init[j] == nics[j]);
            }
            assert(same_under(rest, s, n));
            assert(n != send && n != receive);
            assert(same_under(sent, rest, n) && same_under(after, sent, n));
        }
        assert forall|i: int| #[trigger] listed_once(nics, i) implies nic_is_read(
            after,
            s,
            t,
            nics[i],
        ) by {
            let its_send = nics[i].nic@ + "_send_bytes_per_s"@;
            let its_receive = nics[i].nic@ + "_receive_bytes_per_s"@;
            lemma_nic_names(nics[i].nic@);
            if i < init.len() {
                assert(init[i] == nics[i]);
                assert forall|j: int| 0 <= j < init.len() && j != i implies (
                #[trigger] init[j]).nic@ != init[i].nic@ by {
                    assert(init[j] == nics[j]);
                }
                assert(listed_once(init, i));
                assert(nics[nics.len() - 1].nic@ != nics[i].nic@);
                assert(its_send != send && its_send != receive);
                assert(its_receive != send && its_receive != receive);
                assert(same_under(sent, rest, its_send) && same_under(after, sent, its_send));
                assert(same_under(sent, rest, its_receive) && same_under(after, sent, its_receive));
            } else {
                assert forall|j: int| 0 <= j < init.len() implies send != (#[trigger] init[j]).nic@
                    + "_send_bytes_per_s"@ && send != init[j].nic@ + "_receive_bytes_per_s"@
                    && receive != init[j].nic@ + "_send_bytes_per_s"@ && receive != init[j].nic@
                    + "_receive_bytes_per_s"@ by {
                    assert(init[j] == nics[j]);
                }
                assert(same_under(rest, s, send) && same_under(rest, s, receive));
                assert(same_under(sent, rest, receive) && same_under(after, sent, send));
            }
        }
    } else {
        assert forall|n: Seq<char>| #[trigger] same_under(after, s, n) by {}
    }
}

/// The interface was read, and its rates are shown if there were earlier readings.
spec fn nic_is_read(
    after: writer_model::WriterState,
    before: writer_model::WriterState,
    t: SystemTime,
    nic: NetworkInterfaceStats,
) -> bool {
    let send = nic.nic@ + "_send_bytes_per_s"@;
    let receive = nic.nic@ + "_receive_bytes_per_s"@;
    &&& reads(after, t, send, nic.tx_bytes)
    &&& reads(after, t, receive, nic.rx_bytes)
    &&& before.prev_rate.contains_key(send) && before.prev_rate[send].0@ < t@ ==> shows_rate(
        after.packets,
        send,
        before.prev_rate[send].0@,
        before.prev_rate[send].1,
        t@,
        nic.tx_bytes,
    )
    &&& before.prev_rate.contains_key(receive) && before.prev_rate[receive].0@ < t@ ==> shows_rate(
        after.packets,
        receive,
        before.prev_rate[receive].0@,
        before.prev_rate[receive].1,
        t@,
        nic.rx_bytes,
    )
}

/// What a snapshot does to the trace and to the readings.
proof fn lemma_sampled(s: writer_model::WriterState, t: SystemTime, snapshot: Snapshot, now: int)
    requires
        counter_laws::counters_right(s),
        s.sampled(t, snapshot, now).next_counter_uuid <= u64::MAX,
    ensures
        ({
            let after = s.sampled(t, snapshot, now);
            let nics = snapshot.network_interface_stats@;
            &&& counter_laws::counters_right(after)
            &&& shows_sizes(after.packets, t@, snapshot)
            &&& snapshot.malloc_bytes_active is None ==> last_sample(
                after.packets,
                "malloc_active_gigabyte"@,
            ) == last_sample(s.packets, "malloc_active_gigabyte"@)
            &&& has_read(after, t, snapshot)
            &&& forall|earlier: SystemTime, first: Snapshot|
                earlier@ < t@ && #[trigger] has_read(s, earlier, first) ==> shows_rates(
                    after.packets,
                    earlier@,
                    first,
                    t@,
                    snapshot,
                )
            &&& all_wait_for_time(after, s, t)
            &&& forall|i: int| #[trigger] listed_once(nics, i) ==> nic_is_read(after, s, t, nics[i])
        }),
{
    let sizes = s.sampled_sizes(t@, snapshot, now);
    let rates = sizes.sampled_rates(t, snapshot, now);
    let nics = snapshot.network_interface_stats@;
    let after = s.sampled(t, snapshot, now);
    writer_model::lemma_sampled_nics_grows(rates, t, nics, 0, now);
    assert(nics.take(0) =~= Seq::<NetworkInterfaceStats>::empty());
    writer_model::lemma_sampled_rates_grows(sizes, t, snapshot, now);
    lemma_sizes(s, t@, snapshot, now);
    lemma_rates(sizes, t, snapshot, now);
    lemma_nics(rates, t, nics, now);
    lemma_lengths();
    let names = fixed_names();
    assert forall|k: int| 0 <= k < names.len() implies #[trigger] same_under(
        after,
        rates,
        names[k],
    ) by {
        assert forall|j: int| 0 <= j < nics.len() implies names[k] != (#[trigger] nics[j]).nic@
            + "_send_bytes_per_s"@ && names[k] != nics[j].nic@ + "_receive_bytes_per_s"@ by {
            lemma_nic_names(nics[j].nic@);
        }
    }
    assert(same_under(after, rates, names[0]) && same_under(after, rates, names[1]) && same_under(
        after,
        rates,
        names[2],
    ) && same_under(after, rates, names[3]) && same_under(after, rates, names[4]));
    assert(same_under(after, rates, names[5]) && same_under(after, rates, names[6]) && same_under(
        after,
        rates,
        names[7],
    ) && same_under(after, rates, names[8]) && same_under(after, rates, names[9]));
    assert(same_under(rates, sizes, names[0]) && same_under(rates, sizes, names[1]) && same_under(
        rates,
        sizes,
        names[2],
    ) && same_under(rates, sizes, names[3]) && same_under(rates, sizes, names[4]));
    assert(shows_sizes(after.packets, t@, snapshot));
    assert forall|earlier: SystemTime, first: Snapshot|
        earlier@ < t@ && #[trigger] has_read(s, earlier, first) implies shows_rates(
        after.packets,
        earlier@,
        first,
        t@,
        snapshot,
    ) by {
        assert(has_read(sizes, earlier, first));
        assert(shows_rates(rates.packets, earlier@, first, t@, snapshot));
    }
    assert forall|i: int| #[trigger] listed_once(nics, i) implies nic_is_read(
        after,
        s,
        t,
        nics[i],
    ) by {
        lemma_nic_names(nics[i].nic@);
        let send = nics[i].nic@ + "_send_bytes_per_s"@;
        let receive = nics[i].nic@ + "_receive_bytes_per_s"@;
        assert(names[5] != send && names[6] != send && names[7] != send && names[8] != send
            && names[9] != send);
        assert(names[5] != receive && names[6] != receive && names[7] != receive && names[8]
            != receive && names[9] != receive);
        assert(same_under(rates, sizes, send) && same_under(rates, sizes, receive));
    }
}

/// Whether the event is a snapshot.
pub open spec fn is_snapshot(event: BuckEvent) -> bool {
    event.data matches EventData::Instant(Some(Instant::Snapshot(_)))
}

proof fn lemma_path_reads_nothing(
    s: writer_model::WriterState,
    t: int,
    entries: Seq<PathEntry>,
    now: int,
)
    ensures
        s.with_path_slices(t, entries, now).0.prev_rate == s.prev_rate,
    decreases entries.len(),
{
    if entries.len() > 0 {
        lemma_path_reads_nothing(s, t, entries.drop_last(), now);
    }
}

/// Other events than snapshots read no amount.
proof fn lemma_reads_nothing(s: writer_model::WriterState, event: BuckEvent, now: int)
    requires
        !is_snapshot(event),
    ensures
        s.handled(event, now).0.prev_rate == s.prev_rate,
{
    let t = event.timestamp@;
    match event.data {
        EventData::SpanStart(Some(start)) => {
            if let Some(id) = event.span_id {
                let seen = writer_model::WriterState { spans_seen: s.spans_seen + 1, ..s };
                let begun = if start is Command {
                    writer_model::WriterState { command_start: Some(event.timestamp), ..seen }
                } else {
                    seen
                };
                if let Some(name) = spans::population_counter(start) {
                    writer_model::lemma_bumped_frame(begun, t, name, 1, now);
                }
            }
        },
        EventData::SpanEnd(end) => {
            if let Some(id) = event.span_id {
                reveal(writer_model::WriterState::with_failure);
                reveal(writer_model::WriterState::with_slice);
                if let Some(m) = end.materialization {
                    if !m.success {
                        writer_model::lemma_marked_frame(
                            s,
                            t,
                            "materialization_failure"@,
                            writer_model::failure_annotations(m),
                            now,
                        );
                    }
                }
                let failed = s.with_failure(t, end.materialization, now);
                if failed.span_counter_open.contains_key(id) {
                    let without = writer_model::WriterState {
                        span_counter_open: failed.span_counter_open.remove(id),
                        ..failed
                    };
                    writer_model::lemma_bumped_frame(
                        without,
                        t,
                        failed.span_counter_open[id],
                        -1,
                        now,
                    );
                }
            }
        },
        EventData::Instant(Some(Instant::CommandPreempted)) => {
            writer_model::lemma_marked_frame(s, t, "command_preempted"@, seq![], now);
        },
        EventData::Instant(Some(Instant::BuildGraphInfo(entries))) => {
            if let Some(start) = s.command_start {
                lemma_path_reads_nothing(
                    s.with_top_track(spans::TRACK_CRITICAL_PATH, "critical path"@, now),
                    start@,
                    entries@,
                    now,
                );
            }
        },
        _ => {},
    }
}

proof fn lemma_readings_stay(s: writer_model::WriterState, events: Seq<(BuckEvent, int)>)
    requires
        forall|i: int| 0 <= i < events.len() ==> !is_snapshot((#[trigger] events[i]).0),
    ensures
        counter_laws::after_more(s, events).prev_rate == s.prev_rate,
    decreases events.len(),
{
    if events.len() > 0 {
        let init = events.drop_last();
        assert forall|i: int| 0 <= i < init.len() implies !is_snapshot((#[trigger] init[i]).0) by {
            assert(init[i] == events[i]);
        }
        lemma_readings_stay(s, init);
        assert(!is_snapshot(events[events.len() - 1].0));
        lemma_reads_nothing(
            counter_laws::after_more(s, init),
            events.last().0,
            events.last().1,
        );
    }
}

/// After a snapshot, whatever came before it, the counters named after its sizes and queue
/// lengths show them, at the time of the snapshot. A size that it does not have is not shown.
pub proof fn law_snapshot_sizes_are_shown(
    min_duration: nat,
    before: Seq<(BuckEvent, int)>,
    event: BuckEvent,
    now: int,
    snapshot: Snapshot,
)
    requires
        event.data == EventData::Instant(Some(Instant::Snapshot(snapshot))),
        writer_laws::after_events(min_duration, before.push((event, now))).counts_fit(),
    ensures
        shows_sizes(
            writer_laws::after_events(min_duration, before.push((event, now))).packets,
            event.timestamp@,
            snapshot,
        ),
        snapshot.malloc_bytes_active is None ==> last_sample(
            writer_laws::after_events(min_duration, before.push((event, now))).packets,
            "malloc_active_gigabyte"@,
        ) == last_sample(
            writer_laws::after_events(min_duration, before).packets,
            "malloc_active_gigabyte"@,
        ),
{
    let events = before.push((event, now));
    assert(events.drop_last() =~= before);
    let s = writer_laws::after_events(min_duration, before);
    crate::span_laws::law_counts_only_grow(s, event, now);
    counter_laws::law_counters_have_tracks_of_their_own(min_duration, before);
    lemma_sampled(s, event.timestamp, snapshot, now);
}

/// After two snapshots with none between them, whatever other events came before and
/// between them, the counter named after each reading shows how much the reading grew from
/// the first to the second per second, zero where it went down. So do the two counters of
/// every network interface that both list once: what it sent and what it received.
pub proof fn law_rates_between_snapshots(
    min_duration: nat,
    before: Seq<(BuckEvent, int)>,
    first: (BuckEvent, int),
    between: Seq<(BuckEvent, int)>,
    second: (BuckEvent, int),
    a: Snapshot,
    b: Snapshot,
)
    requires
        first.0.data == EventData::Instant(Some(Instant::Snapshot(a))),
        second.0.data == EventData::Instant(Some(Instant::Snapshot(b))),
        forall|i: int| 0 <= i < between.len() ==> !is_snapshot((#[trigger] between[i]).0),
        first.0.timestamp@ < second.0.timestamp@,
        writer_laws::after_events(
            min_duration,
            (before.push(first) + between).push(second),
        ).counts_fit(),
    ensures
        ({
            let packets = writer_laws::after_events(
                min_duration,
                (before.push(first) + between).push(second),
            ).packets;
            let t1 = first.0.timestamp@;
            let t2 = second.0.timestamp@;
            let old_nics = a.network_interface_stats@;
            let new_nics = b.network_interface_stats@;
            &&& shows_rates(packets, t1, a, t2, b)
            &&& forall|i: int, j: int|
                #![trigger listed_once(old_nics, i), listed_once(new_nics, j)]
                listed_once(old_nics, i) && listed_once(new_nics, j) && old_nics[i].nic@
                    == new_nics[j].nic@ ==> shows_rate(
                    packets,
                    new_nics[j].nic@ + "_send_bytes_per_s"@,
                    t1,
                    old_nics[i].tx_bytes,
                    t2,
                    new_nics[j].tx_bytes,
                ) && shows_rate(
                    packets,
                    new_nics[j].nic@ + "_receive_bytes_per_s"@,
                    t1,
                    old_nics[i].rx_bytes,
                    t2,
                    new_nics[j].rx_bytes,
                )
        }),
{
    let start = writer_laws::after_events(min_duration, before);
    let read = start.handled(first.0, first.1).0;
    let middle = counter_laws::after_more(read, between);
    let events = (before.push(first) + between).push(second);
    lemma_run_goes_on(min_duration, before, first, between);
    assert(events.drop_last() =~= before.push(first) + between);
    crate::span_laws::law_counts_only_grow(middle, second.0, second.1);
    counter_laws::law_counters_have_tracks_of_their_own(
        min_duration,
        before.push(first) + between,
    );
    lemma_more_grows(read, between);
    crate::span_laws::law_counts_only_grow(start, first.0, first.1);
    counter_laws::law_counters_have_tracks_of_their_own(min_duration, before);
    lemma_sampled(start, first.0.timestamp, a, first.1);
    lemma_readings_stay(read, between);
    assert(has_read(middle, first.0.timestamp, a));
    lemma_sampled(middle, second.0.timestamp, b, second.1);
}

proof fn lemma_more_grows(s: writer_model::WriterState, events: Seq<(BuckEvent, int)>)
    ensures
        counter_laws::after_more(s, events).counts_from(s),
    decreases events.len(),
{
    if events.len() > 0 {
        lemma_more_grows(s, events.drop_last());
        crate::span_laws::law_counts_only_grow(
            counter_laws::after_more(s, events.drop_last()),
            events.last().0,
            events.last().1,
        );
    }
}

proof fn lemma_run_goes_on(
    min_duration: nat,
    before: Seq<(BuckEvent, int)>,
    first: (BuckEvent, int),
    between: Seq<(BuckEvent, int)>,
)
    ensures
        writer_laws::after_events(min_duration, before.push(first) + between)
            == counter_laws::after_more(
            writer_laws::after_events(min_duration, before).handled(first.0, first.1).0,
            between,
        ),
    decreases between.len(),
{
    if between.len() == 0 {
        assert(before.push(first) + between =~= before.push(first));
        assert(before.push(first).drop_last() =~= before);
    } else {
        lemma_run_goes_on(min_duration, before, first, between.drop_last());
        assert((before.push(first) + between).drop_last() =~= before.push(first)
            + between.drop_last());
    }
}

/// Whether no rate of a reading was given to its counter.
pub open spec fn shows_no_new_rates(
    after: Seq<perfetto_proto::TracePacketModel>,
    before: Seq<perfetto_proto::TracePacketModel>,
) -> bool {
    &&& last_sample(after, "user_cpu_us_per_s"@) == last_sample(before, "user_cpu_us_per_s"@)
    &&& last_sample(after, "system_cpu_us_per_s"@) == last_sample(before, "system_cpu_us_per_s"@)
    &&& last_sample(after, "re_upload_bytes_per_s"@) == last_sample(
        before,
        "re_upload_bytes_per_s"@,
    )
    &&& last_sample(after, "re_download_bytes_per_s"@) == last_sample(
        before,
        "re_download_bytes_per_s"@,
    )
    &&& last_sample(after, "http_download_bytes_per_s"@) == last_sample(
        before,
        "http_download_bytes_per_s"@,
    )
}

/// The first snapshot of a trace shows no rates.
pub proof fn law_first_snapshot_shows_no_rates(
    min_duration: nat,
    before: Seq<(BuckEvent, int)>,
    event: BuckEvent,
    now: int,
    snapshot: Snapshot,
)
    requires
        forall|i: int| 0 <= i < before.len() ==> !is_snapshot((#[trigger] before[i]).0),
        event.data == EventData::Instant(Some(Instant::Snapshot(snapshot))),
        writer_laws::after_events(min_duration, before.push((event, now))).counts_fit(),
    ensures
        shows_no_new_rates(
            writer_laws::after_events(min_duration, before.push((event, now))).packets,
            writer_laws::after_events(min_duration, before).packets,
        ),
{
    let events = before.push((event, now));
    assert(events.drop_last() =~= before);
    let s = writer_laws::after_events(min_duration, before);
    crate::span_laws::law_counts_only_grow(s, event, now);
    counter_laws::law_counters_have_tracks_of_their_own(min_duration, before);
    let initial = writer_model::WriterState::initial(min_duration);
    counter_laws::lemma_same_run(min_duration, before);
    lemma_readings_stay(initial, before);
    lemma_sampled(s, event.timestamp, snapshot, now);
}

/// A snapshot that is not later than the one before it shows no rates.
pub proof fn law_rates_need_time_to_pass(
    min_duration: nat,
    before: Seq<(BuckEvent, int)>,
    first: (BuckEvent, int),
    between: Seq<(BuckEvent, int)>,
    second: (BuckEvent, int),
    a: Snapshot,
    b: Snapshot,
)
    requires
        first.0.data == EventData::Instant(Some(Instant::Snapshot(a))),
        second.0.data == EventData::Instant(Some(Instant::Snapshot(b))),
        forall|i: int| 0 <= i < between.len() ==> !is_snapshot((#[trigger] between[i]).0),
        first.0.timestamp@ >= second.0.timestamp@,
        writer_laws::after_events(
            min_duration,
            (before.push(first) + between).push(second),
        ).counts_fit(),
    ensures
        shows_no_new_rates(
            writer_laws::after_events(
                min_duration,
                (before.push(first) + between).push(second),
            ).packets,
            writer_laws::after_events(min_duration, before.push(first) + between).packets,
        ),
{
    let start = writer_laws::after_events(min_duration, before);
    let read = start.handled(first.0, first.1).0;
    let middle = counter_laws::after_more(read, between);
    let events = (before.push(first) + between).push(second);
    lemma_run_goes_on(min_duration, before, first, between);
    assert(events.drop_last() =~= before.push(first) + between);
    crate::span_laws::law_counts_only_grow(middle, second.0, second.1);
    counter_laws::law_counters_have_tracks_of_their_own(
        min_duration,
        before.push(first) + between,
    );
    lemma_more_grows(read, between);
    crate::span_laws::law_counts_only_grow(start, first.0, first.1);
    counter_laws::law_counters_have_tracks_of_their_own(min_duration, before);
    lemma_sampled(start, first.0.timestamp, a, first.1);
    lemma_readings_stay(read, between);
    assert(has_read(middle, first.0.timestamp, a));
    lemma_sampled(middle, second.0.timestamp, b, second.1);
}

/// Whether the last sample under the name is for time `t` and a whole number.
pub open spec fn is_stamped(
    packets: Seq<perfetto_proto::TracePacketModel>,
    name: Seq<char>,
    t: int,
    value: int,
) -> bool {
    &&& last_sample(packets, name) matches Some(p)
    &&& is_at(p, t)
    &&& p.track_event matches Some(e)
    &&& e.counter_value matches Some(v)
    &&& v == value
    &&& e.double_counter_value is None
}

proof fn lemma_bumped(
    s: writer_model::WriterState,
    t: int,
    name: Seq<char>,
    delta: int,
    now: int,
)
    requires
        counter_laws::counters_right(s),
        s.bumped(t, name, delta, now).next_counter_uuid <= u64::MAX,
        i64::MIN <= s.population(name) + delta <= i64::MAX,
    ensures
        is_stamped(
            s.bumped(t, name, delta, now).packets,
            "spans: "@ + name,
            t,
            s.population(name) + delta,
        ),
{
    reveal(writer_model::WriterState::bumped);
    reveal(writer_model::WriterState::counted);
    let track = "spans: "@ + name;
    let top = s.with_top_track(spans::TRACK_SPAN_COUNTERS, "open spans"@, now);
    counter_laws::lemma_top_track_right(s, spans::TRACK_SPAN_COUNTERS, "open spans"@, now);
    let parent = Some(spans::TRACK_SPAN_COUNTERS);
    let d = top.with_counter_track(track, UNIT_COUNT, parent, now);
    assert(s.bumped(t, name, delta, now).next_counter_uuid == d.next_counter_uuid);
    counter_laws::lemma_counter_track(top, track, UNIT_COUNT, parent, now);
    let value = CounterValue::Int((s.population(name) + delta) as i64);
    let p = writer_model::timed(t, writer_model::counter_event(d.counter_tracks[track], value));
    lemma_written(d, p, now, track);
    assert(counter_laws::descriptor(d.packets, track) is Some);
}

/// The start of a span whose kind is counted gives the counter of its kind the new number,
/// at the time of the start.
pub proof fn law_counted_starts_are_stamped(
    min_duration: nat,
    events: Seq<(BuckEvent, int)>,
    event: BuckEvent,
    now: int,
    name: Seq<char>,
)
    requires
        event.span_id is Some,
        event.data is SpanStart,
        event.data->SpanStart_0 is Some,
        spans::name_and_category(event.data->SpanStart_0->0) is Ok,
        spans::population_counter(event.data->SpanStart_0->0) == Some(name),
        writer_laws::after_events(min_duration, events.push((event, now))).counts_fit(),
        writer_laws::after_events(min_duration, events.push((event, now))).values_fit(),
    ensures
        is_stamped(
            writer_laws::after_events(min_duration, events.push((event, now))).packets,
            "spans: "@ + name,
            event.timestamp@,
            writer_laws::after_events(min_duration, events).population(name) + 1,
        ),
{
    let s = writer_laws::after_events(min_duration, events);
    assert(events.push((event, now)).drop_last() =~= events);
    crate::span_laws::law_counts_only_grow(s, event, now);
    counter_laws::law_counters_have_tracks_of_their_own(min_duration, events);
    let start = event.data->SpanStart_0->0;
    let id = event.span_id->0;
    crate::span_laws::lemma_start(s, event, start, id, now);
    let after = s.handled(event, now).0;
    assert(after.span_counter_values.contains_key(name));
    let seen = writer_model::WriterState { spans_seen: s.spans_seen + 1, ..s };
    assert(!(start is Command));
    assert(counter_laws::counters_right(seen)) by {
        assert forall|n: Seq<char>| #[trigger]
            counter_laws::shown_population(seen.packets, n) == seen.population(n) as i64 by {
            assert(counter_laws::shown_population(s.packets, n) == s.population(n) as i64);
        }
    }
    let bumped = seen.bumped(event.timestamp@, name, 1, now);
    assert(after.packets == bumped.packets);
    assert(after.next_counter_uuid == bumped.next_counter_uuid);
    lemma_bumped(seen, event.timestamp@, name, 1, now);
}

proof fn lemma_silent_track(
    s: writer_model::WriterState,
    uuid: u64,
    group: u64,
    group_name: Seq<char>,
    name: Seq<char>,
    now: int,
    counter: Seq<char>,
)
    ensures
        last_sample(
            s.with_member_track(uuid, group, group_name, name, now).packets,
            counter,
        ) == last_sample(s.packets, counter),
{
    if !s.emitted_tracks.contains(uuid) {
        let t = s.with_top_track(group, group_name, now);
        if !s.emitted_tracks.contains(group) {
            let middle = writer_model::WriterState {
                emitted_tracks: s.emitted_tracks.insert(group),
                tracks: s.tracks + 1,
                ..s
            };
            lemma_written(
                middle,
                writer_model::declaration(writer_model::top_track(group, group_name)),
                now,
                counter,
            );
        }
        let middle = writer_model::WriterState {
            emitted_tracks: t.emitted_tracks.insert(uuid),
            tracks: t.tracks + 1,
            ..t
        };
        lemma_written(
            middle,
            writer_model::declaration(
                writer_model::member_track(uuid, group, group_name, name),
            ),
            now,
            counter,
        );
    }
}

proof fn lemma_silent_slice(
    s: writer_model::WriterState,
    span: writer_model::OpenSpanModel,
    d: nat,
    now: int,
    counter: Seq<char>,
)
    ensures
        last_sample(s.with_slice(span, d, now).packets, counter) == last_sample(
            s.packets,
            counter,
        ),
{
    reveal(writer_model::WriterState::with_slice);
    if !span.is_replaced() && d >= s.min_duration {
        let counted = writer_model::WriterState { spans_emitted: s.spans_emitted + 1, ..s };
        match span.role {
            writer_model::RoleModel::Stage { action_identity, is_waiting, .. } => {
                lemma_silent_track(
                    counted,
                    span.track_uuid,
                    spans::TRACK_QUEUED,
                    "queued"@,
                    action_identity,
                    now,
                    counter,
                );
                lemma_silent_track(
                    counted,
                    span.track_uuid,
                    spans::Category::Actions.group_uuid(),
                    spans::Category::Actions.name(),
                    action_identity,
                    now,
                    counter,
                );
            },
            _ => {
                lemma_silent_track(
                    counted,
                    span.track_uuid,
                    span.category.group_uuid(),
                    span.category.name(),
                    span.name,
                    now,
                    counter,
                );
            },
        }
        let declared = counted.with_span_track(span, now);
        let b = writer_model::timed(
            span.start@,
            writer_model::begin_event(
                span.track_uuid,
                span.slice_name(),
                span.correlation_id(),
                span.slice_annotations(),
            ),
        );
        let e = writer_model::timed(
            span.start@ + d,
            writer_model::end_event(span.track_uuid, span.correlation_id()),
        );
        lemma_written(declared, b, now, counter);
        lemma_written(declared.written(b, now), e, now, counter);
    }
}

/// The end of a span that is counted gives the counter of its kind the new number, at the
/// time of the end.
pub proof fn law_counted_ends_are_stamped(
    min_duration: nat,
    events: Seq<(BuckEvent, int)>,
    event: BuckEvent,
    now: int,
    id: u64,
    name: Seq<char>,
)
    requires
        event.span_id == Some(id),
        event.data is SpanEnd,
        counter_laws::not_restarted(events),
        counter_laws::open_under(events, name).contains(id),
        writer_laws::after_events(min_duration, events.push((event, now))).counts_fit(),
        writer_laws::after_events(min_duration, events.push((event, now))).values_fit(),
    ensures
        is_stamped(
            writer_laws::after_events(min_duration, events.push((event, now))).packets,
            "spans: "@ + name,
            event.timestamp@,
            writer_laws::after_events(min_duration, events).population(name) - 1,
        ),
{
    let s = writer_laws::after_events(min_duration, events);
    let end = event.data->SpanEnd_0;
    let t = event.timestamp@;
    assert(events.push((event, now)).drop_last() =~= events);
    crate::span_laws::law_counts_only_grow(s, event, now);
    counter_laws::law_counters_have_tracks_of_their_own(min_duration, events);
    counter_laws::lemma_counted_is_open(min_duration, events, name, id);
    crate::span_laws::lemma_end(s, event, end, id, now);
    let after = s.handled(event, now).0;
    assert(after.span_counter_values.contains_key(name));
    let failed = s.with_failure(t, end.materialization, now);
    counter_laws::lemma_failure_right(s, end, t, now);
    let without = writer_model::WriterState {
        span_counter_open: failed.span_counter_open.remove(id),
        ..failed
    };
    assert(counter_laws::counters_right(without)) by {
        assert forall|n: Seq<char>| #[trigger]
            counter_laws::shown_population(without.packets, n) == without.population(n) as i64 by {
            assert(counter_laws::shown_population(failed.packets, n) == failed.population(n)
                as i64);
        }
    }
    let counted = without.bumped(t, name, -1, now);
    writer_model::lemma_end_frame(s, end.materialization, id, t, now);
    assert(counted == failed.without_counted_span(id, t, now));
    crate::writer_model::lemma_bumped_frame(without, t, name, -1, now);
    let closed = writer_model::WriterState { open_spans: counted.open_spans.remove(id), ..counted };
    if counted.open_spans.contains_key(id) {
        if let Some(Ok(d)) = end.duration {
            writer_model::lemma_slice_frame(closed, counted.open_spans[id], d@, now);
            lemma_silent_slice(
                closed,
                counted.open_spans[id],
                d@,
                now,
                "spans: "@ + name,
            );
        }
    }
    assert(counted.next_counter_uuid <= after.next_counter_uuid);
    lemma_bumped(without, t, name, -1, now);
    assert(last_sample(after.packets, "spans: "@ + name) == last_sample(
        counted.packets,
        "spans: "@ + name,
    ));
}

/// The counter that the span adds to since it was last started, if it is counted.
pub open spec fn counted_as(events: Seq<(BuckEvent, int)>, id: u64) -> Option<Seq<char>>
    decreases events.len(),
{
    if events.len() == 0 {
        None
    } else {
        let event = events.last().0;
        let before = counted_as(events.drop_last(), id);
        match event.data {
            EventData::SpanStart(Some(start)) => if event.span_id == Some(id)
                && spans::name_and_category(start) is Ok && spans::population_counter(start)
                is Some {
                spans::population_counter(start)
            } else {
                before
            },
            EventData::SpanEnd(_) => if event.span_id == Some(id) {
                None
            } else {
                before
            },
            _ => before,
        }
    }
}

/// How often a span was counted under the name, less how often one was counted out.
pub open spec fn net_moves(events: Seq<(BuckEvent, int)>, name: Seq<char>) -> int
    decreases events.len(),
{
    if events.len() == 0 {
        0
    } else {
        let (event, now) = events.last();
        let before = events.drop_last();
        net_moves(before, name) + match (event.data, event.span_id) {
            (EventData::SpanStart(Some(start)), Some(_)) => if spans::name_and_category(start)
                is Ok && spans::population_counter(start) == Some(name) {
                1int
            } else {
                0
            },
            (EventData::SpanEnd(_), Some(id)) => if counted_as(before, id) == Some(name) {
                -1
            } else {
                0
            },
            _ => 0,
        }
    }
}

proof fn lemma_moves(min_duration: nat, events: Seq<(BuckEvent, int)>)
    ensures
        ({
            let s = writer_laws::after_events(min_duration, events);
            &&& forall|id: u64|
                match #[trigger] counted_as(events, id) {
                    Some(name) => s.span_counter_open.contains_key(id)
                        && s.span_counter_open[id] == name,
                    None => !s.span_counter_open.contains_key(id),
                }
            &&& forall|name: Seq<char>| #[trigger]
                net_moves(events, name) == s.population(name)
        }),
    decreases events.len(),
{
    if events.len() > 0 {
        let init = events.drop_last();
        let (event, now) = events.last();
        lemma_moves(min_duration, init);
        let s = writer_laws::after_events(min_duration, init);
        let after = writer_laws::after_events(min_duration, events);
        match (event.data, event.span_id) {
            (EventData::SpanStart(Some(start)), Some(id)) => {
                crate::span_laws::lemma_start(s, event, start, id, now);
            },
            (EventData::SpanEnd(end), Some(id)) => {
                crate::span_laws::lemma_end(s, event, end, id, now);
                assert(match counted_as(init, id) {
                    Some(name) => s.span_counter_open.contains_key(id)
                        && s.span_counter_open[id] == name,
                    None => !s.span_counter_open.contains_key(id),
                });
            },
            (EventData::Instant(Some(instant)), _) => {
                crate::span_laws::lemma_instant(s, event, instant, now);
            },
            _ => {},
        }
        assert forall|id: u64|
            match #[trigger] counted_as(events, id) {
                Some(name) => after.span_counter_open.contains_key(id)
                    && after.span_counter_open[id] == name,
                None => !after.span_counter_open.contains_key(id),
            } by {
            assert(match counted_as(init, id) {
                Some(name) => s.span_counter_open.contains_key(id) && s.span_counter_open[id]
                    == name,
                None => !s.span_counter_open.contains_key(id),
            });
        }
        assert forall|name: Seq<char>| #[trigger]
            net_moves(events, name) == after.population(name) by {
            assert(net_moves(init, name) == s.population(name));
        }
    }
}

/// The spans that are counted are those that the history says are.
pub proof fn lemma_counted_spans(min_duration: nat, events: Seq<(BuckEvent, int)>)
    ensures
        forall|id: u64|
            #![trigger counted_as(events, id)]
            writer_laws::after_events(min_duration, events).span_counter_open.contains_key(id)
                <==> counted_as(events, id) is Some,
{
    lemma_moves(min_duration, events);
}

/// In every trace the counter of open spans of each kind shows how often such a span was
/// counted, less how often one was counted out, whether or not ids are used again. A span is
/// counted out by its end, of the kind under which it was last counted.
pub proof fn law_trace_shows_every_move(min_duration: nat, events: Seq<(BuckEvent, int)>)
    requires
        writer_laws::after_events(min_duration, events).counts_fit(),
        writer_laws::after_events(min_duration, events).values_fit(),
    ensures
        forall|name: Seq<char>|
            #![trigger net_moves(events, name)]
            counter_laws::shown_population(
                writer_laws::after_events(min_duration, events).packets,
                name,
            ) == net_moves(events, name),
{
    let s = writer_laws::after_events(min_duration, events);
    lemma_moves(min_duration, events);
    counter_laws::law_counters_have_tracks_of_their_own(min_duration, events);
    assert forall|name: Seq<char>|
        #![trigger net_moves(events, name)]
        counter_laws::shown_population(s.packets, name) == net_moves(events, name) by {
        assert(counter_laws::shown_population(s.packets, name) == s.population(name) as i64);
        if s.span_counter_values.contains_key(name) {
            assert(i64::MIN <= s.span_counter_values[name] <= i64::MAX);
        }
    }
}

} // verus!
