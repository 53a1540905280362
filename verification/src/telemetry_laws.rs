//! What is said of the process, what is exported, and how often an exporter is built.

use vstd::prelude::*;

use crate::digest;
use crate::header_map;
use crate::otel;
use crate::otel::BuildOutcome;
use crate::otel::Level;
use crate::otel::Telemetry;
use crate::otel::TelemetryCall;

verus! {

/// Whether the attributes hold the text under the key, exactly once.
pub open spec fn has_text(
    attributes: Seq<(Seq<char>, otel::ValueModel)>,
    key: Seq<char>,
    value: Seq<char>,
) -> bool {
    exists|i: int|
        0 <= i < attributes.len() && #[trigger] attributes[i] == (
            key,
            otel::ValueModel::Text(value),
        ) && forall|j: int|
            0 <= j < attributes.len() && j != i ==> (#[trigger] attributes[j]).0 != key
}

/// The process is described by seven attributes, or by six where its host is not known,
/// each under a key of its own.
pub proof fn law_process_is_described(
    version: Seq<char>,
    id: Seq<char>,
    arch: Seq<char>,
    os: Seq<char>,
    pid: u32,
    hostname: Option<Seq<char>>,
)
    ensures
        ({
            let all = otel::resource_attributes_of(version, id, arch, os, pid, hostname);
            &&& all.len() == if hostname is Some {
                7nat
            } else {
                6nat
            }
            &&& has_text(all, "service.name"@, "buck2"@)
            &&& has_text(all, "service.version"@, version)
            &&& has_text(all, "service.instance.id"@, id)
            &&& has_text(all, "host.arch"@, arch)
            &&& has_text(all, "os.type"@, os)
            &&& all.contains(("process.pid"@, otel::ValueModel::Int(pid as int)))
            &&& hostname is Some ==> has_text(all, "host.name"@, hostname->0)
            &&& hostname is None ==> forall|i: int|
                0 <= i < all.len() ==> (#[trigger] all[i]).0 != "host.name"@
        }),
{
    let all = otel::resource_attributes_of(version, id, arch, os, pid, hostname);
    reveal_strlit("service.name");
    reveal_strlit("service.version");
    reveal_strlit("service.instance.id");
    reveal_strlit("host.arch");
    reveal_strlit("os.type");
    reveal_strlit("process.pid");
    reveal_strlit("host.name");
    assert("service.name"@.len() == 12 && "service.version"@.len() == 15);
    assert("service.instance.id"@.len() == 19 && "os.type"@.len() == 7);
    assert("process.pid"@.len() == 11 && "host.arch"@.len() == 9 && "host.name"@.len() == 9);
    assert("host.arch"@[5] == 'a' && "host.name"@[5] == 'n');
    assert(all[0] == ("service.name"@, otel::ValueModel::Text("buck2"@)));
    assert(all[1] == ("service.version"@, otel::ValueModel::Text(version)));
    assert(all[2] == ("service.instance.id"@, otel::ValueModel::Text(id)));
    assert(all[3] == ("host.arch"@, otel::ValueModel::Text(arch)));
    assert(all[4] == ("os.type"@, otel::ValueModel::Text(os)));
    assert(all[5] == ("process.pid"@, otel::ValueModel::Int(pid as int)));
    if let Some(host) = hostname {
        assert(all[6] == ("host.name"@, otel::ValueModel::Text(host)));
    }
}

/// Errors, warnings and information are exported and nothing below, whatever they come
/// from, but for what comes from the connections of `h2` or from anything in them.
pub proof fn law_what_is_exported(target: Seq<char>, level: Level)
    ensures
        otel::is_exported(target, level) ==> level is Error || level is Warn || level is Info,
        (level is Error || level is Warn || level is Info) && (target.len()
            < "h2::proto::connection"@.len() || exists|i: int|
            0 <= i < "h2::proto::connection"@.len() && #[trigger] target[i]
                != "h2::proto::connection"@[i]) ==> otel::is_exported(target, level),
        forall|rest: Seq<char>|
            target == #[trigger] ("h2::proto::connection"@ + rest) ==> !otel::is_exported(
                target,
                level,
            ),
{
    let silenced = "h2::proto::connection"@;
    if target.len() >= silenced.len() && exists|i: int|
        0 <= i < silenced.len() && #[trigger] target[i] != silenced[i] {
        let i = choose|i: int| 0 <= i < silenced.len() && #[trigger] target[i] != silenced[i];
        assert(target.take(silenced.len() as int)[i] == target[i]);
    }
    assert forall|rest: Seq<char>| target == #[trigger] (silenced + rest) implies !otel::is_exported(
        target,
        level,
    ) by {
        assert(target.take(silenced.len() as int) =~= silenced);
    }
}

/// The endpoint is named by two variables, the one for traces first.
pub proof fn law_endpoint_variables()
    ensures
        otel::endpoint_variable_names().len() == 2,
        otel::endpoint_variable_names()[0] == "OTEL_EXPORTER_OTLP_TRACES_ENDPOINT"@,
        otel::endpoint_variable_names()[1] == "OTEL_EXPORTER_OTLP_ENDPOINT"@,
{
}

/// A process that has not done anything yet.
pub open spec fn fresh() -> Telemetry {
    Telemetry { installed: false, activated: false, provider: false }
}

/// In the course of a process, a call to start the export has the exporter built exactly if
/// it is the first such call and a place for the exporter was kept before it.
pub proof fn law_first_start_builds_the_exporter(calls: Seq<TelemetryCall>)
    ensures
        otel::builds(otel::after_calls(fresh(), calls)) <==> (exists|i: int|
            0 <= i < calls.len() && #[trigger] calls[i] is Install) && !(exists|i: int|
            0 <= i < calls.len() && #[trigger] calls[i] is Activate),
{
    lemma_course(calls);
}

/// There is an exporter to shut down exactly if one was made, whether or not it could take
/// its place.
pub proof fn law_made_exporters_are_shut_down(calls: Seq<TelemetryCall>)
    ensures
        otel::after_calls(fresh(), calls).provider <==> exists|i: int|
            0 <= i < calls.len() && is_made(#[trigger] calls[i]),
{
    lemma_course(calls);
}

/// Whether an exporter was made.
pub open spec fn is_made(call: TelemetryCall) -> bool {
    call matches TelemetryCall::Built(outcome) && (outcome is LayerFailed || outcome is Started)
}

proof fn lemma_course(calls: Seq<TelemetryCall>)
    ensures
        ({
            let t = otel::after_calls(fresh(), calls);
            &&& t.installed <==> exists|i: int|
                0 <= i < calls.len() && #[trigger] calls[i] is Install
            &&& t.activated <==> exists|i: int|
                0 <= i < calls.len() && #[trigger] calls[i] is Activate
            &&& t.provider <==> exists|i: int| 0 <= i < calls.len() && is_made(#[trigger] calls[i])
        }),
    decreases calls.len(),
{
    if calls.len() > 0 {
        let init = calls.drop_last();
        lemma_course(init);
        let t = otel::after_calls(fresh(), init);
        let last = calls[calls.len() - 1];
        assert(calls.last() == last);
        if t.installed {
            let i = choose|i: int| 0 <= i < init.len() && #[trigger] init[i] is Install;
            assert(calls[i] is Install);
        }
        if t.activated {
            let i = choose|i: int| 0 <= i < init.len() && #[trigger] init[i] is Activate;
            assert(calls[i] is Activate);
        }
        if t.provider {
            let i = choose|i: int| 0 <= i < init.len() && is_made(#[trigger] init[i]);
            assert(is_made(calls[i]));
        }
        assert forall|i: int| 0 <= i < init.len() implies #[trigger] init[i] == calls[i] by {}
        if exists|i: int| 0 <= i < calls.len() && #[trigger] calls[i] is Install {
            let i = choose|i: int| 0 <= i < calls.len() && #[trigger] calls[i] is Install;
            if i < init.len() {
                assert(init[i] is Install);
            }
        }
        if exists|i: int| 0 <= i < calls.len() && #[trigger] calls[i] is Activate {
            let i = choose|i: int| 0 <= i < calls.len() && #[trigger] calls[i] is Activate;
            if i < init.len() {
                assert(init[i] is Activate);
            }
        }
        if exists|i: int| 0 <= i < calls.len() && is_made(#[trigger] calls[i]) {
            let i = choose|i: int| 0 <= i < calls.len() && is_made(#[trigger] calls[i]);
            if i < init.len() {
                assert(is_made(init[i]));
            }
        }
    }
}

/// A failure is reported exactly if the exporter could not be made or could not take its
/// place, in the words of what failed.
pub proof fn law_build_failures(outcome: BuildOutcome)
    ensures
        outcome is NotConfigured || outcome is Started ==> otel::build_failure(outcome) is None,
        outcome matches BuildOutcome::ExporterFailed(e) ==> otel::build_failure(outcome) == Some(
            e@,
        ),
        outcome matches BuildOutcome::LayerFailed(e) ==> otel::build_failure(outcome) == Some(e@),
{
}

/// The number that a hexadecimal digit in lower case stands for.
pub open spec fn digit_value(c: char) -> int {
    if '0' <= c <= '9' {
        c as int - '0' as int
    } else {
        c as int - 'a' as int + 10
    }
}

/// A digest is shown behind the name of its algorithm, each byte as two hexadecimal digits
/// in lower case, the higher one first, in the order of the bytes.
pub proof fn law_digest_reads_back(bytes: Seq<u8>, i: int)
    requires
        0 <= i < bytes.len(),
    ensures
        ({
            let line = digest::digest_line(bytes);
            let high = line[7 + 2 * i];
            let low = line[8 + 2 * i];
            &&& line.len() == 7 + 2 * bytes.len()
            &&& line.take(7) == "SHA256:"@
            &&& ('0' <= high <= '9' || 'a' <= high <= 'f')
            &&& ('0' <= low <= '9' || 'a' <= low <= 'f')
            &&& digit_value(high) * 16 + digit_value(low) == bytes[i]
        }),
{
    reveal_strlit("SHA256:");
    lemma_hex(bytes, i);
    assert(digest::digest_line(bytes).take(7) =~= "SHA256:"@);
    assert(digest::digest_line(bytes)[7 + 2 * i] == digest::hex(bytes)[2 * i]);
    assert(digest::digest_line(bytes)[8 + 2 * i] == digest::hex(bytes)[2 * i + 1]);
}

proof fn lemma_hex_len(bytes: Seq<u8>)
    ensures
        digest::hex(bytes).len() == 2 * bytes.len(),
    decreases bytes.len(),
{
    if bytes.len() > 0 {
        lemma_hex_len(bytes.drop_last());
    }
}

proof fn lemma_hex(bytes: Seq<u8>, i: int)
    requires
        0 <= i < bytes.len(),
    ensures
        ({
            let high = digest::hex(bytes)[2 * i];
            let low = digest::hex(bytes)[2 * i + 1];
            &&& digest::hex(bytes).len() == 2 * bytes.len()
            &&& ('0' <= high <= '9' || 'a' <= high <= 'f')
            &&& ('0' <= low <= '9' || 'a' <= low <= 'f')
            &&& digit_value(high) * 16 + digit_value(low) == bytes[i]
        }),
    decreases bytes.len(),
{
    let init = bytes.drop_last();
    lemma_hex_len(bytes);
    lemma_hex_len(init);
    if i < init.len() {
        lemma_hex(init, i);
        assert(digest::hex(bytes)[2 * i] == digest::hex(init)[2 * i]);
        assert(digest::hex(bytes)[2 * i + 1] == digest::hex(init)[2 * i + 1]);
        assert(init[i] == bytes[i]);
    }
}

/// One sequence of bytes comes before another exactly if it is a beginning of the other, or
/// is smaller in the first byte in which they differ.
pub proof fn law_byte_order_is_that_of_a_dictionary(a: Seq<u8>, b: Seq<u8>, n: int)
    requires
        0 <= n <= a.len(),
        n <= b.len(),
        a.take(n) == b.take(n),
    ensures
        n < a.len() && n < b.len() && a[n] < b[n] ==> header_map::bytes_before(a, b)
            && !header_map::bytes_before(b, a),
        n == a.len() && n < b.len() ==> header_map::bytes_before(a, b)
            && !header_map::bytes_before(b, a),
        n == a.len() && n == b.len() ==> !header_map::bytes_before(a, b),
    decreases n,
{
    if n > 0 {
        assert(a.take(n)[0] == a[0] && b.take(n)[0] == b[0]);
        let x = a.drop_first();
        let y = b.drop_first();
        assert(x.take(n - 1) =~= a.take(n).drop_first());
        assert(y.take(n - 1) =~= b.take(n).drop_first());
        law_byte_order_is_that_of_a_dictionary(x, y, n - 1);
    }
}

/// Names come in the order of their UTF-8 bytes, as in a dictionary.
pub proof fn law_names_are_ordered_by_their_bytes(a: Seq<char>, b: Seq<char>, n: int)
    requires
        0 <= n <= vstd::utf8::encode_utf8(a).len(),
        n < vstd::utf8::encode_utf8(b).len(),
        vstd::utf8::encode_utf8(a).take(n) == vstd::utf8::encode_utf8(b).take(n),
        n == vstd::utf8::encode_utf8(a).len() || vstd::utf8::encode_utf8(a)[n]
            < vstd::utf8::encode_utf8(b)[n],
    ensures
        header_map::name_before(a, b),
        !header_map::name_before(b, a),
{
    law_byte_order_is_that_of_a_dictionary(
        vstd::utf8::encode_utf8(a),
        vstd::utf8::encode_utf8(b),
        n,
    );
}

/// In headers that are in order, each name has its own values, and no other name has any.
pub proof fn law_headers_are_found_by_name(headers: Seq<(Seq<char>, Seq<Seq<char>>)>)
    requires
        header_map::ascending(headers),
    ensures
        forall|i: int|
            0 <= i < headers.len() ==> header_map::by_name(headers).contains_key(
                (#[trigger] headers[i]).0,
            ) && header_map::by_name(headers)[headers[i].0] == headers[i].1,
        forall|name: Seq<char>| #[trigger]
            header_map::by_name(headers).contains_key(name) ==> exists|i: int|
                0 <= i < headers.len() && (#[trigger] headers[i]).0 == name,
    decreases headers.len(),
{
    if headers.len() > 0 {
        let init = headers.drop_last();
        assert forall|i: int, j: int|
            #![trigger init[i], init[j]]
            0 <= i < j < init.len() implies header_map::name_before(init[i].0, init[j].0) by {
            assert(init[i] == headers[i] && init[j] == headers[j]);
        }
        law_headers_are_found_by_name(init);
        let all = header_map::by_name(headers);
        assert forall|i: int| 0 <= i < headers.len() implies all.contains_key(
            (#[trigger] headers[i]).0,
        ) && all[headers[i].0] == headers[i].1 by {
            if i < init.len() {
                assert(init[i] == headers[i]);
                let last = headers[headers.len() - 1];
                assert(header_map::name_before(headers[i].0, last.0));
                header_map::lemma_before_irreflexive(vstd::utf8::encode_utf8(last.0));
            }
        }
        assert forall|name: Seq<char>| #[trigger] all.contains_key(name) implies exists|i: int|
            0 <= i < headers.len() && (#[trigger] headers[i]).0 == name by {
            if name == headers.last().0 {
                assert(headers[headers.len() - 1].0 == name);
            } else {
                assert(header_map::by_name(init).contains_key(name));
                let i = choose|i: int| 0 <= i < init.len() && (#[trigger] init[i]).0 == name;
                assert(init[i] == headers[i]);
                assert(headers[i].0 == name);
            }
        }
    }
}

} // verus!
