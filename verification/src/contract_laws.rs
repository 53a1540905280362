//! What calls hand back, by their arguments alone.

use std::sync::Arc;

use vstd::prelude::*;

use crate::credential_helper;
use crate::credential_helper::BuildError;
use crate::credential_helper::CacheEntry;
use crate::credential_helper::CommandError;
use crate::credential_helper::CredentialHelper;
use crate::credential_helper::CredentialHelperSettings;
use crate::credential_helper::Credentials;
use crate::credential_helper::GetCredentialsResponse;
use crate::credential_helper::GetError;
use crate::credential_helper::Header;
use crate::credential_helper::Invocation;
use crate::credential_helper::InvokeError;
use crate::credential_helper::Outcome;
use crate::credential_helper::ResponseError;
use crate::credential_laws;
use crate::fmt_duration;
use crate::header_map;
use crate::header_map::HeaderMap;
use crate::log_upload::LogUploadClient;
use crate::otel;
use crate::otel::Attribute;
use crate::otel::BatchSettings;
use crate::otel::BuildOutcome;
use crate::otel::Level;
use crate::otel::Telemetry;
use crate::s3;
use crate::s3::Bucket;
use crate::s3::Download;
use crate::s3::MultipartState;
use crate::s3::PutObject;
use crate::s3::S3ChunkedUploader;
use crate::s3::S3Client;
use crate::s3::S3Error;
use crate::s3::Ttl;
use crate::s3::UploadRequest;
use crate::s3_laws;
use crate::telemetry_laws;
use crate::text;
use crate::time::Duration;
use crate::time::SystemTime;

verus! {

/// A helper that is made of a program and its arguments has the times that it is given,
/// however long or short, and ten seconds and half an hour where it is given none. There is
/// one exactly if the first word is there and not empty.
pub proof fn law_new_helper(
    command: Vec<String>,
    timeout: Option<Duration>,
    cache_duration: Option<Duration>,
    r: Result<CredentialHelper, CommandError>,
)
    requires
        call_ensures(CredentialHelper::new, (command, timeout, cache_duration), r),
    ensures
        r is Ok <==> command@.len() > 0 && command@[0]@.len() > 0,
        r is Err ==> r->Err_0 is Empty,
        r is Ok ==> has_times(r->Ok_0, timeout, cache_duration),
        r is Ok ==> r->Ok_0@.command.len() == command@.len() && forall|i: int|
            0 <= i < command@.len() ==> #[trigger] r->Ok_0@.command[i] == command@[i]@,
{
    if r is Ok {
        assert forall|i: int| 0 <= i < command@.len() implies #[trigger] r->Ok_0@.command[i]
            == command@[i]@ by {
            assert(r->Ok_0@.command == text::views(command@));
        }
    }
}

/// Whether the helper has the given times, and the usual ones where none is given.
pub open spec fn has_times(
    helper: CredentialHelper,
    timeout: Option<Duration>,
    cache_duration: Option<Duration>,
) -> bool {
    &&& timeout is Some ==> helper@.timeout == timeout->0@
    &&& timeout is None ==> helper@.timeout == 10_000_000_000
    &&& cache_duration is Some ==> helper@.default_cache_duration == cache_duration->0@
    &&& cache_duration is None ==> helper@.default_cache_duration == 1_800_000_000_000
}

/// A helper from a command line has the times that it is given too.
pub proof fn law_helper_from_command_line(
    line: &str,
    timeout: Option<Duration>,
    cache_duration: Option<Duration>,
    r: Result<CredentialHelper, CommandError>,
)
    requires
        call_ensures(CredentialHelper::from_command_line, (line, timeout, cache_duration), r),
    ensures
        r is Ok ==> has_times(r->Ok_0, timeout, cache_duration),
        credential_helper::shell_words(line@) is None ==> r is Err && r->Err_0@
            == credential_helper::CommandErrorModel::InvalidCommandLine(line@),
        credential_helper::shell_words(line@) matches Some(words) ==> (r is Ok <==> words.len() > 0
            && words[0].len() > 0) && (r is Ok ==> r->Ok_0@.command == words),
{
}

/// A helper that is built from settings has the times of the settings.
pub proof fn law_built_helper(
    settings: &CredentialHelperSettings,
    line: Result<String, String>,
    r: Result<CredentialHelper, BuildError>,
)
    requires
        call_ensures(CredentialHelperSettings::build, (settings, line), r),
    ensures
        r is Ok ==> has_times(r->Ok_0, settings.timeout, settings.cache_duration),
        line is Err ==> r is Err && r->Err_0 is Substitution,
        r is Ok ==> line is Ok && credential_helper::shell_words(line->Ok_0@) == Some(
            r->Ok_0@.command,
        ),
{
}

/// The usual times are ten seconds and half an hour.
pub proof fn law_usual_times(timeout: Duration, cache_duration: Duration)
    requires
        call_ensures(credential_helper::default_timeout, (), timeout),
        call_ensures(credential_helper::default_cache_duration, (), cache_duration),
    ensures
        timeout@ == 10_000_000_000,
        cache_duration@ == 1_800_000_000_000,
{
}

/// The helper is run as its program, with its arguments and one more, to read the request
/// for the URI.
pub proof fn law_helper_is_run_for_a_uri(
    helper: &CredentialHelper,
    uri: &str,
    run: Invocation,
)
    requires
        helper.well_formed(),
        call_ensures(CredentialHelper::invoke, (helper, uri), run),
    ensures
        run.program@ == helper@.command[0],
        run.args@.len() == helper@.command.len(),
        forall|i: int|
            0 <= i < run.args@.len() - 1 ==> (#[trigger] run.args@[i])@ == helper@.command[i + 1],
        run.args@.last()@ == "get"@,
        run.request@ == credential_helper::request_text(uri@),
        run.timeout@ == helper@.timeout,
{
    let words = text::views(run.args@);
    assert(words.len() == run.args@.len());
    assert(words.last() == "get"@);
    assert forall|i: int| 0 <= i < run.args@.len() - 1 implies (#[trigger] run.args@[i])@
        == helper@.command[i + 1] by {
        assert(words[i] == helper@.command.drop_first()[i]);
    }
}

/// What a run came to is kept for the URI, and handed out for it until it is to be fetched
/// again; what is kept for other URIs stays. A failed run changes nothing.
pub proof fn law_answers_are_kept_for_their_uri(
    uri: &str,
    now: SystemTime,
    outcome: Outcome,
    other: Seq<char>,
    later: int,
)
    ensures
        forall|helper: &mut CredentialHelper, r: Result<Arc<Credentials>, GetError>|
            #[trigger] call_ensures(CredentialHelper::get_at, (helper, uri, now, outcome), r) ==> {
                let before = (*helper)@;
                let after = (*final(helper))@;
                &&& other != uri@ ==> after.cached(other, later) == before.cached(other, later)
                &&& r is Err ==> after == before
                &&& r is Ok ==> after.cache.contains_key(uri@) && after.cache[uri@].headers
                    == r->Ok_0@
                &&& r is Ok ==> after.cached(uri@, later) == if later
                    < after.cache[uri@].refresh_at {
                    Some(r->Ok_0@)
                } else {
                    None
                }
                &&& (after.command, after.timeout, after.default_cache_duration) == (
                    before.command,
                    before.timeout,
                    before.default_cache_duration,
                )
            },
{
}

/// Once everything is dropped, nothing is handed out, and the helper is otherwise as it was.
pub proof fn law_dropped_answers_are_gone(uri: Seq<char>, now: int)
    ensures
        forall|helper: &mut CredentialHelper|
            #[trigger] call_ensures(CredentialHelper::invalidate, (helper,), ()) ==> {
                &&& (*final(helper))@.cached(uri, now) is None
                &&& (*final(helper))@.command == (*helper)@.command
                &&& (*final(helper))@.timeout == (*helper)@.timeout
                &&& (*final(helper))@.default_cache_duration == (*helper)@.default_cache_duration
            },
{
}

/// The exporter is given the traffic of a build: large batches, every ten seconds.
pub proof fn law_batches(settings: BatchSettings)
    requires
        call_ensures(otel::batch_settings, (), settings),
    ensures
        settings.max_queue_size == 16_384,
        settings.max_export_batch_size == 8_192,
        settings.scheduled_delay@ == 10_000_000_000,
{
}

/// An event is exported exactly if it is at least information and its target is not one of
/// the connections of `h2`.
pub proof fn law_exported_events(target: &str, level: Level, b: bool)
    requires
        call_ensures(otel::telemetry_enabled, (target, level), b),
    ensures
        b <==> (level is Error || level is Warn || level is Info) && !(target@.len()
            >= "h2::proto::connection"@.len() && target@.take(
            "h2::proto::connection"@.len() as int,
        ) == "h2::proto::connection"@),
{
}

/// What is said where the exporter fails to stop.
pub proof fn law_shutdown_warnings(outcome: Result<(), String>, warning: Option<String>)
    requires
        call_ensures(otel::shutdown_warning, (outcome,), warning),
    ensures
        outcome is Ok <==> warning is None,
        outcome is Err ==> warning->0@ == "Failed to shut down OpenTelemetry exporter on exit: "@
            + outcome->Err_0@,
{
}

/// What is said where the exporter fails to start.
pub proof fn law_start_warnings(outcome: BuildOutcome)
    ensures
        forall|t: &mut Telemetry, warning: Option<String>| #[trigger]
            call_ensures(otel::built, (t, outcome), warning) ==> {
                &&& warning is Some <==> outcome is ExporterFailed || outcome is LayerFailed
                &&& outcome matches BuildOutcome::ExporterFailed(e) ==> warning->0@
                    == "Failed to start OpenTelemetry exporter: "@ + e@
                &&& outcome matches BuildOutcome::LayerFailed(e) ==> warning->0@
                    == "Failed to start OpenTelemetry exporter: "@ + e@
                &&& outcome is Started || outcome is LayerFailed ==> (*final(t)).provider
                &&& outcome is NotConfigured || outcome is ExporterFailed ==> *final(t) == *t
            },
{
}

/// The first call to start the export says that the exporter is to be built if there is a
/// place for it; a second one never does.
pub proof fn law_second_start_builds_nothing()
    ensures
        forall|t: &mut Telemetry, u: &mut Telemetry, first: bool, second: bool|
            #![trigger
                call_ensures(otel::activate, (t,), first),
                call_ensures(otel::activate, (u,), second)
            ]
            call_ensures(otel::activate, (t,), first) && *u == *final(t) && call_ensures(
                otel::activate,
                (u,),
                second,
            ) ==> !second && (first <==> !(*t).activated && (*t).installed),
{
}

/// Each kind of log has a place of its own in the store.
pub proof fn law_places_of_logs(events: Bucket, rage: Bucket, re: Bucket, installer: Bucket)
    requires
        call_ensures(Bucket::event_logs, (), events),
        call_ensures(Bucket::rage_dumps, (), rage),
        call_ensures(Bucket::re_logs, (), re),
        call_ensures(Bucket::installer_logs, (), installer),
    ensures
        events.name@ == "buck2_logs"@,
        rage.name@ == "buck2_rage_dumps"@,
        re.name@ == "buck2_re_logs"@,
        installer.name@ == "buck2_installer_logs"@,
{
}

/// Days are kept as such, and objects are kept for 164 of them if nothing else is said.
pub proof fn law_days(days: u64, t: Ttl, usual: Ttl, n: u64, secs: u64)
    requires
        days * 86_400 <= u64::MAX,
        call_ensures(Ttl::from_days, (days,), t),
        call_ensures(Ttl::as_days, (&t,), n),
        call_ensures(Ttl::as_secs, (&t,), secs),
        call_ensures(<Ttl as Default>::default, (), usual),
    ensures
        n == days,
        secs == days * 86_400,
        usual@ == 14_169_600_000_000_000,
{
}

/// A whole object goes to the configured bucket, under the name of its place and its path,
/// with the tags and the metadata of the time for which it is kept. Without a bucket nothing
/// is sent.
pub proof fn law_whole_objects(
    client: &S3Client,
    bucket: Bucket,
    path: &str,
    ttl: Ttl,
    now: SystemTime,
    hostname: Option<String>,
    request: Option<PutObject>,
)
    requires
        call_ensures(S3Client::write, (client, bucket, path, ttl, now, hostname), request),
    ensures
        request is Some <==> client@ is Some,
        request matches Some(put) ==> {
            &&& put.bucket_name@ == client@->0
            &&& put.key@ == bucket.name@ + "/"@ + path@
            &&& put.tagging@ == "managed-by=buck2&expiration-days="@ + text::decimal(
                ttl@ / 86_400_000_000_000,
            )
            &&& s3::pairs_map(put.metadata@) == s3::metadata(
                ttl@,
                now@,
                text::optional_view(hostname),
            )
        },
{
    let t = ttl@;
    assert(t / 1_000_000_000 / 86_400 == t / 86_400_000_000_000) by (nonlinear_arith);
}

/// What the reply to a whole object means.
pub proof fn law_replies_to_whole_objects(
    put: PutObject,
    reply: Result<(), String>,
    r: Result<(), S3Error>,
)
    requires
        call_ensures(PutObject::sent, (put, reply), r),
    ensures
        reply is Ok <==> r is Ok,
        reply is Err ==> r->Err_0@.text() == "Failed to put object `"@ + put.key@ + "`: "@
            + reply->Err_0@,
{
}

/// An upload of logs in parts goes to the configured bucket, under the name of its place and
/// its path, and is kept for whole seconds.
pub proof fn law_uploads_of_logs(
    client: &LogUploadClient,
    bucket: Bucket,
    path: &str,
    ttl: Ttl,
    up: S3ChunkedUploader,
)
    requires
        call_ensures(LogUploadClient::start_chunked_upload, (client, bucket, path, ttl), up),
    ensures
        up@.bucket_name == client@,
        client@ is Some ==> up@.key == bucket.name@ + "/"@ + path@ && up@.state is NotStarted,
        client@ is None ==> up@.state is Disabled,
        up@.ttl <= ttl@ < up@.ttl + 1_000_000_000,
        up@.ttl % 1_000_000_000 == 0,
{
    let t = ttl@;
    assert(t / 1_000_000_000 * 1_000_000_000 <= t < t / 1_000_000_000 * 1_000_000_000
        + 1_000_000_000);
}

/// The part that is uploaded is listed under the number under which it was requested, and
/// the next one is requested under the next number.
pub proof fn law_parts_are_listed_as_requested(len: usize, e_tag: String, next_len: usize)
    requires
        len > 0,
        next_len > 0,
    ensures
        forall|
            up: &mut S3ChunkedUploader,
            asked: Result<UploadRequest, S3Error>,
            r: Result<(), S3Error>,
            next: Result<UploadRequest, S3Error>,
        |
            #![trigger
                call_ensures(S3ChunkedUploader::write_impl, (&*up, len), asked),
                call_ensures(S3ChunkedUploader::uploaded, (up, len, Ok(Some(e_tag))), r),
                call_ensures(S3ChunkedUploader::write_impl, (&*final(up), next_len), next)
            ]
            (*up)@.consistent() && (*up)@.state is InProgress && (*up)@.upload_id is Some
                && call_ensures(S3ChunkedUploader::write_impl, (&*up, len), asked)
                && call_ensures(S3ChunkedUploader::uploaded, (up, len, Ok(Some(e_tag))), r)
                && call_ensures(S3ChunkedUploader::write_impl, (&*final(up), next_len), next) ==> {
                let n = (asked->Ok_0)->part_number;
                &&& asked is Ok && asked->Ok_0 is UploadPart
                &&& r is Ok
                &&& (*final(up))@.parts.last().part_number == n
                &&& (*final(up))@.parts.last().e_tag == e_tag@
                &&& (*final(up))@.parts.drop_last() == (*up)@.parts
                &&& (*final(up))@.position == (*up)@.position + len
                &&& next is Ok && next->Ok_0 is UploadPart
                &&& next->Ok_0->part_number == n + 1
            },
{
    assert forall|
        up: &mut S3ChunkedUploader,
        asked: Result<UploadRequest, S3Error>,
        r: Result<(), S3Error>,
        next: Result<UploadRequest, S3Error>,
    |
        #![trigger
            call_ensures(S3ChunkedUploader::write_impl, (&*up, len), asked),
            call_ensures(S3ChunkedUploader::uploaded, (up, len, Ok(Some(e_tag))), r),
            call_ensures(S3ChunkedUploader::write_impl, (&*final(up), next_len), next)
        ]
        (*up)@.consistent() && (*up)@.state is InProgress && (*up)@.upload_id is Some
            && call_ensures(S3ChunkedUploader::write_impl, (&*up, len), asked) && call_ensures(
            S3ChunkedUploader::uploaded,
            (up, len, Ok(Some(e_tag))),
            r,
        ) && call_ensures(
            S3ChunkedUploader::write_impl,
            (&*final(up), next_len),
            next,
        ) implies {
        let n = (asked->Ok_0)->part_number;
        &&& asked is Ok && asked->Ok_0 is UploadPart
        &&& r is Ok
        &&& (*final(up))@.parts.last().part_number == n
        &&& (*final(up))@.parts.last().e_tag == e_tag@
        &&& (*final(up))@.parts.drop_last() == (*up)@.parts
        &&& (*final(up))@.position == (*up)@.position + len
        &&& next is Ok && next->Ok_0 is UploadPart
        &&& next->Ok_0->part_number == n + 1
    } by {
        s3_laws::law_part_is_listed_as_requested((*up)@, len as nat, e_tag@);
        s3_laws::law_requests_say_what_is_due(asked, (*up)@.write_due(len as nat));
        s3_laws::law_requests_say_what_is_due(next, (*final(up))@.write_due(next_len as nat));
    }
}

/// The times in the settings are the given numbers of seconds, and are missing where none is
/// given. There are settings exactly if there is a command line.
pub proof fn law_settings_from_options(
    line: Option<&str>,
    timeout_secs: Option<u64>,
    cache_secs: Option<u64>,
    r: Option<CredentialHelperSettings>,
)
    requires
        call_ensures(
            CredentialHelperSettings::from_options,
            (line, timeout_secs, cache_secs),
            r,
        ),
    ensures
        r is Some <==> line is Some,
        r matches Some(s) ==> {
            &&& s.command_line@ == line->0@
            &&& s.timeout is Some <==> timeout_secs is Some
            &&& s.cache_duration is Some <==> cache_secs is Some
            &&& s.timeout is Some ==> s.timeout->0@ == timeout_secs->0 * 1_000_000_000
            &&& s.cache_duration is Some ==> s.cache_duration->0@ == cache_secs->0
                * 1_000_000_000
        },
{
}

/// Credentials are handed out exactly if some are kept for the URI and it is not yet time to
/// fetch them again.
pub proof fn law_kept_answers_are_handed_out(
    helper: &CredentialHelper,
    uri: &str,
    now: SystemTime,
    c: Option<Arc<Credentials>>,
)
    requires
        call_ensures(CredentialHelper::get, (helper, uri, now), c),
    ensures
        c is Some <==> helper@.cache.contains_key(uri@) && now@ < helper@.cache[uri@].refresh_at,
        c is Some ==> c->0@ == helper@.cache[uri@].headers,
{
}

/// An expiry before the epoch is the epoch, and any other is a whole number of seconds after
/// it.
pub proof fn law_expiries(expires: &str, r: Result<SystemTime, ResponseError>)
    requires
        call_ensures(credential_helper::parse_expires, (expires,), r),
    ensures
        match credential_helper::rfc3339_seconds(expires@) {
            Ok(secs) => {
                &&& r is Ok
                &&& secs >= 0 ==> r->Ok_0@ == secs * 1_000_000_000
                &&& secs < 0 ==> r->Ok_0@ == 0
            },
            Err(source) => {
                &&& r is Err
                &&& r->Err_0@.text() == "Invalid RFC 3339 timestamp in `expires`: `"@ + expires@
                    + "`: "@ + source
            },
        },
{
}

/// An answer is kept until it expires, or for the helper's time from when it was asked for.
pub proof fn law_parsed_answers(
    helper: &CredentialHelper,
    response: &GetCredentialsResponse,
    now: SystemTime,
    r: Result<CacheEntry, ResponseError>,
)
    requires
        call_ensures(CredentialHelper::parse_response, (helper, response, now), r),
    ensures
        ({
            let headers = credential_helper::parsed_headers(response.headers@);
            &&& r is Ok ==> headers is Ok && r->Ok_0.credentials@ == headers->Ok_0
            &&& r is Ok && response.expires is None ==> r->Ok_0.refresh_at@ == now@
                + helper@.default_cache_duration
            &&& headers is Ok && response.expires is None ==> r is Ok
            &&& headers is Err ==> r is Err
            &&& response.expires matches Some(t) ==> match credential_helper::rfc3339_seconds(
                t@,
            ) {
                Ok(secs) => (r is Ok <==> headers is Ok) && (r is Ok ==> r->Ok_0.refresh_at@
                    == if secs < 0 {
                    0
                } else {
                    secs * 1_000_000_000
                }),
                Err(_) => r is Err && r->Err_0@ is Expires,
            }
        }),
{
}

/// The outcome of a run is its answer, or an error that says what was observed.
pub proof fn law_outcomes_of_runs(
    helper: &CredentialHelper,
    outcome: Outcome,
    r: Result<GetCredentialsResponse, InvokeError>,
)
    requires
        call_ensures(CredentialHelper::outcome, (helper, outcome), r),
    ensures
        r is Ok <==> outcome matches Outcome::Answered(Ok(_)),
        outcome matches Outcome::Answered(Ok(response)) ==> r->Ok_0 == response,
        r is Err ==> credential_helper::fails_with(outcome, helper@, r->Err_0@),
{
}

/// Trimming a text cuts whitespace off both ends, and nothing else.
pub proof fn law_trimmed_texts(s: &str, out: String) -> (cut: (int, int))
    requires
        call_ensures(credential_helper::trim, (s,), out),
    ensures
        0 <= cut.0 <= cut.1 <= s@.len(),
        out@ == s@.subrange(cut.0, cut.1),
        forall|i: int|
            0 <= i < cut.0 || cut.1 <= i < s@.len() ==> credential_helper::whitespace(
                #[trigger] s@[i],
            ),
        cut.0 < cut.1 ==> !credential_helper::whitespace(s@[cut.0])
            && !credential_helper::whitespace(s@[cut.1 - 1]),
{
    credential_laws::law_trimming_cuts_whitespace_only(s@)
}

/// Adding a header gives its name its values and changes no other, and keeps the headers in
/// order.
pub proof fn law_added_headers(
    headers: HeaderMap,
    name: String,
    values: Vec<String>,
    after: HeaderMap,
    other: Seq<char>,
)
    requires
        call_ensures(HeaderMap::with, (headers, name, values), after),
    ensures
        header_map::ascending(after@),
        header_map::by_name(after@).contains_key(name@),
        header_map::by_name(after@)[name@] == text::views(values@),
        other != name@ ==> header_map::by_name(after@).contains_key(other)
            == header_map::by_name(headers@).contains_key(other),
        other != name@ && header_map::by_name(headers@).contains_key(other)
            ==> header_map::by_name(after@)[other] == header_map::by_name(headers@)[other],
{
}

/// The stages of a download follow one another; where one fails, the download stays in it,
/// and the error names the object where it could not be had, and the file otherwise.
pub proof fn law_downloads_go_on(outcome: Result<(), String>)
    ensures
        forall|d: &mut Download, r: Result<(), S3Error>| #[trigger]
            call_ensures(Download::advance, (d, outcome), r) ==> {
                &&& outcome is Ok <==> r is Ok
                &&& outcome is Err ==> (*final(d)).stage == (*d).stage
                &&& outcome is Ok && (*d).stage is Get ==> (*final(d)).stage is Create
                &&& outcome is Ok && (*d).stage is Create ==> (*final(d)).stage is Copy
                &&& outcome is Ok && (*d).stage is Copy ==> (*final(d)).stage is Flush
                &&& outcome is Ok && (*d).stage is Flush ==> (*final(d)).stage is Done
                &&& outcome is Err && (*d).stage is Get ==> r->Err_0@.text()
                    == "Failed to get object `"@ + (*d).key@ + "`: "@ + outcome->Err_0@
                &&& outcome is Err && !((*d).stage is Get) ==> r->Err_0@.text()
                    == "Failed to write downloaded object to `"@ + (*d).local_path@ + "`: "@
                    + outcome->Err_0@
            },
{
}

/// A download asks the configured bucket for the object; without a bucket there is none.
pub proof fn law_downloads_start(
    client: &S3Client,
    bucket: Bucket,
    path: &str,
    local_path: &str,
    r: Result<Download, S3Error>,
)
    requires
        call_ensures(S3Client::download, (client, bucket, path, local_path), r),
    ensures
        r is Ok <==> client@ is Some,
        r is Ok ==> r->Ok_0.bucket_name@ == client@->0 && r->Ok_0.key@ == bucket.name@ + "/"@
            + path@ && r->Ok_0.local_path@ == local_path@ && r->Ok_0.stage is Get,
        r is Err ==> r->Err_0@.text()
            == "S3 bucket name not configured (set BUCK2_LOG_BUCKET_NAME)"@,
{
}

/// The reply to the request that starts an upload gives it its id and sets it going; a
/// failure changes nothing.
pub proof fn law_uploads_are_set_going(reply: Result<Option<String>, String>)
    ensures
        forall|up: &mut S3ChunkedUploader, r: Result<(), S3Error>| #[trigger]
            call_ensures(S3ChunkedUploader::created, (up, reply), r) ==> {
                &&& reply is Ok <==> r is Ok
                &&& reply is Err ==> (*final(up))@ == (*up)@ && r->Err_0@.text()
                    == "Failed to create S3 multipart upload for `"@ + (*up)@.key + "`: "@
                    + reply->Err_0@
                &&& reply is Ok ==> (*final(up))@.state is InProgress
                &&& reply matches Ok(Some(id)) ==> (*final(up))@.upload_id == Some(id@)
                &&& reply matches Ok(None) ==> (*final(up))@.upload_id is None
                &&& reply is Ok ==> (*final(up))@.parts == (*up)@.parts && (*final(up))@.key
                    == (*up)@.key && (*final(up))@.bucket_name == (*up)@.bucket_name
            },
{
}

/// The replies to the requests that complete and abort an upload finish it; a failure leaves
/// it as it is.
pub proof fn law_uploads_are_finished(reply: Result<(), String>)
    ensures
        forall|up: &mut S3ChunkedUploader, r: Result<(), S3Error>| #[trigger]
            call_ensures(S3ChunkedUploader::completed, (up, reply), r) ==> {
                &&& reply is Ok <==> r is Ok
                &&& reply is Ok ==> (*final(up))@.state is Finished
                &&& reply is Err ==> (*final(up))@ == (*up)@ && r->Err_0@.text()
                    == "Failed to complete multipart upload for `"@ + (*up)@.key + "`: "@
                    + reply->Err_0@
            },
        forall|up: &mut S3ChunkedUploader, r: Result<(), S3Error>| #[trigger]
            call_ensures(S3ChunkedUploader::aborted, (up, reply), r) ==> {
                &&& reply is Ok <==> r is Ok
                &&& reply is Ok ==> (*final(up))@.state is Finished
                &&& reply is Err ==> (*final(up))@ == (*up)@ && r->Err_0@.text()
                    == "Failed to abort multipart upload for `"@ + (*up)@.key + "`: "@
                    + reply->Err_0@
            },
{
}

/// An upload in progress is completed with all its parts, each under its number, and aborted
/// under its id.
pub proof fn law_uploads_end_as_they_went()
    ensures
        forall|up: &mut S3ChunkedUploader, r: Result<UploadRequest, S3Error>|
            #[trigger] call_ensures(S3ChunkedUploader::finish_impl, (up,), r) && (*up)@.state
                is InProgress && (*up)@.bucket_name is Some && (*up)@.upload_id is Some ==> {
                &&& r is Ok && r->Ok_0 is Complete
                &&& (r->Ok_0->Complete_key)@ == (*up)@.key
                &&& (r->Ok_0->Complete_upload_id)@ == (*up)@.upload_id->0
                &&& (r->Ok_0->parts)@.len() == (*up)@.parts.len()
                &&& forall|j: int|
                    0 <= j < (*up)@.parts.len() ==> (#[trigger] (r->Ok_0->parts)@[j]).part_number
                        == (*up)@.parts[j].part_number && (r->Ok_0->parts)@[j].e_tag@
                        == (*up)@.parts[j].e_tag
            },
        forall|up: &S3ChunkedUploader, request: UploadRequest| #[trigger]
            call_ensures(S3ChunkedUploader::abort, (up,), request) ==> {
                &&& request is Abort <==> up@.state is InProgress && up@.bucket_name is Some
                    && up@.upload_id is Some
                &&& !(request is Abort) ==> request is Nothing
                &&& request is Abort ==> (request->Abort_key)@ == up@.key
                    && (request->Abort_upload_id)@ == up@.upload_id->0
            },
{
    assert forall|up: &mut S3ChunkedUploader, r: Result<UploadRequest, S3Error>|
        #[trigger] call_ensures(S3ChunkedUploader::finish_impl, (up,), r) && (*up)@.state
            is InProgress && (*up)@.bucket_name is Some && (*up)@.upload_id is Some implies {
        &&& r is Ok && r->Ok_0 is Complete
        &&& (r->Ok_0->Complete_key)@ == (*up)@.key
        &&& (r->Ok_0->Complete_upload_id)@ == (*up)@.upload_id->0
        &&& (r->Ok_0->parts)@.len() == (*up)@.parts.len()
        &&& forall|j: int|
            0 <= j < (*up)@.parts.len() ==> (#[trigger] (r->Ok_0->parts)@[j]).part_number
                == (*up)@.parts[j].part_number && (r->Ok_0->parts)@[j].e_tag@
                == (*up)@.parts[j].e_tag
    } by {
        s3_laws::law_requests_say_what_is_due(r, (*up)@.finish_due().1);
    }
}

/// Errors of the store are put in words as they are.
pub proof fn law_store_errors_in_words(e: &S3Error, out: String)
    requires
        call_ensures(S3Error::message, (e,), out),
    ensures
        e is BucketNotConfigured ==> out@
            == "S3 bucket name not configured (set BUCK2_LOG_BUCKET_NAME)"@,
        e is MultipartNotStarted ==> out@ == "Multipart upload not started - call write() first"@,
        e is MultipartAlreadyFinished ==> out@
            == "Multipart upload already completed or aborted"@,
        e matches S3Error::CreateMultipartUpload { path, source } ==> out@
            == "Failed to create S3 multipart upload for `"@ + path@ + "`: "@ + source@,
        e matches S3Error::UploadPart { path, part_number, source } ==> part_number >= 0 ==> out@
            == "Failed to upload part "@ + text::decimal(part_number as nat) + " for `"@ + path@
            + "`: "@ + source@,
        e matches S3Error::CompleteMultipartUpload { path, source } ==> out@
            == "Failed to complete multipart upload for `"@ + path@ + "`: "@ + source@,
        e matches S3Error::AbortMultipartUpload { path, source } ==> out@
            == "Failed to abort multipart upload for `"@ + path@ + "`: "@ + source@,
        e matches S3Error::PutObject { path, source } ==> out@ == "Failed to put object `"@ + path@
            + "`: "@ + source@,
        e matches S3Error::GetObject { path, source } ==> out@ == "Failed to get object `"@ + path@
            + "`: "@ + source@,
        e matches S3Error::WriteDownload { path, source } ==> out@
            == "Failed to write downloaded object to `"@ + path@ + "`: "@ + source@,
        e matches S3Error::MissingETag(n) ==> n >= 0 ==> out@
            == "Missing ETag in upload part response for part "@ + text::decimal(n as nat),
{
}

/// Errors on the way to credentials are put in words as they are.
pub proof fn law_helper_errors_in_words(
    response: &ResponseError,
    response_text: String,
    command: &CommandError,
    command_text: String,
    get: &GetError,
    get_text: String,
    build: &BuildError,
    build_text: String,
    invoke: &InvokeError,
    invoke_text: String,
)
    requires
        call_ensures(ResponseError::message, (response,), response_text),
        call_ensures(CommandError::message, (command,), command_text),
        call_ensures(GetError::message, (get,), get_text),
        call_ensures(BuildError::message, (build,), build_text),
        call_ensures(InvokeError::message, (invoke,), invoke_text),
    ensures
        response matches ResponseError::Expires { text, source } ==> response_text@
            == "Invalid RFC 3339 timestamp in `expires`: `"@ + text@ + "`: "@ + source@,
        response matches ResponseError::HeaderName { name, source } ==> response_text@
            == "Invalid header name: `"@ + name@ + "`: "@ + source@,
        response matches ResponseError::HeaderValue { name, source } ==> response_text@
            == "Invalid value for header `"@ + name@ + "`: "@ + source@,
        command matches CommandError::InvalidCommandLine(line) ==> command_text@
            == "Invalid credential helper command line: `"@ + line@ + "`"@,
        command is Empty ==> command_text@ == "Credential helper command must not be empty"@,
        get matches GetError::Invoke { uri, program, error } ==> get_text@
            == "Error getting credentials for `"@ + uri@ + "` from credential helper `"@
            + program@ + "`: "@ + error@.text(),
        get matches GetError::Response { uri, program, invalid } ==> get_text@
            == "Invalid response from credential helper `"@ + program@ + "` for `"@ + uri@
            + "`: "@ + invalid@.text(),
        build matches BuildError::Substitution(e) ==> build_text@
            == "Invalid `credential_helper`: "@ + e@,
        build matches BuildError::Command(e) ==> build_text@ == "Invalid `credential_helper`: "@
            + e@.text(),
        invoke matches InvokeError::Spawn { program, source } ==> invoke_text@
            == "Error spawning `"@ + program@ + "`: "@ + source@,
        invoke is NoInput ==> invoke_text@ == "stdin was not captured"@,
        invoke matches InvokeError::Timeout(d) ==> invoke_text@
            == "Credential helper did not respond within "@ + fmt_duration::exact_text(d@),
        invoke matches InvokeError::Wait(e) ==> invoke_text@
            == "Error waiting for the credential helper: "@ + e@,
        invoke matches InvokeError::Failed { status, stderr } ==> invoke_text@
            == "Credential helper failed with "@ + status@ + ": "@ + stderr@,
        invoke matches InvokeError::Json(e) ==> invoke_text@
            == "Error parsing the credential helper's output as JSON: "@ + e@,
{
}

/// Headers come out as the values of the answer, or the first unusable one is the error; what
/// is shown of them is their names.
pub proof fn law_parsed_headers(
    headers: &HeaderMap,
    r: Result<Vec<Header>, ResponseError>,
    credentials: &Credentials,
    shown: String,
)
    requires
        call_ensures(credential_helper::parse_headers, (headers,), r),
        call_ensures(Credentials::debug_text, (credentials,), shown),
    ensures
        r is Ok <==> credential_helper::parsed_headers(headers@) is Ok,
        r matches Ok(out) ==> out@.len() == credential_helper::parsed_headers(
            headers@,
        )->Ok_0.len() && forall|i: int|
            0 <= i < out@.len() ==> (#[trigger] out@[i]).name@
                == credential_helper::parsed_headers(headers@)->Ok_0[i].0 && out@[i].value@
                == credential_helper::parsed_headers(headers@)->Ok_0[i].1,
        r matches Err(e) ==> credential_helper::parsed_headers(headers@)->Err_0 == e@,
        shown@ == credential_helper::shown_names(credential_helper::header_names(credentials@)),
{
    if let Ok(out) = r {
        let views = credential_helper::header_views(out@);
        assert forall|i: int| 0 <= i < out@.len() implies (#[trigger] out@[i]).name@ == views[i].0
            && out@[i].value@ == views[i].1 by {
            assert(views[i] == out@[i]@);
        }
    }
}

/// An endpoint is configured as soon as one of the variables is set to something, whichever
/// it is.
pub proof fn law_any_variable_will_do(values: &Vec<Option<Vec<u8>>>, b: bool, i: int)
    requires
        call_ensures(otel::otlp_endpoint_configured, (values,), b),
    ensures
        0 <= i < values@.len() && values@[i] is Some && values@[i]->0@.len() > 0 ==> b,
        b ==> exists|j: int|
            0 <= j < values@.len() && (#[trigger] values@[j]) is Some && values@[j]->0@.len() > 0,
{
    if 0 <= i < values@.len() && values@[i] is Some && values@[i]->0@.len() > 0 {
        assert(values@[i] matches Some(v) && v@.len() > 0);
    }
}

/// The variables that are looked at, what is filtered, and a process that has just started.
pub proof fn law_export_starts_out(
    names: Vec<String>,
    filter: (Level, &'static str),
    t: Telemetry,
    stops: bool,
)
    requires
        call_ensures(otel::endpoint_variables, (), names),
        call_ensures(otel::telemetry_filter, (), filter),
        call_ensures(Telemetry::new, (), t),
        call_ensures(otel::shutdown, (&t,), stops),
    ensures
        names@.len() == 2,
        names@[0]@ == "OTEL_EXPORTER_OTLP_TRACES_ENDPOINT"@,
        names@[1]@ == "OTEL_EXPORTER_OTLP_ENDPOINT"@,
        filter.0 is Info,
        filter.1@ == "h2::proto::connection"@,
        !t.installed && !t.activated && !t.provider,
        !stops,
        forall|u: &mut Telemetry| #[trigger]
            call_ensures(Telemetry::deferred_layer, (u,), ()) ==> (*final(u)).installed
                && (*final(u)).activated == (*u).activated && (*final(u)).provider
                == (*u).provider,
{
    let views = text::views(names@);
    assert(views.len() == names@.len());
    assert(views[0] == names@[0]@ && views[1] == names@[1]@);
}

/// The attributes of the process are those that it is described by.
pub proof fn law_attributes_come_out(
    version: &str,
    id: String,
    arch: &str,
    os: &str,
    pid: u32,
    hostname: Option<String>,
    attributes: Vec<Attribute>,
    fresh: Vec<Attribute>,
)
    requires
        call_ensures(
            otel::resource_attributes,
            (version, id, arch, os, pid, hostname),
            attributes,
        ),
        call_ensures(otel::resource, (version, arch, os, pid, hostname), fresh),
    ensures
        ({
            let all = otel::attribute_views(attributes@);
            &&& telemetry_laws::has_text(all, "service.name"@, "buck2"@)
            &&& telemetry_laws::has_text(all, "service.version"@, version@)
            &&& telemetry_laws::has_text(all, "service.instance.id"@, id@)
            &&& telemetry_laws::has_text(all, "host.arch"@, arch@)
            &&& telemetry_laws::has_text(all, "os.type"@, os@)
            &&& all.contains(("process.pid"@, otel::ValueModel::Int(pid as int)))
            &&& hostname matches Some(host) ==> telemetry_laws::has_text(
                all,
                "host.name"@,
                host@,
            )
            &&& all.len() == if hostname is Some {
                7nat
            } else {
                6nat
            }
        }),
        exists|own: Seq<char>| #[trigger]
            otel::is_uuid_v4(own) && otel::attribute_views(fresh@) == otel::resource_attributes_of(
                version@,
                own,
                arch@,
                os@,
                pid,
                text::optional_view(hostname),
            ),
{
    telemetry_laws::law_process_is_described(
        version@,
        id@,
        arch@,
        os@,
        pid,
        text::optional_view(hostname),
    );
}

/// Uploads are made exactly if a bucket is configured, and go to that bucket.
pub proof fn law_configured_buckets(
    name: Option<String>,
    given: String,
    client: S3Client,
    with: S3Client,
    logs: LogUploadClient,
    enabled: bool,
    logs_enabled: bool,
)
    requires
        call_ensures(S3Client::new, (name,), client),
        call_ensures(S3Client::with_bucket, (given,), with),
        call_ensures(LogUploadClient::new, (name,), logs),
        call_ensures(S3Client::is_enabled, (&client,), enabled),
        call_ensures(LogUploadClient::is_enabled, (&logs,), logs_enabled),
    ensures
        client@ is Some <==> name is Some,
        name matches Some(n) ==> client@ == Some(n@),
        logs@ == client@,
        with@ == Some(given@),
        enabled <==> name is Some,
        logs_enabled <==> name is Some,
{
}

/// Keys, tags and metadata of an object, and the upload that is started for it.
pub proof fn law_objects_in_the_store(
    client: &S3Client,
    bucket: Bucket,
    path: &str,
    ttl: Ttl,
    now: SystemTime,
    hostname: Option<String>,
    key: String,
    tagging: String,
    pairs: Vec<(String, String)>,
    up: S3ChunkedUploader,
)
    requires
        call_ensures(S3Client::make_key, (client, bucket, path), key),
        call_ensures(S3Client::make_tags, (client, ttl), tagging),
        call_ensures(S3Client::make_metadata, (client, ttl, now, hostname), pairs),
        call_ensures(S3Client::start_chunked_upload, (client, bucket, path, ttl), up),
    ensures
        key@ == bucket.name@ + "/"@ + path@,
        tagging@ == "managed-by=buck2&expiration-days="@ + text::decimal(
            ttl@ / 86_400_000_000_000,
        ),
        s3::pairs_map(pairs@) == s3::metadata(ttl@, now@, text::optional_view(hostname)),
        up@.bucket_name == client@,
        up@.ttl == ttl@,
        client@ is Some ==> up@.key == key@ && up@.state is NotStarted,
        client@ is None ==> up@.state is Disabled,
        up@.parts.len() == 0 && up@.position == 0 && up@.upload_id is None,
{
    let t = ttl@;
    assert(t / 1_000_000_000 / 86_400 == t / 86_400_000_000_000) by (nonlinear_arith);
}

/// What an upload says of itself. It warns exactly if it is given up in progress.
pub proof fn law_uploads_say_how_far_they_are(
    up: &S3ChunkedUploader,
    position: u64,
    number: i32,
    state: MultipartState,
    warning: Option<String>,
)
    requires
        call_ensures(S3ChunkedUploader::position, (up,), position),
        call_ensures(S3ChunkedUploader::part_number, (up,), number),
        call_ensures(S3ChunkedUploader::state, (up,), state),
        call_ensures(S3ChunkedUploader::drop_warning, (up,), warning),
    ensures
        position == up@.position,
        number == up@.part_number,
        state == up@.state,
        warning is Some <==> up@.state is InProgress,
        warning matches Some(w) ==> w@ == s3::drop_warning_text(up@.key),
{
}

/// What a helper says of itself, and the headers of credentials.
pub proof fn law_helpers_say_what_they_are(
    helper: &CredentialHelper,
    command: &Vec<String>,
    timeout: Duration,
    cache_duration: Duration,
    credentials: &Credentials,
    headers: &Vec<Header>,
)
    requires
        call_ensures(CredentialHelper::command, (helper,), command),
        call_ensures(CredentialHelper::timeout, (helper,), timeout),
        call_ensures(CredentialHelper::default_cache_duration, (helper,), cache_duration),
        call_ensures(Credentials::headers, (credentials,), headers),
    ensures
        text::views(command@) == helper@.command,
        timeout@ == helper@.timeout,
        cache_duration@ == helper@.default_cache_duration,
        credential_helper::header_views(headers@) == credentials@,
{
}

} // verus!
