//! What requests to the store come to, over whole uploads and downloads.

use vstd::prelude::*;

use crate::s3;
use crate::s3::Bucket;
use crate::s3::DownloadStage;
use crate::s3::MultipartState;
use crate::s3::S3Error;
use crate::s3::UploadRequest;
use crate::text;

verus! {

/// The request for a chunk of an upload that is in progress bears exactly the number
/// under which the part is listed once it is uploaded, and nothing but the list, the next
/// number and the position changes.
pub proof fn law_part_is_listed_as_requested(
    up: s3::UploadModel,
    len: nat,
    e_tag: Seq<char>,
)
    requires
        up.consistent(),
        up.state is InProgress,
        up.upload_id is Some,
        len > 0,
    ensures
        ({
            let after = up.uploaded(len, Ok(Some(e_tag))).0;
            &&& up.write_due(len) matches Ok(s3::RequestModel::UploadPart {
                bucket_name,
                key,
                upload_id,
                part_number,
            })
            &&& Some(bucket_name) == up.bucket_name
            &&& key == up.key
            &&& Some(upload_id) == up.upload_id
            &&& after.parts.len() == up.parts.len() + 1
            &&& after.parts.last().part_number == part_number
            &&& after.parts.last().e_tag == e_tag
            &&& after.parts.drop_last() == up.parts
            &&& after.position == up.position + len
            &&& (after.bucket_name, after.key, after.upload_id, after.ttl, after.state) == (
                up.bucket_name,
                up.key,
                up.upload_id,
                up.ttl,
                up.state,
            )
            &&& up.uploaded(len, Ok(Some(e_tag))).1 is None
            &&& after.consistent()
            &&& after.write_due(len) matches Ok(s3::RequestModel::UploadPart {
                part_number: next,
                ..
            }) && next == part_number + 1
        }),
{
    let after = up.uploaded(len, Ok(Some(e_tag))).0;
    assert(after.parts.drop_last() =~= up.parts);
}

/// Writing one chunk to a store that accepts everything and gives the upload the given
/// id: the upload afterwards, and the requests that were sent.
pub open spec fn written(up: s3::UploadModel, id: Seq<char>, len: nat, e_tag: Seq<char>) -> (
    s3::UploadModel,
    Seq<s3::RequestModel>,
) {
    match up.write_due(len) {
        Ok(s3::RequestModel::Nothing) => (up, seq![]),
        Ok(s3::RequestModel::Create { bucket_name, key, tagging }) => {
            let create = s3::RequestModel::Create { bucket_name, key, tagging };
            let begun = up.created(Ok(Some(id))).0;
            match begun.write_due(len) {
                Ok(request) => (
                    begun.uploaded(len, Ok(Some(e_tag))).0,
                    seq![create, request],
                ),
                Err(_) => (begun, seq![create]),
            }
        },
        Ok(request) => (up.uploaded(len, Ok(Some(e_tag))).0, seq![request]),
        Err(_) => (up, seq![]),
    }
}

/// Writing chunks, each given by its length and its tag.
pub open spec fn all_written(
    up: s3::UploadModel,
    id: Seq<char>,
    chunks: Seq<(nat, Seq<char>)>,
) -> (s3::UploadModel, Seq<s3::RequestModel>)
    decreases chunks.len(),
{
    if chunks.len() == 0 {
        (up, seq![])
    } else {
        let (before, requests) = all_written(up, id, chunks.drop_last());
        let (after, more) = written(before, id, chunks.last().0, chunks.last().1);
        (after, requests + more)
    }
}

/// A new upload to a configured bucket whose chunks are all accepted starts with one
/// request that creates it, uploads the chunk at place `k` under the number `k + 1`, and
/// is completed by a request that lists the tag of every chunk under that number. All
/// requests go to the same bucket and key, and those behind the first bear the id that
/// the store gave.
pub proof fn law_whole_upload(
    bucket_name: Seq<char>,
    key: Seq<char>,
    ttl: nat,
    id: Seq<char>,
    chunks: Seq<(nat, Seq<char>)>,
)
    requires
        chunks.len() > 0,
        forall|k: int| 0 <= k < chunks.len() ==> (#[trigger] chunks[k]).0 > 0,
    ensures
        ({
            let (up, requests) = all_written(
                s3::UploadModel::initial(Some(bucket_name), key, ttl),
                id,
                chunks,
            );
            &&& requests.len() == chunks.len() + 1
            &&& requests[0] == (s3::RequestModel::Create {
                bucket_name,
                key,
                tagging: "managed-by=buck2&expiration-days="@ + text::decimal(
                    ttl / 86_400_000_000_000,
                ),
            })
            &&& forall|k: int|
                0 <= k < chunks.len() ==> #[trigger] requests[k + 1] == (
                s3::RequestModel::UploadPart {
                    bucket_name,
                    key,
                    upload_id: id,
                    part_number: k + 1,
                })
            &&& up.state is InProgress
            &&& up.finish_due().1 matches Ok(s3::RequestModel::Complete {
                bucket_name: b,
                key: k,
                upload_id: i,
                parts,
            })
            &&& b == bucket_name && k == key && i == id
            &&& parts.len() == chunks.len()
            &&& forall|j: int|
                0 <= j < chunks.len() ==> (#[trigger] parts[j]).e_tag == chunks[j].1
                    && parts[j].part_number == j + 1
            &&& up.finish_due().0.completed(Ok(())).0.state is Finished
        }),
    decreases chunks.len(),
{
    let init = chunks.drop_last();
    let start = s3::UploadModel::initial(Some(bucket_name), key, ttl);
    let (before, requests) = all_written(start, id, init);
    let (after, all) = all_written(start, id, chunks);
    assert(ttl / 1_000_000_000 / 86_400 == ttl / 86_400_000_000_000) by (nonlinear_arith);
    lemma_upload_facts(bucket_name, key, ttl, id, chunks);
    if init.len() > 0 {
        assert forall|k: int| 0 <= k < init.len() implies (#[trigger] init[k]).0 > 0 by {
            assert(init[k] == chunks[k]);
        }
        law_whole_upload(bucket_name, key, ttl, id, init);
        lemma_upload_facts(bucket_name, key, ttl, id, init);
        assert forall|k: int| 0 <= k < chunks.len() implies #[trigger] all[k + 1] == (
        s3::RequestModel::UploadPart { bucket_name, key, upload_id: id, part_number: k + 1 }) by {
            if k < init.len() {
                assert(all[k + 1] == requests[k + 1]);
            }
        }
    } else {
        assert(all_written(start, id, init) == (start, Seq::<s3::RequestModel>::empty()));
    }
}

proof fn lemma_upload_facts(
    bucket_name: Seq<char>,
    key: Seq<char>,
    ttl: nat,
    id: Seq<char>,
    chunks: Seq<(nat, Seq<char>)>,
)
    requires
        chunks.len() > 0,
        forall|k: int| 0 <= k < chunks.len() ==> (#[trigger] chunks[k]).0 > 0,
    ensures
        ({
            let up = all_written(
                s3::UploadModel::initial(Some(bucket_name), key, ttl),
                id,
                chunks,
            ).0;
            &&& up.consistent()
            &&& up.state is InProgress
            &&& up.upload_id == Some(id)
            &&& up.bucket_name == Some(bucket_name)
            &&& up.key == key
            &&& up.part_number == chunks.len() + 1
            &&& up.parts.len() == chunks.len()
            &&& forall|j: int|
                0 <= j < chunks.len() ==> (#[trigger] up.parts[j]).e_tag == chunks[j].1
                    && up.parts[j].part_number == j + 1
        }),
    decreases chunks.len(),
{
    let init = chunks.drop_last();
    let start = s3::UploadModel::initial(Some(bucket_name), key, ttl);
    let before = all_written(start, id, init).0;
    let after = all_written(start, id, chunks).0;
    if init.len() > 0 {
        assert forall|k: int| 0 <= k < init.len() implies (#[trigger] init[k]).0 > 0 by {
            assert(init[k] == chunks[k]);
        }
        lemma_upload_facts(bucket_name, key, ttl, id, init);
        assert forall|j: int| 0 <= j < chunks.len() implies (#[trigger] after.parts[j]).e_tag
            == chunks[j].1 && after.parts[j].part_number == j + 1 by {
            if j < init.len() {
                assert(after.parts[j] == before.parts[j]);
                assert(init[j] == chunks[j]);
            }
        }
    } else {
        assert(before == start);
    }
}

/// A reply that fails, or that lacks what is needed, changes nothing, and the error says
/// which request failed, for which object, and why.
pub proof fn law_failed_requests_change_nothing(
    up: s3::UploadModel,
    len: nat,
    source: Seq<char>,
)
    ensures
        up.created(Err(source)) == (
            up,
            Some(s3::S3ErrorModel::CreateMultipartUpload { path: up.key, source }),
        ),
        up.uploaded(len, Err(source)) == (
            up,
            Some(
                s3::S3ErrorModel::UploadPart {
                    path: up.key,
                    part_number: up.part_number,
                    source,
                },
            ),
        ),
        up.uploaded(len, Ok(None)) == (
            up,
            Some(s3::S3ErrorModel::MissingETag(up.part_number)),
        ),
        up.completed(Err(source)) == (
            up,
            Some(s3::S3ErrorModel::CompleteMultipartUpload { path: up.key, source }),
        ),
        up.aborted(Err(source)) == (
            up,
            Some(s3::S3ErrorModel::AbortMultipartUpload { path: up.key, source }),
        ),
{
}

/// An upload that the store gave no id cannot go on: every chunk and the end are refused,
/// and there is nothing to abort.
pub proof fn law_upload_without_id_is_stuck(up: s3::UploadModel, len: nat)
    requires
        up.consistent(),
        up.bucket_name is Some,
        up.state is NotStarted,
        len > 0,
    ensures
        ({
            let stuck = up.created(Ok(None)).0;
            &&& stuck.state is InProgress
            &&& stuck.write_due(len) matches Err(e) && e is MultipartNotStarted
            &&& stuck.finish_due().1 matches Err(e) && e is MultipartNotStarted
            &&& stuck.finish_due().0 == stuck
            &&& stuck.abort_due() is Nothing
        }),
{
}

/// An empty chunk sends nothing as long as the upload is not finished.
pub proof fn law_empty_chunks_send_nothing(up: s3::UploadModel)
    requires
        up.consistent(),
        !(up.state is Finished),
    ensures
        up.write_due(0) matches Ok(request) && request is Nothing,
{
}

/// An upload that is in progress is aborted by a request with its bucket, key and id, and
/// is finished once that succeeds. One that never started has nothing to abort; its end
/// sends nothing and finishes it.
pub proof fn law_abort_and_early_end(up: s3::UploadModel)
    requires
        up.consistent(),
        up.bucket_name is Some,
    ensures
        up.state is InProgress && up.upload_id is Some ==> up.abort_due() == (
        s3::RequestModel::Abort {
            bucket_name: up.bucket_name->0,
            key: up.key,
            upload_id: up.upload_id->0,
        }) && up.aborted(Ok(())).0 == (s3::UploadModel {
            state: MultipartState::Finished,
            ..up
        }) && up.aborted(Ok(())).1 is None,
        up.state is NotStarted ==> {
            &&& up.abort_due() is Nothing
            &&& up.finish_due().1 matches Ok(request) && request is Nothing
            &&& up.finish_due().0 == (s3::UploadModel { state: MultipartState::Finished, ..up })
        },
{
}

/// The key of an object is the name of its bucket, a slash and its path.
pub proof fn law_key_parts(bucket: Bucket, path: Seq<char>)
    ensures
        ({
            let n = bucket.name@.len() as int;
            let key = s3::key(bucket, path);
            &&& key.len() == n + 1 + path.len()
            &&& key.take(n) == bucket.name@
            &&& key[n] == '/'
            &&& key.skip(n + 1) == path
        }),
{
    reveal_strlit("/");
    let n = bucket.name@.len() as int;
    let key = s3::key(bucket, path);
    assert(key.take(n) =~= bucket.name@);
    assert(key.skip(n + 1) =~= path);
}

/// The tags name the manager and the whole days for which the object is kept: as many as
/// fit into `ttl` nanoseconds.
pub proof fn law_tags_hold_whole_days(ttl: nat)
    ensures
        exists|days: nat|
            #![trigger text::decimal(days)]
            s3::tags(ttl) == "managed-by=buck2&expiration-days="@ + text::decimal(days) && days
                * 86_400_000_000_000 <= ttl < (days + 1) * 86_400_000_000_000,
{
    let days = ttl / 1_000_000_000 / 86_400;
    assert(days * 86_400_000_000_000 <= ttl < (days + 1) * 86_400_000_000_000)
        by (nonlinear_arith)
        requires
            days == ttl / 1_000_000_000 / 86_400,
    ;
    assert(s3::tags(ttl) == "managed-by=buck2&expiration-days="@ + text::decimal(days));
}

/// The metadata says when the object expires, in seconds since the epoch: the whole
/// seconds of the time at which it is stored, counted from the epoch on, and those for
/// which it is kept. It also says who stored it and, if known, from which host, and
/// nothing else.
pub proof fn law_metadata(ttl_secs: nat, now: int, hostname: Option<Seq<char>>)
    ensures
        ({
            let m = s3::metadata(ttl_secs * 1_000_000_000, now, hostname);
            let since = if now < 0 {
                0int
            } else {
                now / 1_000_000_000
            };
            &&& m.contains_key("expires-at"@)
            &&& m["expires-at"@] == text::decimal((since + ttl_secs) as nat)
            &&& m.contains_key("uploaded-by"@)
            &&& m["uploaded-by"@] == "buck2"@
            &&& m.contains_key("uploader-host"@) == (hostname is Some)
            &&& hostname is Some ==> m["uploader-host"@] == hostname->0
            &&& forall|k: Seq<char>| #[trigger]
                m.contains_key(k) ==> k == "expires-at"@ || k == "uploaded-by"@ || k
                    == "uploader-host"@
        }),
{
    reveal_strlit("expires-at");
    reveal_strlit("uploaded-by");
    reveal_strlit("uploader-host");
    assert("expires-at"@.len() == 10 && "uploaded-by"@.len() == 11 && "uploader-host"@.len()
        == 13);
    assert(ttl_secs * 1_000_000_000 / 1_000_000_000 == ttl_secs);
}

/// A download asks for the object, creates the file, copies and flushes, in this order,
/// and is then done.
pub proof fn law_download_order()
    ensures
        ({
            let create = s3::next_stage(DownloadStage::Get);
            let copy = s3::next_stage(create);
            let flush = s3::next_stage(copy);
            &&& create is Create
            &&& copy is Copy
            &&& flush is Flush
            &&& s3::next_stage(flush) is Done
        }),
{
}

/// What each error says.
pub proof fn law_error_texts(path: Seq<char>, source: Seq<char>, n: nat)
    ensures
        s3::S3ErrorModel::BucketNotConfigured.text()
            == "S3 bucket name not configured (set BUCK2_LOG_BUCKET_NAME)"@,
        (s3::S3ErrorModel::CreateMultipartUpload { path, source }).text()
            == "Failed to create S3 multipart upload for `"@ + path + "`: "@ + source,
        (s3::S3ErrorModel::UploadPart { path, part_number: n as int, source }).text()
            == "Failed to upload part "@ + text::decimal(n) + " for `"@ + path + "`: "@ + source,
        (s3::S3ErrorModel::CompleteMultipartUpload { path, source }).text()
            == "Failed to complete multipart upload for `"@ + path + "`: "@ + source,
        (s3::S3ErrorModel::AbortMultipartUpload { path, source }).text()
            == "Failed to abort multipart upload for `"@ + path + "`: "@ + source,
        (s3::S3ErrorModel::PutObject { path, source }).text() == "Failed to put object `"@ + path
            + "`: "@ + source,
        (s3::S3ErrorModel::GetObject { path, source }).text() == "Failed to get object `"@ + path
            + "`: "@ + source,
        (s3::S3ErrorModel::WriteDownload { path, source }).text()
            == "Failed to write downloaded object to `"@ + path + "`: "@ + source,
        s3::S3ErrorModel::MultipartNotStarted.text()
            == "Multipart upload not started - call write() first"@,
        s3::S3ErrorModel::MultipartAlreadyFinished.text()
            == "Multipart upload already completed or aborted"@,
        s3::S3ErrorModel::MissingETag(n as int).text()
            == "Missing ETag in upload part response for part "@ + text::decimal(n),
{
}

/// The request that completes an upload takes the parts with it: if it fails, the upload is
/// still in progress, under the same id, and has none left to name.
pub proof fn law_completion_takes_the_parts(up: s3::UploadModel, source: Seq<char>)
    requires
        up.consistent(),
        up.state is InProgress,
        up.upload_id is Some,
    ensures
        ({
            let left = up.finish_due().0;
            let failed = left.completed(Err(source)).0;
            &&& left.parts.len() == 0
            &&& failed == left
            &&& failed.state is InProgress
            &&& (failed.bucket_name, failed.key, failed.upload_id, failed.part_number) == (
                up.bucket_name,
                up.key,
                up.upload_id,
                up.part_number,
            )
            &&& (failed.position, failed.ttl) == (up.position, up.ttl)
            &&& failed.finish_due().1 matches Ok(s3::RequestModel::Complete { parts, .. })
                && parts.len() == 0
        }),
{
}

/// Without a bucket an upload is skipped from the start, and knows no key. With one it waits
/// for its first chunk, has no id and no parts, and is at the beginning of the object.
pub proof fn law_uploads_start_empty(
    bucket_name: Option<Seq<char>>,
    key: Seq<char>,
    ttl: nat,
)
    ensures
        ({
            let up = s3::UploadModel::initial(bucket_name, key, ttl);
            &&& up.consistent()
            &&& up.bucket_name == bucket_name
            &&& up.ttl == ttl
            &&& up.upload_id is None && up.parts.len() == 0 && up.position == 0
            &&& bucket_name is None ==> up.state is Disabled && up.key.len() == 0
            &&& bucket_name is Some ==> up.state is NotStarted && up.key == key
            &&& bucket_name is Some ==> up.write_due(0) == Ok::<
                s3::RequestModel,
                s3::S3ErrorModel,
            >(s3::RequestModel::Nothing)
        }),
{
}

/// A request that is asked for says what is due: the same bucket, key, tags, id and number,
/// and the same parts in the same order.
pub proof fn law_requests_say_what_is_due(
    r: Result<UploadRequest, S3Error>,
    due: Result<s3::RequestModel, s3::S3ErrorModel>,
)
    requires
        s3::asks(r, due),
    ensures
        due is Ok <==> r is Ok,
        due matches Ok(s3::RequestModel::Nothing) ==> r == Ok::<UploadRequest, S3Error>(
            UploadRequest::Nothing,
        ),
        due matches Ok(s3::RequestModel::Create { bucket_name, key, tagging }) ==> {
            &&& r matches Ok(UploadRequest::Create { bucket_name: b, key: k, tagging: t })
            &&& b@ == bucket_name && k@ == key && t@ == tagging
        },
        due matches Ok(s3::RequestModel::UploadPart { bucket_name, key, upload_id, part_number })
            ==> {
            &&& r matches Ok(
                UploadRequest::UploadPart {
                    bucket_name: b,
                    key: k,
                    upload_id: i,
                    part_number: n,
                },
            )
            &&& b@ == bucket_name && k@ == key && i@ == upload_id && n == part_number
        },
        due matches Ok(s3::RequestModel::Complete { bucket_name, key, upload_id, parts }) ==> {
            &&& r matches Ok(
                UploadRequest::Complete { bucket_name: b, key: k, upload_id: i, parts: ps },
            )
            &&& b@ == bucket_name && k@ == key && i@ == upload_id
            &&& ps@.len() == parts.len()
            &&& forall|j: int|
                0 <= j < parts.len() ==> (#[trigger] ps@[j]).e_tag@ == parts[j].e_tag
                    && ps@[j].part_number == parts[j].part_number
        },
        due matches Ok(s3::RequestModel::Abort { bucket_name, key, upload_id }) ==> {
            &&& r matches Ok(UploadRequest::Abort { bucket_name: b, key: k, upload_id: i })
            &&& b@ == bucket_name && k@ == key && i@ == upload_id
        },
        due matches Err(error) ==> r->Err_0@ == error,
{
    if let Ok(s3::RequestModel::Complete { bucket_name, key, upload_id, parts }) = due {
        let ps = r->Ok_0->parts;
        assert forall|j: int| 0 <= j < parts.len() implies (#[trigger] ps@[j]).e_tag@
            == parts[j].e_tag && ps@[j].part_number == parts[j].part_number by {
            assert(parts[j] == s3::part_models(ps@)[j]);
        }
    }
}

/// An error says what happened to what.
pub proof fn law_errors_say_what_happened(e: S3Error)
    ensures
        e is BucketNotConfigured <==> e@ is BucketNotConfigured,
        e is MultipartNotStarted <==> e@ is MultipartNotStarted,
        e is MultipartAlreadyFinished <==> e@ is MultipartAlreadyFinished,
        e matches S3Error::MissingETag(n) ==> e@ == s3::S3ErrorModel::MissingETag(n as int),
        e matches S3Error::CreateMultipartUpload { path, source } ==> e@ == (
        s3::S3ErrorModel::CreateMultipartUpload { path: path@, source: source@ }),
        e matches S3Error::UploadPart { path, part_number, source } ==> e@ == (
        s3::S3ErrorModel::UploadPart {
            path: path@,
            part_number: part_number as int,
            source: source@,
        }),
        e matches S3Error::CompleteMultipartUpload { path, source } ==> e@ == (
        s3::S3ErrorModel::CompleteMultipartUpload { path: path@, source: source@ }),
        e matches S3Error::AbortMultipartUpload { path, source } ==> e@ == (
        s3::S3ErrorModel::AbortMultipartUpload { path: path@, source: source@ }),
        e matches S3Error::PutObject { path, source } ==> e@ == (s3::S3ErrorModel::PutObject {
            path: path@,
            source: source@,
        }),
        e matches S3Error::GetObject { path, source } ==> e@ == (s3::S3ErrorModel::GetObject {
            path: path@,
            source: source@,
        }),
        e matches S3Error::WriteDownload { path, source } ==> e@ == (
        s3::S3ErrorModel::WriteDownload { path: path@, source: source@ }),
{
}

/// A reply is taken as it comes: an id or a tag that is there, even an empty one, is not
/// missing.
pub proof fn law_replies_are_taken_as_they_come(
    reply: Result<Option<String>, String>,
    bare: Result<(), String>,
)
    ensures
        reply is Ok <==> s3::optional_reply(reply) is Ok,
        reply matches Ok(v) ==> (v is Some <==> s3::optional_reply(reply)->Ok_0 is Some),
        reply matches Ok(Some(v)) ==> s3::optional_reply(reply)->Ok_0->0 == v@,
        reply matches Err(e) ==> s3::optional_reply(reply)->Err_0 == e@,
        bare is Ok <==> s3::bare_reply(bare) is Ok,
        bare matches Err(e) ==> s3::bare_reply(bare)->Err_0 == e@,
{
}

/// There is an error to report exactly if the call failed, and it is that of the call.
pub proof fn law_failures_are_reported(r: Result<(), S3Error>)
    ensures
        r is Ok <==> s3::error_of(r) is None,
        r matches Err(e) ==> s3::error_of(r) == Some(e@),
{
}

/// What is said of an upload that is given up while it is in progress: its key, what is left
/// behind, and how to find it.
pub proof fn law_given_up_uploads_are_named(key: Seq<char>)
    ensures
        s3::drop_warning_text(key)
            == "S3ChunkedUploader dropped without calling finish() or abort() for key `"@ + key
            + "`. This leaves an incomplete multipart upload in S3 that will incur storage costs. Use `aws s3api list-multipart-uploads` to find and clean up orphaned uploads."@,
{
}

} // verus!
