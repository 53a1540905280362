use buck2_telemetry::log_upload::LogUploadClient;
use buck2_telemetry::s3::make_tags;
use buck2_telemetry::s3::Bucket;
use buck2_telemetry::s3::CompletedPart;
use buck2_telemetry::s3::DownloadStage;
use buck2_telemetry::s3::MultipartState;
use buck2_telemetry::s3::S3ChunkedUploader;
use buck2_telemetry::s3::S3Client;
use buck2_telemetry::s3::S3Error;
use buck2_telemetry::s3::Ttl;
use buck2_telemetry::s3::UploadRequest;
use buck2_telemetry::time::SystemTime;

fn owned(s: &str) -> String {
    s.to_owned()
}

fn client() -> S3Client {
    S3Client::with_bucket(owned("store"))
}

fn upload() -> S3ChunkedUploader {
    client().start_chunked_upload(Bucket::event_logs(), "a/b", Ttl::from_days(7))
}

/// Writes a chunk against a store that accepts everything.
fn write(up: &mut S3ChunkedUploader, len: usize, e_tag: &str) {
    if let UploadRequest::Create { .. } = up.write_impl(len).unwrap_or(UploadRequest::Nothing) {
        up.created(Ok(Some(owned("id")))).unwrap();
    }
    match up.write_impl(len) {
        Ok(UploadRequest::UploadPart { .. }) => up.uploaded(len, Ok(Some(owned(e_tag)))).unwrap(),
        _ => panic!("no part is due"),
    }
}

#[test]
fn test_days_to_secs() {
    assert_eq!(Ttl::from_days(1).as_secs(), 86400);
    assert_eq!(Ttl::from_days(3).as_secs(), 86400 * 3);
}

#[test]
fn test_make_key() {
    let key = format!("{}/{}", Bucket::event_logs().name, "test/path");
    assert_eq!(key, "buck2_logs/test/path");
    assert_eq!(client().make_key(Bucket::event_logs(), "test/path"), "buck2_logs/test/path");
}

#[test]
fn days_are_kept() {
    for days in [0, 1, 3, 164, 213_503_982_334_601] {
        assert_eq!(Ttl::from_days(days).as_days(), days);
    }
    assert_eq!(Ttl::from_secs(86_399).as_days(), 0);
    assert_eq!(Ttl::default().as_days(), 164);
    assert_eq!(Ttl::default().as_secs(), 164 * 86_400);
}

#[test]
fn buckets_have_names() {
    assert_eq!(Bucket::rage_dumps().name, "buck2_rage_dumps");
    assert_eq!(Bucket::re_logs().name, "buck2_re_logs");
    assert_eq!(Bucket::installer_logs().name, "buck2_installer_logs");
}

#[test]
fn tags_hold_the_days() {
    assert_eq!(make_tags(Ttl::from_days(7)), "managed-by=buck2&expiration-days=7");
    assert_eq!(client().make_tags(Ttl::from_secs(86_400 * 8 - 1)), "managed-by=buck2&expiration-days=7");
}

#[test]
fn metadata_says_when_an_object_expires() {
    let pair = |k: &str, v: &str| (owned(k), owned(v));
    let now = SystemTime::from_parts(1_000, 999_999_999);
    assert_eq!(
        client().make_metadata(Ttl::from_secs(50), now, Some(owned("host"))),
        vec![
            pair("expires-at", "1050"),
            pair("uploaded-by", "buck2"),
            pair("uploader-host", "host"),
        ],
    );
    assert_eq!(
        client().make_metadata(Ttl::from_secs(50), SystemTime::from_parts(-9, 0), None),
        vec![pair("expires-at", "50"), pair("uploaded-by", "buck2")],
    );
}

#[test]
fn whole_objects_are_stored_in_one_request() {
    let now = SystemTime::from_parts(10, 0);
    let put = client()
        .write(Bucket::re_logs(), "p", Ttl::from_days(2), now, None)
        .unwrap();
    assert_eq!(put.bucket_name, "store");
    assert_eq!(put.key, "buck2_re_logs/p");
    assert_eq!(put.tagging, "managed-by=buck2&expiration-days=2");
    assert_eq!(put.metadata[0], (owned("expires-at"), owned("172810")));
    assert_eq!(
        put.sent(Err(owned("down"))).unwrap_err().message(),
        "Failed to put object `buck2_re_logs/p`: down",
    );
    let put = client().write(Bucket::re_logs(), "p", Ttl::from_days(2), now, None).unwrap();
    assert_eq!(put.sent(Ok(())), Ok(()));

    let disabled = S3Client::new(None);
    assert!(disabled.write(Bucket::re_logs(), "p", Ttl::from_days(2), now, None).is_none());
}

#[test]
fn uploads_need_a_bucket() {
    assert!(S3Client::new(Some(owned("b"))).is_enabled());
    assert!(!S3Client::new(None).is_enabled());
    let mut up = S3Client::new(None).start_chunked_upload(Bucket::event_logs(), "p", Ttl::default());
    assert_eq!(up.state(), MultipartState::Disabled);
    assert!(matches!(up.write_impl(5), Ok(UploadRequest::Nothing)));
    assert!(matches!(up.finish_impl(), Ok(UploadRequest::Nothing)));
    assert!(matches!(up.finish_impl(), Ok(UploadRequest::Nothing)));
    assert!(matches!(up.abort(), UploadRequest::Nothing));
    assert_eq!(up.drop_warning(), None);
}

#[test]
fn the_first_chunk_starts_an_upload() {
    let mut up = upload();
    assert_eq!(up.state(), MultipartState::NotStarted);
    assert!(matches!(up.write_impl(0), Ok(UploadRequest::Nothing)));
    match up.write_impl(5) {
        Ok(UploadRequest::Create { bucket_name, key, tagging }) => {
            assert_eq!(bucket_name, "store");
            assert_eq!(key, "buck2_logs/a/b");
            assert_eq!(tagging, "managed-by=buck2&expiration-days=7");
        }
        _ => panic!("the upload is not started"),
    }
    up.created(Ok(Some(owned("id-1")))).unwrap();
    assert_eq!(up.state(), MultipartState::InProgress);
    match up.write_impl(5) {
        Ok(UploadRequest::UploadPart { bucket_name, key, upload_id, part_number }) => {
            assert_eq!(bucket_name, "store");
            assert_eq!(key, "buck2_logs/a/b");
            assert_eq!(upload_id, "id-1");
            assert_eq!(part_number, 1);
        }
        _ => panic!("the part is not uploaded"),
    }
    up.uploaded(5, Ok(Some(owned("tag")))).unwrap();
    assert_eq!(up.position(), 5);
    assert_eq!(up.part_number(), 2);
}

#[test]
fn completion_names_every_part() {
    let mut up = upload();
    write(&mut up, 5, "x");
    write(&mut up, 7, "y");
    assert_eq!(up.position(), 12);
    match up.finish_impl() {
        Ok(UploadRequest::Complete { bucket_name, key, upload_id, parts }) => {
            assert_eq!(bucket_name, "store");
            assert_eq!(key, "buck2_logs/a/b");
            assert_eq!(upload_id, "id");
            assert_eq!(
                parts,
                vec![
                    CompletedPart { e_tag: owned("x"), part_number: 1 },
                    CompletedPart { e_tag: owned("y"), part_number: 2 },
                ],
            );
        }
        _ => panic!("the upload is not completed"),
    }
    up.completed(Ok(())).unwrap();
    assert_eq!(up.state(), MultipartState::Finished);
    assert_eq!(up.drop_warning(), None);
}

#[test]
fn a_finished_upload_stays_finished() {
    let mut up = upload();
    write(&mut up, 5, "x");
    assert!(up.finish_impl().is_ok());
    up.completed(Ok(())).unwrap();
    assert_eq!(up.write_impl(1).err(), Some(S3Error::MultipartAlreadyFinished));
    assert_eq!(up.write_impl(0).err(), Some(S3Error::MultipartAlreadyFinished));
    assert_eq!(up.finish_impl().err(), Some(S3Error::MultipartAlreadyFinished));
    assert!(matches!(up.abort(), UploadRequest::Nothing));
}

#[test]
fn an_upload_without_chunks_sends_nothing() {
    let mut up = upload();
    assert!(matches!(up.finish_impl(), Ok(UploadRequest::Nothing)));
    assert_eq!(up.state(), MultipartState::Finished);
    assert_eq!(up.finish_impl().err(), Some(S3Error::MultipartAlreadyFinished));
}

#[test]
fn parts_of_a_failed_completion_are_gone() {
    let mut up = upload();
    write(&mut up, 5, "x");
    assert!(up.finish_impl().is_ok());
    assert_eq!(
        up.completed(Err(owned("down"))).unwrap_err().message(),
        "Failed to complete multipart upload for `buck2_logs/a/b`: down",
    );
    assert_eq!(up.state(), MultipartState::InProgress);
    match up.finish_impl() {
        Ok(UploadRequest::Complete { parts, .. }) => assert_eq!(parts, vec![]),
        _ => panic!("the upload is not completed"),
    }
}

#[test]
fn an_upload_can_be_aborted() {
    let mut up = upload();
    assert!(matches!(up.abort(), UploadRequest::Nothing));
    write(&mut up, 5, "x");
    match up.abort() {
        UploadRequest::Abort { bucket_name, key, upload_id } => {
            assert_eq!(bucket_name, "store");
            assert_eq!(key, "buck2_logs/a/b");
            assert_eq!(upload_id, "id");
        }
        _ => panic!("the upload is not aborted"),
    }
    assert_eq!(
        up.aborted(Err(owned("down"))).unwrap_err().message(),
        "Failed to abort multipart upload for `buck2_logs/a/b`: down",
    );
    assert_eq!(up.state(), MultipartState::InProgress);
    up.aborted(Ok(())).unwrap();
    assert_eq!(up.state(), MultipartState::Finished);
}

#[test]
fn an_upload_that_is_given_up_is_reported() {
    let mut up = upload();
    assert_eq!(up.drop_warning(), None);
    write(&mut up, 5, "x");
    assert_eq!(
        up.drop_warning().unwrap(),
        "S3ChunkedUploader dropped without calling finish() or abort() for key `buck2_logs/a/b`. \
         This leaves an incomplete multipart upload in S3 that will incur storage costs. \
         Use `aws s3api list-multipart-uploads` to find and clean up orphaned uploads.",
    );
}

#[test]
fn failed_requests_change_nothing() {
    let mut up = upload();
    assert_eq!(
        up.created(Err(owned("down"))).unwrap_err().message(),
        "Failed to create S3 multipart upload for `buck2_logs/a/b`: down",
    );
    assert_eq!(up.state(), MultipartState::NotStarted);
    // A store that gives no id leaves an upload that cannot go on.
    up.created(Ok(None)).unwrap();
    assert_eq!(up.state(), MultipartState::InProgress);
    assert_eq!(
        up.write_impl(5).err().unwrap().message(),
        "Multipart upload not started - call write() first",
    );
    assert_eq!(up.finish_impl().err(), Some(S3Error::MultipartNotStarted));
    assert!(matches!(up.abort(), UploadRequest::Nothing));

    let mut up = upload();
    write(&mut up, 5, "x");
    assert_eq!(
        up.uploaded(9, Err(owned("down"))).unwrap_err().message(),
        "Failed to upload part 2 for `buck2_logs/a/b`: down",
    );
    assert_eq!(
        up.uploaded(9, Ok(None)).unwrap_err().message(),
        "Missing ETag in upload part response for part 2",
    );
    assert_eq!(up.position(), 5);
    assert_eq!(up.part_number(), 2);
}

#[test]
fn errors_in_words() {
    assert_eq!(
        S3Error::BucketNotConfigured.message(),
        "S3 bucket name not configured (set BUCK2_LOG_BUCKET_NAME)",
    );
    assert_eq!(
        S3Error::MultipartAlreadyFinished.message(),
        "Multipart upload already completed or aborted",
    );
    assert_eq!(
        S3Error::MissingETag(i32::MIN).message(),
        "Missing ETag in upload part response for part -2147483648",
    );
}

#[test]
fn downloads_go_stage_by_stage() {
    assert_eq!(
        S3Client::new(None).download(Bucket::event_logs(), "p", "/tmp/x").err(),
        Some(S3Error::BucketNotConfigured),
    );
    let mut d = client().download(Bucket::event_logs(), "p", "/tmp/x").ok().unwrap();
    assert_eq!(d.bucket_name, "store");
    assert_eq!(d.key, "buck2_logs/p");
    assert_eq!(
        d.advance(Err(owned("gone"))).unwrap_err().message(),
        "Failed to get object `buck2_logs/p`: gone",
    );
    for stage in [DownloadStage::Create, DownloadStage::Copy, DownloadStage::Flush] {
        d.advance(Ok(())).unwrap();
        assert_eq!(d.stage, stage);
        assert_eq!(
            d.advance(Err(owned("full"))).unwrap_err().message(),
            "Failed to write downloaded object to `/tmp/x`: full",
        );
        assert_eq!(d.stage, stage);
    }
    d.advance(Ok(())).unwrap();
    assert_eq!(d.stage, DownloadStage::Done);
}

#[test]
fn log_uploads_go_to_the_store() {
    let client = LogUploadClient::new(Some(owned("store")));
    assert!(client.is_enabled());
    assert!(!LogUploadClient::new(None).is_enabled());
    let up = client.start_chunked_upload(Bucket::installer_logs(), "x", Ttl::from_days(9));
    match up.write_impl(1) {
        Ok(UploadRequest::Create { key, tagging, .. }) => {
            assert_eq!(key, "buck2_installer_logs/x");
            assert_eq!(tagging, "managed-by=buck2&expiration-days=9");
        }
        _ => panic!("the upload is not started"),
    }
}
