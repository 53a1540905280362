//! Uploading logs, whatever stores them.

use vstd::prelude::*;

use crate::s3;
use crate::s3::Bucket;
use crate::s3::S3ChunkedUploader;
use crate::s3::S3Client;
use crate::s3::Ttl;
use crate::text;

verus! {

/// Access to the store for logs. Without the name of a bucket, uploads are skipped.
pub struct LogUploadClient {
    inner: S3Client,
}

impl View for LogUploadClient {
    type V = Option<Seq<char>>;

    /// The name of the bucket.
    closed spec fn view(&self) -> Option<Seq<char>> {
        self.inner@
    }
}

impl LogUploadClient {
    /// Access to the bucket that was configured, if one was.
    pub fn new(bucket_name: Option<String>) -> (client: LogUploadClient)
        ensures
            client@ == text::optional_view(bucket_name),
    {
        LogUploadClient { inner: S3Client::new(bucket_name) }
    }

    /// Whether anything is uploaded.
    pub fn is_enabled(&self) -> (b: bool)
        ensures
            b == (self@ is Some),
    {
        self.inner.is_enabled()
    }

    /// An upload in parts. The object is kept for the whole seconds of `ttl`.
    pub fn start_chunked_upload(&self, bucket: Bucket, path: &str, ttl: Ttl) -> (up:
        S3ChunkedUploader)
        ensures
            up.well_formed(),
            up@ == s3::UploadModel::initial(
                self@,
                s3::key(bucket, path@),
                ttl@ / 1_000_000_000 * 1_000_000_000,
            ),
    {
        let kept: Ttl = Ttl::from_secs(ttl.as_secs());
        self.inner.start_chunked_upload(bucket, path, kept)
    }
}

} // verus!
