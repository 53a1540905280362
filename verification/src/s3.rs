//! Storing build logs in S3: what is sent, and what the replies mean.
//!
//! The requests are sent elsewhere. Here each operation says which request is due,
//! takes the reply, and moves on. Without the name of a bucket, nothing is sent.

use vstd::prelude::*;

use crate::text;
use crate::text::push_decimal;
use crate::time::Duration;
use crate::time::SystemTime;

verus! {

/// How long an object is kept.
#[derive(Copy, Clone, Debug, PartialEq, Eq)]
pub struct Ttl {
    duration: Duration,
}

impl View for Ttl {
    type V = nat;

    /// The time in nanoseconds.
    closed spec fn view(&self) -> nat {
        self.duration@
    }
}

impl Ttl {
    pub fn from_secs(ttl: u64) -> (t: Ttl)
        ensures
            t@ == ttl * 1_000_000_000,
    {
        Ttl { duration: Duration::from_secs(ttl) }
    }

    pub fn from_days(days: u64) -> (t: Ttl)
        requires
            days * 86_400 <= u64::MAX,
        ensures
            t@ == days * 86_400 * 1_000_000_000,
    {
        let secs: u64 = days * 24 * 60 * 60;
        Ttl { duration: Duration::from_secs(secs) }
    }

    /// The whole seconds.
    pub fn as_secs(&self) -> (secs: u64)
        ensures
            secs == self@ / 1_000_000_000,
    {
        self.duration.as_secs()
    }

    /// The whole days.
    pub fn as_days(&self) -> (days: u64)
        ensures
            days == self@ / 1_000_000_000 / 86_400,
    {
        self.duration.as_secs() / 86_400
    }
}

impl Default for Ttl {
    /// 164 days.
    fn default() -> (t: Ttl)
        ensures
            t@ == 164 * 86_400 * 1_000_000_000,
    {
        Ttl::from_secs(164 * 86_400)
    }
}

/// A number of days is kept as such.
pub proof fn law_days_are_kept(days: nat)
    ensures
        days * 86_400 * 1_000_000_000 / 1_000_000_000 / 86_400 == days,
{
}

/// A group of objects. Its name is the first part of their keys.
#[derive(Copy, Clone, Debug)]
pub struct Bucket {
    pub name: &'static str,
}

impl Bucket {
    pub fn event_logs() -> (bucket: Bucket)
        ensures
            bucket.name@ == "buck2_logs"@,
    {
        Bucket { name: "buck2_logs" }
    }

    pub fn rage_dumps() -> (bucket: Bucket)
        ensures
            bucket.name@ == "buck2_rage_dumps"@,
    {
        Bucket { name: "buck2_rage_dumps" }
    }

    pub fn re_logs() -> (bucket: Bucket)
        ensures
            bucket.name@ == "buck2_re_logs"@,
    {
        Bucket { name: "buck2_re_logs" }
    }

    pub fn installer_logs() -> (bucket: Bucket)
        ensures
            bucket.name@ == "buck2_installer_logs"@,
    {
        Bucket { name: "buck2_installer_logs" }
    }
}

/// Why logs could not be stored or fetched.
#[derive(Clone, Debug, PartialEq, Eq)]
pub enum S3Error {
    BucketNotConfigured,
    CreateMultipartUpload { path: String, source: String },
    UploadPart { path: String, part_number: i32, source: String },
    CompleteMultipartUpload { path: String, source: String },
    AbortMultipartUpload { path: String, source: String },
    PutObject { path: String, source: String },
    GetObject { path: String, source: String },
    WriteDownload { path: String, source: String },
    MultipartNotStarted,
    MultipartAlreadyFinished,
    MissingETag(i32),
}

/// What an [`S3Error`] says.
pub enum S3ErrorModel {
    BucketNotConfigured,
    CreateMultipartUpload { path: Seq<char>, source: Seq<char> },
    UploadPart { path: Seq<char>, part_number: int, source: Seq<char> },
    CompleteMultipartUpload { path: Seq<char>, source: Seq<char> },
    AbortMultipartUpload { path: Seq<char>, source: Seq<char> },
    PutObject { path: Seq<char>, source: Seq<char> },
    GetObject { path: Seq<char>, source: Seq<char> },
    WriteDownload { path: Seq<char>, source: Seq<char> },
    MultipartNotStarted,
    MultipartAlreadyFinished,
    MissingETag(int),
}

impl View for S3Error {
    type V = S3ErrorModel;

    open spec fn view(&self) -> S3ErrorModel {
        match self {
            S3Error::BucketNotConfigured => S3ErrorModel::BucketNotConfigured,
            S3Error::CreateMultipartUpload { path, source } =>
                S3ErrorModel::CreateMultipartUpload { path: path@, source: source@ },
            S3Error::UploadPart { path, part_number, source } => S3ErrorModel::UploadPart {
                path: path@,
                part_number: *part_number as int,
                source: source@,
            },
            S3Error::CompleteMultipartUpload { path, source } =>
                S3ErrorModel::CompleteMultipartUpload { path: path@, source: source@ },
            S3Error::AbortMultipartUpload { path, source } =>
                S3ErrorModel::AbortMultipartUpload { path: path@, source: source@ },
            S3Error::PutObject { path, source } => S3ErrorModel::PutObject {
                path: path@,
                source: source@,
            },
            S3Error::GetObject { path, source } => S3ErrorModel::GetObject {
                path: path@,
                source: source@,
            },
            S3Error::WriteDownload { path, source } => S3ErrorModel::WriteDownload {
                path: path@,
                source: source@,
            },
            S3Error::MultipartNotStarted => S3ErrorModel::MultipartNotStarted,
            S3Error::MultipartAlreadyFinished => S3ErrorModel::MultipartAlreadyFinished,
            S3Error::MissingETag(part_number) => S3ErrorModel::MissingETag(*part_number as int),
        }
    }
}

/// A number in decimal form, with a sign in front if it is negative.
pub open spec fn signed_decimal(n: int) -> Seq<char> {
    if n < 0 {
        "-"@ + text::decimal((-n) as nat)
    } else {
        text::decimal(n as nat)
    }
}

/// Appends a number in decimal form.
fn push_signed(out: &mut String, n: i32)
    ensures
        final(out)@ == old(out)@ + signed_decimal(n as int),
{
    if n < 0 {
        let ghost start = out@;
        out.append("-");
        push_decimal(out, (-(n as i64)) as u128);
        assert(out@ =~= start + signed_decimal(n as int));
    } else {
        push_decimal(out, n as u128);
    }
}

impl S3ErrorModel {
    pub open spec fn text(self) -> Seq<char> {
        match self {
            S3ErrorModel::BucketNotConfigured =>
                "S3 bucket name not configured (set BUCK2_LOG_BUCKET_NAME)"@,
            S3ErrorModel::CreateMultipartUpload { path, source } =>
                "Failed to create S3 multipart upload for `"@ + path + "`: "@ + source,
            S3ErrorModel::UploadPart { path, part_number, source } => "Failed to upload part "@
                + signed_decimal(part_number) + " for `"@ + path + "`: "@ + source,
            S3ErrorModel::CompleteMultipartUpload { path, source } =>
                "Failed to complete multipart upload for `"@ + path + "`: "@ + source,
            S3ErrorModel::AbortMultipartUpload { path, source } =>
                "Failed to abort multipart upload for `"@ + path + "`: "@ + source,
            S3ErrorModel::PutObject { path, source } => "Failed to put object `"@ + path + "`: "@
                + source,
            S3ErrorModel::GetObject { path, source } => "Failed to get object `"@ + path + "`: "@
                + source,
            S3ErrorModel::WriteDownload { path, source } =>
                "Failed to write downloaded object to `"@ + path + "`: "@ + source,
            S3ErrorModel::MultipartNotStarted =>
                "Multipart upload not started - call write() first"@,
            S3ErrorModel::MultipartAlreadyFinished =>
                "Multipart upload already completed or aborted"@,
            S3ErrorModel::MissingETag(part_number) =>
                "Missing ETag in upload part response for part "@ + signed_decimal(part_number),
        }
    }
}

/// `what`, the path in backquotes, and the source behind a colon.
fn failure(what: &str, path: &String, source: &String) -> (out: String)
    ensures
        out@ == what@ + path@ + "`: "@ + source@,
{
    let mut out: String = what.to_owned();
    out.append(path.as_str());
    out.append("`: ");
    out.append(source.as_str());
    out
}

impl S3Error {
    /// The error in words.
    pub fn message(&self) -> (out: String)
        ensures
            out@ == self@.text(),
    {
        match self {
            S3Error::BucketNotConfigured =>
                "S3 bucket name not configured (set BUCK2_LOG_BUCKET_NAME)".to_owned(),
            S3Error::CreateMultipartUpload { path, source } => failure(
                "Failed to create S3 multipart upload for `",
                path,
                source,
            ),
            S3Error::UploadPart { path, part_number, source } => {
                let mut out: String = "Failed to upload part ".to_owned();
                push_signed(&mut out, *part_number);
                out.append(" for `");
                out.append(path.as_str());
                out.append("`: ");
                out.append(source.as_str());
                out
            },
            S3Error::CompleteMultipartUpload { path, source } => failure(
                "Failed to complete multipart upload for `",
                path,
                source,
            ),
            S3Error::AbortMultipartUpload { path, source } => failure(
                "Failed to abort multipart upload for `",
                path,
                source,
            ),
            S3Error::PutObject { path, source } => failure(
                "Failed to put object `",
                path,
                source,
            ),
            S3Error::GetObject { path, source } => failure(
                "Failed to get object `",
                path,
                source,
            ),
            S3Error::WriteDownload { path, source } => failure(
                "Failed to write downloaded object to `",
                path,
                source,
            ),
            S3Error::MultipartNotStarted =>
                "Multipart upload not started - call write() first".to_owned(),
            S3Error::MultipartAlreadyFinished =>
                "Multipart upload already completed or aborted".to_owned(),
            S3Error::MissingETag(part_number) => {
                let mut out: String =
                    "Missing ETag in upload part response for part ".to_owned();
                push_signed(&mut out, *part_number);
                out
            },
        }
    }
}

/// Why something failed, if it did.
pub open spec fn error_of<T>(r: Result<T, S3Error>) -> Option<S3ErrorModel> {
    match r {
        Ok(_) => None,
        Err(e) => Some(e@),
    }
}

/// The key of an object.
pub open spec fn key(bucket: Bucket, path: Seq<char>) -> Seq<char> {
    bucket.name@ + "/"@ + path
}

/// The tags by which the store knows when an object expires, which is kept for `ttl`
/// nanoseconds.
pub open spec fn tags(ttl: nat) -> Seq<char> {
    "managed-by=buck2&expiration-days="@ + text::decimal(ttl / 1_000_000_000 / 86_400)
}

/// The tags by which the store knows when an object expires.
pub fn make_tags(ttl: Ttl) -> (out: String)
    ensures
        out@ == tags(ttl@),
{
    let mut out: String = "managed-by=buck2&expiration-days=".to_owned();
    push_decimal(&mut out, ttl.as_days() as u128);
    out
}

/// Whole seconds since the Unix epoch, zero before it.
pub open spec fn unix_secs(t: int) -> nat {
    if t < 0 {
        0
    } else {
        (t / 1_000_000_000) as nat
    }
}

/// When an object that is stored now expires, in seconds since the Unix epoch.
pub open spec fn expires_at(ttl: nat, now: int) -> nat {
    unix_secs(now) + ttl / 1_000_000_000
}

/// The metadata of an object.
pub open spec fn metadata(ttl: nat, now: int, hostname: Option<Seq<char>>) -> Map<
    Seq<char>,
    Seq<char>,
> {
    let base = map![
        "expires-at"@ => text::decimal(expires_at(ttl, now)),
        "uploaded-by"@ => "buck2"@,
    ];
    match hostname {
        Some(host) => base.insert("uploader-host"@, host),
        None => base,
    }
}

/// The pairs as a map; of two pairs with one key the later one counts.
pub open spec fn pairs_map(pairs: Seq<(String, String)>) -> Map<Seq<char>, Seq<char>>
    decreases pairs.len(),
{
    if pairs.len() == 0 {
        Map::empty()
    } else {
        pairs_map(pairs.drop_last()).insert(pairs.last().0@, pairs.last().1@)
    }
}

/// One object that is to be stored.
pub struct PutObject {
    pub bucket_name: String,
    pub key: String,
    pub tagging: String,
    pub metadata: Vec<(String, String)>,
}

impl PutObject {
    /// What the reply means.
    pub fn sent(self, reply: Result<(), String>) -> (r: Result<(), S3Error>)
        ensures
            error_of(r) == match reply {
                Ok(()) => None,
                Err(source) => Some(
                    S3ErrorModel::PutObject { path: self.key@, source: source@ },
                ),
            },
    {
        match reply {
            Ok(()) => Ok(()),
            Err(source) => Err(S3Error::PutObject { path: self.key, source }),
        }
    }
}

/// Access to the store. Without the name of a bucket, uploads are skipped.
pub struct S3Client {
    bucket_name: Option<String>,
}

impl View for S3Client {
    type V = Option<Seq<char>>;

    /// The name of the bucket.
    closed spec fn view(&self) -> Option<Seq<char>> {
        text::optional_view(self.bucket_name)
    }
}

impl S3Client {
    /// Access to the bucket that was configured, if one was.
    pub fn new(bucket_name: Option<String>) -> (client: S3Client)
        ensures
            client@ == text::optional_view(bucket_name),
    {
        S3Client { bucket_name }
    }

    /// Access to a given bucket.
    pub fn with_bucket(bucket_name: String) -> (client: S3Client)
        ensures
            client@ == Some(bucket_name@),
    {
        S3Client { bucket_name: Some(bucket_name) }
    }

    /// Whether anything is uploaded.
    pub fn is_enabled(&self) -> (b: bool)
        ensures
            b == (self@ is Some),
    {
        self.bucket_name.is_some()
    }

    fn bucket(&self) -> (name: Option<&str>)
        ensures
            name is Some <==> self@ is Some,
            name matches Some(n) ==> Some(n@) == self@,
    {
        match &self.bucket_name {
            Some(name) => Some(name.as_str()),
            None => None,
        }
    }

    /// The key of an object.
    pub fn make_key(&self, bucket: Bucket, path: &str) -> (out: String)
        ensures
            out@ == key(bucket, path@),
    {
        let mut out: String = bucket.name.to_owned();
        out.append("/");
        out.append(path);
        out
    }

    /// The tags of an object.
    pub fn make_tags(&self, ttl: Ttl) -> (out: String)
        ensures
            out@ == tags(ttl@),
    {
        make_tags(ttl)
    }

    /// The metadata of an object that is stored now, from the given host if its name
    /// is known.
    pub fn make_metadata(&self, ttl: Ttl, now: SystemTime, hostname: Option<String>) -> (pairs: Vec<
        (String, String),
    >)
        requires
            expires_at(ttl@, now@) <= u64::MAX,
        ensures
            pairs_map(pairs@) == metadata(ttl@, now@, text::optional_view(hostname)),
            pairs@.len() == metadata(ttl@, now@, text::optional_view(hostname)).dom().len(),
    {
        let now_secs: u64 = match now.duration_since(SystemTime::unix_epoch()) {
            Some(d) => d.as_secs(),
            None => 0,
        };
        let expires: u64 = now_secs + ttl.as_secs();
        let mut value = String::new();
        push_decimal(&mut value, expires as u128);
        assert(value@ =~= text::decimal(expires_at(ttl@, now@)));
        let mut pairs: Vec<(String, String)> = Vec::new();
        pairs.push(("expires-at".to_owned(), value));
        pairs.push(("uploaded-by".to_owned(), "buck2".to_owned()));
        let ghost two = pairs@;
        proof {
            reveal_strlit("expires-at");
            reveal_strlit("uploaded-by");
            reveal_strlit("uploader-host");
            reveal_with_fuel(pairs_map, 3);
            assert(two.drop_last().drop_last() =~= Seq::<(String, String)>::empty());
            assert("expires-at"@.len() != "uploaded-by"@.len());
            assert("expires-at"@.len() != "uploader-host"@.len());
            assert("uploaded-by"@.len() != "uploader-host"@.len());
            assert(pairs_map(two) =~= metadata(ttl@, now@, None));
            assert(metadata(ttl@, now@, None).dom() =~= Set::empty().insert(
                "expires-at"@,
            ).insert("uploaded-by"@));
        }
        if let Some(host) = hostname {
            let ghost name = host@;
            pairs.push(("uploader-host".to_owned(), host));
            proof {
                assert(pairs@.drop_last() =~= two);
                assert(metadata(ttl@, now@, Some(name)).dom() =~= metadata(
                    ttl@,
                    now@,
                    None,
                ).dom().insert("uploader-host"@));
            }
        }
        pairs
    }

    /// The request that stores a whole object, unless uploads are skipped.
    pub fn write(
        &self,
        bucket: Bucket,
        path: &str,
        ttl: Ttl,
        now: SystemTime,
        hostname: Option<String>,
    ) -> (request: Option<PutObject>)
        requires
            self@ is Some ==> expires_at(ttl@, now@) <= u64::MAX,
        ensures
            request is Some <==> self@ is Some,
            request matches Some(put) ==> {
                &&& Some(put.bucket_name@) == self@
                &&& put.key@ == key(bucket, path@)
                &&& put.tagging@ == tags(ttl@)
                &&& pairs_map(put.metadata@) == metadata(
                    ttl@,
                    now@,
                    text::optional_view(hostname),
                )
            },
    {
        match self.bucket() {
            None => None,
            Some(name) => Some(
                PutObject {
                    bucket_name: name.to_owned(),
                    key: self.make_key(bucket, path),
                    tagging: self.make_tags(ttl),
                    metadata: self.make_metadata(ttl, now, hostname),
                },
            ),
        }
    }

    /// An upload in parts. Nothing is sent before the first part.
    pub fn start_chunked_upload(&self, bucket: Bucket, path: &str, ttl: Ttl) -> (up:
        S3ChunkedUploader)
        ensures
            up.well_formed(),
            up@ == UploadModel::initial(self@, key(bucket, path@), ttl@),
    {
        match self.bucket() {
            None => S3ChunkedUploader {
                bucket_name: None,
                key: String::new(),
                upload_id: None,
                parts: Vec::new(),
                part_number: 1,
                position: 0,
                ttl,
                state: MultipartState::Disabled,
            },
            Some(name) => S3ChunkedUploader {
                bucket_name: Some(name.to_owned()),
                key: self.make_key(bucket, path),
                upload_id: None,
                parts: Vec::new(),
                part_number: 1,
                position: 0,
                ttl,
                state: MultipartState::NotStarted,
            },
        }
    }

    /// The download of an object to a local file.
    pub fn download(&self, bucket: Bucket, path: &str, local_path: &str) -> (r: Result<
        Download,
        S3Error,
    >)
        ensures
            r is Ok <==> self@ is Some,
            r matches Ok(d) ==> Some(d.bucket_name@) == self@ && d.key@ == key(bucket, path@)
                && d.local_path@ == local_path@ && d.stage is Get,
            r matches Err(e) ==> e@ is BucketNotConfigured,
    {
        match self.bucket() {
            None => Err(S3Error::BucketNotConfigured),
            Some(name) => Ok(
                Download {
                    bucket_name: name.to_owned(),
                    key: self.make_key(bucket, path),
                    local_path: local_path.to_owned(),
                    stage: DownloadStage::Get,
                },
            ),
        }
    }
}

/// What a download does next.
#[derive(Copy, Clone, Debug, PartialEq, Eq)]
pub enum DownloadStage {
    /// Ask for the object.
    Get,
    /// Create the local file.
    Create,
    /// Copy the object to the file.
    Copy,
    /// Flush the file.
    Flush,
    Done,
}

/// The download of an object.
pub struct Download {
    pub bucket_name: String,
    pub key: String,
    pub local_path: String,
    pub stage: DownloadStage,
}

/// The stage after a stage that succeeded.
pub open spec fn next_stage(stage: DownloadStage) -> DownloadStage {
    match stage {
        DownloadStage::Get => DownloadStage::Create,
        DownloadStage::Create => DownloadStage::Copy,
        DownloadStage::Copy => DownloadStage::Flush,
        DownloadStage::Flush => DownloadStage::Done,
        DownloadStage::Done => DownloadStage::Done,
    }
}

impl Download {
    /// Takes the outcome of the stage that was due.
    pub fn advance(&mut self, outcome: Result<(), String>) -> (r: Result<(), S3Error>)
        requires
            !(old(self).stage is Done),
        ensures
            final(self).bucket_name == old(self).bucket_name,
            final(self).key == old(self).key,
            final(self).local_path == old(self).local_path,
            match outcome {
                Ok(()) => final(self).stage == next_stage(old(self).stage) && r is Ok,
                Err(source) => final(self).stage == old(self).stage && error_of(r) == Some(
                    if old(self).stage is Get {
                        S3ErrorModel::GetObject { path: old(self).key@, source: source@ }
                    } else {
                        S3ErrorModel::WriteDownload {
                            path: old(self).local_path@,
                            source: source@,
                        }
                    },
                ),
            },
    {
        match outcome {
            Ok(()) => {
                self.stage = match self.stage {
                    DownloadStage::Get => DownloadStage::Create,
                    DownloadStage::Create => DownloadStage::Copy,
                    DownloadStage::Copy => DownloadStage::Flush,
                    _ => DownloadStage::Done,
                };
                Ok(())
            },
            Err(source) => match self.stage {
                DownloadStage::Get => Err(
                    S3Error::GetObject { path: self.key.clone(), source },
                ),
                _ => Err(
                    S3Error::WriteDownload { path: self.local_path.clone(), source },
                ),
            },
        }
    }
}

/// How far an upload in parts has come.
#[derive(Copy, Clone, Debug, PartialEq, Eq)]
pub enum MultipartState {
    /// Uploads are skipped.
    Disabled,
    NotStarted,
    InProgress,
    /// Completed or aborted.
    Finished,
}

/// A part that has been uploaded.
#[derive(Clone, Debug, PartialEq, Eq)]
pub struct CompletedPart {
    pub e_tag: String,
    pub part_number: i32,
}

/// What a [`CompletedPart`] says.
pub struct PartModel {
    pub e_tag: Seq<char>,
    pub part_number: int,
}

impl View for CompletedPart {
    type V = PartModel;

    open spec fn view(&self) -> PartModel {
        PartModel { e_tag: self.e_tag@, part_number: self.part_number as int }
    }
}

/// What the parts say.
pub open spec fn part_models(parts: Seq<CompletedPart>) -> Seq<PartModel> {
    parts.map_values(|p: CompletedPart| p@)
}

/// An upload in parts. It has to be finished or aborted; otherwise its parts stay in
/// the store.
pub struct S3ChunkedUploader {
    bucket_name: Option<String>,
    key: String,
    upload_id: Option<String>,
    parts: Vec<CompletedPart>,
    part_number: i32,
    position: u64,
    ttl: Ttl,
    state: MultipartState,
}

/// What an upload in parts holds.
#[verifier::ext_equal]
pub struct UploadModel {
    pub bucket_name: Option<Seq<char>>,
    pub key: Seq<char>,
    pub upload_id: Option<Seq<char>>,
    pub parts: Seq<PartModel>,
    /// The number of the next part.
    pub part_number: int,
    /// The bytes uploaded so far.
    pub position: nat,
    /// How long the object is kept, in nanoseconds.
    pub ttl: nat,
    pub state: MultipartState,
}

impl View for S3ChunkedUploader {
    type V = UploadModel;

    closed spec fn view(&self) -> UploadModel {
        UploadModel {
            bucket_name: text::optional_view(self.bucket_name),
            key: self.key@,
            upload_id: text::optional_view(self.upload_id),
            parts: part_models(self.parts@),
            part_number: self.part_number as int,
            position: self.position as nat,
            ttl: self.ttl@,
            state: self.state,
        }
    }
}

/// The request that an upload makes next.
pub enum UploadRequest {
    /// Nothing is to be sent.
    Nothing,
    Create { bucket_name: String, key: String, tagging: String },
    UploadPart { bucket_name: String, key: String, upload_id: String, part_number: i32 },
    Complete { bucket_name: String, key: String, upload_id: String, parts: Vec<CompletedPart> },
    Abort { bucket_name: String, key: String, upload_id: String },
}

/// What an [`UploadRequest`] says.
pub enum RequestModel {
    Nothing,
    Create { bucket_name: Seq<char>, key: Seq<char>, tagging: Seq<char> },
    UploadPart {
        bucket_name: Seq<char>,
        key: Seq<char>,
        upload_id: Seq<char>,
        part_number: int,
    },
    Complete {
        bucket_name: Seq<char>,
        key: Seq<char>,
        upload_id: Seq<char>,
        parts: Seq<PartModel>,
    },
    Abort { bucket_name: Seq<char>, key: Seq<char>, upload_id: Seq<char> },
}

impl View for UploadRequest {
    type V = RequestModel;

    open spec fn view(&self) -> RequestModel {
        match self {
            UploadRequest::Nothing => RequestModel::Nothing,
            UploadRequest::Create { bucket_name, key, tagging } => RequestModel::Create {
                bucket_name: bucket_name@,
                key: key@,
                tagging: tagging@,
            },
            UploadRequest::UploadPart { bucket_name, key, upload_id, part_number } =>
                RequestModel::UploadPart {
                bucket_name: bucket_name@,
                key: key@,
                upload_id: upload_id@,
                part_number: *part_number as int,
            },
            UploadRequest::Complete { bucket_name, key, upload_id, parts } =>
                RequestModel::Complete {
                bucket_name: bucket_name@,
                key: key@,
                upload_id: upload_id@,
                parts: part_models(parts@),
            },
            UploadRequest::Abort { bucket_name, key, upload_id } => RequestModel::Abort {
                bucket_name: bucket_name@,
                key: key@,
                upload_id: upload_id@,
            },
        }
    }
}

/// Whether `r` is the given request, or fails as given.
pub open spec fn asks(
    r: Result<UploadRequest, S3Error>,
    due: Result<RequestModel, S3ErrorModel>,
) -> bool {
    match due {
        Ok(request) => r matches Ok(q) && q@ == request,
        Err(error) => r matches Err(e) && e@ == error,
    }
}

impl UploadModel {
    /// An upload that has not started, or that is skipped.
    pub open spec fn initial(bucket_name: Option<Seq<char>>, key: Seq<char>, ttl: nat) -> UploadModel {
        UploadModel {
            bucket_name,
            key: if bucket_name is Some {
                key
            } else {
                seq![]
            },
            upload_id: None,
            parts: seq![],
            part_number: 1,
            position: 0,
            ttl,
            state: if bucket_name is Some {
                MultipartState::NotStarted
            } else {
                MultipartState::Disabled
            },
        }
    }

    /// Uploads are skipped where there is no bucket, and only there; the parts bear
    /// consecutive numbers up to that of the next one; an upload that has not started
    /// has neither parts nor an id.
    pub open spec fn consistent(self) -> bool {
        &&& self.bucket_name is None <==> self.state is Disabled
        &&& self.part_number >= 1 + self.parts.len()
        &&& forall|i: int|
            0 <= i < self.parts.len() ==> (#[trigger] self.parts[i]).part_number
                == self.part_number - self.parts.len() + i
        &&& self.state is NotStarted || self.state is Disabled ==> self.parts.len() == 0
            && self.upload_id is None && self.part_number == 1 && self.position == 0
    }

    /// The request that is due when a chunk of `len` bytes is to be written.
    pub open spec fn write_due(self, len: nat) -> Result<RequestModel, S3ErrorModel> {
        match self.bucket_name {
            None => Ok(RequestModel::Nothing),
            Some(bucket_name) => if self.state is Finished {
                Err(S3ErrorModel::MultipartAlreadyFinished)
            } else if len == 0 {
                Ok(RequestModel::Nothing)
            } else if self.state is NotStarted {
                Ok(RequestModel::Create { bucket_name, key: self.key, tagging: tags(self.ttl) })
            } else {
                match self.upload_id {
                    None => Err(S3ErrorModel::MultipartNotStarted),
                    Some(upload_id) => Ok(
                        RequestModel::UploadPart {
                            bucket_name,
                            key: self.key,
                            upload_id,
                            part_number: self.part_number,
                        },
                    ),
                }
            },
        }
    }

    /// After the reply to the request that starts the upload.
    pub open spec fn created(self, reply: Result<Option<Seq<char>>, Seq<char>>) -> (
        UploadModel,
        Option<S3ErrorModel>,
    ) {
        match reply {
            Ok(upload_id) => (
                UploadModel { upload_id, state: MultipartState::InProgress, ..self },
                None,
            ),
            Err(source) => (
                self,
                Some(S3ErrorModel::CreateMultipartUpload { path: self.key, source }),
            ),
        }
    }

    /// After the reply to the upload of a part of `len` bytes.
    pub open spec fn uploaded(self, len: nat, reply: Result<Option<Seq<char>>, Seq<char>>) -> (
        UploadModel,
        Option<S3ErrorModel>,
    ) {
        match reply {
            Ok(Some(e_tag)) => (
                UploadModel {
                    parts: self.parts.push(PartModel { e_tag, part_number: self.part_number }),
                    part_number: self.part_number + 1,
                    position: self.position + len,
                    ..self
                },
                None,
            ),
            Ok(None) => (self, Some(S3ErrorModel::MissingETag(self.part_number))),
            Err(source) => (
                self,
                Some(
                    S3ErrorModel::UploadPart {
                        path: self.key,
                        part_number: self.part_number,
                        source,
                    },
                ),
            ),
        }
    }

    /// The request that is due when the upload is to be finished, and what is left.
    /// The parts go into the request.
    pub open spec fn finish_due(self) -> (UploadModel, Result<RequestModel, S3ErrorModel>) {
        match self.bucket_name {
            None => (self, Ok(RequestModel::Nothing)),
            Some(bucket_name) => match self.state {
                MultipartState::Disabled => (self, Ok(RequestModel::Nothing)),
                MultipartState::NotStarted => (
                    UploadModel { state: MultipartState::Finished, ..self },
                    Ok(RequestModel::Nothing),
                ),
                MultipartState::Finished => (
                    self,
                    Err(S3ErrorModel::MultipartAlreadyFinished),
                ),
                MultipartState::InProgress => match self.upload_id {
                    None => (self, Err(S3ErrorModel::MultipartNotStarted)),
                    Some(upload_id) => (
                        UploadModel { parts: seq![], ..self },
                        Ok(
                            RequestModel::Complete {
                                bucket_name,
                                key: self.key,
                                upload_id,
                                parts: self.parts,
                            },
                        ),
                    ),
                },
            },
        }
    }

    /// After the reply to the request that completes the upload.
    pub open spec fn completed(self, reply: Result<(), Seq<char>>) -> (
        UploadModel,
        Option<S3ErrorModel>,
    ) {
        match reply {
            Ok(()) => (UploadModel { state: MultipartState::Finished, ..self }, None),
            Err(source) => (
                self,
                Some(S3ErrorModel::CompleteMultipartUpload { path: self.key, source }),
            ),
        }
    }

    /// The request that is due when the upload is to be aborted.
    pub open spec fn abort_due(self) -> RequestModel {
        match (self.bucket_name, self.upload_id) {
            (Some(bucket_name), Some(upload_id)) if self.state is InProgress =>
                RequestModel::Abort { bucket_name, key: self.key, upload_id },
            _ => RequestModel::Nothing,
        }
    }

    /// After the reply to the request that aborts the upload.
    pub open spec fn aborted(self, reply: Result<(), Seq<char>>) -> (
        UploadModel,
        Option<S3ErrorModel>,
    ) {
        match reply {
            Ok(()) => (UploadModel { state: MultipartState::Finished, ..self }, None),
            Err(source) => (
                self,
                Some(S3ErrorModel::AbortMultipartUpload { path: self.key, source }),
            ),
        }
    }
}

/// What a reply says.
pub open spec fn optional_reply(reply: Result<Option<String>, String>) -> Result<
    Option<Seq<char>>,
    Seq<char>,
> {
    match reply {
        Ok(v) => Ok(text::optional_view(v)),
        Err(e) => Err(e@),
    }
}

/// What a reply without contents says.
pub open spec fn bare_reply(reply: Result<(), String>) -> Result<(), Seq<char>> {
    match reply {
        Ok(()) => Ok(()),
        Err(e) => Err(e@),
    }
}

impl S3ChunkedUploader {
    pub open spec fn well_formed(self) -> bool {
        self@.consistent()
    }

    /// The request that is due when a chunk of `len` bytes is to be written. The reply
    /// to a request that starts the upload goes to `created`; the chunk is then still to
    /// be written. The reply to the upload of a part goes to `uploaded`.
    pub fn write_impl(&self, len: usize) -> (r: Result<UploadRequest, S3Error>)
        ensures
            asks(r, self@.write_due(len as nat)),
    {
        let bucket_name: String = match &self.bucket_name {
            None => return Ok(UploadRequest::Nothing),
            Some(name) => name.clone(),
        };
        if let MultipartState::Finished = self.state {
            return Err(S3Error::MultipartAlreadyFinished);
        }
        if len == 0 {
            return Ok(UploadRequest::Nothing);
        }
        if let MultipartState::NotStarted = self.state {
            return Ok(
                UploadRequest::Create {
                    bucket_name,
                    key: self.key.clone(),
                    tagging: make_tags(self.ttl),
                },
            );
        }
        match &self.upload_id {
            None => Err(S3Error::MultipartNotStarted),
            Some(upload_id) => Ok(
                UploadRequest::UploadPart {
                    bucket_name,
                    key: self.key.clone(),
                    upload_id: upload_id.clone(),
                    part_number: self.part_number,
                },
            ),
        }
    }

    /// Takes the reply to the request that starts the upload: the upload's id.
    pub fn created(&mut self, reply: Result<Option<String>, String>) -> (r: Result<(), S3Error>)
        requires
            old(self).well_formed(),
            old(self)@.state is NotStarted,
        ensures
            final(self).well_formed(),
            final(self)@ == old(self)@.created(optional_reply(reply)).0,
            error_of(r) == old(self)@.created(optional_reply(reply)).1,
    {
        match reply {
            Ok(upload_id) => {
                self.upload_id = upload_id;
                self.state = MultipartState::InProgress;
                Ok(())
            },
            Err(source) => Err(
                S3Error::CreateMultipartUpload { path: self.key.clone(), source },
            ),
        }
    }

    /// Takes the reply to the upload of a part of `len` bytes: the part's tag.
    pub fn uploaded(&mut self, len: usize, reply: Result<Option<String>, String>) -> (r: Result<
        (),
        S3Error,
    >)
        requires
            old(self).well_formed(),
            old(self)@.state is InProgress,
            reply matches Ok(Some(_)) ==> old(self)@.part_number < i32::MAX
                && old(self)@.position + len <= u64::MAX,
        ensures
            final(self).well_formed(),
            final(self)@ == old(self)@.uploaded(len as nat, optional_reply(reply)).0,
            error_of(r) == old(self)@.uploaded(len as nat, optional_reply(reply)).1,
    {
        match reply {
            Ok(Some(e_tag)) => {
                let ghost tag = e_tag@;
                let ghost before = self.parts@;
                self.parts.push(CompletedPart { e_tag, part_number: self.part_number });
                assert(part_models(self.parts@) =~= part_models(before).push(
                    PartModel { e_tag: tag, part_number: self.part_number as int },
                ));
                self.part_number = self.part_number + 1;
                self.position = self.position + len as u64;
                Ok(())
            },
            Ok(None) => Err(S3Error::MissingETag(self.part_number)),
            Err(source) => Err(
                S3Error::UploadPart {
                    path: self.key.clone(),
                    part_number: self.part_number,
                    source,
                },
            ),
        }
    }

    /// The bytes uploaded so far.
    pub fn position(&self) -> (n: u64)
        ensures
            n == self@.position,
    {
        self.position
    }

    /// The number of the next part.
    pub fn part_number(&self) -> (n: i32)
        ensures
            n == self@.part_number,
    {
        self.part_number
    }

    /// How far the upload has come.
    pub fn state(&self) -> (state: MultipartState)
        ensures
            state == self@.state,
    {
        self.state
    }

    /// The request that is due when the upload is to be finished. The reply to it goes
    /// to `completed`.
    pub fn finish_impl(&mut self) -> (r: Result<UploadRequest, S3Error>)
        requires
            old(self).well_formed(),
        ensures
            final(self).well_formed(),
            final(self)@ == old(self)@.finish_due().0,
            asks(r, old(self)@.finish_due().1),
    {
        let bucket_name: String = match &self.bucket_name {
            None => return Ok(UploadRequest::Nothing),
            Some(name) => name.clone(),
        };
        match self.state {
            MultipartState::Disabled => return Ok(UploadRequest::Nothing),
            MultipartState::NotStarted => {
                self.state = MultipartState::Finished;
                return Ok(UploadRequest::Nothing);
            },
            MultipartState::Finished => return Err(S3Error::MultipartAlreadyFinished),
            MultipartState::InProgress => {},
        }
        let upload_id: String = match &self.upload_id {
            None => return Err(S3Error::MultipartNotStarted),
            Some(id) => id.clone(),
        };
        let mut parts: Vec<CompletedPart> = Vec::new();
        std::mem::swap(&mut self.parts, &mut parts);
        assert(self@.parts =~= Seq::<PartModel>::empty());
        Ok(UploadRequest::Complete { bucket_name, key: self.key.clone(), upload_id, parts })
    }

    /// Takes the reply to the request that completes the upload.
    pub fn completed(&mut self, reply: Result<(), String>) -> (r: Result<(), S3Error>)
        requires
            old(self).well_formed(),
            old(self)@.state is InProgress,
        ensures
            final(self).well_formed(),
            final(self)@ == old(self)@.completed(bare_reply(reply)).0,
            error_of(r) == old(self)@.completed(bare_reply(reply)).1,
    {
        match reply {
            Ok(()) => {
                self.state = MultipartState::Finished;
                Ok(())
            },
            Err(source) => Err(
                S3Error::CompleteMultipartUpload { path: self.key.clone(), source },
            ),
        }
    }

    /// The request that is due when the upload is to be aborted. The reply to it goes
    /// to `aborted`.
    pub fn abort(&self) -> (request: UploadRequest)
        ensures
            request@ == self@.abort_due(),
    {
        let bucket_name: String = match &self.bucket_name {
            None => return UploadRequest::Nothing,
            Some(name) => name.clone(),
        };
        match self.state {
            MultipartState::InProgress => {},
            _ => return UploadRequest::Nothing,
        }
        match &self.upload_id {
            None => UploadRequest::Nothing,
            Some(id) => UploadRequest::Abort {
                bucket_name,
                key: self.key.clone(),
                upload_id: id.clone(),
            },
        }
    }

    /// Takes the reply to the request that aborts the upload.
    pub fn aborted(&mut self, reply: Result<(), String>) -> (r: Result<(), S3Error>)
        requires
            old(self).well_formed(),
            old(self)@.state is InProgress,
        ensures
            final(self).well_formed(),
            final(self)@ == old(self)@.aborted(bare_reply(reply)).0,
            error_of(r) == old(self)@.aborted(bare_reply(reply)).1,
    {
        match reply {
            Ok(()) => {
                self.state = MultipartState::Finished;
                Ok(())
            },
            Err(source) => Err(
                S3Error::AbortMultipartUpload { path: self.key.clone(), source },
            ),
        }
    }

    /// What to say of an upload that is given up while it is in progress.
    pub fn drop_warning(&self) -> (warning: Option<String>)
        ensures
            warning is Some <==> self@.state is InProgress,
            warning matches Some(w) ==> w@ == drop_warning_text(self@.key),
    {
        match self.state {
            MultipartState::InProgress => {
                let mut out: String =
                    "S3ChunkedUploader dropped without calling finish() or abort() for key `".to_owned();
                out.append(self.key.as_str());
                out.append(
                    "`. This leaves an incomplete multipart upload in S3 that will incur storage costs. Use `aws s3api list-multipart-uploads` to find and clean up orphaned uploads.",
                );
                Some(out)
            },
            _ => None,
        }
    }
}

/// What to say of an upload that is given up while it is in progress.
pub open spec fn drop_warning_text(key: Seq<char>) -> Seq<char> {
    "S3ChunkedUploader dropped without calling finish() or abort() for key `"@ + key
        + "`. This leaves an incomplete multipart upload in S3 that will incur storage costs. Use `aws s3api list-multipart-uploads` to find and clean up orphaned uploads."@
}

/// A written chunk adds its length to the position and one part, whose number is the
/// next one.
pub proof fn law_write_adds_one_part(
    up: UploadModel,
    len: nat,
    id: Seq<char>,
    e_tag: Seq<char>,
)
    requires
        up.consistent(),
        up.bucket_name is Some,
        up.state is NotStarted,
        len > 0,
    ensures
        ({
            let begun = up.created(Ok(Some(id))).0;
            let after = begun.uploaded(len, Ok(Some(e_tag))).0;
            &&& up.write_due(len) is Ok && up.write_due(len)->Ok_0 is Create
            &&& begun.write_due(len) == Ok::<RequestModel, S3ErrorModel>(
                RequestModel::UploadPart {
                    bucket_name: up.bucket_name->0,
                    key: up.key,
                    upload_id: id,
                    part_number: 1,
                },
            )
            &&& after.parts == seq![PartModel { e_tag, part_number: 1 }]
            &&& after.part_number == 2
            &&& after.position == len
            &&& after.state is InProgress
        }),
{
    let begun = up.created(Ok(Some(id))).0;
    assert(begun.uploaded(len, Ok(Some(e_tag))).0.parts =~= seq![
        PartModel { e_tag, part_number: 1 },
    ]);
}

/// The upload after chunks were written, each given by its length and its tag.
pub open spec fn after_chunks(up: UploadModel, chunks: Seq<(nat, Seq<char>)>) -> UploadModel
    decreases chunks.len(),
{
    if chunks.len() == 0 {
        up
    } else {
        after_chunks(up, chunks.drop_last()).uploaded(
            chunks.last().0,
            Ok(Some(chunks.last().1)),
        ).0
    }
}

/// The bytes of the chunks together.
pub open spec fn total_len(chunks: Seq<(nat, Seq<char>)>) -> nat
    decreases chunks.len(),
{
    if chunks.len() == 0 {
        0
    } else {
        total_len(chunks.drop_last()) + chunks.last().0
    }
}

/// The position is the number of bytes written, and there is one part for each chunk,
/// in order, under consecutive numbers.
pub proof fn law_position_counts_bytes(up: UploadModel, chunks: Seq<(nat, Seq<char>)>)
    requires
        up.consistent(),
    ensures
        ({
            let after = after_chunks(up, chunks);
            &&& after.position == up.position + total_len(chunks)
            &&& after.part_number == up.part_number + chunks.len()
            &&& after.parts.len() == up.parts.len() + chunks.len()
            &&& forall|i: int|
                0 <= i < chunks.len() ==> #[trigger] after.parts[up.parts.len() + i]
                    == (PartModel { e_tag: chunks[i].1, part_number: up.part_number + i })
        }),
    decreases chunks.len(),
{
    if chunks.len() > 0 {
        let init = chunks.drop_last();
        law_position_counts_bytes(up, init);
        let before = after_chunks(up, init);
        let after = after_chunks(up, chunks);
        assert forall|i: int| 0 <= i < chunks.len() implies #[trigger] after.parts[up.parts.len()
            + i] == (PartModel { e_tag: chunks[i].1, part_number: up.part_number + i }) by {
            if i < init.len() {
                assert(init[i] == chunks[i]);
                assert(after.parts[up.parts.len() + i] == before.parts[up.parts.len() + i]);
            }
        }
    }
}

/// The request that completes an upload names every part that was uploaded, under
/// consecutive numbers.
pub proof fn law_completion_names_all_parts(up: UploadModel)
    requires
        up.consistent(),
        up.state is InProgress,
        up.upload_id is Some,
    ensures
        up.finish_due().1 matches Ok(RequestModel::Complete { parts, .. }) && parts == up.parts,
        forall|i: int, j: int|
            0 <= i < up.parts.len() && 0 <= j < up.parts.len() ==> (#[trigger] up.parts[j]).part_number
                - (#[trigger] up.parts[i]).part_number == j - i,
{
}

/// An upload that is finished stays so: nothing can be written, it cannot be finished
/// again, and there is nothing to abort.
pub proof fn law_finished_is_final(up: UploadModel, len: nat)
    requires
        up.consistent(),
        up.state is Finished,
    ensures
        up.write_due(len) == Err::<RequestModel, S3ErrorModel>(
            S3ErrorModel::MultipartAlreadyFinished,
        ),
        up.finish_due() == (
            up,
            Err::<RequestModel, S3ErrorModel>(S3ErrorModel::MultipartAlreadyFinished),
        ),
        up.abort_due() is Nothing,
{
}

/// Without a bucket nothing is ever sent and nothing fails.
pub proof fn law_disabled_uploads_send_nothing(up: UploadModel, len: nat)
    requires
        up.bucket_name is None,
    ensures
        up.write_due(len) == Ok::<RequestModel, S3ErrorModel>(RequestModel::Nothing),
        up.finish_due() == (up, Ok::<RequestModel, S3ErrorModel>(RequestModel::Nothing)),
        up.abort_due() is Nothing,
{
}

/// An upload that is completed or aborted leaves nothing in progress.
pub proof fn law_end_leaves_nothing_in_progress(up: UploadModel)
    ensures
        up.completed(Ok(())).0.state is Finished,
        up.aborted(Ok(())).0.state is Finished,
{
}

} // verus!
