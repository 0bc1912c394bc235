//! S3 bucket names, ETag-based caching and multipart uploads.
//!
//! - **Bucket naming**: appends a suffix to bucket prefixes
//! - **Caching**: [`S3CachedObject`] uses ETags to avoid re-downloading unchanged files
//! - **Multipart uploads**: [`MultipartUpload`] cuts a stream into parts of 16 MB and more
//!
//! # Bucket Naming
//!
//! Buckets can be specified in three ways: by their full name, to which no suffix is appended, or
//! by a static or dynamic prefix, which gets a dot and the suffix.

use crate::text::{concat_strs, contains, law_part_stands_somewhere, same};
use crate::web::error::{plain, Error, ErrorView, BAD_REQUEST};
use std::sync::Arc;
use vstd::prelude::*;
use vstd::string::StringSliceAdditionalSpecFns;

verus! {

broadcast use vstd::string::group_string_axioms;

/// Ideal part size for multipart uploads (16 MB).
pub const MULTIPART_UPLOAD_IDEAL_PART_SIZE: usize = 16_000_000;

/// Buffer size for multipart uploads (16 MB + 16 KB headroom).
pub const MULTIPART_UPLOAD_BUFFER_SIZE: usize = 16_016_000;

/// Bucket name specification.
///
/// Use `ConstPrefix` or `Prefix` for automatic suffix appending, or `FullyQualifiedName` for
/// explicit bucket names.
#[derive(Debug)]
pub enum BucketName {
    /// Exact bucket name (no suffix appended).
    FullyQualifiedName(String),
    /// Static prefix, to which the suffix is appended.
    ConstPrefix(&'static str),
    /// Dynamic prefix, to which the suffix is appended.
    Prefix(String),
}

impl BucketName {
    /// How the bucket is shown to people: a prefix with an ellipsis in place of the suffix.
    pub open spec fn shown(self) -> Seq<char> {
        match self {
            BucketName::FullyQualifiedName(name) => name@,
            BucketName::ConstPrefix(prefix) => prefix@ + "..."@,
            BucketName::Prefix(prefix) => prefix@ + "..."@,
        }
    }

    /// The name of the bucket, given the suffix.
    pub open spec fn effective(self, suffix: Seq<char>) -> Seq<char> {
        match self {
            BucketName::FullyQualifiedName(name) => name@,
            BucketName::ConstPrefix(prefix) => prefix@ + "."@ + suffix,
            BucketName::Prefix(prefix) => prefix@ + "."@ + suffix,
        }
    }

    /// How the bucket is shown to people.
    pub fn to_text(&self) -> (r: String)
        ensures
            r@ == self.shown(),
    {
        match self {
            BucketName::FullyQualifiedName(name) => name.clone(),
            BucketName::ConstPrefix(prefix) => concat_strs(prefix, "..."),
            BucketName::Prefix(prefix) => concat_strs(prefix.as_str(), "..."),
        }
    }
}

/// Retention policy for *noncurrent* (superseded) object versions, applied as a lifecycle rule.
/// Both knobs are optional and compose:
///
/// - `keep_newest` retains at least this many of the most recent noncurrent versions.
/// - `expire_after_days` expires a noncurrent version this many days after it becomes noncurrent.
///
/// An all-`None` value is a no-op (versioning on, nothing expired). With only `keep_newest`, a
/// 1-day floor is used for the required number of days.
#[derive(Debug, Clone, Copy)]
pub struct VersionRetention {
    /// Number of newest noncurrent versions to keep before older ones may expire.
    pub keep_newest: Option<i32>,
    /// Days after a version becomes noncurrent before it expires.
    pub expire_after_days: Option<i32>,
}

impl Default for VersionRetention {
    fn default() -> (r: VersionRetention)
        ensures
            r.keep_newest is None,
            r.expire_after_days is None,
    {
        VersionRetention { keep_newest: None, expire_after_days: None }
    }
}

impl VersionRetention {
    /// Returns `true` when neither knob is set (no lifecycle rule should be written).
    pub fn is_empty(&self) -> (r: bool)
        ensures
            r == (self.keep_newest is None && self.expire_after_days is None),
    {
        self.keep_newest.is_none() && self.expire_after_days.is_none()
    }
}

/// A lifecycle rule for noncurrent object versions.
pub struct NoncurrentVersionRule {
    /// The name of the rule.
    pub id: &'static str,
    /// The prefix of the objects that the rule is for.
    pub prefix: &'static str,
    /// Days after a version becomes noncurrent before it expires.
    pub noncurrent_days: i32,
    /// Number of newest noncurrent versions to keep.
    pub newer_noncurrent_versions: Option<i32>,
}

/// Content of an object that is fetched with caching.
pub trait CachedObject {
    /// Returns cached content if available and fresh, otherwise fetches.
    fn fetch_cached(&self) -> Result<Arc<Vec<u8>>, Error>;

    /// Always fetches fresh content (ignoring cache).
    fn fetch(&self) -> Result<Arc<Vec<u8>>, Error>;

    /// Fetches with optional cache bypass.
    fn fetch_with_flush(&self, flush: bool) -> Result<Arc<Vec<u8>>, Error>;
}

/// In-memory cached object for testing or static content.
pub struct StaticCachedObject {
    content: Vec<u8>,
}

impl View for StaticCachedObject {
    type V = Seq<u8>;

    closed spec fn view(&self) -> Seq<u8> {
        self.content@
    }
}

impl StaticCachedObject {
    /// Creates a new static cached object from raw bytes.
    pub fn new(content: Vec<u8>) -> (r: StaticCachedObject)
        ensures
            r@ == content@,
    {
        StaticCachedObject { content }
    }

    /// Creates a new static cached object from a string.
    pub fn from_string(content: &str) -> (r: StaticCachedObject)
        ensures
            r@ == content.spec_bytes(),
    {
        StaticCachedObject { content: content.as_bytes_vec() }
    }
}

impl CachedObject for StaticCachedObject {
    fn fetch_cached(&self) -> (r: Result<Arc<Vec<u8>>, Error>)
        ensures
            r is Ok,
            r->Ok_0@ == self@,
    {
        self.fetch()
    }

    fn fetch(&self) -> (r: Result<Arc<Vec<u8>>, Error>)
        ensures
            r is Ok,
            r->Ok_0@ == self@,
    {
        let mut content: Vec<u8> = Vec::new();
        content.extend_from_slice(self.content.as_slice());
        assert(content@ =~= self.content@);
        Ok(Arc::new(content))
    }

    fn fetch_with_flush(&self, flush: bool) -> (r: Result<Arc<Vec<u8>>, Error>)
        ensures
            r is Ok,
            r->Ok_0@ == self@,
    {
        self.fetch()
    }
}

/// What came of asking for a bucket.
pub enum BucketProbe {
    /// The bucket is there.
    Found,
    /// There is no such bucket.
    NotFound,
    /// The question was not answered.
    Failed(Error),
}

/// What to do in order to have a bucket.
pub enum BucketPlan {
    /// Nothing, the bucket is there.
    Done,
    /// Create a bucket.
    Create {
        /// The name of the bucket.
        bucket: String,
        /// Where the bucket is to be.
        region: String,
    },
}

/// `a`, then `x`, then `b`.
pub open spec fn framed(a: Seq<char>, x: Seq<char>, b: Seq<char>) -> Seq<char> {
    a + x + b
}

/// A message about an object in a bucket.
pub open spec fn about(
    a: Seq<char>,
    key: Seq<char>,
    b: Seq<char>,
    bucket: Seq<char>,
    c: Seq<char>,
) -> Seq<char> {
    a + key + b + bucket + c
}

fn frame(a: &str, x: &str, b: &str) -> (r: String)
    ensures
        r@ == framed(a@, x@, b@),
{
    let mut r = concat_strs(a, x);
    r.append(b);
    r
}

fn say(a: &str, key: &str, b: &str, bucket: &str, c: &str) -> (r: String)
    ensures
        r@ == about(a@, key@, b@, bucket@, c@),
{
    let mut r = frame(a, key, b);
    r.append(bucket);
    r.append(c);
    r
}

/// Bucket names with a suffix applied.
///
/// Appends the suffix to bucket prefixes, enabling environment-based bucket isolation (e.g.,
/// `data.prod.example.com` vs `data.dev.example.com`).
pub struct S3Client {
    pub bucket_suffix: String,
}

impl S3Client {
    /// Returns the effective bucket name with suffix applied.
    ///
    /// For `ConstPrefix("data")` with suffix `prod.example.com`, returns `data.prod.example.com`.
    pub fn effective_name(&self, bucket: &BucketName) -> (r: String)
        ensures
            r@ == bucket.effective(self.bucket_suffix@),
    {
        match bucket {
            BucketName::FullyQualifiedName(name) => name.clone(),
            BucketName::ConstPrefix(prefix) => frame(prefix, ".", self.bucket_suffix.as_str()),
            BucketName::Prefix(prefix) => frame(
                prefix.as_str(),
                ".",
                self.bucket_suffix.as_str(),
            ),
        }
    }

    /// Checks if a bucket exists, given what came of asking for it.
    ///
    /// Returns `true` if the bucket exists, `false` if not found.
    pub fn does_bucket_exist(&self, bucket: &BucketName, probe: BucketProbe) -> (r: Result<
        bool,
        Error,
    >)
        ensures
            match (r, probe) {
                (Ok(exists), BucketProbe::Found) => exists,
                (Ok(exists), BucketProbe::NotFound) => !exists,
                (Err(err), BucketProbe::Failed(cause)) => err@ == cause@.with_context(
                    framed(
                        "Cannot access bucket '"@,
                        bucket.effective(self.bucket_suffix@),
                        "'"@,
                    ),
                ),
                _ => false,
            },
    {
        match probe {
            BucketProbe::Found => Ok(true),
            BucketProbe::NotFound => Ok(false),
            BucketProbe::Failed(cause) => {
                let name = self.effective_name(bucket);
                Err(cause.context(frame("Cannot access bucket '", name.as_str(), "'").as_str()))
            },
        }
    }

    /// Says what to do in order to have a bucket, given what came of asking for it and the region
    /// that is configured.
    pub fn create_bucket(
        &self,
        name: &BucketName,
        probe: BucketProbe,
        region: Option<&str>,
    ) -> (r: Result<BucketPlan, Error>)
        ensures
            match (r, probe) {
                (Ok(plan), BucketProbe::Found) => plan is Done,
                (Ok(plan), BucketProbe::NotFound) => {
                    &&& region is Some
                    &&& plan is Create
                    &&& plan->bucket@ == name.effective(self.bucket_suffix@)
                    &&& plan->region@ == region->0@
                },
                (Err(err), BucketProbe::NotFound) => region is None && err@ == plain(
                    "Cannot determine default region"@,
                ),
                (Err(err), BucketProbe::Failed(cause)) => err@ == cause@.with_context(
                    framed("Cannot access bucket '"@, name.effective(self.bucket_suffix@), "'"@),
                ),
                _ => false,
            },
    {
        match self.does_bucket_exist(name, probe) {
            Ok(true) => Ok(BucketPlan::Done),
            Ok(false) => match region {
                Some(region) => Ok(
                    BucketPlan::Create {
                        bucket: self.effective_name(name),
                        region: region.to_owned(),
                    },
                ),
                None => Err(Error::new("Cannot determine default region")),
            },
            Err(err) => Err(err),
        }
    }

    /// Reports that a bucket could not be created.
    pub fn creation_failed(&self, name: &BucketName, cause: Error) -> (r: Error)
        ensures
            r@ == cause@.with_context(
                framed("Failed to create bucket '"@, name.effective(self.bucket_suffix@), "'"@),
            ),
    {
        let name = self.effective_name(name);
        cause.context(frame("Failed to create bucket '", name.as_str(), "'").as_str())
    }

    /// Says which lifecycle rule to write for a bucket, given what came of enabling versioning on
    /// it.
    ///
    /// Versioning itself is only on/off; "how many" and "how long" are expressed as a lifecycle
    /// rule on noncurrent versions (see [`VersionRetention`]). No retention, or an empty one,
    /// lets noncurrent versions accumulate.
    pub fn enable_versioning(
        &self,
        bucket: &BucketName,
        enabled: Result<(), Error>,
        retention: Option<VersionRetention>,
    ) -> (r: Result<Option<NoncurrentVersionRule>, Error>)
        ensures
            match (r, enabled) {
                (Ok(rule), Ok(_)) => match retention {
                    Some(retention) if retention.keep_newest is Some
                        || retention.expire_after_days is Some => rule is Some && is_rule_for(
                        rule->0,
                        retention,
                    ),
                    _ => rule is None,
                },
                (Err(err), Err(cause)) => err@ == cause@.with_context(
                    framed(
                        "Failed to enable versioning on bucket '"@,
                        bucket.effective(self.bucket_suffix@),
                        "'"@,
                    ),
                ),
                _ => false,
            },
    {
        if let Err(cause) = enabled {
            let name = self.effective_name(bucket);
            let message = frame("Failed to enable versioning on bucket '", name.as_str(), "'");
            return Err(cause.context(message.as_str()));
        }
        match retention {
            Some(retention) if !retention.is_empty() => Ok(
                Some(Self::apply_noncurrent_version_retention(retention)),
            ),
            _ => Ok(None),
        }
    }

    /// The lifecycle rule that expires noncurrent object versions per `retention`.
    ///
    /// The number of days is required for the rule to act; when only a keep-count is given, it is
    /// the 1-day floor, so "keep the newest N" takes effect a day after a version is superseded.
    pub fn apply_noncurrent_version_retention(retention: VersionRetention) -> (r:
        NoncurrentVersionRule)
        ensures
            is_rule_for(r, retention),
    {
        let noncurrent_days: i32 = match retention.expire_after_days {
            Some(days) => days,
            None => 1,
        };
        NoncurrentVersionRule {
            id: "umami-noncurrent-version-retention",
            prefix: "",
            noncurrent_days,
            newer_noncurrent_versions: retention.keep_newest,
        }
    }

    /// Reports that the lifecycle rule of a bucket could not be written.
    pub fn retention_failed(&self, bucket: &BucketName, cause: Error) -> (r: Error)
        ensures
            r@ == cause@.with_context(
                framed(
                    "Failed to set version retention on bucket '"@,
                    bucket.effective(self.bucket_suffix@),
                    "'"@,
                ),
            ),
    {
        let name = self.effective_name(bucket);
        cause.context(
            frame("Failed to set version retention on bucket '", name.as_str(), "'").as_str(),
        )
    }

    /// Takes what came of deleting an object.
    pub fn delete_object(&self, bucket: &BucketName, key: &str, result: Result<(), Error>) -> (r:
        Result<(), Error>)
        ensures
            match (r, result) {
                (Ok(_), Ok(_)) => true,
                (Err(err), Err(cause)) => err@ == cause@.with_context(
                    about(
                        "Failed to delete '"@,
                        key@,
                        "' from bucket '"@,
                        bucket.effective(self.bucket_suffix@),
                        "'"@,
                    ),
                ),
                _ => false,
            },
    {
        match result {
            Ok(_) => Ok(()),
            Err(cause) => {
                let name = self.effective_name(bucket);
                Err(
                    cause.context(
                        say(
                            "Failed to delete '",
                            key,
                            "' from bucket '",
                            name.as_str(),
                            "'",
                        ).as_str(),
                    ),
                )
            },
        }
    }

    /// Takes what came of storing an object.
    pub fn put_object(
        &self,
        bucket: &BucketName,
        object_key: &str,
        result: Result<(), Error>,
    ) -> (r: Result<(), Error>)
        ensures
            match (r, result) {
                (Ok(_), Ok(_)) => true,
                (Err(err), Err(cause)) => err@ == cause@.with_context(
                    about(
                        "Failed to store object '"@,
                        object_key@,
                        "' in bucket '"@,
                        bucket.shown(),
                        "'"@,
                    ),
                ),
                _ => false,
            },
    {
        match result {
            Ok(_) => Ok(()),
            Err(cause) => {
                let name = bucket.to_text();
                Err(
                    cause.context(
                        say(
                            "Failed to store object '",
                            object_key,
                            "' in bucket '",
                            name.as_str(),
                            "'",
                        ).as_str(),
                    ),
                )
            },
        }
    }

    /// Takes what came of asking for an object and, where that was answered, of reading it.
    pub fn get_object(
        &self,
        bucket: &BucketName,
        object_key: &str,
        result: Result<Result<Vec<u8>, Error>, Error>,
    ) -> (r: Result<Vec<u8>, Error>)
        ensures
            match (r, result) {
                (Ok(data), Ok(Ok(bytes))) => data == bytes,
                (Err(err), Ok(Err(cause))) => err@ == cause@.with_context(
                    about(
                        "Failed to read object '"@,
                        object_key@,
                        "' from bucket '"@,
                        bucket.shown(),
                        "'"@,
                    ),
                ),
                (Err(err), Err(cause)) => err@ == cause@.with_context(
                    about(
                        "Failed to fetch object '"@,
                        object_key@,
                        "' from bucket '"@,
                        bucket.shown(),
                        "'"@,
                    ),
                ),
                _ => false,
            },
    {
        let name = bucket.to_text();
        match result {
            Ok(Ok(data)) => Ok(data),
            Ok(Err(cause)) => Err(
                cause.context(
                    say(
                        "Failed to read object '",
                        object_key,
                        "' from bucket '",
                        name.as_str(),
                        "'",
                    ).as_str(),
                ),
            ),
            Err(cause) => Err(
                cause.context(
                    say(
                        "Failed to fetch object '",
                        object_key,
                        "' from bucket '",
                        name.as_str(),
                        "'",
                    ).as_str(),
                ),
            ),
        }
    }

    /// Takes what came of asking for a multipart upload: its identifier, with which the upload can
    /// begin.
    pub fn multipart_upload(
        &self,
        bucket: &BucketName,
        object_key: &str,
        created: Result<Option<String>, Error>,
    ) -> (r: Result<(String, MultipartUpload), Error>)
        ensures
            match (r, created) {
                (Ok(begun), Ok(Some(id))) => {
                    &&& begun.0 == id
                    &&& begun.1@ == (UploadView {
                        bucket: bucket.effective(self.bucket_suffix@),
                        key: object_key@,
                        phase: UploadPhase::Reading,
                        received: Seq::empty(),
                        buffer: Seq::empty(),
                        parts: Seq::empty(),
                    })
                },
                (Err(err), Ok(None)) => err@ == plain(
                    about(
                        "Failed to receive upload id for a multipart upload of '"@,
                        object_key@,
                        "' in bucket '"@,
                        bucket.shown(),
                        "'"@,
                    ),
                ),
                (Err(err), Err(cause)) => err@ == cause@.with_context(
                    about(
                        "Failed to create multipart upload for '"@,
                        object_key@,
                        "' in bucket '"@,
                        bucket.shown(),
                        "'"@,
                    ),
                ),
                _ => false,
            },
    {
        let name = bucket.to_text();
        match created {
            Ok(Some(id)) => Ok(
                (id, MultipartUpload::new(self.effective_name(bucket), object_key.to_owned())),
            ),
            Ok(None) => Err(
                Error::new(
                    say(
                        "Failed to receive upload id for a multipart upload of '",
                        object_key,
                        "' in bucket '",
                        name.as_str(),
                        "'",
                    ).as_str(),
                ),
            ),
            Err(cause) => Err(
                cause.context(
                    say(
                        "Failed to create multipart upload for '",
                        object_key,
                        "' in bucket '",
                        name.as_str(),
                        "'",
                    ).as_str(),
                ),
            ),
        }
    }
}

/// Whether a lifecycle rule is the one for a retention policy.
pub open spec fn is_rule_for(rule: NoncurrentVersionRule, retention: VersionRetention) -> bool {
    &&& rule.id@ == "umami-noncurrent-version-retention"@
    &&& rule.prefix@ == ""@
    &&& rule.noncurrent_days == match retention.expire_after_days {
        Some(days) => days,
        None => 1,
    }
    &&& rule.newer_noncurrent_versions == retention.keep_newest
}

/// What a multipart upload is busy with.
#[derive(Clone, Copy, Debug, PartialEq, Eq, Structural)]
pub enum UploadPhase {
    /// Reading the stream.
    Reading,
    /// Uploading a part, with more of the stream to read.
    SendingPart,
    /// Uploading the last part.
    SendingLast,
    /// Putting the parts together.
    Completing,
    /// Nothing, the upload is over.
    Finished,
}

/// What happened to a multipart upload.
pub enum UploadEvent {
    /// The stream brought some bytes.
    Chunk(Vec<u8>),
    /// The stream came to its end.
    EndOfStream,
    /// The stream failed.
    ReadFailed(Error),
    /// A part was uploaded; the service may give it a tag.
    PartUploaded(Option<String>),
    /// A part was not uploaded.
    PartFailed(Error),
    /// The parts were put together.
    Completed,
    /// The parts were not put together.
    CompletionFailed(Error),
}

/// A part that was uploaded.
pub struct CompletedPart {
    pub e_tag: String,
    pub part_number: i32,
}

/// What to do next for a multipart upload.
pub enum UploadAction {
    /// Read on.
    Read,
    /// Upload the bytes as the part of the given number.
    UploadPart { part_number: i32, body: Vec<u8> },
    /// Put the parts together.
    Complete(Vec<CompletedPart>),
    /// Nothing, the upload has succeeded.
    Done,
    /// Abort the upload and report the error.
    Abort(Error),
}

/// A part that was uploaded: its tag and its bytes. Its number is its position, counted from one.
pub struct PartView {
    pub e_tag: Seq<char>,
    pub body: Seq<u8>,
}

/// How far a multipart upload has come: what was received from the stream, what of it was uploaded
/// as which part, and what is left in the buffer.
pub struct UploadView {
    pub bucket: Seq<char>,
    pub key: Seq<char>,
    pub phase: UploadPhase,
    pub received: Seq<u8>,
    pub buffer: Seq<u8>,
    pub parts: Seq<PartView>,
}

/// The bytes of all parts in their order.
pub open spec fn joined(parts: Seq<PartView>) -> Seq<u8>
    decreases parts.len(),
{
    if parts.len() == 0 {
        Seq::empty()
    } else {
        joined(parts.drop_last()) + parts.last().body
    }
}

impl UploadView {
    /// What holds of every upload: the parts and the buffer make up what was received, every part
    /// but the last has the ideal size at least, a buffer that is not being uploaded is smaller,
    /// and once the stream has ended only the last part is outstanding.
    pub open spec fn is_sound(self) -> bool {
        &&& joined(self.parts) + self.buffer == self.received
        &&& forall|i: int|
            0 <= i < self.parts.len() - 1 ==> (#[trigger] self.parts[i]).body.len()
                >= MULTIPART_UPLOAD_IDEAL_PART_SIZE
        &&& forall|i: int|
            0 <= i < self.parts.len() ==> (#[trigger] self.parts[i]).body.len() > 0
        &&& match self.phase {
            UploadPhase::Reading => self.buffer.len() < MULTIPART_UPLOAD_IDEAL_PART_SIZE
                && self.all_ideal(),
            UploadPhase::SendingPart => self.buffer.len() >= MULTIPART_UPLOAD_IDEAL_PART_SIZE
                && self.all_ideal(),
            UploadPhase::SendingLast => 0 < self.buffer.len() < MULTIPART_UPLOAD_IDEAL_PART_SIZE
                && self.all_ideal(),
            UploadPhase::Completing => self.buffer.len() == 0,
            UploadPhase::Finished => true,
        }
    }

    /// Whether every part has the ideal size at least.
    pub open spec fn all_ideal(self) -> bool {
        forall|i: int|
            0 <= i < self.parts.len() ==> (#[trigger] self.parts[i]).body.len()
                >= MULTIPART_UPLOAD_IDEAL_PART_SIZE
    }

    /// Whether an event can happen in the present phase.
    pub open spec fn expects(self, event: UploadEvent) -> bool {
        match event {
            UploadEvent::Chunk(_) | UploadEvent::EndOfStream | UploadEvent::ReadFailed(_) =>
                self.phase == UploadPhase::Reading,
            UploadEvent::PartUploaded(_) | UploadEvent::PartFailed(_) => self.phase
                == UploadPhase::SendingPart || self.phase == UploadPhase::SendingLast,
            UploadEvent::Completed | UploadEvent::CompletionFailed(_) => self.phase
                == UploadPhase::Completing,
        }
    }

    /// The upload after an event.
    pub open spec fn after(self, event: UploadEvent) -> UploadView {
        match event {
            UploadEvent::Chunk(bytes) => UploadView {
                received: self.received + bytes@,
                buffer: self.buffer + bytes@,
                phase: if self.buffer.len() + bytes@.len() >= MULTIPART_UPLOAD_IDEAL_PART_SIZE {
                    UploadPhase::SendingPart
                } else {
                    UploadPhase::Reading
                },
                ..self
            },
            UploadEvent::EndOfStream => UploadView {
                phase: if self.buffer.len() > 0 {
                    UploadPhase::SendingLast
                } else {
                    UploadPhase::Completing
                },
                ..self
            },
            UploadEvent::PartUploaded(tag) => UploadView {
                parts: self.parts.push(
                    PartView {
                        e_tag: match tag {
                            Some(tag) => tag@,
                            None => Seq::empty(),
                        },
                        body: self.buffer,
                    },
                ),
                buffer: Seq::empty(),
                phase: if self.phase == UploadPhase::SendingPart {
                    UploadPhase::Reading
                } else {
                    UploadPhase::Completing
                },
                ..self
            },
            _ => UploadView { phase: UploadPhase::Finished, ..self },
        }
    }

    /// What is reported when the upload fails with an event.
    pub open spec fn failure(self, event: UploadEvent) -> Option<ErrorView> {
        match event {
            UploadEvent::ReadFailed(err) => Some(
                err@.with_context("Failed to read body"@).with_status(BAD_REQUEST),
            ),
            UploadEvent::PartFailed(err) => Some(
                if self.phase == UploadPhase::SendingPart {
                    err@
                } else {
                    err@.with_context(
                        about(
                            "Failed to upload a part of a multipart upload of '"@,
                            self.key,
                            "' in bucket '"@,
                            self.bucket,
                            "'"@,
                        ),
                    )
                },
            ),
            UploadEvent::CompletionFailed(err) => Some(
                err@.with_context(
                    about(
                        "Failed to complete multipart upload of '"@,
                        self.key,
                        "' in bucket '"@,
                        self.bucket,
                        "'"@,
                    ),
                ),
            ),
            _ => None,
        }
    }

    /// Whether `parts` names the parts that were uploaded.
    pub open spec fn is_listed_by(self, parts: Seq<CompletedPart>) -> bool {
        &&& parts.len() == self.parts.len()
        &&& forall|i: int|
            0 <= i < parts.len() ==> (#[trigger] parts[i]).part_number == i + 1
                && parts[i].e_tag@ == self.parts[i].e_tag
    }

    /// Whether `action` is what the phase asks for, given the failure that may have ended the
    /// upload: a part is uploaded whole under the number after the last, and a failure aborts.
    pub open spec fn asks_for(self, action: UploadAction, failure: Option<ErrorView>) -> bool {
        match self.phase {
            UploadPhase::Reading => action is Read,
            UploadPhase::SendingPart | UploadPhase::SendingLast => {
                &&& action is UploadPart
                &&& action->part_number == self.parts.len() + 1
                &&& action->body@ == self.buffer
            },
            UploadPhase::Completing => action is Complete && self.is_listed_by(
                action->Complete_0@,
            ),
            UploadPhase::Finished => match failure {
                Some(err) => action is Abort && action->Abort_0@ == err,
                None => action is Done,
            },
        }
    }
}

/// A multipart upload in progress.
///
/// The stream is read until the buffer has the ideal size, then the buffer is uploaded as a part.
/// What is left at the end of the stream is the last part. Whoever drives the upload performs each
/// action and hands back what happened.
pub struct MultipartUpload {
    bucket: String,
    key: String,
    phase: UploadPhase,
    buffer: Vec<u8>,
    uploaded: usize,
    uploaded_parts: Vec<CompletedPart>,
    received: Ghost<Seq<u8>>,
    parts: Ghost<Seq<PartView>>,
}

impl View for MultipartUpload {
    type V = UploadView;

    closed spec fn view(&self) -> UploadView {
        UploadView {
            bucket: self.bucket@,
            key: self.key@,
            phase: self.phase,
            received: self.received@,
            buffer: self.buffer@,
            parts: self.parts@,
        }
    }
}

impl MultipartUpload {
    #[verifier::type_invariant]
    spec fn is_consistent(self) -> bool {
        &&& self@.is_sound()
        &&& self.phase != UploadPhase::Completing && self.phase != UploadPhase::Finished
            ==> self@.is_listed_by(self.uploaded_parts@)
        &&& self.uploaded == self.parts@.len()
    }

    /// Begins an upload.
    fn new(bucket: String, key: String) -> (r: MultipartUpload)
        ensures
            r@ == (UploadView {
                bucket: bucket@,
                key: key@,
                phase: UploadPhase::Reading,
                received: Seq::empty(),
                buffer: Seq::empty(),
                parts: Seq::empty(),
            }),
    {
        let ghost empty = Seq::<u8>::empty();
        assert(joined(Seq::<PartView>::empty()) + empty =~= empty);
        MultipartUpload {
            bucket,
            key,
            phase: UploadPhase::Reading,
            buffer: Vec::with_capacity(MULTIPART_UPLOAD_BUFFER_SIZE),
            uploaded: 0,
            uploaded_parts: Vec::new(),
            received: Ghost(Seq::empty()),
            parts: Ghost(Seq::empty()),
        }
    }

    /// The number of parts that were uploaded so far.
    pub fn uploaded(&self) -> (r: usize)
        ensures
            r == self@.parts.len(),
            self@.is_sound(),
    {
        proof {
            use_type_invariant(self);
        }
        self.uploaded
    }

    /// Whether an event can be taken: it can happen in the present phase, and the number of a
    /// further part fits 32 bits.
    pub fn can_take(&self, event: &UploadEvent) -> (r: bool)
        ensures
            r == (self@.expects(*event) && self@.parts.len() < i32::MAX),
    {
        let expected = match event {
            UploadEvent::Chunk(_) | UploadEvent::EndOfStream | UploadEvent::ReadFailed(_) =>
                self.phase() == UploadPhase::Reading,
            UploadEvent::PartUploaded(_) | UploadEvent::PartFailed(_) => self.phase()
                == UploadPhase::SendingPart || self.phase() == UploadPhase::SendingLast,
            UploadEvent::Completed | UploadEvent::CompletionFailed(_) => self.phase()
                == UploadPhase::Completing,
        };
        expected && self.uploaded() < i32::MAX as usize
    }

    /// What the upload is busy with.
    pub fn phase(&self) -> (r: UploadPhase)
        ensures
            r == self@.phase,
            self@.is_sound(),
    {
        proof {
            use_type_invariant(self);
        }
        self.phase
    }

    /// Takes what happened and says what to do next.
    ///
    /// The number of a part is counted in 32 bits, so there are fewer parts than that.
    pub fn step(self, event: UploadEvent) -> (r: (MultipartUpload, UploadAction))
        requires
            self@.expects(event),
            self@.parts.len() < i32::MAX,
        ensures
            r.0@ == self@.after(event),
            r.0@.is_sound(),
            r.0@.asks_for(r.1, self@.failure(event)),
    {
        proof {
            use_type_invariant(&self);
        }
        let ghost view = self@;
        let ghost next = self@.after(event);
        proof {
            law_uploads_stay_sound(view, event);
        }
        let MultipartUpload {
            bucket,
            key,
            phase,
            buffer,
            uploaded,
            uploaded_parts,
            received,
            parts,
        } = self;
        match event {
            UploadEvent::Chunk(bytes) => {
                let mut bytes = bytes;
                let mut buffer = buffer;
                buffer.append(&mut bytes);
                if buffer.len() >= MULTIPART_UPLOAD_IDEAL_PART_SIZE {
                    let body = copy_bytes(&buffer);
                    let part_number: i32 = uploaded as i32 + 1;
                    let upload = MultipartUpload {
                        bucket,
                        key,
                        phase: UploadPhase::SendingPart,
                        buffer,
                        uploaded,
                        uploaded_parts,
                        received: Ghost(next.received),
                        parts,
                    };
                    (upload, UploadAction::UploadPart { part_number, body })
                } else {
                    let upload = MultipartUpload {
                        bucket,
                        key,
                        phase: UploadPhase::Reading,
                        buffer,
                        uploaded,
                        uploaded_parts,
                        received: Ghost(next.received),
                        parts,
                    };
                    (upload, UploadAction::Read)
                }
            },
            UploadEvent::EndOfStream => {
                if buffer.len() > 0 {
                    let body = copy_bytes(&buffer);
                    let part_number: i32 = uploaded as i32 + 1;
                    let upload = MultipartUpload {
                        bucket,
                        key,
                        phase: UploadPhase::SendingLast,
                        buffer,
                        uploaded,
                        uploaded_parts,
                        received,
                        parts,
                    };
                    (upload, UploadAction::UploadPart { part_number, body })
                } else {
                    let upload = MultipartUpload {
                        bucket,
                        key,
                        phase: UploadPhase::Completing,
                        buffer,
                        uploaded,
                        uploaded_parts: Vec::new(),
                        received,
                        parts,
                    };
                    (upload, UploadAction::Complete(uploaded_parts))
                }
            },
            UploadEvent::PartUploaded(tag) => {
                let e_tag = match tag {
                    Some(tag) => tag,
                    None => String::new(),
                };
                let part_number: i32 = uploaded as i32 + 1;
                let mut uploaded_parts = uploaded_parts;
                uploaded_parts.push(CompletedPart { e_tag, part_number });
                let mut buffer = buffer;
                buffer.clear();
                assert(next.is_listed_by(uploaded_parts@));
                match phase {
                    UploadPhase::SendingPart => {
                        let upload = MultipartUpload {
                            bucket,
                            key,
                            phase: UploadPhase::Reading,
                            buffer,
                            uploaded: uploaded + 1,
                            uploaded_parts,
                            received,
                            parts: Ghost(next.parts),
                        };
                        (upload, UploadAction::Read)
                    },
                    _ => {
                        let upload = MultipartUpload {
                            bucket,
                            key,
                            phase: UploadPhase::Completing,
                            buffer,
                            uploaded: uploaded + 1,
                            uploaded_parts: Vec::new(),
                            received,
                            parts: Ghost(next.parts),
                        };
                        (upload, UploadAction::Complete(uploaded_parts))
                    },
                }
            },
            UploadEvent::Completed => {
                let upload = MultipartUpload {
                    bucket,
                    key,
                    phase: UploadPhase::Finished,
                    buffer,
                    uploaded,
                    uploaded_parts,
                    received,
                    parts,
                };
                (upload, UploadAction::Done)
            },
            UploadEvent::ReadFailed(err) => {
                let err = err.context("Failed to read body").with_status(BAD_REQUEST);
                let upload = MultipartUpload {
                    bucket,
                    key,
                    phase: UploadPhase::Finished,
                    buffer,
                    uploaded,
                    uploaded_parts,
                    received,
                    parts,
                };
                (upload, UploadAction::Abort(err))
            },
            UploadEvent::PartFailed(err) => {
                let err = match phase {
                    UploadPhase::SendingPart => err,
                    _ => err.context(
                        say(
                            "Failed to upload a part of a multipart upload of '",
                            key.as_str(),
                            "' in bucket '",
                            bucket.as_str(),
                            "'",
                        ).as_str(),
                    ),
                };
                let upload = MultipartUpload {
                    bucket,
                    key,
                    phase: UploadPhase::Finished,
                    buffer,
                    uploaded,
                    uploaded_parts,
                    received,
                    parts,
                };
                (upload, UploadAction::Abort(err))
            },
            UploadEvent::CompletionFailed(err) => {
                let err = err.context(
                    say(
                        "Failed to complete multipart upload of '",
                        key.as_str(),
                        "' in bucket '",
                        bucket.as_str(),
                        "'",
                    ).as_str(),
                );
                let upload = MultipartUpload {
                    bucket,
                    key,
                    phase: UploadPhase::Finished,
                    buffer,
                    uploaded,
                    uploaded_parts,
                    received,
                    parts,
                };
                (upload, UploadAction::Abort(err))
            },
        }
    }
}

fn copy_bytes(bytes: &Vec<u8>) -> (r: Vec<u8>)
    ensures
        r@ == bytes@,
{
    let mut r: Vec<u8> = Vec::new();
    r.extend_from_slice(bytes.as_slice());
    assert(r@ =~= bytes@);
    r
}

/// Every upload stays sound, whatever happens to it.
pub proof fn law_uploads_stay_sound(view: UploadView, event: UploadEvent)
    requires
        view.is_sound(),
        view.expects(event),
    ensures
        view.after(event).is_sound(),
{
    let next = view.after(event);
    match event {
        UploadEvent::Chunk(bytes) => {
            assert(joined(view.parts) + (view.buffer + bytes@) =~= (joined(view.parts)
                + view.buffer) + bytes@);
        },
        UploadEvent::PartUploaded(_) => {
            assert(next.parts.drop_last() =~= view.parts);
            assert(next.parts.last().body == view.buffer);
            assert(joined(next.parts) + next.buffer =~= view.received);
            assert forall|i: int| 0 <= i < next.parts.len() - 1 implies (#[trigger] next.parts[i])
                == view.parts[i] by {}
        },
        _ => {},
    }
}

/// When the parts of an upload are put together, they are what the stream brought, in that order;
/// all but the last have the ideal size at least, and none is empty.
pub proof fn law_parts_make_up_the_stream(upload: UploadView)
    requires
        upload.is_sound(),
        upload.phase == UploadPhase::Completing,
    ensures
        joined(upload.parts) == upload.received,
        forall|i: int|
            0 <= i < upload.parts.len() - 1 ==> (#[trigger] upload.parts[i]).body.len()
                >= MULTIPART_UPLOAD_IDEAL_PART_SIZE,
        forall|i: int|
            0 <= i < upload.parts.len() ==> (#[trigger] upload.parts[i]).body.len() > 0,
{
    assert(joined(upload.parts) + upload.buffer =~= joined(upload.parts));
}

/// Any failure aborts the upload, and after that nothing more happens.
pub proof fn law_failures_abort(upload: UploadView, event: UploadEvent, action: UploadAction)
    requires
        upload.expects(event),
        upload.failure(event) is Some,
        upload.after(event).asks_for(action, upload.failure(event)),
    ensures
        action is Abort,
        upload.after(event).phase == UploadPhase::Finished,
        forall|next: UploadEvent| !(#[trigger] upload.after(event).expects(next)),
{
}

/// Different prefixes have different effective names, under the same suffix.
pub proof fn law_buckets_stay_apart(a: String, b: String, suffix: Seq<char>)
    requires
        BucketName::Prefix(a).effective(suffix) == BucketName::Prefix(b).effective(suffix),
    ensures
        a@ == b@,
{
    reveal_strlit(".");
    let x = BucketName::Prefix(a).effective(suffix);
    let y = BucketName::Prefix(b).effective(suffix);
    assert(x.len() == a@.len() + 1 + suffix.len());
    assert(y.len() == b@.len() + 1 + suffix.len());
    assert(x.take(a@.len() as int) =~= a@);
    assert(y.take(b@.len() as int) =~= b@);
}

/// The seconds that a waiter tries to acquire the refresh lock before giving up with an explicit
/// error. Chosen strictly greater than the sum of the timeouts of the requests, so a legitimate
/// in-flight fetch always wins its own bound.
pub const FETCH_LOCK_TIMEOUT_SECONDS: u64 = 25;

/// The seconds that fetching an object may take.
pub const FETCH_S3_GET_TIMEOUT_SECONDS: u64 = 15;

/// The seconds that probing the ETag of an object may take.
pub const FETCH_S3_HEAD_TIMEOUT_SECONDS: u64 = 5;

/// What to ask the service for in order to refresh a cached object.
#[derive(Clone, Copy, Debug, PartialEq, Eq, Structural)]
pub enum Refresh {
    /// The ETag of the object, to see whether what is cached is up to date.
    ProbeEtag,
    /// The object itself.
    Download,
}

/// What is cached of an object: its content, its ETag, and when these were stored.
pub struct CacheView<C> {
    pub content: Option<C>,
    pub etag: Seq<char>,
    pub last_fetched: u128,
}

/// An object with ETag-based caching.
///
/// Keeps the object's content and uses ETags to detect changes: when the cache has expired, the
/// ETag is checked before downloading again, to save bandwidth. Times are in nanoseconds on a clock
/// that never goes back. The content is of any type that stands for the object's bytes.
///
/// Whoever drives the cache serializes refreshes, so that only one task at a time asks the service;
/// a task that had to wait then finds what was stored meanwhile.
pub struct S3CachedObject<C> {
    bucket: BucketName,
    object_key: String,
    minimum_cache_duration: u128,
    content: Option<C>,
    etag: String,
    last_fetched: u128,
}

impl<C> View for S3CachedObject<C> {
    type V = CacheView<C>;

    closed spec fn view(&self) -> CacheView<C> {
        CacheView {
            content: self.content,
            etag: self.etag@,
            last_fetched: self.last_fetched,
        }
    }
}

impl<C> S3CachedObject<C> {
    /// The bucket of the object.
    pub closed spec fn spec_bucket(&self) -> BucketName {
        self.bucket
    }

    /// The name of the object.
    pub closed spec fn spec_key(&self) -> Seq<char> {
        self.object_key@
    }

    /// How long content is served without asking the service.
    pub closed spec fn spec_duration(&self) -> nat {
        self.minimum_cache_duration as nat
    }

    /// A cached object of which nothing has been fetched yet.
    pub fn new(
        bucket: BucketName,
        object_key: &str,
        minimum_cache_duration: u128,
        now: u128,
    ) -> (r: S3CachedObject<C>)
        ensures
            r@ == (CacheView { content: None::<C>, etag: Seq::empty(), last_fetched: now }),
            r.spec_bucket() == bucket,
            r.spec_key() == object_key@,
            r.spec_duration() == minimum_cache_duration,
    {
        S3CachedObject {
            bucket,
            object_key: object_key.to_owned(),
            minimum_cache_duration,
            content: None,
            etag: String::new(),
            last_fetched: now,
        }
    }

    /// How the object is shown to people.
    pub fn to_text(&self) -> (r: String)
        ensures
            r@ == framed(self.spec_key(), " in "@, self.spec_bucket().shown()),
    {
        let bucket = self.bucket.to_text();
        frame(self.object_key.as_str(), " in ", bucket.as_str())
    }

    /// The bucket of the object.
    pub fn bucket(&self) -> (r: &BucketName)
        ensures
            *r == self.spec_bucket(),
    {
        &self.bucket
    }

    /// The name of the object.
    pub fn object_key(&self) -> (r: &str)
        ensures
            r@ == self.spec_key(),
    {
        self.object_key.as_str()
    }

    /// The cached content, while it is younger than the minimum cache duration.
    pub fn fetch_from_inner_cache(&self, now: u128) -> (r: Option<&C>)
        ensures
            is_served(r, self@, is_fresh(self@, self.spec_duration(), now)),
    {
        let elapsed: u128 = if self.last_fetched <= now {
            now - self.last_fetched
        } else {
            0
        };
        match &self.content {
            Some(content) if elapsed < self.minimum_cache_duration => Some(content),
            _ => None,
        }
    }

    /// The content that another task has stored since `arrival`.
    pub fn fetched_since(&self, arrival: u128) -> (r: Option<&C>)
        ensures
            is_served(r, self@, self@.last_fetched >= arrival),
    {
        match &self.content {
            Some(content) if self.last_fetched >= arrival => Some(content),
            _ => None,
        }
    }

    /// What to ask the service for first: the ETag, where content with an ETag is cached, else the
    /// object.
    pub fn perform_fetch(&self) -> (r: Refresh)
        ensures
            r == if self@.content is Some && self@.etag.len() > 0 {
                Refresh::ProbeEtag
            } else {
                Refresh::Download
            },
    {
        if self.content.is_some() && !self.etag.as_str().is_empty() {
            Refresh::ProbeEtag
        } else {
            Refresh::Download
        }
    }

    /// Takes the ETag that a probe brought (nothing, where it failed or took too long) and stores
    /// the cached content anew where it is up to date. Otherwise the object has to be downloaded.
    pub fn fetch_etag_from_s3(&mut self, probed: Option<String>, now: u128) -> (r: bool)
        ensures
            r == (old(self)@.content is Some && old(self)@.etag.len() > 0 && probed is Some
                && probed->0@ == old(self)@.etag),
            final(self).spec_bucket() == old(self).spec_bucket(),
            final(self).spec_key() == old(self).spec_key(),
            final(self).spec_duration() == old(self).spec_duration(),
            final(self)@ == if r {
                CacheView { last_fetched: now, ..old(self)@ }
            } else {
                old(self)@
            },
    {
        let cached: bool = self.content.is_some() && !self.etag.as_str().is_empty();
        let unchanged: bool = match probed {
            Some(etag) => cached && same(etag.as_str(), self.etag.as_str()),
            None => false,
        };
        if unchanged {
            self.last_fetched = now;
        }
        unchanged
    }

    /// Takes what a download brought (nothing, where it failed or took too long) and stores it.
    pub fn fetch_from_s3(&mut self, downloaded: Option<(C, Option<String>)>, now: u128) -> (r:
        Result<&C, Error>)
        ensures
            final(self).spec_bucket() == old(self).spec_bucket(),
            final(self).spec_key() == old(self).spec_key(),
            final(self).spec_duration() == old(self).spec_duration(),
            final(self)@ == stored(downloaded, now),
            match (r, downloaded) {
                (Ok(content), Some(data)) => *content == data.0,
                (Err(err), None) => err@ == plain(
                    about(
                        "Failed to fetch "@,
                        old(self).spec_key(),
                        " from S3 bucket "@,
                        old(self).spec_bucket().shown(),
                        ""@,
                    ),
                ),
                _ => false,
            },
    {
        self.last_fetched = now;
        match downloaded {
            Some((data, etag)) => {
                self.etag = match etag {
                    Some(etag) => etag,
                    None => String::new(),
                };
                self.content = Some(data);
            },
            None => {
                self.etag = String::new();
                self.content = None;
            },
        }
        match &self.content {
            Some(content) => Ok(content),
            None => {
                let bucket = self.bucket.to_text();
                Err(
                    Error::new(
                        say(
                            "Failed to fetch ",
                            self.object_key.as_str(),
                            " from S3 bucket ",
                            bucket.as_str(),
                            "",
                        ).as_str(),
                    ),
                )
            },
        }
    }

    /// Reports that the refresh lock could not be acquired in time.
    pub fn lock_timed_out(&self, cause: Error) -> (r: Error)
        ensures
            r@ == cause@.with_context(
                about(
                    "Timed out after 25s waiting for fetch lock on '"@,
                    self.spec_key(),
                    "' in bucket '"@,
                    self.spec_bucket().shown(),
                    "'"@,
                ),
            ),
    {
        let bucket = self.bucket.to_text();
        cause.context(
            say(
                "Timed out after 25s waiting for fetch lock on '",
                self.object_key.as_str(),
                "' in bucket '",
                bucket.as_str(),
                "'",
            ).as_str(),
        )
    }
}

/// Whether cached content is young enough to be served without asking the service.
pub open spec fn is_fresh<C>(cache: CacheView<C>, duration: nat, now: u128) -> bool {
    if cache.last_fetched <= now {
        now - cache.last_fetched < duration
    } else {
        0 < duration
    }
}

/// Whether `r` is the cached content, where there is any and the condition holds.
pub open spec fn is_served<C>(r: Option<&C>, cache: CacheView<C>, condition: bool) -> bool {
    match r {
        Some(content) => condition && cache.content == Some(*content),
        None => !condition || cache.content is None,
    }
}

/// What is cached after a download.
pub open spec fn stored<C>(downloaded: Option<(C, Option<String>)>, now: u128) -> CacheView<C> {
    match downloaded {
        Some((content, etag)) => CacheView {
            content: Some(content),
            etag: match etag {
                Some(etag) => etag@,
                None => Seq::empty(),
            },
            last_fetched: now,
        },
        None => CacheView { content: None, etag: Seq::empty(), last_fetched: now },
    }
}

/// Content that was stored after a waiting task arrived is what that task gets, and for the
/// minimum cache duration it is served without asking the service.
pub proof fn law_downloads_are_shared<C>(
    content: C,
    etag: Option<String>,
    arrival: u128,
    now: u128,
    duration: nat,
    later: u128,
)
    requires
        arrival <= now <= later < now + duration,
    ensures
        ({
            let cache = stored(Some((content, etag)), now);
            &&& cache.content == Some(content)
            &&& cache.last_fetched >= arrival
            &&& is_fresh(cache, duration, later)
        }),
{
}

/// A failed download leaves nothing cached that could be served.
pub proof fn law_failures_are_not_cached<C>(
    now: u128,
    r: Option<&C>,
    condition: bool,
)
    requires
        is_served(r, stored(None::<(C, Option<String>)>, now), condition),
    ensures
        r is None,
{
}

/// The upload after several events, one after the other.
pub open spec fn after_all(upload: UploadView, events: Seq<UploadEvent>) -> UploadView
    decreases events.len(),
{
    if events.len() == 0 {
        upload
    } else {
        after_all(upload, events.drop_last()).after(events.last())
    }
}

/// Whether each of several events can happen when its turn comes.
pub open spec fn all_expected(upload: UploadView, events: Seq<UploadEvent>) -> bool
    decreases events.len(),
{
    events.len() == 0 || (all_expected(upload, events.drop_last()) && after_all(
        upload,
        events.drop_last(),
    ).expects(events.last()))
}

/// The tag that the service gave to a part, nothing where it gave none.
pub open spec fn tag_text(tag: Option<String>) -> Seq<char> {
    match tag {
        Some(tag) => tag@,
        None => Seq::empty(),
    }
}

/// The tags that the service gave to the parts, in the order in which the parts were uploaded.
pub open spec fn tags(events: Seq<UploadEvent>) -> Seq<Seq<char>>
    decreases events.len(),
{
    if events.len() == 0 {
        Seq::empty()
    } else {
        match events.last() {
            UploadEvent::PartUploaded(tag) => tags(events.drop_last()).push(tag_text(tag)),
            _ => tags(events.drop_last()),
        }
    }
}

/// What the stream brought, in the order in which it came.
pub open spec fn streamed(events: Seq<UploadEvent>) -> Seq<u8>
    decreases events.len(),
{
    if events.len() == 0 {
        Seq::empty()
    } else {
        match events.last() {
            UploadEvent::Chunk(bytes) => streamed(events.drop_last()) + bytes@,
            _ => streamed(events.drop_last()),
        }
    }
}

proof fn lemma_history(upload: UploadView, events: Seq<UploadEvent>)
    requires
        upload.is_sound(),
        upload.parts.len() == 0,
        upload.received.len() == 0,
        all_expected(upload, events),
    ensures
        after_all(upload, events).is_sound(),
        after_all(upload, events).received == streamed(events),
        after_all(upload, events).parts.len() == tags(events).len(),
        forall|i: int|
            0 <= i < tags(events).len() ==> (#[trigger] after_all(upload, events).parts[i]).e_tag
                == tags(events)[i],
    decreases events.len(),
{
    if events.len() == 0 {
        assert(upload.received =~= streamed(events));
    } else {
        let earlier = events.drop_last();
        lemma_history(upload, earlier);
        law_uploads_stay_sound(after_all(upload, earlier), events.last());
        let before = after_all(upload, earlier);
        let next = after_all(upload, events);
        assert forall|i: int| 0 <= i < tags(events).len() implies (
        #[trigger] next.parts[i]).e_tag == tags(events)[i] by {
            if i < tags(earlier).len() {
                assert(next.parts[i] == before.parts[i]);
            }
        }
    }
}

/// Whatever happens in the course of an upload, the list that is handed over to complete it names
/// each part by its number, counted from one, with the tag that the service gave to that part; and
/// the parts together are what the stream brought.
pub proof fn law_completion_names_every_part(
    upload: UploadView,
    events: Seq<UploadEvent>,
    action: UploadAction,
    failure: Option<ErrorView>,
)
    requires
        upload.is_sound(),
        upload.parts.len() == 0,
        upload.received.len() == 0,
        all_expected(upload, events),
        after_all(upload, events).phase == UploadPhase::Completing,
        after_all(upload, events).asks_for(action, failure),
    ensures
        action is Complete,
        action->Complete_0@.len() == tags(events).len(),
        forall|i: int|
            0 <= i < tags(events).len() ==> (#[trigger] action->Complete_0@[i]).part_number == i + 1
                && action->Complete_0@[i].e_tag@ == tags(events)[i],
        joined(after_all(upload, events).parts) == streamed(events),
{
    lemma_history(upload, events);
    law_parts_make_up_the_stream(after_all(upload, events));
    let parts = action->Complete_0@;
    assert forall|i: int| 0 <= i < tags(events).len() implies (
    #[trigger] parts[i]).part_number == i + 1 && parts[i].e_tag@ == tags(events)[i] by {
        assert(after_all(upload, events).parts[i].e_tag == tags(events)[i]);
    }
}

/// A chunk is added to what is in the buffer. Once that comes to 16 MB, all of it is uploaded as the
/// part after the last; until then the stream is read on.
pub proof fn law_chunks_fill_parts(
    upload: MultipartUpload,
    bytes: Vec<u8>,
    r: (MultipartUpload, UploadAction),
)
    requires
        upload@.phase == UploadPhase::Reading,
        upload@.parts.len() < i32::MAX,
        call_ensures(MultipartUpload::step, (upload, UploadEvent::Chunk(bytes)), r),
    ensures
        r.0@.buffer == upload@.buffer + bytes@,
        r.0@.received == upload@.received + bytes@,
        r.0@.parts == upload@.parts,
        r.0@.bucket == upload@.bucket && r.0@.key == upload@.key,
        upload@.buffer.len() + bytes@.len() < 16_000_000 ==> r.1 is Read && r.0@.phase
            == UploadPhase::Reading,
        upload@.buffer.len() + bytes@.len() >= 16_000_000 ==> {
            &&& r.0@.phase == UploadPhase::SendingPart
            &&& r.1 is UploadPart
            &&& r.1->part_number == upload@.parts.len() + 1
            &&& r.1->body@ == upload@.buffer + bytes@
        },
{
}

/// What is left in the buffer at the end of the stream is the last part. Where nothing is left, the
/// parts are put together.
pub proof fn law_end_of_stream_sends_the_rest(
    upload: MultipartUpload,
    r: (MultipartUpload, UploadAction),
)
    requires
        upload@.phase == UploadPhase::Reading,
        upload@.parts.len() < i32::MAX,
        call_ensures(MultipartUpload::step, (upload, UploadEvent::EndOfStream), r),
    ensures
        r.0@.buffer == upload@.buffer,
        r.0@.received == upload@.received,
        r.0@.parts == upload@.parts,
        upload@.buffer.len() > 0 ==> {
            &&& r.0@.phase == UploadPhase::SendingLast
            &&& r.1 is UploadPart
            &&& r.1->part_number == upload@.parts.len() + 1
            &&& r.1->body@ == upload@.buffer
        },
        upload@.buffer.len() == 0 ==> {
            &&& r.0@.phase == UploadPhase::Completing
            &&& r.1 is Complete
            &&& r.1->Complete_0@.len() == upload@.parts.len()
        },
{
}

/// A part that was uploaded is noted with its bytes and with the tag that came for it, behind the
/// parts before it. Then the stream is read on, or after the last part the parts are put together,
/// each under its number and with its tag.
pub proof fn law_uploaded_parts_are_noted(
    upload: MultipartUpload,
    tag: Option<String>,
    r: (MultipartUpload, UploadAction),
)
    requires
        upload@.phase == UploadPhase::SendingPart || upload@.phase == UploadPhase::SendingLast,
        upload@.parts.len() < i32::MAX,
        call_ensures(MultipartUpload::step, (upload, UploadEvent::PartUploaded(tag)), r),
    ensures
        r.0@.parts.len() == upload@.parts.len() + 1,
        forall|i: int|
            0 <= i < upload@.parts.len() ==> #[trigger] r.0@.parts[i] == upload@.parts[i],
        r.0@.parts.last().body == upload@.buffer,
        tag is Some ==> r.0@.parts.last().e_tag == tag->0@,
        tag is None ==> r.0@.parts.last().e_tag.len() == 0,
        r.0@.buffer.len() == 0,
        r.0@.received == upload@.received,
        upload@.phase == UploadPhase::SendingPart ==> r.1 is Read && r.0@.phase
            == UploadPhase::Reading,
        upload@.phase == UploadPhase::SendingLast ==> {
            &&& r.0@.phase == UploadPhase::Completing
            &&& r.1 is Complete
            &&& r.1->Complete_0@.len() == r.0@.parts.len()
            &&& forall|i: int|
                0 <= i < r.0@.parts.len() ==> (#[trigger] r.1->Complete_0@[i]).part_number == i + 1
                    && r.1->Complete_0@[i].e_tag@ == r.0@.parts[i].e_tag
        },
{
}

/// A stream that fails is the client's fault; a part that fails, or the completion, keeps the
/// response of its cause. All of these abort the upload.
pub proof fn law_failed_uploads_say_why(
    upload: MultipartUpload,
    event: UploadEvent,
    cause: Error,
    r: (MultipartUpload, UploadAction),
)
    requires
        upload@.expects(event),
        upload@.parts.len() < i32::MAX,
        event == UploadEvent::ReadFailed(cause) || event == UploadEvent::PartFailed(cause) || event
            == UploadEvent::CompletionFailed(cause),
        cause@.messages.len() > 0,
        call_ensures(MultipartUpload::step, (upload, event), r),
    ensures
        r.0@.phase == UploadPhase::Finished,
        r.1 is Abort,
        event is ReadFailed ==> r.1->Abort_0@.response().status == 400,
        !(event is ReadFailed) ==> r.1->Abort_0@.api == cause@.api,
        r.1->Abort_0@.messages.last() == cause@.messages.last(),
        upload@.phase == UploadPhase::SendingPart ==> r.1->Abort_0@ == cause@,
        upload@.phase == UploadPhase::SendingLast || upload@.phase == UploadPhase::Completing
            ==> contains(r.1->Abort_0@.messages[0], upload@.key),
{
    lemma_about(
        "Failed to upload a part of a multipart upload of '"@,
        upload@.key,
        "' in bucket '"@,
        upload@.bucket,
        "'"@,
    );
    lemma_about(
        "Failed to complete multipart upload of '"@,
        upload@.key,
        "' in bucket '"@,
        upload@.bucket,
        "'"@,
    );
}

/// Once the parts are put together, the upload has succeeded and nothing more is to be done.
pub proof fn law_completed_uploads_are_done(
    upload: MultipartUpload,
    r: (MultipartUpload, UploadAction),
)
    requires
        upload@.phase == UploadPhase::Completing,
        upload@.parts.len() < i32::MAX,
        call_ensures(MultipartUpload::step, (upload, UploadEvent::Completed), r),
    ensures
        r.0@.phase == UploadPhase::Finished,
        r.1 is Done,
{
}

/// An upload begins with nothing received, for the bucket of the effective name.
pub proof fn law_uploads_begin_empty(
    client: &S3Client,
    bucket: &BucketName,
    key: &str,
    id: String,
    r: Result<(String, MultipartUpload), Error>,
)
    requires
        call_ensures(S3Client::multipart_upload, (client, bucket, key, Ok(Some(id))), r),
    ensures
        r is Ok,
        r->Ok_0.0@ == id@,
        r->Ok_0.1@.phase == UploadPhase::Reading,
        r->Ok_0.1@.received.len() == 0,
        r->Ok_0.1@.buffer.len() == 0,
        r->Ok_0.1@.parts.len() == 0,
        r->Ok_0.1@.key == key@,
        forall|name: String|
            call_ensures(S3Client::effective_name, (client, bucket), name) ==> #[trigger] name@
                == r->Ok_0.1@.bucket,
{
}

/// Once the minimum cache duration has passed since the content was stored, nothing is served
/// without asking the service.
pub proof fn law_old_content_is_not_served<C>(
    object: &S3CachedObject<C>,
    now: u128,
    r: Option<&C>,
)
    requires
        now >= object@.last_fetched + object.spec_duration(),
        call_ensures(S3CachedObject::<C>::fetch_from_inner_cache, (object, now), r),
    ensures
        r is None,
{
}

/// Until then, the content is served where there is any.
pub proof fn law_young_content_is_served<C>(object: &S3CachedObject<C>, now: u128, r: Option<&C>)
    requires
        now < object@.last_fetched + object.spec_duration(),
        object.spec_duration() > 0,
        call_ensures(S3CachedObject::<C>::fetch_from_inner_cache, (object, now), r),
    ensures
        r is Some <==> object@.content is Some,
        r is Some ==> object@.content == Some(*r->0),
{
}

/// A task that had to wait gets what was stored since it came, and nothing older.
pub proof fn law_waiters_get_what_came_meanwhile<C>(
    object: &S3CachedObject<C>,
    arrival: u128,
    r: Option<&C>,
)
    requires
        call_ensures(S3CachedObject::<C>::fetched_since, (object, arrival), r),
    ensures
        object@.last_fetched < arrival ==> r is None,
        object@.last_fetched >= arrival && object@.content is Some ==> r is Some
            && object@.content == Some(*r->0),
        object@.content is None ==> r is None,
{
}

/// The service is asked for the ETag only where an ETag is known to compare it with.
pub proof fn law_probes_need_an_etag<C>(object: &S3CachedObject<C>, r: Refresh)
    requires
        call_ensures(S3CachedObject::<C>::perform_fetch, (object,), r),
    ensures
        r == Refresh::ProbeEtag <==> object@.content is Some && object@.etag.len() > 0,
        r == Refresh::Download <==> object@.content is None || object@.etag.len() == 0,
{
}

/// The same ETag keeps the content and makes it young again; any other ETag, and none, leaves all as
/// it is and asks for a download.
pub proof fn law_same_etag_renews_content<C>(
    object: &mut S3CachedObject<C>,
    probed: Option<String>,
    now: u128,
    r: bool,
)
    requires
        call_ensures(S3CachedObject::<C>::fetch_etag_from_s3, (object, probed, now), r),
    ensures
        r <==> probed is Some && old(object)@.content is Some && probed->0@.len() > 0
            && probed->0@ == old(object)@.etag,
        final(object)@.content == old(object)@.content,
        final(object)@.etag == old(object)@.etag,
        r ==> final(object)@.last_fetched == now,
        !r ==> final(object)@.last_fetched == old(object)@.last_fetched,
        final(object).spec_duration() == old(object).spec_duration(),
{
}

/// A download is stored as it came, with its ETag and the time, and handed out.
pub proof fn law_downloads_are_stored<C>(
    object: &mut S3CachedObject<C>,
    content: C,
    etag: Option<String>,
    now: u128,
    r: Result<&C, Error>,
)
    requires
        call_ensures(S3CachedObject::<C>::fetch_from_s3, (object, Some((content, etag)), now), r),
    ensures
        r is Ok && *r->Ok_0 == content,
        final(object)@.content == Some(content),
        final(object)@.last_fetched == now,
        etag is Some ==> final(object)@.etag == etag->0@,
        etag is None ==> final(object)@.etag.len() == 0,
        final(object).spec_duration() == old(object).spec_duration(),
        final(object).spec_key() == old(object).spec_key(),
        final(object).spec_bucket() == old(object).spec_bucket(),
{
}

/// A download that failed is reported and leaves nothing behind.
pub proof fn law_failed_downloads_leave_nothing<C>(
    object: &mut S3CachedObject<C>,
    now: u128,
    r: Result<&C, Error>,
)
    requires
        call_ensures(S3CachedObject::<C>::fetch_from_s3, (object, None, now), r),
    ensures
        r is Err && r->Err_0@.response().status == 500,
        final(object)@.content is None,
        final(object)@.etag.len() == 0,
        final(object)@.last_fetched == now,
        final(object).spec_duration() == old(object).spec_duration(),
{
}

/// A new object has nothing cached, so that nothing is served whatever the time.
pub proof fn law_new_objects_are_empty<C>(
    bucket: BucketName,
    key: &str,
    duration: u128,
    now: u128,
    object: S3CachedObject<C>,
)
    requires
        call_ensures(S3CachedObject::<C>::new, (bucket, key, duration, now), object),
    ensures
        object@.content is None,
        object@.etag.len() == 0,
        object.spec_duration() == duration,
        object.spec_key() == key@,
        object.spec_bucket() == bucket,
{
}

/// However long versions are kept otherwise, the rule keeps as many of the newest as were asked
/// for: the two knobs compose.
pub proof fn law_newest_versions_are_kept(
    retention: VersionRetention,
    other_days: Option<i32>,
    a: NoncurrentVersionRule,
    b: NoncurrentVersionRule,
)
    requires
        call_ensures(S3Client::apply_noncurrent_version_retention, (retention,), a),
        call_ensures(
            S3Client::apply_noncurrent_version_retention,
            (VersionRetention { expire_after_days: other_days, ..retention },),
            b,
        ),
    ensures
        a.newer_noncurrent_versions == retention.keep_newest,
        a.newer_noncurrent_versions == b.newer_noncurrent_versions,
{
}

/// However many versions are kept, the rule expires the others after the days that were asked for,
/// after one day where none were; and it is for all objects.
pub proof fn law_old_versions_expire(
    retention: VersionRetention,
    other_count: Option<i32>,
    a: NoncurrentVersionRule,
    b: NoncurrentVersionRule,
)
    requires
        call_ensures(S3Client::apply_noncurrent_version_retention, (retention,), a),
        call_ensures(
            S3Client::apply_noncurrent_version_retention,
            (VersionRetention { keep_newest: other_count, ..retention },),
            b,
        ),
    ensures
        a.noncurrent_days == b.noncurrent_days,
        retention.expire_after_days is Some ==> a.noncurrent_days
            == retention.expire_after_days->0,
        retention.expire_after_days is None ==> a.noncurrent_days == 1,
        a.prefix@.len() == 0,
        a.id@ == b.id@,
{
    reveal_strlit("");
}

/// A rule is written exactly if versioning was enabled and one of the knobs is set, and it is the
/// rule for that policy.
pub proof fn law_policies_are_written(
    client: &S3Client,
    bucket: &BucketName,
    enabled: Result<(), Error>,
    retention: Option<VersionRetention>,
    r: Result<Option<NoncurrentVersionRule>, Error>,
)
    requires
        call_ensures(S3Client::enable_versioning, (client, bucket, enabled, retention), r),
    ensures
        r is Ok <==> enabled is Ok,
        r is Err ==> r->Err_0@.api == enabled->Err_0@.api,
        r is Ok ==> (r->Ok_0 is Some <==> retention is Some && (retention->0.keep_newest is Some
            || retention->0.expire_after_days is Some)),
        r is Ok && r->Ok_0 is Some ==> {
            &&& r->Ok_0->0.newer_noncurrent_versions == retention->0.keep_newest
            &&& retention->0.expire_after_days is Some ==> r->Ok_0->0.noncurrent_days
                == retention->0.expire_after_days->0
            &&& retention->0.expire_after_days is None ==> r->Ok_0->0.noncurrent_days == 1
        },
{
}

/// A prefix is followed by a dot and the suffix, whether it is static or not; a full name stays as
/// it is.
pub proof fn law_suffix_follows_prefixes(
    client: &S3Client,
    prefix: &'static str,
    text: String,
    a: String,
    b: String,
    c: String,
)
    requires
        text@ == prefix@,
        call_ensures(S3Client::effective_name, (client, &BucketName::ConstPrefix(prefix)), a),
        call_ensures(S3Client::effective_name, (client, &BucketName::Prefix(text)), b),
        call_ensures(S3Client::effective_name, (client, &BucketName::FullyQualifiedName(text)), c),
    ensures
        a@ == prefix@ + seq!['.'] + client.bucket_suffix@,
        b@ == a@,
        c@ == text@,
{
    reveal_strlit(".");
    assert("."@ =~= seq!['.']);
}

/// Environments with different suffixes never share a bucket that goes by a prefix.
pub proof fn law_environments_stay_apart(
    a: &S3Client,
    b: &S3Client,
    prefix: String,
    x: String,
    y: String,
)
    requires
        call_ensures(S3Client::effective_name, (a, &BucketName::Prefix(prefix)), x),
        call_ensures(S3Client::effective_name, (b, &BucketName::Prefix(prefix)), y),
        x@ == y@,
    ensures
        a.bucket_suffix@ == b.bucket_suffix@,
{
    reveal_strlit(".");
    let n = prefix@.len() as int + 1;
    assert(x@.skip(n) =~= a.bucket_suffix@);
    assert(y@.skip(n) =~= b.bucket_suffix@);
}

/// A bucket is there exactly if asking for it found it; where the question was not answered, that is
/// reported with its cause.
pub proof fn law_probes_are_believed(
    client: &S3Client,
    bucket: &BucketName,
    probe: BucketProbe,
    r: Result<bool, Error>,
)
    requires
        call_ensures(S3Client::does_bucket_exist, (client, bucket, probe), r),
    ensures
        r is Err <==> probe is Failed,
        r is Ok ==> (r->Ok_0 <==> probe is Found),
        r is Err ==> r->Err_0@.api == probe->Failed_0@.api && r->Err_0@.messages.drop_first()
            == probe->Failed_0@.messages,
{
    if r is Err {
        assert(r->Err_0@.messages.drop_first() =~= probe->Failed_0@.messages);
    }
}

/// A bucket is created exactly if it is not there, under its effective name and in the region that
/// is configured, without which none is created.
pub proof fn law_missing_buckets_are_created(
    client: &S3Client,
    bucket: &BucketName,
    probe: BucketProbe,
    region: Option<&str>,
    r: Result<BucketPlan, Error>,
    name: String,
)
    requires
        call_ensures(S3Client::create_bucket, (client, bucket, probe, region), r),
        call_ensures(S3Client::effective_name, (client, bucket), name),
    ensures
        probe is Found ==> r is Ok && r->Ok_0 is Done,
        probe is Failed ==> r is Err && r->Err_0@.api == probe->Failed_0@.api,
        probe is NotFound && region is None ==> r is Err,
        probe is NotFound && region is Some ==> {
            &&& r is Ok
            &&& r->Ok_0 is Create
            &&& r->Ok_0->bucket@ == name@
            &&& r->Ok_0->region@ == region->0@
        },
{
}

/// What became of storing, deleting or fetching an object is handed on: the bytes as they came, and
/// a failure with its cause and the name of the object.
pub proof fn law_outcomes_are_handed_on(
    client: &S3Client,
    bucket: &BucketName,
    key: &str,
    result: Result<(), Error>,
    fetched: Result<Result<Vec<u8>, Error>, Error>,
    put: Result<(), Error>,
    deleted: Result<(), Error>,
    got: Result<Vec<u8>, Error>,
)
    requires
        call_ensures(S3Client::put_object, (client, bucket, key, result), put),
        call_ensures(S3Client::delete_object, (client, bucket, key, result), deleted),
        call_ensures(S3Client::get_object, (client, bucket, key, fetched), got),
    ensures
        put is Ok <==> result is Ok,
        deleted is Ok <==> result is Ok,
        result is Err ==> {
            &&& put->Err_0@.api == result->Err_0@.api
            &&& put->Err_0@.messages.drop_first() == result->Err_0@.messages
            &&& contains(put->Err_0@.messages[0], key@)
            &&& deleted->Err_0@.api == result->Err_0@.api
            &&& deleted->Err_0@.messages.drop_first() == result->Err_0@.messages
            &&& contains(deleted->Err_0@.messages[0], key@)
        },
        got is Ok <==> fetched is Ok && fetched->Ok_0 is Ok,
        got is Ok ==> got->Ok_0@ == fetched->Ok_0->Ok_0@,
        fetched is Err ==> got->Err_0@.api == fetched->Err_0@.api && contains(
            got->Err_0@.messages[0],
            key@,
        ),
        fetched is Ok && fetched->Ok_0 is Err ==> got->Err_0@.api == fetched->Ok_0->Err_0@.api
            && contains(got->Err_0@.messages[0], key@),
{
    if result is Err {
        assert(put->Err_0@.messages.drop_first() =~= result->Err_0@.messages);
        assert(deleted->Err_0@.messages.drop_first() =~= result->Err_0@.messages);
        lemma_about(
            "Failed to store object '"@,
            key@,
            "' in bucket '"@,
            bucket.shown(),
            "'"@,
        );
        lemma_about(
            "Failed to delete '"@,
            key@,
            "' from bucket '"@,
            bucket.effective(client.bucket_suffix@),
            "'"@,
        );
    }
    lemma_about(
        "Failed to read object '"@,
        key@,
        "' from bucket '"@,
        bucket.shown(),
        "'"@,
    );
    lemma_about(
        "Failed to fetch object '"@,
        key@,
        "' from bucket '"@,
        bucket.shown(),
        "'"@,
    );
}

proof fn lemma_about(
    a: Seq<char>,
    key: Seq<char>,
    b: Seq<char>,
    bucket: Seq<char>,
    c: Seq<char>,
)
    ensures
        contains(about(a, key, b, bucket, c), key),
{
    law_part_stands_somewhere(key, a, key, b + bucket + c);
    assert(about(a, key, b, bucket, c) =~= a + key + (b + bucket + c));
}

/// A bucket is shown by its full name, or by its prefix and three dots.
pub proof fn law_buckets_are_shown(
    prefix: &'static str,
    text: String,
    a: String,
    b: String,
    c: String,
)
    requires
        text@ == prefix@,
        call_ensures(BucketName::to_text, (&BucketName::ConstPrefix(prefix),), a),
        call_ensures(BucketName::to_text, (&BucketName::Prefix(text),), b),
        call_ensures(BucketName::to_text, (&BucketName::FullyQualifiedName(text),), c),
    ensures
        a@ == prefix@ + seq!['.', '.', '.'],
        b@ == a@,
        c@ == text@,
{
    reveal_strlit("...");
    assert("..."@ =~= seq!['.', '.', '.']);
}

/// Failures around a bucket are reported with their cause and with the effective name of the bucket.
pub proof fn law_bucket_failures_say_why(
    client: &S3Client,
    bucket: &BucketName,
    cause: Error,
    name: String,
    a: Error,
    b: Error,
)
    requires
        call_ensures(S3Client::effective_name, (client, bucket), name),
        call_ensures(S3Client::creation_failed, (client, bucket, cause), a),
        call_ensures(S3Client::retention_failed, (client, bucket, cause), b),
    ensures
        a@.api == cause@.api && a@.messages.drop_first() == cause@.messages,
        contains(a@.messages[0], name@),
        b@.api == cause@.api && b@.messages.drop_first() == cause@.messages,
        contains(b@.messages[0], name@),
{
    assert(a@.messages.drop_first() =~= cause@.messages);
    assert(b@.messages.drop_first() =~= cause@.messages);
    law_part_stands_somewhere(name@, "Failed to create bucket '"@, name@, "'"@);
    law_part_stands_somewhere(
        name@,
        "Failed to set version retention on bucket '"@,
        name@,
        "'"@,
    );
}

/// A failure to begin an upload is reported, with its cause where there is one.
pub proof fn law_uploads_need_an_identifier(
    client: &S3Client,
    bucket: &BucketName,
    key: &str,
    created: Result<Option<String>, Error>,
    r: Result<(String, MultipartUpload), Error>,
)
    requires
        call_ensures(S3Client::multipart_upload, (client, bucket, key, created), r),
    ensures
        r is Ok <==> created is Ok && created->Ok_0 is Some,
        r is Err ==> contains(r->Err_0@.messages[0], key@),
        created is Err ==> r->Err_0@.api == created->Err_0@.api
            && r->Err_0@.messages.drop_first() == created->Err_0@.messages,
        created is Ok && created->Ok_0 is None ==> r->Err_0@.response().status == 500,
{
    lemma_about(
        "Failed to receive upload id for a multipart upload of '"@,
        key@,
        "' in bucket '"@,
        bucket.shown(),
        "'"@,
    );
    lemma_about(
        "Failed to create multipart upload for '"@,
        key@,
        "' in bucket '"@,
        bucket.shown(),
        "'"@,
    );
    if created is Err {
        assert(r->Err_0@.messages.drop_first() =~= created->Err_0@.messages);
    }
}

/// An upload can take exactly the events that answer what it is busy with.
pub proof fn law_events_answer_actions(
    upload: &MultipartUpload,
    event: &UploadEvent,
    can_take: bool,
    uploaded: usize,
    phase: UploadPhase,
)
    requires
        call_ensures(MultipartUpload::can_take, (upload, event), can_take),
        call_ensures(MultipartUpload::uploaded, (upload,), uploaded),
        call_ensures(MultipartUpload::phase, (upload,), phase),
    ensures
        uploaded == upload@.parts.len(),
        phase == upload@.phase,
        can_take <==> uploaded < i32::MAX && match event {
            UploadEvent::Chunk(_) => phase == UploadPhase::Reading,
            UploadEvent::EndOfStream => phase == UploadPhase::Reading,
            UploadEvent::ReadFailed(_) => phase == UploadPhase::Reading,
            UploadEvent::PartUploaded(_) => phase == UploadPhase::SendingPart || phase
                == UploadPhase::SendingLast,
            UploadEvent::PartFailed(_) => phase == UploadPhase::SendingPart || phase
                == UploadPhase::SendingLast,
            UploadEvent::Completed => phase == UploadPhase::Completing,
            UploadEvent::CompletionFailed(_) => phase == UploadPhase::Completing,
        },
{
}

/// Static content is what it was made of, whichever way it is fetched.
pub proof fn law_static_content_is_fetched(
    content: Vec<u8>,
    text: &str,
    a: StaticCachedObject,
    b: StaticCachedObject,
    flush: bool,
    x: Result<Arc<Vec<u8>>, Error>,
    y: Result<Arc<Vec<u8>>, Error>,
    z: Result<Arc<Vec<u8>>, Error>,
)
    requires
        call_ensures(StaticCachedObject::new, (content,), a),
        call_ensures(StaticCachedObject::from_string, (text,), b),
        call_ensures(<StaticCachedObject as CachedObject>::fetch, (&a,), x),
        call_ensures(<StaticCachedObject as CachedObject>::fetch_cached, (&a,), y),
        call_ensures(<StaticCachedObject as CachedObject>::fetch_with_flush, (&a, flush), z),
    ensures
        a@ == content@,
        b@ == text.spec_bytes(),
        x is Ok && x->Ok_0@ == content@,
        y is Ok && y->Ok_0@ == content@,
        z is Ok && z->Ok_0@ == content@,
{
}

/// Whatever happens to an upload, it stays that of the same object in the same bucket.
pub proof fn law_uploads_keep_their_object(
    upload: MultipartUpload,
    event: UploadEvent,
    r: (MultipartUpload, UploadAction),
)
    requires
        upload@.expects(event),
        upload@.parts.len() < i32::MAX,
        call_ensures(MultipartUpload::step, (upload, event), r),
    ensures
        r.0@.bucket == upload@.bucket,
        r.0@.key == upload@.key,
        r.0@.parts.len() >= upload@.parts.len(),
        r.0@.received.len() >= upload@.received.len(),
{
}

/// A cached object is shown by its name and its bucket; a lock that could not be had in time is
/// reported with its cause and with the name of the object.
pub proof fn law_cached_objects_are_shown<C>(
    object: &S3CachedObject<C>,
    bucket: &BucketName,
    bucket_text: String,
    text: String,
    cause: Error,
    err: Error,
)
    requires
        call_ensures(S3CachedObject::<C>::bucket, (object,), bucket),
        call_ensures(BucketName::to_text, (bucket,), bucket_text),
        call_ensures(S3CachedObject::<C>::to_text, (object,), text),
        call_ensures(S3CachedObject::<C>::lock_timed_out, (object, cause), err),
    ensures
        text@ == object.spec_key() + seq![' ', 'i', 'n', ' '] + bucket_text@,
        err@.api == cause@.api && err@.messages.drop_first() == cause@.messages,
        contains(err@.messages[0], object.spec_key()),
{
    reveal_strlit(" in ");
    assert(" in "@ =~= seq![' ', 'i', 'n', ' ']);
    assert(err@.messages.drop_first() =~= cause@.messages);
    lemma_about(
        "Timed out after 25s waiting for fetch lock on '"@,
        object.spec_key(),
        "' in bucket '"@,
        object.spec_bucket().shown(),
        "'"@,
    );
}

/// Whoever waits for a refresh waits longer than the two requests of a refresh may take together.
pub proof fn law_waiters_outlast_a_refresh()
    ensures
        FETCH_LOCK_TIMEOUT_SECONDS == 25,
        FETCH_LOCK_TIMEOUT_SECONDS > FETCH_S3_GET_TIMEOUT_SECONDS + FETCH_S3_HEAD_TIMEOUT_SECONDS,
{
}

} // verus!
