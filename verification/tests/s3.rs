use wasabi::aws::s3::{
    BucketName, BucketPlan, BucketProbe, CachedObject, MultipartUpload, Refresh, S3CachedObject,
    S3Client, StaticCachedObject, UploadAction, UploadEvent, UploadPhase, VersionRetention,
    FETCH_LOCK_TIMEOUT_SECONDS, FETCH_S3_GET_TIMEOUT_SECONDS, FETCH_S3_HEAD_TIMEOUT_SECONDS,
    MULTIPART_UPLOAD_BUFFER_SIZE, MULTIPART_UPLOAD_IDEAL_PART_SIZE,
};
use wasabi::web::error::Error;
use wasabi::web::warp::into_rejection;

#[test]
fn bucket_name_display_shows_full_name() {
    let name = BucketName::FullyQualifiedName("my-bucket".to_string());
    assert_eq!(name.to_text(), "my-bucket");
}

#[test]
fn bucket_name_display_shows_prefix_with_ellipsis() {
    let name = BucketName::ConstPrefix("data");
    assert_eq!(name.to_text(), "data...");

    let name = BucketName::Prefix("uploads".to_string());
    assert_eq!(name.to_text(), "uploads...");
}

#[test]
fn static_cached_object_returns_content() {
    let obj = StaticCachedObject::new(vec![1, 2, 3]);
    let content = obj.fetch().unwrap();
    assert_eq!(*content, vec![1, 2, 3]);
}

#[test]
fn static_cached_object_from_string_returns_bytes() {
    let obj = StaticCachedObject::from_string("hello");
    let content = obj.fetch_cached().unwrap();
    assert_eq!(*content, b"hello".to_vec());
}

#[test]
fn static_cached_object_fetch_with_flush_ignores_flush() {
    let obj = StaticCachedObject::new(vec![42]);
    let content = obj.fetch_with_flush(true).unwrap();
    assert_eq!(*content, vec![42]);
}

fn client() -> S3Client {
    S3Client { bucket_suffix: "prod.example.com".to_string() }
}

#[test]
fn effective_bucket_names() {
    let client = client();
    let full = BucketName::FullyQualifiedName("my-bucket".to_string());
    assert_eq!(client.effective_name(&full), "my-bucket");
    assert_eq!(
        client.effective_name(&BucketName::ConstPrefix("data")),
        "data.prod.example.com"
    );
    assert_eq!(
        client.effective_name(&BucketName::Prefix("a.b".to_string())),
        "a.b.prod.example.com"
    );
}

#[test]
fn buckets_are_created_where_they_are_missing() {
    let client = client();
    let data = BucketName::ConstPrefix("data");
    assert!(client.does_bucket_exist(&data, BucketProbe::Found).unwrap());
    assert!(!client.does_bucket_exist(&data, BucketProbe::NotFound).unwrap());
    let err = client
        .does_bucket_exist(&data, BucketProbe::Failed(Error::new("denied")))
        .unwrap_err();
    assert_eq!(
        err.full_message(),
        "Cannot access bucket 'data.prod.example.com': denied"
    );

    let plan = client.create_bucket(&data, BucketProbe::Found, None);
    assert!(matches!(plan, Ok(BucketPlan::Done)));
    match client.create_bucket(&data, BucketProbe::NotFound, Some("eu-central-1")) {
        Ok(BucketPlan::Create { bucket, region }) => {
            assert_eq!(bucket, "data.prod.example.com");
            assert_eq!(region, "eu-central-1");
        }
        _ => panic!("the bucket is not created"),
    }
    match client.create_bucket(&data, BucketProbe::NotFound, None) {
        Err(err) => assert_eq!(err.message(), "Cannot determine default region"),
        Ok(_) => panic!("a bucket without a region"),
    }
    assert_eq!(
        client.creation_failed(&data, Error::new("x")).full_message(),
        "Failed to create bucket 'data.prod.example.com': x"
    );
}

#[test]
fn retention_becomes_a_lifecycle_rule() {
    let client = client();
    let data = BucketName::ConstPrefix("data");
    assert!(VersionRetention::default().is_empty());
    let keep = VersionRetention { keep_newest: Some(3), expire_after_days: None };
    assert!(!keep.is_empty());

    let rule = client.enable_versioning(&data, Ok(()), Some(keep)).unwrap().unwrap();
    assert_eq!(rule.id, "umami-noncurrent-version-retention");
    assert_eq!(rule.prefix, "");
    assert_eq!(rule.noncurrent_days, 1);
    assert_eq!(rule.newer_noncurrent_versions, Some(3));

    let expire = VersionRetention { keep_newest: None, expire_after_days: Some(30) };
    let rule = client.enable_versioning(&data, Ok(()), Some(expire)).unwrap().unwrap();
    assert_eq!(rule.noncurrent_days, 30);
    assert_eq!(rule.newer_noncurrent_versions, None);

    let empty = VersionRetention::default();
    assert!(client.enable_versioning(&data, Ok(()), Some(empty)).unwrap().is_none());
    assert!(client.enable_versioning(&data, Ok(()), None).unwrap().is_none());
    match client.enable_versioning(&data, Err(Error::new("no")), Some(keep)) {
        Err(err) => assert_eq!(
            err.full_message(),
            "Failed to enable versioning on bucket 'data.prod.example.com': no"
        ),
        Ok(_) => panic!("a failure was lost"),
    }
    assert_eq!(
        client.retention_failed(&data, Error::new("x")).message(),
        "Failed to set version retention on bucket 'data.prod.example.com'"
    );
}

#[test]
fn failures_of_object_requests_are_reported() {
    let client = client();
    let data = BucketName::ConstPrefix("data");
    let cause = || Error::new("x");
    assert!(client.delete_object(&data, "k", Ok(())).is_ok());
    assert_eq!(
        client.delete_object(&data, "k", Err(cause())).unwrap_err().full_message(),
        "Failed to delete 'k' from bucket 'data.prod.example.com': x"
    );
    assert!(client.put_object(&data, "k", Ok(())).is_ok());
    assert_eq!(
        client.put_object(&data, "k", Err(cause())).unwrap_err().full_message(),
        "Failed to store object 'k' in bucket 'data...': x"
    );
    assert_eq!(client.get_object(&data, "k", Ok(Ok(vec![7]))).unwrap(), vec![7]);
    assert_eq!(
        client.get_object(&data, "k", Ok(Err(cause()))).unwrap_err().full_message(),
        "Failed to read object 'k' from bucket 'data...': x"
    );
    assert_eq!(
        client.get_object(&data, "k", Err(cause())).unwrap_err().full_message(),
        "Failed to fetch object 'k' from bucket 'data...': x"
    );
}

fn begin() -> MultipartUpload {
    match client().multipart_upload(&BucketName::ConstPrefix("data"), "k", Ok(Some("id-1".to_string()))) {
        Ok((id, upload)) => {
            assert_eq!(id, "id-1");
            upload
        }
        Err(_) => panic!("the upload did not begin"),
    }
}

#[test]
fn a_stream_is_uploaded_in_parts() {
    const SIZE: usize = MULTIPART_UPLOAD_IDEAL_PART_SIZE;
    let chunk = SIZE / 2 + 1;
    let stream: Vec<u8> = (0..chunk * 5).map(|i| (i % 251) as u8).collect();
    let mut upload = begin();
    let mut bodies: Vec<Vec<u8>> = Vec::new();
    let mut chunks = stream.chunks(chunk);
    let mut event = UploadEvent::Chunk(chunks.next().unwrap().to_vec());
    let parts = loop {
        let (next, action) = upload.step(event);
        upload = next;
        event = match action {
            UploadAction::Read => match chunks.next() {
                Some(bytes) => UploadEvent::Chunk(bytes.to_vec()),
                None => UploadEvent::EndOfStream,
            },
            UploadAction::UploadPart { part_number, body } => {
                bodies.push(body);
                assert_eq!(part_number as usize, bodies.len());
                UploadEvent::PartUploaded(Some(format!("tag-{part_number}")))
            }
            UploadAction::Complete(parts) => {
                let (next, action) = upload.step(UploadEvent::Completed);
                assert!(matches!(action, UploadAction::Done));
                assert_eq!(next.phase(), UploadPhase::Finished);
                break parts;
            }
            UploadAction::Done | UploadAction::Abort(_) => panic!("unexpected end"),
        };
    };
    assert_eq!(bodies.len(), 3);
    assert_eq!(bodies[0].len(), SIZE + 2);
    assert_eq!(bodies[2].len(), SIZE / 2 + 1);
    assert_eq!(bodies.concat(), stream);
    assert_eq!(parts.len(), 3);
    assert_eq!(parts[2].part_number, 3);
    assert_eq!(parts[2].e_tag, "tag-3");
}

#[test]
fn an_empty_stream_has_no_parts() {
    let (upload, action) = begin().step(UploadEvent::EndOfStream);
    assert_eq!(upload.phase(), UploadPhase::Completing);
    assert!(matches!(action, UploadAction::Complete(parts) if parts.is_empty()));
}

#[test]
fn an_upload_says_what_it_can_take() {
    let upload = begin();
    assert!(upload.can_take(&UploadEvent::EndOfStream));
    assert!(!upload.can_take(&UploadEvent::PartUploaded(None)));
    assert!(!upload.can_take(&UploadEvent::Completed));
    let (upload, _) = upload.step(UploadEvent::Chunk(vec![7]));
    let (upload, _) = upload.step(UploadEvent::EndOfStream);
    assert!(!upload.can_take(&UploadEvent::Chunk(vec![7])));
    assert!(upload.can_take(&UploadEvent::PartUploaded(None)));
    assert_eq!(upload.uploaded(), 0);
    let (upload, _) = upload.step(UploadEvent::PartUploaded(None));
    assert!(upload.can_take(&UploadEvent::Completed));
    assert_eq!(upload.uploaded(), 1);
    let (upload, _) = upload.step(UploadEvent::Completed);
    assert!(!upload.can_take(&UploadEvent::Completed));
    assert_eq!(upload.uploaded(), 1);
}

fn abort_message(action: UploadAction) -> Error {
    match action {
        UploadAction::Abort(err) => err,
        _ => panic!("the upload goes on"),
    }
}

#[test]
fn failures_abort_an_upload() {
    let (upload, action) = begin().step(UploadEvent::ReadFailed(Error::new("lost")));
    assert_eq!(upload.phase(), UploadPhase::Finished);
    let err = abort_message(action);
    assert_eq!(err.message(), "Failed to read body: lost");
    assert_eq!(into_rejection(err).status, 400);

    let (upload, action) = begin().step(UploadEvent::Chunk(vec![1, 2, 3]));
    assert!(matches!(action, UploadAction::Read));
    assert_eq!(upload.uploaded(), 0);
    let (upload, action) = upload.step(UploadEvent::EndOfStream);
    assert!(matches!(action, UploadAction::UploadPart { part_number: 1, ref body } if *body == vec![1, 2, 3]));
    let (_, action) = upload.step(UploadEvent::PartFailed(Error::new("x")));
    assert_eq!(
        abort_message(action).full_message(),
        "Failed to upload a part of a multipart upload of 'k' in bucket 'data.prod.example.com': x"
    );

    let big = vec![0; MULTIPART_UPLOAD_IDEAL_PART_SIZE];
    let (upload, action) = begin().step(UploadEvent::Chunk(big));
    assert!(matches!(action, UploadAction::UploadPart { part_number: 1, .. }));
    let (_, action) = upload.step(UploadEvent::PartFailed(Error::new("x")));
    assert_eq!(abort_message(action).full_message(), "x");

    let (upload, _) = begin().step(UploadEvent::EndOfStream);
    let (_, action) = upload.step(UploadEvent::CompletionFailed(Error::new("x")));
    assert_eq!(
        abort_message(action).full_message(),
        "Failed to complete multipart upload of 'k' in bucket 'data.prod.example.com': x"
    );
}

#[test]
fn an_upload_needs_an_identifier() {
    let data = BucketName::ConstPrefix("data");
    match client().multipart_upload(&data, "k", Ok(None)) {
        Err(err) => assert_eq!(
            err.message(),
            "Failed to receive upload id for a multipart upload of 'k' in bucket 'data...'"
        ),
        Ok(_) => panic!("an upload without an identifier"),
    }
    match client().multipart_upload(&data, "k", Err(Error::new("x"))) {
        Err(err) => assert_eq!(
            err.full_message(),
            "Failed to create multipart upload for 'k' in bucket 'data...': x"
        ),
        Ok(_) => panic!("a failure was lost"),
    }
}

#[test]
fn cached_objects_are_refreshed_by_their_tag() {
    let mut object: S3CachedObject<Vec<u8>> =
        S3CachedObject::new(BucketName::ConstPrefix("data"), "k", 100, 1_000);
    assert_eq!(object.to_text(), "k in data...");
    assert_eq!(object.object_key(), "k");
    assert_eq!(object.bucket().to_text(), "data...");
    assert!(object.fetch_from_inner_cache(1_000).is_none());
    assert!(object.fetched_since(0).is_none());
    assert_eq!(object.perform_fetch(), Refresh::Download);

    let downloaded = Some((vec![1], Some("t1".to_string())));
    assert_eq!(object.fetch_from_s3(downloaded, 2_000).unwrap(), &vec![1]);
    assert_eq!(object.fetch_from_inner_cache(2_099), Some(&vec![1]));
    assert_eq!(object.fetch_from_inner_cache(1_500), Some(&vec![1]));
    assert_eq!(object.fetch_from_inner_cache(2_100), None);
    assert_eq!(object.fetched_since(2_000), Some(&vec![1]));
    assert_eq!(object.fetched_since(2_001), None);

    assert_eq!(object.perform_fetch(), Refresh::ProbeEtag);
    assert!(!object.fetch_etag_from_s3(None, 3_000));
    assert!(!object.fetch_etag_from_s3(Some("t2".to_string()), 3_000));
    assert_eq!(object.fetched_since(3_000), None);
    assert!(object.fetch_etag_from_s3(Some("t1".to_string()), 3_000));
    assert_eq!(object.fetched_since(3_000), Some(&vec![1]));

    assert_eq!(object.fetch_from_s3(Some((vec![2], None)), 4_000).unwrap(), &vec![2]);
    assert_eq!(object.perform_fetch(), Refresh::Download);

    let err = object.fetch_from_s3(None, 5_000).unwrap_err();
    assert_eq!(err.message(), "Failed to fetch k from S3 bucket data...");
    assert!(object.fetch_from_inner_cache(5_000).is_none());
    assert_eq!(
        object.lock_timed_out(Error::new("deadline has elapsed")).full_message(),
        "Timed out after 25s waiting for fetch lock on 'k' in bucket 'data...': deadline has elapsed"
    );
}

#[test]
fn sizes_and_timeouts() {
    assert!(FETCH_LOCK_TIMEOUT_SECONDS > FETCH_S3_GET_TIMEOUT_SECONDS + FETCH_S3_HEAD_TIMEOUT_SECONDS);
    assert_eq!(MULTIPART_UPLOAD_IDEAL_PART_SIZE, 16 * 1000 * 1000);
    assert_eq!(MULTIPART_UPLOAD_BUFFER_SIZE - MULTIPART_UPLOAD_IDEAL_PART_SIZE, 16 * 1000);
}
