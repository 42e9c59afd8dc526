use chunked_upload::engine::UploadEngine;
use chunked_upload::errors::UploadError;
use chunked_upload::reporter::StatusLabel;

fn ready_engine(chunk_size: &str) -> UploadEngine {
    let mut e = UploadEngine::new();
    e.set_config("system_initialized", "success");
    e.set_config("chunk_size", chunk_size);
    e
}

#[test]
fn happy_path_single_chunk() {
    let mut e = ready_engine("4");
    let plan = match e.register_file("a.bin", 3, "900150983cd24fb0d6963f7d28e17f72", 1000) {
        Ok(p) => p,
        Err(_) => panic!("register failed"),
    };
    assert_eq!(plan.filename, "a.bin");
    assert_eq!(plan.chunk_size, 4);
    assert_eq!(plan.total_chunks, 1);
    assert_eq!(plan.chunks.len(), 1);
    assert_eq!(plan.chunks[0].start_offset, 0);
    assert_eq!(plan.chunks[0].end_offset, 2);
    assert_eq!(plan.chunks[0].chunk_size, 3);
    let body = vec![b"abc".to_vec()];
    let out = match e.upload_chunk(plan.file_id.as_str(), 0, 3, None, &body, 1001) {
        Ok(o) => o,
        Err(_) => panic!("upload failed"),
    };
    assert!(out.completed);
    assert_eq!(out.filename, "a.bin");
    assert_eq!(out.size, 3);
    assert_eq!(out.checksum, "900150983cd24fb0d6963f7d28e17f72");
    let rep = match e.file_status(plan.file_id.as_str(), 1002) {
        Ok(r) => r,
        Err(_) => panic!("status failed"),
    };
    assert!(matches!(rep.status, StatusLabel::Completed));
    assert!(rep.chunks.is_none());
}

#[test]
fn two_chunks_out_of_order() {
    let mut e = ready_engine("4");
    let plan = match e.register_file("b.bin", 7, "7ac66c0f148de9519b8bd264312c4d64", 2000) {
        Ok(p) => p,
        Err(_) => panic!("register failed"),
    };
    assert_eq!(plan.total_chunks, 2);
    assert_eq!(plan.chunks[0].start_offset, 0);
    assert_eq!(plan.chunks[0].end_offset, 3);
    assert_eq!(plan.chunks[1].start_offset, 4);
    assert_eq!(plan.chunks[1].end_offset, 6);
    assert_eq!(plan.chunks[1].chunk_size, 3);
    let late = vec![b"efg".to_vec()];
    let out1 = match e.upload_chunk(plan.file_id.as_str(), 4, 3, None, &late, 2001) {
        Ok(o) => o,
        Err(_) => panic!("first upload failed"),
    };
    assert!(!out1.completed);
    assert_eq!(out1.size, 3);
    let early = vec![b"abcd".to_vec()];
    let out2 = match e.upload_chunk(plan.file_id.as_str(), 0, 4, None, &early, 2002) {
        Ok(o) => o,
        Err(_) => panic!("second upload failed"),
    };
    assert!(out2.completed);
    assert_eq!(out2.size, 7);
    assert_eq!(out2.checksum, "7ac66c0f148de9519b8bd264312c4d64");
    let (total, files) = e.list_files(1, 10, None, "id", "asc");
    assert_eq!(total, 1);
    assert_eq!(files.len(), 1);
    assert_eq!(files[0].status, 2);
    assert_eq!(files[0].file_path, "uploads/b.bin");
}

#[test]
fn resume_mid_chunk() {
    let mut e = ready_engine("4");
    let plan = match e.register_file("c.bin", 4, "e89eb41d980d68d6b1f22c893dc53514", 3000) {
        Ok(p) => p,
        Err(_) => panic!("register failed"),
    };
    let first = vec![b"WX".to_vec()];
    let out1 = match e.upload_chunk(
        plan.file_id.as_str(),
        0,
        2,
        Some("bytes 0-1/*"),
        &first,
        3001,
    ) {
        Ok(o) => o,
        Err(_) => panic!("first half failed"),
    };
    assert!(!out1.completed);
    assert_eq!(out1.size, 2);
    let rep = match e.file_status(plan.file_id.as_str(), 3001) {
        Ok(r) => r,
        Err(_) => panic!("status failed"),
    };
    let rows = rep.chunks.expect("chunk rows expected while uploading");
    assert_eq!(rows.len(), 1);
    assert_eq!(rows[0].uploaded_size, 2);
    let second = vec![b"YZ".to_vec()];
    let out2 = match e.upload_chunk(
        plan.file_id.as_str(),
        0,
        2,
        Some("bytes 2-3/*"),
        &second,
        3002,
    ) {
        Ok(o) => o,
        Err(_) => panic!("second half failed"),
    };
    assert!(out2.completed);
    assert_eq!(out2.checksum, "e89eb41d980d68d6b1f22c893dc53514");
}

#[test]
fn digest_mismatch_leaves_processing() {
    let mut e = ready_engine("4");
    let plan = match e.register_file("d.bin", 3, "00000000000000000000000000000000", 4000) {
        Ok(p) => p,
        Err(_) => panic!("register failed"),
    };
    let body = vec![b"abc".to_vec()];
    let r = e.upload_chunk(plan.file_id.as_str(), 0, 3, None, &body, 4001);
    assert!(matches!(r, Err(UploadError::DataLoss)));
    let rep = match e.file_status(plan.file_id.as_str(), 4002) {
        Ok(rr) => rr,
        Err(_) => panic!("status failed"),
    };
    assert!(matches!(rep.status, StatusLabel::Processing));
    // Staging files consumed; the mismatching assembled file kept on disk.
    assert_eq!(e.staging.len(), 0);
    assert_eq!(e.published.len(), 1);
    assert_eq!(e.published[0].path, "uploads/d.bin");
    assert_eq!(e.published[0].bytes, b"abc".to_vec());
}

#[test]
fn paused_detection() {
    let mut e = ready_engine("4");
    let plan = match e.register_file("e.bin", 7, "7ac66c0f148de9519b8bd264312c4d64", 5000) {
        Ok(p) => p,
        Err(_) => panic!("register failed"),
    };
    let body = vec![b"abcd".to_vec()];
    match e.upload_chunk(plan.file_id.as_str(), 0, 4, None, &body, 5000) {
        Ok(o) => assert!(!o.completed),
        Err(_) => panic!("upload failed"),
    }
    let rep = match e.file_status(plan.file_id.as_str(), 5061) {
        Ok(r) => r,
        Err(_) => panic!("status failed"),
    };
    assert!(matches!(rep.status, StatusLabel::Paused));
    let rows = rep.chunks.expect("both chunk rows expected");
    assert_eq!(rows.len(), 2);
    // A write on the second chunk within the next second flips the label.
    let one = vec![b"e".to_vec()];
    match e.upload_chunk(plan.file_id.as_str(), 4, 1, None, &one, 5061) {
        Ok(o) => assert!(!o.completed),
        Err(_) => panic!("second upload failed"),
    }
    let rep2 = match e.file_status(plan.file_id.as_str(), 5062) {
        Ok(r) => r,
        Err(_) => panic!("status failed"),
    };
    assert!(matches!(rep2.status, StatusLabel::Uploading));
}

#[test]
fn resume_overwrite_is_idempotent() {
    // Re-uploading a tail of an already-written range with the same bytes
    // leaves the staging bytes, and so the final file, unchanged.
    let mut e = ready_engine("4");
    let plan = match e.register_file("f.bin", 7, "7ac66c0f148de9519b8bd264312c4d64", 7000) {
        Ok(p) => p,
        Err(_) => panic!("register failed"),
    };
    let whole = vec![b"abcd".to_vec()];
    match e.upload_chunk(plan.file_id.as_str(), 0, 4, None, &whole, 7001) {
        Ok(o) => assert!(!o.completed),
        Err(_) => panic!("chunk 0 failed"),
    }
    assert_eq!(e.staging[0].bytes, b"abcd".to_vec());
    let tail = vec![b"cd".to_vec()];
    match e.upload_chunk(plan.file_id.as_str(), 0, 2, Some("bytes 2-3/*"), &tail, 7002) {
        Ok(o) => assert!(!o.completed),
        Err(_) => panic!("re-upload failed"),
    }
    assert_eq!(e.staging[0].bytes, b"abcd".to_vec());
    let rest = vec![b"efg".to_vec()];
    let out = match e.upload_chunk(plan.file_id.as_str(), 4, 3, None, &rest, 7003) {
        Ok(o) => o,
        Err(_) => panic!("chunk 1 failed"),
    };
    assert!(out.completed);
    assert_eq!(out.checksum, "7ac66c0f148de9519b8bd264312c4d64");
}

#[test]
fn chunk_order_does_not_matter() {
    // Any order of chunk uploads that covers every byte once yields the
    // same published bytes and the same whole-file digest.
    let mut forward = ready_engine("4");
    let mut backward = ready_engine("4");
    let pf = match forward.register_file("g.bin", 7, "7ac66c0f148de9519b8bd264312c4d64", 8000) {
        Ok(p) => p,
        Err(_) => panic!("register failed"),
    };
    let pb = match backward.register_file("g.bin", 7, "7ac66c0f148de9519b8bd264312c4d64", 8000) {
        Ok(p) => p,
        Err(_) => panic!("register failed"),
    };
    let head = vec![b"abcd".to_vec()];
    let tail = vec![b"efg".to_vec()];
    match forward.upload_chunk(pf.file_id.as_str(), 0, 4, None, &head, 8001) {
        Ok(o) => assert!(!o.completed),
        Err(_) => panic!("forward chunk 0 failed"),
    }
    let out_f = match forward.upload_chunk(pf.file_id.as_str(), 4, 3, None, &tail, 8002) {
        Ok(o) => o,
        Err(_) => panic!("forward chunk 1 failed"),
    };
    match backward.upload_chunk(pb.file_id.as_str(), 4, 3, None, &tail, 8001) {
        Ok(o) => assert!(!o.completed),
        Err(_) => panic!("backward chunk 1 failed"),
    }
    let out_b = match backward.upload_chunk(pb.file_id.as_str(), 0, 4, None, &head, 8002) {
        Ok(o) => o,
        Err(_) => panic!("backward chunk 0 failed"),
    };
    assert!(out_f.completed && out_b.completed);
    assert_eq!(out_f.checksum, out_b.checksum);
    assert_eq!(forward.published.len(), 1);
    assert_eq!(backward.published.len(), 1);
    assert_eq!(forward.published[0].bytes, backward.published[0].bytes);
    assert_eq!(forward.published[0].bytes, b"abcdefg".to_vec());
}

#[test]
fn not_initialized_rejects_mutations() {
    let mut e = UploadEngine::new();
    let r = e.register_file("a.bin", 3, "900150983cd24fb0d6963f7d28e17f72", 1000);
    assert!(matches!(r, Err(UploadError::NotInitialized)));
    assert_eq!(UploadError::NotInitialized.code(), "SYSTEM_NOT_INITIALIZED");
    let body = vec![b"abc".to_vec()];
    let u = e.upload_chunk("no-such-id", 0, 3, None, &body, 1000);
    assert!(matches!(u, Err(UploadError::NotInitialized)));
    // No store writes happened.
    assert_eq!(e.store.files.len(), 0);
    assert_eq!(e.store.chunks.len(), 0);
    assert_eq!(e.staging.len(), 0);
}

#[test]
fn missing_staging_is_unavailable() {
    // Two files registered under one sanitized name share staging paths;
    // assembling the first consumes the shared staging file, and the
    // second then fails assembly with a transient error.
    let mut e = ready_engine("4");
    let plan_b = match e.register_file("x", 7, "7ac66c0f148de9519b8bd264312c4d64", 6000) {
        Ok(p) => p,
        Err(_) => panic!("register b failed"),
    };
    let plan_a = match e.register_file("x", 3, "900150983cd24fb0d6963f7d28e17f72", 6001) {
        Ok(p) => p,
        Err(_) => panic!("register a failed"),
    };
    // File b fills its first chunk; the staging file `x_chunk_0` appears.
    let b0 = vec![b"abcd".to_vec()];
    match e.upload_chunk(plan_b.file_id.as_str(), 0, 4, None, &b0, 6002) {
        Ok(o) => assert!(!o.completed),
        Err(_) => panic!("b chunk 0 failed"),
    }
    // File a writes its whole content into the shared staging file and
    // crosses its completion threshold; its assembly consumes the staging
    // file, and the leftover fourth byte makes its digest check fail.
    let a0 = vec![b"abc".to_vec()];
    let ra = e.upload_chunk(plan_a.file_id.as_str(), 0, 3, None, &a0, 6003);
    assert!(matches!(ra, Err(UploadError::DataLoss)));
    // File b finishes its second chunk, but its first staging file is gone.
    let b1 = vec![b"efg".to_vec()];
    let rb = e.upload_chunk(plan_b.file_id.as_str(), 4, 3, None, &b1, 6004);
    assert!(matches!(rb, Err(UploadError::Unavailable)));
    let rep = match e.file_status(plan_b.file_id.as_str(), 6005) {
        Ok(r) => r,
        Err(_) => panic!("status failed"),
    };
    assert!(matches!(rep.status, StatusLabel::Processing));
}
