use chunked_upload::digest::{md5_hex, sha256_hex, to_hex};
use chunked_upload::engine::UploadEngine;
use chunked_upload::errors::UploadError;
use chunked_upload::naming::{fresh_file_id, sanitize_name};
use chunked_upload::parse::{parse_content_range, parse_u64};
use chunked_upload::response::ApiResponse;
use chunked_upload::schema::{check_table_columns, ColumnDef};
use chunked_upload::strutil::{str_eq, str_eq_ignore_case};

#[test]
fn md5_of_known_input() {
    assert_eq!(md5_hex(b"abc"), "900150983cd24fb0d6963f7d28e17f72");
    assert_eq!(md5_hex(b""), "d41d8cd98f00b204e9800998ecf8427e");
}

#[test]
fn sha256_of_known_input() {
    assert_eq!(
        sha256_hex(b"abc"),
        "ba7816bf8f01cfea414140de5dae2223b00361a396177a9cb410ff61f20015ad"
    );
}

#[test]
fn hex_encoding() {
    assert_eq!(to_hex(&[0xbe, 0xef]), "beef");
    assert_eq!(to_hex(&[]), "");
    assert_eq!(to_hex(&[0x00, 0x0a, 0xff]), "000aff");
}

#[test]
fn sanitizer_strips_separators() {
    assert_eq!(sanitize_name("a.bin"), "a.bin");
    assert_eq!(sanitize_name("a/b.txt"), "ab.txt");
    assert_eq!(sanitize_name(".."), "");
}

#[test]
fn fresh_ids_are_uuid_shaped() {
    let a = fresh_file_id();
    let b = fresh_file_id();
    assert_eq!(a.len(), 36);
    assert_eq!(b.len(), 36);
    assert_ne!(a, b);
}

#[test]
fn decimal_parsing() {
    assert_eq!(parse_u64("0"), Some(0));
    assert_eq!(parse_u64("123"), Some(123));
    assert_eq!(parse_u64("18446744073709551615"), Some(u64::MAX));
    assert_eq!(parse_u64("18446744073709551616"), None);
    assert_eq!(parse_u64(""), None);
    assert_eq!(parse_u64("12a"), None);
    assert_eq!(parse_u64("-3"), None);
}

#[test]
fn content_range_parsing() {
    assert_eq!(parse_content_range("bytes 0-1/*"), Some((0, 1)));
    assert_eq!(parse_content_range("bytes 5-9"), Some((5, 9)));
    assert_eq!(parse_content_range("bytes 12-34/56"), Some((12, 34)));
    assert_eq!(parse_content_range("5-9/*"), None);
    assert_eq!(parse_content_range("bytes x-9/*"), None);
    assert_eq!(parse_content_range("bytes 9/*"), None);
    assert_eq!(parse_content_range("bytes -9/*"), None);
}

#[test]
fn string_comparisons() {
    assert!(str_eq("abc", "abc"));
    assert!(!str_eq("abc", "abd"));
    assert!(!str_eq("abc", "ab"));
    assert!(str_eq_ignore_case("AbC", "abc"));
    assert!(str_eq_ignore_case("7AC66C0F", "7ac66c0f"));
    assert!(!str_eq_ignore_case("abc", "abd"));
}

#[test]
fn envelope_shapes() {
    let ok: ApiResponse<u64> = ApiResponse::success(7);
    assert_eq!(ok.status, 1);
    assert_eq!(ok.code, "0");
    assert_eq!(ok.message, "Success");
    assert_eq!(ok.data, Some(7));
    let err: ApiResponse<u64> = ApiResponse::error(
        String::from("SYSTEM_NOT_INITIALIZED"),
        String::from("System not initialized"),
    );
    assert_eq!(err.status, 0);
    assert_eq!(err.code, "SYSTEM_NOT_INITIALIZED");
    assert!(err.data.is_none());
}

#[test]
fn error_codes() {
    assert_eq!(UploadError::InvalidArgument.code(), "INVALID_ARGUMENT");
    assert_eq!(UploadError::NotFound.code(), "NOT_FOUND");
    assert_eq!(UploadError::Conflict.code(), "CONFLICT");
    assert_eq!(UploadError::AlreadyExists.code(), "ALREADY_EXISTS");
    assert_eq!(UploadError::Unavailable.code(), "UNAVAILABLE");
    assert_eq!(UploadError::DataLoss.code(), "DATA_LOSS");
}

fn col(name: &str, col_type: &str) -> ColumnDef {
    ColumnDef { name: String::from(name), col_type: String::from(col_type) }
}

#[test]
fn table_structure_comparison() {
    let expected = vec![col("file_id", "VARCHAR"), col("total_size", "BIGINT")];
    let good = vec![col("file_id", "varchar(64)"), col("total_size", "bigint")];
    assert!(check_table_columns(&expected, &good));
    // Type not matching the declaration.
    let bad_type = vec![col("file_id", "int"), col("total_size", "bigint")];
    assert!(!check_table_columns(&expected, &bad_type));
    // A column the declaration does not know.
    let extra = vec![
        col("file_id", "varchar(64)"),
        col("total_size", "bigint"),
        col("rogue", "text"),
    ];
    assert!(!check_table_columns(&expected, &extra));
    // A declared column that is missing.
    let missing = vec![col("file_id", "varchar(64)")];
    assert!(!check_table_columns(&expected, &missing));
}

fn ready_engine(chunk_size: &str) -> UploadEngine {
    let mut e = UploadEngine::new();
    e.set_config("system_initialized", "success");
    e.set_config("chunk_size", chunk_size);
    e
}

#[test]
fn register_rejects_bad_input() {
    let mut e = ready_engine("4");
    let zero = e.register_file("a.bin", 0, "00", 1);
    assert!(matches!(zero, Err(UploadError::InvalidArgument)));
    let empty = e.register_file("..", 3, "00", 1);
    assert!(matches!(empty, Err(UploadError::InvalidArgument)));
    assert_eq!(e.store.files.len(), 0);
}

#[test]
fn register_duplicate_id() {
    let mut e = ready_engine("4");
    let first = e.register_file_with_id(String::from("fixed-id"), "a.bin", 3, "00", 1);
    assert!(first.is_ok());
    let second = e.register_file_with_id(String::from("fixed-id"), "b.bin", 5, "00", 2);
    assert!(matches!(second, Err(UploadError::AlreadyExists)));
    assert_eq!(e.store.files.len(), 1);
}

#[test]
fn chunk_size_falls_back_to_default() {
    let mut e = UploadEngine::new();
    e.set_config("system_initialized", "success");
    e.set_config("chunk_size", "notanumber");
    let plan = match e.register_file("a.bin", 3, "00", 1) {
        Ok(p) => p,
        Err(_) => panic!("register failed"),
    };
    assert_eq!(plan.chunk_size, 1048576);
    assert_eq!(plan.total_chunks, 1);
    let mut e2 = UploadEngine::new();
    e2.set_config("system_initialized", "success");
    e2.set_config("chunk_size", "0");
    let plan2 = match e2.register_file("b.bin", 3, "00", 1) {
        Ok(p) => p,
        Err(_) => panic!("register failed"),
    };
    assert_eq!(plan2.chunk_size, 1048576);
}

#[test]
fn upload_error_paths() {
    let mut e = ready_engine("4");
    let plan = match e.register_file("a.bin", 7, "7ac66c0f148de9519b8bd264312c4d64", 1) {
        Ok(p) => p,
        Err(_) => panic!("register failed"),
    };
    let body = vec![b"ab".to_vec()];
    // Unknown file.
    let r1 = e.upload_chunk("nope", 0, 2, None, &body, 2);
    assert!(matches!(r1, Err(UploadError::NotFound)));
    // No chunk at that offset.
    let r2 = e.upload_chunk(plan.file_id.as_str(), 1, 2, None, &body, 2);
    assert!(matches!(r2, Err(UploadError::NotFound)));
    // Byte count exceeding the chunk.
    let big = vec![b"abcde".to_vec()];
    let r3 = e.upload_chunk(plan.file_id.as_str(), 0, 5, None, &big, 2);
    assert!(matches!(r3, Err(UploadError::InvalidArgument)));
    // Garbled range header.
    let r4 = e.upload_chunk(plan.file_id.as_str(), 0, 2, Some("bogus"), &body, 2);
    assert!(matches!(r4, Err(UploadError::InvalidArgument)));
    // Range before the chunk's own start.
    let r5 = e.upload_chunk(plan.file_id.as_str(), 4, 2, Some("bytes 0-1/*"), &body, 2);
    assert!(matches!(r5, Err(UploadError::InvalidArgument)));
    // Range past the chunk's end.
    let r6 = e.upload_chunk(plan.file_id.as_str(), 0, 2, Some("bytes 3-4/*"), &body, 2);
    assert!(matches!(r6, Err(UploadError::InvalidArgument)));
}

#[test]
fn upload_after_completion_conflicts() {
    let mut e = ready_engine("4");
    let plan = match e.register_file("a.bin", 3, "900150983cd24fb0d6963f7d28e17f72", 1) {
        Ok(p) => p,
        Err(_) => panic!("register failed"),
    };
    let body = vec![b"abc".to_vec()];
    match e.upload_chunk(plan.file_id.as_str(), 0, 3, None, &body, 2) {
        Ok(o) => assert!(o.completed),
        Err(_) => panic!("upload failed"),
    }
    let again = e.upload_chunk(plan.file_id.as_str(), 0, 3, None, &body, 3);
    assert!(matches!(again, Err(UploadError::Conflict)));
}

#[test]
fn progress_accumulates() {
    let mut e = ready_engine("4");
    let plan = match e.register_file("a.bin", 7, "7ac66c0f148de9519b8bd264312c4d64", 1) {
        Ok(p) => p,
        Err(_) => panic!("register failed"),
    };
    let body = vec![b"ef".to_vec()];
    match e.upload_chunk(plan.file_id.as_str(), 4, 2, None, &body, 2) {
        Ok(o) => {
            assert!(!o.completed);
            assert_eq!(o.size, 2);
        },
        Err(_) => panic!("upload failed"),
    }
    let st = match e.file_progress(plan.file_id.as_str()) {
        Ok(s) => s,
        Err(_) => panic!("progress failed"),
    };
    assert_eq!(st.total_size, 7);
    assert_eq!(st.uploaded_size, 2);
    assert_eq!(st.filename, "a.bin");
}

#[test]
fn buffered_body_is_cut_at_content_length() {
    let mut e = ready_engine("8");
    let plan = match e.register_file("a.bin", 6, "0", 1) {
        Ok(p) => p,
        Err(_) => panic!("register failed"),
    };
    // Three buffers, five bytes declared: the last buffer is cut short.
    let body = vec![b"ab".to_vec(), b"cd".to_vec(), b"efgh".to_vec()];
    match e.upload_chunk(plan.file_id.as_str(), 0, 5, None, &body, 2) {
        Ok(o) => {
            assert!(!o.completed);
            assert_eq!(o.size, 5);
            assert_eq!(o.checksum, sha256_hex(b"abcde"));
        },
        Err(_) => panic!("upload failed"),
    }
    assert_eq!(e.staging.len(), 1);
    assert_eq!(e.staging[0].bytes, b"abcde".to_vec());
}
