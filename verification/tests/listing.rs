use chunked_upload::engine::UploadEngine;
use chunked_upload::store::{ChunkRow, Store, UploadedFile};

fn sample_store() -> Store {
    let mut s = Store::new();
    let names = ["one", "two", "three"];
    let sizes: [i64; 3] = [30, 10, 20];
    let stamps: [i64; 3] = [100, 300, 200];
    let mut i = 0;
    while i < 3 {
        let meta = UploadedFile {
            file_id: format!("id-{}", i),
            filename: String::from(names[i]),
            total_size: sizes[i],
            checksum: String::new(),
            status: 0,
            file_path: String::new(),
            last_updated: stamps[i],
        };
        let row = ChunkRow {
            file_id: format!("id-{}", i),
            start_offset: 0,
            end_offset: (sizes[i] - 1) as u64,
            chunk_size: sizes[i] as u64,
            uploaded_size: 0,
            chunk_digest: String::new(),
            last_updated: stamps[i] as u64,
        };
        assert!(s.register(meta, vec![row]));
        i += 1;
    }
    s
}

#[test]
fn listing_keeps_store_order_by_default() {
    let e = UploadEngine { store: sample_store(), staging: Vec::new(), published: Vec::new() };
    let (total, files) = e.list_files(1, 10, None, "id", "asc");
    assert_eq!(total, 3);
    assert_eq!(files.len(), 3);
    assert_eq!(files[0].filename, "one");
    assert_eq!(files[1].filename, "two");
    assert_eq!(files[2].filename, "three");
    let (_, rev) = e.list_files(1, 10, None, "id", "desc");
    assert_eq!(rev[0].filename, "three");
    assert_eq!(rev[2].filename, "one");
}

#[test]
fn listing_sorts_by_size_and_date() {
    let e = UploadEngine { store: sample_store(), staging: Vec::new(), published: Vec::new() };
    let (_, by_size) = e.list_files(1, 10, None, "size", "asc");
    assert_eq!(by_size[0].total_size, 10);
    assert_eq!(by_size[1].total_size, 20);
    assert_eq!(by_size[2].total_size, 30);
    let (_, by_size_desc) = e.list_files(1, 10, None, "size", "desc");
    assert_eq!(by_size_desc[0].total_size, 30);
    let (_, by_date) = e.list_files(1, 10, None, "date", "asc");
    assert_eq!(by_date[0].last_updated, 100);
    assert_eq!(by_date[1].last_updated, 200);
    assert_eq!(by_date[2].last_updated, 300);
}

#[test]
fn listing_pages_and_filters() {
    let e = UploadEngine { store: sample_store(), staging: Vec::new(), published: Vec::new() };
    let (total, page1) = e.list_files(1, 2, None, "size", "asc");
    assert_eq!(total, 3);
    assert_eq!(page1.len(), 2);
    assert_eq!(page1[0].total_size, 10);
    assert_eq!(page1[1].total_size, 20);
    let (_, page2) = e.list_files(2, 2, None, "size", "asc");
    assert_eq!(page2.len(), 1);
    assert_eq!(page2[0].total_size, 30);
    let (_, page3) = e.list_files(3, 2, None, "size", "asc");
    assert_eq!(page3.len(), 0);
    // A status filter that matches nothing.
    let (none_total, none) = e.list_files(1, 10, Some(2), "id", "asc");
    assert_eq!(none_total, 0);
    assert_eq!(none.len(), 0);
    // A filter that matches everything (all rows are REGISTERED).
    let (all_total, all) = e.list_files(1, 10, Some(0), "id", "asc");
    assert_eq!(all_total, 3);
    assert_eq!(all.len(), 3);
}

#[test]
fn config_lookup_with_default() {
    let mut s = Store::new();
    assert_eq!(s.get_config("chunk_size", "1048576"), "1048576");
    s.set_config("chunk_size", "4");
    assert_eq!(s.get_config("chunk_size", "1048576"), "4");
    s.set_config("chunk_size", "8");
    assert_eq!(s.get_config("chunk_size", "1048576"), "8");
    assert_eq!(s.get_config("other", "fallback"), "fallback");
}

#[test]
fn transition_is_compare_and_set() {
    let mut s = sample_store();
    // Wrong expected status: no update.
    assert!(!s.transition_status("id-0", 1, 2, None, 500));
    assert_eq!(s.files[0].status, 0);
    // Correct expected status: advances.
    assert!(s.transition_status("id-0", 0, 1, None, 500));
    assert_eq!(s.files[0].status, 1);
    assert_eq!(s.files[0].last_updated, 500);
    // Publication is recorded once; a retry finds the guard false.
    let path = String::from("uploads/one");
    assert!(s.transition_status("id-0", 1, 2, Some(&path), 501));
    assert_eq!(s.files[0].status, 2);
    assert_eq!(s.files[0].file_path, "uploads/one");
    assert!(!s.transition_status("id-0", 1, 2, Some(&path), 502));
    assert_eq!(s.files[0].last_updated, 501);
}
