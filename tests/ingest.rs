use invox::index::{
    FileIndex, FileListQuery, FileMetadata, FileStorage, IndexError, IngestResult,
};
use invox::listing::ListError;
use invox::status::FileStatus;

fn id_of(r: &IngestResult) -> String {
    match r {
        IngestResult::Created(id) => id.clone(),
        IngestResult::Duplicate(id) => id.clone(),
    }
}

#[test]
fn same_bytes_twice_are_stored_once() {
    let mut index = FileIndex::new();
    let first = index.ingest("/store", "invoice.pdf", b"%PDF-1.4 body").unwrap();
    let second = index.ingest("/store", "invoice.pdf", b"%PDF-1.4 body").unwrap();
    assert!(matches!(first, IngestResult::Created(_)));
    assert_eq!(second, IngestResult::Duplicate(id_of(&first)));
    assert_eq!(index.entries.len(), 1);
}

#[test]
fn same_content_under_another_name_keeps_the_first_name() {
    let mut index = FileIndex::new();
    let first = index.ingest("/store", "a.pdf", b"same content").unwrap();
    let second = index.ingest("/store", "b.pdf", b"same content").unwrap();
    assert_eq!(second, IngestResult::Duplicate(id_of(&first)));
    assert_eq!(index.entries.len(), 1);
    assert_eq!(index.entries[0].original_name, "a.pdf");
}

#[test]
fn new_content_gets_a_fresh_unprocessed_entry() {
    let mut index = FileIndex::new();
    let r = index.ingest("/store", "scan.png", b"\x89PNG data").unwrap();
    let id = id_of(&r);
    let e = &index.entries[0];
    assert_eq!(e.id, id);
    assert_eq!(e.stored_path, format!("/store/{}.png", id));
    assert_eq!(e.size_bytes, 9);
    assert_eq!(e.status, FileStatus::Unprocessed);
    assert_eq!(e.content_hash, invox::hashing::FileHasher::calculate_hash(b"\x89PNG data"));
    assert!(e.parsed_payload.is_none());
    assert!(e.processed_at.is_none());
    let other = index.ingest("/store", "notes", b"other").unwrap();
    assert!(matches!(other, IngestResult::Created(_)));
    assert_eq!(index.entries.len(), 2);
    assert_eq!(index.entries[1].stored_path, format!("/store/{}", id_of(&other)));
}

#[test]
fn ingest_hashed_records_given_values() {
    let mut index = FileIndex::new();
    let r = index.ingest_hashed("/s", "a.txt", "h1".to_string(), 3, "id-1".to_string(), "t0".to_string());
    assert_eq!(r, Ok(IngestResult::Created("id-1".to_string())));
    assert_eq!(index.entries[0].stored_path, "/s/id-1.txt");
    assert_eq!(index.entries[0].created_at, "t0");
    let again = index.ingest_hashed("/s", "b.txt", "h1".to_string(), 3, "id-2".to_string(), "t1".to_string());
    assert_eq!(again, Ok(IngestResult::Duplicate("id-1".to_string())));
}

#[test]
fn late_duplicate_on_insert_is_reported_as_duplicate() {
    let mut index = FileIndex::new();
    FileMetadata::save_metadata(&mut index, "id-1", "h1", "a.pdf", "/s/id-1.pdf", 10, "t0").unwrap();
    let r = FileMetadata::save_metadata(&mut index, "id-2", "h1", "b.pdf", "/s/id-2.pdf", 10, "t1");
    assert_eq!(r, Ok(IngestResult::Duplicate("id-1".to_string())));
    assert_eq!(index.entries.len(), 1);
}

#[test]
fn taken_identifier_is_refused() {
    let mut index = FileIndex::new();
    FileMetadata::save_metadata(&mut index, "id-1", "h1", "a.pdf", "/s/id-1.pdf", 10, "t0").unwrap();
    let r = FileMetadata::save_metadata(&mut index, "id-1", "h2", "b.pdf", "/s/id-1.pdf", 10, "t1");
    assert_eq!(r, Err(IndexError::IdTaken));
    assert_eq!(index.entries.len(), 1);
}

#[test]
fn check_duplicate_finds_the_holder() {
    let mut index = FileIndex::new();
    FileMetadata::save_metadata(&mut index, "id-1", "h1", "a.pdf", "/s/id-1.pdf", 10, "t0").unwrap();
    assert_eq!(FileMetadata::check_duplicate(&index, "h1"), Some("id-1".to_string()));
    assert_eq!(FileMetadata::check_duplicate(&index, "h9"), None);
}

#[test]
fn stored_path_uses_id_and_extension() {
    assert_eq!(FileStorage::stored_path("/s", "u1", "bill.jpeg"), "/s/u1.jpeg");
    assert_eq!(FileStorage::stored_path("/s", "u1", "bill"), "/s/u1");
}

fn three_files() -> FileIndex {
    let mut index = FileIndex::new();
    FileMetadata::save_metadata(&mut index, "f1", "h1", "alpha.pdf", "/s/f1.pdf", 1, "t1").unwrap();
    FileMetadata::save_metadata(&mut index, "f2", "h2", "Beta.pdf", "/s/f2.pdf", 2, "t2").unwrap();
    FileMetadata::save_metadata(&mut index, "f3", "h3", "gamma.png", "/s/f3.png", 3, "t3").unwrap();
    index
}

#[test]
fn processed_status_records_the_time_and_others_clear_it() {
    let mut index = three_files();
    assert!(index.update_status_at("f2", FileStatus::Processed, "t9".to_string()));
    assert_eq!(index.entries[1].status, FileStatus::Processed);
    assert_eq!(index.entries[1].processed_at, Some("t9".to_string()));
    assert_eq!(index.entries[1].updated_at, "t9");
    assert_eq!(index.entries[0].status, FileStatus::Unprocessed);
    assert!(index.update_status_at("f2", FileStatus::Processing, "t10".to_string()));
    assert_eq!(index.entries[1].processed_at, None);
    assert!(!index.update_status_at("nope", FileStatus::Failed, "t11".to_string()));
    assert!(index.update_status("f1", FileStatus::Failed));
    assert_eq!(index.entries[0].status, FileStatus::Failed);
}

#[test]
fn bulk_status_update_on_no_ids_changes_nothing() {
    let mut index = three_files();
    index.update_status_bulk_at(&Vec::new(), FileStatus::Processed, "t9".to_string());
    for e in &index.entries {
        assert_eq!(e.status, FileStatus::Unprocessed);
        assert!(e.processed_at.is_none());
    }
    index.update_status_bulk(&Vec::new(), FileStatus::Failed);
    assert!(index.entries.iter().all(|e| e.status == FileStatus::Unprocessed));
}

#[test]
fn bulk_status_update_applies_to_every_listed_id() {
    let mut index = three_files();
    let ids = vec!["f1".to_string(), "f3".to_string(), "missing".to_string()];
    index.update_status_bulk_at(&ids, FileStatus::Processed, "t9".to_string());
    assert_eq!(index.entries[0].status, FileStatus::Processed);
    assert_eq!(index.entries[1].status, FileStatus::Unprocessed);
    assert_eq!(index.entries[2].status, FileStatus::Processed);
    assert_eq!(index.entries[2].processed_at, Some("t9".to_string()));
}

#[test]
fn parsed_payload_attaches_to_one_entry() {
    let mut index = three_files();
    assert!(index.attach_parsed_payload("f2", "{\"total\":3}".to_string()));
    assert_eq!(index.entries[1].parsed_payload, Some("{\"total\":3}".to_string()));
    assert!(index.entries[0].parsed_payload.is_none());
    assert!(!index.attach_parsed_payload("nope", "x".to_string()));
}

#[test]
fn delete_files_removes_entries_and_returns_paths() {
    let mut index = three_files();
    let paths = index.delete_files(&vec!["f3".to_string(), "f1".to_string(), "zz".to_string()]);
    assert_eq!(paths, vec!["/s/f1.pdf".to_string(), "/s/f3.png".to_string()]);
    assert_eq!(index.entries.len(), 1);
    assert_eq!(index.entries[0].id, "f2");
    assert!(index.delete_files(&Vec::new()).is_empty());
    assert_eq!(index.entries.len(), 1);
}

#[test]
fn recent_files_come_newest_first() {
    let index = three_files();
    let rows = index.list_recent(2);
    assert_eq!(rows.len(), 2);
    assert_eq!(rows[0].id, "f3");
    assert_eq!(rows[1].id, "f2");
    assert_eq!(rows[1].file_name, "Beta.pdf");
    assert_eq!(rows[1].hash, "h2");
    assert_eq!(index.list_recent(50).len(), 3);
}

fn query(status: Option<&str>, search: Option<&str>, limit: i64, offset: i64, order: Option<&str>) -> FileListQuery {
    FileListQuery {
        status_filter: status.map(|s| s.to_string()),
        search_query: search.map(|s| s.to_string()),
        limit,
        offset,
        sort_by: None,
        sort_order: order.map(|s| s.to_string()),
    }
}

#[test]
fn paginated_listing_filters_counts_and_pages() {
    let mut index = three_files();
    index.update_status_at("f2", FileStatus::Processed, "t9".to_string());
    let all = index.list_paginated(&query(None, None, 10, 0, None)).unwrap();
    assert_eq!(all.total_count, 3);
    let ids: Vec<&str> = all.files.iter().map(|f| f.id.as_str()).collect();
    assert_eq!(ids, vec!["f3", "f2", "f1"]);
    let asc = index.list_paginated(&query(None, None, 2, 1, Some("asc"))).unwrap();
    let ids: Vec<&str> = asc.files.iter().map(|f| f.id.as_str()).collect();
    assert_eq!(ids, vec!["f2", "f3"]);
    let processed = index.list_paginated(&query(Some("Processed"), None, 10, 0, None)).unwrap();
    assert_eq!(processed.total_count, 1);
    assert_eq!(processed.files[0].id, "f2");
    assert_eq!(processed.files[0].status, FileStatus::Processed);
    assert_eq!(processed.files[0].processed_at, Some("t9".to_string()));
    let search = index.list_paginated(&query(None, Some("BETA"), 10, 0, None)).unwrap();
    assert_eq!(search.total_count, 1);
    assert_eq!(search.files[0].file_name, "Beta.pdf");
    let pdfs = index.list_paginated(&query(None, Some(".pdf"), -1, 5, None)).unwrap();
    assert_eq!(pdfs.total_count, 2);
    assert!(pdfs.files.is_empty());
}

#[test]
fn paginated_listing_sorts_by_the_named_column() {
    let index = three_files();
    let mut q = query(None, None, 10, 0, Some("ASC"));
    q.sort_by = Some("file_name".to_string());
    let by_name = index.list_paginated(&q).unwrap();
    let names: Vec<&str> = by_name.files.iter().map(|f| f.file_name.as_str()).collect();
    assert_eq!(names, vec!["Beta.pdf", "alpha.pdf", "gamma.png"]);
    q.sort_by = Some("size_bytes".to_string());
    q.sort_order = Some("desc".to_string());
    let by_size = index.list_paginated(&q).unwrap();
    let sizes: Vec<i64> = by_size.files.iter().map(|f| f.size_bytes).collect();
    assert_eq!(sizes, vec![3, 2, 1]);
    q.sort_by = Some("size_bytes; DROP TABLE files".to_string());
    assert_eq!(index.list_paginated(&q).err(), Some(ListError::UnknownColumn));
    q.sort_by = None;
    q.sort_order = Some("sideways".to_string());
    assert_eq!(index.list_paginated(&q).err(), Some(ListError::UnknownOrder));
}

#[test]
fn attaching_a_payload_refreshes_the_update_time() {
    let mut index = three_files();
    assert!(index.attach_parsed_payload_at("f1", "{}".to_string(), "t7".to_string()));
    assert_eq!(index.entries[0].updated_at, "t7");
    assert_eq!(index.entries[0].parsed_payload, Some("{}".to_string()));
    assert_eq!(index.entries[1].updated_at, "t2");
}

#[test]
fn index_from_stored_rows_refuses_repeated_content() {
    let mut index = three_files();
    let mut entries = std::mem::take(&mut index.entries);
    let rebuilt = FileIndex::from_entries(entries.drain(..2).collect()).unwrap();
    assert_eq!(rebuilt.entries.len(), 2);
    let mut twice = FileIndex::new();
    FileMetadata::save_metadata(&mut twice, "x1", "same", "a", "/s/x1", 1, "t").unwrap();
    let mut other = FileIndex::new();
    FileMetadata::save_metadata(&mut other, "x2", "same", "b", "/s/x2", 1, "t").unwrap();
    let mut both = std::mem::take(&mut twice.entries);
    both.append(&mut other.entries);
    assert!(FileIndex::from_entries(both).is_none());
    assert!(FileIndex::from_entries(Vec::new()).is_some());
}
