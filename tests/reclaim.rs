use invox::index::{FileIndex, FileMetadata};
use invox::reclaim::{reclaimable, storage_stats, UnitOfWork, UnitStatus};

fn unit(id: i64, status: UnitStatus, files: &[&str]) -> UnitOfWork {
    UnitOfWork {
        id,
        name: format!("unit-{}", id),
        status,
        file_ids: files.iter().map(|s| s.to_string()).collect(),
        file_count: files.len() as u64,
    }
}

fn index_of(ids: &[&str]) -> FileIndex {
    let mut index = FileIndex::new();
    for (k, id) in ids.iter().enumerate() {
        FileMetadata::save_metadata(&mut index, id, &format!("h{}", k), "f.pdf", &format!("/s/{}.pdf", id), 1, "t").unwrap();
    }
    index
}

#[test]
fn shared_file_survives_and_completed_unit_is_pruned() {
    let mut index = index_of(&["1", "2", "3"]);
    let mut units = vec![unit(1, UnitStatus::Completed, &["1", "2"]), unit(2, UnitStatus::Processing, &["2", "3"])];
    let out = index.reclaim(&mut units);
    assert_eq!(out.reclaimed, vec!["1".to_string()]);
    assert_eq!(out.deleted_paths, vec!["/s/1.pdf".to_string()]);
    let left: Vec<&str> = index.entries.iter().map(|e| e.id.as_str()).collect();
    assert_eq!(left, vec!["2", "3"]);
    assert_eq!(units[0].file_ids, vec!["2".to_string()]);
    assert_eq!(units[0].file_count, 1);
    assert_eq!(units[1].file_ids, vec!["2".to_string(), "3".to_string()]);
    assert_eq!(units[1].file_count, 2);
}

#[test]
fn second_sweep_deletes_nothing() {
    let mut index = index_of(&["1", "2", "3", "4"]);
    let mut units = vec![
        unit(1, UnitStatus::Completed, &["1", "2"]),
        unit(2, UnitStatus::Pending, &["2", "3"]),
        unit(3, UnitStatus::Completed, &["4", "1"]),
    ];
    let first = index.reclaim(&mut units);
    assert_eq!(first.reclaimed, vec!["1".to_string(), "4".to_string()]);
    let sizes = vec![10u64, 20];
    let stats1 = storage_stats("/s".to_string(), &sizes);
    let second = index.reclaim(&mut units);
    assert!(second.reclaimed.is_empty());
    assert!(second.deleted_paths.is_empty());
    assert_eq!(index.entries.len(), 2);
    assert!(units[2].file_ids.is_empty());
    assert_eq!(units[2].file_count, 0);
    let stats2 = storage_stats("/s".to_string(), &sizes);
    assert_eq!(stats1.total_bytes, stats2.total_bytes);
    assert_eq!(stats1.file_count, stats2.file_count);
    assert_eq!(stats1.path, stats2.path);
}

#[test]
fn shared_file_is_reclaimed_once_the_other_unit_completes() {
    let mut index = index_of(&["1", "2"]);
    let mut units = vec![unit(1, UnitStatus::Completed, &["1", "2"]), unit(2, UnitStatus::Processing, &["2"])];
    index.reclaim(&mut units);
    units[1].status = UnitStatus::Completed;
    let out = index.reclaim(&mut units);
    assert_eq!(out.reclaimed, vec!["2".to_string()]);
    assert!(index.entries.is_empty());
    assert!(units[0].file_ids.is_empty());
    assert!(units[1].file_ids.is_empty());
}

#[test]
fn unreferenced_and_active_files_are_kept() {
    let units = vec![unit(1, UnitStatus::Pending, &["a"]), unit(2, UnitStatus::Completed, &[])];
    assert!(reclaimable(&units).is_empty());
    assert!(reclaimable(&Vec::new()).is_empty());
}

#[test]
fn storage_stats_sum_and_count() {
    let s = storage_stats("/s".to_string(), &vec![1, 2, 3]);
    assert_eq!(s.total_bytes, 6);
    assert_eq!(s.file_count, 3);
    let empty = storage_stats("/s".to_string(), &Vec::new());
    assert_eq!(empty.total_bytes, 0);
    assert_eq!(empty.file_count, 0);
    let big = storage_stats("/s".to_string(), &vec![u64::MAX, 5]);
    assert_eq!(big.total_bytes, u64::MAX);
}

#[test]
fn unit_status_names() {
    assert_eq!(UnitStatus::parse("Completed"), Some(UnitStatus::Completed));
    assert_eq!(UnitStatus::parse("Processing"), Some(UnitStatus::Processing));
    assert_eq!(UnitStatus::parse("completed"), None);
    assert_eq!(UnitStatus::Pending.as_str(), "Pending");
}
