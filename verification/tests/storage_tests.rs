use file_server::clock::now_millis;
use file_server::error::ServerError;
use file_server::ids::fresh_token;
use file_server::storage::FileManager;
use file_server::storage::FileRecord;

fn record(id: &str, name: &str, stored: &str, size: u64, video: bool, time: i64) -> FileRecord {
    FileRecord {
        id: id.to_string(),
        original_name: name.to_string(),
        stored_name: stored.to_string(),
        file_path: format!("/tmp/{}", stored),
        file_size: size,
        mime_type: "application/octet-stream".to_string(),
        upload_time: time,
        is_video: video,
        thumbnail_path: None,
        video_duration: None,
        video_resolution: None,
    }
}

#[test]
fn test_storage_file_manager_init() {
    let storage_path = "storage".to_string();
    let database_url = "sqlite::memory:";

    let file_manager = FileManager::new(database_url, storage_path);
    assert!(file_manager.is_ok());
    assert!(file_manager.unwrap().init().is_ok());
}

#[test]
fn test_file_record_operations() {
    let storage_path = "storage".to_string();
    let database_url = "sqlite::memory:";

    let mut file_manager = FileManager::new(database_url, storage_path).unwrap();

    let file_record = FileRecord {
        id: fresh_token(),
        original_name: "test.txt".to_string(),
        stored_name: "stored_test.txt".to_string(),
        file_path: "/tmp/stored_test.txt".to_string(),
        file_size: 1024,
        mime_type: "text/plain".to_string(),
        upload_time: now_millis(),
        is_video: false,
        thumbnail_path: None,
        video_duration: None,
        video_resolution: None,
    };

    assert!(file_manager.save_file_record(&file_record).is_ok());

    let retrieved = file_manager.get_file_by_id(&file_record.id).unwrap();
    assert!(retrieved.is_some());
    assert_eq!(retrieved.unwrap().original_name, "test.txt");

    let files = file_manager.list_files(Some(10), Some(0)).unwrap();
    assert_eq!(files.len(), 1);

    let stats = file_manager.get_file_stats().unwrap();
    assert_eq!(stats.total_files, 1);
    assert_eq!(stats.total_size, 1024);
    assert_eq!(stats.video_count, 0);
}

#[test]
fn test_generate_stored_name() {
    let storage_path = "storage".to_string();
    let database_url = "sqlite::memory:";

    let file_manager = FileManager::new(database_url, storage_path).unwrap();

    let stored_name = file_manager.generate_stored_name("test.txt");
    assert!(stored_name.ends_with(".txt"));
    assert!(stored_name.len() > 10);

    let stored_name_no_ext = file_manager.generate_stored_name("test");
    assert!(!stored_name_no_ext.contains("."));
    assert!(stored_name_no_ext.len() > 10);
}

#[test]
fn test_stored_name_edge_cases() {
    let fm = FileManager::new("sqlite::memory:", "storage".to_string()).unwrap();
    // a leading dot is a hidden file, not an extension
    assert!(!fm.generate_stored_name(".txt").contains("."));
    // a trailing dot carries no usable extension
    assert!(!fm.generate_stored_name("name.").contains("."));
    // only the last extension is kept
    assert!(fm.generate_stored_name("archive.tar.gz").ends_with(".gz"));
}

#[test]
fn test_save_duplicate_id_conflicts() {
    let mut fm = FileManager::new("sqlite::memory:", "storage".to_string()).unwrap();
    let a = record("id-1", "a.bin", "stored_a", 10, false, 1);
    let b = record("id-1", "b.bin", "stored_b", 20, false, 2);
    assert!(fm.save_file_record(&a).is_ok());
    let err = fm.save_file_record(&b).unwrap_err();
    assert!(matches!(err, ServerError::Conflict { .. }));
    assert_eq!(err.status_code(), 409);
}

#[test]
fn test_save_duplicate_stored_name_conflicts() {
    let mut fm = FileManager::new("sqlite::memory:", "storage".to_string()).unwrap();
    let a = record("id-1", "a.bin", "stored_same", 10, false, 1);
    let b = record("id-2", "b.bin", "stored_same", 20, false, 2);
    assert!(fm.save_file_record(&a).is_ok());
    assert!(matches!(
        fm.save_file_record(&b),
        Err(ServerError::Conflict { .. })
    ));
}

#[test]
fn test_delete_file_row() {
    let mut fm = FileManager::new("sqlite::memory:", "storage".to_string()).unwrap();
    let a = record("id-1", "a.bin", "stored_a", 10, false, 1);
    fm.save_file_record(&a).unwrap();
    assert_eq!(fm.delete_file(&"id-1".to_string()).unwrap(), true);
    assert!(fm.get_file_by_id(&"id-1".to_string()).unwrap().is_none());
    assert_eq!(fm.delete_file(&"id-1".to_string()).unwrap(), false);
}

#[test]
fn test_list_files_orders_newest_first() {
    let mut fm = FileManager::new("sqlite::memory:", "storage".to_string()).unwrap();
    fm.save_file_record(&record("id-1", "a", "sa", 1, false, 100)).unwrap();
    fm.save_file_record(&record("id-2", "b", "sb", 1, false, 300)).unwrap();
    fm.save_file_record(&record("id-3", "c", "sc", 1, false, 200)).unwrap();
    let all = fm.list_files(None, None).unwrap();
    assert_eq!(all.len(), 3);
    assert_eq!(all[0].id, "id-2");
    assert_eq!(all[1].id, "id-3");
    assert_eq!(all[2].id, "id-1");

    let page = fm.list_files(Some(1), Some(1)).unwrap();
    assert_eq!(page.len(), 1);
    assert_eq!(page[0].id, "id-3");

    let beyond = fm.list_files(Some(5), Some(10)).unwrap();
    assert_eq!(beyond.len(), 0);
}

#[test]
fn test_stats_three_records_one_video() {
    let mut fm = FileManager::new("sqlite::memory:", "storage".to_string()).unwrap();
    fm.save_file_record(&record("id-1", "a.bin", "sa", 100, false, 1)).unwrap();
    fm.save_file_record(&record("id-2", "b.mp4", "sb.mp4", 200, true, 2)).unwrap();
    fm.save_file_record(&record("id-3", "c.bin", "sc", 300, false, 3)).unwrap();
    let stats = fm.get_file_stats().unwrap();
    assert_eq!(stats.total_files, 3);
    assert_eq!(stats.total_size, 600);
    assert_eq!(stats.video_count, 1);
}

#[test]
fn test_update_video_metadata() {
    let mut fm = FileManager::new("sqlite::memory:", "storage".to_string()).unwrap();
    fm.save_file_record(&record("id-1", "a.mp4", "sa.mp4", 100, true, 1)).unwrap();
    fm.update_video_metadata(
        &"id-1".to_string(),
        90,
        "1920x1080".to_string(),
        Some("thumbs/a.jpg".to_string()),
    )
    .unwrap();
    let rec = fm.get_file_by_id(&"id-1".to_string()).unwrap().unwrap();
    assert_eq!(rec.video_duration, Some(90));
    assert_eq!(rec.video_resolution, Some("1920x1080".to_string()));
    assert_eq!(rec.thumbnail_path, Some("thumbs/a.jpg".to_string()));

    let missing = fm.update_video_metadata(&"nope".to_string(), 1, "1x1".to_string(), None);
    assert!(matches!(missing, Err(ServerError::NotFound { .. })));
}

#[test]
fn test_get_file_path() {
    let fm = FileManager::new("sqlite::memory:", "./storage".to_string()).unwrap();
    assert_eq!(fm.get_storage_path(), "./storage");
    assert_eq!(fm.get_file_path("abc.bin"), "./storage/abc.bin");
}

#[test]
fn test_fresh_token_shape() {
    let a = fresh_token();
    let b = fresh_token();
    assert_eq!(a.len(), 36);
    assert_ne!(a, b);
    assert!(a.chars().all(|c| c == '-' || c.is_ascii_hexdigit()));
}

#[test]
fn test_list_files_rejects_bad_bounds() {
    let mut fm = FileManager::new("sqlite::memory:", "storage".to_string()).unwrap();
    fm.save_file_record(&record("id-1", "a", "sa", 1, false, 100)).unwrap();
    assert!(matches!(
        fm.list_files(Some(0), None),
        Err(ServerError::Validation { .. })
    ));
    assert!(matches!(
        fm.list_files(Some(-3), Some(0)),
        Err(ServerError::Validation { .. })
    ));
    assert!(matches!(
        fm.list_files(Some(1), Some(-1)),
        Err(ServerError::Validation { .. })
    ));
    assert_eq!(fm.list_files(Some(1), Some(0)).unwrap().len(), 1);
}
