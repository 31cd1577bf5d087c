use file_server::config::Config;
use file_server::engine::TransferEngine;
use file_server::engine::mime_for_name;
use file_server::error::ServerError;

fn engine() -> TransferEngine {
    TransferEngine::new(&Config::default()).unwrap()
}

#[test]
fn test_chunked_upload_reassembles_content() {
    let mut e = engine();
    let content: Vec<u8> = (0u8..100).collect();
    let sid = e.begin_upload("data.bin", 100, 10).unwrap();

    // out of order, with an overlapping retry
    e.ingest(sid, 60, &content[60..100], 11).unwrap();
    e.ingest(sid, 0, &content[0..50], 12).unwrap();
    assert_eq!(e.tracker.is_complete(sid).unwrap(), false);
    e.ingest(sid, 40, &content[40..70], 13).unwrap();
    e.ingest(sid, 40, &content[40..70], 14).unwrap();
    assert_eq!(e.tracker.is_complete(sid).unwrap(), true);

    let rec = e.finalize(sid, 20).unwrap();
    assert_eq!(rec.file_size, 100);
    assert_eq!(rec.original_name, "data.bin");
    assert_eq!(rec.upload_time, 20);
    assert_eq!(rec.mime_type, "application/octet-stream");
    assert!(!rec.is_video);

    let bytes = e.read_range(&rec.id, 0, None).unwrap();
    assert_eq!(bytes, content);
    let middle = e.read_range(&rec.id, 10, Some(20)).unwrap();
    assert_eq!(middle, content[10..20].to_vec());
}

#[test]
fn test_incomplete_finalize_fails_with_validation() {
    let mut e = engine();
    let sid = e.begin_upload("half.bin", 10, 0).unwrap();
    e.ingest(sid, 0, &[1, 2, 3, 4, 5], 1).unwrap();
    let err = e.finalize(sid, 2).unwrap_err();
    assert!(matches!(err, ServerError::Validation { .. }));
    // no partial record is visible anywhere
    assert_eq!(e.meta.list_files(None, None).unwrap().len(), 0);
    assert_eq!(e.meta.get_file_stats().unwrap().total_files, 0);
    // the session survives and can be completed later
    e.ingest(sid, 5, &[6, 7, 8, 9, 10], 3).unwrap();
    assert!(e.finalize(sid, 4).is_ok());
}

#[test]
fn test_distinct_sessions_do_not_interfere() {
    let mut e = engine();
    let a = e.begin_upload("a.bin", 4, 0).unwrap();
    let b = e.begin_upload("b.bin", 4, 0).unwrap();
    assert_ne!(a, b);

    e.ingest(a, 0, &[9, 9], 1).unwrap();
    let a_parts_before = e.tracker.sessions[0].received.parts.clone();

    // a burst of writes to session b
    e.ingest(b, 2, &[7, 7], 2).unwrap();
    e.ingest(b, 0, &[7, 7], 3).unwrap();

    let a_parts_after = e.tracker.sessions[0].received.parts.clone();
    assert_eq!(a_parts_before, a_parts_after);
    assert_eq!(e.tracker.is_complete(a).unwrap(), false);
    assert_eq!(e.tracker.is_complete(b).unwrap(), true);
}

#[test]
fn test_expiry_sweep_removes_idle_session_and_temp_file() {
    let mut e = engine();
    let sid = e.begin_upload("slow.bin", 8, 1_000).unwrap();
    e.ingest(sid, 0, &[1, 2], 2_000).unwrap();
    let temp_name = e.tracker.sessions[0].temp_name.clone();
    assert!(e.files.exists_file(&temp_name));

    // not yet past the 300 s timeout
    e.expire_stale(2_000 + 300_000);
    assert_eq!(e.tracker.sessions.len(), 1);

    e.expire_stale(2_000 + 300_001);
    assert_eq!(e.tracker.sessions.len(), 0);
    assert!(!e.files.exists_file(&temp_name));
    assert!(matches!(
        e.ingest(sid, 2, &[3], 9_999_999),
        Err(ServerError::NotFound { .. })
    ));
}

#[test]
fn test_remove_deletes_file_and_row() {
    let mut e = engine();
    let sid = e.begin_upload("gone.bin", 3, 0).unwrap();
    e.ingest(sid, 0, &[1, 2, 3], 1).unwrap();
    let rec = e.finalize(sid, 2).unwrap();
    assert!(e.files.exists_file(&rec.stored_name));

    let removed = e.remove(&rec.id).unwrap();
    assert_eq!(removed.id, rec.id);
    assert!(e.meta.get_file_by_id(&rec.id).unwrap().is_none());
    assert!(!e.files.exists_file(&rec.stored_name));

    assert!(matches!(e.remove(&rec.id), Err(ServerError::NotFound { .. })));
}

#[test]
fn test_engine_stats_three_uploads_one_video() {
    let mut e = engine();
    for (name, size) in [("a.bin", 100u64), ("b.mp4", 200), ("c.txt", 300)] {
        let sid = e.begin_upload(name, size, 0).unwrap();
        let data = vec![5u8; size as usize];
        e.ingest(sid, 0, &data, 1).unwrap();
        e.finalize(sid, 2).unwrap();
    }
    let stats = e.meta.get_file_stats().unwrap();
    assert_eq!(stats.total_files, 3);
    assert_eq!(stats.total_size, 600);
    assert_eq!(stats.video_count, 1);
}

#[test]
fn test_allocate_many_names_distinct_with_extension() {
    let e = engine();
    let mut names: Vec<String> = Vec::new();
    for _ in 0..1000 {
        let n = e.meta.generate_stored_name("movie.mp4");
        assert!(n.ends_with(".mp4"));
        names.push(n);
    }
    names.sort();
    names.dedup();
    assert_eq!(names.len(), 1000);
}

#[test]
fn test_failed_insert_rolls_back_renamed_file() {
    let mut e = engine();
    // a finalized upload whose id the second commit will collide with
    let first = e.begin_upload("a.bin", 2, 0).unwrap();
    e.ingest(first, 0, &[1, 2], 1).unwrap();
    let rec = e.finalize(first, 2).unwrap();

    let second = e.begin_upload("b.bin", 2, 3).unwrap();
    e.ingest(second, 0, &[3, 4], 4).unwrap();
    let err = e
        .finalize_with(second, rec.id.clone(), "b_target.bin".to_string(), 5)
        .unwrap_err();
    assert!(matches!(err, ServerError::Conflict { .. }));

    // no row for the failed commit beyond the one that was already there,
    // and the renamed file was deleted again: no orphan
    assert_eq!(e.meta.get_file_stats().unwrap().total_files, 1);
    assert!(!e.files.exists_file(&"b_target.bin".to_string()));
    let survivor = e.meta.get_file_by_id(&rec.id).unwrap().unwrap();
    assert_eq!(survivor.original_name, "a.bin");
    // the failed session is gone along with its temp file
    assert!(matches!(
        e.ingest(second, 0, &[0], 6),
        Err(ServerError::NotFound { .. })
    ));
}

#[test]
fn test_begin_upload_validation() {
    let mut e = engine();
    assert!(matches!(
        e.begin_upload("x.bin", 0, 0),
        Err(ServerError::Validation { .. })
    ));
    assert!(matches!(
        e.begin_upload("x.bin", e.max_file_size + 1, 0),
        Err(ServerError::Validation { .. })
    ));
}

#[test]
fn test_ingest_bounds() {
    let mut cfg = Config::default();
    cfg.storage.chunk_size = 4;
    let mut e = TransferEngine::new(&cfg).unwrap();
    let sid = e.begin_upload("x.bin", 8, 0).unwrap();
    // a chunk above the configured ceiling
    assert!(matches!(
        e.ingest(sid, 0, &[1, 2, 3, 4, 5], 1),
        Err(ServerError::Validation { .. })
    ));
    // a write past the expected size
    assert!(matches!(
        e.ingest(sid, 6, &[1, 2, 3], 2),
        Err(ServerError::Conflict { .. })
    ));
    // an empty chunk
    assert!(matches!(
        e.ingest(sid, 0, &[], 3),
        Err(ServerError::Validation { .. })
    ));
    // an unknown session
    assert!(matches!(
        e.ingest(sid + 1, 0, &[1], 4),
        Err(ServerError::NotFound { .. })
    ));
}

#[test]
fn test_read_range_errors() {
    let mut e = engine();
    let sid = e.begin_upload("r.bin", 4, 0).unwrap();
    e.ingest(sid, 0, &[1, 2, 3, 4], 1).unwrap();
    let rec = e.finalize(sid, 2).unwrap();

    assert!(matches!(
        e.read_range(&"missing".to_string(), 0, None),
        Err(ServerError::NotFound { .. })
    ));
    assert!(matches!(
        e.read_range(&rec.id, 2, Some(10)),
        Err(ServerError::Validation { .. })
    ));
    assert!(matches!(
        e.read_range(&rec.id, 3, Some(1)),
        Err(ServerError::Validation { .. })
    ));
    assert_eq!(e.read_range(&rec.id, 4, Some(4)).unwrap(), Vec::<u8>::new());
}

#[test]
fn test_abort_discards_session_and_temp() {
    let mut e = engine();
    let sid = e.begin_upload("x.bin", 4, 0).unwrap();
    e.ingest(sid, 0, &[1], 1).unwrap();
    let temp = e.tracker.sessions[0].temp_name.clone();
    e.abort(sid).unwrap();
    assert!(!e.files.exists_file(&temp));
    assert!(matches!(e.abort(sid), Err(ServerError::NotFound { .. })));
}

#[test]
fn test_sweep_runs_against_wall_clock() {
    let mut e = engine();
    let sid = e.begin_upload("x.bin", 4, 0).unwrap();
    e.ingest(sid, 0, &[1, 2, 3, 4], 1).unwrap();
    let rec = e.finalize(sid, 2).unwrap();
    // a sweep never touches finalized files
    e.sweep();
    assert!(e.files.exists_file(&rec.stored_name));
}

#[test]
fn test_mime_for_name() {
    assert_eq!(mime_for_name("a.mp4"), ("video/mp4".to_string(), true));
    assert_eq!(mime_for_name("a.webm"), ("video/webm".to_string(), true));
    assert_eq!(mime_for_name("a.txt"), ("text/plain".to_string(), false));
    assert_eq!(mime_for_name("a.jpeg"), ("image/jpeg".to_string(), false));
    assert_eq!(
        mime_for_name("noext"),
        ("application/octet-stream".to_string(), false)
    );
    assert_eq!(
        mime_for_name("a.unknown"),
        ("application/octet-stream".to_string(), false)
    );
}

#[test]
fn test_video_upload_gets_video_mime() {
    let mut e = engine();
    let sid = e.begin_upload("clip.mp4", 2, 0).unwrap();
    e.ingest(sid, 0, &[0, 1], 1).unwrap();
    let rec = e.finalize(sid, 2).unwrap();
    assert_eq!(rec.mime_type, "video/mp4");
    assert!(rec.is_video);
    assert!(rec.stored_name.ends_with(".mp4"));
}

#[test]
fn test_engine_rejects_zero_limits() {
    let mut cfg = Config::default();
    cfg.storage.chunk_size = 0;
    assert!(matches!(
        TransferEngine::new(&cfg),
        Err(ServerError::Validation { .. })
    ));
}
