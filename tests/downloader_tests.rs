use ps3_update_core::downloader::{job_id_text, DownloadManager};
use ps3_update_core::types::PS3UpdateError;

#[test]
fn job_ids_are_lowercase_hex() {
    assert_eq!(job_id_text(0), "0");
    assert_eq!(job_id_text(255), "ff");
    assert_eq!(job_id_text(u64::MAX), "ffffffffffffffff");
}

#[test]
fn new_job_reports_nothing_done() {
    let mut m = DownloadManager::new();
    let id = m.register_job(0xabc, "update.pkg".to_string(), 5_000_000);
    assert_eq!(id, "abc");
    let p = m.get_progress(&id, 5_000_000).unwrap();
    assert_eq!(p.filename.as_deref(), Some("update.pkg"));
    assert_eq!(p.total, 0);
    assert_eq!(p.downloaded, 0);
    assert_eq!(p.speed_bytes_per_sec, 0);
    assert_eq!(p.speed_human, "0 B/s");
    assert!(!p.done);
    assert!(p.error.is_none());
}

#[test]
fn progress_counts_and_throughput() {
    let mut m = DownloadManager::new();
    let id = m.register_job(7, "a.pkg".to_string(), 0);
    m.set_total(&id, 4096);
    m.add_downloaded(&id, 1024);
    m.add_downloaded(&id, 1024);
    let p = m.get_progress(&id, 2_000_000).unwrap();
    assert_eq!(p.total, 4096);
    assert_eq!(p.downloaded, 2048);
    assert_eq!(p.speed_bytes_per_sec, 1024);
    assert_eq!(p.speed_human, "1.00 KB/s");
    // immediately after creation the elapsed time counts as one millisecond
    let q = m.get_progress(&id, 0).unwrap();
    assert_eq!(q.speed_bytes_per_sec, 2_048_000);
}

#[test]
fn transferred_never_decreases_and_saturates() {
    let mut m = DownloadManager::new();
    let id = m.register_job(1, "b.pkg".to_string(), 0);
    let mut last = 0;
    for delta in [10u64, 0, 5, u64::MAX, 3] {
        m.add_downloaded(&id, delta);
        let p = m.get_progress(&id, 1_000_000).unwrap();
        assert!(p.downloaded >= last);
        last = p.downloaded;
    }
    assert_eq!(last, u64::MAX);
}

#[test]
fn finish_records_error() {
    let mut m = DownloadManager::new();
    let id = m.register_job(2, "c.pkg".to_string(), 0);
    m.finish(&id, Some("Download error: HTTP error: 404 Not Found".to_string()));
    let p = m.get_progress(&id, 0).unwrap();
    assert!(p.done);
    assert_eq!(p.error.as_deref(), Some("Download error: HTTP error: 404 Not Found"));
}

#[test]
fn remove_then_snapshot_is_job_not_found() {
    let mut m = DownloadManager::new();
    let id = m.register_job(0x1f, "d.pkg".to_string(), 0);
    m.remove_job(&id);
    match m.get_progress(&id, 0) {
        Err(PS3UpdateError::JobNotFound(s)) => assert_eq!(s, "1f"),
        _ => panic!("expected JobNotFound"),
    }
    m.remove_job(&id);
    assert!(m.get_progress(&id, 0).is_err());
}

#[test]
fn ids_that_are_not_canonical_name_no_job() {
    let mut m = DownloadManager::new();
    let id = m.register_job(0x1f, "e.pkg".to_string(), 0);
    assert!(m.get_progress("01f", 0).is_err());
    assert!(m.get_progress("1F", 0).is_err());
    assert!(m.get_progress("", 0).is_err());
    assert!(m.get_progress("zz", 0).is_err());
    m.add_downloaded("01f", 5);
    assert_eq!(m.get_progress(&id, 0).unwrap().downloaded, 0);
}

#[test]
fn created_jobs_get_distinct_hex_ids() {
    let mut m = DownloadManager::new();
    let a = m.create_job("f.pkg".to_string(), 0);
    let b = m.create_job("g.pkg".to_string(), 0);
    assert!(!a.is_empty() && a.chars().all(|c| c.is_ascii_hexdigit() && !c.is_ascii_uppercase()));
    assert_ne!(a, b);
    assert!(m.get_progress(&a, 0).is_ok());
    assert!(m.get_progress(&b, 0).is_ok());
}

#[test]
fn error_messages() {
    assert_eq!(PS3UpdateError::JobNotFound("ab".to_string()).message(), "Job not found: ab");
    assert_eq!(
        PS3UpdateError::NoUpdatesFound("BLES00779".to_string()).message(),
        "No updates found for title ID: BLES00779"
    );
    assert_eq!(PS3UpdateError::Network("timeout".to_string()).message(), "Network error: timeout");
    assert_eq!(PS3UpdateError::XmlParse("bad".to_string()).message(), "XML parsing error: bad");
    assert_eq!(PS3UpdateError::InvalidTitleId("x".to_string()).message(), "Invalid title ID: x");
    assert_eq!(PS3UpdateError::FileSystem("denied".to_string()).message(), "File system error: denied");
    assert_eq!(PS3UpdateError::Download("HTTP error".to_string()).message(), "Download error: HTTP error");
}
