use dashboard_core::backup::BackupEntry;
use dashboard_core::backup::SECONDS_PER_DAY;
use dashboard_core::backup::STARTUP_CLEANUP_DAYS;
use dashboard_core::backup::StartupCleanupReport;
use dashboard_core::backup::backup_name_with_timestamp;
use dashboard_core::backup::cleanup_threshold;
use dashboard_core::backup::generate_backup_name;
use dashboard_core::backup::perform_startup_cleanup;
use dashboard_core::backup::select_old_backups;
use dashboard_core::backup::summarize_cleanup;
use dashboard_core::types::CleanupResult;

fn entry(name: &str, is_file: bool, modified_secs: u64, size: u64) -> BackupEntry {
    BackupEntry { name: name.to_string(), is_file, modified_secs, size }
}

#[test]
fn thresholds_subtract_whole_days() {
    assert_eq!(cleanup_threshold(100 * SECONDS_PER_DAY, 30), Some(70 * SECONDS_PER_DAY));
    assert_eq!(cleanup_threshold(10, 30), None);
    assert_eq!(cleanup_threshold(SECONDS_PER_DAY, 1), Some(0));
    assert_eq!(STARTUP_CLEANUP_DAYS, 30);
}

#[test]
fn only_old_files_are_selected() {
    let entries = vec![
        entry("old1", true, 100, 10),
        entry("dir", false, 50, 0),
        entry("fresh", true, 5000, 20),
        entry("old2", true, 400, 30),
        entry("boundary", true, 1000, 40),
    ];
    let picked = select_old_backups(&entries, 1000);
    assert_eq!(picked, vec![0, 3]);
}

#[test]
fn cleanup_summaries_add_up() {
    let r = summarize_cleanup(&vec![10, 20, 30], vec!["one problem".to_string()]);
    assert_eq!(r.deleted_count, 3);
    assert_eq!(r.deleted_size_bytes, 60);
    assert_eq!(r.errors, vec!["one problem".to_string()]);
    let empty = summarize_cleanup(&vec![], vec![]);
    assert_eq!(empty.deleted_count, 0);
    assert_eq!(empty.deleted_size_bytes, 0);
}

#[test]
fn startup_cleanup_reports_only_real_work() {
    let quiet = perform_startup_cleanup(Ok(CleanupResult {
        deleted_count: 0,
        deleted_size_bytes: 0,
        errors: vec![],
    }));
    assert!(matches!(quiet, StartupCleanupReport::Quiet));
    let cleaned = perform_startup_cleanup(Ok(CleanupResult {
        deleted_count: 2,
        deleted_size_bytes: 77,
        errors: vec![],
    }));
    match cleaned {
        StartupCleanupReport::Cleaned { deleted_count, deleted_size_bytes } => {
            assert_eq!(deleted_count, 2);
            assert_eq!(deleted_size_bytes, 77);
        },
        _ => panic!("expected a cleaned report"),
    }
    let failed = perform_startup_cleanup(Err("no home".to_string()));
    match failed {
        StartupCleanupReport::Failed(m) => assert_eq!(m, "no home"),
        _ => panic!("expected a failure report"),
    }
}

#[test]
fn backup_names_join_name_and_timestamp() {
    assert_eq!(
        backup_name_with_timestamp("NOTES.md", "20240101_120000"),
        "NOTES.md_20240101_120000"
    );
    let generated = generate_backup_name("NOTES.md");
    assert!(generated.starts_with("NOTES.md_"));
    assert!(generated.len() > "NOTES.md_".len());
}
