use dashboard_core::transfer::ExportAction;
use dashboard_core::transfer::ImportPlan;
use dashboard_core::transfer::ZipEntryAction;
use dashboard_core::transfer::counts_for_export;
use dashboard_core::transfer::export_entry_action;
use dashboard_core::transfer::file_exists_info;
use dashboard_core::transfer::finish_import_result;
use dashboard_core::transfer::path_inside;
use dashboard_core::transfer::plan_import_file;
use dashboard_core::transfer::zip_entry_action;
use dashboard_core::transfer::zip_preview_keep;
use dashboard_core::types::ImportResult;

const DIR: &str = "/home/u/.dashboard";

#[test]
fn exports_take_editable_files_and_real_directories() {
    assert_eq!(
        export_entry_action("/home/u/.dashboard/notes.md", "notes.md", "notes.md", true, false),
        ExportAction::AddFile
    );
    assert_eq!(
        export_entry_action("/home/u/.dashboard/tool.exe", "tool.exe", "tool.exe", true, false),
        ExportAction::Skip
    );
    assert_eq!(
        export_entry_action("/home/u/.dashboard/agents", "agents", "agents", false, true),
        ExportAction::AddDirectory
    );
    // The walk's root has an empty relative path and is not recorded.
    assert_eq!(export_entry_action("/home/u/.dashboard", ".dashboard", "", false, true), ExportAction::Skip);
    // Excluded directories and anything inside them stay out.
    assert_eq!(
        export_entry_action("/home/u/.dashboard/cache", "cache", "cache", false, true),
        ExportAction::Skip
    );
    assert_eq!(
        export_entry_action("/home/u/.dashboard/cache/x.md", "x.md", "cache/x.md", true, false),
        ExportAction::Skip
    );
}

#[test]
fn export_counting_uses_the_same_rules() {
    assert!(counts_for_export("/home/u/.dashboard/a.md"));
    assert!(!counts_for_export("/home/u/.dashboard/a.exe"));
    assert!(!counts_for_export("/home/u/.dashboard/cache/a.md"));
}

#[test]
fn single_file_imports_are_vetted_in_order() {
    match plan_import_file("/tmp/missing.md", "/home/u/.dashboard/a.md", DIR, false, false, true) {
        ImportPlan::Reject(m) => assert_eq!(m, "Source file not found: /tmp/missing.md"),
        _ => panic!("expected rejection"),
    }
    match plan_import_file("/tmp/src.md", "/etc/a.md", DIR, true, false, true) {
        ImportPlan::Reject(m) => {
            assert_eq!(m, "Access denied: only files in ~/.dashboard/ are allowed");
        },
        _ => panic!("expected rejection"),
    }
    match plan_import_file("/tmp/src.exe", "/home/u/.dashboard/a.exe", DIR, true, false, true) {
        ImportPlan::Reject(m) => {
            assert_eq!(m, "Invalid file type: exe. Only .md, .json, .jsonl are allowed");
        },
        _ => panic!("expected rejection"),
    }
    match plan_import_file("/tmp/src.md", "/home/u/.dashboard/a.md", DIR, true, true, true) {
        ImportPlan::Proceed { want_backup } => assert!(want_backup),
        _ => panic!("expected approval"),
    }
    match plan_import_file("/tmp/src.md", "/home/u/.dashboard/a.md", DIR, true, false, true) {
        ImportPlan::Proceed { want_backup } => assert!(!want_backup),
        _ => panic!("expected approval"),
    }
}

#[test]
fn archive_entries_are_sorted_into_actions() {
    match zip_entry_action("cache/x.md", "/home/u/.dashboard/cache/x.md", DIR, false, false, true) {
        ZipEntryAction::SkipEntry(m) => assert_eq!(m, "cache/x.md (excluded directory)"),
        _ => panic!("expected a skip"),
    }
    match zip_entry_action("../evil.md", "/home/evil.md", DIR, false, false, true) {
        ZipEntryAction::SkipEntry(m) => assert_eq!(m, "../evil.md (path traversal attempt)"),
        _ => panic!("expected a skip"),
    }
    assert!(matches!(
        zip_entry_action("agents/", "/home/u/.dashboard/agents/", DIR, true, false, true),
        ZipEntryAction::MakeDirectory
    ));
    match zip_entry_action("tool.exe", "/home/u/.dashboard/tool.exe", DIR, false, false, true) {
        ZipEntryAction::SkipEntry(m) => assert_eq!(m, "tool.exe (invalid extension)"),
        _ => panic!("expected a skip"),
    }
    assert!(matches!(
        zip_entry_action("a.md", "/home/u/.dashboard/a.md", DIR, false, true, true),
        ZipEntryAction::Extract { want_backup: true }
    ));
    assert!(matches!(
        zip_entry_action("a.md", "/home/u/.dashboard/a.md", DIR, false, true, false),
        ZipEntryAction::Extract { want_backup: false }
    ));
}

#[test]
fn previews_list_directories_and_editable_files() {
    assert!(zip_preview_keep("agents/", true));
    assert!(zip_preview_keep("a.md", false));
    assert!(!zip_preview_keep("tool.exe", false));
    assert!(!zip_preview_keep("cache/a.md", false));
}

#[test]
fn import_success_needs_no_errors_or_some_files() {
    let mut clean = ImportResult::default();
    finish_import_result(&mut clean);
    assert!(clean.success);
    let mut failed = ImportResult::default();
    failed.errors.push("boom".to_string());
    finish_import_result(&mut failed);
    assert!(!failed.success);
    let mut partial = ImportResult::default();
    partial.errors.push("boom".to_string());
    partial.imported_files.push("a.md".to_string());
    finish_import_result(&mut partial);
    assert!(partial.success);
}

#[test]
fn existence_reports_carry_both_paths() {
    let info = file_exists_info(
        "/home/u/.dashboard/a.md".to_string(),
        "a.md".to_string(),
        true,
    );
    assert!(info.exists);
    assert_eq!(info.path, "/home/u/.dashboard/a.md");
    assert_eq!(info.relative_path, "a.md");
}

#[test]
fn boundary_checks_are_component_aware() {
    assert!(path_inside("/home/u/.dashboard/a.md", DIR));
    assert!(path_inside(DIR, DIR));
    assert!(!path_inside("/home/u/.dashboard-evil/a.md", DIR));
}
