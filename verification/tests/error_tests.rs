use dashboard_core::error::AppError;
use dashboard_core::error::ErrorResponse;
use dashboard_core::types::CleanupResult;
use dashboard_core::types::FileNode;
use dashboard_core::types::ImportResult;
use dashboard_core::types::ReplaceResult;

#[test]
fn every_error_renders_its_message() {
    assert_eq!(AppError::HomeNotFound.message(), "Could not find home directory");
    assert_eq!(AppError::ConfigDirNotFound.message(), "~/.dashboard directory not found");
    assert_eq!(
        AppError::AccessDenied("nope".to_string()).message(),
        "Access denied: nope"
    );
    assert_eq!(AppError::FileNotFound("/a".to_string()).message(), "File not found: /a");
    assert_eq!(
        AppError::FileAlreadyExists("/a".to_string()).message(),
        "File already exists: /a. Use write_file to update existing files."
    );
    assert_eq!(AppError::IoError("io broke".to_string()).message(), "io broke");
    assert_eq!(AppError::ZipError("zip broke".to_string()).message(), "zip broke");
    assert_eq!(AppError::PathError("bad path".to_string()).message(), "bad path");
    assert_eq!(AppError::TimeError("bad time".to_string()).message(), "bad time");
    assert_eq!(
        AppError::InvalidFileType("exe".to_string()).message(),
        "Invalid file type: exe. Only .md, .json, .jsonl are allowed"
    );
}

#[test]
fn responses_carry_stable_codes() {
    let r = ErrorResponse::from_error(&AppError::HomeNotFound);
    assert_eq!(r.code, "HOME_NOT_FOUND");
    assert_eq!(r.message, "Could not find home directory");
    let r = ErrorResponse::from_error(&AppError::AccessDenied("x".to_string()));
    assert_eq!(r.code, "ACCESS_DENIED");
    let r = ErrorResponse::from_error(&AppError::InvalidFileType("exe".to_string()));
    assert_eq!(r.code, "INVALID_FILE_TYPE");
    let r = ErrorResponse::from_error(&AppError::ZipError("z".to_string()));
    assert_eq!(r.code, "ZIP_ERROR");
}

#[test]
fn file_nodes_know_their_kind() {
    let f = FileNode::new_file("a.md".to_string(), "/p/a.md".to_string());
    assert_eq!(f.file_type, "file");
    assert!(f.children.is_none());
    let empty = FileNode::new_directory("d".to_string(), "/p/d".to_string(), vec![]);
    assert_eq!(empty.file_type, "directory");
    assert!(empty.children.is_none());
    let full = FileNode::new_directory("d".to_string(), "/p/d".to_string(), vec![f]);
    assert_eq!(full.children.as_ref().unwrap().len(), 1);
    assert_eq!(full.children.as_ref().unwrap()[0].name, "a.md");
}

#[test]
fn replace_results_distinguish_success_and_failure() {
    let ok = ReplaceResult::success(2, "new text".to_string());
    assert!(ok.success);
    assert_eq!(ok.replaced_count, 2);
    assert_eq!(ok.new_content, "new text");
    assert!(ok.error.is_none());
    let bad = ReplaceResult::error("File not found".to_string());
    assert!(!bad.success);
    assert_eq!(bad.replaced_count, 0);
    assert_eq!(bad.new_content, "");
    assert_eq!(bad.error, Some("File not found".to_string()));
}

#[test]
fn result_defaults_start_empty() {
    let c = CleanupResult::default();
    assert_eq!(c.deleted_count, 0);
    assert_eq!(c.deleted_size_bytes, 0);
    assert!(c.errors.is_empty());
    let i = ImportResult::default();
    assert!(!i.success);
    assert!(i.imported_files.is_empty());
    assert!(i.skipped_files.is_empty());
    assert!(i.errors.is_empty());
    assert!(!i.backup_created);
}
