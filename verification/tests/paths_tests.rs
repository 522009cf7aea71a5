use dashboard_core::error::AppError;
use dashboard_core::paths::config_dir_of;
use dashboard_core::paths::extension_of;
use dashboard_core::paths::get_config_dir;
use dashboard_core::paths::get_favorites_file_path;
use dashboard_core::paths::is_allowed_extension;
use dashboard_core::paths::is_excluded_dir_name;
use dashboard_core::paths::is_excluded_path;
use dashboard_core::paths::is_excluded_zip_entry;
use dashboard_core::paths::join_path;
use dashboard_core::paths::normalize_config_path;
use dashboard_core::paths::normalize_config_path_strict;
use dashboard_core::paths::validate_path_security;

#[test]
fn test_is_excluded_path() {
    assert!(is_excluded_path("/home/user/.dashboard/cache/data"));
    assert!(is_excluded_path("/home/user/.dashboard/backups/file.md"));
    assert!(!is_excluded_path("/home/user/.dashboard/settings.json"));
    assert!(!is_excluded_path("/home/user/.dashboard/projects/my-project"));
}

#[test]
fn test_is_allowed_extension() {
    assert!(is_allowed_extension("file.md"));
    assert!(is_allowed_extension("config.json"));
    assert!(is_allowed_extension("data.jsonl"));
    assert!(!is_allowed_extension("script.js"));
    assert!(!is_allowed_extension("binary.exe"));
}

#[test]
fn test_is_excluded_zip_entry() {
    assert!(is_excluded_zip_entry("cache/data.json"));
    assert!(is_excluded_zip_entry("backups/file.md"));
    assert!(!is_excluded_zip_entry("settings.json"));
    assert!(!is_excluded_zip_entry("projects/config.json"));
}

#[test]
fn extension_rules_follow_the_file_name() {
    // A hidden file has no extension; a trailing dot gives an empty one.
    assert!(!is_allowed_extension(".gitignore"));
    assert!(!is_allowed_extension("noext"));
    assert!(!is_allowed_extension("dir.md/file"));
    assert!(is_allowed_extension("/a/b/c.jsonl"));
    assert_eq!(extension_of("file.md"), Some("md".to_string()));
    assert_eq!(extension_of("archive.tar.gz"), Some("gz".to_string()));
    assert_eq!(extension_of(".hidden"), None);
    assert_eq!(extension_of("plain"), None);
}

#[test]
fn excluded_entries_with_backslash_separators_are_caught() {
    assert!(is_excluded_zip_entry("cache\\data.json"));
    assert!(is_excluded_zip_entry("nested/backups\\file.md"));
    assert!(!is_excluded_zip_entry("cachet/data.json"));
    assert!(is_excluded_dir_name("cache"));
    assert!(!is_excluded_dir_name("cachet"));
}

#[test]
fn path_security_enforces_the_directory_boundary() {
    let dir = "/home/u/.dashboard";
    assert!(validate_path_security("/home/u/.dashboard/notes.md", dir).is_ok());
    assert!(validate_path_security("/home/u/.dashboard", dir).is_ok());
    match validate_path_security("/home/u/.dashboard-evil/notes.md", dir) {
        Err(AppError::AccessDenied(m)) => {
            assert_eq!(m, "only files in ~/.dashboard/ are allowed");
        },
        _ => panic!("expected access denied"),
    }
    assert!(validate_path_security("/etc/passwd", dir).is_err());
}

#[test]
fn normalization_resolves_the_home_prefix() {
    let dir = "/home/u/.dashboard";
    assert_eq!(
        normalize_config_path("~/.dashboard/NOTES.md", dir),
        Some("/home/u/.dashboard/NOTES.md".to_string())
    );
    assert_eq!(
        normalize_config_path("/home/u/.dashboard/a.json", dir),
        Some("/home/u/.dashboard/a.json".to_string())
    );
    assert_eq!(normalize_config_path("/tmp/elsewhere", dir), Some("/tmp/elsewhere".to_string()));
    assert_eq!(
        normalize_config_path_strict("~/.dashboard/NOTES.md", dir),
        Some("/home/u/.dashboard/NOTES.md".to_string())
    );
    assert_eq!(
        normalize_config_path_strict("/home/u/.dashboard/a.json", dir),
        Some("/home/u/.dashboard/a.json".to_string())
    );
    assert_eq!(normalize_config_path_strict("/tmp/elsewhere", dir), None);
}

#[test]
fn directory_paths_are_joined_with_a_separator() {
    assert_eq!(join_path("/home/u/.dashboard", "templates"), "/home/u/.dashboard/templates");
    assert_eq!(config_dir_of("/home/u"), "/home/u/.dashboard");
    assert_eq!(
        get_favorites_file_path("/home/u/.dashboard"),
        "/home/u/.dashboard/dashboard-favorites.json"
    );
    if let Ok(dir) = get_config_dir() {
        assert!(dir.ends_with("/.dashboard"));
    }
}
