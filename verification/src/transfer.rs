//! Import and export decisions: which files a bulk export takes, what
//! happens to each entry of an imported archive, and when a single-file
//! import is rejected.  The caller walks directories, reads archives
//! and copies bytes; every decision is made and proved here.

use vstd::prelude::*;
use vstd::string::StringExecFns;

use crate::paths::extension_of;
use crate::paths::is_allowed_extension;
use crate::paths::is_excluded_dir_name;
use crate::paths::is_excluded_path;
use crate::paths::is_excluded_zip_entry;
use crate::paths::spec_extension;
use crate::paths::spec_is_allowed_extension;
use crate::paths::spec_is_excluded_dir_name;
use crate::paths::spec_is_excluded_path;
use crate::paths::spec_is_excluded_zip_entry;
use crate::paths::spec_path_inside;
use crate::paths::validate_path_security;
use crate::strutil::begins_with;
use crate::types::FileExistsInfo;
use crate::types::ImportResult;

verus! {

/// What a bulk export does with one directory entry.
#[derive(Debug, PartialEq, Eq, Structural)]
pub enum ExportAction {
    /// The entry stays out of the archive.
    Skip,
    /// The file's bytes go into the archive under its relative path.
    AddFile,
    /// A directory entry goes into the archive.
    AddDirectory,
}

/// The export decision for one entry: excluded paths and excluded
/// directories stay out; files need an editable extension; directories
/// are recorded unless they are the root itself.
pub open spec fn spec_export_action(
    path: Seq<char>,
    file_name: Seq<char>,
    relative: Seq<char>,
    is_file: bool,
    is_dir: bool,
) -> ExportAction {
    if spec_is_excluded_path(path) {
        ExportAction::Skip
    } else if spec_is_excluded_dir_name(file_name) && is_dir {
        ExportAction::Skip
    } else if is_file {
        if spec_is_allowed_extension(path) {
            ExportAction::AddFile
        } else {
            ExportAction::Skip
        }
    } else if is_dir && relative.len() > 0 {
        ExportAction::AddDirectory
    } else {
        ExportAction::Skip
    }
}

/// Decide what a bulk export does with one directory entry.
pub fn export_entry_action(
    path: &str,
    file_name: &str,
    relative: &str,
    is_file: bool,
    is_dir: bool,
) -> (r: ExportAction)
    ensures
        r == spec_export_action(path@, file_name@, relative@, is_file, is_dir),
{
    if is_excluded_path(path) {
        return ExportAction::Skip;
    }
    if is_excluded_dir_name(file_name) && is_dir {
        return ExportAction::Skip;
    }
    if is_file {
        if is_allowed_extension(path) {
            return ExportAction::AddFile;
        }
        return ExportAction::Skip;
    }
    if is_dir && relative.unicode_len() > 0 {
        return ExportAction::AddDirectory;
    }
    ExportAction::Skip
}

/// A file counts toward the export total when its path avoids the
/// excluded directories and its extension is editable.
pub fn counts_for_export(path: &str) -> (r: bool)
    ensures
        r == (!spec_is_excluded_path(path@) && spec_is_allowed_extension(path@)),
{
    if is_excluded_path(path) {
        return false;
    }
    is_allowed_extension(path)
}

/// What a single-file import decides before any bytes move.
pub enum ImportPlan {
    /// The import is rejected; the message goes into the result's
    /// errors.
    Reject(String),
    /// The copy may proceed, preceded by a backup when asked for one
    /// and the destination already exists.
    Proceed { want_backup: bool },
}

/// The extension of a path, or nothing for a path without one.
pub open spec fn spec_extension_or_empty(path: Seq<char>) -> Seq<char> {
    match spec_extension(path) {
        Some(e) => e,
        None => Seq::empty(),
    }
}

/// Decide a single-file import: the source must exist, the destination
/// must stay inside the configuration directory, and the source must be
/// a file of an editable kind; a backup is wanted when asked for and
/// the destination exists.
pub fn plan_import_file(
    source_path: &str,
    dest_path: &str,
    config_dir: &str,
    source_exists: bool,
    dest_exists: bool,
    should_backup: bool,
) -> (r: ImportPlan)
    ensures
        !source_exists ==> (r matches ImportPlan::Reject(m) && m@ == "Source file not found: "@
            + source_path@),
        source_exists && !spec_path_inside(dest_path@, config_dir@) ==> (r matches
            ImportPlan::Reject(m) && m@ == "Access denied: "@
            + "only files in ~/.dashboard/ are allowed"@),
        source_exists && spec_path_inside(dest_path@, config_dir@) && !spec_is_allowed_extension(
            source_path@,
        ) ==> (r matches ImportPlan::Reject(m) && m@ == "Invalid file type: "@
            + spec_extension_or_empty(source_path@)
            + ". Only .md, .json, .jsonl are allowed"@),
        source_exists && spec_path_inside(dest_path@, config_dir@) && spec_is_allowed_extension(
            source_path@,
        ) ==> r == (ImportPlan::Proceed { want_backup: should_backup && dest_exists }),
{
    if !source_exists {
        let mut m = String::from_str("Source file not found: ");
        m.append(source_path);
        return ImportPlan::Reject(m);
    }
    match validate_path_security(dest_path, config_dir) {
        Err(e) => {
            return ImportPlan::Reject(e.message());
        },
        Ok(_) => {},
    }
    if !is_allowed_extension(source_path) {
        let ext = match extension_of(source_path) {
            Some(e) => e,
            None => String::new(),
        };
        let mut m = String::from_str("Invalid file type: ");
        m.append(ext.as_str());
        m.append(". Only .md, .json, .jsonl are allowed");
        return ImportPlan::Reject(m);
    }
    ImportPlan::Proceed { want_backup: should_backup && dest_exists }
}

/// What an archive import does with one entry.
pub enum ZipEntryAction {
    /// The entry is passed over; the message goes into the skipped
    /// list.
    SkipEntry(String),
    /// A directory entry: the directory is created when missing.
    MakeDirectory,
    /// A file entry is extracted, preceded by a backup when asked for
    /// one and the destination exists.
    Extract { want_backup: bool },
}

/// Decide one archive entry: entries through excluded directories and
/// entries escaping the configuration directory are skipped with a
/// note, directories are created, and files need an editable extension.
pub fn zip_entry_action(
    name: &str,
    dest_path: &str,
    config_dir: &str,
    is_dir: bool,
    dest_exists: bool,
    create_backups: bool,
) -> (r: ZipEntryAction)
    ensures
        spec_is_excluded_zip_entry(name@) ==> (r matches ZipEntryAction::SkipEntry(m) && m@
            == name@ + " (excluded directory)"@),
        !spec_is_excluded_zip_entry(name@) && !spec_path_inside(dest_path@, config_dir@) ==> (
        r matches ZipEntryAction::SkipEntry(m) && m@ == name@ + " (path traversal attempt)"@),
        !spec_is_excluded_zip_entry(name@) && spec_path_inside(dest_path@, config_dir@) && is_dir
            ==> r == ZipEntryAction::MakeDirectory,
        !spec_is_excluded_zip_entry(name@) && spec_path_inside(dest_path@, config_dir@) && !is_dir
            && !spec_is_allowed_extension(dest_path@) ==> (r matches ZipEntryAction::SkipEntry(m)
            && m@ == name@ + " (invalid extension)"@),
        !spec_is_excluded_zip_entry(name@) && spec_path_inside(dest_path@, config_dir@) && !is_dir
            && spec_is_allowed_extension(dest_path@) ==> r == (ZipEntryAction::Extract {
            want_backup: create_backups && dest_exists,
        }),
{
    if is_excluded_zip_entry(name) {
        let mut m = String::from_str(name);
        m.append(" (excluded directory)");
        return ZipEntryAction::SkipEntry(m);
    }
    if !path_inside(dest_path, config_dir) {
        let mut m = String::from_str(name);
        m.append(" (path traversal attempt)");
        return ZipEntryAction::SkipEntry(m);
    }
    if is_dir {
        return ZipEntryAction::MakeDirectory;
    }
    if !is_allowed_extension(dest_path) {
        let mut m = String::from_str(name);
        m.append(" (invalid extension)");
        return ZipEntryAction::SkipEntry(m);
    }
    ZipEntryAction::Extract { want_backup: create_backups && dest_exists }
}

/// Whether the path lies within the directory.
pub fn path_inside(path: &str, dir: &str) -> (r: bool)
    ensures
        r == spec_path_inside(path@, dir@),
{
    if crate::strutil::str_eq(path, dir) {
        return true;
    }
    let mut below = String::from_str(dir);
    below.append("/");
    begins_with(path, below.as_str())
}

/// An archive preview lists an entry when it avoids the excluded
/// directories and is a directory or an editable file.
pub fn zip_preview_keep(name: &str, is_dir: bool) -> (r: bool)
    ensures
        r == (!spec_is_excluded_zip_entry(name@) && (is_dir || spec_is_allowed_extension(name@))),
{
    if is_excluded_zip_entry(name) {
        return false;
    }
    if is_dir {
        return true;
    }
    is_allowed_extension(name)
}

/// Close the books on an archive import: it counts as successful when
/// nothing failed or at least one file made it in.
pub fn finish_import_result(result: &mut ImportResult)
    ensures
        final(result).success == (old(result).errors@.len() == 0 || old(
            result,
        ).imported_files@.len() > 0),
        final(result).imported_files == old(result).imported_files,
        final(result).skipped_files == old(result).skipped_files,
        final(result).errors == old(result).errors,
        final(result).backup_created == old(result).backup_created,
{
    result.success = result.errors.is_empty() || !result.imported_files.is_empty();
}

/// The existence report for a destination under the configuration
/// directory.
pub fn file_exists_info(dest_path: String, relative_path: String, exists: bool) -> (r:
    FileExistsInfo)
    ensures
        r.exists == exists,
        r.path == dest_path,
        r.relative_path == relative_path,
{
    FileExistsInfo { exists, path: dest_path, relative_path }
}

} // verus!
