//! The data structures shared by the dashboard's file commands.

use vstd::prelude::*;
use vstd::string::StringExecFns;

verus! {

/// One node of the file tree: a file, or a directory with children.
#[derive(Debug)]
pub struct FileNode {
    /// File or directory name.
    pub name: String,
    /// Absolute path.
    pub path: String,
    /// Kind marker: `"file"` or `"directory"`.
    pub file_type: String,
    /// Children, for a non-empty directory.
    pub children: Option<Vec<FileNode>>,
}

impl FileNode {
    /// A file node.
    pub fn new_file(name: String, path: String) -> (r: Self)
        ensures
            r.name == name,
            r.path == path,
            r.file_type@ == "file"@,
            r.children is None,
    {
        FileNode { name, path, file_type: String::from_str("file"), children: None }
    }

    /// A directory node; an empty child list is recorded as no children.
    pub fn new_directory(name: String, path: String, children: Vec<FileNode>) -> (r: Self)
        ensures
            r.name == name,
            r.path == path,
            r.file_type@ == "directory"@,
            children@.len() == 0 ==> r.children is None,
            children@.len() > 0 ==> r.children == Some(children),
    {
        let kids: Option<Vec<FileNode>> = if children.is_empty() {
            None
        } else {
            Some(children)
        };
        FileNode { name, path, file_type: String::from_str("directory"), children: kids }
    }
}

/// A file's content together with its location and name.
#[derive(Debug, Clone)]
pub struct FileContent {
    pub path: String,
    pub content: String,
    pub name: String,
}

/// The outcome of a backup cleanup run.
#[derive(Debug, Clone)]
pub struct CleanupResult {
    /// Number of files deleted.
    pub deleted_count: u32,
    /// Bytes freed by the deletions.
    pub deleted_size_bytes: u64,
    /// Problems encountered along the way.
    pub errors: Vec<String>,
}

impl Default for CleanupResult {
    /// Nothing deleted, nothing freed, no errors.
    fn default() -> (r: Self)
        ensures
            r.deleted_count == 0,
            r.deleted_size_bytes == 0,
            r.errors@.len() == 0,
    {
        CleanupResult { deleted_count: 0, deleted_size_bytes: 0, errors: Vec::new() }
    }
}

/// Progress of a bulk export.
#[derive(Debug, Clone)]
pub struct ExportProgress {
    pub total_files: u32,
    pub processed_files: u32,
    pub current_file: String,
}

/// The outcome of an import.
#[derive(Debug, Clone)]
pub struct ImportResult {
    /// Whether the import counts as successful.
    pub success: bool,
    /// Files written.
    pub imported_files: Vec<String>,
    /// Entries passed over, with the reason.
    pub skipped_files: Vec<String>,
    /// Problems encountered along the way.
    pub errors: Vec<String>,
    /// Whether a backup of an existing file was made.
    pub backup_created: bool,
}

impl Default for ImportResult {
    /// Nothing imported yet.
    fn default() -> (r: Self)
        ensures
            !r.success,
            r.imported_files@.len() == 0,
            r.skipped_files@.len() == 0,
            r.errors@.len() == 0,
            !r.backup_created,
    {
        ImportResult {
            success: false,
            imported_files: Vec::new(),
            skipped_files: Vec::new(),
            errors: Vec::new(),
            backup_created: false,
        }
    }
}

/// Whether a file already exists at a destination.
#[derive(Debug, Clone)]
pub struct FileExistsInfo {
    pub exists: bool,
    /// Absolute path of the destination.
    pub path: String,
    /// The destination relative to the configuration directory.
    pub relative_path: String,
}

/// One entry of an archive listing.
#[derive(Debug, Clone)]
pub struct ZipFileInfo {
    pub name: String,
    pub size: u64,
    pub is_directory: bool,
}

/// The outcome of a search-and-replace run.
#[derive(Debug, Clone)]
pub struct ReplaceResult {
    /// Whether the run completed.
    pub success: bool,
    /// How many occurrences were replaced.
    pub replaced_count: usize,
    /// The content after replacement.
    pub new_content: String,
    /// What went wrong, when the run failed.
    pub error: Option<String>,
}

impl ReplaceResult {
    /// A completed run.
    pub fn success(replaced_count: usize, new_content: String) -> (r: Self)
        ensures
            r.success,
            r.replaced_count == replaced_count,
            r.new_content == new_content,
            r.error is None,
    {
        ReplaceResult { success: true, replaced_count, new_content, error: None }
    }

    /// A failed run.
    pub fn error(message: String) -> (r: Self)
        ensures
            !r.success,
            r.replaced_count == 0,
            r.new_content@.len() == 0,
            r.error == Some(message),
    {
        ReplaceResult {
            success: false,
            replaced_count: 0,
            new_content: String::new(),
            error: Some(message),
        }
    }
}

} // verus!
