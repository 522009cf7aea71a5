//! Path policy of the configuration directory: which directories are
//! hidden from listings and transfers, which file kinds are editable,
//! and how user-supplied paths are normalized and checked against the
//! configuration directory boundary.
//!
//! Paths are handled as plain strings with `/` separators; entries of
//! archives may also use `\`.

use vstd::prelude::*;
use vstd::string::StrSliceExecFns;
use vstd::string::StringExecFns;

use crate::error::AppError;
use crate::strutil::begins_with;
use crate::strutil::contains_seq;
use crate::strutil::contains_sub;
use crate::strutil::head_matches;
use crate::strutil::str_eq;

verus! {

/// The directory names kept out of listings, exports and imports:
/// caches and other machine-managed state.
pub open spec fn excluded_dir_names() -> Seq<Seq<char>> {
    seq![
        "cache"@,
        "tasks"@,
        "todos"@,
        "debug"@,
        "shell-snapshots"@,
        "session-env"@,
        "statsig"@,
        "plugins"@,
        "backups"@,
    ]
}

/// The excluded directory names, as strings.
pub fn excluded_dir_list() -> (r: Vec<String>)
    ensures
        r@.len() == excluded_dir_names().len(),
        forall|i: int| 0 <= i < r@.len() ==> (#[trigger] r@[i])@ == excluded_dir_names()[i],
{
    let mut v: Vec<String> = Vec::new();
    v.push(String::from_str("cache"));
    v.push(String::from_str("tasks"));
    v.push(String::from_str("todos"));
    v.push(String::from_str("debug"));
    v.push(String::from_str("shell-snapshots"));
    v.push(String::from_str("session-env"));
    v.push(String::from_str("statsig"));
    v.push(String::from_str("plugins"));
    v.push(String::from_str("backups"));
    v
}

/// A path strays into an excluded directory when it passes through a
/// component of that name.
pub open spec fn spec_is_excluded_path(s: Seq<char>) -> bool {
    exists|i: int|
        0 <= i < excluded_dir_names().len() && contains_seq(
            s,
            "/"@ + excluded_dir_names()[i] + "/"@,
        )
}

/// Whether the path passes through one of the excluded directories.
pub fn is_excluded_path(path_str: &str) -> (r: bool)
    ensures
        r == spec_is_excluded_path(path_str@),
{
    let dirs = excluded_dir_list();
    let n = dirs.len();
    let mut i: usize = 0;
    while i < n
        invariant
            n == dirs@.len(),
            n == excluded_dir_names().len(),
            forall|k: int| 0 <= k < n ==> (#[trigger] dirs@[k])@ == excluded_dir_names()[k],
            0 <= i <= n,
            forall|k: int|
                0 <= k < i ==> !contains_seq(path_str@, "/"@ + excluded_dir_names()[k] + "/"@),
        decreases n - i,
    {
        let mut pat = String::from_str("/");
        pat.append(dirs[i].as_str());
        pat.append("/");
        if contains_sub(path_str, pat.as_str()) {
            return true;
        }
        i = i + 1;
    }
    false
}

/// An archive entry strays into an excluded directory when the name of
/// such a directory, followed by either separator, occurs in it.
pub open spec fn spec_is_excluded_zip_entry(s: Seq<char>) -> bool {
    exists|i: int|
        0 <= i < excluded_dir_names().len() && (contains_seq(
            s,
            excluded_dir_names()[i] + "/"@,
        ) || contains_seq(s, excluded_dir_names()[i] + "\\"@))
}

/// Whether the archive entry name touches one of the excluded
/// directories, under either path separator.  An entry that begins
/// with such a directory contains it too, so beginnings need no
/// separate test.
pub fn is_excluded_zip_entry(name: &str) -> (r: bool)
    ensures
        r == spec_is_excluded_zip_entry(name@),
{
    let dirs = excluded_dir_list();
    let n = dirs.len();
    let mut i: usize = 0;
    while i < n
        invariant
            n == dirs@.len(),
            n == excluded_dir_names().len(),
            forall|k: int| 0 <= k < n ==> (#[trigger] dirs@[k])@ == excluded_dir_names()[k],
            0 <= i <= n,
            forall|k: int|
                0 <= k < i ==> !contains_seq(name@, excluded_dir_names()[k] + "/"@)
                    && !contains_seq(name@, excluded_dir_names()[k] + "\\"@),
        decreases n - i,
    {
        let mut fwd = String::from_str(dirs[i].as_str());
        fwd.append("/");
        let mut bwd = String::from_str(dirs[i].as_str());
        bwd.append("\\");
        if contains_sub(name, fwd.as_str()) || contains_sub(name, bwd.as_str()) {
            return true;
        }
        i = i + 1;
    }
    false
}

/// The final path component: everything after the last `/`, or the
/// whole string when there is none.
pub open spec fn spec_file_name(s: Seq<char>) -> Seq<char> {
    match s.index_of_last('/') {
        Some(i) => s.subrange(i + 1, s.len() as int),
        None => s,
    }
}

/// The extension of the final path component: what follows its last
/// `.`, unless that dot is missing or leads the component (a hidden
/// file has no extension).
pub open spec fn spec_extension(s: Seq<char>) -> Option<Seq<char>> {
    let name = spec_file_name(s);
    match name.index_of_last('.') {
        Some(i) => if i > 0 {
            Some(name.subrange(i + 1, name.len() as int))
        } else {
            None
        },
        None => None,
    }
}

/// The path names a file of an editable kind.
pub open spec fn spec_is_allowed_extension(s: Seq<char>) -> bool {
    match spec_extension(s) {
        Some(e) => e == "md"@ || e == "json"@ || e == "jsonl"@,
        None => false,
    }
}

/// The index of the last occurrence of `c` in `s`, if any.
fn find_last(s: &str, c: char) -> (r: Option<usize>)
    ensures
        r matches Some(i) ==> s@.index_of_last(c) == Some(i as int) && i < s@.len(),
        r is None ==> s@.index_of_last(c) is None,
{
    let n = s.unicode_len();
    let mut i: usize = 0;
    let mut found: Option<usize> = None;
    while i < n
        invariant
            n == s@.len(),
            0 <= i <= n,
            match found {
                Some(f) => f < i && s@[f as int] == c && (forall|j: int|
                    f < j < i ==> s@[j] != c),
                None => forall|j: int| 0 <= j < i ==> s@[j] != c,
            },
        decreases n - i,
    {
        if s.get_char(i) == c {
            found = Some(i);
        }
        i = i + 1;
    }
    proof {
        s@.index_of_last_ensures(c);
        match found {
            Some(f) => {
                assert(s@.contains(c));
                let w = s@.index_of_last(c).unwrap();
                assert(s@[w] == c);
                if w < f {
                    assert(s@[f as int] == c);
                }
                if w > f {
                    assert(s@[w] != c);
                }
                assert(w == f);
            },
            None => {
                if s@.contains(c) {
                    let w = choose|j: int| 0 <= j < s@.len() && s@[j] == c;
                    assert(s@[w] != c);
                }
            },
        }
    }
    found
}

/// Whether the path names a file of an editable kind.
pub fn is_allowed_extension(path: &str) -> (r: bool)
    ensures
        r == spec_is_allowed_extension(path@),
{
    let n = path.unicode_len();
    let name_start: usize = match find_last(path, '/') {
        Some(i) => i + 1,
        None => 0,
    };
    let name = path.substring_char(name_start, n);
    proof {
        assert(name@ =~= spec_file_name(path@));
    }
    match find_last(name, '.') {
        Some(i) => {
            if i == 0 {
                return false;
            }
            let ext = name.substring_char(i + 1, name.unicode_len());
            proof {
                assert(ext@ =~= spec_extension(path@).unwrap());
            }
            str_eq(ext, "md") || str_eq(ext, "json") || str_eq(ext, "jsonl")
        },
        None => false,
    }
}

/// The name is itself one of the excluded directories.
pub open spec fn spec_is_excluded_dir_name(name: Seq<char>) -> bool {
    exists|i: int| 0 <= i < excluded_dir_names().len() && name == excluded_dir_names()[i]
}

/// Whether the name is one of the excluded directories.
pub fn is_excluded_dir_name(name: &str) -> (r: bool)
    ensures
        r == spec_is_excluded_dir_name(name@),
{
    let dirs = excluded_dir_list();
    let n = dirs.len();
    let mut i: usize = 0;
    while i < n
        invariant
            n == dirs@.len(),
            n == excluded_dir_names().len(),
            forall|k: int| 0 <= k < n ==> (#[trigger] dirs@[k])@ == excluded_dir_names()[k],
            0 <= i <= n,
            forall|k: int| 0 <= k < i ==> name@ != excluded_dir_names()[k],
        decreases n - i,
    {
        if str_eq(name, dirs[i].as_str()) {
            return true;
        }
        i = i + 1;
    }
    false
}

/// The extension of the path's final component, when it has one.
pub fn extension_of(path: &str) -> (r: Option<String>)
    ensures
        r matches Some(e) ==> spec_extension(path@) == Some(e@),
        r is None ==> spec_extension(path@) is None,
{
    let n = path.unicode_len();
    let name_start: usize = match find_last(path, '/') {
        Some(i) => i + 1,
        None => 0,
    };
    let name = path.substring_char(name_start, n);
    proof {
        assert(name@ =~= spec_file_name(path@));
    }
    match find_last(name, '.') {
        Some(i) => {
            if i == 0 {
                return None;
            }
            let ext = name.substring_char(i + 1, name.unicode_len());
            proof {
                assert(ext@ =~= spec_extension(path@).unwrap());
            }
            Some(ext.to_owned())
        },
        None => None,
    }
}

/// The path lies within the directory: it is the directory itself, or
/// continues below it past a separator.
pub open spec fn spec_path_inside(path: Seq<char>, dir: Seq<char>) -> bool {
    path == dir || head_matches(path, dir + "/"@)
}

/// Enforce the configuration-directory boundary: a path outside
/// `config_dir` is rejected as access denied.
pub fn validate_path_security(path: &str, config_dir: &str) -> (r: Result<(), AppError>)
    ensures
        spec_path_inside(path@, config_dir@) ==> r is Ok,
        !spec_path_inside(path@, config_dir@) ==> (r matches Err(e) && e matches
            AppError::AccessDenied(m) && m@ == "only files in ~/.dashboard/ are allowed"@),
{
    if str_eq(path, config_dir) {
        return Ok(());
    }
    let mut below = String::from_str(config_dir);
    below.append("/");
    if begins_with(path, below.as_str()) {
        return Ok(());
    }
    Err(AppError::AccessDenied(String::from_str("only files in ~/.dashboard/ are allowed")))
}

/// Join one more component onto a directory path.
pub fn join_path(dir: &str, name: &str) -> (r: String)
    ensures
        r@ == dir@ + "/"@ + name@,
{
    let mut s = String::from_str(dir);
    s.append("/");
    s.append(name);
    s
}

/// The configuration directory of this user: `.dashboard` under the home
/// directory.  Without a home directory there is none.
pub fn get_config_dir() -> (r: Result<String, AppError>)
    ensures
        r matches Err(e) ==> e is HomeNotFound,
{
    match crate::host::home_dir_string() {
        Some(home) => Ok(config_dir_of(home.as_str())),
        None => Err(AppError::HomeNotFound),
    }
}

/// The configuration directory under a given home directory.
pub fn config_dir_of(home: &str) -> (r: String)
    ensures
        r@ == home@ + "/.dashboard"@,
{
    let mut s = String::from_str(home);
    s.append("/.dashboard");
    s
}

/// Where the favorites list is stored, under the configuration
/// directory.
pub fn get_favorites_file_path(config_dir: &str) -> (r: String)
    ensures
        r@ == config_dir@ + "/"@ + "dashboard-favorites.json"@,
{
    join_path(config_dir, "dashboard-favorites.json")
}

/// Turn a user-supplied path into an absolute one: a `~/.dashboard/`
/// prefix is resolved against the real configuration directory, and any
/// other path is passed through unchanged (the boundary check happens
/// separately).
pub fn normalize_config_path(path: &str, config_dir: &str) -> (r: Option<String>)
    ensures
        head_matches(path@, "~/.dashboard/"@) ==> (r matches Some(p) && p@ == config_dir@ + "/"@
            + path@.subrange("~/.dashboard/"@.len() as int, path@.len() as int)),
        !head_matches(path@, "~/.dashboard/"@) ==> (r matches Some(p) && p@ == path@),
{
    let marker = "~/.dashboard/";
    if begins_with(path, marker) {
        let suffix = path.substring_char(marker.unicode_len(), path.unicode_len());
        Some(join_path(config_dir, suffix))
    } else {
        Some(path.to_owned())
    }
}

/// Like [`normalize_config_path`], but for file creation: only paths
/// under the configuration directory (in `~/.dashboard/` form or as its
/// absolute prefix) are accepted; anything else is rejected.
pub fn normalize_config_path_strict(path: &str, config_dir: &str) -> (r: Option<String>)
    ensures
        head_matches(path@, "~/.dashboard/"@) ==> (r matches Some(p) && p@ == config_dir@ + "/"@
            + path@.subrange("~/.dashboard/"@.len() as int, path@.len() as int)),
        !head_matches(path@, "~/.dashboard/"@) && head_matches(path@, config_dir@) ==> (r matches
            Some(p) && p@ == path@),
        !head_matches(path@, "~/.dashboard/"@) && !head_matches(path@, config_dir@) ==> r is None,
{
    let marker = "~/.dashboard/";
    if begins_with(path, marker) {
        let suffix = path.substring_char(marker.unicode_len(), path.unicode_len());
        Some(join_path(config_dir, suffix))
    } else if begins_with(path, config_dir) {
        Some(path.to_owned())
    } else {
        None
    }
}

} // verus!
