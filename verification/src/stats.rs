//! The dashboard's statistics view: the counted figures, the detail
//! listings, and the parsing of a skill file's front matter.  Walking
//! the configuration directory and reading files is the caller's
//! business; what is extracted from a file's text is decided and proved
//! here.

use vstd::prelude::*;
use vstd::string::StrSliceExecFns;

use crate::strutil::begins_with;
use crate::strutil::first_match;
use crate::strutil::find_sub;
use crate::strutil::head_matches;
use crate::strutil::spec_strip_char;
use crate::strutil::spec_trim;
use crate::strutil::split_char;
use crate::strutil::split_on_char;
use crate::strutil::strip_char_ends;
use crate::strutil::trim_ws;

use std::collections::HashMap;

verus! {

/// At most this many files appear in the total-files detail listing.
pub const TOTAL_FILES_LIMIT: usize = 100;

/// The figures shown on the dashboard.
#[derive(Debug)]
pub struct Stats {
    /// Agent definitions under the categories directory.
    pub sub_agent_count: u32,
    /// Category directories.
    pub category_count: u32,
    /// Skill files.
    pub skill_count: u32,
    /// Configured MCP servers.
    pub mcp_server_count: u32,
    /// Installed plugins.
    pub plugin_count: u32,
    /// Stored backups.
    pub backup_count: u32,
    /// All files under the configuration directory.
    pub total_file_count: u32,
    /// Most recent modification time, rendered as local time.
    pub last_updated: Option<String>,
}

/// One entry of a detail listing.
#[derive(Debug, Clone)]
pub struct StatsDetailItem {
    /// Unique identifier of the entry.
    pub id: String,
    /// Display name.
    pub name: String,
    /// File path, where one applies.
    pub path: Option<String>,
    /// Description, where one is known.
    pub description: Option<String>,
    /// Category, where one applies.
    pub category: Option<String>,
    /// Anything else worth showing.
    pub metadata: Option<HashMap<String, String>>,
}

/// One detail listing.
#[derive(Debug)]
pub struct StatsDetail {
    /// Which listing this is.
    pub detail_type: String,
    /// Its entries.
    pub items: Vec<StatsDetailItem>,
    /// How many entries there are in all.
    pub total_count: u32,
}

/// The description a front-matter line carries: the line trimmed, the
/// `description:` key removed, the value trimmed and unquoted.
pub open spec fn spec_line_description(line: Seq<char>) -> Option<Seq<char>> {
    let t = spec_trim(line);
    if head_matches(t, "description:"@) {
        let v = spec_trim(t.subrange("description:"@.len() as int, t.len() as int));
        Some(spec_strip_char(spec_strip_char(v, '"'), '\''))
    } else {
        None
    }
}

/// The first description among the lines at or after position `i`.
pub open spec fn spec_first_description(lines: Seq<Seq<char>>, i: int) -> Option<Seq<char>>
    decreases lines.len() - i,
{
    if i < 0 || i >= lines.len() {
        None
    } else {
        match spec_line_description(lines[i]) {
            Some(d) => Some(d),
            None => spec_first_description(lines, i + 1),
        }
    }
}

/// The description in a skill file's front matter: the file must open
/// with `---`, the front matter runs to the next `---`, and the first
/// of its lines carrying a `description:` key yields the description.
pub open spec fn spec_skill_description(content: Seq<char>) -> Option<Seq<char>> {
    if !head_matches(content, "---"@) {
        None
    } else {
        let rest = content.subrange("---"@.len() as int, content.len() as int);
        match first_match(rest, "---"@) {
            Some(m) => spec_first_description(split_char(rest.subrange(0, m), '\n'), 0),
            None => None,
        }
    }
}

/// The description a front-matter line carries, if any.
fn line_description(line: &str) -> (r: Option<String>)
    ensures
        r matches Some(d) ==> spec_line_description(line@) == Some(d@),
        r is None ==> spec_line_description(line@) is None,
{
    let t = trim_ws(line);
    let key = "description:";
    if begins_with(t.as_str(), key) {
        let tl = t.as_str().unicode_len();
        let kl = key.unicode_len();
        let v = t.as_str().substring_char(kl, tl);
        let v = trim_ws(v);
        let v = strip_char_ends(v.as_str(), '"');
        let v = strip_char_ends(v.as_str(), '\'');
        Some(v)
    } else {
        None
    }
}

/// Extract the description from a skill file's front matter, when the
/// file has front matter and it carries one.
pub fn extract_skill_description(content: &str) -> (r: Option<String>)
    ensures
        r matches Some(d) ==> spec_skill_description(content@) == Some(d@),
        r is None ==> spec_skill_description(content@) is None,
{
    let marker = "---";
    if !begins_with(content, marker) {
        return None;
    }
    let n = content.unicode_len();
    let ml = marker.unicode_len();
    let rest = content.substring_char(ml, n);
    let m = match find_sub(rest, marker) {
        Some(m) => m,
        None => {
            return None;
        },
    };
    let front = rest.substring_char(0, m);
    let lines = split_on_char(front, '\n');
    let ghost lines_model = split_char(front@, '\n');
    let nl = lines.len();
    let mut i: usize = 0;
    while i < nl
        invariant
            nl == lines@.len(),
            lines@.map_values(|x: String| x@) == lines_model,
            lines_model == split_char(front@, '\n'),
            front@ == content@.subrange("---"@.len() as int, content@.len() as int).subrange(
                0,
                first_match(
                    content@.subrange("---"@.len() as int, content@.len() as int),
                    "---"@,
                ).unwrap(),
            ),
            first_match(
                content@.subrange("---"@.len() as int, content@.len() as int),
                "---"@,
            ) is Some,
            head_matches(content@, "---"@),
            0 <= i <= nl,
            spec_first_description(lines_model, i as int) == spec_first_description(
                lines_model,
                0,
            ),
        decreases nl - i,
    {
        proof {
            assert(lines_model[i as int] == lines@.map_values(|x: String| x@)[i as int]);
        }
        match line_description(lines[i].as_str()) {
            Some(d) => {
                return Some(d);
            },
            None => {},
        }
        i = i + 1;
    }
    None
}

} // verus!
