//! Custom templates: their data shape, the derivation of a file-safe
//! template id from a template name, and the assembly of a template
//! record from user input.  Reading and writing template files is the
//! caller's business.

use vstd::prelude::*;
use vstd::string::StrSliceExecFns;
use vstd::string::StringExecFns;

use crate::paths::join_path;
use crate::strutil::alnum_char;
use crate::strutil::chars_to_string;
use crate::strutil::is_alnum;
use crate::strutil::lower_chars;
use crate::strutil::lowercase;

verus! {

/// One fillable field of a template.
#[derive(Debug, Clone)]
pub struct TemplateField {
    /// Variable name.
    pub name: String,
    /// Label shown to the user.
    pub label: String,
    /// Placeholder text.
    pub placeholder: String,
    /// Whether the field must be filled.
    pub required: bool,
    /// Value used when the field is left empty.
    pub default_value: Option<String>,
}

/// A stored custom template.
#[derive(Debug, Clone)]
pub struct CustomTemplate {
    /// File-safe identifier derived from the name.
    pub id: String,
    pub name: String,
    pub description: String,
    /// One of the template categories (agent, skill, command).
    pub category: String,
    pub icon: String,
    /// The template body.
    pub content: String,
    pub fields: Vec<TemplateField>,
    /// Pattern for the default file name.
    pub default_file_name: String,
    /// Always set for templates saved by the user.
    pub is_custom: bool,
    pub created_at: String,
    pub updated_at: Option<String>,
}

/// What the user supplies when saving a template.
#[derive(Debug, Clone)]
pub struct SaveTemplateInput {
    pub name: String,
    pub description: String,
    pub category: String,
    pub icon: String,
    pub content: String,
    pub fields: Vec<TemplateField>,
    pub default_file_name: String,
}

/// Characters kept in a template id; everything else becomes a hyphen.
pub open spec fn keep_char(c: char) -> char {
    if alnum_char(c) || c == '-' || c == '_' {
        c
    } else {
        '-'
    }
}

/// Hyphen runs collapsed to one, leading hyphens dropped: the state of
/// the pass is the position, whether a hyphen was just seen, and what
/// has been kept.
pub open spec fn collapse_from(s: Seq<char>, i: int, prev_hyphen: bool, acc: Seq<char>) -> Seq<
    char,
>
    decreases s.len() - i,
{
    if i < 0 || i >= s.len() {
        acc
    } else if s[i] == '-' {
        collapse_from(
            s,
            i + 1,
            true,
            if !prev_hyphen && acc.len() > 0 {
                acc.push('-')
            } else {
                acc
            },
        )
    } else {
        collapse_from(s, i + 1, false, acc.push(s[i]))
    }
}

/// Trailing hyphens removed.
pub open spec fn trim_trailing_hyphens(s: Seq<char>) -> Seq<char>
    decreases s.len(),
{
    if s.len() > 0 && s.last() == '-' {
        trim_trailing_hyphens(s.drop_last())
    } else {
        s
    }
}

/// The file-safe id of a template name: the name case-folded, every
/// character outside letters, digits, `-` and `_` turned into a hyphen,
/// hyphen runs collapsed, and hyphens stripped from the ends.
pub open spec fn spec_template_id(name: Seq<char>) -> Seq<char> {
    trim_trailing_hyphens(
        collapse_from(lower_chars(name).map_values(|c: char| keep_char(c)), 0, false, Seq::empty()),
    )
}

/// Derive the file-safe id of a template name.
pub fn generate_template_id(name: &str) -> (r: String)
    ensures
        r@ == spec_template_id(name@),
{
    let lowered = lowercase(name);
    let low = lowered.as_str();
    let n = low.unicode_len();
    let ghost sani = lower_chars(name@).map_values(|c: char| keep_char(c));
    let mut result: Vec<char> = Vec::new();
    let mut prev_hyphen = false;
    let mut i: usize = 0;
    while i < n
        invariant
            n == low@.len(),
            low@ == lower_chars(name@),
            sani == lower_chars(name@).map_values(|c: char| keep_char(c)),
            0 <= i <= n,
            collapse_from(sani, i as int, prev_hyphen, result@) == collapse_from(
                sani,
                0,
                false,
                Seq::empty(),
            ),
        decreases n - i,
    {
        let c = low.get_char(i);
        let kept: char = if is_alnum(c) || c == '-' || c == '_' {
            c
        } else {
            '-'
        };
        proof {
            assert(sani[i as int] == keep_char(low@[i as int]));
            assert(kept == sani[i as int]);
        }
        if kept == '-' {
            if !prev_hyphen && result.len() > 0 {
                result.push('-');
            }
            prev_hyphen = true;
        } else {
            result.push(kept);
            prev_hyphen = false;
        }
        i = i + 1;
    }
    proof {
        assert(result@ == collapse_from(sani, 0, false, Seq::empty()));
    }
    while result.len() > 0 && result[result.len() - 1] == '-'
        invariant
            trim_trailing_hyphens(result@) == spec_template_id(name@),
        decreases result.len(),
    {
        let ghost before = result@;
        let _ = result.pop();
        proof {
            assert(result@ =~= before.drop_last());
        }
    }
    proof {
        assert(trim_trailing_hyphens(result@) == result@);
    }
    chars_to_string(&result)
}

/// Where templates are stored, under the configuration directory.
pub fn get_templates_dir(config_dir: &str) -> (r: String)
    ensures
        r@ == config_dir@ + "/"@ + "templates"@,
{
    join_path(config_dir, "templates")
}

/// The file name a template id is stored under.
pub fn template_file_name(id: &str) -> (r: String)
    ensures
        r@ == id@ + ".json"@,
{
    let mut s = String::from_str(id);
    s.append(".json");
    s
}

/// Assemble the stored record of a template: a fresh template carries
/// the current time as its creation time; saving over an existing one
/// keeps the old creation time and records the current time as the
/// update time.
pub fn build_custom_template(
    input: SaveTemplateInput,
    id: String,
    now: String,
    existing_created_at: Option<String>,
) -> (r: CustomTemplate)
    ensures
        r.id == id,
        r.name == input.name,
        r.description == input.description,
        r.category == input.category,
        r.icon == input.icon,
        r.content == input.content,
        r.fields == input.fields,
        r.default_file_name == input.default_file_name,
        r.is_custom,
        existing_created_at matches Some(c) ==> r.created_at == c && r.updated_at == Some(now),
        existing_created_at is None ==> r.created_at == now && r.updated_at is None,
{
    let (created_at, updated_at): (String, Option<String>) = match existing_created_at {
        Some(c) => (c, Some(now)),
        None => (now, None),
    };
    CustomTemplate {
        id,
        name: input.name,
        description: input.description,
        category: input.category,
        icon: input.icon,
        content: input.content,
        fields: input.fields,
        default_file_name: input.default_file_name,
        is_custom: true,
        created_at,
        updated_at,
    }
}

} // verus!
