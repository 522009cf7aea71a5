//! Search across the configuration files and search-and-replace inside
//! one file: how a query matches a file, how the search pattern is
//! built from the user's options, and what a replacement run reports.
//! The regular-expression engine itself is the `regex` crate's;
//! reading and writing the file is the caller's business.

use vstd::prelude::*;
use vstd::string::StringExecFns;

use crate::strutil::clip_chars;
use crate::strutil::contains_seq;
use crate::strutil::contains_sub;
use crate::strutil::lower_chars;
use crate::strutil::lowercase;
use crate::types::ReplaceResult;

verus! {

/// How many characters of a matching file the search results carry.
pub const SEARCH_SNIPPET_CHARS: usize = 500;

/// A file matches a query when the folded query occurs in the folded
/// file name or in the folded content.
pub open spec fn spec_search_match(name: Seq<char>, content: Seq<char>, query: Seq<char>) -> bool {
    contains_seq(lower_chars(name), lower_chars(query)) || contains_seq(
        lower_chars(content),
        lower_chars(query),
    )
}

/// Whether a file matches the query, by name or by content, ignoring
/// case.
pub fn search_match(name: &str, content: &str, query: &str) -> (r: bool)
    ensures
        r == spec_search_match(name@, content@, query@),
{
    let ql = lowercase(query);
    let nl = lowercase(name);
    if contains_sub(nl.as_str(), ql.as_str()) {
        return true;
    }
    let cl = lowercase(content);
    contains_sub(cl.as_str(), ql.as_str())
}

/// The snippet of a matching file shown in the results: its first
/// characters, up to the snippet limit.
pub fn search_snippet(content: &str) -> (r: String)
    ensures
        content@.len() <= SEARCH_SNIPPET_CHARS ==> r@ == content@,
        content@.len() > SEARCH_SNIPPET_CHARS ==> r@ == content@.subrange(
            0,
            SEARCH_SNIPPET_CHARS as int,
        ),
{
    clip_chars(content, SEARCH_SNIPPET_CHARS)
}

/// The characters the regular-expression language reserves; the set is
/// documented as fixed.
pub open spec fn regex_meta(c: char) -> bool {
    ||| c == '\\'
    ||| c == '.'
    ||| c == '+'
    ||| c == '*'
    ||| c == '?'
    ||| c == '('
    ||| c == ')'
    ||| c == '|'
    ||| c == '['
    ||| c == ']'
    ||| c == '{'
    ||| c == '}'
    ||| c == '^'
    ||| c == '$'
    ||| c == '#'
    ||| c == '&'
    ||| c == '-'
    ||| c == '~'
}

/// A string with every reserved character preceded by a backslash.
pub open spec fn escaped_chars(s: Seq<char>) -> Seq<char>
    decreases s.len(),
{
    if s.len() == 0 {
        s
    } else {
        escaped_chars(s.drop_last()) + (if regex_meta(s.last()) {
            seq!['\\', s.last()]
        } else {
            seq![s.last()]
        })
    }
}

#[verifier::external_type_specification]
#[verifier::external_body]
pub struct ExRegex(regex::Regex);

#[verifier::external_type_specification]
#[verifier::external_body]
pub struct ExRegexError(regex::Error);

/// Relies on `regex::escape`: it prefixes each character of the fixed
/// reserved set with a backslash and keeps every other character.
#[verifier::external_body]
fn regex_escape(s: &str) -> (r: String)
    ensures
        r@ == escaped_chars(s@),
{
    regex::escape(s)
}

/// Relies on `regex::RegexBuilder`: compiles the pattern, with case
/// folding when asked; whether compilation succeeds depends on the
/// pattern language.
#[verifier::external_body]
fn regex_build(pattern: &str, case_insensitive: bool) -> (r: Result<regex::Regex, regex::Error>)
{
    regex::RegexBuilder::new(pattern).case_insensitive(case_insensitive).build()
}

/// Relies on `regex::Error`'s display: the message of a failed
/// compilation.
#[verifier::external_body]
fn regex_error_text(e: &regex::Error) -> (r: String)
{
    e.to_string()
}

/// Relies on `Regex::find_iter`: how many non-overlapping matches the
/// pattern has in the text.
#[verifier::external_body]
fn regex_count_matches(re: &regex::Regex, text: &str) -> (r: usize)
{
    re.find_iter(text).count()
}

/// Relies on `Regex::replace_all`: the text with every match replaced.
#[verifier::external_body]
fn regex_replace_all(re: &regex::Regex, text: &str, rep: &str) -> (r: String)
{
    re.replace_all(text, rep).to_string()
}

/// Relies on `Regex::replace`: the text with the first match replaced.
#[verifier::external_body]
fn regex_replace_first(re: &regex::Regex, text: &str, rep: &str) -> (r: String)
{
    re.replace(text, rep).to_string()
}

/// The pattern the search options produce: a regular-expression query
/// is taken as written, a literal query is escaped, and whole-word
/// matching wraps the pattern in word boundaries.
pub open spec fn spec_search_pattern(search: Seq<char>, whole_word: bool, use_regex: bool) -> Seq<
    char,
> {
    if use_regex {
        if whole_word {
            "\\b(?:"@ + search + ")\\b"@
        } else {
            search
        }
    } else {
        if whole_word {
            "\\b"@ + escaped_chars(search) + "\\b"@
        } else {
            escaped_chars(search)
        }
    }
}

/// Build the pattern text for a search.
pub fn build_search_pattern(search: &str, whole_word: bool, use_regex: bool) -> (r: String)
    ensures
        r@ == spec_search_pattern(search@, whole_word, use_regex),
{
    if use_regex {
        if whole_word {
            let mut s = String::from_str("\\b(?:");
            s.append(search);
            s.append(")\\b");
            s
        } else {
            search.to_owned()
        }
    } else {
        let escaped = regex_escape(search);
        if whole_word {
            let mut s = String::from_str("\\b");
            s.append(escaped.as_str());
            s.append("\\b");
            s
        } else {
            escaped
        }
    }
}

/// What a replacement run decided: the result to report, and whether
/// the content changed (so that the caller must back up and rewrite the
/// file).
pub struct ContentReplaceOutcome {
    pub result: ReplaceResult,
    pub changed: bool,
}

/// Run a search-and-replace over file content already in hand.  An
/// invalid pattern fails the run; a pattern without matches succeeds
/// with the content untouched; otherwise either every match or only the
/// first is replaced, and the caller is told whether anything actually
/// changed.
pub fn replace_in_content(
    content: String,
    search: &str,
    replace: &str,
    case_sensitive: bool,
    whole_word: bool,
    use_regex: bool,
    replace_all: bool,
) -> (r: ContentReplaceOutcome)
    ensures
        ({
            ||| (!r.result.success && r.result.replaced_count == 0 && r.result.error is Some
                && !r.changed && r.result.new_content@.len() == 0)
            ||| (r.result.success && r.result.replaced_count == 0 && r.result.new_content
                == content && !r.changed && r.result.error is None)
            ||| (r.result.success && r.result.replaced_count > 0 && r.result.error is None && (
            r.changed <==> r.result.new_content@ != content@) && (!replace_all
                ==> r.result.replaced_count == 1))
        }),
{
    let pattern = build_search_pattern(search, whole_word, use_regex);
    let regex = match regex_build(pattern.as_str(), !case_sensitive) {
        Ok(re) => re,
        Err(e) => {
            let mut m = String::from_str("Invalid search pattern: ");
            let detail = regex_error_text(&e);
            m.append(detail.as_str());
            return ContentReplaceOutcome { result: ReplaceResult::error(m), changed: false };
        },
    };
    let match_count = regex_count_matches(&regex, content.as_str());
    if match_count == 0 {
        return ContentReplaceOutcome {
            result: ReplaceResult::success(0, content),
            changed: false,
        };
    }
    let (new_content, replaced_count): (String, usize) = if replace_all {
        (regex_replace_all(&regex, content.as_str(), replace), match_count)
    } else {
        (regex_replace_first(&regex, content.as_str(), replace), 1)
    };
    let changed = !crate::strutil::str_eq(new_content.as_str(), content.as_str());
    ContentReplaceOutcome {
        result: ReplaceResult::success(replaced_count, new_content),
        changed,
    }
}

} // verus!
