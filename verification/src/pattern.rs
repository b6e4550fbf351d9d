//! Patterns: regular expressions of the `regex` crate, compiled once and then
//! tried on base names and on lines.

use vstd::prelude::*;
use crate::text::{base_name, base_name_of};

verus! {

#[verifier::external_type_specification]
#[verifier::external_body]
pub struct ExRegex(regex::Regex);

#[verifier::external_type_specification]
#[verifier::external_body]
pub struct ExRegexError(regex::Error);

/// Whether a compiled pattern finds a match anywhere in a text: what
/// `regex::Regex::is_match` returns for them.
pub uninterp spec fn regex_accepts(pattern: regex::Regex, text: Seq<char>) -> bool;

/// The string that a compiled pattern was made from: what
/// `regex::Regex::as_str` returns for it.
pub uninterp spec fn regex_source(pattern: regex::Regex) -> Seq<char>;

/// Calls `regex::Regex::new`. Which strings compile is the crate's affair,
/// and nothing is claimed of it. A regex that comes back holds the string it
/// was given, unchanged, and `regex::Regex::as_str` hands that string out: so
/// its source is `pattern`.
#[verifier::external_body]
fn regex_new(pattern: &str) -> (compiled: Result<regex::Regex, regex::Error>)
    ensures
        compiled matches Ok(regex) ==> regex_source(regex) == pattern@,
{
    regex::Regex::new(pattern)
}

/// Calls `regex::Regex::is_match`, which searches the whole text and reports
/// whether any match exists; it depends on the pattern and the text alone, and
/// `regex_accepts` is the name of its answer.
#[verifier::external_body]
fn regex_is_match(pattern: &regex::Regex, text: &str) -> (found: bool)
    ensures
        found == regex_accepts(*pattern, text@),
{
    pattern.is_match(text)
}

/// Takes a `regex::Error` apart, variant by variant. The type is opaque to
/// the verifier, so nothing is claimed of which variant comes out.
#[verifier::external_body]
fn regex_error_parts(error: regex::Error) -> (failure: PatternFailure) {
    match error {
        regex::Error::Syntax(message) => PatternFailure::Syntax(message),
        regex::Error::CompiledTooBig(limit) => PatternFailure::TooLarge(limit),
        _ => PatternFailure::Other,
    }
}

/// Why a pattern did not compile.
#[derive(Debug, Clone, PartialEq, Eq)]
pub enum PatternFailure {
    /// The pattern is not a well-formed regular expression; the message says where.
    Syntax(String),
    /// The compiled pattern would exceed this size limit, in bytes.
    TooLarge(usize),
    /// Any other refusal.
    Other,
}

/// Which of the two patterns of a search is meant.
#[derive(Debug, Clone, Copy, PartialEq, Eq, Structural)]
pub enum PatternRole {
    Filename,
    Content,
}

/// A pattern of a search that did not compile.
#[derive(Debug, Clone, PartialEq, Eq)]
pub struct PatternError {
    pub role: PatternRole,
    pub failure: PatternFailure,
}

/// What one traversal looks for: files whose base name matches
/// `filename_pattern` and, in them, lines that match `content_pattern`.
#[derive(Debug)]
pub struct SearchCriteria {
    pub filename_pattern: regex::Regex,
    pub content_pattern: Option<regex::Regex>,
}

/// The criteria that two compilations give, or the error of the first that
/// failed, the filename pattern's before the content pattern's.
pub open spec fn criteria_from(
    filename: Result<regex::Regex, PatternFailure>,
    content: Option<Result<regex::Regex, PatternFailure>>,
) -> Result<SearchCriteria, PatternError> {
    match filename {
        Err(failure) => Err(PatternError { role: PatternRole::Filename, failure }),
        Ok(filename_pattern) => match content {
            None => Ok(SearchCriteria { filename_pattern, content_pattern: None }),
            Some(Ok(pattern)) => Ok(
                SearchCriteria { filename_pattern, content_pattern: Some(pattern) },
            ),
            Some(Err(failure)) => Err(PatternError { role: PatternRole::Content, failure }),
        },
    }
}

/// Compiles one pattern. Whether it compiles is decided by the `regex`
/// crate; a compiled pattern that comes back is the one made from `pattern`.
pub fn compile_pattern(pattern: &str) -> (compiled: Result<regex::Regex, PatternFailure>)
    ensures
        compiled matches Ok(regex) ==> regex_source(regex) == pattern@,
{
    match regex_new(pattern) {
        Ok(compiled) => Ok(compiled),
        Err(error) => Err(regex_error_parts(error)),
    }
}

/// Whether `pattern` finds a match anywhere in `text`.
pub fn pattern_matches(pattern: &regex::Regex, text: &str) -> (found: bool)
    ensures
        found == regex_accepts(*pattern, text@),
{
    regex_is_match(pattern, text)
}

impl SearchCriteria {
    /// Puts the outcome of compiling the two patterns together.
    pub fn from_compiled(
        filename: Result<regex::Regex, PatternFailure>,
        content: Option<Result<regex::Regex, PatternFailure>>,
    ) -> (criteria: Result<SearchCriteria, PatternError>)
        ensures
            criteria == criteria_from(filename, content),
    {
        match filename {
            Err(failure) => Err(PatternError { role: PatternRole::Filename, failure }),
            Ok(filename_pattern) => match content {
                None => Ok(SearchCriteria { filename_pattern, content_pattern: None }),
                Some(Ok(pattern)) => Ok(
                    SearchCriteria { filename_pattern, content_pattern: Some(pattern) },
                ),
                Some(Err(failure)) => Err(
                    PatternError { role: PatternRole::Content, failure },
                ),
            },
        }
    }

    /// Compiles the filename pattern and, where one is given, the content
    /// pattern. Whether a pattern compiles is decided by the `regex` crate;
    /// whatever it decides, the result is what [`SearchCriteria::from_compiled`]
    /// makes of it: criteria come back exactly when every pattern given
    /// compiled; they hold a content pattern exactly when one was given, and
    /// each pattern they hold is the one made from the string given for it.
    pub fn compile(filename: &str, content: Option<&str>) -> (criteria: Result<
        SearchCriteria,
        PatternError,
    >)
        ensures
            exists|
                filename_compiled: Result<regex::Regex, PatternFailure>,
                content_compiled: Option<Result<regex::Regex, PatternFailure>>,
            |
                (content_compiled is Some <==> content is Some) && criteria == #[trigger] criteria_from(
                    filename_compiled,
                    content_compiled,
                ),
            criteria matches Ok(c) ==> (c.content_pattern is Some <==> content is Some),
            criteria matches Ok(c) ==> regex_source(c.filename_pattern) == filename@,
            criteria matches Ok(c) ==> (content matches Some(given) ==> regex_source(
                c.content_pattern->Some_0,
            ) == given@),
            criteria matches Err(e) ==> (e.role == PatternRole::Content ==> content is Some),
    {
        let filename_compiled = compile_pattern(filename);
        let content_compiled = match content {
            Some(pattern) => Some(compile_pattern(pattern)),
            None => None,
        };
        let criteria = SearchCriteria::from_compiled(filename_compiled, content_compiled);
        assert(criteria == criteria_from(filename_compiled, content_compiled));
        criteria
    }

    /// Whether the base name of `path` matches the filename pattern. The
    /// directories on the way to the file play no part.
    pub fn selects(&self, path: &str) -> (selected: bool)
        ensures
            selected == self.selects_path(path@),
    {
        let name = base_name(path);
        regex_is_match(&self.filename_pattern, name.as_str())
    }

    /// Whether the base name of `path` matches the filename pattern.
    pub open spec fn selects_path(&self, path: Seq<char>) -> bool {
        regex_accepts(self.filename_pattern, base_name_of(path))
    }
}

} // verus!
