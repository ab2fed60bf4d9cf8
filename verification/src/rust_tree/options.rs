//! The option set: the configuration of one run, resolved before traversal.

use vstd::prelude::*;
use glob::Pattern;
use glob::PatternError;

verus! {

/// `glob::Pattern`, a compiled pattern. Nothing of its inside is read.
#[verifier::external_type_specification]
#[verifier::external_body]
pub struct ExPattern(Pattern);

/// `glob::PatternError`, with its two public fields: where the error lies
/// and what it is.
#[verifier::external_type_specification]
pub struct ExPatternError(PatternError);

/// What `glob::Pattern::new` returns for the pattern text `source`.
pub uninterp spec fn glob_compile(source: Seq<char>) -> Result<Pattern, PatternError>;

/// Whether `glob::Pattern::matches` accepts `text` for the compiled `pattern`.
pub uninterp spec fn glob_matches(pattern: Pattern, text: Seq<char>) -> bool;

/// No `\` occurs in `text`.
pub open spec fn backslash_free(text: Seq<char>) -> bool {
    forall|i: int| 0 <= i < text.len() ==> text[i] != '\\'
}

/// Neither a slash nor a backslash occurs in `text`.
pub open spec fn separator_free(text: Seq<char>) -> bool {
    forall|i: int| 0 <= i < text.len() ==> text[i] != '/' && text[i] != '\\'
}

/// Calls `glob::Pattern::new`. For a pattern text without a backslash the
/// result depends on the text alone; a backslash next to `**` is a path
/// separator to the crate on some platforms and not on others.
#[verifier::external_body]
pub(crate) fn compile_pattern(source: &str) -> (r: Result<Pattern, PatternError>)
    ensures
        backslash_free(source@) ==> r == glob_compile(source@),
{
    Pattern::new(source)
}

/// Calls `glob::Pattern::matches`. For a text without path separators the
/// answer depends on the compiled pattern and the text alone; with one, the
/// crate compares separators differently from one platform to the next.
#[verifier::external_body]
pub(crate) fn pattern_matches(pattern: &Pattern, text: &str) -> (hit: bool)
    ensures
        separator_free(text@) ==> hit == glob_matches(*pattern, text@),
{
    pattern.matches(text)
}

/// The option set of one run.
#[derive(Clone, Debug)]
pub struct TreeOptions {
    pub all_files: bool,
    pub level: Option<u32>,
    pub full_path: bool,
    pub dir_only: bool,
    pub no_indent: bool,
    pub print_size: bool,
    pub human_readable: bool,
    pub pattern_glob: Option<Pattern>,
    pub exclude_pattern: Option<Pattern>,
    pub color: bool,
    pub no_color: bool,
    pub ascii: bool,
    pub sort_by_time: bool,
    pub reverse: bool,
    pub print_mod_date: bool,
    pub output_file: Option<String>,
    pub file_limit: Option<u64>,
    pub dirs_first: bool,
    pub classify: bool,
    pub no_report: bool,
    pub print_permissions: bool,
    pub from_file: bool,
}

} // verus!
