//! From the command line's values to the option set.

use vstd::prelude::*;
use glob::Pattern;
use glob::PatternError;
use crate::rust_tree::numbers::{decimal, push_decimal};
use crate::rust_tree::options::{TreeOptions, backslash_free, compile_pattern, glob_compile};
use crate::rust_tree::text::{push_str, string_of};

verus! {

/// The values of the command line.
#[derive(Debug)]
pub struct Cli {
    pub path: String,
    pub all_files: bool,
    pub level: Option<u32>,
    pub dir_only: bool,
    pub no_indent: bool,
    pub print_size: bool,
    pub human_readable: bool,
    pub pattern: Option<String>,
    pub exclude: Option<String>,
    pub full_path: bool,
    pub color: bool,
    pub no_color: bool,
    pub ascii: bool,
    pub sort_by_time: bool,
    pub reverse: bool,
    pub print_mod_date: bool,
    pub output_file: Option<String>,
    pub file_limit: Option<u64>,
    pub dirs_first: bool,
    pub classify: bool,
    pub no_report: bool,
    pub print_permissions: bool,
    pub fromfile: bool,
}

/// The message for a pattern that does not compile: where the error lies and
/// what it is.
pub open spec fn pattern_error_text(error: PatternError) -> Seq<char> {
    "Pattern syntax error near position "@ + decimal(error.pos as nat) + ": "@ + error.msg@
}

/// A compiled pattern as it is, an error as its message.
pub open spec fn with_message(compiled: Result<Pattern, PatternError>) -> Result<
    Pattern,
    Seq<char>,
> {
    match compiled {
        Ok(pattern) => Ok(pattern),
        Err(error) => Err(pattern_error_text(error)),
    }
}

/// What compiling a pattern gives: the pattern, or the message of the error.
pub open spec fn parsed_pattern(source: Seq<char>) -> Result<Pattern, Seq<char>> {
    with_message(glob_compile(source))
}

/// The view of a result that holds a message in its error.
pub open spec fn message_view<T>(r: Result<T, String>) -> Result<T, Seq<char>> {
    match r {
        Ok(value) => Ok(value),
        Err(message) => Err(message@),
    }
}

/// Turns the error of a pattern that did not compile into its message.
pub fn pattern_or_message(compiled: Result<Pattern, PatternError>) -> (r: Result<Pattern, String>)
    ensures
        message_view(r) == with_message(compiled),
{
    match compiled {
        Ok(pattern) => Ok(pattern),
        Err(error) => {
            let mut text: Vec<char> = Vec::new();
            push_str(&mut text, "Pattern syntax error near position ");
            push_decimal(&mut text, error.pos as u64);
            push_str(&mut text, ": ");
            push_str(&mut text, error.msg);
            assert(text@ =~= pattern_error_text(error));
            Err(string_of(&text))
        },
    }
}

/// Compiles a glob pattern; an invalid one is rejected with a message.
pub fn parse_glob_pattern(s: &str) -> (r: Result<Pattern, String>)
    ensures
        backslash_free(s@) ==> message_view(r) == parsed_pattern(s@),
        exists|compiled: Result<Pattern, PatternError>| message_view(r) == with_message(compiled),
{
    pattern_or_message(compile_pattern(s))
}

/// The option set for the values of the command line and the two compiled
/// patterns.
pub open spec fn options_of(cli: Cli, pattern: Option<Pattern>, exclude: Option<Pattern>) -> TreeOptions {
    TreeOptions {
        all_files: cli.all_files,
        level: cli.level,
        full_path: cli.full_path,
        dir_only: cli.dir_only,
        no_indent: cli.no_indent,
        print_size: cli.print_size,
        human_readable: cli.human_readable,
        pattern_glob: pattern,
        exclude_pattern: exclude,
        color: cli.color,
        no_color: cli.no_color,
        ascii: cli.ascii,
        sort_by_time: cli.sort_by_time,
        reverse: cli.reverse,
        print_mod_date: cli.print_mod_date,
        output_file: cli.output_file,
        file_limit: cli.file_limit,
        dirs_first: cli.dirs_first,
        classify: cli.classify,
        no_report: cli.no_report,
        print_permissions: cli.print_permissions,
        from_file: cli.fromfile,
    }
}

/// What compiling an optional pattern gives: nothing for none.
pub open spec fn parsed_optional(source: Option<String>) -> Result<Option<Pattern>, Seq<char>> {
    match source {
        Some(s) => match parsed_pattern(s@) {
            Ok(pattern) => Ok(Some(pattern)),
            Err(message) => Err(message),
        },
        None => Ok(None),
    }
}

/// The option set for the command line, or the message for the first of the
/// include and the exclude pattern that does not compile.
pub open spec fn options_for(cli: Cli) -> Result<TreeOptions, Seq<char>> {
    match parsed_optional(cli.pattern) {
        Err(message) => Err(message),
        Ok(pattern) => match parsed_optional(cli.exclude) {
            Err(message) => Err(message),
            Ok(exclude) => Ok(options_of(cli, pattern, exclude)),
        },
    }
}

/// The pattern text, if there is one, holds no backslash.
pub open spec fn source_neutral(source: Option<String>) -> bool {
    match source {
        Some(s) => backslash_free(s@),
        None => true,
    }
}

fn parse_optional(source: &Option<String>) -> (r: Result<Option<Pattern>, String>)
    ensures
        source_neutral(*source) ==> message_view(r) == parsed_optional(*source),
        r is Ok ==> (r->Ok_0 is Some <==> *source is Some),
{
    match source {
        Some(s) => match parse_glob_pattern(s.as_str()) {
            Ok(pattern) => Ok(Some(pattern)),
            Err(message) => Err(message),
        },
        None => Ok(None),
    }
}

/// Puts the option set together from the values of the command line and the
/// two compiled patterns.
pub fn build_options(cli: &Cli, pattern: Option<Pattern>, exclude: Option<Pattern>) -> (options:
    TreeOptions)
    ensures
        options == options_of(*cli, pattern, exclude),
{
    let output_file = match &cli.output_file {
        Some(name) => Some(name.clone()),
        None => None,
    };
    TreeOptions {
        all_files: cli.all_files,
        level: cli.level,
        full_path: cli.full_path,
        dir_only: cli.dir_only,
        no_indent: cli.no_indent,
        print_size: cli.print_size,
        human_readable: cli.human_readable,
        pattern_glob: pattern,
        exclude_pattern: exclude,
        color: cli.color,
        no_color: cli.no_color,
        ascii: cli.ascii,
        sort_by_time: cli.sort_by_time,
        reverse: cli.reverse,
        print_mod_date: cli.print_mod_date,
        output_file,
        file_limit: cli.file_limit,
        dirs_first: cli.dirs_first,
        classify: cli.classify,
        no_report: cli.no_report,
        print_permissions: cli.print_permissions,
        from_file: cli.fromfile,
    }
}

/// Resolves the option set from the values of the command line. Compiles
/// the include pattern, then the exclude pattern; the first that does not
/// compile is rejected with its message.
pub fn cli_to_options(cli: &Cli) -> (r: Result<TreeOptions, String>)
    ensures
        source_neutral(cli.pattern) && source_neutral(cli.exclude) ==> message_view(r)
            == options_for(*cli),
        r is Ok ==> exists|pattern: Option<Pattern>, exclude: Option<Pattern>|
            {
                &&& #[trigger] options_of(*cli, pattern, exclude) == r->Ok_0
                &&& (pattern is Some <==> cli.pattern is Some)
                &&& (exclude is Some <==> cli.exclude is Some)
            },
{
    let pattern = match parse_optional(&cli.pattern) {
        Ok(p) => p,
        Err(message) => {
            return Err(message);
        },
    };
    let exclude = match parse_optional(&cli.exclude) {
        Ok(p) => p,
        Err(message) => {
            return Err(message);
        },
    };
    let options = build_options(cli, pattern, exclude);
    assert(options_of(*cli, pattern, exclude) == options);
    Ok(options)
}

} // verus!
