//! The entry filter: which entries of a directory are left out.

use vstd::prelude::*;
use crate::rust_tree::entry::{Entry, EntryView};
use crate::rust_tree::options::{TreeOptions, glob_matches, pattern_matches, separator_free};

verus! {

/// A name that begins with a dot.
pub open spec fn is_hidden(name: Seq<char>) -> bool {
    name.len() > 0 && name[0] == '.'
}

/// The filter's rules, over what the two patterns answered for the name.
/// The first rule that applies decides:
/// a hidden name is left out unless hidden files are shown;
/// a name that the exclude pattern matches is left out;
/// a name that the include pattern does not match is left out, unless the
/// entry is a directory;
/// anything but a directory is left out when only directories are listed.
pub open spec fn skip_rule(
    options: TreeOptions,
    hidden: bool,
    is_dir: bool,
    excluded: bool,
    included: bool,
) -> bool {
    ||| !options.all_files && hidden
    ||| options.exclude_pattern is Some && excluded
    ||| options.pattern_glob is Some && !is_dir && !included
    ||| options.dir_only && !is_dir
}

/// Applies the filter's rules to the answers of the two patterns.
pub fn decide_skip(
    options: &TreeOptions,
    hidden: bool,
    is_dir: bool,
    excluded: bool,
    included: bool,
) -> (skip: bool)
    ensures
        skip == skip_rule(*options, hidden, is_dir, excluded, included),
{
    if !options.all_files && hidden {
        return true;
    }
    if options.exclude_pattern.is_some() && excluded {
        return true;
    }
    if options.pattern_glob.is_some() && !is_dir && !included {
        return true;
    }
    options.dir_only && !is_dir
}

/// Whether the exclude pattern, if there is one, matches the name.
pub open spec fn exclude_hit(options: TreeOptions, name: Seq<char>) -> bool {
    match options.exclude_pattern {
        Some(p) => glob_matches(p, name),
        None => false,
    }
}

/// Whether the include pattern, if there is one, matches the name.
pub open spec fn include_hit(options: TreeOptions, name: Seq<char>) -> bool {
    match options.pattern_glob {
        Some(p) => glob_matches(p, name),
        None => false,
    }
}

/// Whether a name is left out, for an entry that is or is not a directory.
pub open spec fn name_skipped(options: TreeOptions, name: Seq<char>, is_dir: bool) -> bool {
    skip_rule(options, is_hidden(name), is_dir, exclude_hit(options, name), include_hit(options, name))
}

/// Whether the filter leaves the entry out.
pub open spec fn should_skip(options: TreeOptions, entry: EntryView) -> bool {
    name_skipped(options, entry.name, entry.target_is_dir)
}

/// The patterns' answers for this name do not depend on the platform: the
/// name holds no path separator, or no pattern is set.
pub open spec fn pattern_neutral(options: TreeOptions, name: Seq<char>) -> bool {
    separator_free(name) || (options.exclude_pattern is None && options.pattern_glob is None)
}

/// Whether the name begins with a dot.
pub fn hidden_check(name: &str) -> (r: bool)
    ensures
        r == is_hidden(name@),
{
    let n = crate::rust_tree::text::chars_of(name);
    n.len() > 0 && n[0] == '.'
}

/// Decides whether a name is left out. Asks each pattern that is set.
pub fn skip_name(options: &TreeOptions, name: &str, is_dir: bool) -> (skip: bool)
    ensures
        pattern_neutral(*options, name@) ==> skip == name_skipped(*options, name@, is_dir),
        exists|excluded: bool, included: bool|
            skip == skip_rule(*options, is_hidden(name@), is_dir, excluded, included),
{
    let hidden = hidden_check(name);
    let excluded = match &options.exclude_pattern {
        Some(p) => pattern_matches(p, name),
        None => false,
    };
    let included = match &options.pattern_glob {
        Some(p) => pattern_matches(p, name),
        None => false,
    };
    decide_skip(options, hidden, is_dir, excluded, included)
}

/// The entry filter. The depth plays no part in it.
pub fn should_skip_entry(entry: &Entry, options: &TreeOptions, depth: usize) -> (skip: bool)
    ensures
        pattern_neutral(*options, entry.name@) ==> skip == should_skip(*options, entry@),
        exists|excluded: bool, included: bool|
            skip == skip_rule(
                *options,
                is_hidden(entry.name@),
                entry.target_is_dir,
                excluded,
                included,
            ),
{
    skip_name(options, entry.name.as_str(), entry.target_is_dir)
}

} // verus!
