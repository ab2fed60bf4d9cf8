//! The renderer: the text line of one entry, and the summary line.

use vstd::prelude::*;
use crate::rust_tree::dates::{date_text, format_date};
use crate::rust_tree::display::{colorize, colorized, format_permissions_unix, permissions_text};
use crate::rust_tree::entry::{Entry, EntryKind, EntryView};
use crate::rust_tree::numbers::{decimal, pad_left, push_decimal, push_decimal_padded};
use crate::rust_tree::options::TreeOptions;
use crate::rust_tree::text::{push_str, string_of};
use crate::rust_tree::utils::{bytes_to_human_readable, human_readable};

verus! {

/// The permission string and a space, where permissions are asked for and the
/// entry has them.
pub open spec fn permissions_part(entry: EntryView, options: TreeOptions) -> Seq<char> {
    match entry.mode {
        Some(mode) if options.print_permissions => permissions_text(mode, entry.is_dir()).push(' '),
        _ => Seq::empty(),
    }
}

/// The column of one ancestor: four spaces under an ancestor that was the
/// last of its siblings, else a vertical bar and three spaces.
pub open spec fn indent_column(ancestor_was_last: bool, ascii: bool) -> Seq<char> {
    if ancestor_was_last {
        "    "@
    } else if ascii {
        "|   "@
    } else {
        "│   "@
    }
}

/// The columns of the first `n` ancestors, outermost first.
pub open spec fn indent_columns(indent: Seq<bool>, ascii: bool, n: int) -> Seq<char>
    decreases n,
{
    if n <= 0 || n > indent.len() {
        Seq::empty()
    } else {
        indent_columns(indent, ascii, n - 1) + indent_column(indent[n - 1], ascii)
    }
}

/// The indentation of a line: one column for each ancestor, or nothing where
/// indentation is switched off.
pub open spec fn indent_part(indent: Seq<bool>, options: TreeOptions) -> Seq<char> {
    if options.no_indent {
        Seq::empty()
    } else {
        indent_columns(indent, options.ascii, indent.len() as int)
    }
}

/// The connector in front of the name.
pub open spec fn connector(options: TreeOptions, is_last: bool) -> Seq<char> {
    if options.no_indent {
        Seq::empty()
    } else if is_last {
        if options.ascii {
            "+---"@
        } else {
            "└── "@
        }
    } else {
        if options.ascii {
            "\\---"@
        } else {
            "├── "@
        }
    }
}

/// Whether names are painted.
pub open spec fn paints(options: TreeOptions) -> bool {
    options.color && !options.no_color
}

/// The name as shown: the bare name or the full path, painted where colours
/// are on.
pub open spec fn name_part(entry: EntryView, options: TreeOptions) -> Seq<char> {
    let plain = if options.full_path {
        entry.path
    } else {
        entry.name
    };
    if paints(options) {
        colorized(entry, plain)
    } else {
        plain
    }
}

/// Whether any of the three execute bits is set.
pub open spec fn has_execute_bit(mode: u32) -> bool {
    mode & 0o111 != 0
}

/// The type indicator: `/` for a directory, `@` for a symbolic link, `*` for
/// a file with an execute bit.
pub open spec fn classify_part(entry: EntryView, options: TreeOptions) -> Seq<char> {
    if !options.classify {
        Seq::empty()
    } else {
        match entry.kind {
            EntryKind::Directory => seq!['/'],
            EntryKind::Symlink => seq!['@'],
            EntryKind::File => match entry.mode {
                Some(mode) if has_execute_bit(mode) => seq!['*'],
                _ => Seq::empty(),
            },
            EntryKind::Other => Seq::empty(),
        }
    }
}

/// The size in brackets, for an entry that is no directory and has a size:
/// human-readable, or the byte count right-aligned in five columns and `B`.
pub open spec fn size_part(entry: EntryView, options: TreeOptions) -> Seq<char> {
    match entry.size {
        Some(size) if !entry.is_dir() && (options.print_size || options.human_readable) => {
            if options.human_readable {
                " ["@ + human_readable(size as nat) + "]"@
            } else {
                " ["@ + pad_left(decimal(size as nat), 5, ' ') + "B]"@
            }
        },
        _ => Seq::empty(),
    }
}

/// The modification time in brackets, where it is asked for and known.
pub open spec fn date_part(entry: EntryView, options: TreeOptions) -> Seq<char> {
    match entry.modified {
        Some(time) if options.print_mod_date => " ["@ + date_text(time) + "]"@,
        _ => Seq::empty(),
    }
}

/// The line of one entry: permissions, indentation, connector, name, type
/// indicator, size and date, in this order.
pub open spec fn entry_line(
    entry: EntryView,
    options: TreeOptions,
    indent: Seq<bool>,
    is_last: bool,
) -> Seq<char> {
    permissions_part(entry, options) + indent_part(indent, options) + connector(options, is_last)
        + name_part(entry, options) + classify_part(entry, options) + size_part(entry, options)
        + date_part(entry, options)
}

fn push_permissions(line: &mut Vec<char>, entry: &Entry, options: &TreeOptions)
    ensures
        final(line)@ == old(line)@ + permissions_part(entry@, *options),
{
    if options.print_permissions {
        match entry.mode {
            Some(mode) => {
                let perms = format_permissions_unix(mode, entry.is_directory());
                push_str(line, perms.as_str());
                line.push(' ');
                assert(line@ =~= old(line)@ + permissions_part(entry@, *options));
            },
            None => {
                assert(line@ =~= old(line)@ + permissions_part(entry@, *options));
            },
        }
    } else {
        assert(line@ =~= old(line)@ + permissions_part(entry@, *options));
    }
}

fn push_indent(line: &mut Vec<char>, indent: &Vec<bool>, options: &TreeOptions)
    ensures
        final(line)@ == old(line)@ + indent_part(indent@, *options),
{
    if options.no_indent {
        assert(line@ =~= old(line)@ + indent_part(indent@, *options));
        return;
    }
    let mut i: usize = 0;
    assert(line@ =~= old(line)@ + indent_columns(indent@, options.ascii, 0));
    while i < indent.len()
        invariant
            0 <= i <= indent.len(),
            line@ == old(line)@ + indent_columns(indent@, options.ascii, i as int),
        decreases indent.len() - i,
    {
        let column = if indent[i] {
            "    "
        } else if options.ascii {
            "|   "
        } else {
            "│   "
        };
        push_str(line, column);
        i += 1;
        assert(line@ =~= old(line)@ + indent_columns(indent@, options.ascii, i as int));
    }
}

fn push_connector(line: &mut Vec<char>, options: &TreeOptions, is_last: bool)
    ensures
        final(line)@ == old(line)@ + connector(*options, is_last),
{
    let text = if options.no_indent {
        ""
    } else if is_last {
        if options.ascii {
            "+---"
        } else {
            "└── "
        }
    } else {
        if options.ascii {
            "\\---"
        } else {
            "├── "
        }
    };
    proof {
        reveal_strlit("");
        if options.no_indent {
            assert(text@ =~= Seq::<char>::empty());
        }
    }
    push_str(line, text);
}

fn push_name(line: &mut Vec<char>, entry: &Entry, options: &TreeOptions)
    ensures
        final(line)@ == old(line)@ + name_part(entry@, *options),
{
    let plain: &str = if options.full_path {
        entry.path.as_str()
    } else {
        entry.name.as_str()
    };
    if options.no_color || !options.color {
        push_str(line, plain);
    } else {
        let coloured = colorize(entry, plain);
        push_str(line, coloured.as_str());
    }
}

fn execute_bit_check(mode: u32) -> (r: bool)
    ensures
        r == has_execute_bit(mode),
{
    mode & 0o111 != 0
}

fn push_classify(line: &mut Vec<char>, entry: &Entry, options: &TreeOptions)
    ensures
        final(line)@ == old(line)@ + classify_part(entry@, *options),
{
    if options.classify {
        match entry.kind {
            EntryKind::Directory => {
                line.push('/');
            },
            EntryKind::Symlink => {
                line.push('@');
            },
            EntryKind::File => {
                match entry.mode {
                    Some(mode) => {
                        if execute_bit_check(mode) {
                            line.push('*');
                        }
                    },
                    None => {},
                }
            },
            EntryKind::Other => {},
        }
    }
    assert(line@ =~= old(line)@ + classify_part(entry@, *options));
}

fn push_size(line: &mut Vec<char>, entry: &Entry, options: &TreeOptions)
    ensures
        final(line)@ == old(line)@ + size_part(entry@, *options),
{
    if !entry.is_directory() && (options.print_size || options.human_readable) {
        match entry.size {
            Some(size) => {
                push_str(line, " [");
                if options.human_readable {
                    let text = bytes_to_human_readable(size);
                    push_str(line, text.as_str());
                    push_str(line, "]");
                } else {
                    push_decimal_padded(line, size, 5, ' ');
                    push_str(line, "B]");
                }
            },
            None => {},
        }
    }
    assert(line@ =~= old(line)@ + size_part(entry@, *options));
}

fn push_date(line: &mut Vec<char>, entry: &Entry, options: &TreeOptions)
    ensures
        final(line)@ == old(line)@ + date_part(entry@, *options),
{
    if options.print_mod_date {
        match entry.modified {
            Some(time) => {
                push_str(line, " [");
                let text = format_date(time);
                push_str(line, text.as_str());
                push_str(line, "]");
            },
            None => {},
        }
    }
    assert(line@ =~= old(line)@ + date_part(entry@, *options));
}

/// Renders the line of one entry under the ancestors that `indent_state`
/// describes, outermost first.
pub fn format_entry_line(
    entry: &Entry,
    options: &TreeOptions,
    indent_state: &Vec<bool>,
    is_last: bool,
) -> (line: String)
    ensures
        line@ == entry_line(entry@, *options, indent_state@, is_last),
{
    let mut line: Vec<char> = Vec::new();
    push_permissions(&mut line, entry, options);
    push_indent(&mut line, indent_state, options);
    push_connector(&mut line, options, is_last);
    push_name(&mut line, entry, options);
    push_classify(&mut line, entry, options);
    push_size(&mut line, entry, options);
    push_date(&mut line, entry, options);
    assert(line@ =~= entry_line(entry@, *options, indent_state@, is_last));
    string_of(&line)
}

/// The summary: the two counts, each with its noun in the singular for one
/// and in the plural otherwise.
pub open spec fn summary_text(directories: nat, files: nat) -> Seq<char> {
    decimal(directories) + (if directories == 1 {
        " directory, "@
    } else {
        " directories, "@
    }) + decimal(files) + (if files == 1 {
        " file"@
    } else {
        " files"@
    })
}

/// The summary line for the two counts.
pub fn format_summary(directories: u64, files: u64) -> (line: String)
    ensures
        line@ == summary_text(directories as nat, files as nat),
{
    let mut line: Vec<char> = Vec::new();
    push_decimal(&mut line, directories);
    push_str(&mut line, if directories == 1 { " directory, " } else { " directories, " });
    push_decimal(&mut line, files);
    push_str(&mut line, if files == 1 { " file" } else { " files" });
    assert(line@ =~= summary_text(directories as nat, files as nat));
    string_of(&line)
}

/// The lines that close the output: an empty line and the summary, or
/// nothing where the summary is switched off.
pub open spec fn closing_lines(options: TreeOptions, directories: nat, files: nat) -> Seq<
    Seq<char>,
> {
    if options.no_report {
        Seq::empty()
    } else {
        seq![Seq::empty(), summary_text(directories, files)]
    }
}

/// The character sequences of the strings.
pub open spec fn string_views(lines: Seq<String>) -> Seq<Seq<char>> {
    Seq::new(lines.len(), |i: int| lines[i]@)
}

/// The lines that close the output after the two counts are known.
pub fn format_closing(options: &TreeOptions, directories: u64, files: u64) -> (lines: Vec<String>)
    ensures
        string_views(lines@) == closing_lines(*options, directories as nat, files as nat),
{
    let mut lines: Vec<String> = Vec::new();
    if !options.no_report {
        lines.push(String::new());
        lines.push(format_summary(directories, files));
    }
    assert(string_views(lines@) =~= closing_lines(*options, directories as nat, files as nat));
    lines
}

} // verus!
