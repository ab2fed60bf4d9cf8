//! Permission strings and the colours of entry names.

use vstd::prelude::*;
use ansi_term::Colour;
use crate::rust_tree::entry::{Entry, EntryKind, EntryView};
use crate::rust_tree::text::{chars_of, same_text, slice_of, string_of};
use crate::rust_tree::words::{last_index_of, find_last};

verus! {

/// `set` if the bit `mask` is set in `mode`, else `-`.
pub open spec fn permission_char(mode: u32, mask: u32, set: char) -> char {
    if mode & mask != 0 {
        set
    } else {
        '-'
    }
}

/// The permission string: `d` or `-`, then `rwx` for owner, group and others,
/// each letter replaced by `-` where the bit is clear, the whole in brackets.
pub open spec fn permissions_text(mode: u32, is_dir: bool) -> Seq<char> {
    seq![
        '[',
        if is_dir { 'd' } else { '-' },
        permission_char(mode, 0o400, 'r'),
        permission_char(mode, 0o200, 'w'),
        permission_char(mode, 0o100, 'x'),
        permission_char(mode, 0o040, 'r'),
        permission_char(mode, 0o020, 'w'),
        permission_char(mode, 0o010, 'x'),
        permission_char(mode, 0o004, 'r'),
        permission_char(mode, 0o002, 'w'),
        permission_char(mode, 0o001, 'x'),
        ']',
    ]
}

fn permission_flag(mode: u32, mask: u32, set: char) -> (c: char)
    ensures
        c == permission_char(mode, mask, set),
{
    if mode & mask != 0 {
        set
    } else {
        '-'
    }
}

/// The permission string for the permission bits of a mode.
pub fn format_permissions_unix(mode: u32, is_dir: bool) -> (text: String)
    ensures
        text@ == permissions_text(mode, is_dir),
{
    let mut perms: Vec<char> = Vec::new();
    perms.push('[');
    perms.push(if is_dir { 'd' } else { '-' });
    perms.push(permission_flag(mode, 0o400, 'r'));
    perms.push(permission_flag(mode, 0o200, 'w'));
    perms.push(permission_flag(mode, 0o100, 'x'));
    perms.push(permission_flag(mode, 0o040, 'r'));
    perms.push(permission_flag(mode, 0o020, 'w'));
    perms.push(permission_flag(mode, 0o010, 'x'));
    perms.push(permission_flag(mode, 0o004, 'r'));
    perms.push(permission_flag(mode, 0o002, 'w'));
    perms.push(permission_flag(mode, 0o001, 'x'));
    perms.push(']');
    assert(perms@ =~= permissions_text(mode, is_dir));
    string_of(&perms)
}

/// The colours in which names are painted.
#[derive(Clone, Copy, Debug, PartialEq, Eq, Structural)]
pub enum Tint {
    Blue,
    Cyan,
    Green,
    Red,
    Yellow,
}

/// The number by which a terminal knows the foreground colour.
pub open spec fn colour_code(tint: Tint) -> Seq<char> {
    match tint {
        Tint::Red => "31"@,
        Tint::Green => "32"@,
        Tint::Yellow => "33"@,
        Tint::Blue => "34"@,
        Tint::Cyan => "36"@,
    }
}

/// `text` between the escape sequence that switches the colour on (bold too,
/// if asked) and the one that resets the terminal.
pub open spec fn painted(tint: Tint, bold: bool, text: Seq<char>) -> Seq<char> {
    "\x1b["@ + (if bold { "1;"@ } else { Seq::<char>::empty() }) + colour_code(tint) + "m"@ + text
        + "\x1b[0m"@
}

/// Calls `ansi_term::Colour::paint` and writes the result out. The crate puts
/// `ESC [`, the colour's number and `m` before the text and `ESC [ 0 m` after.
#[verifier::external_body]
fn paint_normal(tint: Tint, text: &str) -> (r: String)
    ensures
        r@ == painted(tint, false, text@),
{
    let colour = match tint {
        Tint::Blue => Colour::Blue,
        Tint::Cyan => Colour::Cyan,
        Tint::Green => Colour::Green,
        Tint::Red => Colour::Red,
        Tint::Yellow => Colour::Yellow,
    };
    colour.paint(text).to_string()
}

/// Calls `ansi_term::Colour::bold` and `ansi_term::Style::paint` and writes
/// the result out: as a plain colour, with `1;` before the colour's number.
#[verifier::external_body]
fn paint_bold(tint: Tint, text: &str) -> (r: String)
    ensures
        r@ == painted(tint, true, text@),
{
    let colour = match tint {
        Tint::Blue => Colour::Blue,
        Tint::Cyan => Colour::Cyan,
        Tint::Green => Colour::Green,
        Tint::Red => Colour::Red,
        Tint::Yellow => Colour::Yellow,
    };
    colour.bold().paint(text).to_string()
}

/// The extension of a file name: what follows its last `.`, unless the name
/// has none, is `..`, or has its only `.` in front.
pub open spec fn extension(name: Seq<char>) -> Option<Seq<char>> {
    let dot = last_index_of(name, '.');
    if dot <= 0 || name == seq!['.', '.'] {
        None
    } else {
        Some(name.subrange(dot + 1, name.len() as int))
    }
}

/// An ASCII capital letter as its small letter; any other character as it is.
pub open spec fn ascii_lower(c: char) -> char {
    if 'A' <= c && c <= 'Z' {
        ((c as u8) + 32u8) as char
    } else {
        c
    }
}

/// `s` with its ASCII capital letters made small.
pub open spec fn lowered(s: Seq<char>) -> Seq<char> {
    Seq::new(s.len(), |i: int| ascii_lower(s[i]))
}

/// The extensions of archives.
pub open spec fn is_archive_extension(ext: Seq<char>) -> bool {
    ext == "tar"@ || ext == "gz"@ || ext == "xz"@ || ext == "bz2"@ || ext == "zip"@ || ext
        == "7z"@
}

/// The extensions of images.
pub open spec fn is_image_extension(ext: Seq<char>) -> bool {
    ext == "jpg"@ || ext == "jpeg"@ || ext == "bmp"@ || ext == "gif"@ || ext == "png"@
}

/// The colour of an entry's name, if it has one: directories bold blue,
/// symbolic links cyan, executables green, then archives red and images
/// yellow by their extension, whatever its case.
pub open spec fn tint_of(entry: EntryView) -> Option<(Tint, bool)> {
    if entry.kind == EntryKind::Directory {
        Some((Tint::Blue, true))
    } else if entry.kind == EntryKind::Symlink {
        Some((Tint::Cyan, false))
    } else if entry.executable {
        Some((Tint::Green, false))
    } else {
        match extension(entry.name) {
            Some(ext) => if is_archive_extension(lowered(ext)) {
                Some((Tint::Red, false))
            } else if is_image_extension(lowered(ext)) {
                Some((Tint::Yellow, false))
            } else {
                None
            },
            None => None,
        }
    }
}

/// `text` as `colorize` returns it for `entry`.
pub open spec fn colorized(entry: EntryView, text: Seq<char>) -> Seq<char> {
    match tint_of(entry) {
        Some((tint, bold)) => painted(tint, bold, text),
        None => text,
    }
}

fn lower_chars(s: &Vec<char>) -> (r: Vec<char>)
    ensures
        r@ == lowered(s@),
{
    let mut r: Vec<char> = Vec::new();
    let mut i: usize = 0;
    while i < s.len()
        invariant
            0 <= i <= s.len(),
            r@ == lowered(s@.subrange(0, i as int)),
        decreases s.len() - i,
    {
        let c = s[i];
        let l: char = if c >= 'A' && c <= 'Z' {
            ((c as u8) + 32u8) as char
        } else {
            c
        };
        r.push(l);
        i += 1;
        assert(r@ =~= lowered(s@.subrange(0, i as int)));
    }
    assert(s@.subrange(0, s.len() as int) =~= s@);
    r
}

fn pick_tint(entry: &Entry) -> (r: Option<(Tint, bool)>)
    ensures
        r == tint_of(entry@),
{
    match entry.kind {
        EntryKind::Directory => {
            return Some((Tint::Blue, true));
        },
        EntryKind::Symlink => {
            return Some((Tint::Cyan, false));
        },
        _ => {},
    }
    if entry.executable {
        return Some((Tint::Green, false));
    }
    let name = chars_of(entry.name.as_str());
    let dot: usize = match find_last(&name, '.') {
        Some(d) => d,
        None => {
            return None;
        },
    };
    if dot == 0 || (name.len() == 2 && name[0] == '.' && name[1] == '.') {
        assert(name.len() == 2 && name[0] == '.' && name[1] == '.' ==> name@ =~= seq!['.', '.']);
        return None;
    }
    assert(name@ != seq!['.', '.']) by {
        if name@ == seq!['.', '.'] {
            assert(name@.len() == 2);
        }
    }
    let ext = lower_chars(&slice_of(&name, dot + 1, name.len()));
    if same_text(&ext, "tar") || same_text(&ext, "gz") || same_text(&ext, "xz") || same_text(
        &ext,
        "bz2",
    ) || same_text(&ext, "zip") || same_text(&ext, "7z") {
        Some((Tint::Red, false))
    } else if same_text(&ext, "jpg") || same_text(&ext, "jpeg") || same_text(&ext, "bmp")
        || same_text(&ext, "gif") || same_text(&ext, "png") {
        Some((Tint::Yellow, false))
    } else {
        None
    }
}

/// Paints `text` in the colour that the kind of `entry` calls for, or hands
/// it back unpainted where the entry has none.
pub fn colorize(entry: &Entry, text: &str) -> (r: String)
    ensures
        r@ == colorized(entry@, text@),
{
    match pick_tint(entry) {
        Some((tint, bold)) => {
            if bold {
                paint_bold(tint, text)
            } else {
                paint_normal(tint, text)
            }
        },
        None => string_of(&chars_of(text)),
    }
}

} // verus!
