//! The listing parser: from the lines of an archive listing, or of a plain
//! list of paths, to the entries of a virtual tree.

use vstd::prelude::*;
use crate::rust_tree::listing::{add_entry, is_round_trip, lemma_listing_round_trip, listing};
use crate::rust_tree::numbers::{parse_u64, parse_u64_check};
use crate::rust_tree::options::TreeOptions;
use crate::rust_tree::text::{
    chars_of, ends_with, ends_with_check, is_ascii_letter, ascii_letter_check, slice_of,
    starts_with, starts_with_check, string_of, contains, contains_check, has_char,
    has_char_check, push_all, same_text,
};
use crate::rust_tree::text::{is_digit, is_whitespace, digit_check, whitespace_check};
use crate::rust_tree::words::{
    fields, find_last, join_fields, join_from, last_index_of, split_fields, strip_trailing,
    strip_trailing_chars, trim, trim_chars, views,
};

verus! {

/// One entry of a listing.
#[derive(Debug, Clone)]
pub struct FileEntry {
    pub path: String,
    pub is_dir: bool,
    pub size: Option<u64>,
}

/// An entry of a listing: its normalized path, whether it is a directory, and
/// its size where the listing gives one.
pub struct FileEntryView {
    pub path: Seq<char>,
    pub is_dir: bool,
    pub size: Option<u64>,
}

impl View for FileEntry {
    type V = FileEntryView;

    open spec fn view(&self) -> FileEntryView {
        FileEntryView { path: self.path@, is_dir: self.is_dir, size: self.size }
    }
}

impl FileEntry {
    /// A copy of the entry.
    pub fn duplicate(&self) -> (r: FileEntry)
        ensures
            r@ == self@,
    {
        FileEntry { path: self.path.clone(), is_dir: self.is_dir, size: self.size }
    }
}

/// The tree that a listing describes: its entries and the name of its root.
pub struct VirtualTree {
    pub entries: Vec<FileEntry>,
    pub root_name: String,
}

/// The views of the entries of a list, in its order.
pub open spec fn file_views(v: Seq<FileEntry>) -> Seq<FileEntryView> {
    Seq::new(v.len(), |i: int| v[i]@)
}

/// `s` with every backslash turned into a slash.
pub open spec fn slashed(s: Seq<char>) -> Seq<char> {
    Seq::new(s.len(), |i: int| if s[i] == '\\' { '/' } else { s[i] })
}

/// `s` without a leading `./`.
pub open spec fn without_dot_slash(s: Seq<char>) -> Seq<char> {
    if s.len() >= 2 && s[0] == '.' && s[1] == '/' {
        s.subrange(2, s.len() as int)
    } else {
        s
    }
}

/// `s` without the colon of a drive prefix: a letter and a colon at the
/// beginning become the letter alone.
pub open spec fn without_drive_colon(s: Seq<char>) -> Seq<char> {
    if s.len() >= 2 && is_ascii_letter(s[0]) && s[1] == ':' {
        seq![s[0]] + s.subrange(2, s.len() as int)
    } else {
        s
    }
}

/// The normalized form of a path: backslashes become slashes, then a leading
/// `./` goes, then the colon of a drive prefix.
pub open spec fn normalize(path: Seq<char>) -> Seq<char> {
    without_drive_colon(without_dot_slash(slashed(path)))
}

/// Normalizes a path.
pub fn normalize_path(path: &Vec<char>) -> (r: Vec<char>)
    ensures
        r@ == normalize(path@),
{
    let mut s: Vec<char> = Vec::new();
    let mut i: usize = 0;
    while i < path.len()
        invariant
            0 <= i <= path.len(),
            s@ == slashed(path@).subrange(0, i as int),
        decreases path.len() - i,
    {
        s.push(if path[i] == '\\' { '/' } else { path[i] });
        i += 1;
        assert(s@ =~= slashed(path@).subrange(0, i as int));
    }
    assert(s@ =~= slashed(path@));
    let t = if s.len() >= 2 && s[0] == '.' && s[1] == '/' {
        slice_of(&s, 2, s.len())
    } else {
        s
    };
    if t.len() >= 2 && ascii_letter_check(t[0]) && t[1] == ':' {
        let mut r: Vec<char> = Vec::new();
        r.push(t[0]);
        let rest = slice_of(&t, 2, t.len());
        push_all(&mut r, &rest);
        assert(r@ =~= seq![t@[0]] + t@.subrange(2, t.len() as int));
        r
    } else {
        t
    }
}

/// The entry for a path that marks a directory by a trailing slash: the
/// normalized path without its trailing slashes, a directory if it had one.
pub open spec fn slash_marked(path: Seq<char>, size: Option<u64>) -> FileEntryView {
    let p = normalize(path);
    let is_dir = p.len() > 0 && p.last() == '/';
    FileEntryView {
        path: if is_dir {
            strip_trailing(p, '/')
        } else {
            p
        },
        is_dir,
        size,
    }
}

fn slash_marked_entry(path: &Vec<char>, size: Option<u64>) -> (e: FileEntry)
    ensures
        e@ == slash_marked(path@, size),
{
    let p = normalize_path(path);
    let is_dir = p.len() > 0 && p[p.len() - 1] == '/';
    let clean = if is_dir {
        strip_trailing_chars(&p, '/')
    } else {
        p
    };
    FileEntry { path: string_of(&clean), is_dir, size }
}

/// A line of `tar -tf`: the whole line is the path, a trailing slash marks a
/// directory. A line that leaves no path is no entry.
pub open spec fn tar_simple_entry(line: Seq<char>) -> Option<FileEntryView> {
    let e = slash_marked(line, None);
    if e.path.len() == 0 {
        None
    } else {
        Some(e)
    }
}

/// The view of what a line parser returns.
pub open spec fn parsed_view(r: Option<FileEntry>) -> Option<FileEntryView> {
    match r {
        Some(e) => Some(e@),
        None => None,
    }
}

/// Reads a line of `tar -tf`.
pub fn parse_tar_simple_line(line: &str) -> (r: Option<FileEntry>)
    ensures
        parsed_view(r) == tar_simple_entry(line@),
{
    let chars = chars_of(line);
    tar_simple_chars(&chars)
}

fn tar_simple_chars(line: &Vec<char>) -> (r: Option<FileEntry>)
    ensures
        parsed_view(r) == tar_simple_entry(line@),
{
    let e = slash_marked_entry(line, None);
    if e.path.as_str().is_empty() {
        None
    } else {
        Some(e)
    }
}

/// `s` begins with the character `c`.
pub open spec fn begins_with(s: Seq<char>, c: char) -> bool {
    s.len() > 0 && s[0] == c
}

fn begins_with_check(s: &Vec<char>, c: char) -> (r: bool)
    ensures
        r == begins_with(s@, c),
{
    s.len() > 0 && s[0] == c
}

/// The text after the last space of the line.
pub open spec fn after_last_space(line: Seq<char>) -> Seq<char> {
    line.subrange(last_index_of(line, ' ') + 1, line.len() as int)
}

/// A line of `tar -tvf`: at least six fields; the first begins with `d` for a
/// directory; the third is the size; the path is the text after the last
/// space, and a directory's path loses its trailing slashes.
pub open spec fn tar_verbose_entry(line: Seq<char>) -> Option<FileEntryView> {
    let f = fields(line);
    if f.len() < 6 || last_index_of(line, ' ') < 0 {
        None
    } else {
        let is_dir = begins_with(f[0], 'd');
        let p = normalize(after_last_space(line));
        Some(
            FileEntryView {
                path: if is_dir {
                    strip_trailing(p, '/')
                } else {
                    p
                },
                is_dir,
                size: parse_u64(f[2]),
            },
        )
    }
}

fn tar_verbose_chars(line: &Vec<char>) -> (r: Option<FileEntry>)
    ensures
        parsed_view(r) == tar_verbose_entry(line@),
{
    let parts = split_fields(line);
    if parts.len() < 6 {
        return None;
    }
    let is_dir = begins_with_check(&parts[0], 'd');
    let size = parse_u64_check(&parts[2]);
    let start: usize = match find_last(line, ' ') {
        Some(i) => i + 1,
        None => {
            return None;
        },
    };
    let p = normalize_path(&slice_of(line, start, line.len()));
    let clean = if is_dir {
        strip_trailing_chars(&p, '/')
    } else {
        p
    };
    assert(views(parts@)[0] == parts@[0]@ && views(parts@)[2] == parts@[2]@);
    Some(FileEntry { path: string_of(&clean), is_dir, size })
}

/// Reads a line of `tar -tvf`.
pub fn parse_tar_verbose_line(line: &str) -> (r: Option<FileEntry>)
    ensures
        parsed_view(r) == tar_verbose_entry(line@),
{
    let chars = chars_of(line);
    tar_verbose_chars(&chars)
}

/// A line of a tar listing, without the white space at its ends: read as a
/// verbose line if it begins with `d`, `-` or `l`, else as a bare path. An
/// empty line is no entry.
pub open spec fn tar_entry(line: Seq<char>) -> Option<FileEntryView> {
    let t = trim(line);
    if t.len() == 0 {
        None
    } else if t[0] == 'd' || t[0] == '-' || t[0] == 'l' {
        tar_verbose_entry(t)
    } else {
        tar_simple_entry(t)
    }
}

fn tar_chars(line: &Vec<char>) -> (r: Option<FileEntry>)
    ensures
        parsed_view(r) == tar_entry(line@),
{
    let t = trim_chars(line);
    if t.len() == 0 {
        None
    } else if t[0] == 'd' || t[0] == '-' || t[0] == 'l' {
        tar_verbose_chars(&t)
    } else {
        tar_simple_chars(&t)
    }
}

/// Reads a line of a tar listing of either kind.
pub fn parse_tar_line(line: &str) -> (r: Option<FileEntry>)
    ensures
        parsed_view(r) == tar_entry(line@),
{
    let chars = chars_of(line);
    tar_chars(&chars)
}

/// A line of `unzip -l`: at least four fields; the first is the size, the
/// path runs from the fourth field on; a trailing slash marks a directory.
pub open spec fn zip_simple_entry(line: Seq<char>) -> Option<FileEntryView> {
    let f = fields(line);
    if f.len() < 4 {
        None
    } else {
        Some(slash_marked(join_from(f, 3), parse_u64(f[0])))
    }
}

fn zip_simple_chars(line: &Vec<char>) -> (r: Option<FileEntry>)
    ensures
        parsed_view(r) == zip_simple_entry(line@),
{
    let parts = split_fields(line);
    if parts.len() < 4 {
        return None;
    }
    let size = parse_u64_check(&parts[0]);
    let path = join_fields(&parts, 3);
    assert(views(parts@)[0] == parts@[0]@);
    Some(slash_marked_entry(&path, size))
}

/// Reads a line of `unzip -l`.
pub fn parse_zip_simple_line(line: &str) -> (r: Option<FileEntry>)
    ensures
        parsed_view(r) == zip_simple_entry(line@),
{
    let chars = chars_of(line);
    zip_simple_chars(&chars)
}

/// A line of `unzip -v`: at least seven fields; the first is the size, the
/// last the path; a trailing slash marks a directory.
pub open spec fn zip_verbose_entry(line: Seq<char>) -> Option<FileEntryView> {
    let f = fields(line);
    if f.len() < 7 {
        None
    } else {
        Some(slash_marked(f.last(), parse_u64(f[0])))
    }
}

fn zip_verbose_chars(line: &Vec<char>) -> (r: Option<FileEntry>)
    ensures
        parsed_view(r) == zip_verbose_entry(line@),
{
    let parts = split_fields(line);
    if parts.len() < 7 {
        return None;
    }
    let size = parse_u64_check(&parts[0]);
    assert(views(parts@)[0] == parts@[0]@);
    assert(views(parts@).last() == parts@[parts.len() - 1]@);
    Some(slash_marked_entry(&parts[parts.len() - 1], size))
}

/// Reads a line of `unzip -v`.
pub fn parse_zip_verbose_line(line: &str) -> (r: Option<FileEntry>)
    ensures
        parsed_view(r) == zip_verbose_entry(line@),
{
    let chars = chars_of(line);
    zip_verbose_chars(&chars)
}

/// A line of a zip listing that holds no entry: a header, a separator row or
/// the totals.
pub open spec fn zip_noise(t: Seq<char>) -> bool {
    ||| t.len() == 0
    ||| starts_with(t, "Archive:"@)
    ||| starts_with(t, "Length"@)
    ||| starts_with(t, "------"@)
    ||| ends_with(t, "files"@)
    ||| starts_with(t, "Method"@)
}

/// A line of a zip listing, without the white space at its ends. It is read
/// as a verbose line if its second field is `Deflated`, or is `Stored` with
/// eight fields or more; else as a plain line if it has four fields or more
/// and its first is a number.
pub open spec fn zip_entry(line: Seq<char>) -> Option<FileEntryView> {
    let t = trim(line);
    let f = fields(t);
    if zip_noise(t) {
        None
    } else if (f.len() >= 8 && f[1] == "Stored"@) || (f.len() >= 2 && f[1] == "Deflated"@) {
        zip_verbose_entry(t)
    } else if f.len() >= 4 && parse_u64(f[0]) is Some {
        zip_simple_entry(t)
    } else {
        None
    }
}

fn zip_noise_check(t: &Vec<char>) -> (r: bool)
    ensures
        r == zip_noise(t@),
{
    t.len() == 0 || starts_with_check(t, "Archive:") || starts_with_check(t, "Length")
        || starts_with_check(t, "------") || ends_with_check(t, "files") || starts_with_check(
        t,
        "Method",
    )
}

fn zip_chars(line: &Vec<char>) -> (r: Option<FileEntry>)
    ensures
        parsed_view(r) == zip_entry(line@),
{
    let t = trim_chars(line);
    if zip_noise_check(&t) {
        return None;
    }
    let parts = split_fields(&t);
    proof {
        if parts.len() >= 2 {
            assert(views(parts@)[0] == parts@[0]@ && views(parts@)[1] == parts@[1]@);
        } else if parts.len() >= 1 {
            assert(views(parts@)[0] == parts@[0]@);
        }
    }
    if (parts.len() >= 8 && same_text(&parts[1], "Stored")) || (parts.len() >= 2 && same_text(
        &parts[1],
        "Deflated",
    )) {
        zip_verbose_chars(&t)
    } else if parts.len() >= 4 && parse_u64_check(&parts[0]).is_some() {
        zip_simple_chars(&t)
    } else {
        None
    }
}

/// Reads a line of a zip listing of either kind.
pub fn parse_zip_line(line: &str) -> (r: Option<FileEntry>)
    ensures
        parsed_view(r) == zip_entry(line@),
{
    let chars = chars_of(line);
    zip_chars(&chars)
}

/// A line of a 7-Zip listing that holds no entry: a header, a property of
/// the archive, a separator row or the totals.
pub open spec fn sevenzip_noise(t: Seq<char>) -> bool {
    ||| t.len() == 0
    ||| starts_with(t, "7-Zip"@)
    ||| starts_with(t, "p7zip"@)
    ||| starts_with(t, "Scanning"@)
    ||| starts_with(t, "Creating"@)
    ||| starts_with(t, "Items to"@)
    ||| starts_with(t, "Files read"@)
    ||| starts_with(t, "Archive size"@)
    ||| starts_with(t, "Everything"@)
    ||| starts_with(t, "Listing archive:"@)
    ||| starts_with(t, "--"@)
    ||| starts_with(t, "Path ="@)
    ||| starts_with(t, "Type ="@)
    ||| starts_with(t, "Physical Size"@)
    ||| starts_with(t, "Headers Size"@)
    ||| starts_with(t, "Method ="@)
    ||| starts_with(t, "Solid ="@)
    ||| starts_with(t, "Blocks ="@)
    ||| starts_with(t, "Date"@)
    ||| contains(t, "files,"@)
    ||| contains(t, "bytes ("@)
    ||| contains(t, "file,"@)
}

fn sevenzip_noise_check(t: &Vec<char>) -> (r: bool)
    ensures
        r == sevenzip_noise(t@),
{
    t.len() == 0 || starts_with_check(t, "7-Zip") || starts_with_check(t, "p7zip")
        || starts_with_check(t, "Scanning") || starts_with_check(t, "Creating")
        || starts_with_check(t, "Items to") || starts_with_check(t, "Files read")
        || starts_with_check(t, "Archive size") || starts_with_check(t, "Everything")
        || starts_with_check(t, "Listing archive:") || starts_with_check(t, "--")
        || starts_with_check(t, "Path =") || starts_with_check(t, "Type =") || starts_with_check(
        t,
        "Physical Size",
    ) || starts_with_check(t, "Headers Size") || starts_with_check(t, "Method =")
        || starts_with_check(t, "Solid =") || starts_with_check(t, "Blocks =")
        || starts_with_check(t, "Date") || contains_check(t, "files,") || contains_check(
        t,
        "bytes (",
    ) || contains_check(t, "file,")
}

/// A line of `7z l`, without the white space at its ends: at least five
/// fields, of which the first holds a `-` (the date), the second a `:` (the
/// time) and the third a `.` (the attributes). Attributes that begin with `D`
/// mark a directory; of another entry the fourth field is the size. The path
/// runs from the sixth field on, or from the fifth where there are but five.
pub open spec fn sevenzip_entry(line: Seq<char>) -> Option<FileEntryView> {
    let t = trim(line);
    let f = fields(t);
    if sevenzip_noise(t) || f.len() < 5 || !has_char(f[0], '-') || !has_char(f[1], ':')
        || !has_char(f[2], '.') {
        None
    } else {
        let is_dir = begins_with(f[2], 'D');
        Some(
            FileEntryView {
                path: normalize(
                    if f.len() >= 6 {
                        join_from(f, 5)
                    } else {
                        join_from(f, 4)
                    },
                ),
                is_dir,
                size: if is_dir {
                    None
                } else {
                    parse_u64(f[3])
                },
            },
        )
    }
}

fn sevenzip_chars(line: &Vec<char>) -> (r: Option<FileEntry>)
    ensures
        parsed_view(r) == sevenzip_entry(line@),
{
    let t = trim_chars(line);
    if sevenzip_noise_check(&t) {
        return None;
    }
    let parts = split_fields(&t);
    if parts.len() < 5 {
        return None;
    }
    assert(views(parts@)[0] == parts@[0]@ && views(parts@)[1] == parts@[1]@ && views(parts@)[2]
        == parts@[2]@ && views(parts@)[3] == parts@[3]@);
    if !has_char_check(&parts[0], '-') || !has_char_check(&parts[1], ':') || !has_char_check(
        &parts[2],
        '.',
    ) {
        return None;
    }
    let is_dir = begins_with_check(&parts[2], 'D');
    let size = if is_dir {
        None
    } else {
        parse_u64_check(&parts[3])
    };
    let joined = if parts.len() >= 6 {
        join_fields(&parts, 5)
    } else {
        join_fields(&parts, 4)
    };
    let path = normalize_path(&joined);
    Some(FileEntry { path: string_of(&path), is_dir, size })
}

/// Reads a line of `7z l`.
pub fn parse_7z_line(line: &str) -> (r: Option<FileEntry>)
    ensures
        parsed_view(r) == sevenzip_entry(line@),
{
    let chars = chars_of(line);
    sevenzip_chars(&chars)
}

/// Every character of `s` is white space or a decimal digit, or `%` where
/// that is let through.
pub open spec fn only_counts(s: Seq<char>, percent: bool) -> bool {
    forall|i: int|
        0 <= i < s.len() ==> is_whitespace(#[trigger] s[i]) || is_digit(s[i]) || (percent && s[i]
            == '%')
}

fn only_counts_check(s: &Vec<char>, percent: bool) -> (r: bool)
    ensures
        r == only_counts(s@, percent),
{
    let mut i: usize = 0;
    while i < s.len()
        invariant
            0 <= i <= s.len(),
            forall|k: int|
                0 <= k < i ==> is_whitespace(#[trigger] s@[k]) || is_digit(s@[k]) || (percent
                    && s@[k] == '%'),
        decreases s.len() - i,
    {
        let c = s[i];
        if !(whitespace_check(c) || digit_check(c) || (percent && c == '%')) {
            return false;
        }
        i += 1;
    }
    true
}

/// The number of bytes that UTF-8 takes for the character.
pub open spec fn char_width(c: char) -> nat {
    let n = c as u32;
    if n < 0x80 {
        1
    } else if n < 0x800 {
        2
    } else if n < 0x1_0000 {
        3
    } else {
        4
    }
}

/// The length of `s` in bytes of UTF-8.
pub open spec fn utf8_len(s: Seq<char>) -> nat
    decreases s.len(),
{
    if s.len() == 0 {
        0
    } else {
        utf8_len(s.drop_last()) + char_width(s.last())
    }
}

proof fn lemma_utf8_len_grows(s: Seq<char>, k: int)
    requires
        0 <= k <= s.len(),
    ensures
        utf8_len(s.subrange(0, k)) <= utf8_len(s),
    decreases s.len() - k,
{
    if k == s.len() {
        assert(s.subrange(0, k) =~= s);
    } else {
        lemma_utf8_len_grows(s, k + 1);
        assert(s.subrange(0, k + 1).drop_last() =~= s.subrange(0, k));
    }
}

/// Whether `s` takes fewer than `bound` bytes.
fn shorter_than(s: &Vec<char>, bound: usize) -> (r: bool)
    requires
        bound <= 0x1000,
    ensures
        r == (utf8_len(s@) < bound),
{
    if bound == 0 {
        return false;
    }
    let mut n: usize = 0;
    let mut i: usize = 0;
    assert(s@.subrange(0, 0) =~= Seq::<char>::empty());
    while i < s.len()
        invariant
            0 <= i <= s.len(),
            bound <= 0x1000,
            n == utf8_len(s@.subrange(0, i as int)),
            n < bound,
        decreases s.len() - i,
    {
        let c: u32 = s[i] as u32;
        let w: usize = if c < 0x80 {
            1
        } else if c < 0x800 {
            2
        } else if c < 0x1_0000 {
            3
        } else {
            4
        };
        proof {
            assert(s@.subrange(0, i + 1).drop_last() =~= s@.subrange(0, i as int));
            lemma_utf8_len_grows(s@, i + 1);
        }
        if n + w >= bound {
            return false;
        }
        n = n + w;
        i += 1;
    }
    assert(s@.subrange(0, s.len() as int) =~= s@);
    true
}

/// A line of a RAR listing that holds no entry: a header, a separator row, a
/// message, or a row of totals.
pub open spec fn rar_noise(t: Seq<char>) -> bool {
    ||| t.len() == 0
    ||| starts_with(t, "RAR "@)
    ||| starts_with(t, "Trial version"@)
    ||| starts_with(t, "Evaluation copy"@)
    ||| starts_with(t, "Archive:"@)
    ||| starts_with(t, "Details:"@)
    ||| starts_with(t, "Attributes"@)
    ||| starts_with(t, "-----------"@)
    ||| starts_with(t, "Creating"@)
    ||| starts_with(t, "Adding"@)
    ||| starts_with(t, "Done"@)
    ||| only_counts(t, false)
    ||| (utf8_len(t) < 30 && only_counts(t, true))
}

fn rar_noise_check(t: &Vec<char>) -> (r: bool)
    ensures
        r == rar_noise(t@),
{
    t.len() == 0 || starts_with_check(t, "RAR ") || starts_with_check(t, "Trial version")
        || starts_with_check(t, "Evaluation copy") || starts_with_check(t, "Archive:")
        || starts_with_check(t, "Details:") || starts_with_check(t, "Attributes")
        || starts_with_check(t, "-----------") || starts_with_check(t, "Creating")
        || starts_with_check(t, "Adding") || starts_with_check(t, "Done") || only_counts_check(
        t,
        false,
    ) || (shorter_than(t, 30) && only_counts_check(t, true))
}

/// A line of `rar l` or `rar v`, without the white space at its ends: at
/// least five fields, of which the first, the attributes, begins with `-`,
/// `d` or `l`; `d` marks a directory; of another entry the second field is
/// the size. The path runs from the eighth field on where the fourth is a
/// ratio that ends in `%`, else from the fifth.
pub open spec fn rar_entry(line: Seq<char>) -> Option<FileEntryView> {
    let t = trim(line);
    let f = fields(t);
    if rar_noise(t) || f.len() < 5 || !(begins_with(f[0], '-') || begins_with(f[0], 'd')
        || begins_with(f[0], 'l')) {
        None
    } else {
        let is_dir = begins_with(f[0], 'd');
        Some(
            FileEntryView {
                path: normalize(
                    if f.len() >= 8 && ends_with(f[3], "%"@) {
                        join_from(f, 7)
                    } else {
                        join_from(f, 4)
                    },
                ),
                is_dir,
                size: if is_dir {
                    None
                } else {
                    parse_u64(f[1])
                },
            },
        )
    }
}

fn rar_chars(line: &Vec<char>) -> (r: Option<FileEntry>)
    ensures
        parsed_view(r) == rar_entry(line@),
{
    let t = trim_chars(line);
    if rar_noise_check(&t) {
        return None;
    }
    let parts = split_fields(&t);
    if parts.len() < 5 {
        return None;
    }
    assert(views(parts@)[0] == parts@[0]@ && views(parts@)[1] == parts@[1]@ && views(parts@)[3]
        == parts@[3]@);
    if !(begins_with_check(&parts[0], '-') || begins_with_check(&parts[0], 'd')
        || begins_with_check(&parts[0], 'l')) {
        return None;
    }
    let is_dir = begins_with_check(&parts[0], 'd');
    let size = if is_dir {
        None
    } else {
        parse_u64_check(&parts[1])
    };
    let joined = if parts.len() >= 8 && ends_with_check(&parts[3], "%") {
        join_fields(&parts, 7)
    } else {
        join_fields(&parts, 4)
    };
    let path = normalize_path(&joined);
    Some(FileEntry { path: string_of(&path), is_dir, size })
}

/// Reads a line of `rar l` or `rar v`.
pub fn parse_rar_line(line: &str) -> (r: Option<FileEntry>)
    ensures
        parsed_view(r) == rar_entry(line@),
{
    let chars = chars_of(line);
    rar_chars(&chars)
}

/// The formats of a listing.
#[derive(Clone, Copy, Debug, PartialEq, Eq, Structural)]
pub enum FileListFormat {
    Simple,
    Tar,
    Zip,
    SevenZip,
    Rar,
}

/// A line that gives a RAR listing away.
pub open spec fn rar_signature(line: Seq<char>) -> bool {
    ||| starts_with(line, "RAR "@)
    ||| starts_with(line, "Archive:"@)
    ||| starts_with(line, "Details: RAR"@)
    ||| contains(line, "Attributes"@)
    ||| ((starts_with(line, " -"@) || starts_with(line, " d"@)) && contains(line, "--"@)
        && utf8_len(line) > 40)
}

/// A line that gives a 7-Zip listing away.
pub open spec fn sevenzip_signature(line: Seq<char>) -> bool {
    ||| starts_with(line, "7-Zip"@)
    ||| starts_with(line, "Listing archive:"@)
    ||| starts_with(line, "Path ="@)
    ||| starts_with(line, "Type ="@)
    ||| contains(line, "D...."@)
    ||| contains(line, "....A"@)
}

/// A line that gives a zip listing away.
pub open spec fn zip_signature(line: Seq<char>) -> bool {
    ||| starts_with(line, "Archive:"@)
    ||| starts_with(line, "---------"@)
    ||| (has_char(line, ' ') && has_char(line, ':') && line.len() >= 40 && fields(line).len()
        >= 4)
}

/// A line that gives a verbose tar listing away.
pub open spec fn tar_signature(line: Seq<char>) -> bool {
    fields(line).len() >= 6 && (starts_with(line, "drwx"@) || starts_with(line, "-rw"@)
        || starts_with(line, "lrwx"@))
}

/// Whether a line has the signature of the format. Any line passes for a
/// plain list of paths.
pub open spec fn has_signature(format: FileListFormat, line: Seq<char>) -> bool {
    match format {
        FileListFormat::Rar => rar_signature(line),
        FileListFormat::SevenZip => sevenzip_signature(line),
        FileListFormat::Zip => zip_signature(line),
        FileListFormat::Tar => tar_signature(line),
        FileListFormat::Simple => true,
    }
}

/// Whether one of the first `n` lines has the signature of the format.
pub open spec fn found_among(lines: Seq<Seq<char>>, n: int, format: FileListFormat) -> bool {
    exists|i: int| 0 <= i < lines.len() && i < n && has_signature(format, #[trigger] lines[i])
}

/// The format of a listing; none for no lines at all. The formats are tried
/// in the order RAR, 7-Zip, zip, each on the first ten lines, then tar on the
/// first five; the first of which a line has the signature is taken, and a
/// listing without any is a plain list of paths.
pub open spec fn detected_format(lines: Seq<Seq<char>>) -> Option<FileListFormat> {
    if lines.len() == 0 {
        None
    } else if found_among(lines, 10, FileListFormat::Rar) {
        Some(FileListFormat::Rar)
    } else if found_among(lines, 10, FileListFormat::SevenZip) {
        Some(FileListFormat::SevenZip)
    } else if found_among(lines, 10, FileListFormat::Zip) {
        Some(FileListFormat::Zip)
    } else if found_among(lines, 5, FileListFormat::Tar) {
        Some(FileListFormat::Tar)
    } else {
        Some(FileListFormat::Simple)
    }
}

fn signature_check(format: FileListFormat, line: &Vec<char>) -> (r: bool)
    ensures
        r == has_signature(format, line@),
{
    match format {
        FileListFormat::Rar => {
            starts_with_check(line, "RAR ") || starts_with_check(line, "Archive:")
                || starts_with_check(line, "Details: RAR") || contains_check(line, "Attributes")
                || ((starts_with_check(line, " -") || starts_with_check(line, " d"))
                && contains_check(line, "--") && !shorter_than(line, 41))
        },
        FileListFormat::SevenZip => {
            starts_with_check(line, "7-Zip") || starts_with_check(line, "Listing archive:")
                || starts_with_check(line, "Path =") || starts_with_check(line, "Type =")
                || contains_check(line, "D....") || contains_check(line, "....A")
        },
        FileListFormat::Zip => {
            starts_with_check(line, "Archive:") || starts_with_check(line, "---------") || (
            has_char_check(line, ' ') && has_char_check(line, ':') && line.len() >= 40
                && split_fields(line).len() >= 4)
        },
        FileListFormat::Tar => {
            let parts = split_fields(line);
            parts.len() >= 6 && (starts_with_check(line, "drwx") || starts_with_check(line, "-rw")
                || starts_with_check(line, "lrwx"))
        },
        FileListFormat::Simple => true,
    }
}

/// The character sequences of the lines.
pub open spec fn line_views(lines: Seq<String>) -> Seq<Seq<char>> {
    Seq::new(lines.len(), |i: int| lines[i]@)
}

fn found_among_first(lines: &Vec<String>, n: usize, format: FileListFormat) -> (r: bool)
    ensures
        r == found_among(line_views(lines@), n as int, format),
{
    let mut i: usize = 0;
    while i < lines.len() && i < n
        invariant
            0 <= i <= lines.len(),
            i <= n,
            forall|k: int| 0 <= k < i ==> !has_signature(format, #[trigger] line_views(lines@)[k]),
        decreases lines.len() - i,
    {
        let line = chars_of(lines[i].as_str());
        assert(line_views(lines@)[i as int] == line@);
        if signature_check(format, &line) {
            return true;
        }
        i += 1;
    }
    false
}

/// Finds out in which format a listing is written.
pub fn detect_format(lines: &Vec<String>) -> (r: Option<FileListFormat>)
    ensures
        r == detected_format(line_views(lines@)),
{
    if lines.len() == 0 {
        None
    } else if found_among_first(lines, 10, FileListFormat::Rar) {
        Some(FileListFormat::Rar)
    } else if found_among_first(lines, 10, FileListFormat::SevenZip) {
        Some(FileListFormat::SevenZip)
    } else if found_among_first(lines, 10, FileListFormat::Zip) {
        Some(FileListFormat::Zip)
    } else if found_among_first(lines, 5, FileListFormat::Tar) {
        Some(FileListFormat::Tar)
    } else {
        Some(FileListFormat::Simple)
    }
}

/// What one line of a listing in the format gives: an entry or none. In a
/// plain list of paths the whole line is the path.
pub open spec fn line_entry(format: FileListFormat, line: Seq<char>) -> Option<FileEntryView> {
    match format {
        FileListFormat::Simple => tar_simple_entry(line),
        FileListFormat::Tar => tar_entry(line),
        FileListFormat::Zip => zip_entry(line),
        FileListFormat::SevenZip => sevenzip_entry(line),
        FileListFormat::Rar => rar_entry(line),
    }
}

/// What the lines of a listing in the format give, line by line.
pub open spec fn line_entries(format: FileListFormat, lines: Seq<Seq<char>>) -> Seq<
    Option<FileEntryView>,
> {
    Seq::new(lines.len(), |i: int| line_entry(format, lines[i]))
}

/// The entries of the virtual tree for a listing in the format.
pub open spec fn listing_of(format: FileListFormat, lines: Seq<Seq<char>>) -> Seq<FileEntryView> {
    listing(line_entries(format, lines))
}

fn parse_line(format: FileListFormat, line: &str) -> (r: Option<FileEntry>)
    ensures
        parsed_view(r) == line_entry(format, line@),
{
    let chars = chars_of(line);
    match format {
        FileListFormat::Simple => tar_simple_chars(&chars),
        FileListFormat::Tar => tar_chars(&chars),
        FileListFormat::Zip => zip_chars(&chars),
        FileListFormat::SevenZip => sevenzip_chars(&chars),
        FileListFormat::Rar => rar_chars(&chars),
    }
}

/// Parses the lines of a listing in the given format.
pub fn parse_listing(format: FileListFormat, lines: &Vec<String>) -> (entries: Vec<FileEntry>)
    ensures
        file_views(entries@) == listing_of(format, line_views(lines@)),
        is_round_trip(line_entries(format, line_views(lines@)), file_views(entries@)),
{
    let ghost parsed = line_entries(format, line_views(lines@));
    proof {
        lemma_listing_round_trip(parsed);
    }
    let mut entries: Vec<FileEntry> = Vec::new();
    let mut i: usize = 0;
    assert(file_views(entries@) =~= listing(parsed.subrange(0, 0)));
    while i < lines.len()
        invariant
            0 <= i <= lines.len(),
            parsed == line_entries(format, line_views(lines@)),
            file_views(entries@) == listing(parsed.subrange(0, i as int)),
        decreases lines.len() - i,
    {
        let found = parse_line(format, lines[i].as_str());
        proof {
            let now = parsed.subrange(0, i + 1);
            assert(now.drop_last() =~= parsed.subrange(0, i as int));
            assert(now.last() == parsed_view(found));
        }
        match found {
            Some(entry) => {
                if !entry.path.as_str().is_empty() {
                    add_entry(&mut entries, entry);
                }
            },
            None => {},
        }
        i += 1;
    }
    assert(parsed.subrange(0, lines.len() as int) =~= parsed);
    entries
}

/// Builds the entries of the virtual tree from a plain list of paths.
pub fn parse_simple_paths(lines: Vec<String>) -> (entries: Vec<FileEntry>)
    ensures
        file_views(entries@) == listing_of(FileListFormat::Simple, line_views(lines@)),
        is_round_trip(
            line_entries(FileListFormat::Simple, line_views(lines@)),
            file_views(entries@),
        ),
{
    parse_listing(FileListFormat::Simple, &lines)
}

/// Builds the entries of the virtual tree from a tar listing.
pub fn parse_tar_listing(lines: Vec<String>) -> (entries: Vec<FileEntry>)
    ensures
        file_views(entries@) == listing_of(FileListFormat::Tar, line_views(lines@)),
        is_round_trip(
            line_entries(FileListFormat::Tar, line_views(lines@)),
            file_views(entries@),
        ),
{
    parse_listing(FileListFormat::Tar, &lines)
}

/// Builds the entries of the virtual tree from a zip listing.
pub fn parse_zip_listing(lines: Vec<String>) -> (entries: Vec<FileEntry>)
    ensures
        file_views(entries@) == listing_of(FileListFormat::Zip, line_views(lines@)),
        is_round_trip(
            line_entries(FileListFormat::Zip, line_views(lines@)),
            file_views(entries@),
        ),
{
    parse_listing(FileListFormat::Zip, &lines)
}

/// Builds the entries of the virtual tree from a 7-Zip listing.
pub fn parse_7z_listing(lines: Vec<String>) -> (entries: Vec<FileEntry>)
    ensures
        file_views(entries@) == listing_of(FileListFormat::SevenZip, line_views(lines@)),
        is_round_trip(
            line_entries(FileListFormat::SevenZip, line_views(lines@)),
            file_views(entries@),
        ),
{
    parse_listing(FileListFormat::SevenZip, &lines)
}

/// Builds the entries of the virtual tree from a RAR listing.
pub fn parse_rar_listing(lines: Vec<String>) -> (entries: Vec<FileEntry>)
    ensures
        file_views(entries@) == listing_of(FileListFormat::Rar, line_views(lines@)),
        is_round_trip(
            line_entries(FileListFormat::Rar, line_views(lines@)),
            file_views(entries@),
        ),
{
    parse_listing(FileListFormat::Rar, &lines)
}

/// The format in which a listing is read: the detected one, or a plain list
/// of paths where there is no line.
pub open spec fn reading_format(lines: Seq<Seq<char>>) -> FileListFormat {
    match detected_format(lines) {
        Some(format) => format,
        None => FileListFormat::Simple,
    }
}

/// Builds the entries of the virtual tree from a listing, in the format
/// that its first lines give away.
pub fn parse_file_listing(lines: Vec<String>) -> (entries: Vec<FileEntry>)
    ensures
        file_views(entries@) == listing_of(
            reading_format(line_views(lines@)),
            line_views(lines@),
        ),
        is_round_trip(
            line_entries(reading_format(line_views(lines@)), line_views(lines@)),
            file_views(entries@),
        ),
{
    match detect_format(&lines) {
        Some(format) => parse_listing(format, &lines),
        None => parse_listing(FileListFormat::Simple, &lines),
    }
}

/// The virtual tree of the entries, with the root named `.`.
pub fn build_virtual_tree(entries: Vec<FileEntry>, options: &TreeOptions) -> (tree: VirtualTree)
    ensures
        tree.entries == entries,
        tree.root_name@ == "."@,
{
    VirtualTree { entries, root_name: string_of(&chars_of(".")) }
}

} // verus!
