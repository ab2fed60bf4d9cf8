//! The traversal engine for a virtual tree: the whole tree lies in memory, so
//! the walk is one recursion over the paths.

use vstd::prelude::*;
use crate::rust_tree::entry::{Entry, EntryKind, EntryView, entry_views};
use crate::rust_tree::filter::{is_hidden, name_skipped, pattern_neutral, skip_name, skip_rule};
use crate::rust_tree::fromfile::{FileEntry, FileEntryView, VirtualTree, file_views};
use crate::rust_tree::options::TreeOptions;
use crate::rust_tree::render::{
    closing_lines, entry_line, format_closing, format_entry_line, string_views,
};
use crate::rust_tree::text::{chars_of, same_chars, slice_of, string_of};
use crate::rust_tree::traversal::{
    arrange, arranged, copy_flags, level_allows, level_allows_check,
};
use crate::rust_tree::words::{find_last, last_index_of, lemma_last_index};

verus! {

/// The last component of a path: what follows its last slash.
pub open spec fn file_name(path: Seq<char>) -> Seq<char> {
    path.subrange(last_index_of(path, '/') + 1, path.len() as int)
}

/// The path of the directory that holds `path`: what stands before its last
/// slash; the empty path, which is the root, where it has none.
pub open spec fn parent_path(path: Seq<char>) -> Seq<char> {
    if last_index_of(path, '/') < 0 {
        Seq::empty()
    } else {
        path.subrange(0, last_index_of(path, '/'))
    }
}

/// A virtual entry as the filter, the sort policy and the renderer read it:
/// named by the last component of its path, without time or permissions.
pub open spec fn as_entry(e: FileEntryView) -> EntryView {
    EntryView {
        name: file_name(e.path),
        path: e.path,
        kind: if e.is_dir {
            EntryKind::Directory
        } else {
            EntryKind::File
        },
        target_is_dir: e.is_dir,
        size: e.size,
        modified: None,
        mode: None,
        executable: false,
    }
}

/// Whether the entry lies directly in the directory `parent`.
pub open spec fn is_child(e: FileEntryView, parent: Seq<char>) -> bool {
    e.path.len() > 0 && parent_path(e.path) == parent
}

/// The children of `parent` among the first `n` entries, in their order.
pub open spec fn children_among(entries: Seq<FileEntryView>, parent: Seq<char>, n: int) -> Seq<
    EntryView,
>
    decreases n,
{
    if n <= 0 || n > entries.len() {
        Seq::empty()
    } else {
        let before = children_among(entries, parent, n - 1);
        if is_child(entries[n - 1], parent) {
            before.push(as_entry(entries[n - 1]))
        } else {
            before
        }
    }
}

/// The children of the directory `parent`, in the order of the entries.
pub open spec fn children_of(entries: Seq<FileEntryView>, parent: Seq<char>) -> Seq<EntryView> {
    children_among(entries, parent, entries.len() as int)
}

/// The length of the longest path among the entries.
pub open spec fn longest(entries: Seq<FileEntryView>) -> nat
    decreases entries.len(),
{
    if entries.len() == 0 {
        0
    } else if entries.last().path.len() > longest(entries.drop_last()) {
        entries.last().path.len()
    } else {
        longest(entries.drop_last())
    }
}

proof fn lemma_longest(entries: Seq<FileEntryView>, i: int)
    requires
        0 <= i < entries.len(),
    ensures
        entries[i].path.len() <= longest(entries),
    decreases entries.len(),
{
    if i < entries.len() - 1 {
        lemma_longest(entries.drop_last(), i);
    }
}

/// A child has a longer path than its parent, and none is longer than the
/// longest.
proof fn lemma_children(entries: Seq<FileEntryView>, parent: Seq<char>, n: int, kid: EntryView)
    requires
        children_among(entries, parent, n).contains(kid),
    ensures
        parent.len() < kid.path.len() <= longest(entries),
    decreases n,
{
    if n > 0 && n <= entries.len() {
        let before = children_among(entries, parent, n - 1);
        let e = entries[n - 1];
        if is_child(e, parent) && kid == as_entry(e) {
            lemma_longest(entries, n - 1);
            lemma_last_index(e.path, '/', e.path.len() as int);
        } else {
            let i = choose|i: int|
                0 <= i < children_among(entries, parent, n).len() && children_among(
                    entries,
                    parent,
                    n,
                )[i] == kid;
            assert(before[i] == kid);
            lemma_children(entries, parent, n - 1, kid);
        }
    }
}

/// The line of one entry, with the number of the entry's ancestors and
/// whether the entry is a directory.
pub struct TreeLine {
    pub text: String,
    pub depth: usize,
    pub is_dir: bool,
}

/// A line of the tree as the contracts speak of it.
pub struct TreeLineView {
    pub text: Seq<char>,
    pub depth: nat,
    pub is_dir: bool,
}

impl View for TreeLine {
    type V = TreeLineView;

    open spec fn view(&self) -> TreeLineView {
        TreeLineView { text: self.text@, depth: self.depth as nat, is_dir: self.is_dir }
    }
}

/// The views of the lines, in their order.
pub open spec fn tree_line_views(lines: Seq<TreeLine>) -> Seq<TreeLineView> {
    Seq::new(lines.len(), |i: int| lines[i]@)
}

/// The entries that are shown of the directory `parent`: its children that
/// the filter keeps, in the order of the sort policy.
pub open spec fn shown_children(
    entries: Seq<FileEntryView>,
    options: TreeOptions,
    parent: Seq<char>,
) -> Seq<EntryView> {
    arranged(children_of(entries, parent), options)
}

/// An entry that is shown of a directory is one of its children.
pub proof fn lemma_shown_child(
    entries: Seq<FileEntryView>,
    options: TreeOptions,
    parent: Seq<char>,
    i: int,
)
    requires
        0 <= i < shown_children(entries, options, parent).len(),
    ensures
        parent.len() < shown_children(entries, options, parent)[i].path.len() <= longest(entries),
        children_of(entries, parent).contains(shown_children(entries, options, parent)[i]),
{
    broadcast use vstd::seq_lib::group_to_multiset_ensures;

    let all = children_of(entries, parent);
    let kept = all.filter(crate::rust_tree::traversal::passes_filter(options));
    let shown = shown_children(entries, options, parent);
    crate::rust_tree::sorting::lemma_sort_policy(kept, options);
    assert(shown.contains(shown[i]));
    assert(shown.to_multiset().count(shown[i]) > 0);
    assert(kept.contains(shown[i]));
    all.lemma_filter_contains_rev(crate::rust_tree::traversal::passes_filter(options), shown[i]);
    lemma_children(entries, parent, entries.len() as int, shown[i]);
}

/// The lines of the entries of `parent` that are shown, from the `from`-th
/// on, each followed by the lines of what lies below it. A directory is
/// entered where the depth limit allows it.
pub open spec fn subtree_lines(
    entries: Seq<FileEntryView>,
    options: TreeOptions,
    parent: Seq<char>,
    indent: Seq<bool>,
    from: nat,
) -> Seq<TreeLineView>
    decreases longest(entries) - parent.len(), shown_children(entries, options, parent).len() - from,
{
    let kids = shown_children(entries, options, parent);
    if from >= kids.len() {
        Seq::empty()
    } else {
        let kid = kids[from as int];
        let is_last = from + 1 == kids.len();
        let own = TreeLineView {
            text: entry_line(kid, options, indent, is_last),
            depth: indent.len(),
            is_dir: kid.is_dir(),
        };
        let below = if kid.is_dir() && level_allows(options, indent.len()) {
            proof {
                lemma_shown_child(entries, options, parent, from as int);
            }
            subtree_lines(entries, options, kid.path, indent.push(is_last), 0)
        } else {
            Seq::empty()
        };
        seq![own] + below + subtree_lines(entries, options, parent, indent, from + 1)
    }
}

/// The patterns' answers are known for the name of every entry.
pub open spec fn tree_neutral(entries: Seq<FileEntryView>, options: TreeOptions) -> bool {
    forall|i: int|
        0 <= i < entries.len() ==> pattern_neutral(options, file_name((#[trigger] entries[i]).path))
}

fn name_start(path: &Vec<char>) -> (k: usize)
    ensures
        k == last_index_of(path@, '/') + 1,
        k <= path.len(),
{
    match find_last(path, '/') {
        Some(i) => i + 1,
        None => 0,
    }
}

/// The entry that stands for a virtual entry.
pub fn to_entry(e: &FileEntry) -> (r: Entry)
    ensures
        r@ == as_entry(e@),
{
    let path = chars_of(e.path.as_str());
    let start = name_start(&path);
    let name = slice_of(&path, start, path.len());
    Entry {
        name: string_of(&name),
        path: e.path.clone(),
        kind: if e.is_dir {
            EntryKind::Directory
        } else {
            EntryKind::File
        },
        target_is_dir: e.is_dir,
        size: e.size,
        modified: None,
        mode: None,
        executable: false,
    }
}

fn is_child_check(e: &FileEntry, parent: &Vec<char>) -> (r: bool)
    ensures
        r == is_child(e@, parent@),
{
    let path = chars_of(e.path.as_str());
    if path.len() == 0 {
        return false;
    }
    let own_parent = match find_last(&path, '/') {
        Some(i) => slice_of(&path, 0, i),
        None => Vec::new(),
    };
    same_chars(&own_parent, parent)
}

/// The children of a directory of the virtual tree.
pub fn children(entries: &Vec<FileEntry>, parent: &Vec<char>) -> (kids: Vec<Entry>)
    ensures
        entry_views(kids@) == children_of(file_views(entries@), parent@),
{
    let ghost all = file_views(entries@);
    let mut kids: Vec<Entry> = Vec::new();
    let mut i: usize = 0;
    assert(entry_views(kids@) =~= children_among(all, parent@, 0));
    while i < entries.len()
        invariant
            0 <= i <= entries.len(),
            all == file_views(entries@),
            entry_views(kids@) == children_among(all, parent@, i as int),
        decreases entries.len() - i,
    {
        let ghost before = entry_views(kids@);
        assert(all[i as int] == entries@[i as int]@);
        if is_child_check(&entries[i], parent) {
            let kid = to_entry(&entries[i]);
            kids.push(kid);
            assert(entry_views(kids@) =~= before.push(as_entry(all[i as int])));
        }
        i += 1;
    }
    kids
}

/// Whether an entry with `depth` ancestors may be shown under the depth
/// limit: the entries of the root always, deeper ones while their depth
/// stays below the limit.
pub open spec fn depth_allowed(options: TreeOptions, depth: nat) -> bool {
    match options.level {
        Some(limit) => depth == 0 || depth < limit,
        None => true,
    }
}

/// `after` begins with the lines of `before`; the lines that follow them
/// belong to entries with `least` ancestors or more, and, if entries with
/// `least` ancestors may be shown under the depth limit, to entries that
/// may be shown under it.
pub open spec fn extended_below(
    before: Seq<TreeLineView>,
    after: Seq<TreeLineView>,
    options: TreeOptions,
    least: nat,
) -> bool {
    &&& before.len() <= after.len()
    &&& after.subrange(0, before.len() as int) == before
    &&& forall|i: int|
        before.len() <= i < after.len() ==> (#[trigger] after[i]).depth >= least && (
        depth_allowed(options, least) ==> depth_allowed(options, after[i].depth))
}

proof fn lemma_children_neutral(
    entries: Seq<FileEntryView>,
    options: TreeOptions,
    parent: Seq<char>,
    n: int,
)
    requires
        tree_neutral(entries, options),
    ensures
        crate::rust_tree::traversal::all_neutral(children_among(entries, parent, n), options),
    decreases n,
{
    if n > 0 && n <= entries.len() {
        lemma_children_neutral(entries, options, parent, n - 1);
        let before = children_among(entries, parent, n - 1);
        let now = children_among(entries, parent, n);
        assert forall|i: int| 0 <= i < now.len() implies pattern_neutral(
            options,
            (#[trigger] now[i]).name,
        ) by {
            if i < before.len() {
                assert(now[i] == before[i]);
            } else {
                assert(now[i] == as_entry(entries[n - 1]));
            }
        }
    }
}

/// Whether the filter leaves a virtual entry out. It goes by the last
/// component of the path.
pub fn should_skip_virtual_entry(entry: &FileEntry, options: &TreeOptions) -> (skip: bool)
    ensures
        pattern_neutral(*options, file_name(entry@.path)) ==> skip == name_skipped(
            *options,
            file_name(entry@.path),
            entry.is_dir,
        ),
        exists|excluded: bool, included: bool|
            skip == skip_rule(
                *options,
                is_hidden(file_name(entry@.path)),
                entry.is_dir,
                excluded,
                included,
            ),
{
    let path = chars_of(entry.path.as_str());
    let start = name_start(&path);
    let name = string_of(&slice_of(&path, start, path.len()));
    let skip = skip_name(options, name.as_str(), entry.is_dir);
    proof {
        let (excluded, included) = choose|excluded: bool, included: bool|
            skip == skip_rule(*options, is_hidden(name@), entry.is_dir, excluded, included);
        assert(skip == skip_rule(
            *options,
            is_hidden(file_name(entry@.path)),
            entry.is_dir,
            excluded,
            included,
        ));
    }
    skip
}

/// The line of one virtual entry.
pub fn display_virtual_entry(
    entry: &FileEntry,
    options: &TreeOptions,
    indent_state: &Vec<bool>,
    is_last: bool,
) -> (line: String)
    ensures
        line@ == entry_line(as_entry(entry@), *options, indent_state@, is_last),
{
    let e = to_entry(entry);
    format_entry_line(&e, options, indent_state, is_last)
}

/// Appends to `out` the lines of the directory `parent` and of all that lies
/// below it: for each child that the filter keeps, in the order of the sort
/// policy, its line and then, if it is a directory that the depth limit lets
/// be entered, the lines of its own entries.
pub fn display_virtual_entries(
    entries: &Vec<FileEntry>,
    options: &TreeOptions,
    parent: &Vec<char>,
    indent_state: &Vec<bool>,
    out: &mut Vec<TreeLine>,
)
    ensures
        extended_below(
            tree_line_views(old(out)@),
            tree_line_views(final(out)@),
            *options,
            indent_state@.len(),
        ),
        tree_neutral(file_views(entries@), *options) ==> tree_line_views(final(out)@)
            == tree_line_views(old(out)@) + subtree_lines(
            file_views(entries@),
            *options,
            parent@,
            indent_state@,
            0,
        ),
    decreases longest(file_views(entries@)) - parent@.len(),
{
    let ghost all = file_views(entries@);
    let ghost start = tree_line_views(out@);
    let ghost neutral = tree_neutral(all, *options);
    let raw = children(entries, parent);
    let kids = arrange(&raw, options);
    proof {
        if neutral {
            lemma_children_neutral(all, *options, parent@, all.len() as int);
        }
        assert(start.subrange(0, start.len() as int) =~= start);
    }
    let mut i: usize = 0;
    while i < kids.len()
        invariant
            0 <= i <= kids.len(),
            all == file_views(entries@),
            neutral == tree_neutral(all, *options),
            forall|k: int|
                0 <= k < kids.len() ==> children_of(all, parent@).contains(
                    #[trigger] entry_views(kids@)[k],
                ),
            neutral ==> entry_views(kids@) == shown_children(all, *options, parent@),
            extended_below(start, tree_line_views(out@), *options, indent_state@.len()),
            neutral ==> start + subtree_lines(all, *options, parent@, indent_state@, 0)
                == tree_line_views(out@) + subtree_lines(
                all,
                *options,
                parent@,
                indent_state@,
                i as nat,
            ),
        decreases kids.len() - i,
    {
        let is_last = i + 1 == kids.len();
        let text = format_entry_line(&kids[i], options, indent_state, is_last);
        let is_dir = kids[i].is_directory();
        let ghost before = tree_line_views(out@);
        let line = TreeLine { text, depth: indent_state.len(), is_dir };
        let ghost own = line@;
        out.push(line);
        let ghost with_own = tree_line_views(out@);
        proof {
            assert(with_own =~= before.push(own));
            assert(entry_views(kids@)[i as int] == kids@[i as int]@);
            assert(with_own.subrange(0, start.len() as int) =~= before.subrange(
                0,
                start.len() as int,
            ));
        }
        if is_dir && level_allows_check(options, indent_state.len()) {
            let mut next_indent = copy_flags(indent_state);
            next_indent.push(is_last);
            let path = chars_of(kids[i].path.as_str());
            proof {
                lemma_children(all, parent@, all.len() as int, kids@[i as int]@);
            }
            display_virtual_entries(entries, options, &path, &next_indent, out);
            proof {
                let after = tree_line_views(out@);
                assert(after.subrange(0, start.len() as int) =~= with_own.subrange(
                    0,
                    start.len() as int,
                )) by {
                    assert(after.subrange(0, with_own.len() as int) == with_own);
                    assert forall|k: int| 0 <= k < start.len() implies after[k] == with_own[k] by {
                        assert(after.subrange(0, with_own.len() as int)[k] == after[k]);
                    }
                }
                assert forall|k: int| start.len() <= k < after.len() implies (
                #[trigger] after[k]).depth >= indent_state@.len() && (depth_allowed(
                    *options,
                    indent_state@.len(),
                ) ==> depth_allowed(*options, after[k].depth)) by {
                    if k < with_own.len() {
                        assert(after.subrange(0, with_own.len() as int)[k] == after[k]);
                    }
                }
            }
        }
        proof {
            if neutral {
                let kid = kids@[i as int]@;
                let below = if kid.is_dir() && level_allows(*options, indent_state@.len()) {
                    subtree_lines(all, *options, kid.path, indent_state@.push(is_last), 0)
                } else {
                    Seq::empty()
                };
                assert(subtree_lines(all, *options, parent@, indent_state@, i as nat) == seq![own]
                    + below + subtree_lines(all, *options, parent@, indent_state@, (i + 1) as nat));
                assert(tree_line_views(out@) =~= before + seq![own] + below);
                assert(tree_line_views(out@) + subtree_lines(
                    all,
                    *options,
                    parent@,
                    indent_state@,
                    (i + 1) as nat,
                ) =~= before + subtree_lines(all, *options, parent@, indent_state@, i as nat));
            }
        }
        i += 1;
    }
    proof {
        if neutral {
            assert(subtree_lines(all, *options, parent@, indent_state@, kids.len() as nat)
                =~= Seq::<TreeLineView>::empty());
            assert(tree_line_views(out@) + Seq::<TreeLineView>::empty() =~= tree_line_views(out@));
        }
    }
}

/// How many of the lines belong to directories.
pub open spec fn directories_among(lines: Seq<TreeLineView>) -> nat
    decreases lines.len(),
{
    if lines.len() == 0 {
        0
    } else {
        directories_among(lines.drop_last()) + (if lines.last().is_dir {
            1nat
        } else {
            0nat
        })
    }
}

/// How many of the lines belong to other entries than directories.
pub open spec fn files_among(lines: Seq<TreeLineView>) -> nat {
    (lines.len() - directories_among(lines)) as nat
}

/// Counts the directories and the other entries among the lines. The two
/// counts add up to the number of lines.
pub fn count_lines(lines: &Vec<TreeLine>) -> (counts: (u64, u64))
    ensures
        counts.0 == directories_among(tree_line_views(lines@)),
        counts.1 == files_among(tree_line_views(lines@)),
        counts.0 + counts.1 == lines.len(),
{
    let ghost all = tree_line_views(lines@);
    let mut directories: usize = 0;
    let mut i: usize = 0;
    assert(all.subrange(0, 0) =~= Seq::<TreeLineView>::empty());
    while i < lines.len()
        invariant
            0 <= i <= lines.len(),
            all == tree_line_views(lines@),
            directories == directories_among(all.subrange(0, i as int)),
            directories <= i,
        decreases lines.len() - i,
    {
        proof {
            assert(all.subrange(0, i + 1).drop_last() =~= all.subrange(0, i as int));
            assert(all.subrange(0, i + 1).last() == lines@[i as int]@);
        }
        if lines[i].is_dir {
            directories += 1;
        }
        i += 1;
    }
    assert(all.subrange(0, lines.len() as int) =~= all);
    (directories as u64, (lines.len() - directories) as u64)
}

/// The texts of the lines.
pub open spec fn texts(lines: Seq<TreeLineView>) -> Seq<Seq<char>> {
    Seq::new(lines.len(), |i: int| lines[i].text)
}

/// The whole output for a tree: the name of the root, the lines of the
/// entries, and the closing lines with the counts of these entries.
pub open spec fn tree_output(root_name: Seq<char>, lines: Seq<TreeLineView>, options: TreeOptions) -> Seq<
    Seq<char>,
> {
    seq![root_name] + texts(lines) + closing_lines(
        options,
        directories_among(lines),
        files_among(lines),
    )
}

/// The lines of all entries of a virtual tree that are shown.
pub open spec fn virtual_lines(entries: Seq<FileEntryView>, options: TreeOptions) -> Seq<
    TreeLineView,
> {
    subtree_lines(entries, options, Seq::empty(), Seq::empty(), 0)
}

/// The output for a virtual tree, line by line: the name of the root, the
/// lines of the entries, and the summary unless it is switched off.
pub fn display_virtual_tree(tree: &VirtualTree, options: &TreeOptions) -> (out: Vec<String>)
    ensures
        tree_neutral(file_views(tree.entries@), *options) ==> string_views(out@) == tree_output(
            tree.root_name@,
            virtual_lines(file_views(tree.entries@), *options),
            *options,
        ),
        exists|lines: Seq<TreeLineView>|
            #![trigger tree_output(tree.root_name@, lines, *options)]
            {
                &&& extended_below(Seq::empty(), lines, *options, 0)
                &&& string_views(out@) == tree_output(tree.root_name@, lines, *options)
            },
{
    let mut lines: Vec<TreeLine> = Vec::new();
    let root: Vec<char> = Vec::new();
    let indent: Vec<bool> = Vec::new();
    assert(tree_line_views(lines@) =~= Seq::<TreeLineView>::empty());
    display_virtual_entries(&tree.entries, options, &root, &indent, &mut lines);
    let ghost shown = tree_line_views(lines@);
    assert(Seq::<TreeLineView>::empty() + virtual_lines(file_views(tree.entries@), *options)
        =~= virtual_lines(file_views(tree.entries@), *options));
    assert(root@ =~= Seq::<char>::empty() && indent@ =~= Seq::<bool>::empty());
    let (directories, files) = count_lines(&lines);
    let mut out: Vec<String> = Vec::new();
    out.push(tree.root_name.clone());
    let mut i: usize = 0;
    while i < lines.len()
        invariant
            0 <= i <= lines.len(),
            shown == tree_line_views(lines@),
            string_views(out@) == seq![tree.root_name@] + texts(shown).subrange(0, i as int),
        decreases lines.len() - i,
    {
        let ghost before = string_views(out@);
        out.push(lines[i].text.clone());
        assert(string_views(out@) =~= before.push(lines@[i as int]@.text));
        i += 1;
        assert(string_views(out@) =~= seq![tree.root_name@] + texts(shown).subrange(0, i as int));
    }
    assert(texts(shown).subrange(0, lines.len() as int) =~= texts(shown));
    let closing = format_closing(options, directories, files);
    let mut k: usize = 0;
    let ghost body = string_views(out@);
    while k < closing.len()
        invariant
            0 <= k <= closing.len(),
            string_views(out@) == body + string_views(closing@).subrange(0, k as int),
        decreases closing.len() - k,
    {
        let ghost before = string_views(out@);
        out.push(closing[k].clone());
        assert(string_views(out@) =~= before.push(closing@[k as int]@));
        k += 1;
        assert(string_views(out@) =~= body + string_views(closing@).subrange(0, k as int));
    }
    assert(string_views(closing@).subrange(0, closing.len() as int) =~= string_views(closing@));
    assert(string_views(out@) == tree_output(tree.root_name@, shown, *options));
    out
}

} // verus!
