//! The entries of a virtual tree: one for each listed path, and a directory
//! for each proper prefix of a listed path that ends before a slash.

use vstd::prelude::*;
use crate::rust_tree::fromfile::{FileEntry, FileEntryView, file_views};
use crate::rust_tree::text::{chars_of, same_chars, slice_of, string_of};

verus! {

/// The first place at or after `i` where `entries` holds `path`, or the
/// length if there is none.
pub open spec fn position_from(entries: Seq<FileEntryView>, path: Seq<char>, i: int) -> int
    decreases entries.len() - i,
{
    if i < 0 || i >= entries.len() {
        entries.len() as int
    } else if entries[i].path == path {
        i
    } else {
        position_from(entries, path, i + 1)
    }
}

/// The first place where `entries` holds `path`, or the length.
pub open spec fn position(entries: Seq<FileEntryView>, path: Seq<char>) -> int {
    position_from(entries, path, 0)
}

/// Whether `entries` holds an entry for `path`.
pub open spec fn has_path(entries: Seq<FileEntryView>, path: Seq<char>) -> bool {
    exists|i: int| 0 <= i < entries.len() && (#[trigger] entries[i]).path == path
}

/// No path has two entries.
pub open spec fn distinct_paths(entries: Seq<FileEntryView>) -> bool {
    forall|i: int, j: int|
        0 <= i < j < entries.len() ==> (#[trigger] entries[i]).path != (#[trigger] entries[j]).path
}

/// `entries` with `entry` in the place of the entry for its path, or at the
/// end if the path is new.
pub open spec fn upsert(entries: Seq<FileEntryView>, entry: FileEntryView) -> Seq<FileEntryView> {
    let k = position(entries, entry.path);
    if k < entries.len() {
        entries.update(k, entry)
    } else {
        entries.push(entry)
    }
}

/// The directory that is made up for an ancestor.
pub open spec fn ancestor_entry(path: Seq<char>) -> FileEntryView {
    FileEntryView { path, is_dir: true, size: None }
}

/// Whether `path[..k]` is an ancestor of `path`: it is not empty and a slash
/// follows it.
pub open spec fn is_ancestor_cut(path: Seq<char>, k: int) -> bool {
    0 < k < path.len() && path[k] == '/'
}

/// `entries` with a directory added at the end for each ancestor `path[..j]`,
/// `j < k`, that has no entry yet, shortest first.
pub open spec fn with_ancestors(entries: Seq<FileEntryView>, path: Seq<char>, k: int) -> Seq<
    FileEntryView,
>
    decreases k,
{
    if k <= 0 {
        entries
    } else {
        let before = with_ancestors(entries, path, k - 1);
        let prefix = path.subrange(0, k - 1);
        if is_ancestor_cut(path, k - 1) && position(before, prefix) >= before.len() {
            before.push(ancestor_entry(prefix))
        } else {
            before
        }
    }
}

/// `entries` after `entry` was listed: the entry takes the place of an
/// earlier one for its path, and each of its ancestors that has no entry
/// gets a directory.
pub open spec fn insert_listed(entries: Seq<FileEntryView>, entry: FileEntryView) -> Seq<
    FileEntryView,
> {
    with_ancestors(upsert(entries, entry), entry.path, entry.path.len() as int)
}

/// The entries of the virtual tree for a listing, of which each line has
/// given an entry or none. A line without an entry, or with an empty path,
/// adds nothing.
pub open spec fn listing(parsed: Seq<Option<FileEntryView>>) -> Seq<FileEntryView>
    decreases parsed.len(),
{
    if parsed.len() == 0 {
        Seq::empty()
    } else {
        let before = listing(parsed.drop_last());
        match parsed.last() {
            Some(entry) if entry.path.len() > 0 => insert_listed(before, entry),
            _ => before,
        }
    }
}

/// The position lies between `i` and the length, holds the path if it lies
/// inside, and no place between `i` and it does.
pub proof fn lemma_position(entries: Seq<FileEntryView>, path: Seq<char>, i: int)
    requires
        0 <= i <= entries.len(),
    ensures
        i <= position_from(entries, path, i) <= entries.len(),
        position_from(entries, path, i) < entries.len() ==> entries[position_from(
            entries,
            path,
            i,
        )].path == path,
        forall|k: int| i <= k < position_from(entries, path, i) ==> (#[trigger] entries[k]).path != path,
    decreases entries.len() - i,
{
    if i < entries.len() && entries[i].path != path {
        lemma_position(entries, path, i + 1);
    }
}

/// A path has an entry exactly if its position lies inside the list.
pub proof fn lemma_position_has_path(entries: Seq<FileEntryView>, path: Seq<char>)
    ensures
        has_path(entries, path) <==> position(entries, path) < entries.len(),
{
    lemma_position(entries, path, 0);
    if position(entries, path) < entries.len() {
        assert(entries[position(entries, path)].path == path);
    }
}

/// Finds the entry for a path.
pub fn find_path(entries: &Vec<FileEntry>, path: &Vec<char>) -> (k: usize)
    ensures
        k == position(file_views(entries@), path@),
        k <= entries.len(),
{
    let ghost all = file_views(entries@);
    proof {
        lemma_position(all, path@, 0);
    }
    let mut i: usize = 0;
    while i < entries.len()
        invariant
            0 <= i <= entries.len(),
            all == file_views(entries@),
            position(all, path@) == position_from(all, path@, i as int),
        decreases entries.len() - i,
    {
        let p = chars_of(entries[i].path.as_str());
        assert(all[i as int].path == p@);
        if same_chars(&p, path) {
            return i;
        }
        i += 1;
    }
    i
}

fn add_ancestors(entries: &mut Vec<FileEntry>, path: &Vec<char>)
    ensures
        file_views(final(entries)@) == with_ancestors(
            file_views(old(entries)@),
            path@,
            path.len() as int,
        ),
{
    let mut k: usize = 0;
    while k < path.len()
        invariant
            0 <= k <= path.len(),
            file_views(entries@) == with_ancestors(file_views(old(entries)@), path@, k as int),
        decreases path.len() - k,
    {
        if k > 0 && path[k] == '/' {
            let prefix = slice_of(path, 0, k);
            if find_path(entries, &prefix) >= entries.len() {
                let ghost before = file_views(entries@);
                let e = FileEntry { path: string_of(&prefix), is_dir: true, size: None };
                entries.push(e);
                assert(file_views(entries@) =~= before.push(ancestor_entry(prefix@)));
            }
        }
        k += 1;
    }
}

/// Puts a listed entry, and a directory for each ancestor that has none,
/// into the entries of a virtual tree.
pub fn add_entry(entries: &mut Vec<FileEntry>, entry: FileEntry)
    ensures
        file_views(final(entries)@) == insert_listed(file_views(old(entries)@), entry@),
{
    let path = chars_of(entry.path.as_str());
    let k = find_path(entries, &path);
    let ghost before = file_views(entries@);
    let ghost e = entry@;
    if k < entries.len() {
        entries.set(k, entry);
        assert(file_views(entries@) =~= before.update(k as int, e));
    } else {
        entries.push(entry);
        assert(file_views(entries@) =~= before.push(e));
    }
    add_ancestors(entries, &path);
}

/// Whether a line of the listing gave an entry for `path`.
pub open spec fn is_listed(parsed: Seq<Option<FileEntryView>>, path: Seq<char>) -> bool {
    path.len() > 0 && exists|i: int|
        0 <= i < parsed.len() && (#[trigger] parsed[i]) is Some && parsed[i]->0.path == path
}

/// Whether `path` is an ancestor of a path that a line of the listing gave: a
/// proper prefix of it, not empty, after which a slash follows.
pub open spec fn is_listed_ancestor(parsed: Seq<Option<FileEntryView>>, path: Seq<char>) -> bool {
    exists|i: int, k: int|
        0 <= i < parsed.len() && (#[trigger] parsed[i]) is Some && #[trigger] is_ancestor_cut(
            parsed[i]->0.path,
            k,
        ) && path == parsed[i]->0.path.subrange(0, k)
}

/// The entry that the last line for `path` gave.
pub open spec fn last_listed(parsed: Seq<Option<FileEntryView>>, path: Seq<char>) -> FileEntryView
    decreases parsed.len(),
{
    if parsed.len() == 0 {
        ancestor_entry(path)
    } else {
        match parsed.last() {
            Some(entry) if entry.path == path => entry,
            _ => last_listed(parsed.drop_last(), path),
        }
    }
}

/// What the virtual tree holds for a path that it has: the entry of the last
/// line that listed the path, or, if no line did, a directory without a size.
pub open spec fn expected_entry(parsed: Seq<Option<FileEntryView>>, path: Seq<char>) -> FileEntryView {
    if is_listed(parsed, path) {
        last_listed(parsed, path)
    } else {
        ancestor_entry(path)
    }
}

/// The round trip of a listing: the virtual tree holds no path twice; it
/// holds exactly the listed paths and their ancestors; and for each of them
/// it holds the entry that is expected.
pub open spec fn is_round_trip(parsed: Seq<Option<FileEntryView>>, tree: Seq<FileEntryView>) -> bool {
    &&& distinct_paths(tree)
    &&& forall|path: Seq<char>| #[trigger]
        has_path(tree, path) <==> is_listed(parsed, path) || is_listed_ancestor(parsed, path)
    &&& forall|i: int| 0 <= i < tree.len() ==> #[trigger] tree[i] == expected_entry(parsed, tree[i].path)
}

proof fn lemma_upsert(entries: Seq<FileEntryView>, entry: FileEntryView)
    requires
        distinct_paths(entries),
    ensures
        distinct_paths(upsert(entries, entry)),
        forall|path: Seq<char>| #[trigger]
            has_path(upsert(entries, entry), path) <==> has_path(entries, path) || path
                == entry.path,
        forall|i: int|
            0 <= i < upsert(entries, entry).len() ==> if (#[trigger] upsert(entries, entry)[i]).path
                == entry.path {
                upsert(entries, entry)[i] == entry
            } else {
                i < entries.len() && upsert(entries, entry)[i] == entries[i]
            },
{
    let k = position(entries, entry.path);
    let r = upsert(entries, entry);
    lemma_position(entries, entry.path, 0);
    assert forall|i: int, j: int| 0 <= i < j < r.len() implies (#[trigger] r[i]).path != (
    #[trigger] r[j]).path by {
        if k < entries.len() {
            if i != k && j != k {
                assert(r[i] == entries[i] && r[j] == entries[j]);
            } else if i == k {
                assert(r[j] == entries[j]);
            } else {
                assert(r[i] == entries[i]);
            }
        } else {
            if j < entries.len() {
                assert(r[i] == entries[i] && r[j] == entries[j]);
            } else {
                assert(r[i] == entries[i]);
            }
        }
    }
    assert forall|path: Seq<char>| #[trigger]
        has_path(r, path) <==> has_path(entries, path) || path == entry.path by {
        if has_path(r, path) {
            let i = choose|i: int| 0 <= i < r.len() && (#[trigger] r[i]).path == path;
            if path != entry.path {
                assert(entries[i].path == path);
            }
        }
        if has_path(entries, path) {
            let i = choose|i: int| 0 <= i < entries.len() && (#[trigger] entries[i]).path == path;
            if k < entries.len() && i == k {
                assert(r[k].path == path);
            } else {
                assert(r[i].path == path);
            }
        }
        if path == entry.path {
            if k < entries.len() {
                assert(r[k].path == path);
            } else {
                assert(r[entries.len() as int].path == path);
            }
        }
    }
}

proof fn lemma_with_ancestors(entries: Seq<FileEntryView>, path: Seq<char>, k: int)
    requires
        distinct_paths(entries),
        0 <= k <= path.len(),
    ensures
        distinct_paths(with_ancestors(entries, path, k)),
        entries.len() <= with_ancestors(entries, path, k).len(),
        with_ancestors(entries, path, k).subrange(0, entries.len() as int) == entries,
        forall|p: Seq<char>| #[trigger]
            has_path(with_ancestors(entries, path, k), p) <==> has_path(entries, p) || exists|
                j: int,
            |
                0 <= j < k && #[trigger] is_ancestor_cut(path, j) && p == path.subrange(0, j),
        forall|i: int|
            entries.len() <= i < with_ancestors(entries, path, k).len() ==> !has_path(
                entries,
                (#[trigger] with_ancestors(entries, path, k)[i]).path,
            ) && with_ancestors(entries, path, k)[i] == ancestor_entry(
                with_ancestors(entries, path, k)[i].path,
            ),
    decreases k,
{
    let r = with_ancestors(entries, path, k);
    if k <= 0 {
        assert(r.subrange(0, entries.len() as int) =~= entries);
    } else {
        let before = with_ancestors(entries, path, k - 1);
        lemma_with_ancestors(entries, path, k - 1);
        let prefix = path.subrange(0, k - 1);
        lemma_position_has_path(before, prefix);
        let added = is_ancestor_cut(path, k - 1) && position(before, prefix) >= before.len();
        assert(r.subrange(0, entries.len() as int) =~= before.subrange(0, entries.len() as int));
        if added {
            assert forall|i: int, j: int| 0 <= i < j < r.len() implies (#[trigger] r[i]).path != (
            #[trigger] r[j]).path by {
                if j < before.len() {
                    assert(r[i] == before[i] && r[j] == before[j]);
                } else {
                    assert(r[i] == before[i]);
                    assert(!has_path(before, prefix));
                }
            }
        }
        assert forall|p: Seq<char>| #[trigger]
            has_path(r, p) <==> has_path(entries, p) || exists|j: int|
                0 <= j < k && #[trigger] is_ancestor_cut(path, j) && p == path.subrange(0, j) by {
            if has_path(r, p) {
                let i = choose|i: int| 0 <= i < r.len() && (#[trigger] r[i]).path == p;
                if i < before.len() {
                    assert(before[i].path == p);
                    assert(has_path(before, p));
                } else {
                    assert(is_ancestor_cut(path, k - 1) && p == path.subrange(0, k - 1));
                }
            }
            if has_path(before, p) {
                let i = choose|i: int| 0 <= i < before.len() && (#[trigger] before[i]).path == p;
                assert(r[i].path == p);
            }
            if is_ancestor_cut(path, k - 1) && p == prefix {
                if added {
                    assert(r[before.len() as int].path == p);
                } else {
                    assert(has_path(before, p));
                    let i = choose|i: int|
                        0 <= i < before.len() && (#[trigger] before[i]).path == p;
                    assert(r[i].path == p);
                }
            }
        }
        assert forall|i: int| entries.len() <= i < r.len() implies !has_path(
            entries,
            (#[trigger] r[i]).path,
        ) && r[i] == ancestor_entry(r[i].path) by {
            if i < before.len() {
                assert(r[i] == before[i]);
            } else {
                assert(r[i] == ancestor_entry(prefix));
                assert(!has_path(before, prefix));
                if has_path(entries, prefix) {
                    let j = choose|j: int|
                        0 <= j < entries.len() && (#[trigger] entries[j]).path == prefix;
                    assert(before.subrange(0, entries.len() as int)[j] == before[j]);
                }
            }
        }
    }
}

proof fn lemma_listed_grows(parsed: Seq<Option<FileEntryView>>, path: Seq<char>)
    requires
        parsed.len() > 0,
    ensures
        is_listed(parsed, path) <==> is_listed(parsed.drop_last(), path) || (path.len() > 0
            && parsed.last() is Some && parsed.last()->0.path == path),
        is_listed_ancestor(parsed, path) <==> is_listed_ancestor(parsed.drop_last(), path) || (
        parsed.last() is Some && exists|k: int| #[trigger]
            is_ancestor_cut(parsed.last()->0.path, k) && path == parsed.last()->0.path.subrange(
                0,
                k,
            )),
{
    let rest = parsed.drop_last();
    if is_listed(parsed, path) {
        let i = choose|i: int|
            0 <= i < parsed.len() && (#[trigger] parsed[i]) is Some && parsed[i]->0.path == path;
        if i < rest.len() {
            assert(rest[i] == parsed[i]);
        }
    }
    if is_listed(rest, path) {
        let i = choose|i: int|
            0 <= i < rest.len() && (#[trigger] rest[i]) is Some && rest[i]->0.path == path;
        assert(parsed[i] == rest[i]);
    }
    if path.len() > 0 && parsed.last() is Some && parsed.last()->0.path == path {
        assert(parsed[parsed.len() - 1] is Some);
    }
    if is_listed_ancestor(parsed, path) {
        let (i, k) = choose|i: int, k: int|
            0 <= i < parsed.len() && (#[trigger] parsed[i]) is Some && #[trigger] is_ancestor_cut(
                parsed[i]->0.path,
                k,
            ) && path == parsed[i]->0.path.subrange(0, k);
        if i < rest.len() {
            assert(rest[i] == parsed[i]);
        } else {
            assert(is_ancestor_cut(parsed.last()->0.path, k));
        }
    }
    if is_listed_ancestor(rest, path) {
        let (i, k) = choose|i: int, k: int|
            0 <= i < rest.len() && (#[trigger] rest[i]) is Some && #[trigger] is_ancestor_cut(
                rest[i]->0.path,
                k,
            ) && path == rest[i]->0.path.subrange(0, k);
        assert(parsed[i] == rest[i]);
    }
    if parsed.last() is Some && exists|k: int| #[trigger]
        is_ancestor_cut(parsed.last()->0.path, k) && path == parsed.last()->0.path.subrange(0, k) {
        let k = choose|k: int| #[trigger]
            is_ancestor_cut(parsed.last()->0.path, k) && path == parsed.last()->0.path.subrange(
                0,
                k,
            );
        assert(parsed[parsed.len() - 1] is Some && is_ancestor_cut(
            parsed[parsed.len() - 1]->0.path,
            k,
        ));
    }
}

/// The round trip of the listing parser. Whatever the lines gave, the
/// virtual tree built from them holds one entry for each listed path, one
/// made-up directory for each ancestor of a listed path that no line lists,
/// and nothing else, with no path twice.
pub proof fn lemma_listing_round_trip(parsed: Seq<Option<FileEntryView>>)
    ensures
        is_round_trip(parsed, listing(parsed)),
    decreases parsed.len(),
{
    let tree = listing(parsed);
    if parsed.len() == 0 {
        assert forall|path: Seq<char>| #[trigger]
            has_path(tree, path) <==> is_listed(parsed, path) || is_listed_ancestor(
                parsed,
                path,
            ) by {}
    } else {
        let rest = parsed.drop_last();
        let before = listing(rest);
        lemma_listing_round_trip(rest);
        assert forall|path: Seq<char>| true implies (is_listed(parsed, path) <==> is_listed(
            rest,
            path,
        ) || (path.len() > 0 && parsed.last() is Some && parsed.last()->0.path == path)) && (
        is_listed_ancestor(parsed, path) <==> is_listed_ancestor(rest, path) || (parsed.last() is Some
            && exists|k: int| #[trigger]
            is_ancestor_cut(parsed.last()->0.path, k) && path == parsed.last()->0.path.subrange(
                0,
                k,
            ))) by {
            lemma_listed_grows(parsed, path);
        }
        match parsed.last() {
            Some(entry) if entry.path.len() > 0 => {
                let mid = upsert(before, entry);
                lemma_upsert(before, entry);
                lemma_with_ancestors(mid, entry.path, entry.path.len() as int);
                assert forall|path: Seq<char>| #[trigger]
                    has_path(tree, path) <==> is_listed(parsed, path) || is_listed_ancestor(
                        parsed,
                        path,
                    ) by {
                    lemma_listed_grows(parsed, path);
                    assert(has_path(mid, path) <==> has_path(before, path) || path == entry.path);
                    if exists|j: int|
                        0 <= j < entry.path.len() && #[trigger] is_ancestor_cut(entry.path, j)
                            && path == entry.path.subrange(0, j) {
                        let j = choose|j: int|
                            0 <= j < entry.path.len() && #[trigger] is_ancestor_cut(entry.path, j)
                                && path == entry.path.subrange(0, j);
                        assert(is_ancestor_cut(parsed.last()->0.path, j));
                    }
                }
                assert forall|i: int| 0 <= i < tree.len() implies #[trigger] tree[i]
                    == expected_entry(parsed, tree[i].path) by {
                    let path = tree[i].path;
                    lemma_listed_grows(parsed, path);
                    if i < mid.len() {
                        assert(tree.subrange(0, mid.len() as int)[i] == tree[i]);
                        assert(tree[i] == mid[i]);
                        if mid[i].path != entry.path {
                            assert(mid[i] == before[i]);
                            assert(before[i] == expected_entry(rest, before[i].path));
                        }
                    } else {
                        assert(!has_path(mid, path));
                        assert(!has_path(before, path));
                    }
                }
            },
            _ => {
                assert forall|path: Seq<char>| #[trigger]
                    has_path(tree, path) <==> is_listed(parsed, path) || is_listed_ancestor(
                        parsed,
                        path,
                    ) by {
                    lemma_listed_grows(parsed, path);
                    if parsed.last() is Some {
                        assert(parsed.last()->0.path.len() == 0);
                    }
                }
                assert forall|i: int| 0 <= i < tree.len() implies #[trigger] tree[i]
                    == expected_entry(parsed, tree[i].path) by {
                    lemma_listed_grows(parsed, tree[i].path);
                    assert(has_path(tree, tree[i].path));
                }
            },
        }
    }
}

} // verus!
