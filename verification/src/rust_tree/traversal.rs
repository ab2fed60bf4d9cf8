//! What the traversal engine decides for one directory: which entries stay,
//! in which order they are shown, and whether a directory is entered.

use vstd::prelude::*;
use crate::rust_tree::entry::{Entry, EntryView, entry_views};
use crate::rust_tree::filter::{
    is_hidden, pattern_neutral, should_skip, should_skip_entry, skip_rule,
};
use crate::rust_tree::options::TreeOptions;
use crate::rust_tree::sorting::{
    lemma_filter_names, lemma_filter_permutes, lemma_sort_policy_unique, names_identify,
    sort_entries, sort_policy,
};

verus! {

/// The entries of `raw` whose flag in `keep` is set, in their order.
pub open spec fn select(raw: Seq<EntryView>, keep: Seq<bool>) -> Seq<EntryView>
    decreases raw.len(),
{
    if raw.len() == 0 || keep.len() != raw.len() {
        Seq::empty()
    } else {
        let rest = select(raw.drop_last(), keep.drop_last());
        if keep.last() {
            rest.push(raw.last())
        } else {
            rest
        }
    }
}

/// Whether keeping (or dropping) the entry agrees with the filter's rules for
/// some answer of the two patterns, and with their named answers where the
/// name is one for which these are known.
pub open spec fn keep_allowed(options: TreeOptions, entry: EntryView, keep: bool) -> bool {
    &&& pattern_neutral(options, entry.name) ==> keep == !should_skip(options, entry)
    &&& exists|excluded: bool, included: bool|
        keep == !skip_rule(
            options,
            is_hidden(entry.name),
            entry.target_is_dir,
            excluded,
            included,
        )
}

/// One flag for each entry of `raw`, each in agreement with the filter.
pub open spec fn is_selection(raw: Seq<EntryView>, options: TreeOptions, keep: Seq<bool>) -> bool {
    &&& keep.len() == raw.len()
    &&& forall|i: int| 0 <= i < raw.len() ==> keep_allowed(options, raw[i], #[trigger] keep[i])
}

/// `kept` is what is shown of the raw entries of one directory: those that
/// the filter keeps, in the order of the sort policy.
pub open spec fn is_arrangement(
    raw: Seq<EntryView>,
    options: TreeOptions,
    kept: Seq<EntryView>,
) -> bool {
    exists|keep: Seq<bool>| #[trigger]
        is_selection(raw, options, keep) && kept == sort_policy(select(raw, keep), options)
}

/// The entries that the filter keeps.
pub open spec fn passes_filter(options: TreeOptions) -> spec_fn(EntryView) -> bool {
    |e: EntryView| !should_skip(options, e)
}

/// What is shown of the raw entries of one directory, where the patterns'
/// answers are known for every name: the entries that the filter keeps, in
/// the order of the sort policy.
pub open spec fn arranged(raw: Seq<EntryView>, options: TreeOptions) -> Seq<EntryView> {
    sort_policy(raw.filter(passes_filter(options)), options)
}

/// The patterns' answers are known for every name in `raw`.
pub open spec fn all_neutral(raw: Seq<EntryView>, options: TreeOptions) -> bool {
    forall|i: int| 0 <= i < raw.len() ==> pattern_neutral(options, (#[trigger] raw[i]).name)
}

proof fn lemma_select_is_filter(raw: Seq<EntryView>, options: TreeOptions, keep: Seq<bool>)
    requires
        keep.len() == raw.len(),
        forall|i: int| 0 <= i < raw.len() ==> #[trigger] keep[i] == !should_skip(options, raw[i]),
    ensures
        select(raw, keep) == raw.filter(passes_filter(options)),
    decreases raw.len(),
{
    reveal(Seq::filter);
    if raw.len() > 0 {
        let r = raw.drop_last();
        let k = keep.drop_last();
        assert forall|i: int| 0 <= i < r.len() implies #[trigger] k[i] == !should_skip(
            options,
            r[i],
        ) by {
            assert(k[i] == keep[i]);
        }
        lemma_select_is_filter(r, options, k);
        assert(keep.last() == keep[keep.len() - 1]);
    }
}

fn select_entries(raw: &Vec<Entry>, options: &TreeOptions) -> (r: (Vec<Entry>, Ghost<Seq<bool>>))
    ensures
        is_selection(entry_views(raw@), *options, r.1@),
        entry_views(r.0@) == select(entry_views(raw@), r.1@),
{
    let ghost all = entry_views(raw@);
    let mut kept: Vec<Entry> = Vec::new();
    let ghost mut keep: Seq<bool> = Seq::empty();
    let mut i: usize = 0;
    assert(entry_views(kept@) =~= select(all.subrange(0, 0), keep));
    while i < raw.len()
        invariant
            0 <= i <= raw.len(),
            all == entry_views(raw@),
            is_selection(all.subrange(0, i as int), *options, keep),
            entry_views(kept@) == select(all.subrange(0, i as int), keep),
        decreases raw.len() - i,
    {
        let skip = should_skip_entry(&raw[i], options, 0);
        let ghost before = entry_views(kept@);
        let ghost old_keep = keep;
        proof {
            keep = keep.push(!skip);
            let now = all.subrange(0, i + 1);
            assert(now.drop_last() =~= all.subrange(0, i as int));
            assert(keep.drop_last() =~= old_keep);
            assert(now.last() == raw@[i as int]@);
            assert forall|k: int| 0 <= k < now.len() implies keep_allowed(
                *options,
                now[k],
                #[trigger] keep[k],
            ) by {
                if k < i {
                    assert(keep[k] == old_keep[k]);
                    assert(now[k] == all.subrange(0, i as int)[k]);
                    assert(keep_allowed(*options, all.subrange(0, i as int)[k], old_keep[k]));
                } else {
                    let e = raw@[i as int]@;
                    assert(now[k] == e && keep[k] == !skip);
                    let (excluded, included) = choose|excluded: bool, included: bool|
                        skip == skip_rule(
                            *options,
                            is_hidden(e.name),
                            e.target_is_dir,
                            excluded,
                            included,
                        );
                    assert(!skip == !skip_rule(
                        *options,
                        is_hidden(e.name),
                        e.target_is_dir,
                        excluded,
                        included,
                    ));
                }
            }
        }
        if !skip {
            let e = raw[i].duplicate();
            kept.push(e);
            assert(entry_views(kept@) =~= before.push(raw@[i as int]@));
        }
        i += 1;
    }
    assert(all.subrange(0, raw.len() as int) =~= all);
    (kept, Ghost(keep))
}

/// Filters and sorts the raw entries of one directory. Asks the patterns for
/// each name.
pub fn arrange(raw: &Vec<Entry>, options: &TreeOptions) -> (kept: Vec<Entry>)
    ensures
        is_arrangement(entry_views(raw@), *options, entry_views(kept@)),
        all_neutral(entry_views(raw@), *options) ==> entry_views(kept@) == arranged(
            entry_views(raw@),
            *options,
        ),
        kept.len() <= raw.len(),
        forall|i: int|
            0 <= i < kept.len() ==> entry_views(raw@).contains(#[trigger] entry_views(kept@)[i]),
{
    let (selected, Ghost(keep)) = select_entries(raw, options);
    let sorted = sort_entries(&selected, options);
    proof {
        let all = entry_views(raw@);
        assert(is_selection(all, *options, keep));
        if all_neutral(all, *options) {
            assert forall|i: int| 0 <= i < all.len() implies #[trigger] keep[i] == !should_skip(
                *options,
                all[i],
            ) by {
                assert(keep_allowed(*options, all[i], keep[i]));
            }
            lemma_select_is_filter(all, *options, keep);
        }
        lemma_select_len(all, keep);
        let chosen = select(all, keep);
        let shown = entry_views(sorted@);
        assert forall|i: int| 0 <= i < shown.len() implies all.contains(#[trigger] shown[i]) by {
            broadcast use vstd::seq_lib::group_to_multiset_ensures;

            assert(shown.contains(shown[i]));
            assert(shown.to_multiset().count(shown[i]) > 0);
            assert(chosen.contains(shown[i]));
            lemma_select_members(all, keep, shown[i]);
        }
    }
    sorted
}

proof fn lemma_select_members(raw: Seq<EntryView>, keep: Seq<bool>, e: EntryView)
    requires
        select(raw, keep).contains(e),
    ensures
        raw.contains(e),
    decreases raw.len(),
{
    if raw.len() > 0 && keep.len() == raw.len() {
        let rest = select(raw.drop_last(), keep.drop_last());
        if keep.last() && e == raw.last() {
            assert(raw[raw.len() - 1] == e);
        } else {
            let i = choose|i: int| 0 <= i < select(raw, keep).len() && select(raw, keep)[i] == e;
            assert(rest[i] == e);
            lemma_select_members(raw.drop_last(), keep.drop_last(), e);
            let j = choose|j: int| 0 <= j < raw.drop_last().len() && raw.drop_last()[j] == e;
            assert(raw[j] == e);
        }
    }
}

proof fn lemma_select_len(raw: Seq<EntryView>, keep: Seq<bool>)
    ensures
        select(raw, keep).len() <= raw.len(),
    decreases raw.len(),
{
    if raw.len() > 0 && keep.len() == raw.len() {
        lemma_select_len(raw.drop_last(), keep.drop_last());
    }
}

/// What is shown of a directory does not depend on the order in which its
/// entries were read: two readings that hold the same entries, of which no
/// two different ones bear the same name, are arranged alike. So a walk
/// over an unchanged directory gives the same lines again.
pub proof fn lemma_arranged_ignores_read_order(
    a: Seq<EntryView>,
    b: Seq<EntryView>,
    options: TreeOptions,
)
    requires
        a.to_multiset() == b.to_multiset(),
        names_identify(a),
    ensures
        arranged(a, options) == arranged(b, options),
{
    lemma_filter_permutes(a, b, passes_filter(options));
    lemma_filter_names(a, passes_filter(options));
    lemma_sort_policy_unique(
        a.filter(passes_filter(options)),
        b.filter(passes_filter(options)),
        options,
    );
}

/// Whether the depth limit lets a directory at `depth` be entered: with a
/// limit, only while the depth of its entries stays below the limit.
pub open spec fn level_allows(options: TreeOptions, depth: nat) -> bool {
    match options.level {
        Some(limit) => depth + 1 < limit,
        None => true,
    }
}

/// Whether the depth limit lets a directory at `depth` be entered.
pub fn level_allows_check(options: &TreeOptions, depth: usize) -> (r: bool)
    ensures
        r == level_allows(*options, depth as nat),
{
    match options.level {
        Some(limit) => limit > 0 && (depth as u64) < (limit - 1) as u64,
        None => true,
    }
}

/// Whether a directory with `raw_count` raw entries is too large to enter.
pub open spec fn over_limit(options: TreeOptions, raw_count: u64) -> bool {
    match options.file_limit {
        Some(limit) => raw_count > limit,
        None => false,
    }
}

/// Whether a directory with `raw_count` raw entries is too large to enter.
pub fn over_limit_check(options: &TreeOptions, raw_count: u64) -> (r: bool)
    ensures
        r == over_limit(*options, raw_count),
{
    match options.file_limit {
        Some(limit) => raw_count > limit,
        None => false,
    }
}

/// A copy of the indentation state.
pub fn copy_flags(flags: &Vec<bool>) -> (r: Vec<bool>)
    ensures
        r@ == flags@,
{
    let mut r: Vec<bool> = Vec::new();
    let mut i: usize = 0;
    while i < flags.len()
        invariant
            0 <= i <= flags.len(),
            r@ == flags@.subrange(0, i as int),
        decreases flags.len() - i,
    {
        r.push(flags[i]);
        i += 1;
        assert(r@ =~= flags@.subrange(0, i as int));
    }
    assert(flags@.subrange(0, flags.len() as int) =~= flags@);
    r
}

} // verus!
