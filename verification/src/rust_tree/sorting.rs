//! The sort policy: the order in which the entries of one directory are shown.

use vstd::prelude::*;
use vstd::multiset::Multiset;
use vstd::utf8::encode_utf8;
use crate::rust_tree::entry::{Entry, EntryView, entry_views};
use crate::rust_tree::options::TreeOptions;

verus! {

/// Byte-wise order from position `i` on: `a` comes no later than `b`.
pub open spec fn bytes_le_from(a: Seq<u8>, b: Seq<u8>, i: int) -> bool
    decreases a.len() - i,
{
    if i < 0 || i >= a.len() {
        true
    } else if i >= b.len() {
        false
    } else if a[i] != b[i] {
        a[i] < b[i]
    } else {
        bytes_le_from(a, b, i + 1)
    }
}

/// Byte-wise order: at the first byte in which they differ `a` has the
/// smaller one, or `a` ends where `b` goes on, or the two are equal.
pub open spec fn bytes_le(a: Seq<u8>, b: Seq<u8>) -> bool {
    bytes_le_from(a, b, 0)
}

/// The bytes by which a name is ordered: its UTF-8 encoding.
pub open spec fn name_key(e: EntryView) -> Seq<u8> {
    encode_utf8(e.name)
}

/// The time by which an entry is ordered, as seconds and nanoseconds. An
/// entry without a time counts as the oldest time there is.
pub open spec fn time_key(e: EntryView) -> (int, int) {
    match e.modified {
        Some(t) => (t.secs as int, t.nanos as int),
        None => (i64::MIN as int, 0),
    }
}

/// `a`'s time is before `b`'s.
pub open spec fn time_before(a: EntryView, b: EntryView) -> bool {
    let (sa, na) = time_key(a);
    let (sb, nb) = time_key(b);
    sa < sb || (sa == sb && na < nb)
}

/// The comparator: `a` may stand before `b`. By name it is the byte-wise order
/// of the names; by time it is the order of the times, and of the names where
/// the times are equal.
pub open spec fn entry_le(a: EntryView, b: EntryView, by_time: bool) -> bool {
    if by_time {
        time_before(a, b) || (time_key(a) == time_key(b) && bytes_le(name_key(a), name_key(b)))
    } else {
        bytes_le(name_key(a), name_key(b))
    }
}

/// Of two byte sequences one comes no later than the other.
pub proof fn lemma_bytes_le_total(a: Seq<u8>, b: Seq<u8>, i: int)
    requires
        0 <= i,
        i <= a.len() || i <= b.len(),
    ensures
        bytes_le_from(a, b, i) || bytes_le_from(b, a, i),
    decreases a.len() - i,
{
    if i < a.len() && i < b.len() && a[i] == b[i] {
        lemma_bytes_le_total(a, b, i + 1);
    }
}

/// Two byte sequences of which each comes no later than the other are equal.
pub proof fn lemma_bytes_le_antisymmetric(a: Seq<u8>, b: Seq<u8>, i: int)
    requires
        0 <= i <= a.len(),
        i <= b.len(),
        bytes_le_from(a, b, i),
        bytes_le_from(b, a, i),
    ensures
        a.subrange(i, a.len() as int) == b.subrange(i, b.len() as int),
    decreases a.len() - i,
{
    if i < a.len() {
        lemma_bytes_le_antisymmetric(a, b, i + 1);
        assert(a.subrange(i, a.len() as int) =~= seq![a[i]] + a.subrange(i + 1, a.len() as int));
        assert(b.subrange(i, b.len() as int) =~= seq![b[i]] + b.subrange(i + 1, b.len() as int));
    } else {
        assert(a.subrange(i, a.len() as int) =~= b.subrange(i, b.len() as int));
    }
}

/// The byte-wise order is transitive.
pub proof fn lemma_bytes_le_transitive(a: Seq<u8>, b: Seq<u8>, c: Seq<u8>, i: int)
    requires
        0 <= i,
        bytes_le_from(a, b, i),
        bytes_le_from(b, c, i),
    ensures
        bytes_le_from(a, c, i),
    decreases a.len() - i,
{
    if i < a.len() && i < b.len() && i < c.len() && a[i] == b[i] && b[i] == c[i] {
        lemma_bytes_le_transitive(a, b, c, i + 1);
    }
}

/// Either of two entries may stand before the other.
pub proof fn lemma_entry_le_total(a: EntryView, b: EntryView, by_time: bool)
    ensures
        entry_le(a, b, by_time) || entry_le(b, a, by_time),
{
    lemma_bytes_le_total(name_key(a), name_key(b), 0);
}

/// The comparator is transitive.
pub proof fn lemma_entry_le_transitive(a: EntryView, b: EntryView, c: EntryView, by_time: bool)
    requires
        entry_le(a, b, by_time),
        entry_le(b, c, by_time),
    ensures
        entry_le(a, c, by_time),
{
    if bytes_le(name_key(a), name_key(b)) && bytes_le(name_key(b), name_key(c)) {
        lemma_bytes_le_transitive(name_key(a), name_key(b), name_key(c), 0);
    }
}

/// Two entries of which each may stand before the other have the same name.
pub proof fn lemma_entry_le_antisymmetric(a: EntryView, b: EntryView, by_time: bool)
    requires
        entry_le(a, b, by_time),
        entry_le(b, a, by_time),
    ensures
        a.name == b.name,
{
    let ka = name_key(a);
    let kb = name_key(b);
    lemma_bytes_le_antisymmetric(ka, kb, 0);
    assert(ka.subrange(0, ka.len() as int) =~= ka);
    assert(kb.subrange(0, kb.len() as int) =~= kb);
    vstd::utf8::encode_utf8_decode_utf8(a.name);
    vstd::utf8::encode_utf8_decode_utf8(b.name);
}

fn bytes_le_check(a: &[u8], b: &[u8]) -> (r: bool)
    ensures
        r == bytes_le(a@, b@),
{
    let mut i: usize = 0;
    while i < a.len()
        invariant
            0 <= i <= a.len(),
            bytes_le(a@, b@) == bytes_le_from(a@, b@, i as int),
        decreases a.len() - i,
    {
        if i >= b.len() {
            return false;
        }
        if a[i] != b[i] {
            return a[i] < b[i];
        }
        i += 1;
    }
    true
}

/// Whether `a` may stand before `b`.
pub fn entry_le_check(a: &Entry, b: &Entry, by_time: bool) -> (r: bool)
    ensures
        r == entry_le(a@, b@, by_time),
{
    let names = bytes_le_check(a.name.as_str().as_bytes(), b.name.as_str().as_bytes());
    if !by_time {
        return names;
    }
    let (sa, na): (i64, u32) = match a.modified {
        Some(t) => (t.secs, t.nanos),
        None => (i64::MIN, 0),
    };
    let (sb, nb): (i64, u32) = match b.modified {
        Some(t) => (t.secs, t.nanos),
        None => (i64::MIN, 0),
    };
    if sa < sb || (sa == sb && na < nb) {
        true
    } else if sa == sb && na == nb {
        names
    } else {
        false
    }
}

/// Where `e` goes into the ordered `s`: before the first entry that it may
/// stand before, so after every entry that is strictly smaller.
pub open spec fn insert_pos(s: Seq<EntryView>, e: EntryView, by_time: bool) -> int
    decreases s.len(),
{
    if s.len() == 0 || entry_le(e, s[0], by_time) {
        0
    } else {
        1 + insert_pos(s.drop_first(), e, by_time)
    }
}

/// The entries of `s` in the comparator's order; entries that compare equal
/// keep the order in which `s` has them.
pub open spec fn sort_group(s: Seq<EntryView>, by_time: bool) -> Seq<EntryView>
    decreases s.len(),
{
    if s.len() == 0 {
        s
    } else {
        let rest = sort_group(s.drop_first(), by_time);
        rest.insert(insert_pos(rest, s[0], by_time), s[0])
    }
}

/// Every entry of `s` may stand before every later one.
pub open spec fn ordered(s: Seq<EntryView>, by_time: bool) -> bool {
    forall|i: int, j: int| 0 <= i < j < s.len() ==> entry_le(s[i], s[j], by_time)
}

/// The entries that are directories.
pub open spec fn is_directory_entry() -> spec_fn(EntryView) -> bool {
    |e: EntryView| e.is_dir()
}

/// The entries that are no directories.
pub open spec fn is_other_entry() -> spec_fn(EntryView) -> bool {
    |e: EntryView| !e.is_dir()
}

/// The directories among `s`, in their order.
pub open spec fn directories_of(s: Seq<EntryView>) -> Seq<EntryView> {
    s.filter(is_directory_entry())
}

/// The entries of `s` that are no directories, in their order.
pub open spec fn others_of(s: Seq<EntryView>) -> Seq<EntryView> {
    s.filter(is_other_entry())
}

/// The sort policy. With directories first, the directories and the other
/// entries are sorted each for themselves and the directories come first;
/// else all are sorted together. With `reverse` the whole result is turned
/// round.
pub open spec fn sort_policy(s: Seq<EntryView>, options: TreeOptions) -> Seq<EntryView> {
    let base = if options.dirs_first {
        sort_group(directories_of(s), options.sort_by_time) + sort_group(
            others_of(s),
            options.sort_by_time,
        )
    } else {
        sort_group(s, options.sort_by_time)
    };
    if options.reverse {
        base.reverse()
    } else {
        base
    }
}

/// The place of insertion lies inside the list or at its end; the entry may
/// stand before none of the entries in front of that place, and before the
/// entry at it.
pub proof fn lemma_insert_pos(s: Seq<EntryView>, e: EntryView, by_time: bool)
    ensures
        0 <= insert_pos(s, e, by_time) <= s.len(),
        forall|k: int| 0 <= k < insert_pos(s, e, by_time) ==> !entry_le(e, #[trigger] s[k], by_time),
        insert_pos(s, e, by_time) < s.len() ==> entry_le(e, s[insert_pos(s, e, by_time)], by_time),
    decreases s.len(),
{
    if s.len() == 0 || entry_le(e, s[0], by_time) {
    } else {
        let t = s.drop_first();
        lemma_insert_pos(t, e, by_time);
        assert forall|k: int| 0 <= k < insert_pos(s, e, by_time) implies !entry_le(
            e,
            #[trigger] s[k],
            by_time,
        ) by {
            if k > 0 {
                assert(s[k] == t[k - 1]);
            }
        }
    }
}

/// Sorting neither adds nor drops an entry.
pub proof fn lemma_sort_group_permutes(s: Seq<EntryView>, by_time: bool)
    ensures
        sort_group(s, by_time).to_multiset() == s.to_multiset(),
        sort_group(s, by_time).len() == s.len(),
    decreases s.len(),
{
    broadcast use vstd::seq_lib::group_to_multiset_ensures;

    if s.len() == 0 {
    } else {
        let rest = sort_group(s.drop_first(), by_time);
        lemma_sort_group_permutes(s.drop_first(), by_time);
        lemma_insert_pos(rest, s[0], by_time);
        vstd::seq_lib::to_multiset_insert(rest, insert_pos(rest, s[0], by_time), s[0]);
        assert(s =~= seq![s[0]] + s.drop_first());
        vstd::seq_lib::lemma_multiset_commutative(seq![s[0]], s.drop_first());
        assert(seq![s[0]].to_multiset() =~= Multiset::<EntryView>::empty().insert(s[0])) by {
            assert(seq![s[0]] =~= Seq::<EntryView>::empty().push(s[0]));
        }
        assert(sort_group(s, by_time).to_multiset() =~= s.to_multiset());
    }
}

/// What has been sorted is in order.
pub proof fn lemma_sort_group_ordered(s: Seq<EntryView>, by_time: bool)
    ensures
        ordered(sort_group(s, by_time), by_time),
    decreases s.len(),
{
    if s.len() == 0 {
    } else {
        let rest = sort_group(s.drop_first(), by_time);
        let e = s[0];
        let p = insert_pos(rest, e, by_time);
        let r = rest.insert(p, e);
        lemma_sort_group_ordered(s.drop_first(), by_time);
        lemma_insert_pos(rest, e, by_time);
        assert forall|i: int, j: int| 0 <= i < j < r.len() implies entry_le(r[i], r[j], by_time) by {
            if j < p {
                assert(r[i] == rest[i] && r[j] == rest[j]);
            } else if j == p {
                assert(r[i] == rest[i]);
                lemma_entry_le_total(e, rest[i], by_time);
            } else if i < p {
                assert(r[i] == rest[i] && r[j] == rest[j - 1]);
            } else if i == p {
                assert(r[j] == rest[j - 1]);
                if j - 1 > p {
                    lemma_entry_le_transitive(e, rest[p], rest[j - 1], by_time);
                }
            } else {
                assert(r[i] == rest[i - 1] && r[j] == rest[j - 1]);
            }
        }
    }
}

/// Sorts one group of entries.
pub fn sort_entries_group(entries: &Vec<Entry>, by_time: bool) -> (sorted: Vec<Entry>)
    ensures
        entry_views(sorted@) == sort_group(entry_views(entries@), by_time),
{
    let ghost all = entry_views(entries@);
    let mut out: Vec<Entry> = Vec::new();
    let mut n: usize = entries.len();
    assert(entry_views(out@) =~= all.subrange(n as int, all.len() as int));
    while n > 0
        invariant
            0 <= n <= entries.len(),
            all == entry_views(entries@),
            entry_views(out@) == sort_group(all.subrange(n as int, all.len() as int), by_time),
        decreases n,
    {
        let e = entries[n - 1].duplicate();
        let ghost placed = entry_views(out@);
        let mut k: usize = 0;
        proof {
            lemma_insert_pos(placed, e@, by_time);
            assert(placed.subrange(0, placed.len() as int) =~= placed);
        }
        while k < out.len() && !entry_le_check(&e, &out[k], by_time)
            invariant
                0 <= k <= out.len(),
                placed == entry_views(out@),
                insert_pos(placed, e@, by_time) == k + insert_pos(
                    placed.subrange(k as int, placed.len() as int),
                    e@,
                    by_time,
                ),
            decreases out.len() - k,
        {
            assert(placed.subrange(k as int, placed.len() as int).drop_first() =~= placed.subrange(
                k + 1,
                placed.len() as int,
            ));
            assert(placed.subrange(k as int, placed.len() as int)[0] == out@[k as int]@);
            k += 1;
        }
        proof {
            let tail = all.subrange(n - 1, all.len() as int);
            assert(tail.drop_first() =~= all.subrange(n as int, all.len() as int));
            assert(tail[0] == e@);
            if k < out.len() {
                assert(placed.subrange(k as int, placed.len() as int)[0] == out@[k as int]@);
            }
        }
        out.insert(k, e);
        assert(entry_views(out@) =~= placed.insert(k as int, e@));
        n -= 1;
    }
    assert(all.subrange(0, all.len() as int) =~= all);
    out
}

/// The result of the sort policy read in forward order: what it is before
/// `reverse` turns it round.
pub open spec fn forward(sorted: Seq<EntryView>, options: TreeOptions) -> Seq<EntryView> {
    if options.reverse {
        sorted.reverse()
    } else {
        sorted
    }
}

/// What the sort policy promises of its result, read in forward order: with
/// directories first, no directory stands behind another entry; and of two
/// entries that the policy sorts together (all of them, or with directories
/// first two directories or two others) the earlier may stand before the later.
pub open spec fn policy_ordered(sorted: Seq<EntryView>, options: TreeOptions) -> bool {
    let f = forward(sorted, options);
    &&& options.dirs_first ==> forall|i: int, j: int|
        0 <= i < j < f.len() && f[j].is_dir() ==> f[i].is_dir()
    &&& forall|i: int, j: int|
        0 <= i < j < f.len() && (options.dirs_first ==> f[i].is_dir() == f[j].is_dir())
            ==> entry_le(f[i], f[j], options.sort_by_time)
}

proof fn lemma_split_permutes(s: Seq<EntryView>)
    ensures
        (directories_of(s) + others_of(s)).to_multiset() == s.to_multiset(),
    decreases s.len(),
{
    broadcast use vstd::seq_lib::group_to_multiset_ensures;

    let d = directories_of(s);
    let o = others_of(s);
    vstd::seq_lib::lemma_multiset_commutative(d, o);
    if s.len() == 0 {
        reveal(Seq::filter);
        assert(d + o =~= s);
    } else {
        let t = s.drop_last();
        let e = s.last();
        lemma_split_permutes(t);
        assert(s =~= t.push(e));
        t.lemma_filter_push(e, is_directory_entry());
        t.lemma_filter_push(e, is_other_entry());
        let dt = directories_of(t);
        let ot = others_of(t);
        vstd::seq_lib::lemma_multiset_commutative(dt, ot);
        assert(s.to_multiset() =~= t.to_multiset().insert(e));
        if e.is_dir() {
            assert(d == dt.push(e) && o == ot);
            assert(d.to_multiset() =~= dt.to_multiset().insert(e));
        } else {
            assert(d == dt && o == ot.push(e));
            assert(o.to_multiset() =~= ot.to_multiset().insert(e));
        }
        assert((d + o).to_multiset() =~= s.to_multiset());
    }
}

proof fn lemma_sorted_members(s: Seq<EntryView>, by_time: bool, pred: spec_fn(EntryView) -> bool, i: int)
    requires
        0 <= i < sort_group(s.filter(pred), by_time).len(),
    ensures
        pred(sort_group(s.filter(pred), by_time)[i]),
{
    broadcast use vstd::seq_lib::group_to_multiset_ensures;

    let f = s.filter(pred);
    let r = sort_group(f, by_time);
    lemma_sort_group_permutes(f, by_time);
    assert(r.contains(r[i]));
    assert(r.to_multiset().count(r[i]) > 0);
    assert(f.contains(r[i]));
    let k = choose|k: int| 0 <= k < f.len() && f[k] == r[i];
    s.lemma_filter_pred(pred, k);
}

/// The sort policy keeps every entry and puts the entries in its order.
pub proof fn lemma_sort_policy(s: Seq<EntryView>, options: TreeOptions)
    ensures
        sort_policy(s, options).to_multiset() == s.to_multiset(),
        sort_policy(s, options).len() == s.len(),
        policy_ordered(sort_policy(s, options), options),
{
    broadcast use vstd::seq_lib::group_to_multiset_ensures;

    let by_time = options.sort_by_time;
    let base = if options.dirs_first {
        sort_group(directories_of(s), by_time) + sort_group(others_of(s), by_time)
    } else {
        sort_group(s, by_time)
    };
    let r = sort_policy(s, options);
    if options.reverse {
        base.lemma_reverse_to_multiset();
        assert(r.reverse() =~= base);
    }
    assert(forward(r, options) == base);
    if options.dirs_first {
        let sd = sort_group(directories_of(s), by_time);
        let so = sort_group(others_of(s), by_time);
        lemma_sort_group_permutes(directories_of(s), by_time);
        lemma_sort_group_permutes(others_of(s), by_time);
        lemma_sort_group_ordered(directories_of(s), by_time);
        lemma_sort_group_ordered(others_of(s), by_time);
        lemma_split_permutes(s);
        vstd::seq_lib::lemma_multiset_commutative(sd, so);
        vstd::seq_lib::lemma_multiset_commutative(directories_of(s), others_of(s));
        assert(base.to_multiset() =~= s.to_multiset());
        assert forall|i: int| 0 <= i < base.len() implies (#[trigger] base[i]).is_dir() == (i
            < sd.len()) by {
            if i < sd.len() {
                lemma_sorted_members(s, by_time, is_directory_entry(), i);
            } else {
                lemma_sorted_members(s, by_time, is_other_entry(), i - sd.len());
            }
        }
        assert forall|i: int, j: int|
            0 <= i < j < base.len() && base[i].is_dir() == base[j].is_dir() implies entry_le(
            base[i],
            base[j],
            by_time,
        ) by {
            if j < sd.len() {
                assert(base[i] == sd[i] && base[j] == sd[j]);
            } else {
                assert(base[i] == so[i - sd.len()] && base[j] == so[j - sd.len()]);
            }
        }
    } else {
        lemma_sort_group_permutes(s, by_time);
        lemma_sort_group_ordered(s, by_time);
    }
    assert(r.len() == s.len()) by {
        assert(r.to_multiset().len() == s.to_multiset().len());
    }
}

/// Entries of `s` that bear the same name are the same entry.
pub open spec fn names_identify(s: Seq<EntryView>) -> bool {
    forall|i: int, j: int|
        0 <= i < s.len() && 0 <= j < s.len() && (#[trigger] s[i]).name == (#[trigger] s[j]).name
            ==> s[i] == s[j]
}

proof fn lemma_filter_count(s: Seq<EntryView>, pred: spec_fn(EntryView) -> bool, e: EntryView)
    ensures
        s.filter(pred).to_multiset().count(e) == if pred(e) {
            s.to_multiset().count(e)
        } else {
            0
        },
    decreases s.len(),
{
    broadcast use vstd::seq_lib::group_to_multiset_ensures;

    if s.len() == 0 {
        reveal(Seq::filter);
        assert(s.filter(pred) =~= s);
        assert(s.to_multiset().count(e) == 0) by {
            if s.to_multiset().count(e) > 0 {
                assert(s.contains(e));
            }
        }
    } else {
        let t = s.drop_last();
        let x = s.last();
        lemma_filter_count(t, pred, e);
        assert(s =~= t.push(x));
        t.lemma_filter_push(x, pred);
        assert(s.to_multiset() =~= t.to_multiset().insert(x));
        if pred(x) {
            assert(s.filter(pred).to_multiset() =~= t.filter(pred).to_multiset().insert(x));
        }
    }
}

/// Filtering two lists that hold the same entries leaves lists that hold the
/// same entries.
pub proof fn lemma_filter_permutes(
    a: Seq<EntryView>,
    b: Seq<EntryView>,
    pred: spec_fn(EntryView) -> bool,
)
    requires
        a.to_multiset() == b.to_multiset(),
    ensures
        a.filter(pred).to_multiset() == b.filter(pred).to_multiset(),
{
    assert forall|e: EntryView|
        a.filter(pred).to_multiset().count(e) == b.filter(pred).to_multiset().count(e) by {
        lemma_filter_count(a, pred, e);
        lemma_filter_count(b, pred, e);
    }
    assert(a.filter(pred).to_multiset() =~= b.filter(pred).to_multiset());
}

/// Filtering keeps the names telling the entries apart.
pub proof fn lemma_filter_names(s: Seq<EntryView>, pred: spec_fn(EntryView) -> bool)
    requires
        names_identify(s),
    ensures
        names_identify(s.filter(pred)),
{
    broadcast use vstd::seq_lib::group_to_multiset_ensures;

    let f = s.filter(pred);
    assert forall|i: int, j: int|
        0 <= i < f.len() && 0 <= j < f.len() && (#[trigger] f[i]).name == (#[trigger] f[j]).name
        implies f[i] == f[j] by {
        s.lemma_filter_contains_rev(pred, f[i]);
        s.lemma_filter_contains_rev(pred, f[j]);
        assert(f.contains(f[i]) && f.contains(f[j]));
        let a = choose|a: int| 0 <= a < s.len() && s[a] == f[i];
        let b = choose|b: int| 0 <= b < s.len() && s[b] == f[j];
        assert(s[a].name == s[b].name);
    }
}

/// Two lists in order that hold the same entries, of which no two different
/// ones bear the same name, are the same list.
pub proof fn lemma_ordered_unique(x: Seq<EntryView>, y: Seq<EntryView>, by_time: bool)
    requires
        ordered(x, by_time),
        ordered(y, by_time),
        x.to_multiset() == y.to_multiset(),
        names_identify(x),
    ensures
        x == y,
    decreases x.len(),
{
    broadcast use vstd::seq_lib::group_to_multiset_ensures;

    assert(x.len() == y.len()) by {
        x.to_multiset_ensures();
        y.to_multiset_ensures();
    }
    if x.len() > 0 {
        assert(y.contains(y[0]));
        assert(x.to_multiset().count(y[0]) > 0);
        assert(x.contains(y[0]));
        let i = choose|i: int| 0 <= i < x.len() && x[i] == y[0];
        assert(x.contains(x[0]));
        assert(y.to_multiset().count(x[0]) > 0);
        assert(y.contains(x[0]));
        let j = choose|j: int| 0 <= j < y.len() && y[j] == x[0];
        if i != 0 && j != 0 {
            assert(entry_le(x[0], x[i], by_time));
            assert(entry_le(y[0], y[j], by_time));
            lemma_entry_le_antisymmetric(x[0], y[0], by_time);
            assert(x[0].name == x[i].name);
        }
        assert(x[0] == y[0]);
        let xs = x.drop_first();
        let ys = y.drop_first();
        assert(xs.to_multiset() =~= x.to_multiset().remove(x[0])) by {
            assert(xs =~= x.remove(0));
        }
        assert(ys.to_multiset() =~= y.to_multiset().remove(y[0])) by {
            assert(ys =~= y.remove(0));
        }
        assert forall|a: int, b: int| 0 <= a < b < xs.len() implies entry_le(xs[a], xs[b], by_time) by {
            assert(xs[a] == x[a + 1] && xs[b] == x[b + 1]);
        }
        assert forall|a: int, b: int| 0 <= a < b < ys.len() implies entry_le(ys[a], ys[b], by_time) by {
            assert(ys[a] == y[a + 1] && ys[b] == y[b + 1]);
        }
        assert forall|a: int, b: int|
            0 <= a < xs.len() && 0 <= b < xs.len() && (#[trigger] xs[a]).name == (
            #[trigger] xs[b]).name implies xs[a] == xs[b] by {
            assert(xs[a] == x[a + 1] && xs[b] == x[b + 1]);
        }
        lemma_ordered_unique(xs, ys, by_time);
        assert(x =~= seq![x[0]] + xs);
        assert(y =~= seq![y[0]] + ys);
    }
}

proof fn lemma_names_of_permutation(a: Seq<EntryView>, b: Seq<EntryView>)
    requires
        a.to_multiset() == b.to_multiset(),
        names_identify(a),
    ensures
        names_identify(b),
{
    broadcast use vstd::seq_lib::group_to_multiset_ensures;

    assert forall|i: int, j: int|
        0 <= i < b.len() && 0 <= j < b.len() && (#[trigger] b[i]).name == (#[trigger] b[j]).name
        implies b[i] == b[j] by {
        assert(b.contains(b[i]) && b.contains(b[j]));
        assert(a.to_multiset().count(b[i]) > 0 && a.to_multiset().count(b[j]) > 0);
        assert(a.contains(b[i]) && a.contains(b[j]));
        let x = choose|x: int| 0 <= x < a.len() && a[x] == b[i];
        let y = choose|y: int| 0 <= y < a.len() && a[y] == b[j];
        assert(a[x].name == a[y].name);
    }
}

proof fn lemma_sort_group_unique(a: Seq<EntryView>, b: Seq<EntryView>, by_time: bool)
    requires
        a.to_multiset() == b.to_multiset(),
        names_identify(a),
    ensures
        sort_group(a, by_time) == sort_group(b, by_time),
{
    lemma_sort_group_permutes(a, by_time);
    lemma_sort_group_permutes(b, by_time);
    lemma_sort_group_ordered(a, by_time);
    lemma_sort_group_ordered(b, by_time);
    lemma_names_of_permutation(a, sort_group(a, by_time));
    lemma_ordered_unique(sort_group(a, by_time), sort_group(b, by_time), by_time);
}

/// The sort policy does not go by the order in which the entries come in:
/// two lists that hold the same entries, of which no two different ones bear
/// the same name, are put in the same order.
pub proof fn lemma_sort_policy_unique(a: Seq<EntryView>, b: Seq<EntryView>, options: TreeOptions)
    requires
        a.to_multiset() == b.to_multiset(),
        names_identify(a),
    ensures
        sort_policy(a, options) == sort_policy(b, options),
{
    let by_time = options.sort_by_time;
    if options.dirs_first {
        lemma_filter_permutes(a, b, is_directory_entry());
        lemma_filter_permutes(a, b, is_other_entry());
        lemma_filter_names(a, is_directory_entry());
        lemma_filter_names(a, is_other_entry());
        lemma_sort_group_unique(directories_of(a), directories_of(b), by_time);
        lemma_sort_group_unique(others_of(a), others_of(b), by_time);
    } else {
        lemma_sort_group_unique(a, b, by_time);
    }
}

/// Sort correctness for the order that is not reversed. Sorted by time, the
/// entries that are sorted together stand in the order of their times, and
/// in the byte-wise order of their names where the times are equal. With
/// directories first, every directory stands before every other entry.
pub proof fn lemma_sort_correct(s: Seq<EntryView>, options: TreeOptions)
    requires
        !options.reverse,
    ensures
        options.dirs_first ==> forall|i: int, j: int|
            0 <= i < j < s.len() && sort_policy(s, options)[j].is_dir() ==> sort_policy(
                s,
                options,
            )[i].is_dir(),
        options.sort_by_time ==> forall|i: int, j: int|
            0 <= i < j < s.len() && (options.dirs_first ==> sort_policy(s, options)[i].is_dir()
                == sort_policy(s, options)[j].is_dir()) ==> {
                let a = sort_policy(s, options)[i];
                let b = sort_policy(s, options)[j];
                time_before(a, b) || (time_key(a) == time_key(b) && bytes_le(
                    name_key(a),
                    name_key(b),
                ))
            },
{
    lemma_sort_policy(s, options);
    let r = sort_policy(s, options);
    assert(forward(r, options) == r);
    if options.sort_by_time {
        assert forall|i: int, j: int|
            0 <= i < j < s.len() && (options.dirs_first ==> r[i].is_dir() == r[j].is_dir())
            implies time_before(r[i], r[j]) || (time_key(r[i]) == time_key(r[j]) && bytes_le(
            name_key(r[i]),
            name_key(r[j]),
        )) by {
            assert(entry_le(r[i], r[j], true));
        }
    }
}

fn split_entries(entries: &Vec<Entry>) -> (parts: (Vec<Entry>, Vec<Entry>))
    ensures
        entry_views(parts.0@) == directories_of(entry_views(entries@)),
        entry_views(parts.1@) == others_of(entry_views(entries@)),
{
    let ghost all = entry_views(entries@);
    let mut dirs: Vec<Entry> = Vec::new();
    let mut others: Vec<Entry> = Vec::new();
    let mut i: usize = 0;
    proof {
        reveal(Seq::filter);
        assert(all.subrange(0, 0) =~= Seq::<EntryView>::empty());
        assert(entry_views(dirs@) =~= Seq::<EntryView>::empty());
        assert(entry_views(others@) =~= Seq::<EntryView>::empty());
    }
    while i < entries.len()
        invariant
            0 <= i <= entries.len(),
            all == entry_views(entries@),
            entry_views(dirs@) == directories_of(all.subrange(0, i as int)),
            entry_views(others@) == others_of(all.subrange(0, i as int)),
        decreases entries.len() - i,
    {
        let e = entries[i].duplicate();
        let ghost dirs_before = entry_views(dirs@);
        let ghost others_before = entry_views(others@);
        proof {
            let t = all.subrange(0, i as int);
            assert(all.subrange(0, i + 1) =~= t.push(e@));
            t.lemma_filter_push(e@, is_directory_entry());
            t.lemma_filter_push(e@, is_other_entry());
        }
        if e.is_directory() {
            dirs.push(e);
            assert(entry_views(dirs@) =~= dirs_before.push(e@));
        } else {
            others.push(e);
            assert(entry_views(others@) =~= others_before.push(e@));
        }
        i += 1;
    }
    assert(all.subrange(0, all.len() as int) =~= all);
    (dirs, others)
}

fn reversed_entries(entries: &Vec<Entry>) -> (r: Vec<Entry>)
    ensures
        entry_views(r@) == entry_views(entries@).reverse(),
{
    let mut r: Vec<Entry> = Vec::new();
    let mut n: usize = entries.len();
    while n > 0
        invariant
            0 <= n <= entries.len(),
            r.len() == entries.len() - n,
            forall|k: int| 0 <= k < r.len() ==> r@[k]@ == entries@[entries.len() - 1 - k]@,
        decreases n,
    {
        r.push(entries[n - 1].duplicate());
        n -= 1;
    }
    assert(entry_views(r@) =~= entry_views(entries@).reverse());
    r
}

fn append_entries(front: &mut Vec<Entry>, back: &Vec<Entry>)
    ensures
        entry_views(final(front)@) == entry_views(old(front)@) + entry_views(back@),
{
    let mut i: usize = 0;
    assert(entry_views(front@) =~= entry_views(old(front)@) + entry_views(back@).subrange(0, 0));
    while i < back.len()
        invariant
            0 <= i <= back.len(),
            entry_views(front@) == entry_views(old(front)@) + entry_views(back@).subrange(
                0,
                i as int,
            ),
        decreases back.len() - i,
    {
        let ghost before = entry_views(front@);
        let e = back[i].duplicate();
        front.push(e);
        i += 1;
        assert(entry_views(front@) =~= before.push(e@));
        assert(entry_views(front@) =~= entry_views(old(front)@) + entry_views(back@).subrange(
            0,
            i as int,
        ));
    }
    assert(entry_views(back@).subrange(0, back.len() as int) =~= entry_views(back@));
}

/// Puts the entries of one directory in the order in which they are shown.
pub fn sort_entries(entries: &Vec<Entry>, options: &TreeOptions) -> (sorted: Vec<Entry>)
    ensures
        entry_views(sorted@) == sort_policy(entry_views(entries@), *options),
        entry_views(sorted@).to_multiset() == entry_views(entries@).to_multiset(),
        sorted.len() == entries.len(),
        policy_ordered(entry_views(sorted@), *options),
{
    proof {
        lemma_sort_policy(entry_views(entries@), *options);
    }
    let base = if options.dirs_first {
        let (dirs, others) = split_entries(entries);
        let mut front = sort_entries_group(&dirs, options.sort_by_time);
        let back = sort_entries_group(&others, options.sort_by_time);
        append_entries(&mut front, &back);
        front
    } else {
        sort_entries_group(entries, options.sort_by_time)
    };
    if options.reverse {
        reversed_entries(&base)
    } else {
        base
    }
}

} // verus!
