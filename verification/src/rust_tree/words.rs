//! Splitting a line into fields and putting fields together again.

use vstd::prelude::*;
use crate::rust_tree::text::{is_whitespace, whitespace_check, slice_of, push_all};

verus! {

/// The first position at or after `i` that holds no white space, or the length.
pub open spec fn skip_space(s: Seq<char>, i: int) -> int
    decreases s.len() - i,
{
    if 0 <= i < s.len() && is_whitespace(s[i]) {
        skip_space(s, i + 1)
    } else {
        i
    }
}

/// The end of the white space that ends just before `j`, going backwards.
pub open spec fn skip_space_back(s: Seq<char>, j: int) -> int
    decreases j,
{
    if 0 < j <= s.len() && is_whitespace(s[j - 1]) {
        skip_space_back(s, j - 1)
    } else {
        j
    }
}

/// `s` without the white space at its two ends.
pub open spec fn trim(s: Seq<char>) -> Seq<char> {
    let a = skip_space(s, 0);
    let b = skip_space_back(s, s.len() as int);
    if a < b {
        s.subrange(a, b)
    } else {
        Seq::empty()
    }
}

/// Removes the white space at both ends.
pub fn trim_chars(s: &Vec<char>) -> (r: Vec<char>)
    ensures
        r@ == trim(s@),
{
    let mut a: usize = 0;
    while a < s.len() && whitespace_check(s[a])
        invariant
            0 <= a <= s.len(),
            skip_space(s@, 0) == skip_space(s@, a as int),
        decreases s.len() - a,
    {
        a += 1;
    }
    let mut b: usize = s.len();
    while b > 0 && whitespace_check(s[b - 1])
        invariant
            0 <= b <= s.len(),
            skip_space_back(s@, s.len() as int) == skip_space_back(s@, b as int),
        decreases b,
    {
        b -= 1;
    }
    if a < b {
        slice_of(s, a, b)
    } else {
        Vec::new()
    }
}

/// The end of the word that begins at `i`: the next white space, or the length.
pub open spec fn word_end(s: Seq<char>, i: int) -> int
    decreases s.len() - i,
{
    if 0 <= i < s.len() && !is_whitespace(s[i]) {
        word_end(s, i + 1)
    } else {
        i
    }
}

/// A word ends between its beginning and the end of the text, and beyond
/// its beginning if it begins with a character that is no white space.
pub proof fn lemma_word_end_bounds(s: Seq<char>, i: int)
    requires
        0 <= i <= s.len(),
    ensures
        i <= word_end(s, i) <= s.len(),
        i < s.len() && !is_whitespace(s[i]) ==> i < word_end(s, i),
    decreases s.len() - i,
{
    if i < s.len() && !is_whitespace(s[i]) {
        lemma_word_end_bounds(s, i + 1);
    }
}

/// The fields of `s` from position `i` on: the maximal runs of characters
/// that are no white space, in order.
pub open spec fn fields_from(s: Seq<char>, i: int) -> Seq<Seq<char>>
    decreases s.len() - i,
{
    if 0 <= i < s.len() {
        if is_whitespace(s[i]) {
            fields_from(s, i + 1)
        } else {
            let j = word_end(s, i);
            if i < j <= s.len() {
                seq![s.subrange(i, j)] + fields_from(s, j)
            } else {
                Seq::empty()
            }
        }
    } else {
        Seq::empty()
    }
}

/// The fields of `s`, separated by white space.
pub open spec fn fields(s: Seq<char>) -> Seq<Seq<char>> {
    fields_from(s, 0)
}

/// The character sequences that the vectors hold.
pub open spec fn views(v: Seq<Vec<char>>) -> Seq<Seq<char>> {
    Seq::new(v.len(), |i: int| v[i]@)
}

/// Splits a line into its fields.
pub fn split_fields(s: &Vec<char>) -> (r: Vec<Vec<char>>)
    ensures
        views(r@) == fields(s@),
{
    let mut r: Vec<Vec<char>> = Vec::new();
    let mut i: usize = 0;
    assert(views(r@) =~= Seq::<Seq<char>>::empty());
    while i < s.len()
        invariant
            0 <= i <= s.len(),
            fields(s@) == views(r@) + fields_from(s@, i as int),
        decreases s.len() - i,
    {
        if whitespace_check(s[i]) {
            i += 1;
        } else {
            let mut j: usize = i;
            while j < s.len() && !whitespace_check(s[j])
                invariant
                    i <= j <= s.len(),
                    word_end(s@, i as int) == word_end(s@, j as int),
                decreases s.len() - j,
            {
                j += 1;
            }
            proof {
                lemma_word_end_bounds(s@, i as int);
            }
            let word = slice_of(s, i, j);
            let ghost before = views(r@);
            r.push(word);
            assert(views(r@) =~= before + seq![s@.subrange(i as int, j as int)]);
            assert(fields(s@) =~= views(r@) + fields_from(s@, j as int));
            i = j;
        }
    }
    assert(views(r@) + Seq::<Seq<char>>::empty() =~= views(r@));
    r
}

/// The fields `parts[from..to]` with one space between neighbours.
pub open spec fn join_range(parts: Seq<Seq<char>>, from: int, to: int) -> Seq<char>
    decreases to - from,
{
    if to <= from || from < 0 || to > parts.len() {
        Seq::empty()
    } else if to == from + 1 {
        parts[from]
    } else {
        join_range(parts, from, to - 1).push(' ') + parts[to - 1]
    }
}

/// The fields from `from` on, with one space between neighbours.
pub open spec fn join_from(parts: Seq<Seq<char>>, from: int) -> Seq<char> {
    join_range(parts, from, parts.len() as int)
}

/// Joins the fields from `from` on with single spaces.
pub fn join_fields(parts: &Vec<Vec<char>>, from: usize) -> (r: Vec<char>)
    ensures
        r@ == join_from(views(parts@), from as int),
{
    let mut r: Vec<char> = Vec::new();
    if from >= parts.len() {
        return r;
    }
    let ghost p = views(parts@);
    push_all(&mut r, &parts[from]);
    assert(r@ =~= p[from as int]);
    let mut k: usize = from + 1;
    while k < parts.len()
        invariant
            from < k <= parts.len(),
            p == views(parts@),
            r@ == join_range(p, from as int, k as int),
        decreases parts.len() - k,
    {
        r.push(' ');
        push_all(&mut r, &parts[k]);
        k += 1;
    }
    r
}

/// The position of the last `c` in `s` before `end`, or -1.
pub open spec fn last_index_before(s: Seq<char>, c: char, end: int) -> int
    decreases end,
{
    if end <= 0 || end > s.len() {
        -1
    } else if s[end - 1] == c {
        end - 1
    } else {
        last_index_before(s, c, end - 1)
    }
}

/// The position of the last `c` in `s`, or -1 if there is none.
pub open spec fn last_index_of(s: Seq<char>, c: char) -> int {
    last_index_before(s, c, s.len() as int)
}

/// The last position lies before `end`, holds the character if there is
/// one, and no place behind it does.
pub proof fn lemma_last_index(s: Seq<char>, c: char, end: int)
    requires
        0 <= end <= s.len(),
    ensures
        -1 <= last_index_before(s, c, end) < end,
        last_index_before(s, c, end) >= 0 ==> s[last_index_before(s, c, end)] == c,
        forall|k: int| last_index_before(s, c, end) < k < end ==> s[k] != c,
    decreases end,
{
    if end > 0 && s[end - 1] != c {
        lemma_last_index(s, c, end - 1);
    }
}

/// Finds the last `c` in `s`.
pub fn find_last(s: &Vec<char>, c: char) -> (r: Option<usize>)
    ensures
        match r {
            Some(i) => i as int == last_index_of(s@, c) && i < s.len() && s@[i as int] == c,
            None => last_index_of(s@, c) == -1,
        },
{
    proof {
        lemma_last_index(s@, c, s.len() as int);
    }
    let mut end: usize = s.len();
    while end > 0
        invariant
            0 <= end <= s.len(),
            last_index_of(s@, c) == last_index_before(s@, c, end as int),
        decreases end,
    {
        if s[end - 1] == c {
            return Some(end - 1);
        }
        end -= 1;
    }
    None
}

/// `s` without the run of `c` at its end.
pub open spec fn strip_trailing(s: Seq<char>, c: char) -> Seq<char>
    decreases s.len(),
{
    if s.len() > 0 && s.last() == c {
        strip_trailing(s.drop_last(), c)
    } else {
        s
    }
}

/// Removes the run of `c` at the end.
pub fn strip_trailing_chars(s: &Vec<char>, c: char) -> (r: Vec<char>)
    ensures
        r@ == strip_trailing(s@, c),
{
    let mut end: usize = s.len();
    assert(s@.subrange(0, end as int) =~= s@);
    while end > 0 && s[end - 1] == c
        invariant
            0 <= end <= s.len(),
            strip_trailing(s@, c) == strip_trailing(s@.subrange(0, end as int), c),
        decreases end,
    {
        assert(s@.subrange(0, end as int).drop_last() =~= s@.subrange(0, end - 1));
        end -= 1;
    }
    slice_of(s, 0, end)
}

} // verus!
