//! Safe ordering of in-place text edits.
//!
//! Inserting or replacing text shifts every later offset, so a batch of
//! edits at byte ranges is applied from the highest offset down to the
//! lowest: an edit never invalidates an offset that is still waiting.
//! This module supplies the ordering half of that discipline — ranges are
//! deduplicated by `(start, end)` and sorted by end offset descending —
//! as a reusable primitive for every rewriting pass.

use vstd::prelude::*;

verus! {

/// The mathematical ranges of a vector of `(start, end)` pairs.
pub open spec fn range_views(v: Seq<(usize, usize)>) -> Seq<(int, int)> {
    v.map_values(|p: (usize, usize)| (p.0 as int, p.1 as int))
}

/// The first `i` elements of `s` with repeated ranges dropped (first
/// occurrence kept).
pub open spec fn dedup_prefix(s: Seq<(int, int)>, i: int) -> Seq<(int, int)>
    decreases i,
{
    if i <= 0 {
        Seq::empty()
    } else {
        let pre = dedup_prefix(s, i - 1);
        if s.subrange(0, i - 1).contains(s[i - 1]) {
            pre
        } else {
            pre.push(s[i - 1])
        }
    }
}

/// `s` with repeated ranges dropped.
pub open spec fn dedup_ranges(s: Seq<(int, int)>) -> Seq<(int, int)> {
    dedup_prefix(s, s.len() as int)
}

/// `x` inserted into `s` behind every element whose end offset is at
/// least `x`'s: insertion into a descending list keeps it descending and
/// keeps the order of equal ends stable.
pub open spec fn insert_desc(s: Seq<(int, int)>, x: (int, int)) -> Seq<(int, int)>
    decreases s.len(),
{
    if s.len() == 0 {
        seq![x]
    } else if s[0].1 >= x.1 {
        seq![s[0]] + insert_desc(s.drop_first(), x)
    } else {
        seq![x] + s
    }
}

/// `s` sorted by end offset descending (stable insertion sort).
pub open spec fn sort_by_end_desc(s: Seq<(int, int)>) -> Seq<(int, int)>
    decreases s.len(),
{
    if s.len() == 0 {
        Seq::empty()
    } else {
        insert_desc(sort_by_end_desc(s.drop_last()), s.last())
    }
}

/// The full ordering step: deduplicate, then sort by end descending.
pub open spec fn edit_order(s: Seq<(int, int)>) -> Seq<(int, int)> {
    sort_by_end_desc(dedup_ranges(s))
}

/// Every end offset in a sorted sequence dominates the ends after it.
pub open spec fn ends_descending(s: Seq<(int, int)>) -> bool {
    forall|i: int, j: int| 0 <= i <= j < s.len() ==> s[i].1 >= s[j].1
}

/// Inserting keeps a descending sequence descending, lengthens it by one,
/// and adds no element beyond `x` and those of `s`.
pub proof fn lemma_insert_desc_sorted(s: Seq<(int, int)>, x: (int, int))
    requires
        ends_descending(s),
    ensures
        ends_descending(insert_desc(s, x)),
        insert_desc(s, x).len() == s.len() + 1,
        forall|j: int|
            0 <= j < insert_desc(s, x).len() ==> insert_desc(s, x)[j] == x || s.contains(
                insert_desc(s, x)[j],
            ),
    decreases s.len(),
{
    let r = insert_desc(s, x);
    if s.len() == 0 {
    } else if s[0].1 >= x.1 {
        let rest = s.drop_first();
        assert(ends_descending(rest)) by {
            assert(forall|i: int, j: int|
                0 <= i <= j < rest.len() ==> rest[i] == s[i + 1] && rest[j] == s[j + 1]);
        }
        lemma_insert_desc_sorted(rest, x);
        let inner = insert_desc(rest, x);
        assert forall|j: int| 0 <= j < r.len() implies (r[j] == x || s.contains(r[j])) by {
            if j == 0 {
                assert(r[0] == s[0]);
                assert(s.contains(s[0]));
            } else {
                assert(r[j] == inner[j - 1]);
                if inner[j - 1] != x {
                    assert(rest.contains(inner[j - 1]));
                    let k = choose|k: int| 0 <= k < rest.len() && rest[k] == inner[j - 1];
                    assert(s[k + 1] == inner[j - 1]);
                    assert(s.contains(inner[j - 1]));
                }
            }
        }
        assert forall|j: int| 0 <= j < r.len() implies s[0].1 >= r[j].1 by {
            if j > 0 {
                if inner[j - 1] != x {
                    assert(rest.contains(inner[j - 1]));
                    let k = choose|k: int| 0 <= k < rest.len() && rest[k] == inner[j - 1];
                    assert(s[k + 1] == inner[j - 1]);
                }
            }
        }
        assert(ends_descending(r)) by {
            assert(forall|i: int, j: int|
                1 <= i <= j < r.len() ==> r[i] == inner[i - 1] && r[j] == inner[j - 1]);
        }
    } else {
        assert forall|j: int| 0 <= j < r.len() implies (r[j] == x || s.contains(r[j])) by {
            if j > 0 {
                assert(r[j] == s[j - 1]);
                assert(s.contains(s[j - 1]));
            }
        }
        assert(ends_descending(r)) by {
            assert(forall|i: int, j: int|
                1 <= i <= j < r.len() ==> r[i] == s[i - 1] && r[j] == s[j - 1]);
            assert(forall|j: int| 1 <= j < r.len() ==> x.1 >= #[trigger] s[j - 1].1);
        }
    }
}

/// Deduplication of a list without repeats is the identity.
pub proof fn lemma_dedup_identity(s: Seq<(int, int)>)
    requires
        forall|a: int, b: int| 0 <= a < b < s.len() ==> s[a] != s[b],
    ensures
        dedup_ranges(s) == s,
{
    lemma_dedup_prefix_identity(s, s.len() as int);
    assert(s.subrange(0, s.len() as int) =~= s);
}

proof fn lemma_dedup_prefix_identity(s: Seq<(int, int)>, i: int)
    requires
        0 <= i <= s.len(),
        forall|a: int, b: int| 0 <= a < b < s.len() ==> s[a] != s[b],
    ensures
        dedup_prefix(s, i) == s.subrange(0, i),
    decreases i,
{
    if i > 0 {
        lemma_dedup_prefix_identity(s, i - 1);
        assert(!s.subrange(0, i - 1).contains(s[i - 1])) by {
            assert(forall|k: int| 0 <= k < i - 1 ==> s.subrange(0, i - 1)[k] == s[k]);
        }
        assert(dedup_prefix(s, i) =~= s.subrange(0, i));
    } else {
        assert(dedup_prefix(s, i) =~= s.subrange(0, 0));
    }
}

/// Sorting reorders the list without inventing ranges.
pub proof fn lemma_sort_desc_membership(s: Seq<(int, int)>)
    ensures
        sort_by_end_desc(s).len() == s.len(),
        forall|j: int|
            0 <= j < sort_by_end_desc(s).len() ==> s.contains(#[trigger] sort_by_end_desc(s)[j]),
    decreases s.len(),
{
    if s.len() > 0 {
        let pre = s.drop_last();
        lemma_sort_desc_membership(pre);
        lemma_sort_by_end_desc_sorted(pre);
        lemma_insert_desc_sorted(sort_by_end_desc(pre), s.last());
        let r = sort_by_end_desc(s);
        assert forall|j: int| 0 <= j < r.len() implies s.contains(#[trigger] r[j]) by {
            if r[j] == s.last() {
                assert(s[s.len() - 1] == s.last());
            } else {
                assert(sort_by_end_desc(pre).contains(r[j]));
                let k = choose|k: int|
                    0 <= k < sort_by_end_desc(pre).len() && sort_by_end_desc(pre)[k] == r[j];
                assert(pre.contains(sort_by_end_desc(pre)[k]));
                let k2 = choose|k2: int| 0 <= k2 < pre.len() && pre[k2] == r[j];
                assert(s[k2] == r[j]);
            }
        }
    }
}

/// A fully ordered edit list is descending by end offset.
pub proof fn lemma_sort_by_end_desc_sorted(s: Seq<(int, int)>)
    ensures
        ends_descending(sort_by_end_desc(s)),
    decreases s.len(),
{
    if s.len() > 0 {
        lemma_sort_by_end_desc_sorted(s.drop_last());
        lemma_insert_desc_sorted(sort_by_end_desc(s.drop_last()), s.last());
    }
}

/// Decides membership of a range in a vector of ranges.
pub fn range_in(v: &Vec<(usize, usize)>, r: (usize, usize)) -> (b: bool)
    ensures
        b == range_views(v@).contains((r.0 as int, r.1 as int)),
{
    let mut i: usize = 0;
    while i < v.len()
        invariant
            i <= v.len(),
            forall|k: int| 0 <= k < i ==> range_views(v@)[k] != (r.0 as int, r.1 as int),
        decreases v.len() - i,
    {
        if v[i].0 == r.0 && v[i].1 == r.1 {
            proof {
                assert(range_views(v@)[i as int] == (r.0 as int, r.1 as int));
            }
            return true;
        }
        i = i + 1;
    }
    false
}

/// Drops repeated ranges, keeping first occurrences in order.
pub fn dedup_exec(v: &Vec<(usize, usize)>) -> (r: Vec<(usize, usize)>)
    ensures
        range_views(r@) == dedup_ranges(range_views(v@)),
{
    let mut out: Vec<(usize, usize)> = Vec::new();
    let mut i: usize = 0;
    while i < v.len()
        invariant
            i <= v.len(),
            range_views(out@) == dedup_prefix(range_views(v@), i as int),
            forall|x: (int, int)|
                range_views(out@).contains(x) <==> range_views(v@).subrange(0, i as int).contains(
                    x,
                ),
        decreases v.len() - i,
    {
        let ghost pre = range_views(out@);
        let ghost vv = range_views(v@);
        let ghost sub0 = vv.subrange(0, i as int);
        let ghost sub1 = vv.subrange(0, (i + 1) as int);
        proof {
            assert(sub0 =~= sub1.subrange(0, i as int));
            assert(sub1[i as int] == vv[i as int]);
            assert forall|x: (int, int)| sub1.contains(x) implies (sub0.contains(x) || x
                == vv[i as int]) by {
                let k = choose|k: int| 0 <= k < sub1.len() && sub1[k] == x;
                if k < i {
                    assert(sub0[k] == x);
                }
            }
            assert forall|x: (int, int)| sub0.contains(x) implies sub1.contains(x) by {
                let k = choose|k: int| 0 <= k < sub0.len() && sub0[k] == x;
                assert(sub1[k] == x);
            }
            assert(sub1.contains(vv[i as int]));
        }
        if !range_in(&out, v[i]) {
            out.push(v[i]);
            proof {
                let cur = range_views(out@);
                assert(cur =~= pre.push(vv[i as int]));
                assert forall|x: (int, int)| cur.contains(x) implies (pre.contains(x) || x
                    == vv[i as int]) by {
                    let k = choose|k: int| 0 <= k < cur.len() && cur[k] == x;
                    if k < pre.len() {
                        assert(pre[k] == x);
                    }
                }
                assert forall|x: (int, int)| pre.contains(x) implies cur.contains(x) by {
                    let k = choose|k: int| 0 <= k < pre.len() && pre[k] == x;
                    assert(cur[k] == x);
                }
                assert(cur.contains(vv[i as int])) by {
                    assert(cur[cur.len() - 1] == vv[i as int]);
                }
            }
        }
        i = i + 1;
    }
    proof {
        assert(range_views(v@).subrange(0, v@.len() as int) =~= range_views(v@));
    }
    out
}

/// Sorts ranges by end offset descending (stable).
pub fn sort_desc_exec(v: &Vec<(usize, usize)>) -> (r: Vec<(usize, usize)>)
    ensures
        range_views(r@) == sort_by_end_desc(range_views(v@)),
{
    let mut out: Vec<(usize, usize)> = Vec::new();
    let mut i: usize = 0;
    while i < v.len()
        invariant
            i <= v.len(),
            range_views(out@) == sort_by_end_desc(range_views(v@).subrange(0, i as int)),
        decreases v.len() - i,
    {
        let ghost pre = range_views(out@);
        let ghost vv = range_views(v@);
        let x = v[i];
        let mut j: usize = 0;
        while j < out.len() && out[j].1 >= x.1
            invariant
                j <= out.len(),
                forall|k: int| 0 <= k < j ==> range_views(out@)[k].1 >= x.1 as int,
                range_views(out@) == pre,
            decreases out.len() - j,
        {
            j = j + 1;
        }
        out.insert(j, x);
        proof {
            assert(range_views(out@) =~= pre.insert(j as int, (x.0 as int, x.1 as int)));
            lemma_insert_desc_split(pre, (x.0 as int, x.1 as int), j as int);
            assert(vv.subrange(0, (i + 1) as int).drop_last() =~= vv.subrange(0, i as int));
            assert(vv.subrange(0, (i + 1) as int).last() == vv[i as int]);
        }
        i = i + 1;
    }
    proof {
        assert(range_views(v@).subrange(0, v@.len() as int) =~= range_views(v@));
    }
    out
}

/// Where `insert_desc` puts the new element: right after the longest
/// prefix whose ends dominate it.
pub proof fn lemma_insert_desc_split(s: Seq<(int, int)>, x: (int, int), j: int)
    requires
        0 <= j <= s.len(),
        forall|k: int| 0 <= k < j ==> s[k].1 >= x.1,
        j < s.len() ==> s[j].1 < x.1,
    ensures
        insert_desc(s, x) == s.insert(j, x),
    decreases s.len(),
{
    if s.len() == 0 {
        assert(insert_desc(s, x) =~= s.insert(0, x));
    } else if j == 0 {
        assert(s[0].1 < x.1);
        assert(insert_desc(s, x) =~= s.insert(0, x));
    } else {
        let rest = s.drop_first();
        assert(s[0].1 >= x.1);
        lemma_insert_desc_split(rest, x, j - 1);
        assert(seq![s[0]] + insert_desc(rest, x) =~= s.insert(j, x));
    }
}

} // verus!
