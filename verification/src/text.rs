//! Plain-text primitives shared by every pass of the engine.
//!
//! A document is handled as a vector of characters, viewed in
//! specifications as a `Seq<char>`. This module defines the searching and
//! splicing operations that the scanning and rewriting passes are built on.

use vstd::prelude::*;
use vstd::string::StrSliceExecFns;

verus! {

/// Relies on std's `String::push`: appends one character at the end.
pub assume_specification[ String::push ](s: &mut String, ch: char)
    ensures
        final(s)@ == old(s)@.push(ch),
;

/// `pat` occurs in `s` starting exactly at index `i`.
pub open spec fn sub_at(s: Seq<char>, pat: Seq<char>, i: int) -> bool {
    0 <= i && i + pat.len() <= s.len() && s.subrange(i, i + pat.len() as int) == pat
}

/// First index `j >= from` with `s[j] == c`, if any.
pub open spec fn find_char_from(s: Seq<char>, c: char, from: int) -> Option<int>
    decreases s.len() - from,
{
    if from < 0 || from >= s.len() {
        None
    } else if s[from] == c {
        Some(from)
    } else {
        find_char_from(s, c, from + 1)
    }
}

/// First start index of an occurrence of `pat` lying entirely inside the
/// window `[from, to)` of `s`, if any.
pub open spec fn find_sub_in(s: Seq<char>, pat: Seq<char>, from: int, to: int) -> Option<int>
    decreases to - from,
{
    if from < 0 || to > s.len() || from + pat.len() > to {
        None
    } else if pat.len() == 0 || sub_at(s, pat, from) {
        Some(from)
    } else {
        find_sub_in(s, pat, from + 1, to)
    }
}

/// `pat` occurs somewhere in `s`.
pub open spec fn contains_sub(s: Seq<char>, pat: Seq<char>) -> bool {
    find_sub_in(s, pat, 0, s.len() as int) is Some
}

/// `s` with the span `[start, end)` replaced by `rep`; an insertion when
/// `start == end`.
pub open spec fn splice(s: Seq<char>, start: int, end: int, rep: Seq<char>) -> Seq<char>
    recommends
        0 <= start <= end <= s.len(),
{
    s.subrange(0, start) + rep + s.subrange(end, s.len() as int)
}

/// `s` from index `i` on, with every occurrence of `pat` (nonempty,
/// non-overlapping, scanned left to right) replaced by `rep`.
pub open spec fn replace_all_from(s: Seq<char>, pat: Seq<char>, rep: Seq<char>, i: int) -> Seq<
    char,
>
    decreases s.len() - i,
{
    if i < 0 || i >= s.len() {
        Seq::empty()
    } else if pat.len() > 0 && sub_at(s, pat, i) {
        rep + replace_all_from(s, pat, rep, i + pat.len() as int)
    } else {
        seq![s[i]] + replace_all_from(s, pat, rep, i + 1)
    }
}

/// The positions a successful `find_char_from` can report, and the absence
/// of the character before them.
pub proof fn lemma_find_char_from(s: Seq<char>, c: char, from: int)
    requires
        0 <= from,
    ensures
        match find_char_from(s, c, from) {
            Some(j) => from <= j < s.len() && s[j] == c,
            None => forall|k: int| from <= k < s.len() ==> s[k] != c,
        },
    decreases s.len() - from,
{
    if from < s.len() && s[from] != c {
        lemma_find_char_from(s, c, from + 1);
    }
}

/// The positions a successful `find_sub_in` can report.
pub proof fn lemma_find_sub_in(s: Seq<char>, pat: Seq<char>, from: int, to: int)
    requires
        0 <= from,
    ensures
        match find_sub_in(s, pat, from, to) {
            Some(j) => from <= j && j + pat.len() <= to <= s.len() && sub_at(s, pat, j),
            None => true,
        },
    decreases to - from,
{
    if pat.len() == 0 && 0 <= from && from + pat.len() <= to && to <= s.len() {
        assert(s.subrange(from, from + pat.len() as int) =~= pat);
    }
    if !(from < 0 || to > s.len() || from + pat.len() > to) && !sub_at(s, pat, from) {
        lemma_find_sub_in(s, pat, from + 1, to);
    }
}

/// Collects the characters of a string slice, one vector cell per character.
pub fn str_to_chars(s: &str) -> (r: Vec<char>)
    ensures
        r@ == s@,
{
    let n: usize = s.unicode_len();
    let mut r: Vec<char> = Vec::new();
    let mut i: usize = 0;
    while i < n
        invariant
            i <= n,
            n == s@.len(),
            r@ == s@.subrange(0, i as int),
        decreases n - i,
    {
        r.push(s.get_char(i));
        i = i + 1;
        proof {
            assert(r@ =~= s@.subrange(0, i as int));
        }
    }
    proof {
        assert(s@.subrange(0, n as int) =~= s@);
    }
    r
}

/// Builds a string out of a vector of characters.
pub fn chars_to_string(v: &Vec<char>) -> (r: String)
    ensures
        r@ == v@,
{
    let mut r: String = String::new();
    let mut i: usize = 0;
    while i < v.len()
        invariant
            i <= v.len(),
            r@ == v@.subrange(0, i as int),
        decreases v.len() - i,
    {
        r.push(v[i]);
        i = i + 1;
        proof {
            assert(r@ =~= v@.subrange(0, i as int));
        }
    }
    proof {
        assert(v@.subrange(0, v.len() as int) =~= v@);
    }
    r
}

/// Character-vector equality, decided cell by cell.
pub fn chars_eq(a: &Vec<char>, b: &Vec<char>) -> (r: bool)
    ensures
        r == (a@ == b@),
{
    if a.len() != b.len() {
        proof {
            assert(a@.len() != b@.len());
        }
        return false;
    }
    let mut i: usize = 0;
    while i < a.len()
        invariant
            i <= a.len(),
            a@.len() == b@.len(),
            forall|k: int| 0 <= k < i ==> a@[k] == b@[k],
        decreases a.len() - i,
    {
        if a[i] != b[i] {
            return false;
        }
        i = i + 1;
    }
    proof {
        assert(a@ =~= b@);
    }
    true
}

/// Decides `sub_at(s@, pat@, i)`.
pub fn match_at(s: &Vec<char>, pat: &Vec<char>, i: usize) -> (r: bool)
    ensures
        r == sub_at(s@, pat@, i as int),
{
    if i > s.len() || pat.len() > s.len() - i {
        proof {
            assert(!sub_at(s@, pat@, i as int));
        }
        return false;
    }
    let mut k: usize = 0;
    while k < pat.len()
        invariant
            k <= pat.len(),
            i + pat.len() <= s.len(),
            forall|m: int| 0 <= m < k ==> s@[i + m] == pat@[m],
        decreases pat.len() - k,
    {
        if s[i + k] != pat[k] {
            proof {
                assert(s@.subrange(i as int, i + pat@.len() as int)[k as int] != pat@[k as int]);
            }
            return false;
        }
        k = k + 1;
    }
    proof {
        assert(s@.subrange(i as int, i + pat@.len() as int) =~= pat@);
    }
    true
}

/// Finds the first occurrence of `c` in `s` at or after `from`.
pub fn find_char(s: &Vec<char>, c: char, from: usize) -> (r: Option<usize>)
    ensures
        match find_char_from(s@, c, from as int) {
            Some(j) => r == Some(j as usize),
            None => r is None,
        },
{
    let mut i: usize = from;
    while i < s.len()
        invariant
            from <= i,
            find_char_from(s@, c, from as int) == find_char_from(s@, c, i as int),
        decreases s.len() - i,
    {
        if s[i] == c {
            return Some(i);
        }
        i = i + 1;
    }
    None
}

/// Finds the first occurrence of `pat` inside the window `[from, to)`.
pub fn find_sub(s: &Vec<char>, pat: &Vec<char>, from: usize, to: usize) -> (r: Option<usize>)
    ensures
        match find_sub_in(s@, pat@, from as int, to as int) {
            Some(j) => r == Some(j as usize),
            None => r is None,
        },
{
    if to > s.len() || pat.len() > to {
        return None;
    }
    let limit: usize = to - pat.len();
    if from > limit {
        return None;
    }
    if pat.len() == 0 {
        proof {
            assert(sub_at(s@, pat@, from as int)) by {
                assert(s@.subrange(from as int, from as int) =~= pat@);
            }
        }
        return Some(from);
    }
    let mut i: usize = from;
    while i <= limit
        invariant
            from <= i <= limit + 1,
            limit + pat@.len() == to <= s@.len(),
            pat@.len() > 0,
            find_sub_in(s@, pat@, from as int, to as int) == find_sub_in(
                s@,
                pat@,
                i as int,
                to as int,
            ),
        decreases limit + 1 - i,
    {
        if match_at(s, pat, i) {
            return Some(i);
        }
        i = i + 1;
    }
    None
}

/// Decides `contains_sub(s@, pat@)`.
pub fn contains(s: &Vec<char>, pat: &Vec<char>) -> (r: bool)
    ensures
        r == contains_sub(s@, pat@),
{
    match find_sub(s, pat, 0, s.len()) {
        Some(_) => true,
        None => false,
    }
}

/// Copies the span `[a, b)` of `s` out.
pub fn subvec(s: &Vec<char>, a: usize, b: usize) -> (r: Vec<char>)
    requires
        a <= b <= s.len(),
    ensures
        r@ == s@.subrange(a as int, b as int),
{
    let mut r: Vec<char> = Vec::new();
    let mut i: usize = a;
    while i < b
        invariant
            a <= i <= b <= s.len(),
            r@ == s@.subrange(a as int, i as int),
        decreases b - i,
    {
        r.push(s[i]);
        i = i + 1;
        proof {
            assert(r@ =~= s@.subrange(a as int, i as int));
        }
    }
    r
}

/// Replaces the span `[start, end)` of `s` by `rep`.
pub fn splice_exec(s: &Vec<char>, start: usize, end: usize, rep: &Vec<char>) -> (r: Vec<char>)
    requires
        start <= end <= s.len(),
    ensures
        r@ == splice(s@, start as int, end as int, rep@),
{
    let mut r: Vec<char> = Vec::new();
    let mut i: usize = 0;
    while i < start
        invariant
            i <= start,
            start <= end <= s.len(),
            r@ == s@.subrange(0, i as int),
        decreases start - i,
    {
        r.push(s[i]);
        i = i + 1;
        proof {
            assert(r@ =~= s@.subrange(0, i as int));
        }
    }
    let mut k: usize = 0;
    while k < rep.len()
        invariant
            k <= rep.len(),
            start <= end <= s.len(),
            r@ == s@.subrange(0, start as int) + rep@.subrange(0, k as int),
        decreases rep.len() - k,
    {
        r.push(rep[k]);
        k = k + 1;
        proof {
            assert(r@ =~= s@.subrange(0, start as int) + rep@.subrange(0, k as int));
        }
    }
    proof {
        assert(rep@.subrange(0, rep@.len() as int) =~= rep@);
    }
    let mut j: usize = end;
    while j < s.len()
        invariant
            end <= j <= s.len(),
            start <= end,
            r@ == s@.subrange(0, start as int) + rep@ + s@.subrange(end as int, j as int),
        decreases s.len() - j,
    {
        r.push(s[j]);
        j = j + 1;
        proof {
            assert(r@ =~= s@.subrange(0, start as int) + rep@ + s@.subrange(end as int, j as int));
        }
    }
    r
}

/// Replaces every occurrence of `pat` in `s` by `rep`, scanning left to
/// right without overlap.
pub fn replace_all(s: &Vec<char>, pat: &Vec<char>, rep: &Vec<char>) -> (r: Vec<char>)
    ensures
        r@ == replace_all_from(s@, pat@, rep@, 0),
{
    let mut r: Vec<char> = Vec::new();
    let mut i: usize = 0;
    while i < s.len()
        invariant
            0 <= i,
            replace_all_from(s@, pat@, rep@, 0) == r@ + replace_all_from(s@, pat@, rep@, i as int),
        decreases s.len() - i,
    {
        if pat.len() > 0 && match_at(s, pat, i) {
            let mut k: usize = 0;
            let ghost r_before = r@;
            while k < rep.len()
                invariant
                    k <= rep.len(),
                    r@ == r_before + rep@.subrange(0, k as int),
                decreases rep.len() - k,
            {
                r.push(rep[k]);
                k = k + 1;
                proof {
                    assert(r@ =~= r_before + rep@.subrange(0, k as int));
                }
            }
            proof {
                assert(rep@.subrange(0, rep@.len() as int) =~= rep@);
            }
            i = i + pat.len();
        } else {
            r.push(s[i]);
            i = i + 1;
        }
    }
    proof {
        assert(replace_all_from(s@, pat@, rep@, i as int) =~= Seq::<char>::empty());
        assert(replace_all_from(s@, pat@, rep@, 0) =~= r@);
    }
    r
}

} // verus!
