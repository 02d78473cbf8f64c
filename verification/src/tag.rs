//! Tag parsing and classification.
//!
//! A region's tag attribute carries a compound string: atomic components
//! joined by an underscore separator. Before splitting, the raw value is
//! normalized: the first numbered fragment `-<digits>` keeps its digits
//! (shedding a dash-joined suffix such as `-b`), and every later numbered
//! fragment is dropped outright — a defensive de-duplication against
//! repeated authoring in the source markup. A component containing the
//! literal `floor-` is a floor token; any other component is a candidate
//! slot token.

use vstd::prelude::*;
use crate::text::str_to_chars;
use crate::text::contains;
use crate::text::contains_sub;

verus! {

/// Decimal digit.
pub open spec fn is_digit(c: char) -> bool {
    '0' as u32 <= c as u32 && c as u32 <= '9' as u32
}

/// A character that delimits fragments inside one component.
pub open spec fn is_frag_sep(c: char) -> bool {
    c == '-' || c == '_'
}

/// Index just past the run of digits starting at `i`.
pub open spec fn digits_end(s: Seq<char>, i: int) -> int
    decreases s.len() - i,
{
    if i < 0 || i >= s.len() {
        i
    } else if is_digit(s[i]) {
        digits_end(s, i + 1)
    } else {
        i
    }
}

/// Index just past the run of non-delimiter characters starting at `i`.
pub open spec fn plain_end(s: Seq<char>, i: int) -> int
    decreases s.len() - i,
{
    if i < 0 || i >= s.len() {
        i
    } else if !is_frag_sep(s[i]) {
        plain_end(s, i + 1)
    } else {
        i
    }
}



/// A numbered fragment starting at `i`: a dash, one or more digits, and
/// optionally a dash-joined plain suffix. Yields the index just past the
/// digits (the part a first match keeps) and the index just past the whole
/// fragment.
pub open spec fn norm_match_at(s: Seq<char>, i: int) -> Option<(int, int)> {
    if 0 <= i && i < s.len() && s[i] == '-' && i + 1 < s.len() && is_digit(s[i + 1]) {
        let d = digits_end(s, i + 1);
        if d < s.len() && s[d] == '-' && d + 1 < s.len() && !is_frag_sep(s[d + 1]) {
            Some((d, plain_end(s, d + 1)))
        } else {
            Some((d, d))
        }
    } else {
        None
    }
}

/// The normalized remainder of `s` from index `i`; `found` records whether
/// a numbered fragment was already retained.
pub open spec fn normalize_from(s: Seq<char>, i: int, found: bool) -> Seq<char>
    decreases s.len() - i,
{
    if i < 0 || i >= s.len() {
        Seq::empty()
    } else {
        match norm_match_at(s, i) {
            Some((d, e)) => (if !found {
                s.subrange(i, d)
            } else {
                Seq::empty()
            }) + normalize_from(s, if i < e && e <= s.len() { e } else { i + 1 }, true),
            None => seq![s[i]] + normalize_from(s, i + 1, found),
        }
    }
}

/// The whole tag value, normalized.
pub open spec fn normalize(s: Seq<char>) -> Seq<char> {
    normalize_from(s, 0, false)
}

/// The pieces of `s` from index `i` split on `sep`, with `cur` the piece
/// under construction. Split pieces keep empty runs, as splitting on a
/// separator character does.
pub open spec fn split_acc(s: Seq<char>, sep: char, i: int, cur: Seq<char>) -> Seq<Seq<char>>
    decreases s.len() - i,
{
    if i < 0 || i >= s.len() {
        seq![cur]
    } else if s[i] == sep {
        seq![cur] + split_acc(s, sep, i + 1, Seq::empty())
    } else {
        split_acc(s, sep, i + 1, cur.push(s[i]))
    }
}

/// `s` split on `sep`.
pub open spec fn split_on(s: Seq<char>, sep: char) -> Seq<Seq<char>> {
    split_acc(s, sep, 0, Seq::empty())
}

/// The atomic components of a raw tag value: the normalized value split on
/// the underscore separator. An empty raw value yields no components.
pub open spec fn components_of(raw: Seq<char>) -> Seq<Seq<char>> {
    if raw.len() == 0 {
        Seq::empty()
    } else {
        split_on(normalize(raw), '_')
    }
}

/// The substring that classifies a component as a floor token.
pub open spec fn floor_marker() -> Seq<char> {
    "floor-"@
}

/// A component naming a floor (the Y axis); everything else is a candidate
/// slot token (the X axis).
pub open spec fn is_floor_comp(c: Seq<char>) -> bool {
    contains_sub(c, floor_marker())
}

/// Decides `is_digit`.
fn digit(c: char) -> (r: bool)
    ensures
        r == is_digit(c),
{
    '0' <= c && c <= '9'
}

/// Decides `is_frag_sep`.
fn frag_sep(c: char) -> (r: bool)
    ensures
        r == is_frag_sep(c),
{
    c == '-' || c == '_'
}

/// Walks to the end of the digit run starting at `i`.
fn digits_end_exec(s: &Vec<char>, i: usize) -> (r: usize)
    requires
        i <= s.len(),
    ensures
        r == digits_end(s@, i as int),
        i <= r <= s.len(),
{
    let mut j: usize = i;
    while j < s.len() && digit(s[j])
        invariant
            i <= j <= s.len(),
            digits_end(s@, i as int) == digits_end(s@, j as int),
        decreases s.len() - j,
    {
        j = j + 1;
    }
    j
}

/// Walks to the end of the non-delimiter run starting at `i`.
fn plain_end_exec(s: &Vec<char>, i: usize) -> (r: usize)
    requires
        i <= s.len(),
    ensures
        r == plain_end(s@, i as int),
        i <= r <= s.len(),
{
    let mut j: usize = i;
    while j < s.len() && !frag_sep(s[j])
        invariant
            i <= j <= s.len(),
            plain_end(s@, i as int) == plain_end(s@, j as int),
        decreases s.len() - j,
    {
        j = j + 1;
    }
    j
}

/// Recognizes a numbered fragment at `i`.
fn norm_match(s: &Vec<char>, i: usize) -> (r: Option<(usize, usize)>)
    requires
        i <= s.len(),
    ensures
        match norm_match_at(s@, i as int) {
            Some((d, e)) => r == Some((d as usize, e as usize)) && i < d && i < e && e <= s@.len()
                && d <= e,
            None => r is None,
        },
{
    if i < s.len() && s[i] == '-' && i + 1 < s.len() && digit(s[i + 1]) {
        let d = digits_end_exec(s, i + 1);
        proof {
            assert(digits_end(s@, i + 1) == digits_end(s@, i + 2)) by {
                assert(is_digit(s@[i + 1]));
            }
        }
        if d < s.len() && s[d] == '-' && d + 1 < s.len() && !frag_sep(s[d + 1]) {
            let e = plain_end_exec(s, d + 1);
            Some((d, e))
        } else {
            Some((d, d))
        }
    } else {
        None
    }
}

/// Normalizes a raw tag value: the first numbered fragment keeps its
/// digits, later numbered fragments are dropped, everything else is kept
/// as written.
pub fn normalize_tag(s: &Vec<char>) -> (r: Vec<char>)
    ensures
        r@ == normalize(s@),
{
    let mut out: Vec<char> = Vec::new();
    let mut found: bool = false;
    let mut i: usize = 0;
    while i < s.len()
        invariant
            i <= s.len(),
            normalize(s@) == out@ + normalize_from(s@, i as int, found),
        decreases s.len() - i,
    {
        match norm_match(s, i) {
            Some((d, e)) => {
                if !found {
                    let mut k: usize = i;
                    let ghost out_before = out@;
                    while k < d
                        invariant
                            i <= k <= d <= s.len(),
                            out@ == out_before + s@.subrange(i as int, k as int),
                        decreases d - k,
                    {
                        out.push(s[k]);
                        k = k + 1;
                        proof {
                            assert(out@ =~= out_before + s@.subrange(i as int, k as int));
                        }
                    }
                }
                found = true;
                i = e;
                proof {
                    assert(normalize(s@) =~= out@ + normalize_from(s@, i as int, found));
                }
            },
            None => {
                out.push(s[i]);
                i = i + 1;
                proof {
                    assert(normalize(s@) =~= out@ + normalize_from(s@, i as int, found));
                }
            },
        }
    }
    proof {
        assert(normalize(s@) =~= out@);
    }
    out
}

/// Splits `s` on `sep`, keeping empty pieces.
pub fn split_chars(s: &Vec<char>, sep: char) -> (r: Vec<Vec<char>>)
    ensures
        r.deep_view() == split_on(s@, sep),
{
    let mut out: Vec<Vec<char>> = Vec::new();
    let mut cur: Vec<char> = Vec::new();
    let mut i: usize = 0;
    while i < s.len()
        invariant
            i <= s.len(),
            split_on(s@, sep) == out.deep_view() + split_acc(s@, sep, i as int, cur@),
        decreases s.len() - i,
    {
        if s[i] == sep {
            let ghost out_old = out.deep_view();
            let ghost cur_old = cur@;
            out.push(cur);
            cur = Vec::new();
            i = i + 1;
            proof {
                assert(out.deep_view() =~~= out_old.push(cur_old));
                assert(split_on(s@, sep) =~~= out.deep_view() + split_acc(
                    s@,
                    sep,
                    i as int,
                    cur@,
                ));
            }
        } else {
            cur.push(s[i]);
            i = i + 1;
        }
    }
    let ghost out_old = out.deep_view();
    let ghost cur_old = cur@;
    out.push(cur);
    proof {
        assert(out.deep_view() =~~= out_old.push(cur_old));
        assert(split_on(s@, sep) =~~= out.deep_view());
    }
    out
}

/// The components of a raw tag value.
pub fn tag_components(raw: &Vec<char>) -> (r: Vec<Vec<char>>)
    ensures
        r.deep_view() == components_of(raw@),
{
    if raw.len() == 0 {
        let r: Vec<Vec<char>> = Vec::new();
        proof {
            assert(r.deep_view() =~= components_of(raw@));
        }
        return r;
    }
    let normalized = normalize_tag(raw);
    split_chars(&normalized, '_')
}

/// Decides whether a component is a floor token.
pub fn floor_comp(c: &Vec<char>) -> (r: bool)
    ensures
        r == is_floor_comp(c@),
{
    let marker = str_to_chars("floor-");
    contains(c, &marker)
}

/// Decides whether some component in `comps` equals `t`.
pub fn comps_contain(comps: &Vec<Vec<char>>, t: &Vec<char>) -> (r: bool)
    ensures
        r == comps.deep_view().contains(t@),
{
    let mut i: usize = 0;
    while i < comps.len()
        invariant
            i <= comps.len(),
            forall|k: int| 0 <= k < i ==> comps.deep_view()[k] != t@,
        decreases comps.len() - i,
    {
        proof {
            assert(comps.deep_view()[i as int] =~= comps@[i as int]@);
        }
        if crate::text::chars_eq(&comps[i], t) {
            return true;
        }
        i = i + 1;
    }
    false
}

} // verus!
