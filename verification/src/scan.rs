//! Linear scanning passes over the markup text.
//!
//! Three scans, all greedy, left to right and non-overlapping: the
//! tag-attribute scan that defines regions, the outer-container scan that
//! finds bounding groups, and the inner-shape scan that finds shape
//! opening tags inside one container.

use vstd::prelude::*;
use crate::text::sub_at;
use crate::text::find_char_from;
use crate::text::find_sub_in;
use crate::text::str_to_chars;
use crate::text::match_at;
use crate::text::find_char;
use crate::text::find_sub;

verus! {

/// A region: the span of one tag-attribute occurrence and its raw value.
pub struct Region {
    pub start: usize,
    pub end: usize,
    pub raw: Vec<char>,
}

/// The mathematical counterpart of a region.
pub struct SpecRegion {
    pub start: int,
    pub end: int,
    pub raw: Seq<char>,
}

impl View for Region {
    type V = SpecRegion;

    open spec fn view(&self) -> SpecRegion {
        SpecRegion { start: self.start as int, end: self.end as int, raw: self.raw@ }
    }
}

/// The views of a vector of regions.
pub open spec fn region_views(v: Seq<Region>) -> Seq<SpecRegion> {
    v.map_values(|r: Region| r@)
}

/// The attribute whose occurrences define regions: its literal prefix up
/// to and including the opening quote.
pub open spec fn attr_prefix() -> Seq<char> {
    "data-name=\""@
}

/// The attribute prefix as character cells.
pub fn attr_prefix_chars() -> (r: Vec<char>)
    ensures
        r@ == attr_prefix(),
{
    str_to_chars("data-name=\"")
}

/// A region match at `i`: the attribute prefix followed by one or more
/// non-quote characters and a closing quote. The span runs from the start
/// of the prefix to just past the closing quote; the raw value sits
/// between the quotes.
pub open spec fn region_match_at(doc: Seq<char>, i: int) -> Option<SpecRegion> {
    if sub_at(doc, attr_prefix(), i) {
        let p = i + attr_prefix().len();
        match find_char_from(doc, '"', p) {
            Some(j) => if j > p {
                Some(SpecRegion { start: i, end: j + 1, raw: doc.subrange(p, j) })
            } else {
                None
            },
            None => None,
        }
    } else {
        None
    }
}

/// All region matches from index `i` on, in document order, each scan
/// resuming just past the previous match.
pub open spec fn scan_regions_from(doc: Seq<char>, i: int) -> Seq<SpecRegion>
    decreases doc.len() - i,
{
    if i < 0 || i >= doc.len() {
        Seq::empty()
    } else {
        match region_match_at(doc, i) {
            Some(r) => seq![r] + scan_regions_from(
                doc,
                if i < r.end && r.end <= doc.len() {
                    r.end
                } else {
                    i + 1
                },
            ),
            None => scan_regions_from(doc, i + 1),
        }
    }
}

/// Every region of the document.
pub open spec fn scan_regions(doc: Seq<char>) -> Seq<SpecRegion> {
    scan_regions_from(doc, 0)
}

/// What a successful region match guarantees about its bounds.
pub proof fn lemma_region_match_at(doc: Seq<char>, i: int)
    ensures
        match region_match_at(doc, i) {
            Some(r) => r.start == i && i < r.end <= doc.len() && r.raw.len() > 0,
            None => true,
        },
{
    if sub_at(doc, attr_prefix(), i) {
        let p = i + attr_prefix().len();
        crate::text::lemma_find_char_from(doc, '"', p);
    }
}

/// Regions come out of the scan in document order: within bounds, with
/// nonempty spans, and non-overlapping — each region starts at or after
/// the end of the one before it.
pub proof fn lemma_scan_regions_ordered(doc: Seq<char>, i: int)
    requires
        0 <= i,
    ensures
        forall|k: int|
            0 <= k < scan_regions_from(doc, i).len() ==> i <= (#[trigger] scan_regions_from(
                doc,
                i,
            )[k]).start && scan_regions_from(doc, i)[k].start < scan_regions_from(doc, i)[k].end
                <= doc.len(),
        forall|k1: int, k2: int|
            0 <= k1 < k2 < scan_regions_from(doc, i).len() ==> (#[trigger] scan_regions_from(
                doc,
                i,
            )[k1]).end <= (#[trigger] scan_regions_from(doc, i)[k2]).start,
    decreases doc.len() - i,
{
    if i >= doc.len() {
        assert(scan_regions_from(doc, i) =~= Seq::<SpecRegion>::empty());
    } else {
        let s = scan_regions_from(doc, i);
        lemma_region_match_at(doc, i);
        match region_match_at(doc, i) {
            Some(r) => {
                let rest = scan_regions_from(doc, r.end);
                lemma_scan_regions_ordered(doc, r.end);
                assert(s == seq![r] + rest);
                assert(s[0] == r);
                assert(forall|k: int| 1 <= k < s.len() ==> s[k] == rest[k - 1]);
                assert forall|k: int| 0 <= k < scan_regions_from(doc, i).len() implies i <= (
                #[trigger] scan_regions_from(doc, i)[k]).start && scan_regions_from(doc, i)[k].start
                    < scan_regions_from(doc, i)[k].end <= doc.len() by {
                    if k >= 1 {
                        assert(scan_regions_from(doc, i)[k] == rest[k - 1]);
                        assert(r.end <= rest[k - 1].start);
                    } else {
                        assert(scan_regions_from(doc, i)[k] == r);
                    }
                }
                assert forall|k1: int, k2: int|
                    0 <= k1 < k2 < scan_regions_from(doc, i).len() implies (
                #[trigger] scan_regions_from(doc, i)[k1]).end <= (#[trigger] scan_regions_from(
                    doc,
                    i,
                )[k2]).start by {
                    assert(scan_regions_from(doc, i)[k2] == rest[k2 - 1]);
                    assert(r.end <= rest[k2 - 1].start);
                    if k1 >= 1 {
                        assert(scan_regions_from(doc, i)[k1] == rest[k1 - 1]);
                    } else {
                        assert(scan_regions_from(doc, i)[k1] == r);
                    }
                }
            },
            None => {
                lemma_scan_regions_ordered(doc, i + 1);
                assert(scan_regions_from(doc, i) == scan_regions_from(doc, i + 1));
                assert forall|k: int| 0 <= k < scan_regions_from(doc, i).len() implies i <= (
                #[trigger] scan_regions_from(doc, i)[k]).start && scan_regions_from(doc, i)[k].start
                    < scan_regions_from(doc, i)[k].end <= doc.len() by {
                    assert(scan_regions_from(doc, i)[k] == scan_regions_from(doc, i + 1)[k]);
                }
                assert forall|k1: int, k2: int|
                    0 <= k1 < k2 < scan_regions_from(doc, i).len() implies (
                #[trigger] scan_regions_from(doc, i)[k1]).end <= (#[trigger] scan_regions_from(
                    doc,
                    i,
                )[k2]).start by {
                    assert(scan_regions_from(doc, i)[k1] == scan_regions_from(doc, i + 1)[k1]);
                    assert(scan_regions_from(doc, i)[k2] == scan_regions_from(doc, i + 1)[k2]);
                }
            },
        }
    }
}

/// Recognizes a region match at `i`.
fn region_match(doc: &Vec<char>, attr: &Vec<char>, i: usize) -> (r: Option<Region>)
    requires
        attr@ == attr_prefix(),
    ensures
        match region_match_at(doc@, i as int) {
            Some(sr) => r is Some && r->Some_0@ == sr && i < r->Some_0.end <= doc@.len(),
            None => r is None,
        },
{
    let ghost dl = doc@.len();
    let dl_exec = doc.len();
    proof {
        assert(dl == dl_exec);
        lemma_region_match_at(doc@, i as int);
    }
    if !match_at(doc, attr, i) {
        return None;
    }
    let p = i + attr.len();
    match find_char(doc, '"', p) {
        Some(j) => {
            proof {
                crate::text::lemma_find_char_from(doc@, '"', p as int);
            }
            if j > p {
                let mut raw: Vec<char> = Vec::new();
                let mut k: usize = p;
                while k < j
                    invariant
                        p <= k <= j <= doc@.len(),
                        raw@ == doc@.subrange(p as int, k as int),
                    decreases j - k,
                {
                    raw.push(doc[k]);
                    k = k + 1;
                    proof {
                        assert(raw@ =~= doc@.subrange(p as int, k as int));
                    }
                }
                Some(Region { start: i, end: j + 1, raw })
            } else {
                None
            }
        },
        None => None,
    }
}

/// Scans the whole document for regions.
pub fn scan_regions_exec(doc: &Vec<char>) -> (r: Vec<Region>)
    ensures
        region_views(r@) == scan_regions(doc@),
        forall|k: int| 0 <= k < r@.len() ==> #[trigger] r@[k]@.end <= doc@.len(),
{
    let attr = attr_prefix_chars();
    let mut out: Vec<Region> = Vec::new();
    let mut i: usize = 0;
    while i < doc.len()
        invariant
            attr@ == attr_prefix(),
            scan_regions(doc@) == region_views(out@) + scan_regions_from(doc@, i as int),
            forall|k: int| 0 <= k < out@.len() ==> #[trigger] out@[k]@.end <= doc@.len(),
        decreases doc.len() - i,
    {
        let ghost pre = region_views(out@);
        match region_match(doc, &attr, i) {
            Some(reg) => {
                let next = reg.end;
                proof {
                    assert(region_views(out@.push(reg)) =~= pre.push(reg@));
                }
                out.push(reg);
                i = next;
            },
            None => {
                i = i + 1;
            },
        }
    }
    out
}

/// The literal opening of a bounding group.
pub open spec fn g_open() -> Seq<char> {
    "<g"@
}

/// The literal closing tag of a bounding group.
pub open spec fn g_close() -> Seq<char> {
    "</g>"@
}

/// The literal opening of the restylable shape kind.
pub open spec fn polygon_open() -> Seq<char> {
    "<polygon"@
}

/// A word character, for the tag-name boundary after `<g` or `<polygon`.
pub open spec fn is_word_char(c: char) -> bool {
    ('a' as u32 <= c as u32 && c as u32 <= 'z' as u32) || ('A' as u32 <= c as u32 && c as u32
        <= 'Z' as u32) || ('0' as u32 <= c as u32 && c as u32 <= '9' as u32) || c == '_'
}

/// Decides `is_word_char`.
fn word_char(c: char) -> (r: bool)
    ensures
        r == is_word_char(c),
{
    ('a' <= c && c <= 'z') || ('A' <= c && c <= 'Z') || ('0' <= c && c <= '9') || c == '_'
}

/// A container match at `i`: `<g` at a tag-name boundary, then the
/// opening tag's closing `>`. A block container extends to just past the
/// first `</g>` after that; failing one, a self-closing tag (`/` right
/// before the `>`) ends just past the `>`. Yields the end of the span.
pub open spec fn container_match_at(doc: Seq<char>, i: int) -> Option<int> {
    if sub_at(doc, g_open(), i) {
        let a = i + g_open().len();
        if a < doc.len() && is_word_char(doc[a]) {
            None
        } else {
            match find_char_from(doc, '>', a) {
                Some(j) => match find_sub_in(doc, g_close(), j + 1, doc.len() as int) {
                    Some(k) => Some(k + g_close().len() as int),
                    None => if j > 0 && doc[j - 1] == '/' {
                        Some(j + 1)
                    } else {
                        None
                    },
                },
                None => None,
            }
        }
    } else {
        None
    }
}

/// All container spans from index `i` on, in document order.
pub open spec fn scan_containers_from(doc: Seq<char>, i: int) -> Seq<(int, int)>
    decreases doc.len() - i,
{
    if i < 0 || i >= doc.len() {
        Seq::empty()
    } else {
        match container_match_at(doc, i) {
            Some(e) => seq![(i, e)] + scan_containers_from(
                doc,
                if i < e && e <= doc.len() {
                    e
                } else {
                    i + 1
                },
            ),
            None => scan_containers_from(doc, i + 1),
        }
    }
}

/// Every container span of the document.
pub open spec fn scan_containers(doc: Seq<char>) -> Seq<(int, int)> {
    scan_containers_from(doc, 0)
}

/// What a successful container match guarantees about its bounds.
pub proof fn lemma_container_match_at(doc: Seq<char>, i: int)
    ensures
        match container_match_at(doc, i) {
            Some(e) => i < e <= doc.len(),
            None => true,
        },
{
    if sub_at(doc, g_open(), i) {
        let a = i + g_open().len();
        crate::text::lemma_find_char_from(doc, '>', a);
        match find_char_from(doc, '>', a) {
            Some(j) => {
                crate::text::lemma_find_sub_in(doc, g_close(), j + 1, doc.len() as int);
            },
            None => {},
        }
    }
}

/// Recognizes a container match at `i`.
fn container_match(
    doc: &Vec<char>,
    g_open_c: &Vec<char>,
    g_close_c: &Vec<char>,
    i: usize,
) -> (r: Option<usize>)
    requires
        g_open_c@ == g_open(),
        g_close_c@ == g_close(),
    ensures
        match container_match_at(doc@, i as int) {
            Some(e) => r == Some(e as usize) && i < e && e <= doc@.len(),
            None => r is None,
        },
{
    let ghost dl = doc@.len();
    let dl_exec = doc.len();
    proof {
        assert(dl == dl_exec);
        lemma_container_match_at(doc@, i as int);
    }
    if !match_at(doc, g_open_c, i) {
        return None;
    }
    let a = i + g_open_c.len();
    if a < doc.len() && word_char(doc[a]) {
        return None;
    }
    match find_char(doc, '>', a) {
        Some(j) => {
            proof {
                crate::text::lemma_find_char_from(doc@, '>', a as int);
            }
            match find_sub(doc, g_close_c, j + 1, doc.len()) {
                Some(k) => {
                    proof {
                        crate::text::lemma_find_sub_in(doc@, g_close(), j + 1, dl as int);
                    }
                    Some(k + g_close_c.len())
                },
                None => {
                    if j > 0 && doc[j - 1] == '/' {
                        Some(j + 1)
                    } else {
                        None
                    }
                },
            }
        },
        None => None,
    }
}

/// Scans the whole document for container spans.
pub fn scan_containers_exec(doc: &Vec<char>) -> (r: Vec<(usize, usize)>)
    ensures
        crate::edit::range_views(r@) == scan_containers(doc@),
        forall|k: int|
            0 <= k < r@.len() ==> #[trigger] r@[k].0 <= r@[k].1 && r@[k].1 <= doc@.len(),
{
    let g_open_c = str_to_chars("<g");
    let g_close_c = str_to_chars("</g>");
    let mut out: Vec<(usize, usize)> = Vec::new();
    let mut i: usize = 0;
    while i < doc.len()
        invariant
            g_open_c@ == g_open(),
            g_close_c@ == g_close(),
            scan_containers(doc@) == crate::edit::range_views(out@) + scan_containers_from(
                doc@,
                i as int,
            ),
            forall|k: int|
                0 <= k < out@.len() ==> #[trigger] out@[k].0 <= out@[k].1 && out@[k].1
                    <= doc@.len(),
        decreases doc.len() - i,
    {
        let ghost pre = crate::edit::range_views(out@);
        match container_match(doc, &g_open_c, &g_close_c, i) {
            Some(e) => {
                proof {
                    assert(crate::edit::range_views(out@.push((i, e))) =~= pre.push(
                        (i as int, e as int),
                    ));
                }
                out.push((i, e));
                i = e;
            },
            None => {
                i = i + 1;
            },
        }
    }
    out
}

/// A shape match at `i`: `<polygon` at a tag-name boundary, extending to
/// just past the opening tag's `>`. Yields the end of the opening tag.
pub open spec fn shape_match_at(doc: Seq<char>, i: int) -> Option<int> {
    if sub_at(doc, polygon_open(), i) {
        let a = i + polygon_open().len();
        if a < doc.len() && is_word_char(doc[a]) {
            None
        } else {
            match find_char_from(doc, '>', a) {
                Some(j) => Some(j + 1),
                None => None,
            }
        }
    } else {
        None
    }
}

/// All shape opening-tag spans from index `i` on.
pub open spec fn scan_shapes_from(doc: Seq<char>, i: int) -> Seq<(int, int)>
    decreases doc.len() - i,
{
    if i < 0 || i >= doc.len() {
        Seq::empty()
    } else {
        match shape_match_at(doc, i) {
            Some(e) => seq![(i, e)] + scan_shapes_from(
                doc,
                if i < e && e <= doc.len() {
                    e
                } else {
                    i + 1
                },
            ),
            None => scan_shapes_from(doc, i + 1),
        }
    }
}

/// Every shape opening-tag span of the text.
pub open spec fn scan_shapes(doc: Seq<char>) -> Seq<(int, int)> {
    scan_shapes_from(doc, 0)
}

/// What a successful shape match guarantees about its bounds.
pub proof fn lemma_shape_match_at(doc: Seq<char>, i: int)
    ensures
        match shape_match_at(doc, i) {
            Some(e) => i < e <= doc.len(),
            None => true,
        },
{
    if sub_at(doc, polygon_open(), i) {
        crate::text::lemma_find_char_from(doc, '>', i + polygon_open().len());
    }
}

/// Recognizes a shape match at `i`.
fn shape_match(doc: &Vec<char>, poly_c: &Vec<char>, i: usize) -> (r: Option<usize>)
    requires
        poly_c@ == polygon_open(),
    ensures
        match shape_match_at(doc@, i as int) {
            Some(e) => r == Some(e as usize) && i < e && e <= doc@.len(),
            None => r is None,
        },
{
    let ghost dl = doc@.len();
    let dl_exec = doc.len();
    proof {
        assert(dl == dl_exec);
        lemma_shape_match_at(doc@, i as int);
    }
    if !match_at(doc, poly_c, i) {
        return None;
    }
    let a = i + poly_c.len();
    if a < doc.len() && word_char(doc[a]) {
        return None;
    }
    match find_char(doc, '>', a) {
        Some(j) => Some(j + 1),
        None => None,
    }
}

/// Scans a text for shape opening-tag spans.
pub fn scan_shapes_exec(doc: &Vec<char>) -> (r: Vec<(usize, usize)>)
    ensures
        crate::edit::range_views(r@) == scan_shapes(doc@),
        forall|k: int|
            0 <= k < r@.len() ==> #[trigger] r@[k].0 <= r@[k].1 && r@[k].1 <= doc@.len(),
{
    let poly_c = str_to_chars("<polygon");
    let mut out: Vec<(usize, usize)> = Vec::new();
    let mut i: usize = 0;
    while i < doc.len()
        invariant
            poly_c@ == polygon_open(),
            scan_shapes(doc@) == crate::edit::range_views(out@) + scan_shapes_from(doc@, i as int),
            forall|k: int|
                0 <= k < out@.len() ==> #[trigger] out@[k].0 <= out@[k].1 && out@[k].1
                    <= doc@.len(),
        decreases doc.len() - i,
    {
        let ghost pre = crate::edit::range_views(out@);
        match shape_match(doc, &poly_c, i) {
            Some(e) => {
                proof {
                    assert(crate::edit::range_views(out@.push((i, e))) =~= pre.push(
                        (i as int, e as int),
                    ));
                }
                out.push((i, e));
                i = e;
            },
            None => {
                i = i + 1;
            },
        }
    }
    out
}

} // verus!
