//! The option deriver's working parts: the style-annotation pass over the
//! document and the folds that build the axis maps and element index.
//!
//! Annotation rewrites the text: for every region range, the engine finds
//! the nearest `>` at or after the range's end, then replaces an existing
//! focus or unfocus token inside that window, or inserts a fresh token at
//! the range's end. Ranges are processed highest end first (see `edit`),
//! so an edit never invalidates a waiting offset.

use vstd::prelude::*;
use crate::text::find_char_from;
use crate::text::find_sub_in;
use crate::text::splice;
use crate::text::find_char;
use crate::text::find_sub;
use crate::text::splice_exec;
use crate::text::chars_to_string;
use crate::theme::focus_style;
use crate::theme::unfocus_style;
use crate::theme::focus_style_chars;
use crate::theme::unfocus_style_chars;
use crate::scan::SpecRegion;
use crate::scan::Region;
use crate::scan::scan_regions;
use crate::scan::scan_regions_exec;
use crate::scan::region_views;
use crate::tag::components_of;
use crate::tag::is_floor_comp;
use crate::tag::tag_components;
use crate::tag::floor_comp;
use crate::tag::comps_contain;
use crate::maps::StrMap;
use crate::maps::ElemMap;
use crate::edit::range_views;
use crate::edit::edit_order;
use crate::edit::range_in;
use crate::edit::dedup_exec;
use crate::edit::sort_desc_exec;

verus! {

/// One region range annotated: replace an existing style token between
/// the range's end and the nearest `>`, or insert the proper token at the
/// range's end. A range with no `>` at or after it is left alone.
pub open spec fn annotate_one(doc: Seq<char>, end: int, in_focus: bool) -> Seq<char> {
    let tok = if in_focus {
        focus_style()
    } else {
        unfocus_style()
    };
    match find_char_from(doc, '>', end) {
        None => doc,
        Some(j) => match find_sub_in(doc, focus_style(), end, j) {
            Some(p) => splice(doc, p, p + focus_style().len() as int, tok),
            None => match find_sub_in(doc, unfocus_style(), end, j) {
                Some(p) => splice(doc, p, p + unfocus_style().len() as int, tok),
                None => splice(doc, end, end, tok),
            },
        },
    }
}

/// The first `k` ranges of the ordered work list applied in turn; a range
/// in `focus` receives the focus token, any other the unfocus token.
pub open spec fn annotate_all(
    doc: Seq<char>,
    ranges: Seq<(int, int)>,
    focus: Seq<(int, int)>,
    k: int,
) -> Seq<char>
    decreases k,
{
    if k <= 0 {
        doc
    } else {
        let prev = annotate_all(doc, ranges, focus, k - 1);
        annotate_one(prev, ranges[k - 1].1, focus.contains(ranges[k - 1]))
    }
}

/// The ranges of the first `k` regions.
pub open spec fn all_ranges_prefix(regions: Seq<SpecRegion>, k: int) -> Seq<(int, int)>
    decreases k,
{
    if k <= 0 {
        Seq::empty()
    } else {
        all_ranges_prefix(regions, k - 1).push((regions[k - 1].start, regions[k - 1].end))
    }
}

/// The ranges, among the first `k` regions, of those whose components
/// contain the effective floor: the to-focus set.
pub open spec fn focus_ranges_prefix(regions: Seq<SpecRegion>, eff: Seq<char>, k: int) -> Seq<
    (int, int),
>
    decreases k,
{
    if k <= 0 {
        Seq::empty()
    } else {
        let pre = focus_ranges_prefix(regions, eff, k - 1);
        if components_of(regions[k - 1].raw).contains(eff) {
            pre.push((regions[k - 1].start, regions[k - 1].end))
        } else {
            pre
        }
    }
}

/// The annotated document: every region range, deduplicated and ordered
/// end-descending, carries the focus token when the region belongs to the
/// effective floor and the unfocus token otherwise.
pub open spec fn derive_doc(doc: Seq<char>, eff: Seq<char>) -> Seq<char> {
    let regions = scan_regions(doc);
    let work = edit_order(all_ranges_prefix(regions, regions.len() as int));
    let tf = focus_ranges_prefix(regions, eff, regions.len() as int);
    annotate_all(doc, work, tf, work.len() as int)
}

/// The slot-to-floor insertions of one region's first `k` components:
/// every candidate slot token maps to the effective floor.
pub open spec fn x_insert_comps(
    m: Map<Seq<char>, Seq<char>>,
    comps: Seq<Seq<char>>,
    eff: Seq<char>,
    k: int,
) -> Map<Seq<char>, Seq<char>>
    decreases k,
{
    if k <= 0 {
        m
    } else {
        let m2 = x_insert_comps(m, comps, eff, k - 1);
        if is_floor_comp(comps[k - 1]) {
            m2
        } else {
            m2.insert(comps[k - 1], eff)
        }
    }
}

/// A region contributes to the slot-to-floor axis when its components
/// contain the effective floor or the document's default floor.
pub open spec fn x_region_scope(r: SpecRegion, eff: Seq<char>, def: Seq<char>) -> bool {
    components_of(r.raw).contains(eff) || components_of(r.raw).contains(def)
}

/// The slot-to-floor map after the first `k` regions, scanned in document
/// order with later writes overriding earlier ones.
pub open spec fn x_fold(regions: Seq<SpecRegion>, eff: Seq<char>, def: Seq<char>, k: int) -> Map<
    Seq<char>,
    Seq<char>,
>
    decreases k,
{
    if k <= 0 {
        Map::empty()
    } else {
        let m = x_fold(regions, eff, def, k - 1);
        let r = regions[k - 1];
        if x_region_scope(r, eff, def) {
            x_insert_comps(m, components_of(r.raw), eff, components_of(r.raw).len() as int)
        } else {
            m
        }
    }
}

/// The slot-to-floor axis of the whole document.
pub open spec fn x_map(doc: Seq<char>, eff: Seq<char>, def: Seq<char>) -> Map<Seq<char>, Seq<char>> {
    x_fold(scan_regions(doc), eff, def, scan_regions(doc).len() as int)
}

/// The floor-set insertions of one region's first `k` components: every
/// floor token maps to itself.
pub open spec fn y_insert_comps(m: Map<Seq<char>, Seq<char>>, comps: Seq<Seq<char>>, k: int) -> Map<
    Seq<char>,
    Seq<char>,
>
    decreases k,
{
    if k <= 0 {
        m
    } else {
        let m2 = y_insert_comps(m, comps, k - 1);
        if is_floor_comp(comps[k - 1]) {
            m2.insert(comps[k - 1], comps[k - 1])
        } else {
            m2
        }
    }
}

/// The floor set after the first `k` regions; every region contributes,
/// in or out of scope.
pub open spec fn y_fold(regions: Seq<SpecRegion>, k: int) -> Map<Seq<char>, Seq<char>>
    decreases k,
{
    if k <= 0 {
        Map::empty()
    } else {
        let m = y_fold(regions, k - 1);
        y_insert_comps(m, components_of(regions[k - 1].raw), components_of(
            regions[k - 1].raw,
        ).len() as int)
    }
}

/// The floor-set axis of the whole document.
pub open spec fn y_map(doc: Seq<char>) -> Map<Seq<char>, Seq<char>> {
    y_fold(scan_regions(doc), scan_regions(doc).len() as int)
}

/// The element-index insertions of one region's first `k` components.
pub open spec fn elem_insert_comps(
    m: Map<(Seq<char>, Seq<char>, int, int), bool>,
    r: SpecRegion,
    comps: Seq<Seq<char>>,
    k: int,
) -> Map<(Seq<char>, Seq<char>, int, int), bool>
    decreases k,
{
    if k <= 0 {
        m
    } else {
        elem_insert_comps(m, r, comps, k - 1).insert((r.raw, comps[k - 1], r.start, r.end), true)
    }
}

/// The element index after the first `k` regions, merged into the prior
/// index.
pub open spec fn elem_fold(
    prior: Map<(Seq<char>, Seq<char>, int, int), bool>,
    regions: Seq<SpecRegion>,
    k: int,
) -> Map<(Seq<char>, Seq<char>, int, int), bool>
    decreases k,
{
    if k <= 0 {
        prior
    } else {
        let m = elem_fold(prior, regions, k - 1);
        elem_insert_comps(m, regions[k - 1], components_of(regions[k - 1].raw), components_of(
            regions[k - 1].raw,
        ).len() as int)
    }
}

/// The element index of the whole document, accumulated onto the prior
/// one.
pub open spec fn elem_map(
    prior: Map<(Seq<char>, Seq<char>, int, int), bool>,
    doc: Seq<char>,
) -> Map<(Seq<char>, Seq<char>, int, int), bool> {
    elem_fold(prior, scan_regions(doc), scan_regions(doc).len() as int)
}

/// Applies one annotation step.
fn annotate_step(
    doc: Vec<char>,
    end: usize,
    in_focus: bool,
    focus_c: &Vec<char>,
    unfocus_c: &Vec<char>,
) -> (r: Vec<char>)
    requires
        focus_c@ == focus_style(),
        unfocus_c@ == unfocus_style(),
    ensures
        r@ == annotate_one(doc@, end as int, in_focus),
{
    let tok = if in_focus {
        focus_c
    } else {
        unfocus_c
    };
    match find_char(&doc, '>', end) {
        None => doc,
        Some(j) => {
            proof {
                crate::text::lemma_find_char_from(doc@, '>', end as int);
            }
            match find_sub(&doc, focus_c, end, j) {
                Some(p) => {
                    proof {
                        crate::text::lemma_find_sub_in(doc@, focus_style(), end as int, j as int);
                    }
                    splice_exec(&doc, p, p + focus_c.len(), tok)
                },
                None => {
                    match find_sub(&doc, unfocus_c, end, j) {
                        Some(p) => {
                            proof {
                                crate::text::lemma_find_sub_in(
                                    doc@,
                                    unfocus_style(),
                                    end as int,
                                    j as int,
                                );
                            }
                            splice_exec(&doc, p, p + unfocus_c.len(), tok)
                        },
                        None => splice_exec(&doc, end, end, tok),
                    }
                },
            }
        },
    }
}

/// Runs one full derivation pass over the document text: scans the
/// regions, builds the to-focus set and the three maps, orders the
/// ranges, and annotates the document.
pub fn derive_pass(doc: Vec<char>, eff: &Vec<char>, def: &Vec<char>, prior: &ElemMap) -> (r: (
    Vec<char>,
    StrMap,
    StrMap,
    ElemMap,
))
    ensures
        r.0@ == derive_doc(doc@, eff@),
        r.1@ == x_map(doc@, eff@, def@),
        r.2@ == y_map(doc@),
        r.3@ == elem_map(prior@, doc@),
{
    let ghost doc0 = doc@;
    let regions = scan_regions_exec(&doc);
    let ghost sregs = scan_regions(doc0);
    let mut all: Vec<(usize, usize)> = Vec::new();
    let mut tf: Vec<(usize, usize)> = Vec::new();
    let mut x = StrMap::new();
    let mut y = StrMap::new();
    let mut elem = prior.duplicate();
    let mut i: usize = 0;
    while i < regions.len()
        invariant
            i <= regions.len(),
            region_views(regions@) == sregs,
            range_views(all@) == all_ranges_prefix(sregs, i as int),
            range_views(tf@) == focus_ranges_prefix(sregs, eff@, i as int),
            x@ == x_fold(sregs, eff@, def@, i as int),
            y@ == y_fold(sregs, i as int),
            elem@ == elem_fold(prior@, sregs, i as int),
        decreases regions.len() - i,
    {
        let reg = &regions[i];
        proof {
            assert(region_views(regions@)[i as int] == reg@);
        }
        let comps = tag_components(&reg.raw);
        let ghost comps_dv = components_of(reg@.raw);
        let ghost all_pre = range_views(all@);
        all.push((reg.start, reg.end));
        proof {
            assert(range_views(all@) =~= all_pre.push((reg@.start, reg@.end)));
        }
        let in_focus = comps_contain(&comps, eff);
        let ghost tf_pre = range_views(tf@);
        if in_focus {
            tf.push((reg.start, reg.end));
            proof {
                assert(range_views(tf@) =~= tf_pre.push((reg@.start, reg@.end)));
            }
        }
        let in_scope = in_focus || comps_contain(&comps, def);
        if in_scope {
            let ghost x_pre = x@;
            let mut k: usize = 0;
            while k < comps.len()
                invariant
                    k <= comps.len(),
                    comps.deep_view() == comps_dv,
                    x@ == x_insert_comps(x_pre, comps_dv, eff@, k as int),
                decreases comps.len() - k,
            {
                proof {
                    assert(comps.deep_view()[k as int] =~= comps@[k as int]@);
                }
                if !floor_comp(&comps[k]) {
                    let key = chars_to_string(&comps[k]);
                    let val = chars_to_string(eff);
                    x = x.insert(key, val);
                }
                k = k + 1;
            }
            proof {
                assert(x@ == x_insert_comps(x_pre, comps_dv, eff@, comps_dv.len() as int));
            }
        }
        let ghost y_pre = y@;
        let mut k: usize = 0;
        while k < comps.len()
            invariant
                k <= comps.len(),
                comps.deep_view() == comps_dv,
                y@ == y_insert_comps(y_pre, comps_dv, k as int),
            decreases comps.len() - k,
        {
            proof {
                assert(comps.deep_view()[k as int] =~= comps@[k as int]@);
            }
            if floor_comp(&comps[k]) {
                let key = chars_to_string(&comps[k]);
                let val = chars_to_string(&comps[k]);
                y = y.insert(key, val);
            }
            k = k + 1;
        }
        let ghost elem_pre = elem@;
        let mut k: usize = 0;
        while k < comps.len()
            invariant
                k <= comps.len(),
                comps.deep_view() == comps_dv,
                region_views(regions@) == sregs,
                i < regions@.len(),
                elem@ == elem_insert_comps(elem_pre, sregs[i as int], comps_dv, k as int),
            decreases comps.len() - k,
        {
            proof {
                assert(comps.deep_view()[k as int] =~= comps@[k as int]@);
                assert(region_views(regions@)[i as int] == regions@[i as int]@);
            }
            let reg2 = &regions[i];
            let rid = chars_to_string(&reg2.raw);
            let comp = chars_to_string(&comps[k]);
            elem = elem.insert(rid, comp, reg2.start, reg2.end);
            k = k + 1;
        }
        i = i + 1;
    }
    let deduped = dedup_exec(&all);
    let work = sort_desc_exec(&deduped);
    proof {
        assert(regions@.len() == sregs.len());
        assert(range_views(work@) == edit_order(all_ranges_prefix(sregs, sregs.len() as int)));
    }
    let annotated = annotate_ranges(doc, &work, &tf);
    (annotated, x, y, elem)
}

/// Applies the whole ordered work list of annotations.
pub fn annotate_ranges(
    doc: Vec<char>,
    work: &Vec<(usize, usize)>,
    tf: &Vec<(usize, usize)>,
) -> (r: Vec<char>)
    ensures
        r@ == annotate_all(doc@, range_views(work@), range_views(tf@), work@.len() as int),
{
    let ghost doc0 = doc@;
    let focus_c = focus_style_chars();
    let unfocus_c = unfocus_style_chars();
    let mut cur = doc;
    let mut k: usize = 0;
    while k < work.len()
        invariant
            k <= work.len(),
            focus_c@ == focus_style(),
            unfocus_c@ == unfocus_style(),
            cur@ == annotate_all(doc0, range_views(work@), range_views(tf@), k as int),
        decreases work.len() - k,
    {
        let range = work[k];
        let in_focus = range_in(tf, range);
        proof {
            assert(range_views(work@)[k as int] == (range.0 as int, range.1 as int));
        }
        cur = annotate_step(cur, range.1, in_focus, &focus_c, &unfocus_c);
        k = k + 1;
    }
    cur
}

} // verus!
