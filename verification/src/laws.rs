//! Engine-wide laws, stated and proved over the same specification
//! functions the public contracts use.

use vstd::prelude::*;
use crate::scan::SpecRegion;
use crate::scan::scan_regions;
use crate::tag::components_of;
use crate::tag::is_floor_comp;
use crate::derive::x_map;
use crate::derive::x_fold;
use crate::derive::x_insert_comps;
use crate::derive::x_region_scope;
use crate::derive::y_map;
use crate::derive::y_fold;
use crate::derive::y_insert_comps;
use crate::entity::effective_floor;

verus! {

/// Deriving with no floor selected works under the default floor: the
/// effective floor of an absent selection equals that of selecting the
/// default floor itself, so the annotated document and the slot-to-floor
/// axis come out the same (the floor set and the element index never
/// depend on the selection at all).
pub proof fn lemma_default_floor_fallback(doc: Seq<char>, def: Seq<char>)
    ensures
        effective_floor(None, def) == effective_floor(Some(def), def),
        crate::derive::derive_doc(doc, effective_floor(None, def)) == crate::derive::derive_doc(
            doc,
            effective_floor(Some(def), def),
        ),
        x_map(doc, effective_floor(None, def), def) == x_map(
            doc,
            effective_floor(Some(def), def),
            def,
        ),
{
}

/// Inserting components never removes a key, and every inserted value is
/// the effective floor.
proof fn lemma_x_insert_comps_frame(
    m: Map<Seq<char>, Seq<char>>,
    comps: Seq<Seq<char>>,
    eff: Seq<char>,
    k: int,
    key: Seq<char>,
)
    requires
        m.contains_key(key) && m[key] == eff,
    ensures
        x_insert_comps(m, comps, eff, k).contains_key(key),
        x_insert_comps(m, comps, eff, k)[key] == eff,
    decreases k,
{
    if k > 0 {
        lemma_x_insert_comps_frame(m, comps, eff, k - 1, key);
    }
}

/// A candidate slot component among the first `k` is in the insertion
/// result, mapped to the effective floor.
proof fn lemma_x_insert_comps_member(
    m: Map<Seq<char>, Seq<char>>,
    comps: Seq<Seq<char>>,
    eff: Seq<char>,
    k: int,
    j: int,
)
    requires
        0 <= j < k,
        !is_floor_comp(comps[j]),
    ensures
        x_insert_comps(m, comps, eff, k).contains_key(comps[j]),
        x_insert_comps(m, comps, eff, k)[comps[j]] == eff,
    decreases k,
{
    if j < k - 1 {
        lemma_x_insert_comps_member(m, comps, eff, k - 1, j);
    }
}

/// A key present with the effective value stays through the region fold.
proof fn lemma_x_fold_frame(
    regions: Seq<SpecRegion>,
    eff: Seq<char>,
    def: Seq<char>,
    k: int,
    from: int,
    key: Seq<char>,
)
    requires
        0 <= from <= k,
        x_fold(regions, eff, def, from).contains_key(key),
        x_fold(regions, eff, def, from)[key] == eff,
    ensures
        x_fold(regions, eff, def, k).contains_key(key),
        x_fold(regions, eff, def, k)[key] == eff,
    decreases k - from,
{
    if from < k {
        let m = x_fold(regions, eff, def, k - 1);
        lemma_x_fold_frame(regions, eff, def, k - 1, from, key);
        if x_region_scope(regions[k - 1], eff, def) {
            lemma_x_insert_comps_frame(
                m,
                components_of(regions[k - 1].raw),
                eff,
                components_of(regions[k - 1].raw).len() as int,
                key,
            );
        }
    }
}

/// Inserting components never removes a floor key or changes its value.
proof fn lemma_y_insert_comps_frame(
    m: Map<Seq<char>, Seq<char>>,
    comps: Seq<Seq<char>>,
    k: int,
    key: Seq<char>,
)
    requires
        m.contains_key(key) && m[key] == key,
    ensures
        y_insert_comps(m, comps, k).contains_key(key),
        y_insert_comps(m, comps, k)[key] == key,
    decreases k,
{
    if k > 0 {
        lemma_y_insert_comps_frame(m, comps, k - 1, key);
    }
}

/// A floor component among the first `k` is in the insertion result,
/// mapped to itself.
proof fn lemma_y_insert_comps_member(m: Map<Seq<char>, Seq<char>>, comps: Seq<Seq<char>>, k: int, j: int)
    requires
        0 <= j < k,
        is_floor_comp(comps[j]),
    ensures
        y_insert_comps(m, comps, k).contains_key(comps[j]),
        y_insert_comps(m, comps, k)[comps[j]] == comps[j],
    decreases k,
{
    if j < k - 1 {
        lemma_y_insert_comps_member(m, comps, k - 1, j);
    }
}

/// An identity-valued key stays through the floor-set fold.
proof fn lemma_y_fold_frame(regions: Seq<SpecRegion>, k: int, from: int, key: Seq<char>)
    requires
        0 <= from <= k,
        y_fold(regions, from).contains_key(key),
        y_fold(regions, from)[key] == key,
    ensures
        y_fold(regions, k).contains_key(key),
        y_fold(regions, k)[key] == key,
    decreases k - from,
{
    if from < k {
        lemma_y_fold_frame(regions, k - 1, from, key);
        lemma_y_insert_comps_frame(
            y_fold(regions, k - 1),
            components_of(regions[k - 1].raw),
            components_of(regions[k - 1].raw).len() as int,
            key,
        );
    }
}

/// Axis completeness. Take any region of the document and any of its tag
/// components. If the component is a floor token, the floor set contains
/// it, keyed by itself — whether or not the region is in scope. If the
/// component is a candidate slot token and the region is in scope (its
/// components contain the effective or the default floor), the
/// slot-to-floor map sends it to the effective floor.
pub proof fn lemma_axis_completeness(
    doc: Seq<char>,
    eff: Seq<char>,
    def: Seq<char>,
    i: int,
    j: int,
)
    requires
        0 <= i < scan_regions(doc).len(),
        0 <= j < components_of(scan_regions(doc)[i].raw).len(),
    ensures
        is_floor_comp(components_of(scan_regions(doc)[i].raw)[j]) ==> y_map(doc).contains_key(
            components_of(scan_regions(doc)[i].raw)[j],
        ) && y_map(doc)[components_of(scan_regions(doc)[i].raw)[j]] == components_of(
            scan_regions(doc)[i].raw,
        )[j],
        (!is_floor_comp(components_of(scan_regions(doc)[i].raw)[j]) && x_region_scope(
            scan_regions(doc)[i],
            eff,
            def,
        )) ==> x_map(doc, eff, def).contains_key(components_of(scan_regions(doc)[i].raw)[j])
            && x_map(doc, eff, def)[components_of(scan_regions(doc)[i].raw)[j]] == eff,
{
    let regions = scan_regions(doc);
    let comps = components_of(regions[i].raw);
    let c = comps[j];
    if is_floor_comp(c) {
        lemma_y_insert_comps_member(y_fold(regions, i), comps, comps.len() as int, j);
        lemma_y_fold_frame(regions, regions.len() as int, i + 1, c);
    }
    if !is_floor_comp(c) && x_region_scope(regions[i], eff, def) {
        lemma_x_insert_comps_member(
            x_fold(regions, eff, def, i),
            comps,
            eff,
            comps.len() as int,
            j,
        );
        lemma_x_fold_frame(regions, eff, def, regions.len() as int, i + 1, c);
    }
}

/// One annotation step never touches the text before the range's end:
/// a replacement happens inside the window at or after the end, and an
/// insertion happens exactly at the end.
pub proof fn lemma_annotate_one_prefix(doc: Seq<char>, end: int, f: bool)
    requires
        0 <= end <= doc.len(),
    ensures
        crate::derive::annotate_one(doc, end, f).len() >= end,
        crate::derive::annotate_one(doc, end, f).subrange(0, end) == doc.subrange(0, end),
{
    let r = crate::derive::annotate_one(doc, end, f);
    crate::text::lemma_find_char_from(doc, '>', end);
    match crate::text::find_char_from(doc, '>', end) {
        None => {},
        Some(j) => {
            crate::text::lemma_find_sub_in(doc, crate::theme::focus_style(), end, j);
            crate::text::lemma_find_sub_in(doc, crate::theme::unfocus_style(), end, j);
            assert(r.subrange(0, end) =~= doc.subrange(0, end));
        },
    }
}

/// The text before a bound that every pending edit lies at or beyond is
/// never touched by the whole annotation pass.
proof fn lemma_annotate_all_prefix(
    doc: Seq<char>,
    ranges: Seq<(int, int)>,
    focus: Seq<(int, int)>,
    k: int,
    m: int,
)
    requires
        0 <= m <= doc.len(),
        forall|i: int| 0 <= i < k ==> (#[trigger] ranges[i]).1 >= m,
    ensures
        crate::derive::annotate_all(doc, ranges, focus, k).len() >= m,
        crate::derive::annotate_all(doc, ranges, focus, k).subrange(0, m) == doc.subrange(0, m),
    decreases k,
{
    if k > 0 {
        lemma_annotate_all_prefix(doc, ranges, focus, k - 1, m);
        let prev = crate::derive::annotate_all(doc, ranges, focus, k - 1);
        let end = ranges[k - 1].1;
        let f = focus.contains(ranges[k - 1]);
        if end <= prev.len() {
            lemma_annotate_one_prefix(prev, end, f);
            let r = crate::derive::annotate_one(prev, end, f);
            assert(r.subrange(0, m) =~= prev.subrange(0, m)) by {
                assert(forall|p: int|
                    0 <= p < end ==> r.subrange(0, end)[p] == prev.subrange(0, end)[p]);
            }
        } else {
            crate::text::lemma_find_char_from(prev, '>', end);
        }
    }
}

/// Right-to-left mutation safety: with the work list ordered by end
/// offset descending, applying any number of its edits leaves the text
/// before the last (lowest) end offset byte-identical to the input —
/// an edit at a high offset never corrupts a lower offset still waiting.
pub proof fn lemma_right_to_left_safety(
    doc: Seq<char>,
    ranges: Seq<(int, int)>,
    focus: Seq<(int, int)>,
    k: int,
)
    requires
        crate::edit::ends_descending(ranges),
        0 < k <= ranges.len(),
        0 <= ranges[k - 1].1 <= doc.len(),
    ensures
        crate::derive::annotate_all(doc, ranges, focus, k).len() >= ranges[k - 1].1,
        crate::derive::annotate_all(doc, ranges, focus, k).subrange(0, ranges[k - 1].1)
            == doc.subrange(0, ranges[k - 1].1),
{
    let m = ranges[k - 1].1;
    assert(forall|i: int| 0 <= i < k ==> (#[trigger] ranges[i]).1 >= m);
    lemma_annotate_all_prefix(doc, ranges, focus, k, m);
}

/// A range's window already carries exactly the style token its
/// classification prescribes (a range with no `>` after it is settled
/// trivially, since annotation skips it).
pub open spec fn window_settled(doc: Seq<char>, end: int, in_focus: bool) -> bool {
    match crate::text::find_char_from(doc, '>', end) {
        None => true,
        Some(j) => if in_focus {
            crate::text::find_sub_in(doc, crate::theme::focus_style(), end, j) is Some
        } else {
            crate::text::find_sub_in(doc, crate::theme::focus_style(), end, j) is None
                && crate::text::find_sub_in(doc, crate::theme::unfocus_style(), end, j) is Some
        },
    }
}

/// Replacing a token occurrence by the same token changes nothing.
proof fn lemma_splice_identity(s: Seq<char>, p: int, tok: Seq<char>)
    requires
        crate::text::sub_at(s, tok, p),
    ensures
        crate::text::splice(s, p, p + tok.len() as int, tok) == s,
{
    assert(crate::text::splice(s, p, p + tok.len() as int, tok) =~= s);
}

/// Annotating a settled range changes nothing: the pass replaces the
/// token it finds with itself.
pub proof fn lemma_annotate_one_settled(doc: Seq<char>, end: int, in_focus: bool)
    requires
        window_settled(doc, end, in_focus),
    ensures
        crate::derive::annotate_one(doc, end, in_focus) == doc,
{
    match crate::text::find_char_from(doc, '>', end) {
        None => {},
        Some(j) => {
            if in_focus {
                let p = crate::text::find_sub_in(
                    doc,
                    crate::theme::focus_style(),
                    end,
                    j,
                )->Some_0;
                crate::text::lemma_find_sub_in(doc, crate::theme::focus_style(), end, j);
                lemma_splice_identity(doc, p, crate::theme::focus_style());
            } else {
                let p = crate::text::find_sub_in(
                    doc,
                    crate::theme::unfocus_style(),
                    end,
                    j,
                )->Some_0;
                crate::text::lemma_find_sub_in(doc, crate::theme::unfocus_style(), end, j);
                lemma_splice_identity(doc, p, crate::theme::unfocus_style());
            }
        },
    }
}

/// Stability of re-annotation: when every range's window already carries
/// the token its classification prescribes — as it does in a document the
/// annotation pass produced under the same floor — running the pass again
/// returns the text byte-identical: tokens are replaced, never
/// accumulated.
pub proof fn lemma_annotation_stable(
    doc: Seq<char>,
    ranges: Seq<(int, int)>,
    focus: Seq<(int, int)>,
    k: int,
)
    requires
        forall|i: int|
            0 <= i < k ==> window_settled(
                doc,
                (#[trigger] ranges[i]).1,
                focus.contains(ranges[i]),
            ),
    ensures
        crate::derive::annotate_all(doc, ranges, focus, k) == doc,
    decreases k,
{
    if k > 0 {
        lemma_annotation_stable(doc, ranges, focus, k - 1);
        lemma_annotate_one_settled(doc, ranges[k - 1].1, focus.contains(ranges[k - 1]));
    }
}

/// Every region's window already carries the token of its class under
/// the effective floor — the state the annotation pass leaves a document
/// in.
pub open spec fn doc_settled(doc: Seq<char>, eff: Seq<char>) -> bool {
    forall|i: int|
        0 <= i < scan_regions(doc).len() ==> window_settled(
            doc,
            (#[trigger] scan_regions(doc)[i]).end,
            components_of(scan_regions(doc)[i].raw).contains(eff),
        )
}

/// The range list of the first `k` regions, indexed.
proof fn lemma_all_ranges_index(regions: Seq<SpecRegion>, k: int)
    requires
        0 <= k,
    ensures
        crate::derive::all_ranges_prefix(regions, k).len() == k,
        forall|j: int|
            0 <= j < k ==> #[trigger] crate::derive::all_ranges_prefix(regions, k)[j] == (
                regions[j].start,
                regions[j].end,
            ),
    decreases k,
{
    if k > 0 {
        lemma_all_ranges_index(regions, k - 1);
        assert(forall|j: int|
            0 <= j < k - 1 ==> crate::derive::all_ranges_prefix(regions, k)[j]
                == #[trigger] crate::derive::all_ranges_prefix(regions, k - 1)[j]);
    }
}

/// What the to-focus set holds: exactly the ranges of the in-scope
/// regions among the first `k`.
proof fn lemma_focus_ranges_contains(regions: Seq<SpecRegion>, eff: Seq<char>, k: int, x: (int, int))
    requires
        0 <= k,
    ensures
        crate::derive::focus_ranges_prefix(regions, eff, k).contains(x) <==> exists|i: int|
            0 <= i < k && ((#[trigger] regions[i]).start, regions[i].end) == x && components_of(
                regions[i].raw,
            ).contains(eff),
    decreases k,
{
    if k > 0 {
        lemma_focus_ranges_contains(regions, eff, k - 1, x);
        let pre = crate::derive::focus_ranges_prefix(regions, eff, k - 1);
        let cur = crate::derive::focus_ranges_prefix(regions, eff, k);
        if components_of(regions[k - 1].raw).contains(eff) {
            let r = (regions[k - 1].start, regions[k - 1].end);
            assert(cur == pre.push(r));
            if cur.contains(x) {
                let j = choose|j: int| 0 <= j < cur.len() && cur[j] == x;
                if j < pre.len() {
                    assert(pre[j] == x);
                    assert(pre.contains(x));
                } else {
                    assert(x == r);
                    assert(((regions[k - 1]).start, regions[k - 1].end) == x);
                }
            }
            if exists|i: int|
                0 <= i < k && ((#[trigger] regions[i]).start, regions[i].end) == x
                    && components_of(regions[i].raw).contains(eff) {
                let i = choose|i: int|
                    0 <= i < k && ((#[trigger] regions[i]).start, regions[i].end) == x
                        && components_of(regions[i].raw).contains(eff);
                if i < k - 1 {
                    assert(pre.contains(x));
                    let j = choose|j: int| 0 <= j < pre.len() && pre[j] == x;
                    assert(cur[j] == x);
                } else {
                    assert(cur[cur.len() - 1] == x);
                }
                assert(cur.contains(x));
            }
            if pre.contains(x) {
                let j = choose|j: int| 0 <= j < pre.len() && pre[j] == x;
                assert(cur[j] == x);
                assert(cur.contains(x));
            }
        }
    }
}

/// Idempotence of annotation: deriving an already-annotated document
/// under the same floor returns it byte-identical. "Already annotated"
/// means settled: every region's window carries the token of its own
/// class. Derivation then finds each existing token and replaces it with
/// itself — tokens are replaced, never accumulated.
pub proof fn lemma_derivation_idempotent(doc: Seq<char>, eff: Seq<char>)
    requires
        doc_settled(doc, eff),
    ensures
        crate::derive::derive_doc(doc, eff) == doc,
{
    let regions = scan_regions(doc);
    let n = regions.len() as int;
    let all = crate::derive::all_ranges_prefix(regions, n);
    let tf = crate::derive::focus_ranges_prefix(regions, eff, n);
    crate::scan::lemma_scan_regions_ordered(doc, 0);
    lemma_all_ranges_index(regions, n);
    assert forall|a: int, b: int| 0 <= a < b < all.len() implies all[a] != all[b] by {
        assert(all[a] == (regions[a].start, regions[a].end));
        assert(all[b] == (regions[b].start, regions[b].end));
        assert(regions[a].end <= regions[b].start);
        assert(regions[b].start < regions[b].end);
    }
    crate::edit::lemma_dedup_identity(all);
    crate::edit::lemma_sort_desc_membership(all);
    let work = crate::edit::sort_by_end_desc(all);
    assert(crate::edit::edit_order(all) == work);
    assert forall|j: int| 0 <= j < work.len() implies window_settled(
        doc,
        (#[trigger] work[j]).1,
        tf.contains(work[j]),
    ) by {
        assert(all.contains(work[j]));
        let a = choose|a: int| 0 <= a < all.len() && all[a] == work[j];
        assert(all[a] == (regions[a].start, regions[a].end));
        let class_a = components_of(regions[a].raw).contains(eff);
        assert(window_settled(doc, regions[a].end, class_a));
        lemma_focus_ranges_contains(regions, eff, n, work[j]);
        if class_a {
            assert(((regions[a]).start, regions[a].end) == work[j]);
            assert(tf.contains(work[j]));
        } else {
            if tf.contains(work[j]) {
                let i2 = choose|i2: int|
                    0 <= i2 < n && ((#[trigger] regions[i2]).start, regions[i2].end) == work[j]
                        && components_of(regions[i2].raw).contains(eff);
                if i2 < a {
                    assert(regions[i2].end <= regions[a].start);
                    assert(regions[a].start < regions[a].end);
                    assert(false);
                } else if i2 > a {
                    assert(regions[a].end <= regions[i2].start);
                    assert(regions[i2].start < regions[i2].end);
                    assert(false);
                }
                assert(false);
            }
        }
    }
    lemma_annotation_stable(doc, work, tf, work.len() as int);
}

/// The axis folds read nothing of a region but its raw tag value.
proof fn lemma_axis_folds_from_raws(
    a: Seq<SpecRegion>,
    b: Seq<SpecRegion>,
    eff: Seq<char>,
    def: Seq<char>,
    k: int,
)
    requires
        a.len() == b.len(),
        k <= a.len(),
        forall|i: int| 0 <= i < a.len() ==> (#[trigger] a[i]).raw == b[i].raw,
    ensures
        x_fold(a, eff, def, k) == x_fold(b, eff, def, k),
        y_fold(a, k) == y_fold(b, k),
    decreases k,
{
    if 0 < k {
        lemma_axis_folds_from_raws(a, b, eff, def, k - 1);
    }
}

/// The axis maps depend on the tag values alone. Two documents whose
/// region scans carry the same raw tags in the same order — as a document
/// and its re-annotated form do, offsets shifted but values untouched —
/// derive equal slot-to-floor and floor-set maps: the half of
/// re-derivation stability that concerns the axes.
pub proof fn lemma_axis_maps_from_tags(d1: Seq<char>, d2: Seq<char>, eff: Seq<char>, def: Seq<char>)
    requires
        scan_regions(d1).len() == scan_regions(d2).len(),
        forall|i: int|
            0 <= i < scan_regions(d1).len() ==> (#[trigger] scan_regions(d1)[i]).raw
                == scan_regions(d2)[i].raw,
    ensures
        x_map(d1, eff, def) == x_map(d2, eff, def),
        y_map(d1) == y_map(d2),
{
    lemma_axis_folds_from_raws(
        scan_regions(d1),
        scan_regions(d2),
        eff,
        def,
        scan_regions(d1).len() as int,
    );
}

/// A worklist drawn from containers that all start at or beyond a bound
/// never touches the text before it.
proof fn lemma_build_fold_prefix(doc: Seq<char>, nests: Seq<crate::svg::SpecNest>, i: int, m: int)
    requires
        0 <= m <= doc.len(),
        forall|j: int| 0 <= j < nests.len() ==> (#[trigger] nests[j]).g_start >= m,
    ensures
        crate::svg::build_fold(doc, nests, i).len() >= m,
        crate::svg::build_fold(doc, nests, i).subrange(0, m) == doc.subrange(0, m),
    decreases nests.len() - i,
{
    if 0 <= i < nests.len() {
        let j = crate::svg::run_end_from(nests, i, i + 1);
        let n = nests[i];
        let newg = crate::svg::container_fold(n.g_value, nests, i, j);
        let doc2 = if crate::svg::run_has_shape(nests, i, j) && 0 <= n.g_start && n.g_start
            <= n.g_end && n.g_end <= doc.len() {
            crate::text::splice(doc, n.g_start, n.g_end, newg)
        } else {
            doc
        };
        assert(doc2.len() >= m);
        assert(doc2.subrange(0, m) =~= doc.subrange(0, m));
        let next = if i < j && j <= nests.len() {
            j
        } else {
            i + 1
        };
        lemma_build_fold_prefix(doc2, nests, next, m);
        assert(crate::svg::build_fold(doc2, nests, next).subrange(0, m) =~= doc.subrange(0, m));
    }
}

/// Inserting into the worklist ordering adds exactly the new record.
proof fn lemma_insert_nest_membership(s: Seq<crate::svg::SpecNest>, x: crate::svg::SpecNest)
    ensures
        crate::svg::insert_nest(s, x).len() == s.len() + 1,
        forall|j: int|
            0 <= j < crate::svg::insert_nest(s, x).len() ==> crate::svg::insert_nest(s, x)[j] == x
                || s.contains(crate::svg::insert_nest(s, x)[j]),
    decreases s.len(),
{
    let r = crate::svg::insert_nest(s, x);
    if s.len() == 0 {
    } else if crate::svg::nest_ge(s[0], x) {
        let rest = s.drop_first();
        lemma_insert_nest_membership(rest, x);
        let inner = crate::svg::insert_nest(rest, x);
        assert forall|j: int| 0 <= j < r.len() implies (r[j] == x || s.contains(r[j])) by {
            if j == 0 {
                assert(r[0] == s[0]);
                assert(s.contains(s[0]));
            } else {
                assert(r[j] == inner[j - 1]);
                if inner[j - 1] != x {
                    assert(rest.contains(inner[j - 1]));
                    let k = choose|k: int| 0 <= k < rest.len() && rest[k] == inner[j - 1];
                    assert(s[k + 1] == inner[j - 1]);
                    assert(s.contains(inner[j - 1]));
                }
            }
        }
    } else {
        assert forall|j: int| 0 <= j < r.len() implies (r[j] == x || s.contains(r[j])) by {
            if j > 0 {
                assert(r[j] == s[j - 1]);
                assert(s.contains(s[j - 1]));
            }
        }
    }
}

/// Sorting the worklist reorders it without inventing records.
proof fn lemma_sort_nests_membership(s: Seq<crate::svg::SpecNest>)
    ensures
        crate::svg::sort_nests(s).len() == s.len(),
        forall|j: int|
            0 <= j < crate::svg::sort_nests(s).len() ==> s.contains(crate::svg::sort_nests(s)[j]),
    decreases s.len(),
{
    if s.len() > 0 {
        let pre = s.drop_last();
        lemma_sort_nests_membership(pre);
        lemma_insert_nest_membership(crate::svg::sort_nests(pre), s.last());
        let r = crate::svg::sort_nests(s);
        assert forall|j: int| 0 <= j < r.len() implies s.contains(r[j]) by {
            if r[j] == s.last() {
                assert(s[s.len() - 1] == s.last());
            } else {
                assert(crate::svg::sort_nests(pre).contains(r[j]));
                let k = choose|k: int|
                    0 <= k < crate::svg::sort_nests(pre).len() && crate::svg::sort_nests(pre)[k]
                        == r[j];
                assert(pre.contains(crate::svg::sort_nests(pre)[k]));
                let k2 = choose|k2: int| 0 <= k2 < pre.len() && pre[k2] == r[j];
                assert(s[k2] == r[j]);
            }
        }
    }
}

/// Every worklist record of the first `k` containers comes from an
/// in-scope container, carrying that container's span.
proof fn lemma_nests_prefix_starts(
    doc: Seq<char>,
    containers: Seq<(int, int)>,
    slot: Seq<char>,
    floor: Seq<char>,
    k: int,
    m: int,
)
    requires
        forall|i: int|
            0 <= i < k && crate::svg::container_matches(doc, #[trigger] containers[i], slot, floor)
                ==> containers[i].0 >= m,
    ensures
        forall|j: int|
            0 <= j < crate::svg::nests_prefix(doc, containers, slot, floor, k).len() ==> (
            #[trigger] crate::svg::nests_prefix(doc, containers, slot, floor, k)[j]).g_start >= m,
    decreases k,
{
    if k > 0 {
        lemma_nests_prefix_starts(doc, containers, slot, floor, k - 1, m);
        let pre = crate::svg::nests_prefix(doc, containers, slot, floor, k - 1);
        let cur = crate::svg::nests_prefix(doc, containers, slot, floor, k);
        if crate::svg::container_matches(doc, containers[k - 1], slot, floor) {
            let add = crate::svg::nests_of_container(doc, containers[k - 1]);
            assert forall|j: int| 0 <= j < cur.len() implies (#[trigger] cur[j]).g_start >= m by {
                if j < pre.len() {
                    assert(cur[j] == pre[j]);
                } else {
                    assert(cur[j] == add[j - pre.len()]);
                    assert(add[j - pre.len()].g_start == containers[k - 1].0);
                }
            }
        }
    }
}

/// Scope-restricted highlighting, prefix form: highlighting changes
/// nothing in the text before any in-scope container — a container that
/// does not match both the requested slot and the active floor, lying
/// before every matching one, is returned byte-identical within its span.
pub proof fn lemma_scope_restricted_prefix(doc: Seq<char>, slot: Seq<char>, floor: Seq<char>, m: int)
    requires
        0 <= m <= doc.len(),
        forall|i: int|
            0 <= i < crate::scan::scan_containers(doc).len() && crate::svg::container_matches(
                doc,
                #[trigger] crate::scan::scan_containers(doc)[i],
                slot,
                floor,
            ) ==> crate::scan::scan_containers(doc)[i].0 >= m,
    ensures
        crate::svg::highlight_doc(doc, slot, floor).len() >= m,
        crate::svg::highlight_doc(doc, slot, floor).subrange(0, m) == doc.subrange(0, m),
{
    let containers = crate::scan::scan_containers(doc);
    let nests = crate::svg::nests_prefix(doc, containers, slot, floor, containers.len() as int);
    lemma_nests_prefix_starts(doc, containers, slot, floor, containers.len() as int, m);
    lemma_sort_nests_membership(nests);
    let sorted = crate::svg::sort_nests(nests);
    assert forall|j: int| 0 <= j < sorted.len() implies (#[trigger] sorted[j]).g_start >= m by {
        assert(nests.contains(sorted[j]));
        let k = choose|k: int| 0 <= k < nests.len() && nests[k] == sorted[j];
        assert(nests[k].g_start >= m);
    }
    lemma_build_fold_prefix(doc, sorted, 0, m);
}

/// Scope-restricted highlighting, vacuous form: when no container
/// matches both the requested slot and the active floor, highlighting
/// returns the document byte-identical.
pub proof fn lemma_scope_restricted_identity(doc: Seq<char>, slot: Seq<char>, floor: Seq<char>)
    requires
        forall|i: int|
            0 <= i < crate::scan::scan_containers(doc).len() ==> !crate::svg::container_matches(
                doc,
                #[trigger] crate::scan::scan_containers(doc)[i],
                slot,
                floor,
            ),
    ensures
        crate::svg::highlight_doc(doc, slot, floor) == doc,
{
    let containers = crate::scan::scan_containers(doc);
    assert forall|k: int| 0 <= k <= containers.len() implies crate::svg::nests_prefix(
        doc,
        containers,
        slot,
        floor,
        k,
    ) =~= Seq::<crate::svg::SpecNest>::empty() by {
        lemma_nests_prefix_trivial(doc, containers, slot, floor, k);
    }
    assert(crate::svg::sort_nests(Seq::<crate::svg::SpecNest>::empty())
        =~= Seq::<crate::svg::SpecNest>::empty());
}

/// With no matching container, the worklist is empty.
proof fn lemma_nests_prefix_trivial(
    doc: Seq<char>,
    containers: Seq<(int, int)>,
    slot: Seq<char>,
    floor: Seq<char>,
    k: int,
)
    requires
        forall|i: int|
            0 <= i < containers.len() ==> !crate::svg::container_matches(
                doc,
                #[trigger] containers[i],
                slot,
                floor,
            ),
    ensures
        k <= containers.len() ==> crate::svg::nests_prefix(doc, containers, slot, floor, k)
            == Seq::<crate::svg::SpecNest>::empty(),
    decreases k,
{
    if k > 0 {
        lemma_nests_prefix_trivial(doc, containers, slot, floor, k - 1);
    }
}

} // verus!
