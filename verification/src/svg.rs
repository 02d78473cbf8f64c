//! The slot highlighter's worklist and splicing pass.
//!
//! The highlighter collects, for every in-scope outer container, its
//! inner shape regions as nested-element records: the shape's span and
//! text, its parent container's span and text, and its shape kind. The
//! build step orders the worklist by container end descending (shapes of
//! one container likewise end-descending), restyles each shape of the
//! restylable kind, splices it back into its container's text, and
//! splices the container back into a copy of the document — never the
//! text being scanned.

use vstd::prelude::*;
use vstd::string::StringExecFns;
use crate::text::contains_sub;
use crate::text::replace_all_from;
use crate::text::splice;
use crate::text::contains;
use crate::text::replace_all;
use crate::text::splice_exec;
use crate::text::str_to_chars;
use crate::text::chars_to_string;
use crate::text::subvec;
use crate::text::chars_eq;
use crate::tag::components_of;
use crate::theme::focus_style;
use crate::theme::highlight_style;
use crate::theme::focus_style_chars;
use crate::theme::highlight_style_chars;

verus! {

/// One worklist record: an inner shape inside an outer container. Shape
/// offsets are relative to the container's text; container offsets are
/// relative to the document.
#[derive(Debug, PartialEq, Eq)]
pub struct NestedElement {
    pub polygon_element_start: usize,
    pub polygon_element_end: usize,
    pub polygon_element_value: String,
    pub g_tag_element_start: usize,
    pub g_tag_element_end: usize,
    pub g_tag_element_value: String,
    pub shape_element_tag_name_value: String,
}

/// The mathematical counterpart of a worklist record.
pub struct SpecNest {
    pub p_start: int,
    pub p_end: int,
    pub p_value: Seq<char>,
    pub g_start: int,
    pub g_end: int,
    pub g_value: Seq<char>,
    pub kind: Seq<char>,
}

impl View for NestedElement {
    type V = SpecNest;

    open spec fn view(&self) -> SpecNest {
        SpecNest {
            p_start: self.polygon_element_start as int,
            p_end: self.polygon_element_end as int,
            p_value: self.polygon_element_value@,
            g_start: self.g_tag_element_start as int,
            g_end: self.g_tag_element_end as int,
            g_value: self.g_tag_element_value@,
            kind: self.shape_element_tag_name_value@,
        }
    }
}

/// The views of a vector of records.
pub open spec fn nest_views(v: Seq<NestedElement>) -> Seq<SpecNest> {
    v.map_values(|n: NestedElement| n@)
}

/// The shape kind that receives highlighting.
pub open spec fn polygon_kind() -> Seq<char> {
    "polygon"@
}

/// A shape's text restyled: an existing focus token (every occurrence)
/// becomes the highlight token; otherwise the highlight token is inserted
/// just past the opening tag name — nine cells in, clamped to the text's
/// length.
pub open spec fn restyle_shape(p: Seq<char>) -> Seq<char> {
    if contains_sub(p, focus_style()) {
        replace_all_from(p, focus_style(), highlight_style(), 0)
    } else {
        let at = if p.len() < 9 {
            p.len() as int
        } else {
            9
        };
        splice(p, at, at, highlight_style())
    }
}

/// One shape applied to the container text under construction. A record
/// of another kind, or one whose span does not fit the text, leaves it
/// alone.
pub open spec fn container_step(acc: Seq<char>, n: SpecNest) -> Seq<char> {
    if n.kind == polygon_kind() && 0 <= n.p_start && n.p_start <= n.p_end && n.p_end <= acc.len() {
        splice(acc, n.p_start, n.p_end, restyle_shape(n.p_value))
    } else {
        acc
    }
}

/// The container text after the shapes of the records `[i, j)`.
pub open spec fn container_fold(acc: Seq<char>, nests: Seq<SpecNest>, i: int, j: int) -> Seq<char>
    decreases j - i,
{
    if i < 0 || i >= j || j > nests.len() {
        acc
    } else {
        container_fold(container_step(acc, nests[i]), nests, i + 1, j)
    }
}

/// Two records belong to the same container occurrence.
pub open spec fn same_container(a: SpecNest, b: SpecNest) -> bool {
    a.g_start == b.g_start && a.g_end == b.g_end && a.g_value == b.g_value
}

/// The first index at or after `k` where the container run starting at
/// `i` ends.
pub open spec fn run_end_from(nests: Seq<SpecNest>, i: int, k: int) -> int
    decreases nests.len() - k,
{
    if k < 0 || k >= nests.len() {
        nests.len() as int
    } else if !same_container(nests[k], nests[i]) {
        k
    } else {
        run_end_from(nests, i, k + 1)
    }
}

/// Some record of the run `[i, j)` is of the restylable kind.
pub open spec fn run_has_shape(nests: Seq<SpecNest>, i: int, j: int) -> bool {
    exists|k: int| i <= k < j && (#[trigger] nests[k]).kind == polygon_kind()
}

/// The document after every container run of the ordered worklist from
/// index `i` on: each run's container text is rebuilt from its shapes and
/// spliced over the container's span. A run holding no record of the
/// restylable kind causes no edit at all, and a span that does not fit
/// the document is skipped.
pub open spec fn build_fold(doc: Seq<char>, nests: Seq<SpecNest>, i: int) -> Seq<char>
    decreases nests.len() - i,
{
    if i < 0 || i >= nests.len() {
        doc
    } else {
        let j = run_end_from(nests, i, i + 1);
        let n = nests[i];
        let newg = container_fold(n.g_value, nests, i, j);
        let doc2 = if run_has_shape(nests, i, j) && 0 <= n.g_start && n.g_start <= n.g_end
            && n.g_end <= doc.len() {
            splice(doc, n.g_start, n.g_end, newg)
        } else {
            doc
        };
        build_fold(
            doc2,
            nests,
            if i < j && j <= nests.len() {
                j
            } else {
                i + 1
            },
        )
    }
}

/// The ordering of the worklist: container end descending, then shape
/// end descending, stable.
pub open spec fn nest_ge(a: SpecNest, b: SpecNest) -> bool {
    a.g_end > b.g_end || (a.g_end == b.g_end && a.p_end >= b.p_end)
}

/// `x` inserted behind every record that orders at or before it.
pub open spec fn insert_nest(s: Seq<SpecNest>, x: SpecNest) -> Seq<SpecNest>
    decreases s.len(),
{
    if s.len() == 0 {
        seq![x]
    } else if nest_ge(s[0], x) {
        seq![s[0]] + insert_nest(s.drop_first(), x)
    } else {
        seq![x] + s
    }
}

/// The worklist sorted (stable insertion sort).
pub open spec fn sort_nests(s: Seq<SpecNest>) -> Seq<SpecNest>
    decreases s.len(),
{
    if s.len() == 0 {
        Seq::empty()
    } else {
        insert_nest(sort_nests(s.drop_last()), s.last())
    }
}

/// Where `insert_nest` puts the new record.
pub proof fn lemma_insert_nest_split(s: Seq<SpecNest>, x: SpecNest, j: int)
    requires
        0 <= j <= s.len(),
        forall|k: int| 0 <= k < j ==> nest_ge(#[trigger] s[k], x),
        j < s.len() ==> !nest_ge(s[j], x),
    ensures
        insert_nest(s, x) == s.insert(j, x),
    decreases s.len(),
{
    if s.len() == 0 {
        assert(insert_nest(s, x) =~= s.insert(0, x));
    } else if j == 0 {
        assert(!nest_ge(s[0], x));
        assert(insert_nest(s, x) =~= s.insert(0, x));
    } else {
        let rest = s.drop_first();
        assert(nest_ge(s[0], x));
        assert(forall|k: int| 0 <= k < j - 1 ==> nest_ge(#[trigger] rest[k], x)) by {
            assert(forall|k: int| 0 <= k < rest.len() ==> rest[k] == s[k + 1]);
        }
        lemma_insert_nest_split(rest, x, j - 1);
        assert(seq![s[0]] + insert_nest(rest, x) =~= s.insert(j, x));
    }
}

/// What `build` computes from a worklist and a document.
pub open spec fn build_spec(nests: Seq<SpecNest>, doc: Seq<char>) -> Seq<char> {
    build_fold(doc, sort_nests(nests), 0)
}

/// The worklist and the text it applies to.
#[derive(Debug, PartialEq, Eq)]
pub struct BuildNestedElement {
    pub nests: Vec<NestedElement>,
    pub svg_content: String,
}

/// Decides the worklist ordering between two records.
fn nest_ge_exec(a: &NestedElement, b: &NestedElement) -> (r: bool)
    ensures
        r == nest_ge(a@, b@),
{
    a.g_tag_element_end > b.g_tag_element_end || (a.g_tag_element_end == b.g_tag_element_end
        && a.polygon_element_end >= b.polygon_element_end)
}

/// Decides whether two records belong to the same container occurrence.
fn same_container_exec(a: &NestedElement, b: &NestedElement) -> (r: bool)
    ensures
        r == same_container(a@, b@),
{
    a.g_tag_element_start == b.g_tag_element_start && a.g_tag_element_end == b.g_tag_element_end
        && a.g_tag_element_value == b.g_tag_element_value
}

/// A field-for-field copy of a record.
fn clone_nest(n: &NestedElement) -> (r: NestedElement)
    ensures
        r == *n,
{
    NestedElement {
        polygon_element_start: n.polygon_element_start,
        polygon_element_end: n.polygon_element_end,
        polygon_element_value: n.polygon_element_value.clone(),
        g_tag_element_start: n.g_tag_element_start,
        g_tag_element_end: n.g_tag_element_end,
        g_tag_element_value: n.g_tag_element_value.clone(),
        shape_element_tag_name_value: n.shape_element_tag_name_value.clone(),
    }
}

/// Restyles one shape text.
fn restyle_shape_exec(p: &Vec<char>, focus_c: &Vec<char>, hl_c: &Vec<char>) -> (r: Vec<char>)
    requires
        focus_c@ == focus_style(),
        hl_c@ == highlight_style(),
    ensures
        r@ == restyle_shape(p@),
{
    if contains(p, focus_c) {
        replace_all(p, focus_c, hl_c)
    } else {
        let at: usize = if p.len() < 9 {
            p.len()
        } else {
            9
        };
        splice_exec(p, at, at, hl_c)
    }
}

impl BuildNestedElement {
    /// Applies the worklist: the document text with every recorded
    /// shape of the restylable kind carrying the highlight token. A
    /// container whose run holds no record of that kind is left out of
    /// the pass entirely — no edit is made for it.
    pub fn build(&mut self) -> (r: String)
        ensures
            r@ == build_spec(nest_views(old(self).nests@), old(self).svg_content@),
            *final(self) == *old(self),
    {
        let focus_c = focus_style_chars();
        let hl_c = highlight_style_chars();
        let poly_c = str_to_chars("polygon");
        let ghost orig = nest_views(self.nests@);

        // Stable insertion sort by container end, then shape end,
        // both descending.
        let mut sorted: Vec<NestedElement> = Vec::new();
        let mut i: usize = 0;
        while i < self.nests.len()
            invariant
                i <= self.nests.len(),
                orig == nest_views(self.nests@),
                nest_views(sorted@) == sort_nests(orig.subrange(0, i as int)),
            decreases self.nests.len() - i,
        {
            let ghost pre = nest_views(sorted@);
            let x = clone_nest(&self.nests[i]);
            let ghost xv = x@;
            let mut j: usize = 0;
            while j < sorted.len() && nest_ge_exec(&sorted[j], &x)
                invariant
                    j <= sorted.len(),
                    nest_views(sorted@) == pre,
                    xv == x@,
                    forall|k: int| 0 <= k < j ==> nest_ge(#[trigger] nest_views(sorted@)[k], xv),
                decreases sorted.len() - j,
            {
                proof {
                    assert(nest_views(sorted@)[j as int] == sorted@[j as int]@);
                }
                j = j + 1;
            }
            proof {
                if j < sorted.len() {
                    assert(nest_views(sorted@)[j as int] == sorted@[j as int]@);
                }
            }
            sorted.insert(j, x);
            proof {
                assert(nest_views(sorted@) =~= pre.insert(j as int, xv));
                lemma_insert_nest_split(pre, xv, j as int);
                assert(orig.subrange(0, (i + 1) as int).drop_last() =~= orig.subrange(0, i as int));
                assert(orig.subrange(0, (i + 1) as int).last() == orig[i as int]);
            }
            i = i + 1;
        }
        proof {
            assert(orig.subrange(0, orig.len() as int) =~= orig);
        }
        let ghost snests = nest_views(sorted@);

        // Apply runs of records, one container occurrence at a time,
        // working from the highest container end down.
        let mut doc = str_to_chars(self.svg_content.as_str());
        let ghost doc0 = doc@;
        let mut i: usize = 0;
        while i < sorted.len()
            invariant
                i <= sorted.len(),
                snests == nest_views(sorted@),
                focus_c@ == focus_style(),
                hl_c@ == highlight_style(),
                poly_c@ == polygon_kind(),
                build_fold(doc0, snests, 0) == build_fold(doc@, snests, i as int),
            decreases sorted.len() - i,
        {
            proof {
                assert(nest_views(sorted@)[i as int] == sorted@[i as int]@);
            }
            // Find the end of this container's run.
            let mut j: usize = i + 1;
            while j < sorted.len() && same_container_exec(&sorted[j], &sorted[i])
                invariant
                    i < j <= sorted.len(),
                    snests == nest_views(sorted@),
                    run_end_from(snests, i as int, i + 1) == run_end_from(snests, i as int, j as int),
                decreases sorted.len() - j,
            {
                proof {
                    assert(nest_views(sorted@)[j as int] == sorted@[j as int]@);
                    assert(nest_views(sorted@)[i as int] == sorted@[i as int]@);
                }
                j = j + 1;
            }
            proof {
                if j < sorted.len() {
                    assert(nest_views(sorted@)[j as int] == sorted@[j as int]@);
                    assert(nest_views(sorted@)[i as int] == sorted@[i as int]@);
                }
                assert(run_end_from(snests, i as int, i + 1) == j as int);
            }

            // Rebuild this container's text from its shapes, noting
            // whether the run holds any record of the restylable kind.
            let mut acc = str_to_chars(sorted[i].g_tag_element_value.as_str());
            let ghost gv = snests[i as int].g_value;
            let mut any_shape: bool = false;
            let mut m: usize = i;
            while m < j
                invariant
                    i <= m <= j <= sorted.len(),
                    snests == nest_views(sorted@),
                    focus_c@ == focus_style(),
                    hl_c@ == highlight_style(),
                    poly_c@ == polygon_kind(),
                    any_shape == run_has_shape(snests, i as int, m as int),
                    container_fold(gv, snests, i as int, j as int) == container_fold(
                        acc@,
                        snests,
                        m as int,
                        j as int,
                    ),
                decreases j - m,
            {
                proof {
                    assert(nest_views(sorted@)[m as int] == sorted@[m as int]@);
                }
                let n = &sorted[m];
                let kind_c = str_to_chars(n.shape_element_tag_name_value.as_str());
                let is_shape = chars_eq(&kind_c, &poly_c);
                if is_shape {
                    any_shape = true;
                    proof {
                        assert(snests[m as int].kind == polygon_kind());
                        assert(run_has_shape(snests, i as int, (m + 1) as int));
                    }
                    if n.polygon_element_start <= n.polygon_element_end && n.polygon_element_end
                        <= acc.len() {
                        let pv = str_to_chars(n.polygon_element_value.as_str());
                        let styled = restyle_shape_exec(&pv, &focus_c, &hl_c);
                        acc = splice_exec(
                            &acc,
                            n.polygon_element_start,
                            n.polygon_element_end,
                            &styled,
                        );
                    }
                } else {
                    proof {
                        if run_has_shape(snests, i as int, (m + 1) as int) {
                            let k = choose|k: int|
                                i <= k < m + 1 && (#[trigger] snests[k]).kind == polygon_kind();
                            assert(k < m);
                            assert(run_has_shape(snests, i as int, m as int));
                        }
                        if run_has_shape(snests, i as int, m as int) {
                            let k = choose|k: int|
                                i <= k < m && (#[trigger] snests[k]).kind == polygon_kind();
                            assert(run_has_shape(snests, i as int, (m + 1) as int));
                        }
                    }
                }
                m = m + 1;
            }

            // Splice the rebuilt container over its span in the copy —
            // only when the run held a restylable record.
            let n = &sorted[i];
            if any_shape && n.g_tag_element_start <= n.g_tag_element_end && n.g_tag_element_end
                <= doc.len() {
                doc = splice_exec(&doc, n.g_tag_element_start, n.g_tag_element_end, &acc);
            }
            i = j;
        }
        chars_to_string(&doc)
    }
}

/// Whether a container occurrence is in scope: some tag-attribute region
/// inside its text has components containing both the requested slot and
/// the active floor.
pub open spec fn container_matches(
    doc: Seq<char>,
    c: (int, int),
    slot: Seq<char>,
    floor: Seq<char>,
) -> bool {
    let ctext = doc.subrange(c.0, c.1);
    exists|k: int|
        0 <= k < crate::scan::scan_regions(ctext).len() && components_of(
            #[trigger] crate::scan::scan_regions(ctext)[k].raw,
        ).contains(slot) && components_of(crate::scan::scan_regions(ctext)[k].raw).contains(floor)
}

/// The worklist records of one container occurrence: every shape opening
/// tag of its text, paired with the container's span and text, of the
/// restylable kind.
pub open spec fn nests_of_container(doc: Seq<char>, c: (int, int)) -> Seq<SpecNest> {
    let ctext = doc.subrange(c.0, c.1);
    crate::scan::scan_shapes(ctext).map_values(
        |s: (int, int)|
            SpecNest {
                p_start: s.0,
                p_end: s.1,
                p_value: ctext.subrange(s.0, s.1),
                g_start: c.0,
                g_end: c.1,
                g_value: ctext,
                kind: polygon_kind(),
            },
    )
}

/// The worklist of the first `k` containers: the in-scope ones
/// contribute their shapes, the others nothing.
pub open spec fn nests_prefix(
    doc: Seq<char>,
    containers: Seq<(int, int)>,
    slot: Seq<char>,
    floor: Seq<char>,
    k: int,
) -> Seq<SpecNest>
    decreases k,
{
    if k <= 0 {
        Seq::empty()
    } else {
        let pre = nests_prefix(doc, containers, slot, floor, k - 1);
        if container_matches(doc, containers[k - 1], slot, floor) {
            pre + nests_of_container(doc, containers[k - 1])
        } else {
            pre
        }
    }
}

/// The highlighted document: the worklist of every in-scope container,
/// applied by `build` to a copy of the focus-annotated text.
pub open spec fn highlight_doc(doc: Seq<char>, slot: Seq<char>, floor: Seq<char>) -> Seq<char> {
    let containers = crate::scan::scan_containers(doc);
    build_spec(nests_prefix(doc, containers, slot, floor, containers.len() as int), doc)
}

/// Decides whether a container text is in scope.
fn scope_match(ctext: &Vec<char>, slot: &Vec<char>, floor: &Vec<char>) -> (r: bool)
    ensures
        r == exists|k: int|
            0 <= k < crate::scan::scan_regions(ctext@).len() && components_of(
                #[trigger] crate::scan::scan_regions(ctext@)[k].raw,
            ).contains(slot@) && components_of(crate::scan::scan_regions(ctext@)[k].raw).contains(
                floor@,
            ),
{
    let regions = crate::scan::scan_regions_exec(ctext);
    let ghost sregs = crate::scan::scan_regions(ctext@);
    let mut i: usize = 0;
    while i < regions.len()
        invariant
            i <= regions.len(),
            sregs == crate::scan::scan_regions(ctext@),
            crate::scan::region_views(regions@) == sregs,
            forall|m: int|
                0 <= m < i ==> !(components_of(#[trigger] sregs[m].raw).contains(slot@)
                    && components_of(sregs[m].raw).contains(floor@)),
        decreases regions.len() - i,
    {
        proof {
            assert(crate::scan::region_views(regions@)[i as int] == regions@[i as int]@);
        }
        let comps = crate::tag::tag_components(&regions[i].raw);
        if crate::tag::comps_contain(&comps, slot) && crate::tag::comps_contain(&comps, floor) {
            proof {
                assert(0 <= i < sregs.len() && components_of(
                    #[trigger] crate::scan::scan_regions(ctext@)[i as int].raw,
                ).contains(slot@) && components_of(
                    crate::scan::scan_regions(ctext@)[i as int].raw,
                ).contains(floor@));
            }
            return true;
        }
        i = i + 1;
    }
    false
}

/// Collects the worklist of an annotated document for one slot within
/// one floor, and applies it: the highlighter's whole text pass.
pub fn highlight_pass(doc: &Vec<char>, slot: &Vec<char>, floor: &Vec<char>) -> (r: String)
    ensures
        r@ == highlight_doc(doc@, slot@, floor@),
{
    let containers = crate::scan::scan_containers_exec(doc);
    let ghost sconts = crate::scan::scan_containers(doc@);
    let mut nests: Vec<NestedElement> = Vec::new();
    let mut i: usize = 0;
    while i < containers.len()
        invariant
            i <= containers.len(),
            crate::edit::range_views(containers@) == sconts,
            forall|k: int|
                0 <= k < containers@.len() ==> #[trigger] containers@[k].0 <= containers@[k].1
                    && containers@[k].1 <= doc@.len(),
            nest_views(nests@) == nests_prefix(doc@, sconts, slot@, floor@, i as int),
        decreases containers.len() - i,
    {
        proof {
            assert(crate::edit::range_views(containers@)[i as int] == (
                containers@[i as int].0 as int,
                containers@[i as int].1 as int,
            ));
        }
        let c = containers[i];
        let cs = c.0;
        let ce = c.1;
        let ctext = subvec(doc, cs, ce);
        let ghost cv = (cs as int, ce as int);
        let ghost pre = nest_views(nests@);
        if scope_match(&ctext, slot, floor) {
            proof {
                assert(container_matches(doc@, cv, slot@, floor@));
            }
            let shapes = crate::scan::scan_shapes_exec(&ctext);
            let ghost sshapes = crate::scan::scan_shapes(ctext@);
            let ghost conts = nests_of_container(doc@, cv);
            let gvalue = chars_to_string(&ctext);
            let mut m: usize = 0;
            while m < shapes.len()
                invariant
                    m <= shapes.len(),
                    sshapes == crate::scan::scan_shapes(ctext@),
                    crate::edit::range_views(shapes@) == sshapes,
                    forall|k: int|
                        0 <= k < shapes@.len() ==> #[trigger] shapes@[k].0 <= shapes@[k].1
                            && shapes@[k].1 <= ctext@.len(),
                    cv == (cs as int, ce as int),
                    ctext@ == doc@.subrange(cv.0, cv.1),
                    gvalue@ == ctext@,
                    conts == nests_of_container(doc@, cv),
                    conts.len() == sshapes.len(),
                    nest_views(nests@) == pre + conts.subrange(0, m as int),
                decreases shapes.len() - m,
            {
                proof {
                    assert(crate::edit::range_views(shapes@)[m as int] == (
                        shapes@[m as int].0 as int,
                        shapes@[m as int].1 as int,
                    ));
                }
                let s = shapes[m];
                let pv = subvec(&ctext, s.0, s.1);
                let nest = NestedElement {
                    polygon_element_start: s.0,
                    polygon_element_end: s.1,
                    polygon_element_value: chars_to_string(&pv),
                    g_tag_element_start: cs,
                    g_tag_element_end: ce,
                    g_tag_element_value: gvalue.clone(),
                    shape_element_tag_name_value: String::from_str("polygon"),
                };
                proof {
                    let sh = crate::scan::scan_shapes(ctext@)[m as int];
                    assert(conts[m as int] == SpecNest {
                        p_start: sh.0,
                        p_end: sh.1,
                        p_value: doc@.subrange(cv.0, cv.1).subrange(sh.0, sh.1),
                        g_start: cv.0,
                        g_end: cv.1,
                        g_value: doc@.subrange(cv.0, cv.1),
                        kind: polygon_kind(),
                    });
                    assert(nest@.p_start == conts[m as int].p_start);
                    assert(nest@.p_end == conts[m as int].p_end);
                    assert(nest@.p_value == conts[m as int].p_value);
                    assert(nest@.g_start == conts[m as int].g_start);
                    assert(nest@.g_end == conts[m as int].g_end);
                    assert(nest@.g_value == conts[m as int].g_value);
                    assert(nest@.kind == conts[m as int].kind);
                    assert(nest@ == conts[m as int]);
                }
                let ghost nv_pre = nest_views(nests@);
                nests.push(nest);
                m = m + 1;
                proof {
                    assert(nest_views(nests@) =~= nv_pre.push(conts[m - 1]));
                    assert(nest_views(nests@) =~= pre + conts.subrange(0, m as int));
                }
            }
            proof {
                assert(conts.subrange(0, conts.len() as int) =~= conts);
                assert(nest_views(nests@) =~= nests_prefix(doc@, sconts, slot@, floor@, (i
                    + 1) as int));
            }
        } else {
            proof {
                assert(!container_matches(doc@, cv, slot@, floor@));
            }
        }
        i = i + 1;
    }
    let mut b = BuildNestedElement { nests, svg_content: chars_to_string(doc) };
    proof {
        assert(sconts.len() == containers@.len());
    }
    b.build()
}

} // verus!
