//! The session entity: the document, the selection state, the derived
//! axis maps, and the event interface of the engine.
//!
//! Events arrive in sequence and each runs to completion: a derivation
//! (`ProduceOption`) recomputes the annotated document and the axis maps
//! from scratch, while the element index accumulates; a highlight
//! (`Highlight`) rewrites a copy of the last focus-annotated document,
//! never the raw source, so highlighting is not cumulative across slots.

use vstd::prelude::*;
use crate::maps::StrMap;
use crate::maps::ElemMap;
use crate::text::str_to_chars;
use crate::text::chars_to_string;
use crate::text::chars_eq;
use crate::derive::derive_doc;
use crate::derive::x_map;
use crate::derive::y_map;
use crate::derive::elem_map;
use crate::derive::derive_pass;
use crate::svg::highlight_doc;
use crate::svg::highlight_pass;

verus! {

/// What the collaborator fetched for one view: a named document, its raw
/// and possibly pre-annotated text, and the default floor.
#[derive(Debug, PartialEq, Eq)]
pub struct EntityResponse {
    pub name: String,
    pub svg_raw_content: Option<String>,
    pub svg_content: Option<String>,
    pub default_floor: String,
}

/// The focus-annotated document text, when one has been derived.
#[derive(Debug, PartialEq, Eq)]
pub struct SvgContentt {
    pub svg_content: Option<String>,
}

/// The current selection: `x` the highlighted slot, `y` the chosen floor.
#[derive(Debug, PartialEq, Eq)]
pub struct OptionXY {
    pub x: Option<String>,
    pub y: Option<String>,
}

/// The slot-to-floor axis map, once derived.
#[derive(Debug, PartialEq, Eq)]
pub struct OptionX {
    pub data: Option<StrMap>,
}

/// The floor-set axis map, once derived.
#[derive(Debug, PartialEq, Eq)]
pub struct OptionY {
    pub data: Option<StrMap>,
}

/// The element index, once derived; it accumulates across derivations.
#[derive(Debug, PartialEq, Eq)]
pub struct ElementData {
    pub data: Option<ElemMap>,
}

/// One view's session state.
#[derive(Debug, PartialEq, Eq)]
pub struct Entity {
    pub name: String,
    pub svg_raw_content: Option<String>,
    pub svg_content: SvgContentt,
    pub svg_content_app: Option<String>,
    pub default_floor: String,
    pub current_option: OptionXY,
    pub x_option: OptionX,
    pub y_option: OptionY,
    pub focus_option: Option<String>,
    pub element: ElementData,
    pub data_name: Option<Vec<(String, bool)>>,
}

/// The events the session processes.
#[derive(Debug)]
pub enum EntityCase {
    Init(Option<Entity>),
    Highlight(String),
    ProduceOption(Option<String>),
}

/// The floor a derivation works under: the requested floor when present
/// and nonempty, else the document's default floor. The engine never
/// classifies under an ambiguous floor.
pub open spec fn effective_floor(cur: Option<Seq<char>>, def: Seq<char>) -> Seq<char> {
    match cur {
        Some(c) => if c.len() > 0 {
            c
        } else {
            def
        },
        None => def,
    }
}

/// The view of an optional string.
pub open spec fn opt_view(o: Option<String>) -> Option<Seq<char>> {
    match o {
        Some(s) => Some(s@),
        None => None,
    }
}

/// The text a derivation reads: the focus-annotated document when one
/// exists, else the raw document, else nothing.
pub open spec fn source_doc(e: Entity) -> Option<Seq<char>> {
    if e.svg_content.svg_content is Some {
        Some(e.svg_content.svg_content->Some_0@)
    } else if e.svg_raw_content is Some {
        Some(e.svg_raw_content->Some_0@)
    } else {
        None
    }
}

/// The element index carried into a derivation.
pub open spec fn prior_elem(e: Entity) -> Map<(Seq<char>, Seq<char>, int, int), bool> {
    match e.element.data {
        Some(m) => m@,
        None => Map::empty(),
    }
}

/// The floor scope a highlight works under: the currently selected floor,
/// else the default floor.
pub open spec fn scope_floor(e: Entity) -> Seq<char> {
    match e.current_option.y {
        Some(y) => y@,
        None => e.default_floor@,
    }
}

/// The slot highlighted before, empty when none was.
pub open spec fn prev_slot(e: Entity) -> Seq<char> {
    match e.current_option.x {
        Some(p) => p@,
        None => Seq::empty(),
    }
}

/// The text a highlight reads: the focus-annotated document, else empty.
pub open spec fn highlight_source(e: Entity) -> Seq<char> {
    match e.svg_content.svg_content {
        Some(d) => d@,
        None => Seq::empty(),
    }
}

/// The highlighter's short-circuit: no slot requested, or the requested
/// slot equals the previously highlighted one.
pub open spec fn highlight_noop(e: Entity, slot: Option<Seq<char>>) -> bool {
    match slot {
        None => true,
        Some(s) => s == prev_slot(e),
    }
}

/// A session state with nothing loaded and nothing selected.
pub open spec fn entity_blank(e: Entity) -> bool {
    e.name@ == Seq::<char>::empty() && e.svg_raw_content is None && e.svg_content.svg_content
        is None && e.svg_content_app is None && e.default_floor@ == Seq::<char>::empty()
        && e.current_option.x is None && e.current_option.y is None && e.x_option.data is None
        && e.y_option.data is None && e.focus_option is None && e.element.data is None
        && e.data_name is None
}

impl Entity {
    /// The session state a fetched response opens with: its document and
    /// default floor taken over, nothing derived or selected yet.
    pub fn to_entity(entity_response: EntityResponse) -> (r: Self)
        ensures
            r.name == entity_response.name,
            r.svg_raw_content == entity_response.svg_raw_content,
            r.default_floor == entity_response.default_floor,
            r.svg_content.svg_content is None,
            r.svg_content_app is None,
            r.current_option.x is None,
            r.current_option.y is None,
            r.x_option.data is None,
            r.y_option.data is None,
            r.focus_option is None,
            r.element.data is None,
            r.data_name is None,
    {
        Self {
            name: entity_response.name,
            svg_raw_content: entity_response.svg_raw_content,
            svg_content: SvgContentt { svg_content: None },
            svg_content_app: None,
            default_floor: entity_response.default_floor,
            current_option: OptionXY { x: None, y: None },
            x_option: OptionX { data: None },
            y_option: OptionY { data: None },
            focus_option: None,
            element: ElementData { data: None },
            data_name: None,
        }
    }

    /// The blank session state.
    pub fn new() -> (r: Self)
        ensures
            entity_blank(r),
    {
        Self {
            name: String::new(),
            svg_raw_content: None,
            svg_content: SvgContentt { svg_content: None },
            svg_content_app: None,
            default_floor: String::new(),
            current_option: OptionXY { x: None, y: None },
            x_option: OptionX { data: None },
            y_option: OptionY { data: None },
            focus_option: None,
            element: ElementData { data: None },
            data_name: None,
        }
    }

    /// A copy of the whole session state; maps are copied to equal
    /// denotations.
    pub fn get_all(&self) -> (r: Self)
        ensures
            r.name == self.name,
            r.svg_raw_content == self.svg_raw_content,
            r.svg_content.svg_content == self.svg_content.svg_content,
            r.svg_content_app == self.svg_content_app,
            r.default_floor == self.default_floor,
            r.current_option.x == self.current_option.x,
            r.current_option.y == self.current_option.y,
            opt_map_eqv(r.x_option.data, self.x_option.data),
            opt_map_eqv(r.y_option.data, self.y_option.data),
            opt_elem_eqv(r.element.data, self.element.data),
            r.focus_option == self.focus_option,
            flags_eqv(r.data_name, self.data_name),
    {
        Self {
            name: self.name.clone(),
            svg_raw_content: clone_opt_string(&self.svg_raw_content),
            svg_content: SvgContentt {
                svg_content: clone_opt_string(&self.svg_content.svg_content),
            },
            svg_content_app: clone_opt_string(&self.svg_content_app),
            default_floor: self.default_floor.clone(),
            current_option: OptionXY {
                x: clone_opt_string(&self.current_option.x),
                y: clone_opt_string(&self.current_option.y),
            },
            x_option: OptionX {
                data: match &self.x_option.data {
                    Some(m) => Some(m.duplicate()),
                    None => None,
                },
            },
            y_option: OptionY {
                data: match &self.y_option.data {
                    Some(m) => Some(m.duplicate()),
                    None => None,
                },
            },
            focus_option: clone_opt_string(&self.focus_option),
            element: ElementData {
                data: match &self.element.data {
                    Some(m) => Some(m.duplicate()),
                    None => None,
                },
            },
            data_name: match &self.data_name {
                Some(v) => Some(clone_flags(v)),
                None => None,
            },
        }
    }

    /// The Y-axis options of a document with no regions: none.
    pub fn produce_option_y(&self) -> (r: Result<StrMap, &'static str>)
        ensures
            r is Ok,
            r->Ok_0@ == Map::<Seq<char>, Seq<char>>::empty(),
    {
        let option = StrMap::new();
        Ok(option)
    }

    /// Whether the response carried everything a view needs.
    #[allow(dead_code)]
    fn has_all_values(&self) -> (r: bool)
        ensures
            r == (self.name@.len() == 0 && self.svg_raw_content is Some
                && self.default_floor@.len() != 0),
    {
        self.name.as_str().is_empty() && self.svg_raw_content.is_some()
            && !self.default_floor.as_str().is_empty()
    }

    /// One full derivation: the annotated document, the slot-to-floor
    /// axis, the floor set, and the element index merged onto the prior
    /// one. Every input yields a result; a session with no document
    /// yields the empty text and empty axes.
    pub fn produce_option(&self, floor: Option<String>) -> (r: Result<
        (String, StrMap, StrMap, ElemMap),
        &'static str,
    >)
        ensures
            r is Ok,
            ({
                let eff = effective_floor(opt_view(floor), self.default_floor@);
                match source_doc(*self) {
                    Some(doc) => r->Ok_0.0@ == derive_doc(doc, eff) && r->Ok_0.1@ == x_map(
                        doc,
                        eff,
                        self.default_floor@,
                    ) && r->Ok_0.2@ == y_map(doc) && r->Ok_0.3@ == elem_map(prior_elem(*self), doc),
                    None => r->Ok_0.0@ == Seq::<char>::empty() && r->Ok_0.1@ == Map::<
                        Seq<char>,
                        Seq<char>,
                    >::empty() && r->Ok_0.2@ == Map::<Seq<char>, Seq<char>>::empty() && r->Ok_0.3@
                        == prior_elem(*self),
                }
            }),
    {
        let eff_c: Vec<char> = match &floor {
            Some(f) => {
                if !f.as_str().is_empty() {
                    str_to_chars(f.as_str())
                } else {
                    str_to_chars(self.default_floor.as_str())
                }
            },
            None => str_to_chars(self.default_floor.as_str()),
        };
        let def_c = str_to_chars(self.default_floor.as_str());
        let empty_prior = ElemMap::new();
        let prior_ref: &ElemMap = match &self.element.data {
            Some(m) => m,
            None => &empty_prior,
        };
        let src: Option<Vec<char>> = match &self.svg_content.svg_content {
            Some(s) => Some(str_to_chars(s.as_str())),
            None => match &self.svg_raw_content {
                Some(s) => Some(str_to_chars(s.as_str())),
                None => None,
            },
        };
        match src {
            Some(doc) => {
                let out = derive_pass(doc, &eff_c, &def_c, prior_ref);
                let text = chars_to_string(&out.0);
                Ok((text, out.1, out.2, out.3))
            },
            None => Ok((String::new(), StrMap::new(), StrMap::new(), prior_ref.duplicate())),
        }
    }

    /// One highlight pass over the focus-annotated document. An absent
    /// slot, or one equal to the previously highlighted slot, is the
    /// no-op outcome: exactly then the result is the error, and the
    /// session's texts are untouched either way (`&self`).
    pub fn highlight_option(&self, slot: Option<&str>) -> (r: Result<String, &'static str>)
        ensures
            r is Err <==> highlight_noop(*self, match slot {
                Some(s) => Some(s@),
                None => None,
            }),
            r is Err ==> r->Err_0@ == "nothing to process"@,
            r is Ok ==> r->Ok_0@ == highlight_doc(
                highlight_source(*self),
                slot->Some_0@,
                scope_floor(*self),
            ),
    {
        match slot {
            None => Err("nothing to process"),
            Some(s) => {
                let sc = str_to_chars(s);
                let prev_c: Vec<char> = match &self.current_option.x {
                    Some(p) => str_to_chars(p.as_str()),
                    None => Vec::new(),
                };
                if chars_eq(&sc, &prev_c) {
                    return Err("nothing to process");
                }
                let floor_c: Vec<char> = match &self.current_option.y {
                    Some(y) => str_to_chars(y.as_str()),
                    None => str_to_chars(self.default_floor.as_str()),
                };
                let doc_c: Vec<char> = match &self.svg_content.svg_content {
                    Some(d) => str_to_chars(d.as_str()),
                    None => Vec::new(),
                };
                Ok(highlight_pass(&doc_c, &sc, &floor_c))
            },
        }
    }

    /// The session's transition function. `Init` replaces the state;
    /// `ProduceOption` re-derives the document and axes and records the
    /// chosen floor; `Highlight` rewrites a copy of the annotated text
    /// into the presentation slot and records the chosen slot, and on
    /// the no-op outcome changes nothing.
    pub fn reduce(self, action: EntityCase) -> (r: Self)
        ensures
            match action {
                EntityCase::Init(init) => match init {
                    Some(e) => r == e,
                    None => entity_blank(r),
                },
                EntityCase::Highlight(s) => if highlight_noop(self, Some(s@)) {
                    r == self
                } else {
                    r.svg_content_app is Some && r.svg_content_app->Some_0@ == highlight_doc(
                        highlight_source(self),
                        s@,
                        scope_floor(self),
                    ) && r.current_option.x is Some && r.current_option.x->Some_0@ == s@
                        && r.current_option.y == self.current_option.y && r.name == self.name
                        && r.svg_raw_content == self.svg_raw_content && r.svg_content
                        == self.svg_content && r.default_floor == self.default_floor && r.x_option
                        == self.x_option && r.y_option == self.y_option && r.focus_option
                        == self.focus_option && r.element == self.element && r.data_name
                        == self.data_name
                },
                EntityCase::ProduceOption(f) => {
                    let eff = effective_floor(opt_view(f), self.default_floor@);
                    let derived = match source_doc(self) {
                        Some(doc) => r.svg_content.svg_content is Some
                            && r.svg_content.svg_content->Some_0@ == derive_doc(doc, eff)
                            && r.x_option.data is Some && r.x_option.data->Some_0@ == x_map(
                            doc,
                            eff,
                            self.default_floor@,
                        ) && r.y_option.data is Some && r.y_option.data->Some_0@ == y_map(doc)
                            && r.element.data is Some && r.element.data->Some_0@ == elem_map(
                            prior_elem(self),
                            doc,
                        ),
                        None => r.svg_content.svg_content is Some
                            && r.svg_content.svg_content->Some_0@ == Seq::<char>::empty()
                            && r.x_option.data is Some && r.x_option.data->Some_0@ == Map::<
                            Seq<char>,
                            Seq<char>,
                        >::empty() && r.y_option.data is Some && r.y_option.data->Some_0@ == Map::<
                            Seq<char>,
                            Seq<char>,
                        >::empty() && r.element.data is Some && r.element.data->Some_0@
                            == prior_elem(self),
                    };
                    derived && r.current_option.y == f && r.current_option.x
                        == self.current_option.x && r.name == self.name && r.svg_raw_content
                        == self.svg_raw_content && r.svg_content_app == self.svg_content_app
                        && r.default_floor == self.default_floor && r.focus_option
                        == self.focus_option && r.data_name == self.data_name
                },
            },
    {
        match action {
            EntityCase::Init(init) => match init {
                Some(e) => e,
                None => Entity::new(),
            },
            EntityCase::Highlight(s) => {
                let outcome = self.highlight_option(Some(s.as_str()));
                match outcome {
                    Ok(text) => Entity {
                        svg_content_app: Some(text),
                        current_option: OptionXY { x: Some(s), y: self.current_option.y },
                        ..self
                    },
                    Err(_) => self,
                }
            },
            EntityCase::ProduceOption(f) => {
                let outcome = self.produce_option(clone_opt_string(&f));
                match outcome {
                    Ok(tuple) => Entity {
                        svg_content: SvgContentt { svg_content: Some(tuple.0) },
                        x_option: OptionX { data: Some(tuple.1) },
                        y_option: OptionY { data: Some(tuple.2) },
                        element: ElementData { data: Some(tuple.3) },
                        current_option: OptionXY { x: self.current_option.x, y: f },
                        ..self
                    },
                    Err(_) => {
                        proof {
                            assert(false);
                        }
                        self
                    },
                }
            },
        }
    }
}

/// Optional observed-name flags hold equal entries.
pub open spec fn flags_eqv(a: Option<Vec<(String, bool)>>, b: Option<Vec<(String, bool)>>) -> bool {
    match (a, b) {
        (Option::None, Option::None) => true,
        (Option::Some(x), Option::Some(y)) => x@.len() == y@.len() && forall|i: int|
            0 <= i < y@.len() ==> (#[trigger] x@[i]).0@ == y@[i].0@ && x@[i].1 == y@[i].1,
        _ => false,
    }
}

/// Optional axis maps denote the same map.
pub open spec fn opt_map_eqv(a: Option<StrMap>, b: Option<StrMap>) -> bool {
    match (a, b) {
        (Option::None, Option::None) => true,
        (Option::Some(x), Option::Some(y)) => x@ == y@,
        _ => false,
    }
}

/// Optional element indexes denote the same map.
pub open spec fn opt_elem_eqv(a: Option<ElemMap>, b: Option<ElemMap>) -> bool {
    match (a, b) {
        (Option::None, Option::None) => true,
        (Option::Some(x), Option::Some(y)) => x@ == y@,
        _ => false,
    }
}

/// A copy of an optional string, equal to its source.
fn clone_opt_string(o: &Option<String>) -> (r: Option<String>)
    ensures
        r == *o,
{
    match o {
        Some(s) => Some(s.clone()),
        None => None,
    }
}

/// A copy of the observed-name flags.
fn clone_flags(v: &Vec<(String, bool)>) -> (r: Vec<(String, bool)>)
    ensures
        r@.len() == v@.len(),
        forall|i: int| 0 <= i < v@.len() ==> (#[trigger] r@[i]).0@ == v@[i].0@ && r@[i].1 == v@[i].1,
{
    let mut out: Vec<(String, bool)> = Vec::new();
    let mut i: usize = 0;
    while i < v.len()
        invariant
            i <= v.len(),
            i == out.len(),
            forall|k: int|
                0 <= k < i ==> (#[trigger] out@[k]).0@ == v@[k].0@ && out@[k].1 == v@[k].1,
        decreases v.len() - i,
    {
        let p = &v[i];
        out.push((p.0.clone(), p.1));
        i = i + 1;
    }
    out
}

} // verus!
