use floorplan::entity::Entity;
use floorplan::entity::EntityCase;
use floorplan::entity::EntityResponse;
use floorplan::svg::BuildNestedElement;
use floorplan::svg::NestedElement;
use floorplan::text::chars_to_string;
use floorplan::theme::focus_style_chars;
use floorplan::theme::highlight_style_chars;
use floorplan::theme::unfocus_style_chars;

const FOCUS: &str = "style=\"stroke: #000000 !important\"";
const UNFOCUS: &str = "style=\"stroke: none !important; fill: none !important\"";
const HIGHLIGHT: &str = "style=\"stroke: red !important; fill: red !important\"";

#[test]
fn style_tokens_are_spelled_exactly() {
    assert_eq!(chars_to_string(&focus_style_chars()), FOCUS);
    assert_eq!(chars_to_string(&unfocus_style_chars()), UNFOCUS);
    assert_eq!(chars_to_string(&highlight_style_chars()), HIGHLIGHT);
}

#[test]
fn new_entity_is_blank() {
    let e = Entity::new();
    assert_eq!(e.name, "");
    assert_eq!(e.svg_raw_content, None);
    assert_eq!(e.svg_content.svg_content, None);
    assert_eq!(e.default_floor, "");
    assert_eq!(e.current_option.x, None);
    assert_eq!(e.current_option.y, None);
    assert!(e.x_option.data.is_none());
    assert!(e.y_option.data.is_none());
    assert!(e.element.data.is_none());
}

#[test]
fn to_entity_takes_the_response_over() {
    let e = Entity::to_entity(EntityResponse {
        name: "plan".to_string(),
        svg_raw_content: Some("<g/>".to_string()),
        svg_content: Some("ignored".to_string()),
        default_floor: "floor-1".to_string(),
    });
    assert_eq!(e.name, "plan");
    assert_eq!(e.svg_raw_content, Some("<g/>".to_string()));
    assert_eq!(e.svg_content.svg_content, None);
    assert_eq!(e.default_floor, "floor-1");
}

#[test]
fn get_all_copies_the_state() {
    let e = Entity::to_entity(EntityResponse {
        name: "plan".to_string(),
        svg_raw_content: Some("<g data-name=\"floor-1_unitA\"/>".to_string()),
        svg_content: None,
        default_floor: "floor-1".to_string(),
    });
    let derived = e.reduce(EntityCase::ProduceOption(None));
    let copy = derived.get_all();
    assert_eq!(copy, derived);
}

#[test]
fn init_replaces_the_state() {
    let e = Entity::to_entity(EntityResponse {
        name: "plan".to_string(),
        svg_raw_content: None,
        svg_content: None,
        default_floor: "floor-1".to_string(),
    });
    let blank = e.reduce(EntityCase::Init(None));
    assert_eq!(blank, Entity::new());

    let other = Entity::to_entity(EntityResponse {
        name: "other".to_string(),
        svg_raw_content: None,
        svg_content: None,
        default_floor: "floor-2".to_string(),
    });
    let copy = other.get_all();
    let replaced = Entity::new().reduce(EntityCase::Init(Some(other)));
    assert_eq!(replaced, copy);
}

fn nest(
    p_start: usize,
    p_end: usize,
    p_value: &str,
    g_start: usize,
    g_end: usize,
    g_value: &str,
    kind: &str,
) -> NestedElement {
    NestedElement {
        polygon_element_start: p_start,
        polygon_element_end: p_end,
        polygon_element_value: p_value.to_string(),
        g_tag_element_start: g_start,
        g_tag_element_end: g_end,
        g_tag_element_value: g_value.to_string(),
        shape_element_tag_name_value: kind.to_string(),
    }
}

#[test]
fn build_restyles_a_focused_polygon() {
    let g = ["<g><polygon a ", FOCUS, "/></g>"].concat();
    let poly = ["<polygon a ", FOCUS, "/>"].concat();
    let doc = ["pad", &g].concat();
    let mut b = BuildNestedElement {
        nests: vec![nest(3, 3 + poly.len(), &poly, 3, 3 + g.len(), &g, "polygon")],
        svg_content: doc,
    };
    let out = b.build();
    let expected = ["pad<g><polygon a ", HIGHLIGHT, "/></g>"].concat();
    assert_eq!(out, expected);
}

#[test]
fn build_inserts_after_the_tag_name_without_a_focus_token() {
    let g = "<g><polygon a/></g>";
    let poly = "<polygon a/>";
    let mut b = BuildNestedElement {
        nests: vec![nest(3, 3 + poly.len(), poly, 0, g.len(), g, "polygon")],
        svg_content: g.to_string(),
    };
    let out = b.build();
    let expected = ["<g><polygon ", HIGHLIGHT, "a/></g>"].concat();
    assert_eq!(out, expected);
}

#[test]
fn build_leaves_other_shape_kinds_alone() {
    let g = "<g><rect a/></g>";
    let mut b = BuildNestedElement {
        nests: vec![nest(3, 12, "<rect a/>", 0, g.len(), g, "rect")],
        svg_content: g.to_string(),
    };
    assert_eq!(b.build(), g);
}

#[test]
fn build_makes_no_edit_for_a_run_without_the_restylable_kind() {
    // A lone g-kind record must not even splice its recorded container
    // text back: the document comes out byte-identical.
    let mut b = BuildNestedElement {
        nests: vec![nest(0, 2, "XY", 0, 1, "XY", "g")],
        svg_content: "ab".to_string(),
    };
    assert_eq!(b.build(), "ab");
}

#[test]
fn build_with_an_empty_worklist_is_identity() {
    let mut b = BuildNestedElement {
        nests: Vec::new(),
        svg_content: "anything at all".to_string(),
    };
    assert_eq!(b.build(), "anything at all");
}

#[test]
fn build_applies_containers_right_to_left() {
    let g1 = "<g><polygon a/></g>";
    let g2 = "<g><polygon b/></g>";
    let poly1 = "<polygon a/>";
    let poly2 = "<polygon b/>";
    let doc = [g1, g2].concat();
    let mut b = BuildNestedElement {
        nests: vec![
            nest(3, 3 + poly1.len(), poly1, 0, g1.len(), g1, "polygon"),
            nest(3, 3 + poly2.len(), poly2, g1.len(), g1.len() + g2.len(), g2, "polygon"),
        ],
        svg_content: doc,
    };
    let out = b.build();
    let expected = [
        "<g><polygon ",
        HIGHLIGHT,
        "a/></g>",
        "<g><polygon ",
        HIGHLIGHT,
        "b/></g>",
    ]
    .concat();
    assert_eq!(out, expected);
}
