use floorplan::entity::Entity;
use floorplan::entity::EntityCase;
use floorplan::entity::EntityResponse;
use floorplan::entity::OptionXY;
use floorplan::entity::SvgContentt;

const FOCUS: &str = "style=\"stroke: #000000 !important\"";
const UNFOCUS: &str = "style=\"stroke: none !important; fill: none !important\"";
const HIGHLIGHT: &str = "style=\"stroke: red !important; fill: red !important\"";

fn entity_with_content(doc: &str, floor: Option<&str>, prev_slot: Option<&str>) -> Entity {
    let mut e = Entity::new();
    e.svg_content = SvgContentt { svg_content: Some(doc.to_string()) };
    e.current_option = OptionXY {
        x: prev_slot.map(|s| s.to_string()),
        y: floor.map(|s| s.to_string()),
    };
    e
}

#[test]
fn no_op_when_slot_is_absent() {
    let e = entity_with_content("<g/>", Some("floor-1"), None);
    assert_eq!(e.highlight_option(None), Err("nothing to process"));
}

#[test]
fn no_op_when_slot_repeats() {
    let e = entity_with_content("<g/>", Some("floor-1"), Some("A"));
    assert_eq!(e.highlight_option(Some("A")), Err("nothing to process"));
}

#[test]
fn no_op_leaves_the_session_unchanged() {
    let e = entity_with_content("<g/>", Some("floor-1"), Some("A"));
    let copy = e.get_all();
    let reduced = e.reduce(EntityCase::Highlight("A".to_string()));
    assert_eq!(reduced, copy);
    assert_eq!(reduced.svg_content_app, None);
}

#[test]
fn scope_restricted_highlighting() {
    let doc = [
        "<g data-name=\"floor-1_unitA\"><polygon points=\"1\"/></g>",
        "<g data-name=\"floor-2_unitA\"><polygon points=\"2\"/></g>",
    ]
    .concat();
    let e = entity_with_content(&doc, Some("floor-1"), None);
    let out = e.highlight_option(Some("unitA")).unwrap();
    let expected = [
        "<g data-name=\"floor-1_unitA\"><polygon ",
        HIGHLIGHT,
        "points=\"1\"/></g>",
        "<g data-name=\"floor-2_unitA\"><polygon points=\"2\"/></g>",
    ]
    .concat();
    assert_eq!(out, expected);
}

#[test]
fn highlighting_out_of_scope_floor_changes_nothing() {
    let doc = "<g data-name=\"floor-1_unitA\"><polygon points=\"1\"/></g>";
    let e = entity_with_content(doc, Some("floor-3"), None);
    let out = e.highlight_option(Some("unitA")).unwrap();
    assert_eq!(out, doc);
}

#[test]
fn highlighting_without_a_document_yields_empty_text() {
    let mut e = Entity::new();
    e.current_option = OptionXY { x: None, y: Some("floor-1".to_string()) };
    assert_eq!(e.highlight_option(Some("unitA")), Ok(String::new()));
}

#[test]
fn end_to_end_focus_then_highlight() {
    let doc = [
        "<g data-name=\"floor-1_unitA\">",
        "<polygon data-name=\"floor-1_unitA\" points=\"0\"/>",
        "</g>",
        "<g data-name=\"floor-2_unitA\">",
        "<polygon data-name=\"floor-2_unitA\" points=\"1\"/>",
        "</g>",
    ]
    .concat();
    let e = Entity::to_entity(EntityResponse {
        name: "plan".to_string(),
        svg_raw_content: Some(doc),
        svg_content: None,
        default_floor: "floor-1".to_string(),
    });

    let focused = e.reduce(EntityCase::ProduceOption(Some("floor-1".to_string())));
    let annotated = focused.svg_content.svg_content.clone().unwrap();
    let expected_annotated = [
        "<g data-name=\"floor-1_unitA\"",
        FOCUS,
        ">",
        "<polygon data-name=\"floor-1_unitA\"",
        FOCUS,
        " points=\"0\"/>",
        "</g>",
        "<g data-name=\"floor-2_unitA\"",
        UNFOCUS,
        ">",
        "<polygon data-name=\"floor-2_unitA\"",
        UNFOCUS,
        " points=\"1\"/>",
        "</g>",
    ]
    .concat();
    assert_eq!(annotated, expected_annotated);

    let highlighted = focused.reduce(EntityCase::Highlight("unitA".to_string()));
    let out = highlighted.svg_content_app.clone().unwrap();
    let expected_highlighted = [
        "<g data-name=\"floor-1_unitA\"",
        FOCUS,
        ">",
        "<polygon data-name=\"floor-1_unitA\"",
        HIGHLIGHT,
        " points=\"0\"/>",
        "</g>",
        "<g data-name=\"floor-2_unitA\"",
        UNFOCUS,
        ">",
        "<polygon data-name=\"floor-2_unitA\"",
        UNFOCUS,
        " points=\"1\"/>",
        "</g>",
    ]
    .concat();
    assert_eq!(out, expected_highlighted);
    assert_eq!(highlighted.current_option.x, Some("unitA".to_string()));

    // The focus-annotated text is kept: a later highlight starts from it,
    // not from the previous highlight.
    assert_eq!(
        highlighted.svg_content.svg_content.clone().unwrap(),
        expected_annotated
    );
}

#[test]
fn rehighlighting_starts_from_the_annotated_text() {
    let doc = [
        "<g data-name=\"floor-1_unitA\">",
        "<polygon data-name=\"floor-1_unitA\" points=\"0\"/>",
        "</g>",
        "<g data-name=\"floor-1_unitB\">",
        "<polygon data-name=\"floor-1_unitB\" points=\"1\"/>",
        "</g>",
    ]
    .concat();
    let e = Entity::to_entity(EntityResponse {
        name: "plan".to_string(),
        svg_raw_content: Some(doc),
        svg_content: None,
        default_floor: "floor-1".to_string(),
    });
    let focused = e.reduce(EntityCase::ProduceOption(None));
    let first = focused.reduce(EntityCase::Highlight("unitA".to_string()));
    let second = first.reduce(EntityCase::Highlight("unitB".to_string()));
    let out = second.svg_content_app.clone().unwrap();
    // unitA's polygon is back to the focus token; only unitB's polygon
    // carries the highlight.
    assert!(out.contains(
        &["<polygon data-name=\"floor-1_unitA\"", FOCUS].concat()
    ));
    assert!(out.contains(
        &["<polygon data-name=\"floor-1_unitB\"", HIGHLIGHT].concat()
    ));
}
