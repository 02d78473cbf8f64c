use floorplan::entity::Entity;
use floorplan::entity::EntityCase;
use floorplan::entity::EntityResponse;

const FOCUS: &str = "style=\"stroke: #000000 !important\"";
const UNFOCUS: &str = "style=\"stroke: none !important; fill: none !important\"";

fn entity_with_raw(doc: &str, default_floor: &str) -> Entity {
    Entity::to_entity(EntityResponse {
        name: "plan".to_string(),
        svg_raw_content: Some(doc.to_string()),
        svg_content: None,
        default_floor: default_floor.to_string(),
    })
}

fn three_region_doc() -> String {
    [
        "<g data-name=\"floor-1_unitA\"/>",
        "<g data-name=\"floor-1_unitB\"/>",
        "<g data-name=\"floor-2_unitA\"/>",
    ]
    .concat()
}

#[test]
fn axis_completeness_three_regions() {
    let e = entity_with_raw(&three_region_doc(), "floor-1");
    let (_, x, y, elem) = e.produce_option(Some("floor-1".to_string())).unwrap();

    assert_eq!(x.len(), 2);
    assert_eq!(x.get("unitA"), Some("floor-1".to_string()));
    assert_eq!(x.get("unitB"), Some("floor-1".to_string()));
    assert_eq!(x.get("floor-1"), None);

    assert_eq!(y.len(), 2);
    assert_eq!(y.get("floor-1"), Some("floor-1".to_string()));
    assert_eq!(y.get("floor-2"), Some("floor-2".to_string()));

    let doc = three_region_doc();
    let s1 = doc.find("data-name=\"floor-1_unitA\"").unwrap();
    let e1 = s1 + "data-name=\"floor-1_unitA\"".len();
    assert!(elem.contains("floor-1_unitA", "floor-1", s1, e1));
    assert!(elem.contains("floor-1_unitA", "unitA", s1, e1));
    assert_eq!(elem.len(), 6);
}

#[test]
fn annotation_marks_focus_and_unfocus() {
    let e = entity_with_raw(&three_region_doc(), "floor-1");
    let (annotated, _, _, _) = e.produce_option(Some("floor-1".to_string())).unwrap();
    let expected = [
        "<g data-name=\"floor-1_unitA\"",
        FOCUS,
        "/>",
        "<g data-name=\"floor-1_unitB\"",
        FOCUS,
        "/>",
        "<g data-name=\"floor-2_unitA\"",
        UNFOCUS,
        "/>",
    ]
    .concat();
    assert_eq!(annotated, expected);
}

#[test]
fn default_floor_fallback() {
    let with_none = entity_with_raw(&three_region_doc(), "floor-1")
        .produce_option(None)
        .unwrap();
    let with_some = entity_with_raw(&three_region_doc(), "floor-1")
        .produce_option(Some("floor-1".to_string()))
        .unwrap();
    assert_eq!(with_none.0, with_some.0);
    assert_eq!(with_none.1, with_some.1);
    assert_eq!(with_none.2, with_some.2);
    assert_eq!(with_none.3, with_some.3);
}

#[test]
fn empty_selection_string_also_falls_back() {
    let with_empty = entity_with_raw(&three_region_doc(), "floor-1")
        .produce_option(Some(String::new()))
        .unwrap();
    let with_some = entity_with_raw(&three_region_doc(), "floor-1")
        .produce_option(Some("floor-1".to_string()))
        .unwrap();
    assert_eq!(with_empty.0, with_some.0);
}

#[test]
fn annotation_is_idempotent() {
    let e = entity_with_raw(&three_region_doc(), "floor-1");
    let once = e.reduce(EntityCase::ProduceOption(Some("floor-1".to_string())));
    let kept = once.get_all();
    let d1 = once.svg_content.svg_content.clone().unwrap();
    let twice = once.reduce(EntityCase::ProduceOption(Some("floor-1".to_string())));
    let d2 = twice.svg_content.svg_content.clone().unwrap();
    assert_eq!(d1, d2);
    // The re-derived axis maps equal the prior ones; only the element
    // index grows, by design.
    assert_eq!(twice.x_option, kept.x_option);
    assert_eq!(twice.y_option, kept.y_option);
}

#[test]
fn refocusing_replaces_tokens_in_place() {
    let e = entity_with_raw(&three_region_doc(), "floor-1");
    let first = e.reduce(EntityCase::ProduceOption(Some("floor-1".to_string())));
    let second = first.reduce(EntityCase::ProduceOption(Some("floor-2".to_string())));
    let expected = [
        "<g data-name=\"floor-1_unitA\"",
        UNFOCUS,
        "/>",
        "<g data-name=\"floor-1_unitB\"",
        UNFOCUS,
        "/>",
        "<g data-name=\"floor-2_unitA\"",
        FOCUS,
        "/>",
    ]
    .concat();
    assert_eq!(second.svg_content.svg_content.clone().unwrap(), expected);
}

#[test]
fn element_index_accumulates_across_derivations() {
    let doc = three_region_doc();
    let e = entity_with_raw(&doc, "floor-1");
    let first = e.reduce(EntityCase::ProduceOption(Some("floor-1".to_string())));
    let len_first = first.element.data.as_ref().unwrap().len();
    assert_eq!(len_first, 6);

    let s1 = doc.find("data-name=\"floor-1_unitA\"").unwrap();
    let e1 = s1 + "data-name=\"floor-1_unitA\"".len();

    // Re-deriving scans the annotated text: ranges shift, and the new
    // associations are merged into the old ones rather than replacing
    // them.
    let second = first.reduce(EntityCase::ProduceOption(Some("floor-1".to_string())));
    let elem = second.element.data.as_ref().unwrap();
    assert!(elem.contains("floor-1_unitA", "unitA", s1, e1));
    assert!(elem.len() > len_first);
}

#[test]
fn derivation_without_a_document_is_empty() {
    let e = Entity::new();
    let (doc, x, y, elem) = e.produce_option(Some("floor-1".to_string())).unwrap();
    assert_eq!(doc, "");
    assert_eq!(x.len(), 0);
    assert_eq!(y.len(), 0);
    assert_eq!(elem.len(), 0);
}

#[test]
fn region_without_closing_bracket_still_reaches_the_axes() {
    // The second region has no `>` after it: it is skipped by the style
    // pass but still classified.
    let doc = "<g data-name=\"floor-1_unitA\"/><x data-name=\"floor-2_unitB\"";
    let e = entity_with_raw(doc, "floor-1");
    let (annotated, x, y, _) = e.produce_option(None).unwrap();
    assert_eq!(y.len(), 2);
    assert_eq!(x.get("unitA"), Some("floor-1".to_string()));
    let expected = [
        "<g data-name=\"floor-1_unitA\"",
        FOCUS,
        "/><x data-name=\"floor-2_unitB\"",
    ]
    .concat();
    assert_eq!(annotated, expected);
}

#[test]
fn derivation_prefers_the_annotated_text_over_the_raw_source() {
    let mut e = entity_with_raw("<g data-name=\"floor-1_unitA\"/>", "floor-1");
    e.svg_content = floorplan::entity::SvgContentt {
        svg_content: Some("<g data-name=\"floor-2_unitB\"/>".to_string()),
    };
    let (_, _, y, _) = e.produce_option(None).unwrap();
    assert_eq!(y.get("floor-2"), Some("floor-2".to_string()));
    assert_eq!(y.get("floor-1"), None);
}

#[test]
fn produce_option_y_is_empty() {
    let e = Entity::new();
    let y = e.produce_option_y().unwrap();
    assert_eq!(y.len(), 0);
}
