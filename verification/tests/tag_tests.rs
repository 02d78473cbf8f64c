use floorplan::tag::floor_comp;
use floorplan::tag::normalize_tag;
use floorplan::tag::split_chars;
use floorplan::tag::tag_components;
use floorplan::text::chars_to_string;
use floorplan::text::str_to_chars;

fn chars(s: &str) -> Vec<char> {
    s.chars().collect()
}

fn strings(v: Vec<Vec<char>>) -> Vec<String> {
    v.into_iter().map(|c| c.into_iter().collect()).collect()
}

#[test]
fn normalize_keeps_a_plain_compound_tag() {
    let out = normalize_tag(&chars("floor-1_unitA"));
    assert_eq!(chars_to_string(&out), "floor-1_unitA");
}

#[test]
fn normalize_drops_repeated_numbered_fragments() {
    let out = normalize_tag(&chars("floor-2_unit-14-b_unit-14-b_extra"));
    assert_eq!(chars_to_string(&out), "floor-2_unit_unit_extra");
}

#[test]
fn normalize_keeps_first_number_and_sheds_its_suffix() {
    let out = normalize_tag(&chars("unit-14-b"));
    assert_eq!(chars_to_string(&out), "unit-14");
}

#[test]
fn normalize_without_numbered_fragment_is_identity() {
    let out = normalize_tag(&chars("lobby_east wing"));
    assert_eq!(chars_to_string(&out), "lobby_east wing");
}

#[test]
fn components_split_on_underscore() {
    let out = strings(tag_components(&chars("floor-1_unitA")));
    assert_eq!(out, vec!["floor-1".to_string(), "unitA".to_string()]);
}

#[test]
fn components_of_empty_tag_are_none() {
    let out = tag_components(&chars(""));
    assert!(out.is_empty());
}

#[test]
fn split_keeps_empty_pieces() {
    let out = strings(split_chars(&chars("a__b"), '_'));
    assert_eq!(out, vec!["a".to_string(), "".to_string(), "b".to_string()]);
}

#[test]
fn floor_tokens_carry_the_marker() {
    assert!(floor_comp(&chars("floor-1")));
    assert!(floor_comp(&chars("old-floor-12")));
    assert!(!floor_comp(&chars("unitA")));
    assert!(!floor_comp(&chars("floor")));
}

#[test]
fn string_round_trip() {
    let v = str_to_chars("abc def");
    assert_eq!(chars_to_string(&v), "abc def");
}
