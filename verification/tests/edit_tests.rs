use floorplan::derive::annotate_ranges;
use floorplan::edit::dedup_exec;
use floorplan::edit::sort_desc_exec;
use floorplan::text::chars_to_string;

const UNFOCUS: &str = "style=\"stroke: none !important; fill: none !important\"";

fn chars(s: &str) -> Vec<char> {
    s.chars().collect()
}

#[test]
fn dedup_keeps_first_occurrences() {
    let v = vec![(5usize, 8usize), (10, 20), (5, 8)];
    let out = dedup_exec(&v);
    assert_eq!(out, vec![(5, 8), (10, 20)]);
}

#[test]
fn sort_orders_by_end_descending() {
    let v = vec![(5usize, 8usize), (10, 20), (0, 3)];
    let out = sort_desc_exec(&v);
    assert_eq!(out, vec![(10, 20), (5, 8), (0, 3)]);
}

#[test]
fn right_to_left_mutation_safety() {
    // Two regions, ranges [5, 8) and [10, 20); a `>` sits at offset 8 and
    // at offset 20. Applying the edit at the higher offset first must not
    // corrupt the lower offset: the token lands exactly at 8.
    let doc = "abcdefgh>...........>z";
    assert_eq!(&doc[8..9], ">");
    assert_eq!(&doc[20..21], ">");
    let work = vec![(10usize, 20usize), (5, 8)];
    let tf: Vec<(usize, usize)> = Vec::new();
    let out = chars_to_string(&annotate_ranges(chars(doc), &work, &tf));
    let expected = [&doc[..20], UNFOCUS, &doc[20..]].concat();
    let expected = [&expected[..8], UNFOCUS, &expected[8..]].concat();
    assert_eq!(out, expected);
    assert_eq!(&out[..8], &doc[..8]);
}
