use lapce_core::{EditDelta, SelRegion, Selection};

fn chars(s: &str) -> Vec<char> {
    s.chars().collect()
}

fn regions(s: &Selection) -> Vec<(usize, usize)> {
    (0..s.len()).map(|i| {
        let r = s.get(i);
        (r.start, r.end)
    }).collect()
}

#[test]
fn selection_maps_back_through_inverse_delta() {
    let t = chars("hello brave new world");
    // replace "brave" (6..11) by "bold"
    let d = EditDelta::replace(&t, 6, 11, &chars("bold"));
    let mut s = Selection::region(0, 2);
    s.push_region(SelRegion { start: 14, end: 12 });
    s.push_region(SelRegion::caret(21));
    let mapped = s.apply_delta(&d, false);
    assert_eq!(regions(&mapped), vec![(0, 2), (13, 11), (20, 20)]);
    let back = mapped.apply_delta(&d.inverse(), false);
    assert_eq!(regions(&back), regions(&s));
}

#[test]
fn insertion_at_caret_moves_it_when_after() {
    let t = chars("abc");
    let d = EditDelta::replace(&t, 1, 1, &chars("XY"));
    let s = Selection::caret(1);
    assert_eq!(regions(&s.apply_delta(&d, true)), vec![(3, 3)]);
    assert_eq!(regions(&s.apply_delta(&d, false)), vec![(1, 1)]);
    let applied = d.apply(&t);
    assert_eq!(applied, chars("aXYbc"));
}

#[test]
fn regions_that_collapse_are_merged() {
    let t = chars("abcdef");
    let d = EditDelta::replace(&t, 1, 5, &chars(""));
    let mut s = Selection::caret(2);
    s.push_region(SelRegion::caret(4));
    let mapped = s.apply_delta(&d, false);
    assert_eq!(regions(&mapped), vec![(1, 1)]);
}

#[test]
fn selection_queries() {
    let mut s = Selection::new();
    assert_eq!(s.min_offset(), 0);
    assert!(s.is_caret());
    s.push_region(SelRegion { start: 5, end: 3 });
    s.push_region(SelRegion::caret(9));
    assert_eq!(s.min_offset(), 3);
    assert_eq!(s.get_cursor_offset(), 9);
    assert!(!s.is_caret());
}
