use lapce_core::{move_offset, LinePosition, Movement};

fn chars(s: &str) -> Vec<char> {
    s.chars().collect()
}

#[test]
fn word_forward_stops_at_class_changes() {
    let t = chars("foo.bar baz");
    assert_eq!(move_offset(&t, 0, None, 1, Movement::WordForward, false).0, 3);
    assert_eq!(move_offset(&t, 0, None, 2, Movement::WordForward, false).0, 4);
    assert_eq!(move_offset(&t, 4, None, 1, Movement::WordForward, false).0, 8);
    assert_eq!(move_offset(&t, 8, None, 1, Movement::WordForward, false).0, 11);
}

#[test]
fn word_backward_and_word_end() {
    let t = chars("foo.bar baz");
    assert_eq!(move_offset(&t, 8, None, 1, Movement::WordBackward, false).0, 4);
    assert_eq!(move_offset(&t, 8, None, 2, Movement::WordBackward, false).0, 3);
    assert_eq!(move_offset(&t, 0, None, 1, Movement::WordBackward, false).0, 0);
    assert_eq!(move_offset(&t, 0, None, 1, Movement::WordEndForward, false).0, 2);
    assert_eq!(move_offset(&t, 2, None, 1, Movement::WordEndForward, false).0, 3);
    assert_eq!(move_offset(&t, 3, None, 1, Movement::WordEndForward, false).0, 6);
}

#[test]
fn match_pairs_finds_partner() {
    let t = chars("a(b(c)d)e");
    assert_eq!(move_offset(&t, 1, None, 1, Movement::MatchPairs, false).0, 7);
    assert_eq!(move_offset(&t, 7, None, 1, Movement::MatchPairs, false).0, 1);
    assert_eq!(move_offset(&t, 3, None, 1, Movement::MatchPairs, false).0, 5);
    // from before a bracket on the line, the first bracket after the caret
    assert_eq!(move_offset(&t, 0, None, 1, Movement::MatchPairs, false).0, 7);
    // no bracket after the caret: no motion
    assert_eq!(move_offset(&t, 8, None, 1, Movement::MatchPairs, false).0, 8);
}

#[test]
fn unmatched_brackets() {
    let t = chars("f(a, (b), c)");
    assert_eq!(move_offset(&t, 3, None, 1, Movement::NextUnmatched(')'), false).0, 11);
    assert_eq!(move_offset(&t, 9, None, 1, Movement::PreviousUnmatched('('), false).0, 1);
    assert_eq!(move_offset(&t, 3, None, 1, Movement::NextUnmatched('}'), false).0, 3);
}

#[test]
fn horizontal_motions_stay_on_line() {
    let t = chars("abc\ndefgh\n");
    assert_eq!(move_offset(&t, 5, None, 10, Movement::Left, false), (4, 0));
    assert_eq!(move_offset(&t, 5, None, 10, Movement::Right, false), (8, 4));
    assert_eq!(move_offset(&t, 5, None, 10, Movement::Right, true), (9, 5));
    assert_eq!(move_offset(&t, 5, None, 1, Movement::EndOfLine, false), (8, 4));
    assert_eq!(move_offset(&t, 6, None, 1, Movement::StartOfLine, false), (4, 0));
}

#[test]
fn vertical_motions_keep_the_remembered_column() {
    let t = chars("abcdef\nab\nabcdef");
    let (o, h) = move_offset(&t, 5, None, 1, Movement::Down, false);
    assert_eq!((o, h), (8, 5));
    let (o, h) = move_offset(&t, o, Some(h), 1, Movement::Down, false);
    assert_eq!((o, h), (15, 5));
    assert_eq!(move_offset(&t, 15, Some(5), 5, Movement::Up, false), (5, 5));
}

#[test]
fn line_motions_go_to_first_non_blank() {
    let t = chars("a\n  b\nc");
    assert_eq!(move_offset(&t, 0, None, 1, Movement::Line(LinePosition::Line(2)), false).0, 4);
    assert_eq!(move_offset(&t, 4, None, 1, Movement::Line(LinePosition::Last), false).0, 6);
    assert_eq!(move_offset(&t, 4, None, 1, Movement::Line(LinePosition::First), false).0, 0);
    assert_eq!(move_offset(&t, 0, None, 1, Movement::Line(LinePosition::Line(99)), false).0, 6);
    assert_eq!(move_offset(&t, 0, None, 1, Movement::FirstNonBlank, false).0, 0);
}

#[test]
fn offsets_past_the_end_are_clamped() {
    let t = chars("abc");
    assert_eq!(move_offset(&t, 100, None, 1, Movement::StartOfLine, false).0, 0);
    assert_eq!(move_offset(&t, 100, None, 1, Movement::WordForward, false).0, 3);
    let empty: Vec<char> = Vec::new();
    assert_eq!(move_offset(&empty, 0, None, 3, Movement::Down, false).0, 0);
}

#[test]
fn bracket_motions_repeat_with_count() {
    let t = chars("a)b)");
    assert_eq!(move_offset(&t, 0, None, 1, Movement::NextUnmatched(')'), false).0, 1);
    assert_eq!(move_offset(&t, 0, None, 2, Movement::NextUnmatched(')'), false).0, 3);
    let u = chars("(x(y)");
    assert_eq!(move_offset(&u, 4, None, 2, Movement::PreviousUnmatched('('), false).0, 0);
    let w = chars("a(b)c");
    assert_eq!(move_offset(&w, 1, None, 2, Movement::MatchPairs, false).0, 1);
    assert_eq!(move_offset(&w, 1, None, 3, Movement::MatchPairs, false).0, 3);
}
