use lapce_core::{Buffer, EditError, EditType};

fn chars(s: &str) -> Vec<char> {
    s.chars().collect()
}

fn text(b: &Buffer) -> String {
    b.text().iter().collect()
}

fn loaded(s: &str) -> Buffer {
    let mut b = Buffer::new(7);
    b.load_content(chars(s));
    b
}

#[test]
fn edit_on_unloaded_buffer_is_refused() {
    let mut b = Buffer::new(1);
    let r = b.apply_edit(0, 0, &chars("x"), EditType::InsertChars);
    assert_eq!(r.err(), Some(EditError::NotLoaded));
    assert_eq!(b.rev(), 0);
    assert_eq!(b.len(), 0);
}

#[test]
fn edit_outside_the_text_is_refused() {
    let mut b = loaded("abc");
    let r = b.apply_edit(2, 5, &chars("x"), EditType::InsertChars);
    assert_eq!(r.err(), Some(EditError::InvalidRange));
    let r = b.apply_edit(2, 1, &chars("x"), EditType::InsertChars);
    assert_eq!(r.err(), Some(EditError::InvalidRange));
    assert_eq!(text(&b), "abc");
}

#[test]
fn edit_bumps_revision_and_returns_delta() {
    let mut b = loaded("hello world");
    let rev = b.rev();
    let d = b.apply_edit(6, 11, &chars("there"), EditType::Other).unwrap();
    assert_eq!(text(&b), "hello there");
    assert_eq!(b.rev(), rev + 1);
    assert_eq!(d.start, 6);
    assert_eq!(d.deleted, chars("world"));
    assert_eq!(d.inserted, chars("there"));
    assert_eq!(b.undo_len(), 1);
}

#[test]
fn undo_after_edit_restores_text() {
    let mut b = loaded("abc");
    b.apply_edit(1, 2, &chars("XYZ"), EditType::Delete).unwrap();
    assert_eq!(text(&b), "aXYZc");
    let ds = b.undo().unwrap();
    assert_eq!(text(&b), "abc");
    assert_eq!(ds.len(), 1);
    assert_eq!(ds[0].deleted, chars("XYZ"));
    assert_eq!(b.undo_len(), 0);
    assert_eq!(b.redo_len(), 1);
}

#[test]
fn same_kind_edits_coalesce_into_one_undo_step() {
    let mut b = loaded("");
    b.apply_edit(0, 0, &chars("a"), EditType::InsertChars).unwrap();
    b.apply_edit(1, 1, &chars("b"), EditType::InsertChars).unwrap();
    b.apply_edit(2, 2, &chars("c"), EditType::InsertChars).unwrap();
    assert_eq!(b.undo_len(), 1);
    b.apply_edit(1, 2, &chars(""), EditType::Delete).unwrap();
    assert_eq!(b.undo_len(), 2);
    assert_eq!(text(&b), "ac");
    b.undo().unwrap();
    assert_eq!(text(&b), "abc");
    b.undo().unwrap();
    assert_eq!(text(&b), "");
}

#[test]
fn break_undo_group_starts_a_new_step() {
    let mut b = loaded("");
    b.apply_edit(0, 0, &chars("a"), EditType::InsertChars).unwrap();
    b.break_undo_group();
    b.apply_edit(1, 1, &chars("b"), EditType::InsertChars).unwrap();
    assert_eq!(b.undo_len(), 2);
    b.undo().unwrap();
    assert_eq!(text(&b), "a");
}

#[test]
fn redo_reapplies_and_new_edit_clears_redo() {
    let mut b = loaded("abc");
    b.apply_edit(3, 3, &chars("d"), EditType::InsertChars).unwrap();
    b.undo().unwrap();
    let rev = b.rev();
    let ds = b.redo().unwrap();
    assert_eq!(text(&b), "abcd");
    assert_eq!(b.rev(), rev + 1);
    assert_eq!(ds[0].inserted, chars("d"));
    b.undo().unwrap();
    b.apply_edit(0, 1, &chars(""), EditType::Delete).unwrap();
    assert_eq!(b.redo_len(), 0);
    assert!(b.redo().is_none());
}

#[test]
fn undo_on_empty_history_is_a_no_op() {
    let mut b = loaded("abc");
    let rev = b.rev();
    assert!(b.undo().is_none());
    assert!(b.redo().is_none());
    assert_eq!(b.rev(), rev);
    assert_eq!(text(&b), "abc");
}

#[test]
fn line_and_column_queries() {
    let b = loaded("ab\ncde\n\nf");
    assert_eq!(b.offset_to_line_col(0), (0, 0));
    assert_eq!(b.offset_to_line_col(4), (1, 1));
    assert_eq!(b.offset_to_line_col(7), (2, 0));
    assert_eq!(b.offset_to_line_col(8), (3, 0));
    assert_eq!(b.line_content(1), chars("cde"));
    assert_eq!(b.line_content(2), chars(""));
    assert_eq!(b.line_content(3), chars("f"));
    assert_eq!(b.line_content(9), chars(""));
    assert_eq!(b.slice(3, 6), chars("cde"));
}

#[test]
fn styles_only_for_the_current_revision() {
    let mut b = loaded("abc");
    let r1 = b.rev();
    b.apply_edit(3, 3, &chars("d"), EditType::InsertChars).unwrap();
    let r2 = b.rev();
    let new_spans = vec![lapce_core::StyleSpan { start: 0, end: 4, style: 1 }];
    let old_spans = vec![lapce_core::StyleSpan { start: 0, end: 3, style: 2 }];
    // the newer result arrives first, the older one after it
    assert!(b.update_styles(r2, new_spans.clone(), false));
    assert!(!b.update_styles(r1, old_spans, false));
    assert_eq!(b.styles_rev(), r2);
    assert_eq!(b.styles().clone(), new_spans);
}

#[test]
fn semantic_styles_win_over_grammar_styles_of_same_revision() {
    let mut b = loaded("abc");
    let r = b.rev();
    let sem = vec![lapce_core::StyleSpan { start: 0, end: 1, style: 5 }];
    let gram = vec![lapce_core::StyleSpan { start: 0, end: 3, style: 1 }];
    assert!(b.update_styles(r, sem.clone(), true));
    assert!(!b.update_styles(r, gram.clone(), false));
    assert_eq!(b.styles().clone(), sem);
    assert!(b.styles_semantic());
    // a grammar result first is replaced by a semantic one
    let mut c = loaded("abc");
    let r = c.rev();
    assert!(c.update_styles(r, gram, false));
    assert!(c.update_styles(r, sem.clone(), true));
    assert_eq!(c.styles().clone(), sem);
}

#[test]
fn update_events_carry_snapshot_and_revision() {
    let mut b = loaded("ab");
    assert!(b.update_event().is_none());
    b.set_language(Some(4));
    let e = b.update_event().unwrap();
    assert_eq!((e.buffer_id, e.rev, e.language), (7, b.rev(), Some(4)));
    assert_eq!(e.text, chars("ab"));
    assert!(e.tokens.is_none());
    let toks = vec![lapce_core::StyleSpan { start: 0, end: 1, style: 2 }];
    assert!(b.semantic_tokens_event(b.rev() + 1, toks.clone()).is_none());
    let e = b.semantic_tokens_event(b.rev(), toks.clone()).unwrap();
    assert_eq!(e.tokens, Some(toks));
}

#[test]
fn several_ranges_make_one_edit() {
    let mut b = loaded("abcdef");
    let rev = b.rev();
    let ds = b.apply_edits(&vec![(0, 1), (3, 4)], &chars("X"), EditType::Other).unwrap();
    assert_eq!(text(&b), "XbcXef");
    assert_eq!(b.rev(), rev + 1);
    assert_eq!(ds.len(), 2);
    assert_eq!(b.undo_len(), 1);
    assert_eq!(b.apply_edits(&vec![(3, 4), (0, 1)], &chars("Y"), EditType::Other).err(), Some(EditError::InvalidRange));
    assert_eq!(b.apply_edits(&Vec::new(), &chars("Y"), EditType::Other).err(), Some(EditError::InvalidRange));
    b.undo().unwrap();
    assert_eq!(text(&b), "abcdef");
}
