use lapce_core::completion::{completion_input, next_code_boundary, prev_code_boundary};
use lapce_core::{CompletionAction, CompletionData, CompletionStatus};

fn chars(s: &str) -> Vec<char> {
    s.chars().collect()
}

#[test]
fn typing_after_trigger_requests_once_then_filters() {
    let mut c = CompletionData::new();
    // "a." then f, o, o typed: the anchor stays at offset 2
    let a1 = c.on_edit(1, 2, chars("f"), Some('.'));
    assert_eq!(a1, CompletionAction::Request { request_id: 1, buffer_id: 1, offset: 2 });
    let a2 = c.on_edit(1, 2, chars("fo"), Some('.'));
    let a3 = c.on_edit(1, 2, chars("foo"), Some('.'));
    assert_eq!(a2, CompletionAction::Filter);
    assert_eq!(a3, CompletionAction::Filter);
    assert_eq!(c.request_id(), 1);
    assert_eq!(c.status(), CompletionStatus::Started);
    // the answer to the first request arrives after the third keystroke
    assert!(c.done(1, chars("foo"), vec![chars("foobar"), chars("fob"), chars("food")]));
    assert_eq!(c.status(), CompletionStatus::Done);
    assert_eq!(c.filtered_len(), 2);
    assert_eq!(c.current(), Some(chars("foobar")));
}

#[test]
fn superseded_answer_is_discarded() {
    let mut c = CompletionData::new();
    c.on_edit(1, 2, chars("f"), Some('.'));
    // the caret moved to another identifier: a new session and request
    let a = c.on_edit(1, 10, chars("b"), Some(' '));
    assert_eq!(a, CompletionAction::Request { request_id: 2, buffer_id: 1, offset: 10 });
    assert!(!c.done(1, chars("b"), vec![chars("foo")]));
    assert_eq!(c.status(), CompletionStatus::Started);
    assert_eq!(c.items_len(), 0);
    assert!(c.done(2, chars("b"), vec![chars("bar")]));
    assert_eq!(c.items_len(), 1);
}

#[test]
fn empty_input_without_trigger_cancels() {
    let mut c = CompletionData::new();
    c.on_edit(1, 2, chars("f"), Some('.'));
    assert_eq!(c.on_edit(1, 3, chars(""), Some(' ')), CompletionAction::Cancel);
    assert_eq!(c.status(), CompletionStatus::Inactive);
    // an empty input right after a trigger starts a session
    let a = c.on_edit(1, 4, chars(""), Some(':'));
    assert_eq!(a, CompletionAction::Request { request_id: 2, buffer_id: 1, offset: 4 });
}

#[test]
fn failure_of_current_request_cancels() {
    let mut c = CompletionData::new();
    c.on_edit(5, 0, chars("x"), None);
    assert!(!c.fail(7));
    assert_eq!(c.status(), CompletionStatus::Started);
    assert!(c.fail(1));
    assert_eq!(c.status(), CompletionStatus::Inactive);
    assert!(!c.done(1, chars("x"), vec![chars("x")]));
}

#[test]
fn list_navigation_wraps() {
    let mut c = CompletionData::new();
    c.on_edit(1, 0, chars("a"), None);
    c.done(1, chars("a"), vec![chars("ab"), chars("b"), chars("ac"), chars("ad")]);
    assert_eq!(c.filtered_len(), 3);
    c.previous();
    assert_eq!(c.index(), 2);
    assert_eq!(c.current(), Some(chars("ad")));
    c.next();
    assert_eq!(c.index(), 0);
    c.next();
    assert_eq!(c.current(), Some(chars("ac")));
    c.update_input(chars("ab"));
    assert_eq!(c.filtered_len(), 1);
    c.update_input(chars("z"));
    assert_eq!(c.current(), None);
}

#[test]
fn code_boundaries_around_caret() {
    let t = chars("x = foo.ba_r + 1");
    assert_eq!(prev_code_boundary(&t, 10), 8);
    assert_eq!(next_code_boundary(&t, 10), 12);
    let (start, input, prev) = completion_input(&t, 10);
    assert_eq!(start, 8);
    assert_eq!(input, chars("ba_r"));
    assert_eq!(prev, Some('.'));
}
