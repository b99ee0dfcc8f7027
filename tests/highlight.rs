use lapce_core::highlight::{coalesce, insert_update, spans_from_events, spans_from_tokens, style_update};
use lapce_core::{HighlightEvent, StyleSpan, UpdateEvent};

fn event(id: u64, rev: u64, tokens: Option<Vec<StyleSpan>>) -> UpdateEvent {
    UpdateEvent { buffer_id: id, rev, language: Some(1), text: "abcdef".chars().collect(), tokens }
}

fn keys(us: &[UpdateEvent]) -> Vec<(u64, u64, bool)> {
    us.iter().map(|u| (u.buffer_id, u.rev, u.tokens.is_some())).collect()
}

#[test]
fn coalesce_keeps_latest_revision_per_buffer() {
    let evs = vec![
        event(1, 3, None),
        event(2, 1, None),
        event(1, 5, None),
        event(1, 4, None),
        event(2, 2, None),
    ];
    let out = coalesce(evs);
    assert_eq!(keys(&out), vec![(1, 5, false), (2, 2, false)]);
}

#[test]
fn semantic_tokens_win_at_equal_revision() {
    let toks = vec![StyleSpan { start: 0, end: 2, style: 3 }];
    let out = coalesce(vec![event(1, 4, None), event(1, 4, Some(toks.clone())), event(1, 4, None)]);
    assert_eq!(keys(&out), vec![(1, 4, true)]);
    let out = coalesce(vec![event(1, 4, Some(toks)), event(1, 5, None)]);
    assert_eq!(keys(&out), vec![(1, 5, false)]);
}

#[test]
fn insert_update_adds_and_replaces() {
    let mut us = Vec::new();
    insert_update(&mut us, event(9, 2, None));
    insert_update(&mut us, event(9, 1, None));
    assert_eq!(keys(&us), vec![(9, 2, false)]);
    insert_update(&mut us, event(8, 1, None));
    insert_update(&mut us, event(9, 3, None));
    assert_eq!(keys(&us), vec![(9, 3, false), (8, 1, false)]);
    assert!(coalesce(Vec::new()).is_empty());
}

#[test]
fn spans_follow_the_open_highlight() {
    let evs = vec![
        HighlightEvent::Source { start: 0, end: 2 },
        HighlightEvent::HighlightStart(1),
        HighlightEvent::Source { start: 2, end: 5 },
        HighlightEvent::HighlightStart(7),
        HighlightEvent::Source { start: 5, end: 6 },
        HighlightEvent::HighlightEnd,
        HighlightEvent::Source { start: 6, end: 8 },
        HighlightEvent::HighlightStart(0),
        HighlightEvent::Source { start: 8, end: 9 },
    ];
    let spans = spans_from_events(&evs, 4);
    assert_eq!(
        spans,
        vec![StyleSpan { start: 2, end: 5, style: 1 }, StyleSpan { start: 8, end: 9, style: 0 }]
    );
}

#[test]
fn token_spans_convert_all_or_nothing() {
    let good = vec![
        StyleSpan { start: 0, end: 3, style: 1 },
        StyleSpan { start: 3, end: 4, style: 2 },
        StyleSpan { start: 4, end: 6, style: 4 },
    ];
    assert_eq!(spans_from_tokens(&good, 6), Some(good.clone()));
    let overlapping = vec![StyleSpan { start: 0, end: 3, style: 1 }, StyleSpan { start: 2, end: 4, style: 2 }];
    assert_eq!(spans_from_tokens(&overlapping, 6), None);
    let empty_token = vec![StyleSpan { start: 4, end: 4, style: 3 }];
    assert_eq!(spans_from_tokens(&empty_token, 6), None);
    let too_long = vec![StyleSpan { start: 4, end: 9, style: 3 }];
    assert_eq!(spans_from_tokens(&too_long, 6), None);
}

#[test]
fn style_update_prefers_supplied_tokens() {
    let toks = vec![StyleSpan { start: 1, end: 2, style: 9 }];
    let grammar = vec![HighlightEvent::HighlightStart(0), HighlightEvent::Source { start: 0, end: 6 }];
    let u = style_update(&event(3, 7, Some(toks.clone())), &grammar, 2).unwrap();
    assert_eq!((u.buffer_id, u.rev, u.semantic), (3, 7, true));
    assert_eq!(u.spans, toks);
    let bad = vec![StyleSpan { start: 5, end: 9, style: 1 }];
    assert!(style_update(&event(3, 7, Some(bad)), &grammar, 2).is_none());
    let u = style_update(&event(3, 8, None), &grammar, 2).unwrap();
    assert!(!u.semantic);
    assert_eq!(u.spans, vec![StyleSpan { start: 0, end: 6, style: 0 }]);
}
