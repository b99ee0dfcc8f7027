use lapce_core::{Register, RegisterData, VisualMode, DELETE_RING_LEN};

fn chars(s: &str) -> Vec<char> {
    s.chars().collect()
}

#[test]
fn yank_sets_unnamed_and_last_yank() {
    let mut r = Register::new();
    r.add_yank(RegisterData::new(chars("a"), VisualMode::Linewise));
    assert_eq!(r.unnamed().content, chars("a"));
    assert_eq!(r.unnamed().mode, VisualMode::Linewise);
    assert_eq!(r.last_yank().content, chars("a"));
    r.add_delete(RegisterData::new(chars("b"), VisualMode::Normal));
    assert_eq!(r.unnamed().content, chars("b"));
    assert_eq!(r.last_yank().content, chars("a"));
}

#[test]
fn delete_ring_wraps_after_ten() {
    let mut r = Register::new();
    for i in 0..12u32 {
        let c = char::from_digit(i % 10, 10).unwrap();
        r.add_delete(RegisterData::new(vec![c], VisualMode::Normal));
    }
    assert_eq!(DELETE_RING_LEN, 10);
    assert_eq!(r.delete_at(0).content, vec!['1']);
    assert_eq!(r.delete_at(1).content, vec!['0']);
    assert_eq!(r.delete_at(9).content, vec!['2']);
}
