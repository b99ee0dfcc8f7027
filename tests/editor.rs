use lapce_core::{
    CompletionAction, CursorMode, LapceCommand, LapceEditorViewData, Mode, Movement, RegisterData,
    VisualMode,
};

fn chars(s: &str) -> Vec<char> {
    s.chars().collect()
}

fn view(s: &str) -> LapceEditorViewData {
    let mut v = LapceEditorViewData::new(1);
    v.load_content(chars(s));
    v
}

fn text(v: &LapceEditorViewData) -> String {
    v.buffer.text().iter().collect()
}

fn normal_offset(v: &LapceEditorViewData) -> usize {
    match &v.cursor.mode {
        CursorMode::Normal(o) => *o,
        _ => panic!("not in normal mode"),
    }
}

#[test]
fn paste_linewise_below_caret_line() {
    let mut v = view("abc\ndef\n");
    v.paste(&RegisterData::new(chars("x\n"), VisualMode::Linewise));
    assert_eq!(text(&v), "abc\nx\ndef\n");
    assert_eq!(v.buffer.line_content(1), chars("x"));
    assert_eq!(normal_offset(&v), 4);
    assert_eq!(v.buffer.offset_to_line_col(normal_offset(&v)), (1, 0));
}

#[test]
fn paste_linewise_on_last_line_without_line_feed() {
    let mut v = view("abc");
    v.paste(&RegisterData::new(chars("  x\n"), VisualMode::Linewise));
    assert_eq!(text(&v), "abc\n  x");
    assert_eq!(normal_offset(&v), 6);
}

#[test]
fn paste_characters_after_caret() {
    let mut v = view("abc");
    v.paste(&RegisterData::new(chars("XY"), VisualMode::Normal));
    assert_eq!(text(&v), "aXYbc");
    assert_eq!(normal_offset(&v), 2);
}

#[test]
fn delete_forward_records_a_delete() {
    let mut v = view("abc");
    v.run_command(LapceCommand::DeleteForeward, None);
    assert_eq!(text(&v), "bc");
    assert_eq!(v.register.unnamed().content, chars("a"));
    v.run_command(LapceCommand::Paste, None);
    assert_eq!(text(&v), "bac");
    v.run_command(LapceCommand::Undo, None);
    assert_eq!(text(&v), "bc");
    v.run_command(LapceCommand::Undo, None);
    assert_eq!(text(&v), "abc");
    v.run_command(LapceCommand::Redo, None);
    assert_eq!(text(&v), "bc");
}

#[test]
fn visual_yank_and_paste() {
    let mut v = view("hello world");
    v.do_move(Movement::WordForward, 1);
    assert_eq!(normal_offset(&v), 6);
    v.run_command(LapceCommand::ToggleVisualMode, None);
    assert_eq!(v.get_mode(), Mode::Visual);
    v.run_command(LapceCommand::LineEnd, None);
    v.run_command(LapceCommand::Yank, None);
    assert_eq!(v.register.last_yank().content, chars("world"));
    assert_eq!(normal_offset(&v), 6);
    assert_eq!(text(&v), "hello world");
}

#[test]
fn linewise_visual_delete_takes_whole_lines() {
    let mut v = view("one\ntwo\nthree\n");
    v.run_command(LapceCommand::Down, None);
    v.run_command(LapceCommand::ToggleLinewiseVisualMode, None);
    v.run_command(LapceCommand::DeleteForeward, None);
    assert_eq!(text(&v), "one\nthree\n");
    assert_eq!(v.register.unnamed().content, chars("two\n"));
    assert_eq!(v.register.unnamed().mode, VisualMode::Linewise);
    assert_eq!(normal_offset(&v), 4);
}

#[test]
fn toggling_the_same_submode_leaves_visual_mode() {
    let mut v = view("abc");
    v.toggle_visual(VisualMode::Normal);
    v.toggle_visual(VisualMode::Linewise);
    match v.cursor.mode {
        CursorMode::Visual { mode, .. } => assert_eq!(mode, VisualMode::Linewise),
        _ => panic!("not in visual mode"),
    }
    v.toggle_visual(VisualMode::Linewise);
    assert_eq!(v.get_mode(), Mode::Normal);
}

#[test]
fn insert_typing_and_normal_mode() {
    let mut v = view("ab");
    v.run_command(LapceCommand::Append, None);
    assert_eq!(v.get_mode(), Mode::Insert);
    v.insert(&chars("x"));
    v.insert(&chars("y"));
    assert_eq!(text(&v), "axyb");
    assert_eq!(v.buffer.undo_len(), 1);
    v.run_command(LapceCommand::DeleteBackward, None);
    assert_eq!(text(&v), "axb");
    v.run_command(LapceCommand::NormalMode, None);
    assert_eq!(normal_offset(&v), 1);
    v.run_command(LapceCommand::Undo, None);
    assert_eq!(text(&v), "axyb");
}

#[test]
fn new_line_keeps_indentation() {
    let mut v = view("    foo\nbar");
    v.run_command(LapceCommand::NewLineBelow, None);
    assert_eq!(text(&v), "    foo\n    \nbar");
    assert_eq!(v.get_mode(), Mode::Insert);
    v.insert(&chars("z"));
    assert_eq!(text(&v), "    foo\n    z\nbar");
}

#[test]
fn new_line_after_open_bracket_indents_deeper() {
    let mut v = view("fn f() {");
    v.run_command(LapceCommand::AppendEndOfLine, None);
    v.run_command(LapceCommand::InsertNewLine, None);
    assert_eq!(text(&v), "fn f() {\n    ");
    assert!(lapce_core::editor::previous_has_unmatched_pair(&chars("a(b)c(d"), 7));
    assert!(!lapce_core::editor::previous_has_unmatched_pair(&chars("a(b)c"), 5));
}

#[test]
fn other_views_follow_edits() {
    let mut v = view("abcdef");
    v.add_inactive(lapce_core::Cursor::new(CursorMode::Normal(4), None));
    v.run_command(LapceCommand::DeleteForeward, None);
    assert_eq!(text(&v), "bcdef");
    match v.inactive[0].mode {
        CursorMode::Normal(o) => assert_eq!(o, 3),
        _ => panic!("mode changed"),
    }
}

#[test]
fn completion_follows_typing_in_insert_mode() {
    let mut v = view("a.");
    v.run_command(LapceCommand::AppendEndOfLine, None);
    let a1 = v.insert(&chars("f"));
    let a2 = v.insert(&chars("o"));
    let a3 = v.insert(&chars("o"));
    assert_eq!(a1, Some(CompletionAction::Request { request_id: 1, buffer_id: 1, offset: 2 }));
    assert_eq!(a2, Some(CompletionAction::Filter));
    assert_eq!(a3, Some(CompletionAction::Filter));
    assert!(v.completion_done(1, vec![chars("foobar")]));
    assert_eq!(v.completion.input().clone(), chars("foo"));
    assert!(v.check_condition("list_focus"));
    assert!(!v.check_condition(" !list_focus "));
    assert!(!v.check_condition("other"));
    v.run_command(LapceCommand::ListSelect, None);
    assert_eq!(text(&v), "a.foobar");
    assert!(!v.check_condition("list_focus"));
}

#[test]
fn motions_through_commands() {
    let mut v = view("foo.bar baz\nqux");
    v.run_command(LapceCommand::WordFoward, Some(2));
    assert_eq!(normal_offset(&v), 4);
    v.run_command(LapceCommand::GotoLineDefaultLast, None);
    assert_eq!(normal_offset(&v), 12);
    v.run_command(LapceCommand::GotoLineDefaultFirst, None);
    assert_eq!(normal_offset(&v), 0);
    v.page_move(true, 1);
    assert_eq!(normal_offset(&v), 12);
}

#[test]
fn edits_on_unloaded_buffer_change_nothing() {
    let mut v = LapceEditorViewData::new(3);
    v.run_command(LapceCommand::InsertMode, None);
    v.insert(&chars("abc"));
    assert_eq!(text(&v), "");
    assert_eq!(v.buffer.rev(), 0);
}

#[test]
fn other_views_follow_undo_and_redo() {
    let mut v = view("abcdef");
    v.add_inactive(lapce_core::Cursor::new(CursorMode::Normal(4), None));
    v.run_command(LapceCommand::DeleteForeward, None);
    v.run_command(LapceCommand::Undo, None);
    assert_eq!(text(&v), "abcdef");
    match v.inactive[0].mode {
        CursorMode::Normal(o) => assert_eq!(o, 4),
        _ => panic!("mode changed"),
    }
    v.run_command(LapceCommand::Redo, None);
    match v.inactive[0].mode {
        CursorMode::Normal(o) => assert_eq!(o, 3),
        _ => panic!("mode changed"),
    }
}

#[test]
fn edit_on_unloaded_buffer_reports_not_loaded() {
    let mut v = LapceEditorViewData::new(3);
    v.toggle_visual(VisualMode::Normal);
    let r = v.edit(0, 0, &chars("x"), true, lapce_core::EditType::InsertChars);
    assert_eq!(r.err(), Some(lapce_core::EditError::NotLoaded));
    assert_eq!(v.register.unnamed().content, chars(""));
    assert_eq!(text(&v), "");
}

#[test]
fn paste_at_caret_leaves_registers() {
    let mut v = view("ab\ncd\n");
    v.register.add_yank(RegisterData::new(chars("x\n"), VisualMode::Linewise));
    v.run_command(LapceCommand::Paste, None);
    assert_eq!(text(&v), "ab\nx\ncd\n");
    assert_eq!(normal_offset(&v), 3);
    assert_eq!(v.register.unnamed().content, chars("x\n"));
    assert_eq!(v.register.delete_at(0).content, chars(""));
}

#[test]
fn undo_maps_the_caret_through_the_change() {
    let mut v = view("abc");
    v.run_command(LapceCommand::DeleteForeward, None);
    assert_eq!(normal_offset(&v), 0);
    v.run_command(LapceCommand::Undo, None);
    assert_eq!(text(&v), "abc");
    assert_eq!(normal_offset(&v), 1);
}

#[test]
fn insert_mode_vertical_count_keeps_column() {
    let start = |v: &mut LapceEditorViewData| {
        v.do_move(Movement::Right, 3);
        v.run_command(LapceCommand::InsertMode, None);
    };
    let mut a = view("aaaa\nb\ncccc");
    start(&mut a);
    a.do_move(Movement::Down, 2);
    let mut b = view("aaaa\nb\ncccc");
    start(&mut b);
    b.do_move(Movement::Down, 1);
    assert_eq!(b.cursor.offset(), 6);
    b.do_move(Movement::Down, 1);
    assert_eq!(a.cursor.offset(), 10);
    assert_eq!(b.cursor.offset(), 10);
}

#[test]
fn blockwise_yank_takes_each_line_part() {
    let mut v = view("abcd\nefgh\nijkl");
    v.do_move(Movement::Right, 1);
    v.run_command(LapceCommand::ToggleBlockwiseVisualMode, None);
    v.run_command(LapceCommand::Down, None);
    v.run_command(LapceCommand::Right, None);
    v.run_command(LapceCommand::Yank, None);
    assert_eq!(v.register.unnamed().content, chars("bc\nfg"));
    assert_eq!(v.register.unnamed().mode, VisualMode::Blockwise);
    assert_eq!(text(&v), "abcd\nefgh\nijkl");
}

#[test]
fn blockwise_delete_is_one_undo_step() {
    let mut v = view("abcd\nefgh\nijkl");
    v.do_move(Movement::Right, 1);
    v.run_command(LapceCommand::ToggleBlockwiseVisualMode, None);
    v.run_command(LapceCommand::Down, Some(2));
    v.run_command(LapceCommand::Right, None);
    let rev = v.buffer.rev();
    v.run_command(LapceCommand::DeleteForeward, None);
    assert_eq!(text(&v), "ad\neh\nil");
    assert_eq!(v.buffer.rev(), rev + 1);
    assert_eq!(normal_offset(&v), 1);
    assert_eq!(v.register.unnamed().content, chars("bc\nfg\njk"));
    v.run_command(LapceCommand::Undo, None);
    assert_eq!(text(&v), "abcd\nefgh\nijkl");
}

#[test]
fn mode_changes_end_the_undo_group() {
    let mut v = view("abc");
    v.run_command(LapceCommand::DeleteForeward, None);
    v.run_command(LapceCommand::ToggleVisualMode, None);
    v.run_command(LapceCommand::ToggleVisualMode, None);
    v.run_command(LapceCommand::DeleteForeward, None);
    assert_eq!(text(&v), "c");
    assert_eq!(v.buffer.undo_len(), 2);
}

#[test]
fn block_insert_types_at_every_line() {
    let mut v = view("ab\ncd\nef");
    v.run_command(LapceCommand::ToggleBlockwiseVisualMode, None);
    v.run_command(LapceCommand::Down, Some(2));
    v.run_command(LapceCommand::InsertFirstNonBlank, None);
    let carets = |v: &LapceEditorViewData| match &v.cursor.mode {
        CursorMode::Insert(sel) => (0..sel.len()).map(|i| sel.get(i).end).collect::<Vec<usize>>(),
        _ => panic!("not in insert mode"),
    };
    assert_eq!(carets(&v), vec![0, 3, 6]);
    let rev = v.buffer.rev();
    v.insert(&chars("X"));
    assert_eq!(text(&v), "Xab\nXcd\nXef");
    assert_eq!(v.buffer.rev(), rev + 1);
    assert_eq!(carets(&v), vec![1, 5, 9]);
    v.run_command(LapceCommand::DeleteBackward, None);
    assert_eq!(text(&v), "ab\ncd\nef");
    assert_eq!(carets(&v), vec![0, 3, 6]);
}

#[test]
fn paste_in_insert_mode_goes_to_every_caret() {
    let mut v = view("ab\ncd");
    v.run_command(LapceCommand::ToggleBlockwiseVisualMode, None);
    v.run_command(LapceCommand::Down, None);
    v.run_command(LapceCommand::InsertFirstNonBlank, None);
    v.paste(&RegisterData::new(chars("Z"), VisualMode::Normal));
    assert_eq!(text(&v), "Zab\nZcd");
    match &v.cursor.mode {
        CursorMode::Insert(sel) => {
            assert_eq!(sel.len(), 2);
            assert_eq!((sel.get(0).end, sel.get(1).end), (1, 5));
        }
        _ => panic!("not in insert mode"),
    }
}
