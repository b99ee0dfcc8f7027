use vstd::prelude::*;
use vstd::string::StrSliceExecFns;
use crate::buffer::{
    ranges_ok, EditError, chain_fits, group_model, joins_group, lemma_redo_valid_prefix, push_edit, redo_text, undo_text, Buffer,
    EditType,
};
use crate::completion::{
    completion_input, next_boundary, on_edit_spec, prev_boundary, CompletionAction, CompletionData,
};
use crate::cursor::{
    yank_text, edit_ranges, follows, lemma_follows_start, lemma_follows_step, next_line_start, next_line_start_of, clamp_cursors, clamped_to, edit_range, lemma_mode_wf_mono, map_cursors, mapped_through, min_int, mode_of, mode_wf,
    offset_of, yank_mode, Cursor, CursorMode, Mode,
};
use crate::delta::{apply_model, replace_model, DeltaModel, EditDelta};
use crate::movement::{
    is_word_start, word_start_back_from, LinePosition, first_non_blank, first_non_blank_of, match_backward, match_backward_from, move_offset, move_spec,
    non_blank_from, Movement,
};
use crate::register::{Register, RegisterData, VisualMode};
use crate::selection::{rmax, rmin, sel_apply, SelRegion, Selection};
use crate::text::{
    copy_chars, lemma_line_end_bounds, lemma_line_start_bounds, line_end, line_end_of, line_limit,
    line_limit_of, line_start, line_start_of, push_all, slice_chars,
};

verus! {

/// Where the caret settles in normal mode after a change that left it at
/// `o`: on the last character of its line at most.
pub open spec fn after_change_offset(t: Seq<char>, o: int) -> int {
    min_int(line_limit(t, line_start(t, o), false), o)
}

/// An edit of `start..end` in this mode records the replaced text as a
/// delete: in normal mode when the range is not empty, always in visual
/// mode, never in insert mode.
pub open spec fn yanks_on_edit(m: CursorMode, start: int, end: int) -> bool {
    match m {
        CursorMode::Normal(_) => start != end,
        CursorMode::Visual { .. } => true,
        CursorMode::Insert(_) => false,
    }
}

/// `c` holds a line feed.
pub open spec fn has_newline(c: Seq<char>) -> bool {
    exists|i: int| 0 <= i < c.len() && c[i] == '\n'
}

/// `c` without its trailing line feed, if it has one.
pub open spec fn strip_newline(c: Seq<char>) -> Seq<char> {
    if c.len() > 0 && c.last() == '\n' {
        c.drop_last()
    } else {
        c
    }
}

/// What a paste of `content`, captured in submode `rm`, replaces and
/// inserts: (start, end, text, caret after the text, lines appended at the
/// end of the text). Characters go right after a normal-mode caret (before
/// it when they span lines); lines go below the caret's line as lines of
/// their own; in visual and insert mode the pasted text replaces the
/// region, lines on a line of their own.
pub open spec fn paste_plan(t: Seq<char>, m: CursorMode, content: Seq<char>, rm: VisualMode) -> (
    int,
    int,
    Seq<char>,
    bool,
    bool,
) {
    let er = edit_range(t, m);
    if rm == VisualMode::Normal {
        match m {
            CursorMode::Normal(o) => {
                let i = min_int(o + 1, line_end(t, o as int));
                (i, i, content, !has_newline(content), false)
            },
            _ => (er.0, er.1, content, !has_newline(content), false),
        }
    } else {
        match m {
            CursorMode::Normal(o) => if line_end(t, o as int) < t.len() {
                let ns = next_line_start(t, o as int);
                (ns, ns, content, false, false)
            } else {
                (t.len() as int, t.len() as int, seq!['\n'] + strip_newline(content), false, true)
            },
            CursorMode::Visual { mode, .. } => (er.0, er.1, if mode == VisualMode::Linewise {
                content
            } else {
                seq!['\n'] + content
            }, false, false),
            CursorMode::Insert(_) => (er.0, er.1, seq!['\n'] + content, false, false),
        }
    }
}

/// Where a normal-mode caret goes after a paste, in the text `t2` after
/// it, given the mode before it, the plan and the pasted region `r`: after
/// characters, on the last one pasted (or where the change leaves it when
/// they span lines); after lines, on the first non-blank character of the
/// first pasted line.
pub open spec fn paste_caret(
    t2: Seq<char>,
    m: CursorMode,
    plan: (int, int, Seq<char>, bool, bool),
    rm: VisualMode,
    r: (int, int),
) -> int {
    if rm == VisualMode::Normal {
        if !plan.3 {
            after_change_offset(t2, rmin(r))
        } else if rmin(r) > 0 {
            rmin(r) - 1
        } else {
            0
        }
    } else {
        let b = match m {
            CursorMode::Normal(_) => if plan.4 {
                min_int(rmin(r) + 1, t2.len() as int)
            } else {
                rmin(r)
            },
            _ => min_int(rmin(r) + 1, t2.len() as int),
        };
        first_non_blank(t2, line_start(t2, b), false)
    }
}

fn contains_newline(c: &Vec<char>) -> (r: bool)
    ensures
        r == has_newline(c@),
{
    let mut i: usize = 0;
    while i < c.len()
        invariant
            i <= c@.len(),
            forall|k: int| 0 <= k < i ==> c@[k] != '\n',
        decreases c@.len() - i,
    {
        if c[i] == '\n' {
            return true;
        }
        i += 1;
    }
    false
}

/// A line feed followed by `c`.
fn newline_then(c: &Vec<char>) -> (r: Vec<char>)
    ensures
        r@ == seq!['\n'] + c@,
{
    let mut r: Vec<char> = Vec::new();
    r.push('\n');
    push_all(&mut r, c);
    assert(r@ =~= seq!['\n'] + c@);
    r
}

fn strip_newline_of(c: &Vec<char>) -> (r: Vec<char>)
    ensures
        r@ == strip_newline(c@),
{
    let n = c.len();
    if n > 0 && c[n - 1] == '\n' {
        slice_chars(c, 0, n - 1)
    } else {
        copy_chars(c)
    }
}

/// Some bracket before column `col` of `line` is left open.
pub open spec fn has_unmatched_open(line: Seq<char>, col: int) -> bool {
    match_backward_from(line, col, '(', ')', 0) is Some || match_backward_from(line, col, '[', ']', 0)
        is Some || match_backward_from(line, col, '{', '}', 0) is Some
}

/// The indentation of a line broken at `o`: one level (four spaces) more
/// than the line's when a bracket before `o` is left open; the line's
/// indentation cut at `o` when `o` lies within it; else the indentation
/// of the line after, when deeper, or the line's own.
pub open spec fn new_line_indent(t: Seq<char>, o: int) -> Seq<char> {
    let ls = line_start(t, o);
    let le = line_end(t, o);
    let ie = non_blank_from(t, ls);
    let indent = t.subrange(ls, ie);
    let col = o - ls;
    if has_unmatched_open(t.subrange(ls, le), col) {
        indent + seq![' ', ' ', ' ', ' ']
    } else if ie - ls >= col {
        t.subrange(ls, ls + col)
    } else if le < t.len() {
        let ns = le + 1;
        let nie = non_blank_from(t, ns);
        if nie - ns > ie - ls {
            t.subrange(ns, nie)
        } else {
            indent
        }
    } else {
        indent
    }
}

pub proof fn lemma_non_blank_bounds(t: Seq<char>, j: int)
    requires
        0 <= j <= t.len(),
    ensures
        j <= non_blank_from(t, j) <= line_end(t, j),
    decreases t.len() - j,
{
    lemma_line_end_bounds(t, j);
    if j < t.len() && t[j] != '\n' && (t[j] == ' ' || t[j] == '\t') {
        lemma_non_blank_bounds(t, j + 1);
    }
}

fn non_blank_end(t: &Vec<char>, j0: usize) -> (r: usize)
    requires
        j0 <= t@.len(),
    ensures
        r == non_blank_from(t@, j0 as int),
        j0 <= r <= line_end(t@, j0 as int),
        r <= t@.len(),
{
    proof {
        lemma_non_blank_bounds(t@, j0 as int);
        lemma_line_end_bounds(t@, j0 as int);
    }
    let mut j: usize = j0;
    while j < t.len() && t[j] != '\n' && (t[j] == ' ' || t[j] == '\t')
        invariant
            j0 <= j <= t@.len(),
            non_blank_from(t@, j as int) == non_blank_from(t@, j0 as int),
        decreases t@.len() - j,
    {
        j += 1;
    }
    j
}

/// Some bracket before column `col` of `line` is left open.
pub fn previous_has_unmatched_pair(line: &Vec<char>, col: usize) -> (r: bool)
    requires
        col <= line@.len(),
    ensures
        r == has_unmatched_open(line@, col as int),
{
    match_backward(line, col, '(', ')').is_some() || match_backward(line, col, '[', ']').is_some()
        || match_backward(line, col, '{', '}').is_some()
}

fn new_line_indent_of(t: &Vec<char>, o: usize) -> (r: Vec<char>)
    requires
        o <= t@.len(),
    ensures
        r@ == new_line_indent(t@, o as int),
{
    let ls = line_start_of(t, o);
    let le = line_end_of(t, o);
    proof {
        lemma_line_start_bounds(t@, o as int);
        lemma_line_end_bounds(t@, o as int);
        assert(line_end(t@, ls as int) == line_end(t@, o as int)) by {
            lemma_line_end_same(t@, ls as int, o as int);
        }
    }
    let ie = non_blank_end(t, ls);
    let col = o - ls;
    let line = slice_chars(t, ls, le);
    if previous_has_unmatched_pair(&line, col) {
        let mut r = slice_chars(t, ls, ie);
        r.push(' ');
        r.push(' ');
        r.push(' ');
        r.push(' ');
        assert(r@ =~= t@.subrange(ls as int, ie as int) + seq![' ', ' ', ' ', ' ']);
        r
    } else if ie - ls >= col {
        slice_chars(t, ls, ls + col)
    } else if le < t.len() {
        let ns = le + 1;
        let nie = non_blank_end(t, ns);
        if nie - ns > ie - ls {
            slice_chars(t, ns, nie)
        } else {
            slice_chars(t, ls, ie)
        }
    } else {
        slice_chars(t, ls, ie)
    }
}

/// Offsets between a line's start and an offset on it share the line's end.
proof fn lemma_line_end_same(t: Seq<char>, a: int, b: int)
    requires
        0 <= a <= b <= t.len(),
        a == line_start(t, b),
    ensures
        line_end(t, a) == line_end(t, b),
    decreases b - a,
{
    if a < b {
        assert(t[b - 1] != '\n');
        assert(line_start(t, b - 1) == a);
        lemma_line_end_same(t, a, b - 1);
    }
}

/// Cursor `b` is cursor `a` moved by `movement`, `count` times over, in
/// text `t`: the caret in normal mode, the region's moving end in visual
/// mode (which may stand on a line's end), and in insert mode the caret,
/// which the selection collapses to. The column reached is remembered.
pub open spec fn moved_spec(t: Seq<char>, a: Cursor, b: Cursor, movement: Movement, count: nat) -> bool {
    match a.mode {
        CursorMode::Normal(o) => {
            let m = move_spec(t, o as int, a.horiz, count, movement, false);
            b.mode == CursorMode::Normal(m.0 as usize) && b.horiz == Some(m.1 as usize)
        },
        CursorMode::Visual { start, end, mode } => {
            let m = move_spec(t, end as int, a.horiz, count, movement, true);
            b.mode == CursorMode::Visual { start, end: m.0 as usize, mode } && b.horiz == Some(
                m.1 as usize,
            )
        },
        CursorMode::Insert(_) => {
            let m = move_spec(t, offset_of(a.mode), a.horiz, count, movement, true);
            &&& b.mode matches CursorMode::Insert(_)
            &&& b.mode->Insert_0@ == seq![(m.0, m.0)]
            &&& b.horiz == Some(m.1 as usize)
        },
    }
}

/// Cursor `b` is cursor `a` after visual submode `vm` was toggled: visual
/// mode entered at the caret, the submode switched, or, when it is the
/// current one, back to normal mode at the region's moving end.
pub open spec fn toggled_spec(a: Cursor, b: Cursor, vm: VisualMode) -> bool {
    &&& b.horiz == a.horiz
    &&& match a.mode {
        CursorMode::Visual { start, end, mode } => if mode != vm {
            b.mode == CursorMode::Visual { start, end, mode: vm }
        } else {
            b.mode == CursorMode::Normal(end)
        },
        _ => b.mode == CursorMode::Visual {
            start: offset_of(a.mode) as usize,
            end: offset_of(a.mode) as usize,
            mode: vm,
        },
    }
}

/// The commands that act on an editor view.
#[derive(Clone, Copy, Debug, PartialEq, Eq, Structural)]
pub enum LapceCommand {
    Left,
    Right,
    Up,
    Down,
    LineStart,
    LineEnd,
    GotoLineDefaultFirst,
    GotoLineDefaultLast,
    WordBackward,
    WordFoward,
    WordEndForward,
    MatchPairs,
    NextUnmatchedRightBracket,
    PreviousUnmatchedLeftBracket,
    NextUnmatchedRightCurlyBracket,
    PreviousUnmatchedLeftCurlyBracket,
    Undo,
    Redo,
    Append,
    AppendEndOfLine,
    InsertMode,
    InsertFirstNonBlank,
    NewLineAbove,
    NewLineBelow,
    DeleteToBeginningOfLine,
    Yank,
    Paste,
    DeleteWordBackward,
    DeleteBackward,
    DeleteForeward,
    DeleteForewardAndInsert,
    InsertNewLine,
    ToggleVisualMode,
    ToggleLinewiseVisualMode,
    ToggleBlockwiseVisualMode,
    ListNext,
    ListPrevious,
    ListSelect,
    NormalMode,
}

/// The motion that a command stands for, if any; a count given to a "go to
/// line" command is the line's number.
pub open spec fn move_command_spec(count: Option<usize>, cmd: LapceCommand) -> Option<Movement> {
    match cmd {
        LapceCommand::Left => Some(Movement::Left),
        LapceCommand::Right => Some(Movement::Right),
        LapceCommand::Up => Some(Movement::Up),
        LapceCommand::Down => Some(Movement::Down),
        LapceCommand::LineStart => Some(Movement::StartOfLine),
        LapceCommand::LineEnd => Some(Movement::EndOfLine),
        LapceCommand::GotoLineDefaultFirst => Some(
            match count {
                Some(n) => Movement::Line(LinePosition::Line(n)),
                None => Movement::Line(LinePosition::First),
            },
        ),
        LapceCommand::GotoLineDefaultLast => Some(
            match count {
                Some(n) => Movement::Line(LinePosition::Line(n)),
                None => Movement::Line(LinePosition::Last),
            },
        ),
        LapceCommand::WordBackward => Some(Movement::WordBackward),
        LapceCommand::WordFoward => Some(Movement::WordForward),
        LapceCommand::WordEndForward => Some(Movement::WordEndForward),
        LapceCommand::MatchPairs => Some(Movement::MatchPairs),
        LapceCommand::NextUnmatchedRightBracket => Some(Movement::NextUnmatched(')')),
        LapceCommand::PreviousUnmatchedLeftBracket => Some(Movement::PreviousUnmatched('(')),
        LapceCommand::NextUnmatchedRightCurlyBracket => Some(Movement::NextUnmatched('}')),
        LapceCommand::PreviousUnmatchedLeftCurlyBracket => Some(Movement::PreviousUnmatched('{')),
        _ => None,
    }
}

/// How far back a deletion in insert mode reaches from a caret.
#[derive(Clone, Copy, Debug, PartialEq, Eq, Structural)]
pub enum DeleteKind {
    /// The range that an edit acts on, also at an insert-mode caret.
    Forward,
    /// Back to the previous character.
    Char,
    /// Back to the previous word start.
    Word,
    /// Back to the line's start.
    LineStart,
}

pub proof fn lemma_word_back_le(t: Seq<char>, j: int)
    requires
        0 <= j,
    ensures
        0 <= word_start_back_from(t, j) <= j,
    decreases j,
{
    if j > 0 && !is_word_start(t, j) {
        lemma_word_back_le(t, j - 1);
    }
}

/// Where a deletion back from an insert-mode caret at `o` starts.
pub open spec fn back_target(t: Seq<char>, o: int, k: DeleteKind) -> int {
    match k {
        DeleteKind::Char => if o > 0 {
            o - 1
        } else {
            0
        },
        DeleteKind::Word => move_spec(t, o, None, 1, Movement::WordBackward, true).0,
        DeleteKind::LineStart => line_start(t, o),
        DeleteKind::Forward => o,
    }
}

/// The ranges that a deletion in insert mode removes: each region that
/// is not a caret, and back from each caret to `back_target`, but never
/// into the region before it.
pub open spec fn insert_delete_ranges(t: Seq<char>, rs: Seq<(int, int)>, k: DeleteKind) -> Seq<(int, int)> {
    Seq::new(
        rs.len(),
        |j: int|
            {
                let r = rs[j];
                if rmin(r) != rmax(r) || k == DeleteKind::Forward {
                    (rmin(r), rmax(r))
                } else {
                    let o = rmin(r);
                    let floor = if j > 0 {
                        rmax(rs[j - 1]) + 1
                    } else {
                        0
                    };
                    let tgt = back_target(t, o, k);
                    (if tgt >= floor {
                        tgt
                    } else {
                        floor
                    }, o)
                }
            },
    )
}

fn insert_delete_ranges_of(t: &Vec<char>, sel: &Selection, k: DeleteKind) -> (r: Vec<(usize, usize)>)
    requires
        sel.wf(),
        sel@.len() > 0,
        crate::cursor::regions_within(sel@, t@.len() as int),
    ensures
        crate::cursor::ranges_view(r@) == insert_delete_ranges(t@, sel@, k),
        ranges_ok(crate::cursor::ranges_view(r@), t@.len() as int),
        r@.len() > 0,
{
    let ghost want = insert_delete_ranges(t@, sel@, k);
    let mut out: Vec<(usize, usize)> = Vec::new();
    let mut i: usize = 0;
    while i < sel.len()
        invariant
            i <= sel@.len(),
            sel.wf(),
            crate::cursor::regions_within(sel@, t@.len() as int),
            want == insert_delete_ranges(t@, sel@, k),
            crate::cursor::ranges_view(out@) == want.subrange(0, i as int),
            forall|j: int| 0 <= j < i ==> 0 <= (#[trigger] want[j]).0 <= want[j].1 == rmax(sel@[j]),
            forall|j: int| 0 <= j < i ==> (#[trigger] want[j]).0 >= (if j > 0 { rmax(sel@[j - 1]) + 1 } else { 0 }),
        decreases sel@.len() - i,
    {
        let g = sel.get(i);
        let lo = g.min();
        let hi = g.max();
        let pair = if lo != hi || k == DeleteKind::Forward {
            (lo, hi)
        } else {
            let floor: usize = if i > 0 {
                sel.get(i - 1).max() + 1
            } else {
                0
            };
            let tgt = match k {
                DeleteKind::Char => if lo > 0 { lo - 1 } else { 0 },
                DeleteKind::Word => {
                    proof {
                        if lo > 0 {
                            lemma_word_back_le(t@, lo as int - 1);
                        }
                        assert(crate::movement::word_repeat(t@, lo as int, 0, crate::movement::WordMotion::Backward) == lo);
                        assert(crate::movement::word_repeat(t@, lo as int, 1, crate::movement::WordMotion::Backward)
                            == crate::movement::word_step(t@, lo as int, crate::movement::WordMotion::Backward));
                    }
                    move_offset(t, lo, None, 1, Movement::WordBackward, true).0
                },
                DeleteKind::LineStart => {
                    proof {
                        lemma_line_start_bounds(t@, lo as int);
                    }
                    line_start_of(t, lo)
                },
                DeleteKind::Forward => lo,
            };
            (if tgt >= floor { tgt } else { floor }, lo)
        };
        let ghost prev = crate::cursor::ranges_view(out@);
        out.push(pair);
        proof {
            if i > 0 {
                assert(rmax(sel@[i as int - 1]) < rmin(sel@[i as int]));
            }
            assert(want[i as int] == (pair.0 as int, pair.1 as int));
            assert(crate::cursor::ranges_view(out@) =~= prev.push((pair.0 as int, pair.1 as int)));
        }
        i += 1;
        assert(crate::cursor::ranges_view(out@) =~= want.subrange(0, i as int));
    }
    assert(want.subrange(0, sel@.len() as int) =~= want);
    assert forall|x: int, y: int| 0 <= x < y < want.len() implies (#[trigger] want[x]).1 < (#[trigger] want[y]).0 by {
        if x < y - 1 {
            assert(rmax(sel@[x]) < rmin(sel@[y - 1]));
        }
    }
    out
}

/// Where a new line opens above the caret's line: at the end of the line
/// before it, or, on the first line, at its first non-blank character.
pub open spec fn line_above_offset(t: Seq<char>, o: int) -> int {
    let ls = line_start(t, o);
    if ls > 0 {
        ls - 1
    } else {
        non_blank_from(t, 0)
    }
}

pub open spec fn count_or_one(count: Option<usize>) -> nat {
    match count {
        Some(n) => n as nat,
        None => 1,
    }
}

/// The text after a new line was opened at `o` (when the buffer is loaded).
pub open spec fn text_with_new_line(t: Seq<char>, o: int) -> Seq<char> {
    apply_model(t, replace_model(t, o, o, seq!['\n'] + new_line_indent(t, o)))
}

/// White space as Unicode defines it.
pub open spec fn is_blank(c: char) -> bool {
    let u = c as u32;
    (9 <= u <= 13) || u == 32 || u == 0x85 || u == 0xA0 || u == 0x1680 || (0x2000 <= u <= 0x200A)
        || u == 0x2028 || u == 0x2029 || u == 0x202F || u == 0x205F || u == 0x3000
}

fn is_blank_exec(c: char) -> (r: bool)
    ensures
        r == is_blank(c),
{
    let u = c as u32;
    (9 <= u && u <= 13) || u == 32 || u == 0x85 || u == 0xA0 || u == 0x1680 || (0x2000 <= u && u
        <= 0x200A) || u == 0x2028 || u == 0x2029 || u == 0x202F || u == 0x205F || u == 0x3000
}

/// Index of the first character of `s` from `i` on that is no blank.
pub open spec fn skip_blanks(s: Seq<char>, i: int) -> int
    decreases s.len() - i,
{
    if i < s.len() && is_blank(s[i]) {
        skip_blanks(s, i + 1)
    } else {
        i
    }
}

/// End of `s` before its trailing blanks, not below `lo`.
pub open spec fn trim_end(s: Seq<char>, j: int, lo: int) -> int
    decreases j - lo,
{
    if j > lo && is_blank(s[j - 1]) {
        trim_end(s, j - 1, lo)
    } else {
        j
    }
}

pub open spec fn trimmed(s: Seq<char>) -> Seq<char> {
    let a = skip_blanks(s, 0);
    s.subrange(a, trim_end(s, s.len() as int, a))
}

/// The completion list has the focus: its session is done and shows items.
pub open spec fn list_focus(c: crate::completion::CompletionModel) -> bool {
    c.status == crate::completion::CompletionStatus::Done && if c.input.len() == 0 {
        c.items.len() > 0
    } else {
        c.filtered.len() > 0
    }
}

/// Whether key-binding condition `cond` holds: after trimming blanks, a
/// leading `!` negates it; `list_focus` is the one condition known, and
/// any other never holds.
pub open spec fn condition_spec(cond: Seq<char>, c: crate::completion::CompletionModel) -> bool {
    let t = trimmed(cond);
    let neg = t.len() > 0 && t[0] == '!';
    let name = if neg {
        t.subrange(1, t.len() as int)
    } else {
        t
    };
    let matched = name == seq!['l', 'i', 's', 't', '_', 'f', 'o', 'c', 'u', 's'] && list_focus(c);
    if neg {
        !matched
    } else {
        matched
    }
}

/// Carries selection `sel` through the deltas `ds`, applied one after the
/// other from text `t0` of length `len0`.
fn follow_selection(sel: Selection, ds: &Vec<EditDelta>, len0: usize, after: bool, Ghost(t0): Ghost<Seq<char>>) -> (r:
    Selection)
    requires
        chain_fits(t0, group_model(*ds)),
        t0.len() == len0,
        sel.wf(),
        sel@.len() > 0,
        crate::cursor::regions_within(sel@, len0 as int),
    ensures
        r.wf(),
        r@.len() > 0,
        r@ == crate::cursor::sel_chain(sel@, group_model(*ds), after),
        crate::cursor::regions_within(r@, redo_text(t0, group_model(*ds)).len() as int),
{
    let ghost gm = group_model(*ds);
    let ghost s0 = sel@;
    let mut cur = sel;
    let mut len: usize = len0;
    let mut k: usize = 0;
    assert(gm.subrange(0, 0) =~= Seq::<DeltaModel>::empty());
    while k < ds.len()
        invariant
            k <= ds@.len(),
            gm == group_model(*ds),
            chain_fits(t0, gm),
            len == redo_text(t0, gm.subrange(0, k as int)).len(),
            cur.wf(),
            cur@.len() > 0,
            crate::cursor::regions_within(cur@, len as int),
            cur@ == crate::cursor::sel_chain(s0, gm.subrange(0, k as int), after),
        decreases ds@.len() - k,
    {
        let ghost sub = gm.subrange(0, k as int);
        let ghost sub1 = gm.subrange(0, k as int + 1);
        proof {
            lemma_redo_valid_prefix(t0, gm, k as int + 1);
            assert(sub1.drop_last() =~= sub);
            assert(sub1.last() == gm[k as int]);
            assert(redo_text(t0, sub1).len() <= usize::MAX);
        }
        let d = &ds[k];
        assert(d@ == gm[k as int]);
        let next = (len - d.deleted.len()) + d.inserted.len();
        proof {
            assert forall|i: int| 0 <= i < cur@.len() implies crate::delta::fits(d@, (#[trigger] cur@[i]).0)
                && crate::delta::fits(d@, cur@[i].1) by {
                crate::delta::lemma_transform_bounds(len as int, next as int, d@, cur@[i].0, after);
                crate::delta::lemma_transform_bounds(len as int, next as int, d@, cur@[i].1, after);
            }
            crate::selection::lemma_sel_apply_within(cur@, d@, len as int, next as int, after);
            crate::selection::lemma_sel_apply_sorted(cur@, d@, after);
        }
        cur = cur.apply_delta(d, after);
        len = next;
        k += 1;
    }
    assert(gm.subrange(0, ds@.len() as int) =~= gm);
    cur
}

/// Carries offset `o` through the deltas `ds`, applied one after the other
/// from text `t0` of length `len0`, after text inserted at it.
fn follow_offset(o: usize, ds: &Vec<EditDelta>, len0: usize, Ghost(t0): Ghost<Seq<char>>) -> (r: usize)
    requires
        chain_fits(t0, group_model(*ds)),
        t0.len() == len0,
        o <= len0,
    ensures
        r == crate::cursor::transform_chain(group_model(*ds), o as int, true),
        r <= redo_text(t0, group_model(*ds)).len(),
{
    let ghost gm = group_model(*ds);
    let mut cur: usize = o;
    let mut len: usize = len0;
    let mut k: usize = 0;
    assert(gm.subrange(0, 0) =~= Seq::<DeltaModel>::empty());
    while k < ds.len()
        invariant
            k <= ds@.len(),
            gm == group_model(*ds),
            chain_fits(t0, gm),
            len == redo_text(t0, gm.subrange(0, k as int)).len(),
            cur <= len,
            cur == crate::cursor::transform_chain(gm.subrange(0, k as int), o as int, true),
        decreases ds@.len() - k,
    {
        let ghost sub = gm.subrange(0, k as int);
        let ghost sub1 = gm.subrange(0, k as int + 1);
        proof {
            lemma_redo_valid_prefix(t0, gm, k as int + 1);
            assert(sub1.drop_last() =~= sub);
            assert(sub1.last() == gm[k as int]);
            assert(redo_text(t0, sub1).len() <= usize::MAX);
        }
        let d = &ds[k];
        assert(d@ == gm[k as int]);
        let next = (len - d.deleted.len()) + d.inserted.len();
        proof {
            crate::delta::lemma_transform_bounds(len as int, next as int, d@, cur as int, true);
        }
        cur = d.transform_offset(cur, true);
        len = next;
        k += 1;
    }
    assert(gm.subrange(0, ds@.len() as int) =~= gm);
    cur
}

/// Carries every cursor through the deltas `ds`, applied one after the
/// other from text `t0` of length `len0`.
fn follow_deltas(cs: Vec<Cursor>, ds: &Vec<EditDelta>, len0: usize, Ghost(t0): Ghost<Seq<char>>) -> (r:
    Vec<Cursor>)
    requires
        chain_fits(t0, group_model(*ds)),
        t0.len() == len0,
        forall|i: int| 0 <= i < cs@.len() ==> mode_wf((#[trigger] cs@[i]).mode, len0 as nat),
    ensures
        r@.len() == cs@.len(),
        forall|i: int|
            0 <= i < r@.len() ==> mode_wf(
                (#[trigger] r@[i]).mode,
                redo_text(t0, group_model(*ds)).len(),
            ),
        forall|i: int| 0 <= i < r@.len() ==> follows(cs@[i], #[trigger] r@[i], group_model(*ds)),
{
    let ghost gm = group_model(*ds);
    let ghost c0 = cs@;
    let mut cur = cs;
    let mut len: usize = len0;
    let mut k: usize = 0;
    proof {
        assert(gm.subrange(0, 0) =~= Seq::<DeltaModel>::empty());
        assert forall|i: int| 0 <= i < c0.len() implies follows(c0[i], #[trigger] c0[i], gm.subrange(0, 0)) by {
            lemma_follows_start(c0[i]);
        }
    }
    while k < ds.len()
        invariant
            k <= ds@.len(),
            gm == group_model(*ds),
            chain_fits(t0, gm),
            len == redo_text(t0, gm.subrange(0, k as int)).len(),
            cur@.len() == c0.len(),
            forall|i: int| 0 <= i < cur@.len() ==> mode_wf((#[trigger] cur@[i]).mode, len as nat),
            forall|i: int| 0 <= i < cur@.len() ==> follows(c0[i], #[trigger] cur@[i], gm.subrange(0, k as int)),
        decreases ds@.len() - k,
    {
        let ghost sub = gm.subrange(0, k as int);
        let ghost sub1 = gm.subrange(0, k as int + 1);
        proof {
            lemma_redo_valid_prefix(t0, gm, k as int + 1);
            assert(sub1.drop_last() =~= sub);
            assert(sub1.last() == gm[k as int]);
            assert(sub.push(gm[k as int]) =~= sub1);
            assert(redo_text(t0, sub1).len() <= usize::MAX);
        }
        let d = &ds[k];
        assert(d@ == gm[k as int]);
        let next = (len - d.deleted.len()) + d.inserted.len();
        let ghost prev = cur@;
        cur = crate::cursor::map_cursors(cur, d, len, next);
        proof {
            assert forall|i: int| 0 <= i < cur@.len() implies follows(c0[i], #[trigger] cur@[i], sub1) by {
                lemma_follows_step(c0[i], prev[i], cur@[i], sub, gm[k as int], len as nat);
            }
        }
        len = next;
        k += 1;
    }
    assert(gm.subrange(0, ds@.len() as int) =~= gm);
    cur
}

/// The cursor is in blockwise visual mode.
pub open spec fn is_block(m: CursorMode) -> bool {
    match m {
        CursorMode::Visual { mode, .. } => mode == VisualMode::Blockwise,
        _ => false,
    }
}

/// A caret at the start of each range.
pub open spec fn carets_at(rs: Seq<(int, int)>) -> Seq<(int, int)> {
    rs.map_values(|r: (int, int)| (r.0, r.0))
}

/// A selection of carets at the starts of the ranges `rs`.
fn carets_of(rs: &Vec<(usize, usize)>, len: usize) -> (r: Selection)
    requires
        rs@.len() > 0,
        ranges_ok(crate::cursor::ranges_view(rs@), len as int),
    ensures
        r.wf(),
        r@ == carets_at(crate::cursor::ranges_view(rs@)),
        r@.len() > 0,
        crate::cursor::regions_within(r@, len as int),
{
    let ghost rv = crate::cursor::ranges_view(rs@);
    let mut sel = Selection::new();
    let mut i: usize = 0;
    while i < rs.len()
        invariant
            i <= rs@.len(),
            rv == crate::cursor::ranges_view(rs@),
            ranges_ok(rv, len as int),
            sel.wf(),
            sel@ == carets_at(rv).subrange(0, i as int),
        decreases rs@.len() - i,
    {
        let a = rs[i].0;
        assert(rv[i as int].0 == a as int);
        proof {
            if i > 0 {
                assert(sel@.last() == carets_at(rv)[i as int - 1]);
                assert(rv[i as int - 1].1 < rv[i as int].0);
            }
        }
        sel.push_region(SelRegion::caret(a));
        i += 1;
        assert(sel@ =~= carets_at(rv).subrange(0, i as int));
    }
    assert(carets_at(rv).subrange(0, rs@.len() as int) =~= carets_at(rv));
    sel
}

/// Buffer `b` is `a` with its open undo group ended.
pub open spec fn buffer_closed(a: Buffer, b: Buffer) -> bool {
    &&& b.id_spec() == a.id_spec()
    &&& b.text_spec() == a.text_spec()
    &&& b.rev_spec() == a.rev_spec()
    &&& b.undo_groups() == a.undo_groups()
    &&& b.redo_groups() == a.redo_groups()
    &&& b.last_edit_spec() is None
    &&& b.loaded_spec() == a.loaded_spec()
    &&& b.language_spec() == a.language_spec()
    &&& b.styles_spec() == a.styles_spec()
    &&& b.styles_rev_spec() == a.styles_rev_spec()
    &&& b.styles_semantic_spec() == a.styles_semantic_spec()
}

/// Linewise paste below a caret on the first line: the pasted lines go in
/// where line 1 started, everything else keeps its place around them, the
/// pasted content starts line 1 of the new text, and the caret lands on
/// that line's first non-blank character.
pub proof fn lemma_paste_linewise_on_first_line(v: LapceEditorViewData, new: LapceEditorViewData, content: Seq<char>)
    requires
        v.wf(),
        v.buffer.loaded_spec(),
        v.cursor.mode is Normal,
        crate::text::line_of(v.text_spec(), offset_of(v.cursor.mode)) == 0,
        line_end(v.text_spec(), offset_of(v.cursor.mode)) < v.text_spec().len(),
        v.paste_post(new, content, VisualMode::Linewise),
    ensures
        ({
            let t = v.text_spec();
            let q = crate::text::offset_of_line_spec(t, 1);
            &&& new.text_spec() == t.subrange(0, q) + content + t.subrange(q, t.len() as int)
            &&& crate::text::offset_of_line_spec(new.text_spec(), 1) == q
            &&& new.cursor.mode == CursorMode::Normal(first_non_blank(new.text_spec(), q, false) as usize)
            &&& new.cursor.horiz is None
        }),
{
    let t = v.text_spec();
    let o = offset_of(v.cursor.mode);
    crate::text::lemma_first_line_has_no_feed(t, o);
    crate::text::lemma_same_line_end(t, 0, o);
    crate::text::lemma_line_end_bounds(t, o);
    crate::text::lemma_line_end_feed(t, o);
    crate::text::lemma_start_after_line_end(t, 0);
    let q = crate::text::offset_of_line_spec(t, 1);
    assert(q == line_end(t, o) + 1);
    assert(t[q - 1] == '\n');
    let d = replace_model(t, q, q, content);
    assert(t.subrange(q, q) =~= Seq::<char>::empty());
    let t2 = new.text_spec();
    assert(t2 =~= t.subrange(0, q) + content + t.subrange(q, t.len() as int));
    let one = seq![(q, q)];
    assert(one.drop_last() =~= Seq::<(int, int)>::empty());
    assert(sel_apply(one.drop_last(), d, false) =~= Seq::<(int, int)>::empty());
    assert(one.last() == (q, q));
    assert(sel_apply(one, d, false) =~= seq![(q, q)]);
    assert(t2[q - 1] == '\n');
    assert(line_start(t2, q) == q);
    assert forall|k: int| 0 <= k < q - 1 implies t2[k] != '\n' by {
        assert(t2[k] == t[k]);
    }
    crate::text::lemma_same_line_end(t2, 0, q - 1);
    crate::text::lemma_start_after_line_end(t2, 0);
}

/// One editor view: the buffer it shows, its cursor, the registers, the
/// completion session, and the cursors of the other views on the buffer.
pub struct LapceEditorViewData {
    pub buffer: Buffer,
    pub cursor: Cursor,
    pub register: Register,
    pub completion: CompletionData,
    pub inactive: Vec<Cursor>,
}

impl LapceEditorViewData {
    pub open spec fn text_spec(&self) -> Seq<char> {
        self.buffer.text_spec()
    }

    pub open spec fn wf(&self) -> bool {
        &&& self.wf_except_cursor()
        &&& mode_wf(self.cursor.mode, self.text_spec().len())
    }

    /// Well-formed but for the cursor, which an edit leaves to its caller.
    pub open spec fn wf_except_cursor(&self) -> bool {
        &&& self.buffer.wf()
        &&& self.register.wf()
        &&& self.completion.wf()
        &&& forall|i: int|
            0 <= i < self.inactive@.len() ==> mode_wf(
                (#[trigger] self.inactive@[i]).mode,
                self.text_spec().len(),
            )
    }

    /// Room for one more revision and one more completion request.
    pub open spec fn has_room(&self) -> bool {
        self.buffer.rev_spec() < u64::MAX && self.completion@.request_id < u64::MAX
    }

    /// Nothing but the completion session changed.
    pub open spec fn same_but_completion(self, new: Self) -> bool {
        &&& new.buffer == self.buffer
        &&& new.cursor == self.cursor
        &&& new.register == self.register
        &&& new.inactive == self.inactive
    }

    /// Nothing but the cursor changed, and the buffer's open undo group
    /// ended, as it does on any change of mode.
    pub open spec fn same_but_cursor(self, new: Self) -> bool {
        &&& buffer_closed(self.buffer, new.buffer)
        &&& new.register == self.register
        &&& new.completion == self.completion
        &&& new.inactive == self.inactive
    }

    /// The completion session of `new` after an edit, with the action `r`
    /// it led to: in insert mode, `on_edit` applied to the identifier
    /// around the caret; outside it, nothing.
    pub open spec fn completion_followed(self, new: Self, r: Option<CompletionAction>) -> bool {
        if mode_of(new.cursor.mode) == Mode::Insert {
            let t = new.text_spec();
            let o = offset_of(new.cursor.mode);
            let start = prev_boundary(t, o);
            match r {
                Some(a) => on_edit_spec(
                    self.completion@,
                    new.completion@,
                    a,
                    new.buffer.id_spec(),
                    start as usize,
                    t.subrange(start, next_boundary(t, o)),
                    if start > 0 {
                        Some(t[start - 1])
                    } else {
                        None
                    },
                ),
                None => false,
            }
        } else {
            r is None && new.completion == self.completion
        }
    }

    /// The cursor `c` after a change that left the selection `sel`, as
    /// `set_cursor_after_change` puts it, from mode `m`.
    pub open spec fn cursor_after_change(m: CursorMode, c: Cursor, t2: Seq<char>, sel: Seq<(int, int)>) -> bool {
        &&& c.horiz is None
        &&& if mode_of(m) == Mode::Insert {
            c.mode is Insert && c.mode->Insert_0@ == sel
        } else {
            c.mode == CursorMode::Normal(after_change_offset(t2, rmin(sel[0])) as usize)
        }
    }

    /// What `paste` does with content `content` of submode `rm`.
    pub open spec fn paste_post(self, new: Self, content: Seq<char>, rm: VisualMode) -> bool {
        if !self.buffer.loaded_spec() {
            new == self
        } else if self.cursor.mode is Insert {
            let sel = self.cursor.mode->Insert_0@;
            let plan = paste_plan(self.text_spec(), self.cursor.mode, content, rm);
            &&& exists|ds: Seq<DeltaModel>|
                #[trigger] self.edited_all(new, crate::cursor::covered(sel), plan.2, EditType::InsertChars, ds)
                    && new.cursor.mode->Insert_0@ == crate::cursor::sel_chain(sel, ds, plan.3)
            &&& new.cursor.mode is Insert
            &&& new.completion == self.completion
            &&& new.cursor.horiz is None
        } else {
            let t = self.text_spec();
            let plan = paste_plan(t, self.cursor.mode, content, rm);
            let d = replace_model(t, plan.0, plan.1, plan.2);
            let r = sel_apply(seq![(plan.0, plan.1)], d, plan.3)[0];
            &&& self.edited(new, plan.0, plan.1, plan.2, EditType::InsertChars)
            &&& new.completion == self.completion
            &&& new.cursor.horiz is None
            &&& match self.cursor.mode {
                CursorMode::Insert(_) => new.cursor.mode is Insert && new.cursor.mode->Insert_0@ == seq![r],
                _ => new.cursor.mode == CursorMode::Normal(
                    paste_caret(new.text_spec(), self.cursor.mode, plan, rm, r) as usize,
                ),
            }
        }
    }

    /// What `insert_new_line` at `offset` does, but for the completion
    /// session.
    pub open spec fn new_line_post(self, new: Self, offset: int) -> bool {
        if !self.buffer.loaded_spec() {
            new.buffer == self.buffer && new.cursor == self.cursor && new.register == self.register
                && new.inactive == self.inactive
        } else {
            let t = self.text_spec();
            let content = seq!['\n'] + new_line_indent(t, offset);
            let d = replace_model(t, offset, offset, content);
            &&& self.edited(new, offset, offset, content, EditType::InsertNewline)
            &&& new.cursor.horiz is None
            &&& new.cursor.mode is Insert
            &&& new.cursor.mode->Insert_0@ == sel_apply(seq![(offset, offset)], d, true)
        }
    }

    /// What `delete` does, with the completion action `r` it returns. A
    /// blockwise visual selection loses every one of its line parts, in one
    /// edit, and the caret goes back to normal mode where the first part
    /// was.
    pub open spec fn delete_post(self, new: Self, kind: DeleteKind, then_insert: bool, r: Option<
        CompletionAction,
    >) -> bool {
        if !self.buffer.loaded_spec() {
            new == self && r is None
        } else if is_block(self.cursor.mode) {
            let rs = edit_ranges(self.text_spec(), self.cursor.mode);
            let c = min_int(rs[0].0, new.text_spec().len() as int);
            &&& exists|ds: Seq<DeltaModel>|
                #[trigger] self.edited_all(new, rs, Seq::<char>::empty(), EditType::Delete, ds)
            &&& new.cursor.mode == CursorMode::Normal(after_change_offset(new.text_spec(), c) as usize)
            &&& new.cursor.horiz is None
            &&& new.completion == self.completion
            &&& r is None
        } else if self.cursor.mode is Insert {
            let sel = self.cursor.mode->Insert_0@;
            &&& exists|ds: Seq<DeltaModel>|
                #[trigger] self.edited_all(
                    new,
                    insert_delete_ranges(self.text_spec(), sel, kind),
                    Seq::<char>::empty(),
                    EditType::Delete,
                    ds,
                ) && new.cursor.mode->Insert_0@ == crate::cursor::sel_chain(sel, ds, true)
            &&& new.cursor.mode is Insert
            &&& new.cursor.horiz is None
            &&& self.completion_followed(new, r)
        } else {
            let t = self.text_spec();
            let dr = edit_range(t, self.cursor.mode);
            let d = replace_model(t, dr.0, dr.1, Seq::<char>::empty());
            let sel = sel_apply(seq![dr], d, true);
            &&& self.edited(new, dr.0, dr.1, Seq::<char>::empty(), EditType::Delete)
            &&& if then_insert {
                new.cursor.mode is Insert && new.cursor.mode->Insert_0@ == sel && new.cursor.horiz is None
            } else {
                Self::cursor_after_change(self.cursor.mode, new.cursor, new.text_spec(), sel)
            }
            &&& self.completion_followed(new, r)
        }
    }

    /// What `insert` of `c` does, with the completion action `r` it
    /// returns: every region of the insert selection is replaced by `c`, in
    /// one edit, and the selection follows, each caret after its text.
    pub open spec fn insert_post(self, new: Self, c: Seq<char>, r: Option<CompletionAction>) -> bool {
        if mode_of(self.cursor.mode) != Mode::Insert || !self.buffer.loaded_spec() {
            r is None && new == self
        } else {
            let sel = self.cursor.mode->Insert_0@;
            &&& exists|ds: Seq<DeltaModel>|
                #[trigger] self.edited_all(new, crate::cursor::covered(sel), c, EditType::InsertChars, ds)
                    && new.cursor.mode->Insert_0@ == crate::cursor::sel_chain(sel, ds, true)
            &&& new.cursor.mode is Insert
            &&& new.cursor.horiz is None
            &&& self.completion_followed(new, r)
        }
    }

    /// What `list_select` does.
    pub open spec fn list_select_post(self, new: Self) -> bool {
        &&& new.completion.wf()
        &&& new.completion@.status == crate::completion::CompletionStatus::Inactive
        &&& new.completion@.request_id == self.completion@.request_id
        &&& if self.completion@.filtered.len() == 0 || !self.buffer.loaded_spec() {
            new.buffer == self.buffer && new.cursor == self.cursor && new.register == self.register
                && new.inactive == self.inactive
        } else {
            let t = self.text_spec();
            let er = edit_range(t, self.cursor.mode);
            let start = if self.completion@.input.len() > 0 {
                move_spec(t, er.0, None, self.completion@.input.len(), Movement::Left, true).0
            } else {
                er.0
            };
            let item = self.completion@.items[self.completion@.filtered[self.completion@.index as int]];
            let d = replace_model(t, start, er.1, item);
            &&& self.edited(new, start, er.1, item, EditType::InsertChars)
            &&& Self::cursor_after_change(self.cursor.mode, new.cursor, new.text_spec(), sel_apply(seq![(start, er.1)], d, true))
        }
    }

    /// What `restore` (undo, or redo when `undo` is false) does.
    pub open spec fn restore_post(self, new: Self, undo: bool) -> bool {
        let done = if undo {
            self.buffer.undo_groups().len() > 0
        } else {
            self.buffer.redo_groups().len() > 0
        };
        if !done {
            new == self
        } else {
            let g = if undo {
                self.buffer.undo_groups().last()
            } else {
                self.buffer.redo_groups().last()
            };
            let ds = if undo {
                crate::buffer::undo_deltas(g)
            } else {
                g
            };
            let c = crate::cursor::transform_chain(ds, offset_of(self.cursor.mode), true);
            &&& new.text_spec() == if undo {
                undo_text(self.text_spec(), g)
            } else {
                redo_text(self.text_spec(), g)
            }
            &&& new.buffer.rev_spec() == self.buffer.rev_spec() + 1
            &&& undo ==> new.buffer.undo_groups() == self.buffer.undo_groups().drop_last()
                && new.buffer.redo_groups() == self.buffer.redo_groups().push(g)
            &&& !undo ==> new.buffer.undo_groups() == self.buffer.undo_groups().push(g)
                && new.buffer.redo_groups() == self.buffer.redo_groups().drop_last()
            &&& new.buffer.last_edit_spec() is None
            &&& new.buffer.id_spec() == self.buffer.id_spec()
            &&& new.buffer.loaded_spec() == self.buffer.loaded_spec()
            &&& new.register == self.register
            &&& new.completion == self.completion
            &&& new.inactive@.len() == self.inactive@.len()
            &&& forall|i: int|
                0 <= i < new.inactive@.len() ==> follows(self.inactive@[i], #[trigger] new.inactive@[i], ds)
            &&& Self::cursor_after_change(self.cursor.mode, new.cursor, new.text_spec(), seq![(c, c)])
        }
    }

    /// What `normal_mode` does.
    pub open spec fn normal_mode_post(self, new: Self) -> bool {
        &&& new.cursor.horiz is None
        &&& new.cursor.mode == CursorMode::Normal(
            match self.cursor.mode {
                CursorMode::Insert(_) => move_spec(
                    self.text_spec(),
                    offset_of(self.cursor.mode),
                    None,
                    1,
                    Movement::Left,
                    false,
                ).0,
                CursorMode::Visual { end, .. } => after_change_offset(self.text_spec(), end as int),
                CursorMode::Normal(o) => o as int,
            } as usize,
        )
        &&& new.text_spec() == self.text_spec()
        &&& new.buffer.rev_spec() == self.buffer.rev_spec()
        &&& new.buffer.undo_groups() == self.buffer.undo_groups()
        &&& new.buffer.redo_groups() == self.buffer.redo_groups()
        &&& new.buffer.last_edit_spec() is None
        &&& new.completion.wf()
        &&& new.completion@.status == crate::completion::CompletionStatus::Inactive
        &&& new.completion@.request_id == self.completion@.request_id
        &&& new.register == self.register
        &&& new.inactive == self.inactive
    }

    /// What `yank` does.
    pub open spec fn yank_post(self, new: Self) -> bool {
        &&& new.register.wf()
        &&& new.register.unnamed_spec().content@ == yank_text(self.text_spec(), self.cursor.mode)
        &&& new.register.unnamed_spec().mode == yank_mode(self.cursor.mode)
        &&& new.register.last_yank_spec().content@ == yank_text(self.text_spec(), self.cursor.mode)
        &&& new.register.last_yank_spec().mode == yank_mode(self.cursor.mode)
        &&& new.register.ring_spec() == self.register.ring_spec()
        &&& new.register.newest_spec() == self.register.newest_spec()
        &&& match self.cursor.mode {
            CursorMode::Visual { start, end, .. } => new.cursor.mode == CursorMode::Normal(
                after_change_offset(self.text_spec(), min_int(start as int, end as int)) as usize,
            ) && new.cursor.horiz is None && buffer_closed(self.buffer, new.buffer),
            _ => new.cursor == self.cursor && new.buffer == self.buffer,
        }
        &&& new.completion == self.completion
        &&& new.inactive == self.inactive
    }

    /// What entering insert mode with the selection `rs` does.
    pub open spec fn insert_entered_at(self, new: Self, rs: Seq<(int, int)>, horiz: Option<usize>) -> bool {
        &&& new.cursor.mode is Insert
        &&& new.cursor.mode->Insert_0@ == rs
        &&& new.cursor.horiz == horiz
        &&& buffer_closed(self.buffer, new.buffer)
        &&& new.register == self.register
        &&& new.completion == self.completion
        &&& new.inactive == self.inactive
    }

    /// What entering insert mode with a caret at `o` does.
    pub open spec fn insert_entered(self, new: Self, o: int, horiz: Option<usize>) -> bool {
        &&& new.cursor.mode is Insert
        &&& new.cursor.mode->Insert_0@ == seq![(o, o)]
        &&& new.cursor.horiz == horiz
        &&& new.text_spec() == self.text_spec()
        &&& new.buffer.rev_spec() == self.buffer.rev_spec()
        &&& new.buffer.undo_groups() == self.buffer.undo_groups()
        &&& new.buffer.redo_groups() == self.buffer.redo_groups()
        &&& new.buffer.last_edit_spec() is None
        &&& new.register == self.register
        &&& new.completion == self.completion
        &&& new.inactive == self.inactive
    }

    /// A view of an empty, not yet loaded buffer, in normal mode at 0.
    pub fn new(buffer_id: u64) -> (v: LapceEditorViewData)
        ensures
            v.wf(),
            v.buffer.id_spec() == buffer_id,
            !v.buffer.loaded_spec(),
            v.buffer.rev_spec() == 0,
            v.cursor.mode == CursorMode::Normal(0),
            v.cursor.horiz is None,
            v.inactive@.len() == 0,
            v.completion@.request_id == 0,
    {
        LapceEditorViewData {
            buffer: Buffer::new(buffer_id),
            cursor: Cursor::new(CursorMode::Normal(0), None),
            register: Register::new(),
            completion: CompletionData::new(),
            inactive: Vec::new(),
        }
    }

    /// Loads the buffer's content; every cursor is kept within the text.
    pub fn load_content(&mut self, content: Vec<char>)
        requires
            old(self).wf(),
            old(self).buffer.rev_spec() < u64::MAX,
        ensures
            final(self).wf(),
            final(self).text_spec() == content@,
            final(self).buffer.loaded_spec(),
            final(self).buffer.rev_spec() == old(self).buffer.rev_spec() + 1,
            clamped_to(old(self).cursor, final(self).cursor, content@.len() as int),
            final(self).inactive@.len() == old(self).inactive@.len(),
            forall|i: int|
                0 <= i < final(self).inactive@.len() ==> clamped_to(
                    old(self).inactive@[i],
                    #[trigger] final(self).inactive@[i],
                    content@.len() as int,
                ),
            final(self).register == old(self).register,
            final(self).completion == old(self).completion,
    {
        let len = content.len();
        let old_len = self.buffer.len();
        proof {
            lemma_mode_wf_mono(self.cursor.mode, old_len as nat, usize::MAX as nat);
            assert forall|i: int| 0 <= i < self.inactive@.len() implies mode_wf(
                (#[trigger] self.inactive@[i]).mode,
                usize::MAX as nat,
            ) by {
                lemma_mode_wf_mono(self.inactive@[i].mode, old_len as nat, usize::MAX as nat);
            }
        }
        self.buffer.load_content(content);
        self.cursor.clamp(len);
        let mut cs: Vec<Cursor> = Vec::new();
        std::mem::swap(&mut cs, &mut self.inactive);
        self.inactive = clamp_cursors(cs, len);
    }

    /// Adds the cursor of another view on the same buffer.
    pub fn add_inactive(&mut self, c: Cursor)
        requires
            old(self).wf(),
            mode_wf(c.mode, old(self).text_spec().len()),
        ensures
            final(self).wf(),
            final(self).inactive@ == old(self).inactive@.push(c),
            final(self).buffer == old(self).buffer,
            final(self).cursor == old(self).cursor,
            final(self).register == old(self).register,
            final(self).completion == old(self).completion,
    {
        self.inactive.push(c);
    }

    pub fn get_mode(&self) -> (r: Mode)
        ensures
            r == mode_of(self.cursor.mode),
    {
        self.cursor.get_mode()
    }

    pub fn cancel_completion(&mut self)
        ensures
            final(self).completion.wf(),
            final(self).completion@.status == crate::completion::CompletionStatus::Inactive,
            final(self).completion@.request_id == old(self).completion@.request_id,
            final(self).buffer == old(self).buffer,
            final(self).cursor == old(self).cursor,
            final(self).register == old(self).register,
            final(self).inactive == old(self).inactive,
    {
        self.completion.cancel();
    }

    /// The registers after an edit of `start..end` in this view's mode: the
    /// text under the cursor recorded as a delete (in the unnamed register
    /// and the next slot of the ring) when `yanks_on_edit` says so, else
    /// unchanged.
    pub open spec fn registers_after_edit(self, new: Self, start: int, end: int) -> bool {
        if yanks_on_edit(self.cursor.mode, start, end) {
            let slot = (self.register.newest_spec() + 1) % (crate::register::DELETE_RING_LEN as int);
            &&& new.register.wf()
            &&& new.register.unnamed_spec().content@ == yank_text(self.text_spec(), self.cursor.mode)
            &&& new.register.unnamed_spec().mode == yank_mode(self.cursor.mode)
            &&& new.register.last_yank_spec() == self.register.last_yank_spec()
            &&& new.register.newest_spec() == slot
            &&& new.register.ring_spec()[slot].same(&new.register.unnamed_spec())
            &&& new.register.ring_spec() == self.register.ring_spec().update(slot, new.register.ring_spec()[slot])
        } else {
            new.register == self.register
        }
    }

    /// `new` is this view after `start..end` of its loaded buffer was
    /// replaced by `s` as an edit of `kind`: the buffer took the edit, the
    /// registers recorded the replaced text when `yanks_on_edit` says so,
    /// and the other views' cursors followed the edit. An edit made in
    /// visual mode ends its undo group, as the mode changes after it.
    pub open spec fn edited(self, new: Self, start: int, end: int, s: Seq<char>, kind: EditType) -> bool {
        let t = self.text_spec();
        let d = replace_model(t, start, end, s);
        &&& new.text_spec() == apply_model(t, d)
        &&& new.buffer.rev_spec() == self.buffer.rev_spec() + 1
        &&& new.buffer.undo_groups() == push_edit(
            self.buffer.undo_groups(),
            d,
            joins_group(self.buffer.last_edit_spec(), kind, self.buffer.undo_groups()),
        )
        &&& new.buffer.redo_groups().len() == 0
        &&& new.buffer.last_edit_spec() == if self.cursor.mode is Visual {
            None
        } else {
            Some(kind)
        }
        &&& new.buffer.id_spec() == self.buffer.id_spec()
        &&& new.buffer.loaded_spec()
        &&& new.buffer.language_spec() == self.buffer.language_spec()
        &&& new.buffer.styles_spec() == self.buffer.styles_spec()
        &&& new.buffer.styles_rev_spec() == self.buffer.styles_rev_spec()
        &&& new.buffer.styles_semantic_spec() == self.buffer.styles_semantic_spec()
        &&& self.registers_after_edit(new, start, end)
        &&& new.inactive@.len() == self.inactive@.len()
        &&& forall|i: int|
            0 <= i < new.inactive@.len() ==> mapped_through(self.inactive@[i], #[trigger] new.inactive@[i], d)
    }

    /// Replaces `start..end` of the buffer by `s`, as an edit of `kind`,
    /// as `edited` says; the cursor is left to the caller. Returns the
    /// edited range mapped through the edit (caret after the new text when
    /// `after`). On a buffer whose content is not loaded the edit is
    /// refused with `NotLoaded` and nothing changes.
    pub fn edit(&mut self, start: usize, end: usize, s: &Vec<char>, after: bool, kind: EditType) -> (r:
        Result<Selection, EditError>)
        requires
            old(self).wf(),
            old(self).has_room(),
            start <= end <= old(self).text_spec().len(),
        ensures
            final(self).wf_except_cursor(),
            !old(self).buffer.loaded_spec() ==> r == Err::<Selection, EditError>(EditError::NotLoaded)
                && *final(self) == *old(self),
            old(self).buffer.loaded_spec() ==> match r {
                Ok(sel) => {
                    &&& old(self).edited(*final(self), start as int, end as int, s@, kind)
                    &&& final(self).completion == old(self).completion
                    &&& final(self).cursor == old(self).cursor
                    &&& sel.wf()
                    &&& sel@ == sel_apply(
                        seq![(start as int, end as int)],
                        replace_model(old(self).text_spec(), start as int, end as int, s@),
                        after,
                    )
                    &&& sel@.len() == 1
                    &&& 0 <= sel@[0].0 <= final(self).text_spec().len()
                    &&& 0 <= sel@[0].1 <= final(self).text_spec().len()
                },
                Err(_) => false,
            },
    {
        if !self.buffer.is_loaded() {
            return Err(EditError::NotLoaded);
        }
        let yanks = match &self.cursor.mode {
            CursorMode::Normal(_) => start != end,
            CursorMode::Visual { .. } => true,
            CursorMode::Insert(_) => false,
        };
        if yanks {
            let data = self.cursor.yank(self.buffer.text());
            self.register.add_delete(data);
        }
        let old_len = self.buffer.len();
        match self.buffer.apply_edit(start, end, s, kind) {
            Ok(d) => {
                let new_len = self.buffer.len();
                let mut cs: Vec<Cursor> = Vec::new();
                std::mem::swap(&mut cs, &mut self.inactive);
                self.inactive = map_cursors(cs, &d, old_len, new_len);
                if self.cursor.is_visual() {
                    self.buffer.break_undo_group();
                }
                proof {
                    crate::delta::lemma_transform_bounds(old_len as int, new_len as int, d@, start as int, after);
                    crate::delta::lemma_transform_bounds(old_len as int, new_len as int, d@, end as int, after);
                }
                let sel = Selection::region(start, end);
                let r = sel.apply_delta(&d, after);
                proof {
                    let one = seq![(start as int, end as int)];
                    assert(one.drop_last() =~= Seq::<(int, int)>::empty());
                    assert(sel_apply(one.drop_last(), d@, after) =~= Seq::<(int, int)>::empty());
                    assert(one.last() == (start as int, end as int));
                    assert(r@ =~= seq![crate::selection::map_region(one.last(), d@, after)]);
                }
                Ok(r)
            },
            Err(e) => Err(e),
        }
    }

    /// `new` is this view after every range of `rs` in its loaded buffer
    /// was replaced by `s`, as one edit of `kind` made of the deltas `ds`:
    /// the buffer took the edit in one revision and one undo step, the
    /// registers recorded the text under a visual selection as a delete,
    /// and the other views' cursors followed the deltas.
    pub open spec fn edited_all(
        self,
        new: Self,
        rs: Seq<(int, int)>,
        s: Seq<char>,
        kind: EditType,
        ds: Seq<DeltaModel>,
    ) -> bool {
        let t = self.text_spec();
        &&& new.text_spec() == crate::buffer::replace_all(t, rs, s)
        &&& chain_fits(t, ds)
        &&& redo_text(t, ds) == new.text_spec()
        &&& new.buffer.rev_spec() == self.buffer.rev_spec() + 1
        &&& new.buffer.undo_groups() == crate::buffer::push_edits(
            self.buffer.undo_groups(),
            ds,
            joins_group(self.buffer.last_edit_spec(), kind, self.buffer.undo_groups()),
        )
        &&& new.buffer.redo_groups().len() == 0
        &&& new.buffer.last_edit_spec() == if self.cursor.mode is Visual {
            None
        } else {
            Some(kind)
        }
        &&& new.buffer.id_spec() == self.buffer.id_spec()
        &&& new.buffer.loaded_spec()
        &&& new.buffer.language_spec() == self.buffer.language_spec()
        &&& new.buffer.styles_spec() == self.buffer.styles_spec()
        &&& new.buffer.styles_rev_spec() == self.buffer.styles_rev_spec()
        &&& new.buffer.styles_semantic_spec() == self.buffer.styles_semantic_spec()
        &&& if self.cursor.mode is Visual {
            self.registers_after_edit(new, 0, 1)
        } else {
            new.register == self.register
        }
        &&& new.inactive@.len() == self.inactive@.len()
        &&& forall|i: int| 0 <= i < new.inactive@.len() ==> follows(self.inactive@[i], #[trigger] new.inactive@[i], ds)
    }

    /// Replaces every range of `rs` by `s`, as one edit of `kind`, as
    /// `edited_all` says; the cursor is left to the caller. Returns the
    /// deltas applied. On a buffer whose content is not loaded the edit is
    /// refused with `NotLoaded` and nothing changes.
    pub fn edit_all(&mut self, rs: &Vec<(usize, usize)>, s: &Vec<char>, kind: EditType) -> (r: Result<
        Vec<EditDelta>,
        EditError,
    >)
        requires
            old(self).wf(),
            old(self).has_room(),
            rs@.len() > 0,
            ranges_ok(crate::cursor::ranges_view(rs@), old(self).text_spec().len() as int),
        ensures
            final(self).wf_except_cursor(),
            !old(self).buffer.loaded_spec() ==> r == Err::<Vec<EditDelta>, EditError>(EditError::NotLoaded)
                && *final(self) == *old(self),
            old(self).buffer.loaded_spec() ==> match r {
                Ok(ds) => {
                    &&& old(self).edited_all(
                        *final(self),
                        crate::cursor::ranges_view(rs@),
                        s@,
                        kind,
                        group_model(ds),
                    )
                    &&& final(self).completion == old(self).completion
                    &&& final(self).cursor == old(self).cursor
                },
                Err(_) => false,
            },
    {
        if !self.buffer.is_loaded() {
            return Err(EditError::NotLoaded);
        }
        if self.cursor.is_visual() {
            let data = self.cursor.yank(self.buffer.text());
            self.register.add_delete(data);
        }
        let old_len = self.buffer.len();
        let ghost t0 = self.text_spec();
        match self.buffer.apply_edits(rs, s, kind) {
            Ok(ds) => {
                let mut cs: Vec<Cursor> = Vec::new();
                std::mem::swap(&mut cs, &mut self.inactive);
                self.inactive = follow_deltas(cs, &ds, old_len, Ghost(t0));
                if self.cursor.is_visual() {
                    self.buffer.break_undo_group();
                }
                Ok(ds)
            },
            Err(e) => Err(e),
        }
    }

    /// After a change, puts the caret where the change left the selection:
    /// in normal and visual mode, a normal-mode caret at the selection's
    /// start (on its line's last character at most); in insert mode, the
    /// selection itself. The remembered column is forgotten.
    pub fn set_cursor_after_change(&mut self, sel: Selection)
        requires
            old(self).wf_except_cursor(),
            sel.wf(),
            sel@.len() >= 1,
            forall|i: int|
                0 <= i < sel@.len() ==> 0 <= (#[trigger] sel@[i]).0 <= old(self).text_spec().len() && 0
                    <= sel@[i].1 <= old(self).text_spec().len(),
        ensures
            final(self).wf(),
            final(self).cursor.horiz is None,
            mode_of(old(self).cursor.mode) != Mode::Insert ==> final(self).cursor.mode == CursorMode::Normal(
                after_change_offset(old(self).text_spec(), rmin(sel@[0])) as usize,
            ),
            mode_of(old(self).cursor.mode) == Mode::Insert ==> final(self).cursor.mode
                == CursorMode::Insert(sel),
            final(self).buffer == old(self).buffer,
            final(self).register == old(self).register,
            final(self).completion == old(self).completion,
            final(self).inactive == old(self).inactive,
    {
        match self.cursor.mode {
            CursorMode::Insert(_) => {
                self.cursor = Cursor::new(CursorMode::Insert(sel), None);
            },
            _ => {
                let o = sel.min_offset();
                let t = self.buffer.text();
                let ls = line_start_of(t, o);
                let lim = line_limit_of(t, ls, false);
                let o2 = if lim <= o { lim } else { o };
                self.cursor = Cursor::new(CursorMode::Normal(o2), None);
            },
        }
    }

    fn paste_plan_of(&self, data: &RegisterData) -> (r: (usize, usize, Vec<char>, bool, bool))
        requires
            self.wf(),
        ensures
            (r.0 as int, r.1 as int, r.2@, r.3, r.4) == paste_plan(
                self.text_spec(),
                self.cursor.mode,
                data.content@,
                data.mode,
            ),
            r.0 <= r.1 <= self.text_spec().len(),
    {
        let t = self.buffer.text();
        let n = t.len();
        let (s, e) = self.cursor.edit_range(t);
        if data.mode == VisualMode::Normal {
            let after = !contains_newline(&data.content);
            match &self.cursor.mode {
                CursorMode::Normal(o) => {
                    let le = line_end_of(t, *o);
                    let i = if *o < le { *o + 1 } else { le };
                    (i, i, copy_chars(&data.content), after, false)
                },
                _ => (s, e, copy_chars(&data.content), after, false),
            }
        } else {
            match &self.cursor.mode {
                CursorMode::Normal(o) => {
                    let le = line_end_of(t, *o);
                    if le < n {
                        let ns = next_line_start_of(t, *o);
                        (ns, ns, copy_chars(&data.content), false, false)
                    } else {
                        (n, n, newline_then(&strip_newline_of(&data.content)), false, true)
                    }
                },
                CursorMode::Visual { mode, .. } => {
                    let c = if *mode == VisualMode::Linewise {
                        copy_chars(&data.content)
                    } else {
                        newline_then(&data.content)
                    };
                    (s, e, c, false, false)
                },
                CursorMode::Insert(_) => (s, e, newline_then(&data.content), false, false),
            }
        }
    }

    /// Pastes register content `data` as `paste_plan` says (in insert mode
    /// at every region of the selection, in one edit), then places the
    /// caret: in insert mode the selection follows the edit, else the caret
    /// goes where `paste_caret` says. The remembered column is forgotten.
    pub fn paste(&mut self, data: &RegisterData)
        requires
            old(self).wf(),
            old(self).has_room(),
        ensures
            final(self).wf(),
            old(self).paste_post(*final(self), data.content@, data.mode),
    {
        if !self.buffer.is_loaded() {
            return;
        }
        let (s, e, content, after, at_end) = self.paste_plan_of(data);
        let in_insert = match &self.cursor.mode {
            CursorMode::Insert(_) => true,
            _ => false,
        };
        if in_insert {
            let sel = match &self.cursor.mode {
                CursorMode::Insert(sel) => sel.clone_selection(),
                _ => {
                    return;
                },
            };
            let old_len = self.buffer.len();
            let ghost t0 = self.text_spec();
            let ghost plan = paste_plan(self.text_spec(), self.cursor.mode, data.content@, data.mode);
            assert(plan.2 == content@ && plan.3 == after);
            let rs = crate::cursor::covered_ranges(&sel, old_len);
            let ds = match self.edit_all(&rs, &content, EditType::InsertChars) {
                Ok(ds) => ds,
                Err(_) => {
                    return;
                },
            };
            let sel2 = follow_selection(sel, &ds, old_len, after, Ghost(t0));
            self.cursor = Cursor::new(CursorMode::Insert(sel2), None);
            proof {
                assert(old(self).edited_all(
                    *self,
                    crate::cursor::covered(old(self).cursor.mode->Insert_0@),
                    content@,
                    EditType::InsertChars,
                    group_model(ds),
                ));
                assert(self.cursor.mode->Insert_0@ == crate::cursor::sel_chain(
                    old(self).cursor.mode->Insert_0@,
                    group_model(ds),
                    after,
                ));
            }
            return;
        }
        let sel = match self.edit(s, e, &content, after, EditType::InsertChars) {
            Ok(sel) => sel,
            Err(_) => {
                return;
            },
        };
        let is_insert = match &self.cursor.mode {
            CursorMode::Insert(_) => true,
            _ => false,
        };
        assert(sel@ =~= seq![sel@[0]]);
        if is_insert {
            self.cursor = Cursor::new(CursorMode::Insert(sel), None);
            return;
        }
        if data.mode == VisualMode::Normal {
            if !after {
                self.set_cursor_after_change(sel);
            } else {
                let m = sel.min_offset();
                let o = if m > 0 {
                    m - 1
                } else {
                    0
                };
                self.cursor = Cursor::new(CursorMode::Normal(o), None);
            }
        } else {
            let t2 = self.buffer.text();
            let n2 = t2.len();
            let m = sel.min_offset();
            let lift = match &self.cursor.mode {
                CursorMode::Normal(_) => at_end,
                _ => true,
            };
            let b = if lift {
                if m < n2 { m + 1 } else { n2 }
            } else {
                m
            };
            let ls = line_start_of(t2, b);
            let o = first_non_blank_of(t2, ls, false);
            self.cursor = Cursor::new(CursorMode::Normal(o), None);
        }
    }

    /// Breaks the line at `offset` and indents the new line as
    /// `new_line_indent` says; the cursor goes into insert mode after the
    /// indentation.
    pub fn insert_new_line(&mut self, offset: usize)
        requires
            old(self).wf(),
            old(self).has_room(),
            offset <= old(self).text_spec().len(),
        ensures
            final(self).wf(),
            old(self).new_line_post(*final(self), offset as int),
            final(self).completion == old(self).completion,
    {
        if !self.buffer.is_loaded() {
            return;
        }
        let indent = new_line_indent_of(self.buffer.text(), offset);
        let content = newline_then(&indent);
        let sel = match self.edit(offset, offset, &content, true, EditType::InsertNewline) {
            Ok(sel) => sel,
            Err(_) => {
                return;
            },
        };
        self.cursor = Cursor::new(CursorMode::Insert(sel), None);
    }

    /// The motion that `cmd` stands for, if any.
    pub fn move_command(&self, count: Option<usize>, cmd: LapceCommand) -> (r: Option<Movement>)
        ensures
            r == move_command_spec(count, cmd),
    {
        match cmd {
            LapceCommand::Left => Some(Movement::Left),
            LapceCommand::Right => Some(Movement::Right),
            LapceCommand::Up => Some(Movement::Up),
            LapceCommand::Down => Some(Movement::Down),
            LapceCommand::LineStart => Some(Movement::StartOfLine),
            LapceCommand::LineEnd => Some(Movement::EndOfLine),
            LapceCommand::GotoLineDefaultFirst => Some(
                match count {
                    Some(n) => Movement::Line(LinePosition::Line(n)),
                    None => Movement::Line(LinePosition::First),
                },
            ),
            LapceCommand::GotoLineDefaultLast => Some(
                match count {
                    Some(n) => Movement::Line(LinePosition::Line(n)),
                    None => Movement::Line(LinePosition::Last),
                },
            ),
            LapceCommand::WordBackward => Some(Movement::WordBackward),
            LapceCommand::WordFoward => Some(Movement::WordForward),
            LapceCommand::WordEndForward => Some(Movement::WordEndForward),
            LapceCommand::MatchPairs => Some(Movement::MatchPairs),
            LapceCommand::NextUnmatchedRightBracket => Some(Movement::NextUnmatched(')')),
            LapceCommand::PreviousUnmatchedLeftBracket => Some(Movement::PreviousUnmatched('(')),
            LapceCommand::NextUnmatchedRightCurlyBracket => Some(Movement::NextUnmatched('}')),
            LapceCommand::PreviousUnmatchedLeftCurlyBracket => Some(
                Movement::PreviousUnmatched('{'),
            ),
            _ => None,
        }
    }

    /// Undoes (or, with `undo` false, redoes) one group of edits. The caret
    /// follows the deltas applied (after text inserted at it), settled as
    /// after any change; the
    /// other views' cursors follow the deltas applied. With nothing to undo
    /// (redo), nothing happens. Returns whether something was done.
    pub fn restore(&mut self, undo: bool) -> (r: bool)
        requires
            old(self).wf(),
            old(self).has_room(),
        ensures
            final(self).wf(),
            r == if undo {
                old(self).buffer.undo_groups().len() > 0
            } else {
                old(self).buffer.redo_groups().len() > 0
            },
            old(self).restore_post(*final(self), undo),
    {
        let old_len = self.buffer.len();
        let ghost t0 = self.text_spec();
        let o = self.cursor.offset();
        let res = if undo {
            self.buffer.undo()
        } else {
            self.buffer.redo()
        };
        match res {
            None => false,
            Some(ds) => {
                let c = follow_offset(o, &ds, old_len, Ghost(t0));
                let mut cs: Vec<Cursor> = Vec::new();
                std::mem::swap(&mut cs, &mut self.inactive);
                self.inactive = follow_deltas(cs, &ds, old_len, Ghost(t0));
                self.set_cursor_after_change(Selection::caret(c));
                true
            },
        }
    }

    /// Leaves for insert mode with a caret at `o` and the given remembered
    /// column; the open undo group ends.
    fn enter_insert(&mut self, o: usize, horiz: Option<usize>)
        requires
            old(self).wf(),
            o <= old(self).text_spec().len(),
        ensures
            final(self).wf(),
            old(self).insert_entered(*final(self), o as int, horiz),
    {
        self.buffer.break_undo_group();
        self.cursor = Cursor::new(CursorMode::Insert(Selection::caret(o)), horiz);
    }

    /// Back to normal mode: from insert mode one character left of the
    /// caret, from visual mode at the region's moving end (on its line's
    /// last character at most). The remembered column is forgotten, the
    /// open undo group ends and the completion session is dropped.
    pub fn normal_mode(&mut self)
        requires
            old(self).wf(),
        ensures
            final(self).wf(),
            old(self).normal_mode_post(*final(self)),
    {
        let t = self.buffer.text();
        let o = match &self.cursor.mode {
            CursorMode::Insert(sel) => move_offset(t, sel.get_cursor_offset(), None, 1, Movement::Left, false).0,
            CursorMode::Visual { end, .. } => {
                let ls = line_start_of(t, *end);
                let lim = line_limit_of(t, ls, false);
                if lim <= *end { lim } else { *end }
            },
            CursorMode::Normal(o) => *o,
        };
        self.buffer.break_undo_group();
        self.cursor = Cursor::new(CursorMode::Normal(o), None);
        self.completion.cancel();
    }

    /// Records the text under the cursor as a yank; from visual mode the
    /// caret goes back to normal mode at the region's start.
    pub fn yank(&mut self)
        requires
            old(self).wf(),
        ensures
            final(self).wf(),
            old(self).yank_post(*final(self)),
    {
        let data = self.cursor.yank(self.buffer.text());
        self.register.add_yank(data);
        let lo = match &self.cursor.mode {
            CursorMode::Visual { start, end, .. } => if *start <= *end { *start } else { *end },
            _ => {
                return;
            },
        };
        let t = self.buffer.text();
        let ls = line_start_of(t, lo);
        let lim = line_limit_of(t, ls, false);
        let o = if lim <= lo { lim } else { lo };
        self.buffer.break_undo_group();
        self.cursor = Cursor::new(CursorMode::Normal(o), None);
    }

    /// Deletes as `delete_post` says: in insert mode back from every
    /// caret (or every selected region), in a blockwise visual selection
    /// every line part, else the range an edit acts on. The caret settles
    /// as after any change, or, with `then_insert`, goes into insert mode
    /// where the text was. The completion session then follows the edit.
    pub fn delete(&mut self, kind: DeleteKind, then_insert: bool) -> (r: Option<CompletionAction>)
        requires
            old(self).wf(),
            old(self).has_room(),
        ensures
            final(self).wf(),
            old(self).delete_post(*final(self), kind, then_insert, r),
    {
        if !self.buffer.is_loaded() {
            return None;
        }
        let block = match &self.cursor.mode {
            CursorMode::Visual { mode, .. } => *mode == VisualMode::Blockwise,
            _ => false,
        };
        if block {
            let rs = self.cursor.edit_ranges(self.buffer.text());
            let first = rs[0].0;
            let empty: Vec<char> = Vec::new();
            let ds = match self.edit_all(&rs, &empty, EditType::Delete) {
                Ok(ds) => ds,
                Err(_) => {
                    return None;
                },
            };
            let ghost rv = crate::cursor::ranges_view(rs@);
            assert(rv[0].0 == first as int);
            let t2 = self.buffer.text();
            let n2 = t2.len();
            let c = if first <= n2 { first } else { n2 };
            let ls = line_start_of(t2, c);
            let lim = line_limit_of(t2, ls, false);
            let o = if lim <= c { lim } else { c };
            self.cursor = Cursor::new(CursorMode::Normal(o), None);
            proof {
                assert(old(self).edited_all(
                    *self,
                    crate::cursor::ranges_view(rs@),
                    empty@,
                    EditType::Delete,
                    group_model(ds),
                ));
                assert(empty@ =~= Seq::<char>::empty());
            }
            return None;
        }
        let in_insert = match &self.cursor.mode {
            CursorMode::Insert(_) => true,
            _ => false,
        };
        if in_insert {
            let sel = match &self.cursor.mode {
                CursorMode::Insert(sel) => sel.clone_selection(),
                _ => {
                    return None;
                },
            };
            let old_len = self.buffer.len();
            let ghost t0 = self.text_spec();
            let rs = insert_delete_ranges_of(self.buffer.text(), &sel, kind);
            let empty: Vec<char> = Vec::new();
            let ds = match self.edit_all(&rs, &empty, EditType::Delete) {
                Ok(ds) => ds,
                Err(_) => {
                    return None;
                },
            };
            let sel2 = follow_selection(sel, &ds, old_len, true, Ghost(t0));
            self.cursor = Cursor::new(CursorMode::Insert(sel2), None);
            let r = if self.completion.request_id() < u64::MAX {
                self.update_completion()
            } else {
                None
            };
            proof {
                assert(empty@ =~= Seq::<char>::empty());
                assert(old(self).edited_all(
                    *self,
                    insert_delete_ranges(old(self).text_spec(), old(self).cursor.mode->Insert_0@, kind),
                    empty@,
                    EditType::Delete,
                    group_model(ds),
                ));
                assert(self.cursor.mode->Insert_0@ == crate::cursor::sel_chain(
                    old(self).cursor.mode->Insert_0@,
                    group_model(ds),
                    true,
                ));
            }
            return r;
        }
        let (s, e) = self.cursor.edit_range(self.buffer.text());
        let empty: Vec<char> = Vec::new();
        let sel = match self.edit(s, e, &empty, true, EditType::Delete) {
            Ok(sel) => sel,
            Err(_) => {
                return None;
            },
        };
        if then_insert {
            self.cursor = Cursor::new(CursorMode::Insert(sel), None);
        } else {
            self.set_cursor_after_change(sel);
        }
        if self.completion.request_id() < u64::MAX {
            self.update_completion()
        } else {
            None
        }
    }

    /// Replaces the input typed since the completion anchor by the selected
    /// item, then drops the session; with no item to take, only drops it.
    pub fn list_select(&mut self)
        requires
            old(self).wf(),
            old(self).has_room(),
        ensures
            final(self).wf(),
            old(self).list_select_post(*final(self)),
    {
        match self.completion.current() {
            None => {
                self.completion.cancel();
            },
            Some(item) => {
                if !self.buffer.is_loaded() {
                    self.completion.cancel();
                    return;
                }
                let t = self.buffer.text();
                let (s, e) = self.cursor.edit_range(t);
                let n = self.completion.input().len();
                let start = if n > 0 {
                    let m = move_offset(t, s, None, n, Movement::Left, true).0;
                    proof {
                        crate::text::lemma_line_start_bounds(t@, s as int);
                    }
                    m
                } else {
                    s
                };
                let sel = match self.edit(start, e, &item, true, EditType::InsertChars) {
                    Ok(sel) => sel,
                    Err(_) => {
                        self.completion.cancel();
                        return;
                    },
                };
                self.set_cursor_after_change(sel);
                self.completion.cancel();
            },
        }
    }

    /// Runs one command. Motions move the cursor (`count` times, once when
    /// none is given; a count given to a "go to line" command is the line)
    /// and drop the completion session; the other commands act as the
    /// methods they call. Returns the completion action that an edit in
    /// insert mode led to.
    pub fn run_command(&mut self, cmd: LapceCommand, count: Option<usize>) -> (r: Option<
        CompletionAction,
    >)
        requires
            old(self).wf(),
            old(self).has_room(),
        ensures
            final(self).wf(),
            ({
                let t = old(self).text_spec();
                let m = old(self).cursor.mode;
                let o = offset_of(m);
                let loaded = old(self).buffer.loaded_spec();
                let c = old(self).completion@;
                match move_command_spec(count, cmd) {
                    Some(mv) => {
                        &&& moved_spec(t, old(self).cursor, final(self).cursor, mv, count_or_one(count))
                        &&& final(self).buffer == old(self).buffer
                        &&& final(self).register == old(self).register
                        &&& final(self).inactive == old(self).inactive
                        &&& final(self).completion@.status == crate::completion::CompletionStatus::Inactive
                        &&& final(self).completion@.request_id == c.request_id
                        &&& r is None
                    },
                    None => match cmd {
                        LapceCommand::Undo => old(self).restore_post(*final(self), true) && r is None,
                        LapceCommand::Redo => old(self).restore_post(*final(self), false) && r is None,
                        LapceCommand::Append => old(self).insert_entered(
                            *final(self),
                            move_spec(t, o, None, 1, Movement::Right, true).0,
                            None,
                        ) && r is None,
                        LapceCommand::AppendEndOfLine => {
                            let e = move_spec(t, o, None, 1, Movement::EndOfLine, true);
                            old(self).insert_entered(*final(self), e.0, Some(e.1 as usize)) && r is None
                        },
                        LapceCommand::InsertMode => old(self).insert_entered(*final(self), o, old(self).cursor.horiz)
                            && r is None,
                        LapceCommand::InsertFirstNonBlank => r is None && match m {
                            CursorMode::Normal(_) => {
                                let e = move_spec(t, o, None, 1, Movement::FirstNonBlank, true);
                                old(self).insert_entered(*final(self), e.0, Some(e.1 as usize))
                            },
                            CursorMode::Visual { .. } => old(self).insert_entered_at(
                                *final(self),
                                carets_at(edit_ranges(t, m)),
                                None,
                            ),
                            CursorMode::Insert(_) => *final(self) == *old(self),
                        },
                        LapceCommand::NewLineAbove => old(self).new_line_post(*final(self), line_above_offset(t, o))
                            && final(self).completion == old(self).completion && r is None,
                        LapceCommand::NewLineBelow => old(self).new_line_post(*final(self), line_end(t, o))
                            && final(self).completion == old(self).completion && r is None,
                        LapceCommand::InsertNewLine => {
                            &&& old(self).new_line_post(*final(self), o)
                            &&& loaded ==> old(self).completion_followed(*final(self), r)
                            &&& !loaded ==> final(self).completion == old(self).completion && r is None
                        },
                        LapceCommand::DeleteToBeginningOfLine => old(self).delete_post(
                            *final(self),
                            DeleteKind::LineStart,
                            false,
                            r,
                        ),
                        LapceCommand::DeleteWordBackward => old(self).delete_post(*final(self), DeleteKind::Word, false, r),
                        LapceCommand::DeleteBackward => old(self).delete_post(*final(self), DeleteKind::Char, false, r),
                        LapceCommand::DeleteForeward => old(self).delete_post(*final(self), DeleteKind::Forward, false, r),
                        LapceCommand::DeleteForewardAndInsert => old(self).delete_post(
                            *final(self),
                            DeleteKind::Forward,
                            true,
                            r,
                        ),
                        LapceCommand::Yank => old(self).yank_post(*final(self)) && r is None,
                        LapceCommand::Paste => old(self).paste_post(
                            *final(self),
                            old(self).register.unnamed_spec().content@,
                            old(self).register.unnamed_spec().mode,
                        ) && r is None,
                        LapceCommand::ToggleVisualMode => toggled_spec(old(self).cursor, final(self).cursor, VisualMode::Normal)
                            && old(self).same_but_cursor(*final(self)) && r is None,
                        LapceCommand::ToggleLinewiseVisualMode => toggled_spec(
                            old(self).cursor,
                            final(self).cursor,
                            VisualMode::Linewise,
                        ) && old(self).same_but_cursor(*final(self)) && r is None,
                        LapceCommand::ToggleBlockwiseVisualMode => toggled_spec(
                            old(self).cursor,
                            final(self).cursor,
                            VisualMode::Blockwise,
                        ) && old(self).same_but_cursor(*final(self)) && r is None,
                        LapceCommand::ListNext | LapceCommand::ListPrevious => {
                            let n = c.filtered.len();
                            &&& final(self).buffer == old(self).buffer
                            &&& final(self).cursor == old(self).cursor
                            &&& final(self).register == old(self).register
                            &&& final(self).inactive == old(self).inactive
                            &&& final(self).completion@.items == c.items
                            &&& final(self).completion@.input == c.input
                            &&& final(self).completion@.status == c.status
                            &&& final(self).completion@.request_id == c.request_id
                            &&& n == 0 ==> final(self).completion@.index == 0
                            &&& n > 0 && cmd == LapceCommand::ListNext ==> final(self).completion@.index == if c.index + 1 < n {
                                c.index + 1
                            } else {
                                0
                            }
                            &&& n > 0 && cmd == LapceCommand::ListPrevious ==> final(self).completion@.index == if c.index == 0 {
                                n - 1
                            } else {
                                c.index - 1
                            }
                            &&& r is None
                        },
                        LapceCommand::ListSelect => old(self).list_select_post(*final(self)) && r is None,
                        LapceCommand::NormalMode => old(self).normal_mode_post(*final(self)) && r is None,
                        _ => *final(self) == *old(self) && r is None,
                    },
                }
            }),
    {
        match self.move_command(count, cmd) {
            Some(movement) => {
                let n = match count {
                    Some(n) => n,
                    None => 1,
                };
                self.do_move(movement, n);
                self.cancel_completion();
                return None;
            },
            None => {},
        }
        let o = self.cursor.offset();
        match cmd {
            LapceCommand::Undo => {
                self.restore(true);
                None
            },
            LapceCommand::Redo => {
                self.restore(false);
                None
            },
            LapceCommand::Append => {
                let a = move_offset(self.buffer.text(), o, None, 1, Movement::Right, true).0;
                self.enter_insert(a, None);
                None
            },
            LapceCommand::AppendEndOfLine => {
                let (a, h) = move_offset(self.buffer.text(), o, None, 1, Movement::EndOfLine, true);
                self.enter_insert(a, Some(h));
                None
            },
            LapceCommand::InsertMode => {
                let h = self.cursor.horiz;
                self.enter_insert(o, h);
                None
            },
            LapceCommand::InsertFirstNonBlank => {
                match &self.cursor.mode {
                    CursorMode::Normal(_) => {
                        let (a, h) = move_offset(self.buffer.text(), o, None, 1, Movement::FirstNonBlank, true);
                        self.enter_insert(a, Some(h));
                    },
                    CursorMode::Visual { .. } => {
                        let rs = self.cursor.edit_ranges(self.buffer.text());
                        let sel = carets_of(&rs, self.buffer.len());
                        self.buffer.break_undo_group();
                        self.cursor = Cursor::new(CursorMode::Insert(sel), None);
                    },
                    CursorMode::Insert(_) => {},
                }
                None
            },
            LapceCommand::NewLineAbove => {
                let t = self.buffer.text();
                let ls = line_start_of(t, o);
                let at = if ls > 0 {
                    ls - 1
                } else {
                    non_blank_end(t, 0)
                };
                self.insert_new_line(at);
                None
            },
            LapceCommand::NewLineBelow => {
                let at = line_end_of(self.buffer.text(), o);
                self.insert_new_line(at);
                None
            },
            LapceCommand::InsertNewLine => {
                self.insert_new_line(o);
                if self.buffer.is_loaded() && self.completion.request_id() < u64::MAX {
                    self.update_completion()
                } else {
                    None
                }
            },
            LapceCommand::DeleteToBeginningOfLine => self.delete(DeleteKind::LineStart, false),
            LapceCommand::DeleteWordBackward => self.delete(DeleteKind::Word, false),
            LapceCommand::DeleteBackward => self.delete(DeleteKind::Char, false),
            LapceCommand::DeleteForeward => self.delete(DeleteKind::Forward, false),
            LapceCommand::DeleteForewardAndInsert => self.delete(DeleteKind::Forward, true),
            LapceCommand::Yank => {
                self.yank();
                None
            },
            LapceCommand::Paste => {
                let data = self.register.unnamed().duplicate();
                self.paste(&data);
                None
            },
            LapceCommand::ToggleVisualMode => {
                self.toggle_visual(VisualMode::Normal);
                None
            },
            LapceCommand::ToggleLinewiseVisualMode => {
                self.toggle_visual(VisualMode::Linewise);
                None
            },
            LapceCommand::ToggleBlockwiseVisualMode => {
                self.toggle_visual(VisualMode::Blockwise);
                None
            },
            LapceCommand::ListNext => {
                self.completion.next();
                None
            },
            LapceCommand::ListPrevious => {
                self.completion.previous();
                None
            },
            LapceCommand::ListSelect => {
                self.list_select();
                None
            },
            LapceCommand::NormalMode => {
                self.normal_mode();
                None
            },
            _ => None,
        }
    }

    /// Whether key-binding condition `condition` holds for this view.
    pub fn check_condition(&self, condition: &str) -> (r: bool)
        ensures
            r == condition_spec(condition@, self.completion@),
    {
        let n = condition.unicode_len();
        let mut a: usize = 0;
        while a < n && is_blank_exec(condition.get_char(a))
            invariant
                a <= n == condition@.len(),
                skip_blanks(condition@, a as int) == skip_blanks(condition@, 0),
            decreases n - a,
        {
            a += 1;
        }
        let mut b: usize = n;
        while b > a && is_blank_exec(condition.get_char(b - 1))
            invariant
                a <= b <= n == condition@.len(),
                trim_end(condition@, b as int, a as int) == trim_end(condition@, n as int, a as int),
            decreases b - a,
        {
            b -= 1;
        }
        let ghost t = condition@.subrange(a as int, b as int);
        assert(t == trimmed(condition@));
        let neg = b > a && condition.get_char(a) == '!';
        let start = if neg {
            a + 1
        } else {
            a
        };
        let name = ['l', 'i', 's', 't', '_', 'f', 'o', 'c', 'u', 's'];
        let mut same = b - start == 10;
        let mut i: usize = 0;
        let ghost mut bad: int = 0;
        while same && i < 10
            invariant
                start <= b <= n == condition@.len(),
                same ==> b - start == 10,
                !same && b - start == 10 ==> 0 <= bad < 10 && condition@[start + bad] != name@[bad],
                i <= 10,
                same ==> forall|k: int| 0 <= k < i ==> condition@[start + k] == name@[k],
                name@ == seq!['l', 'i', 's', 't', '_', 'f', 'o', 'c', 'u', 's'],
            decreases 10 - i,
        {
            if condition.get_char(start + i) != name[i] {
                same = false;
                proof {
                    bad = i as int;
                }
            }
            i += 1;
        }
        let ghost nm = if neg {
            t.subrange(1, t.len() as int)
        } else {
            t
        };
        assert(nm =~= condition@.subrange(start as int, b as int));
        if same {
            assert(nm =~= seq!['l', 'i', 's', 't', '_', 'f', 'o', 'c', 'u', 's']);
        } else if b - start == 10 {
            assert(nm[bad] != seq!['l', 'i', 's', 't', '_', 'f', 'o', 'c', 'u', 's'][bad]);
        }
        let st = self.completion.status();
        let focus = st == crate::completion::CompletionStatus::Done && if self.completion.input().len() == 0 {
            self.completion.items_len() > 0
        } else {
            self.completion.filtered_len() > 0
        };
        let matched = same && focus;
        if neg {
            !matched
        } else {
            matched
        }
    }

    /// Moves the cursor by `movement`, `count` times over: the caret in
    /// normal mode, the region's moving end in visual mode (which may stand
    /// on a line's end), and in insert mode the caret, which the selection
    /// collapses to.
    pub fn do_move(&mut self, movement: Movement, count: usize)
        requires
            old(self).wf(),
        ensures
            final(self).wf(),
            final(self).buffer == old(self).buffer,
            final(self).register == old(self).register,
            final(self).completion == old(self).completion,
            final(self).inactive == old(self).inactive,
            moved_spec(old(self).text_spec(), old(self).cursor, final(self).cursor, movement, count as nat),
    {
        let t = self.buffer.text();
        match &self.cursor.mode {
            CursorMode::Normal(o) => {
                let (o2, h) = move_offset(t, *o, self.cursor.horiz, count, movement, false);
                self.cursor = Cursor::new(CursorMode::Normal(o2), Some(h));
            },
            CursorMode::Visual { start, end, mode } => {
                let (e2, h) = move_offset(t, *end, self.cursor.horiz, count, movement, true);
                let s = *start;
                let m = *mode;
                self.cursor = Cursor::new(CursorMode::Visual { start: s, end: e2, mode: m }, Some(h));
            },
            CursorMode::Insert(sel) => {
                let o = sel.get_cursor_offset();
                let (o2, h) = move_offset(t, o, self.cursor.horiz, count, movement, true);
                self.cursor = Cursor::new(CursorMode::Insert(Selection::caret(o2)), Some(h));
            },
        }
    }

    /// Half a page down or up: `lines` lines, in normal mode.
    pub fn page_move(&mut self, down: bool, lines: usize)
        requires
            old(self).wf(),
        ensures
            final(self).wf(),
            ({
                let m = move_spec(
                    old(self).text_spec(),
                    offset_of(old(self).cursor.mode),
                    old(self).cursor.horiz,
                    lines as nat,
                    if down { Movement::Down } else { Movement::Up },
                    false,
                );
                final(self).cursor.mode == CursorMode::Normal(m.0 as usize) && final(self).cursor.horiz
                    == Some(m.1 as usize)
            }),
            final(self).buffer == old(self).buffer,
            final(self).register == old(self).register,
            final(self).completion == old(self).completion,
            final(self).inactive == old(self).inactive,
    {
        let o = self.cursor.offset();
        let m = if down {
            Movement::Down
        } else {
            Movement::Up
        };
        let (o2, h) = move_offset(self.buffer.text(), o, self.cursor.horiz, lines, m, false);
        self.cursor = Cursor::new(CursorMode::Normal(o2), Some(h));
    }

    /// Enters visual mode of submode `visual_mode` at the caret; in visual
    /// mode, switches to that submode, or back to normal mode at the
    /// region's moving end when it is the current one.
    pub fn toggle_visual(&mut self, visual_mode: VisualMode)
        requires
            old(self).wf(),
        ensures
            final(self).wf(),
            toggled_spec(old(self).cursor, final(self).cursor, visual_mode),
            old(self).same_but_cursor(*final(self)),
    {
        self.buffer.break_undo_group();
        let horiz = self.cursor.horiz;
        match &self.cursor.mode {
            CursorMode::Visual { start, end, mode } => {
                if *mode != visual_mode {
                    let s = *start;
                    let e = *end;
                    self.cursor = Cursor::new(CursorMode::Visual { start: s, end: e, mode: visual_mode }, horiz);
                } else {
                    let e = *end;
                    self.cursor = Cursor::new(CursorMode::Normal(e), horiz);
                }
            },
            _ => {
                let o = self.cursor.offset();
                self.cursor = Cursor::new(CursorMode::Visual { start: o, end: o, mode: visual_mode }, horiz);
            },
        }
    }

    /// After an edit in insert mode, brings the completion session up to
    /// date with the identifier around the caret; see `on_edit`. Outside
    /// insert mode nothing happens. The action tells the caller whether a
    /// request must go out.
    pub fn update_completion(&mut self) -> (r: Option<CompletionAction>)
        requires
            old(self).wf(),
            old(self).completion@.request_id < u64::MAX,
        ensures
            final(self).wf(),
            final(self).buffer == old(self).buffer,
            final(self).cursor == old(self).cursor,
            final(self).register == old(self).register,
            final(self).inactive == old(self).inactive,
            mode_of(old(self).cursor.mode) != Mode::Insert ==> r is None && final(self).completion
                == old(self).completion,
            mode_of(old(self).cursor.mode) == Mode::Insert ==> {
                let t = old(self).text_spec();
                let o = offset_of(old(self).cursor.mode);
                let start = prev_boundary(t, o);
                match r {
                    Some(a) => on_edit_spec(
                        old(self).completion@,
                        final(self).completion@,
                        a,
                        old(self).buffer.id_spec(),
                        start as usize,
                        t.subrange(start, next_boundary(t, o)),
                        if start > 0 {
                            Some(t[start - 1])
                        } else {
                            None
                        },
                    ),
                    None => false,
                }
            },
    {
        match &self.cursor.mode {
            CursorMode::Insert(_) => {},
            _ => {
                return None;
            },
        }
        let o = self.cursor.offset();
        let (start, input, prev) = completion_input(self.buffer.text(), o);
        let id = self.buffer.id();
        Some(self.completion.on_edit(id, start, input, prev))
    }

    /// Hands the items answering completion request `request_id` to the
    /// session, with the identifier around the caret as its input; see
    /// `CompletionData::done`. Returns whether they were taken.
    pub fn completion_done(&mut self, request_id: u64, items: Vec<Vec<char>>) -> (r: bool)
        requires
            old(self).wf(),
        ensures
            final(self).wf(),
            old(self).same_but_completion(*final(self)),
            r == (old(self).completion@.status == crate::completion::CompletionStatus::Started
                && request_id == old(self).completion@.request_id),
            r ==> {
                let t = old(self).text_spec();
                let o = offset_of(old(self).cursor.mode);
                &&& final(self).completion@.status == crate::completion::CompletionStatus::Done
                &&& final(self).completion@.items == crate::completion::items_model(items@)
                &&& final(self).completion@.input == t.subrange(prev_boundary(t, o), next_boundary(t, o))
                &&& final(self).completion@.request_id == old(self).completion@.request_id
            },
            !r ==> final(self).completion@ == old(self).completion@,
    {
        let o = self.cursor.offset();
        let (_start, input, _prev) = completion_input(self.buffer.text(), o);
        self.completion.done(request_id, input, items)
    }

    /// Types `c` in insert mode over the insert selection, the caret after
    /// it, then updates the completion session. Outside insert mode nothing
    /// happens.
    pub fn insert(&mut self, c: &Vec<char>) -> (r: Option<CompletionAction>)
        requires
            old(self).wf(),
            old(self).has_room(),
        ensures
            final(self).wf(),
            old(self).insert_post(*final(self), c@, r),
    {
        match &self.cursor.mode {
            CursorMode::Insert(_) => {},
            _ => {
                return None;
            },
        }
        if !self.buffer.is_loaded() {
            return None;
        }
        let sel = match &self.cursor.mode {
            CursorMode::Insert(sel) => sel.clone_selection(),
            _ => {
                return None;
            },
        };
        let old_len = self.buffer.len();
        let ghost t0 = self.text_spec();
        let rs = crate::cursor::covered_ranges(&sel, old_len);
        let ds = match self.edit_all(&rs, c, EditType::InsertChars) {
            Ok(ds) => ds,
            Err(_) => {
                return None;
            },
        };
        let sel2 = follow_selection(sel, &ds, old_len, true, Ghost(t0));
        self.cursor = Cursor::new(CursorMode::Insert(sel2), None);
        let r = self.update_completion();
        proof {
            assert(old(self).edited_all(
                *self,
                crate::cursor::covered(old(self).cursor.mode->Insert_0@),
                c@,
                EditType::InsertChars,
                group_model(ds),
            ));
            assert(self.cursor.mode->Insert_0@ == crate::cursor::sel_chain(
                old(self).cursor.mode->Insert_0@,
                group_model(ds),
                true,
            ));
        }
        r
    }
}

} // verus!
