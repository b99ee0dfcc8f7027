use vstd::prelude::*;
use crate::text::{
    last_line,
    line_limit, line_limit_of, line_of, line_of_offset, line_start, line_start_of, offset_of_line,
    offset_of_line_spec,
};

verus! {

/// The character classes whose transitions delimit words.
#[derive(Clone, Copy, Debug, PartialEq, Eq, Structural)]
pub enum CharClass {
    Space,
    Word,
    Punctuation,
}

/// A line that an absolute line motion goes to.
#[derive(Clone, Copy, Debug, PartialEq, Eq, Structural)]
pub enum LinePosition {
    First,
    Last,
    /// The line with this number, counted from 1.
    Line(usize),
}

#[derive(Clone, Copy, Debug, PartialEq, Eq, Structural)]
pub enum Movement {
    Left,
    Right,
    Up,
    Down,
    StartOfLine,
    EndOfLine,
    FirstNonBlank,
    WordForward,
    WordBackward,
    WordEndForward,
    Line(LinePosition),
    MatchPairs,
    NextUnmatched(char),
    PreviousUnmatched(char),
}

pub open spec fn is_space(c: char) -> bool {
    c == ' ' || c == '\t' || c == '\n' || c == '\r'
}

/// Letters, digits, the underscore, and every character beyond ASCII.
pub open spec fn is_word_char(c: char) -> bool {
    let u = c as u32;
    (97 <= u <= 122) || (65 <= u <= 90) || (48 <= u <= 57) || c == '_' || u > 127
}

pub open spec fn class(c: char) -> CharClass {
    if is_space(c) {
        CharClass::Space
    } else if is_word_char(c) {
        CharClass::Word
    } else {
        CharClass::Punctuation
    }
}

pub fn class_of(c: char) -> (r: CharClass)
    ensures
        r == class(c),
{
    let u = c as u32;
    if c == ' ' || c == '\t' || c == '\n' || c == '\r' {
        CharClass::Space
    } else if (97 <= u && u <= 122) || (65 <= u && u <= 90) || (48 <= u && u <= 57) || c == '_'
        || u > 127 {
        CharClass::Word
    } else {
        CharClass::Punctuation
    }
}

/// A word starts at `j` when its character is no space and differs in
/// class from the one before.
pub open spec fn is_word_start(t: Seq<char>, j: int) -> bool {
    0 < j < t.len() && class(t[j]) != CharClass::Space && class(t[j]) != class(t[j - 1])
}

/// A word ends at `j` when its character is no space and the next one is
/// of another class or absent.
pub open spec fn is_word_end(t: Seq<char>, j: int) -> bool {
    0 <= j < t.len() && class(t[j]) != CharClass::Space && (j + 1 >= t.len() || class(t[j + 1])
        != class(t[j]))
}

/// First word start at or after `j`, or the end of the text.
pub open spec fn word_start_from(t: Seq<char>, j: int) -> int
    decreases t.len() - j,
{
    if j >= t.len() {
        t.len() as int
    } else if is_word_start(t, j) {
        j
    } else {
        word_start_from(t, j + 1)
    }
}

/// Last word start at or before `j` (a word always starts at offset 0).
pub open spec fn word_start_back_from(t: Seq<char>, j: int) -> int
    decreases j,
{
    if j <= 0 {
        0
    } else if is_word_start(t, j) {
        j
    } else {
        word_start_back_from(t, j - 1)
    }
}

/// First word end at or after `j`, or the end of the text.
pub open spec fn word_end_from(t: Seq<char>, j: int) -> int
    decreases t.len() - j,
{
    if j >= t.len() {
        t.len() as int
    } else if is_word_end(t, j) {
        j
    } else {
        word_end_from(t, j + 1)
    }
}

#[derive(Clone, Copy, Debug, PartialEq, Eq, Structural)]
pub enum WordMotion {
    Forward,
    Backward,
    EndForward,
}

/// One word motion from `o`.
pub open spec fn word_step(t: Seq<char>, o: int, w: WordMotion) -> int {
    match w {
        WordMotion::Forward => word_start_from(t, o + 1),
        WordMotion::Backward => if o <= 0 {
            0
        } else {
            word_start_back_from(t, o - 1)
        },
        WordMotion::EndForward => word_end_from(t, o + 1),
    }
}

/// `n` word motions from `o`, one after the other.
pub open spec fn word_repeat(t: Seq<char>, o: int, n: nat, w: WordMotion) -> int
    decreases n,
{
    if n == 0 {
        o
    } else {
        word_step(t, word_repeat(t, o, (n - 1) as nat, w), w)
    }
}

pub open spec fn is_open_bracket(c: char) -> bool {
    c == '(' || c == '[' || c == '{'
}

pub open spec fn is_close_bracket(c: char) -> bool {
    c == ')' || c == ']' || c == '}'
}

/// The bracket that pairs with `c` (`c` itself when it is no bracket).
pub open spec fn partner(c: char) -> char {
    if c == '(' {
        ')'
    } else if c == ')' {
        '('
    } else if c == '[' {
        ']'
    } else if c == ']' {
        '['
    } else if c == '{' {
        '}'
    } else if c == '}' {
        '{'
    } else {
        c
    }
}

pub fn partner_of(c: char) -> (r: char)
    ensures
        r == partner(c),
{
    if c == '(' {
        ')'
    } else if c == ')' {
        '('
    } else if c == '[' {
        ']'
    } else if c == ']' {
        '['
    } else if c == '{' {
        '}'
    } else if c == '}' {
        '{'
    } else {
        c
    }
}

/// Scanning forward from `j` at nesting `depth`, the first `close` that
/// leaves the nesting negative.
pub open spec fn match_forward_from(
    t: Seq<char>,
    j: int,
    open: char,
    close: char,
    depth: nat,
) -> Option<int>
    decreases t.len() - j,
{
    if j >= t.len() || j < 0 {
        None
    } else if t[j] == close {
        if depth == 0 {
            Some(j)
        } else {
            match_forward_from(t, j + 1, open, close, (depth - 1) as nat)
        }
    } else if t[j] == open {
        match_forward_from(t, j + 1, open, close, depth + 1)
    } else {
        match_forward_from(t, j + 1, open, close, depth)
    }
}

/// Scanning backward over the characters before `j` at nesting `depth`,
/// the first `open` that leaves the nesting negative.
pub open spec fn match_backward_from(
    t: Seq<char>,
    j: int,
    open: char,
    close: char,
    depth: nat,
) -> Option<int>
    decreases j,
{
    if j <= 0 || j > t.len() {
        None
    } else if t[j - 1] == open {
        if depth == 0 {
            Some(j - 1)
        } else {
            match_backward_from(t, j - 1, open, close, (depth - 1) as nat)
        }
    } else if t[j - 1] == close {
        match_backward_from(t, j - 1, open, close, depth + 1)
    } else {
        match_backward_from(t, j - 1, open, close, depth)
    }
}

/// The first bracket at or after `j` on the same line.
pub open spec fn bracket_from(t: Seq<char>, j: int) -> Option<int>
    decreases t.len() - j,
{
    if j < 0 || j >= t.len() || t[j] == '\n' {
        None
    } else if is_open_bracket(t[j]) || is_close_bracket(t[j]) {
        Some(j)
    } else {
        bracket_from(t, j + 1)
    }
}

/// The bracket that matches the one at `b`.
pub open spec fn matching_bracket(t: Seq<char>, b: int) -> Option<int> {
    let c = t[b];
    if is_open_bracket(c) {
        match_forward_from(t, b + 1, c, partner(c), 0)
    } else {
        match_backward_from(t, b, partner(c), c, 0)
    }
}

/// The first character of the line at `ls` that is no blank, kept within
/// the line's caret limit.
pub open spec fn non_blank_from(t: Seq<char>, j: int) -> int
    decreases t.len() - j,
{
    if j >= t.len() || t[j] == '\n' || !(t[j] == ' ' || t[j] == '\t') {
        j
    } else {
        non_blank_from(t, j + 1)
    }
}

pub open spec fn first_non_blank(t: Seq<char>, ls: int, inclusive: bool) -> int {
    let f = non_blank_from(t, ls);
    let lim = line_limit(t, ls, inclusive);
    if f <= lim {
        f
    } else {
        lim
    }
}

/// The caret on line `line` at column `col`, kept within the line's limit;
/// the column is remembered as asked.
pub open spec fn vertical(t: Seq<char>, line: nat, col: int, inclusive: bool) -> (int, int) {
    let s = offset_of_line_spec(t, line);
    let lim = line_limit(t, s, inclusive);
    (if s + col <= lim {
        s + col
    } else {
        lim
    }, col)
}

/// An offset with its column.
pub open spec fn at_col(t: Seq<char>, r: int) -> (int, int) {
    (r, r - line_start(t, r))
}

pub open spec fn target_line(t: Seq<char>, p: LinePosition) -> nat {
    match p {
        LinePosition::First => 0,
        LinePosition::Last => last_line(t),
        LinePosition::Line(n) => if n == 0 {
            0
        } else if n - 1 <= last_line(t) {
            (n - 1) as nat
        } else {
            last_line(t)
        },
    }
}

/// One bracket motion from `o`: to the bracket matching the first bracket
/// at or after `o` on its line, or to the next (previous) bracket `c` left
/// unmatched; no move when there is none.
pub open spec fn bracket_step(t: Seq<char>, o: int, m: Movement) -> int {
    match m {
        Movement::MatchPairs => match bracket_from(t, o) {
            Some(b) => match matching_bracket(t, b) {
                Some(r) => r,
                None => o,
            },
            None => o,
        },
        Movement::NextUnmatched(c) => if is_close_bracket(c) {
            match match_forward_from(t, o + 1, partner(c), c, 0) {
                Some(r) => r,
                None => o,
            }
        } else {
            o
        },
        Movement::PreviousUnmatched(c) => if is_open_bracket(c) {
            match match_backward_from(t, o, c, partner(c), 0) {
                Some(r) => r,
                None => o,
            }
        } else {
            o
        },
        _ => o,
    }
}

/// `n` bracket motions from `o`, one after the other.
pub open spec fn bracket_repeat(t: Seq<char>, o: int, n: nat, m: Movement) -> int
    decreases n,
{
    if n == 0 {
        o
    } else {
        bracket_step(t, bracket_repeat(t, o, (n - 1) as nat, m), m)
    }
}

/// Where a motion leads from `o0`, repeated `count` times, with the column
/// to remember for later vertical motions. An offset past the end of the
/// text counts as its end.
pub open spec fn move_spec(
    t: Seq<char>,
    o0: int,
    horiz: Option<usize>,
    count: nat,
    m: Movement,
    inclusive: bool,
) -> (int, int) {
    let o = if o0 > t.len() {
        t.len() as int
    } else {
        o0
    };
    let ls = line_start(t, o);
    let col = o - ls;
    let want = match horiz {
        Some(h) => h as int,
        None => col,
    };
    let line = line_of(t, o);
    match m {
        Movement::Left => at_col(t, if o - count >= ls { o - count } else { ls }),
        Movement::Right => {
            let lim = line_limit(t, ls, inclusive);
            at_col(t, if o + count <= lim { o + count } else { lim })
        },
        Movement::Up => vertical(
            t,
            if count <= line { (line - count) as nat } else { 0 },
            want,
            inclusive,
        ),
        Movement::Down => vertical(
            t,
            if line + count <= last_line(t) { line + count } else { last_line(t) },
            want,
            inclusive,
        ),
        Movement::StartOfLine => (ls, 0),
        Movement::EndOfLine => at_col(t, line_limit(t, ls, inclusive)),
        Movement::FirstNonBlank => at_col(t, first_non_blank(t, ls, inclusive)),
        Movement::WordForward => at_col(t, word_repeat(t, o, count, WordMotion::Forward)),
        Movement::WordBackward => at_col(t, word_repeat(t, o, count, WordMotion::Backward)),
        Movement::WordEndForward => at_col(t, word_repeat(t, o, count, WordMotion::EndForward)),
        Movement::Line(p) => at_col(
            t,
            first_non_blank(t, offset_of_line_spec(t, target_line(t, p)), inclusive),
        ),
        Movement::MatchPairs | Movement::NextUnmatched(_) | Movement::PreviousUnmatched(_) => at_col(
            t,
            bracket_repeat(t, o, count, m),
        ),
    }
}

fn is_word_start_at(t: &Vec<char>, j: usize) -> (r: bool)
    requires
        j < t@.len(),
    ensures
        r == is_word_start(t@, j as int),
{
    if j == 0 {
        return false;
    }
    let c = class_of(t[j]);
    c != CharClass::Space && c != class_of(t[j - 1])
}

fn is_word_end_at(t: &Vec<char>, j: usize) -> (r: bool)
    requires
        j < t@.len(),
    ensures
        r == is_word_end(t@, j as int),
{
    let n = t.len();
    let c = class_of(t[j]);
    c != CharClass::Space && (j + 1 >= n || class_of(t[j + 1]) != c)
}

/// One word motion from `o`.
pub fn word_step_of(t: &Vec<char>, o: usize, w: WordMotion) -> (r: usize)
    requires
        o <= t@.len(),
    ensures
        r == word_step(t@, o as int, w),
        r <= t@.len(),
{
    match w {
        WordMotion::Forward => {
            if o >= t.len() {
                return t.len();
            }
            let mut j: usize = o + 1;
            while j < t.len() && !is_word_start_at(t, j)
                invariant
                    o + 1 <= j <= t@.len(),
                    word_start_from(t@, j as int) == word_start_from(t@, o as int + 1),
                decreases t@.len() - j,
            {
                j += 1;
            }
            j
        },
        WordMotion::Backward => {
            if o == 0 {
                return 0;
            }
            let mut j: usize = o - 1;
            while j > 0 && !is_word_start_at(t, j)
                invariant
                    j < o <= t@.len(),
                    word_start_back_from(t@, j as int) == word_start_back_from(t@, o as int - 1),
                decreases j,
            {
                j -= 1;
            }
            j
        },
        WordMotion::EndForward => {
            if o >= t.len() {
                return t.len();
            }
            let mut j: usize = o + 1;
            while j < t.len() && !is_word_end_at(t, j)
                invariant
                    o + 1 <= j <= t@.len(),
                    word_end_from(t@, j as int) == word_end_from(t@, o as int + 1),
                decreases t@.len() - j,
            {
                j += 1;
            }
            j
        },
    }
}

/// `n` word motions from `o`.
pub fn word_repeat_of(t: &Vec<char>, o: usize, n: usize, w: WordMotion) -> (r: usize)
    requires
        o <= t@.len(),
    ensures
        r == word_repeat(t@, o as int, n as nat, w),
        r <= t@.len(),
{
    let mut cur: usize = o;
    let mut i: usize = 0;
    while i < n
        invariant
            i <= n,
            cur <= t@.len(),
            cur == word_repeat(t@, o as int, i as nat, w),
        decreases n - i,
    {
        cur = word_step_of(t, cur, w);
        i += 1;
    }
    cur
}

/// Scans forward from `j0` for the `close` that leaves the nesting
/// negative.
pub fn match_forward(t: &Vec<char>, j0: usize, open: char, close: char) -> (r: Option<usize>)
    ensures
        match r {
            Some(x) => match_forward_from(t@, j0 as int, open, close, 0) == Some(x as int) && x < t@.len(),
            None => match_forward_from(t@, j0 as int, open, close, 0) is None,
        },
{
    let mut j: usize = j0;
    let mut depth: usize = 0;
    while j < t.len()
        invariant
            j0 <= j,
            depth <= j - j0,
            match_forward_from(t@, j as int, open, close, depth as nat) == match_forward_from(
                t@,
                j0 as int,
                open,
                close,
                0,
            ),
        decreases t@.len() - j,
    {
        let c = t[j];
        if c == close {
            if depth == 0 {
                return Some(j);
            }
            depth -= 1;
        } else if c == open {
            depth += 1;
        }
        j += 1;
    }
    None
}

/// Scans backward over the characters before `j0` for the `open` that
/// leaves the nesting negative.
pub fn match_backward(t: &Vec<char>, j0: usize, open: char, close: char) -> (r: Option<usize>)
    requires
        j0 <= t@.len(),
    ensures
        match r {
            Some(x) => match_backward_from(t@, j0 as int, open, close, 0) == Some(x as int) && x < t@.len(),
            None => match_backward_from(t@, j0 as int, open, close, 0) is None,
        },
{
    let mut j: usize = j0;
    let mut depth: usize = 0;
    while j > 0
        invariant
            j <= j0 <= t@.len(),
            depth <= j0 - j,
            match_backward_from(t@, j as int, open, close, depth as nat) == match_backward_from(
                t@,
                j0 as int,
                open,
                close,
                0,
            ),
        decreases j,
    {
        let c = t[j - 1];
        if c == open {
            if depth == 0 {
                return Some(j - 1);
            }
            depth -= 1;
        } else if c == close {
            depth += 1;
        }
        j -= 1;
    }
    None
}

fn bracket_at_or_after(t: &Vec<char>, j0: usize) -> (r: Option<usize>)
    ensures
        match r {
            Some(x) => bracket_from(t@, j0 as int) == Some(x as int) && x < t@.len(),
            None => bracket_from(t@, j0 as int) is None,
        },
{
    let mut j: usize = j0;
    while j < t.len()
        invariant
            j0 <= j,
            bracket_from(t@, j as int) == bracket_from(t@, j0 as int),
        decreases t@.len() - j,
    {
        let c = t[j];
        if c == '\n' {
            return None;
        }
        if c == '(' || c == '[' || c == '{' || c == ')' || c == ']' || c == '}' {
            return Some(j);
        }
        j += 1;
    }
    None
}

/// The bracket that matches the one at `b`.
pub fn matching_bracket_of(t: &Vec<char>, b: usize) -> (r: Option<usize>)
    requires
        b < t@.len(),
    ensures
        match r {
            Some(x) => matching_bracket(t@, b as int) == Some(x as int) && x < t@.len(),
            None => matching_bracket(t@, b as int) is None,
        },
{
    let n = t.len();
    let c = t[b];
    if b + 1 > n {
        return None;
    }
    if c == '(' || c == '[' || c == '{' {
        match_forward(t, b + 1, c, partner_of(c))
    } else {
        match_backward(t, b, partner_of(c), c)
    }
}

/// First non-blank caret offset of the line that starts at `ls`.
pub fn first_non_blank_of(t: &Vec<char>, ls: usize, inclusive: bool) -> (r: usize)
    requires
        ls <= t@.len(),
    ensures
        r == first_non_blank(t@, ls as int, inclusive),
        ls <= r <= t@.len(),
{
    let mut j: usize = ls;
    while j < t.len() && t[j] != '\n' && (t[j] == ' ' || t[j] == '\t')
        invariant
            ls <= j <= t@.len(),
            non_blank_from(t@, j as int) == non_blank_from(t@, ls as int),
        decreases t@.len() - j,
    {
        j += 1;
    }
    let lim = line_limit_of(t, ls, inclusive);
    if j <= lim {
        j
    } else {
        lim
    }
}

/// One bracket motion from `o`.
pub fn bracket_step_of(t: &Vec<char>, o: usize, m: Movement) -> (r: usize)
    requires
        o <= t@.len(),
    ensures
        r == bracket_step(t@, o as int, m),
        r <= t@.len(),
{
    match m {
        Movement::MatchPairs => match bracket_at_or_after(t, o) {
            Some(b) => match matching_bracket_of(t, b) {
                Some(r) => r,
                None => o,
            },
            None => o,
        },
        Movement::NextUnmatched(c) => {
            if c == ')' || c == ']' || c == '}' {
                let n = t.len();
                if o < n {
                    match match_forward(t, o + 1, partner_of(c), c) {
                        Some(r) => r,
                        None => o,
                    }
                } else {
                    o
                }
            } else {
                o
            }
        },
        Movement::PreviousUnmatched(c) => {
            if c == '(' || c == '[' || c == '{' {
                match match_backward(t, o, c, partner_of(c)) {
                    Some(r) => r,
                    None => o,
                }
            } else {
                o
            }
        },
        _ => o,
    }
}

fn with_col(t: &Vec<char>, r: usize) -> (p: (usize, usize))
    requires
        r <= t@.len(),
    ensures
        (p.0 as int, p.1 as int) == at_col(t@, r as int),
{
    let ls = line_start_of(t, r);
    (r, r - ls)
}

fn vertical_of(t: &Vec<char>, line: usize, col: usize, inclusive: bool) -> (p: (usize, usize))
    ensures
        (p.0 as int, p.1 as int) == vertical(t@, line as nat, col as int, inclusive),
        p.0 <= t@.len(),
{
    let s = offset_of_line(t, line);
    let lim = line_limit_of(t, s, inclusive);
    if col <= lim - s {
        (s + col, col)
    } else {
        (lim, col)
    }
}

fn target_line_of(t: &Vec<char>, p: LinePosition) -> (r: usize)
    ensures
        r == target_line(t@, p),
{
    let last = line_of_offset(t, t.len());
    proof {
        assert(t@.subrange(0, t@.len() as int) =~= t@);
    }
    match p {
        LinePosition::First => 0,
        LinePosition::Last => last,
        LinePosition::Line(n) => if n == 0 {
            0
        } else if n - 1 <= last {
            n - 1
        } else {
            last
        },
    }
}

/// Moves the caret at `offset` by `movement`, `count` times over, and
/// returns the new offset with the column to remember. Vertical motions go
/// to the remembered column `horiz` when there is one, kept within the
/// target line. `inclusive` lets the caret stand on a line's end (insert
/// and visual modes). Every motion is total: offsets past the end of the
/// text count as its end.
pub fn move_offset(
    t: &Vec<char>,
    offset: usize,
    horiz: Option<usize>,
    count: usize,
    movement: Movement,
    inclusive: bool,
) -> (r: (usize, usize))
    ensures
        (r.0 as int, r.1 as int) == move_spec(
            t@,
            offset as int,
            horiz,
            count as nat,
            movement,
            inclusive,
        ),
        r.0 <= t@.len(),
{
    let o = if offset > t.len() {
        t.len()
    } else {
        offset
    };
    let ls = line_start_of(t, o);
    let col = o - ls;
    let want = match horiz {
        Some(h) => h,
        None => col,
    };
    match movement {
        Movement::Left => {
            let r = if count <= o - ls { o - count } else { ls };
            with_col(t, r)
        },
        Movement::Right => {
            let lim = line_limit_of(t, ls, inclusive);
            with_col(t, if o <= lim && count <= lim - o { o + count } else { lim })
        },
        Movement::Up => {
            let line = line_of_offset(t, o);
            vertical_of(t, if count <= line { line - count } else { 0 }, want, inclusive)
        },
        Movement::Down => {
            let line = line_of_offset(t, o);
            let last = target_line_of(t, LinePosition::Last);
            vertical_of(
                t,
                if line <= last && count <= last - line { line + count } else { last },
                want,
                inclusive,
            )
        },
        Movement::StartOfLine => (ls, 0),
        Movement::EndOfLine => with_col(t, line_limit_of(t, ls, inclusive)),
        Movement::FirstNonBlank => with_col(t, first_non_blank_of(t, ls, inclusive)),
        Movement::WordForward => with_col(t, word_repeat_of(t, o, count, WordMotion::Forward)),
        Movement::WordBackward => with_col(t, word_repeat_of(t, o, count, WordMotion::Backward)),
        Movement::WordEndForward => with_col(
            t,
            word_repeat_of(t, o, count, WordMotion::EndForward),
        ),
        Movement::Line(p) => {
            let line = target_line_of(t, p);
            let s = offset_of_line(t, line);
            with_col(t, first_non_blank_of(t, s, inclusive))
        },
        Movement::MatchPairs | Movement::NextUnmatched(_) | Movement::PreviousUnmatched(_) => {
            let mut cur: usize = o;
            let mut i: usize = 0;
            while i < count
                invariant
                    i <= count,
                    cur <= t@.len(),
                    cur == bracket_repeat(t@, o as int, i as nat, movement),
                decreases count - i,
            {
                cur = bracket_step_of(t, cur, movement);
                i += 1;
            }
            with_col(t, cur)
        },
    }
}

} // verus!
