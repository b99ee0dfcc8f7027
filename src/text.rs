use vstd::prelude::*;

verus! {

/// Number of line feeds in `s`.
pub open spec fn newlines(s: Seq<char>) -> nat
    decreases s.len(),
{
    if s.len() == 0 {
        0
    } else {
        newlines(s.drop_last()) + if s.last() == '\n' { 1nat } else { 0nat }
    }
}

/// Index of the line that holds offset `o` (lines are counted from 0).
pub open spec fn line_of(t: Seq<char>, o: int) -> nat {
    newlines(t.subrange(0, o))
}

/// Index of the last line.
pub open spec fn last_line(t: Seq<char>) -> nat {
    newlines(t)
}

/// Scanning from `i`, the offset just after the `n`-th line feed still to
/// come, or the end of the text when there are fewer.
pub open spec fn start_from(t: Seq<char>, i: int, n: nat) -> int
    decreases t.len() - i, n,
{
    if n == 0 {
        i
    } else if i >= t.len() {
        t.len() as int
    } else if t[i] == '\n' {
        start_from(t, i + 1, (n - 1) as nat)
    } else {
        start_from(t, i + 1, n)
    }
}

/// Offset at which line `n` starts; the end of the text past the last line.
pub open spec fn offset_of_line_spec(t: Seq<char>, n: nat) -> int {
    start_from(t, 0, n)
}

/// Start of the line that holds offset `o`.
pub open spec fn line_start(t: Seq<char>, o: int) -> int
    decreases o,
{
    if o <= 0 {
        0
    } else if t[o - 1] == '\n' {
        o
    } else {
        line_start(t, o - 1)
    }
}

/// End of the line that holds offset `o`: its line feed, or the end of the
/// text.
pub open spec fn line_end(t: Seq<char>, o: int) -> int
    decreases t.len() - o,
{
    if o >= t.len() {
        t.len() as int
    } else if t[o] == '\n' {
        o
    } else {
        line_end(t, o + 1)
    }
}

/// Last offset that a caret may take on the line that starts at `ls`: the
/// line's end when `inclusive` (insert and visual modes), else its last
/// character.
pub open spec fn line_limit(t: Seq<char>, ls: int, inclusive: bool) -> int {
    let e = line_end(t, ls);
    if inclusive || e == ls {
        e
    } else {
        e - 1
    }
}

pub proof fn lemma_line_start_bounds(t: Seq<char>, o: int)
    requires
        0 <= o <= t.len(),
    ensures
        0 <= line_start(t, o) <= o,
    decreases o,
{
    if o > 0 && t[o - 1] != '\n' {
        lemma_line_start_bounds(t, o - 1);
    }
}

pub proof fn lemma_line_end_bounds(t: Seq<char>, o: int)
    requires
        0 <= o <= t.len(),
    ensures
        o <= line_end(t, o) <= t.len(),
    decreases t.len() - o,
{
    if o < t.len() && t[o] != '\n' {
        lemma_line_end_bounds(t, o + 1);
    }
}

pub proof fn lemma_start_from_bounds(t: Seq<char>, i: int, n: nat)
    requires
        0 <= i <= t.len(),
    ensures
        i <= start_from(t, i, n) <= t.len(),
    decreases t.len() - i, n,
{
    if n != 0 && i < t.len() {
        if t[i] == '\n' {
            lemma_start_from_bounds(t, i + 1, (n - 1) as nat);
        } else {
            lemma_start_from_bounds(t, i + 1, n);
        }
    }
}

/// Offset at which line `line` starts (the end of the text past the last
/// line).
pub fn offset_of_line(t: &Vec<char>, line: usize) -> (r: usize)
    ensures
        r == offset_of_line_spec(t@, line as nat),
        r <= t@.len(),
{
    proof { lemma_start_from_bounds(t@, 0, line as nat); }
    let mut i: usize = 0;
    let mut n: usize = line;
    while i < t.len() && n > 0
        invariant
            i <= t@.len(),
            start_from(t@, i as int, n as nat) == start_from(t@, 0, line as nat),
        decreases t@.len() - i,
    {
        if t[i] == '\n' {
            n -= 1;
        }
        i += 1;
    }
    i
}

/// Start of the line that holds `o`.
pub fn line_start_of(t: &Vec<char>, o: usize) -> (r: usize)
    requires
        o <= t@.len(),
    ensures
        r == line_start(t@, o as int),
        r <= o,
{
    proof { lemma_line_start_bounds(t@, o as int); }
    let mut j: usize = o;
    while j > 0 && t[j - 1] != '\n'
        invariant
            j <= o <= t@.len(),
            line_start(t@, j as int) == line_start(t@, o as int),
        decreases j,
    {
        j -= 1;
    }
    j
}

/// End of the line that holds `o`.
pub fn line_end_of(t: &Vec<char>, o: usize) -> (r: usize)
    requires
        o <= t@.len(),
    ensures
        r == line_end(t@, o as int),
        o <= r <= t@.len(),
{
    proof { lemma_line_end_bounds(t@, o as int); }
    let mut j: usize = o;
    while j < t.len() && t[j] != '\n'
        invariant
            o <= j <= t@.len(),
            line_end(t@, j as int) == line_end(t@, o as int),
        decreases t@.len() - j,
    {
        j += 1;
    }
    j
}

/// Last caret offset of the line that starts at `ls`.
pub fn line_limit_of(t: &Vec<char>, ls: usize, inclusive: bool) -> (r: usize)
    requires
        ls <= t@.len(),
    ensures
        r == line_limit(t@, ls as int, inclusive),
        ls <= r <= t@.len(),
{
    let e = line_end_of(t, ls);
    if inclusive || e == ls {
        e
    } else {
        e - 1
    }
}

/// Index of the line that holds `o`.
pub fn line_of_offset(t: &Vec<char>, o: usize) -> (r: usize)
    requires
        o <= t@.len(),
    ensures
        r == line_of(t@, o as int),
        r <= o,
{
    let mut i: usize = 0;
    let mut count: usize = 0;
    while i < o
        invariant
            i <= o <= t@.len(),
            count == newlines(t@.subrange(0, i as int)),
            count <= i,
        decreases o - i,
    {
        assert(t@.subrange(0, i as int + 1).drop_last() =~= t@.subrange(0, i as int));
        if t[i] == '\n' {
            count += 1;
        }
        i += 1;
    }
    count
}

/// A fresh vector holding `t[start..end]`.
pub fn slice_chars(t: &Vec<char>, start: usize, end: usize) -> (r: Vec<char>)
    requires
        start <= end <= t@.len(),
    ensures
        r@ == t@.subrange(start as int, end as int),
{
    let mut r: Vec<char> = Vec::new();
    let mut i: usize = start;
    while i < end
        invariant
            start <= i <= end <= t@.len(),
            r@ == t@.subrange(start as int, i as int),
        decreases end - i,
    {
        r.push(t[i]);
        i += 1;
        assert(r@ =~= t@.subrange(start as int, i as int));
    }
    r
}

/// A fresh copy of `t`.
pub fn copy_chars(t: &Vec<char>) -> (r: Vec<char>)
    ensures
        r@ == t@,
{
    let r = slice_chars(t, 0, t.len());
    assert(r@ =~= t@);
    r
}

/// Appends `s` to `r`.
pub fn push_all(r: &mut Vec<char>, s: &Vec<char>)
    ensures
        final(r)@ == old(r)@ + s@,
{
    let mut i: usize = 0;
    while i < s.len()
        invariant
            i <= s@.len(),
            r@ == old(r)@ + s@.subrange(0, i as int),
        decreases s@.len() - i,
    {
        r.push(s[i]);
        i += 1;
        assert(r@ =~= old(r)@ + s@.subrange(0, i as int));
    }
    assert(s@.subrange(0, s@.len() as int) =~= s@);
}

/// Past a line's end, the next line starts right after it.
pub proof fn lemma_start_after_line_end(t: Seq<char>, i: int)
    requires
        0 <= i <= t.len(),
        line_end(t, i) < t.len(),
    ensures
        start_from(t, i, 1) == line_end(t, i) + 1,
    decreases t.len() - i,
{
    if i < t.len() && t[i] != '\n' {
        lemma_start_after_line_end(t, i + 1);
    } else {
        assert(start_from(t, i + 1, 0) == i + 1);
    }
}

/// A line ends at a line feed, or at the end of the text, and holds no
/// line feed before its end.
pub proof fn lemma_line_end_feed(t: Seq<char>, i: int)
    requires
        0 <= i <= t.len(),
    ensures
        line_end(t, i) < t.len() ==> t[line_end(t, i)] == '\n',
        forall|k: int| i <= k < line_end(t, i) ==> t[k] != '\n',
    decreases t.len() - i,
{
    if i < t.len() && t[i] != '\n' {
        lemma_line_end_feed(t, i + 1);
    }
}

/// No line feed stands before an offset of the first line.
pub proof fn lemma_first_line_has_no_feed(t: Seq<char>, o: int)
    requires
        0 <= o <= t.len(),
        newlines(t.subrange(0, o)) == 0,
    ensures
        forall|j: int| 0 <= j < o ==> t[j] != '\n',
    decreases o,
{
    if o > 0 {
        assert(t.subrange(0, o).drop_last() =~= t.subrange(0, o - 1));
        lemma_first_line_has_no_feed(t, o - 1);
    }
}

/// Offsets with no line feed between them share their line's end.
pub proof fn lemma_same_line_end(t: Seq<char>, j: int, o: int)
    requires
        0 <= j <= o <= t.len(),
        forall|k: int| j <= k < o ==> t[k] != '\n',
    ensures
        line_end(t, j) == line_end(t, o),
    decreases o - j,
{
    if j < o {
        lemma_same_line_end(t, j + 1, o);
    }
}

} // verus!
