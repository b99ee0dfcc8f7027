use vstd::prelude::*;
use crate::delta::{fits, lemma_transform_bounds, old_end, transform, DeltaModel, EditDelta};
use crate::register::{RegisterData, VisualMode};
use crate::buffer::ranges_ok;
use crate::selection::{
    lemma_sel_apply_sorted, lemma_sel_apply_within, rmax, rmin, sel_apply, Selection,
};
use crate::text::{
    lemma_line_end_bounds, lemma_line_start_bounds, line_end, line_end_of, line_start,
    line_start_of, push_all, slice_chars,
};

verus! {

/// The editing mode as seen by key bindings.
#[derive(Clone, Copy, Debug, PartialEq, Eq, Structural)]
pub enum Mode {
    Normal,
    Visual,
    Insert,
}

/// Where the cursor stands, by mode: a caret in normal mode, an anchored
/// region with its submode in visual mode, a selection in insert mode.
#[derive(Clone, Debug)]
pub enum CursorMode {
    Normal(usize),
    Visual { start: usize, end: usize, mode: VisualMode },
    Insert(Selection),
}

/// The cursor, with the column that vertical motions aim for.
#[derive(Clone, Debug)]
pub struct Cursor {
    pub mode: CursorMode,
    pub horiz: Option<usize>,
}

pub open spec fn mode_of(m: CursorMode) -> Mode {
    match m {
        CursorMode::Normal(_) => Mode::Normal,
        CursorMode::Visual { .. } => Mode::Visual,
        CursorMode::Insert(_) => Mode::Insert,
    }
}

/// Every offset of the cursor lies in a text of length `len`; an insert
/// selection has at least one region.
pub open spec fn mode_wf(m: CursorMode, len: nat) -> bool {
    match m {
        CursorMode::Normal(o) => o <= len,
        CursorMode::Visual { start, end, .. } => start <= len && end <= len,
        CursorMode::Insert(sel) => sel.wf() && sel@.len() > 0 && regions_within(sel@, len as int),
    }
}

/// Every end of every region lies in a text of length `len`.
pub open spec fn regions_within(rs: Seq<(int, int)>, len: int) -> bool {
    forall|i: int| 0 <= i < rs.len() ==> 0 <= (#[trigger] rs[i]).0 <= len && 0 <= rs[i].1 <= len
}

/// Where the caret stands.
pub open spec fn offset_of(m: CursorMode) -> int {
    match m {
        CursorMode::Normal(o) => o as int,
        CursorMode::Visual { end, .. } => end as int,
        CursorMode::Insert(sel) => if sel@.len() > 0 {
            sel@.last().1
        } else {
            0
        },
    }
}

/// Start of the line after the one that holds `o`; the end of the text on
/// the last line.
pub open spec fn next_line_start(t: Seq<char>, o: int) -> int {
    let e = line_end(t, o);
    if e < t.len() {
        e + 1
    } else {
        t.len() as int
    }
}

pub fn next_line_start_of(t: &Vec<char>, o: usize) -> (r: usize)
    requires
        o <= t@.len(),
    ensures
        r == next_line_start(t@, o as int),
        o <= r <= t@.len(),
{
    let e = line_end_of(t, o);
    if e < t.len() {
        e + 1
    } else {
        t.len()
    }
}

pub open spec fn min_int(a: int, b: int) -> int {
    if a <= b {
        a
    } else {
        b
    }
}

/// The range of text that an edit in this mode acts on: the character
/// under a normal-mode caret (none at a line's end), the visual region with
/// its last character (whole lines for a linewise one), or the insert
/// selection.
pub open spec fn edit_range(t: Seq<char>, m: CursorMode) -> (int, int) {
    match m {
        CursorMode::Normal(o) => (o as int, min_int(o + 1, line_end(t, o as int))),
        CursorMode::Visual { start, end, mode } => {
            let lo = min_int(start as int, end as int);
            let hi = if start <= end {
                end as int
            } else {
                start as int
            };
            if mode == VisualMode::Linewise {
                (line_start(t, lo), next_line_start(t, hi))
            } else {
                (lo, min_int(hi + 1, t.len() as int))
            }
        },
        CursorMode::Insert(sel) => (rmin(sel@[0]), rmax(sel@[0])),
    }
}


/// From the line that starts at `ls` down to the line that starts at
/// `stop`, each line's part between columns `lo` and `hi` (both included),
/// cut at the line's end.
pub open spec fn block_from(t: Seq<char>, ls: int, stop: int, lo: int, hi: int) -> Seq<(int, int)>
    decreases t.len() - ls,
{
    let le = line_end(t, ls);
    let r = (ls + min_int(lo, le - ls), ls + min_int(hi + 1, le - ls));
    if ls >= stop || le >= t.len() || le < ls {
        seq![r]
    } else {
        seq![r] + block_from(t, le + 1, stop, lo, hi)
    }
}

/// The regions of a blockwise visual selection between `start` and `end`:
/// on each of its lines, the columns between the two ends' columns.
pub open spec fn block_ranges(t: Seq<char>, start: int, end: int) -> Seq<(int, int)> {
    let lo_off = min_int(start, end);
    let hi_off = if start <= end { end } else { start };
    let cs = start - line_start(t, start);
    let ce = end - line_start(t, end);
    block_from(t, line_start(t, lo_off), line_start(t, hi_off), min_int(cs, ce), if cs <= ce { ce } else { cs })
}

/// The ranges that an edit in this mode acts on: one per line of a
/// blockwise visual selection, else the one range of `edit_range`.
pub open spec fn edit_ranges(t: Seq<char>, m: CursorMode) -> Seq<(int, int)> {
    match m {
        CursorMode::Visual { start, end, mode } => if mode == VisualMode::Blockwise {
            block_ranges(t, start as int, end as int)
        } else {
            seq![edit_range(t, m)]
        },
        _ => seq![edit_range(t, m)],
    }
}

/// The text of the ranges `rs`, with a line feed between two ranges.
pub open spec fn joined(t: Seq<char>, rs: Seq<(int, int)>) -> Seq<char>
    decreases rs.len(),
{
    if rs.len() == 0 {
        Seq::empty()
    } else if rs.len() == 1 {
        t.subrange(rs[0].0, rs[0].1)
    } else {
        joined(t, rs.drop_last()) + seq!['\n'] + t.subrange(rs.last().0, rs.last().1)
    }
}

/// The text that a yank in this mode records.
pub open spec fn yank_text(t: Seq<char>, m: CursorMode) -> Seq<char> {
    joined(t, edit_ranges(t, m))
}

/// The submode that a yank in this mode records.
pub open spec fn yank_mode(m: CursorMode) -> VisualMode {
    match m {
        CursorMode::Visual { mode, .. } => mode,
        _ => VisualMode::Normal,
    }
}

/// The cursor mapped through a delta made by another view.
pub open spec fn mode_after_delta(m: CursorMode, d: crate::delta::DeltaModel) -> (int, int, Seq<(int, int)>) {
    match m {
        CursorMode::Normal(o) => (transform(d, o as int, false), 0, Seq::empty()),
        CursorMode::Visual { start, end, .. } => (
            transform(d, start as int, false),
            transform(d, end as int, false),
            Seq::empty(),
        ),
        CursorMode::Insert(sel) => (0, 0, sel_apply(sel@, d, false)),
    }
}

pub proof fn lemma_edit_range_bounds(t: Seq<char>, m: CursorMode)
    requires
        mode_wf(m, t.len()),
    ensures
        0 <= edit_range(t, m).0 <= edit_range(t, m).1 <= t.len(),
{
    match m {
        CursorMode::Normal(o) => {
            lemma_line_end_bounds(t, o as int);
        },
        CursorMode::Visual { start, end, mode } => {
            let lo = min_int(start as int, end as int);
            let hi = if start <= end {
                end as int
            } else {
                start as int
            };
            if mode == VisualMode::Linewise {
                lemma_line_start_bounds(t, lo);
                lemma_line_end_bounds(t, hi);
            }
        },
        CursorMode::Insert(sel) => {},
    }
}

/// `b` is cursor `a` mapped through `d`.
pub open spec fn mapped_through(a: Cursor, b: Cursor, d: crate::delta::DeltaModel) -> bool {
    &&& mode_of(b.mode) == mode_of(a.mode)
    &&& b.horiz == a.horiz
    &&& match (a.mode, b.mode) {
        (CursorMode::Normal(_), CursorMode::Normal(o)) => o == mode_after_delta(a.mode, d).0,
        (CursorMode::Visual { mode, .. }, CursorMode::Visual { start, end, mode: m2 }) => start
            == mode_after_delta(a.mode, d).0 && end == mode_after_delta(a.mode, d).1 && m2 == mode,
        (CursorMode::Insert(_), CursorMode::Insert(sel)) => sel@ == mode_after_delta(a.mode, d).2,
        _ => false,
    }
}

/// `b` is cursor `a` kept within a text of length `len`.
pub open spec fn clamped_to(a: Cursor, b: Cursor, len: int) -> bool {
    &&& mode_of(b.mode) == mode_of(a.mode)
    &&& b.horiz == a.horiz
    &&& match (a.mode, b.mode) {
        (CursorMode::Normal(_), CursorMode::Normal(o)) => o == clamp_mode(a.mode, len).0,
        (CursorMode::Visual { mode, .. }, CursorMode::Visual { start, end, mode: m2 }) => start
            == clamp_mode(a.mode, len).0 && end == clamp_mode(a.mode, len).1 && m2 == mode,
        (CursorMode::Insert(_), CursorMode::Insert(sel)) => sel@ == seq![clamp_mode(a.mode, len)],
        _ => false,
    }
}

/// The offsets of a normal or visual cursor: its caret, or its visual
/// region's ends.
pub open spec fn offsets_of(m: CursorMode) -> Seq<int> {
    match m {
        CursorMode::Normal(o) => seq![o as int],
        CursorMode::Visual { start, end, .. } => seq![start as int, end as int],
        CursorMode::Insert(_) => Seq::empty(),
    }
}

/// A selection mapped through the deltas `ds`, one after the other,
/// before text inserted at a caret, or after it when `after`.
pub open spec fn sel_chain(rs: Seq<(int, int)>, ds: Seq<DeltaModel>, after: bool) -> Seq<(int, int)>
    decreases ds.len(),
{
    if ds.len() == 0 {
        rs
    } else {
        sel_apply(sel_chain(rs, ds.drop_last(), after), ds.last(), after)
    }
}

/// The ranges that the regions of a selection cover.
pub open spec fn covered(rs: Seq<(int, int)>) -> Seq<(int, int)> {
    rs.map_values(|r: (int, int)| (rmin(r), rmax(r)))
}

/// Where offset `o` lands after the deltas `ds`, one after the other,
/// before text inserted at it, or after it when `after`.
pub open spec fn transform_chain(ds: Seq<DeltaModel>, o: int, after: bool) -> int
    decreases ds.len(),
{
    if ds.len() == 0 {
        o
    } else {
        transform(ds.last(), transform_chain(ds.drop_last(), o, after), after)
    }
}

pub open spec fn same_submode(a: CursorMode, b: CursorMode) -> bool {
    match (a, b) {
        (CursorMode::Visual { mode, .. }, CursorMode::Visual { mode: m2, .. }) => m2 == mode,
        _ => true,
    }
}

/// Cursor `b` is cursor `a` carried through the deltas `ds`.
pub open spec fn follows(a: Cursor, b: Cursor, ds: Seq<DeltaModel>) -> bool {
    &&& mode_of(b.mode) == mode_of(a.mode)
    &&& b.horiz == a.horiz
    &&& same_submode(a.mode, b.mode)
    &&& offsets_of(b.mode) == offsets_of(a.mode).map_values(|o: int| transform_chain(ds, o, false))
    &&& match (a.mode, b.mode) {
        (CursorMode::Insert(s1), CursorMode::Insert(s2)) => s2@ == sel_chain(s1@, ds, false),
        _ => true,
    }
}

pub proof fn lemma_follows_start(a: Cursor)
    ensures
        follows(a, a, Seq::empty()),
{
    assert(offsets_of(a.mode) =~= offsets_of(a.mode).map_values(
        |o: int| transform_chain(Seq::<DeltaModel>::empty(), o, false),
    ));
}

/// A cursor carried through `ds` and then mapped through `d` is carried
/// through `ds` followed by `d`.
pub proof fn lemma_follows_step(a: Cursor, b: Cursor, c: Cursor, ds: Seq<DeltaModel>, d: DeltaModel, len: nat)
    requires
        follows(a, b, ds),
        mapped_through(b, c, d),
        mode_wf(b.mode, len),
    ensures
        follows(a, c, ds.push(d)),
{
    let e = ds.push(d);
    assert(e.drop_last() =~= ds);
    assert(e.last() == d);
    match b.mode {
        _ => {},
    }
    let oa = offsets_of(a.mode);
    let ob = offsets_of(b.mode);
    let oc = offsets_of(c.mode);
    assert(oc.len() == oa.len());
    assert forall|i: int| 0 <= i < oa.len() implies oc[i] == transform_chain(e, oa[i], false) by {
        assert(ob[i] == transform_chain(ds, oa[i], false));
        assert(oc[i] == transform(d, ob[i], false));
    }
    assert(oc =~= oa.map_values(|o: int| transform_chain(e, o, false)));
}

/// The cursor with every offset kept within a text of length `len`.
pub open spec fn clamp_mode(m: CursorMode, len: int) -> (int, int) {
    match m {
        CursorMode::Normal(o) => (min_int(o as int, len), 0),
        CursorMode::Visual { start, end, .. } => (min_int(start as int, len), min_int(end as int, len)),
        CursorMode::Insert(sel) => (min_int(sel@[0].0, len), min_int(sel@[0].1, len)),
    }
}

pub proof fn lemma_mode_wf_mono(m: CursorMode, a: nat, b: nat)
    requires
        mode_wf(m, a),
        a <= b,
    ensures
        mode_wf(m, b),
{
}

impl Cursor {
    /// Keeps every offset of the cursor within a text of length `len`.
    pub fn clamp(&mut self, len: usize)
        requires
            mode_wf(old(self).mode, usize::MAX as nat),
        ensures
            mode_wf(final(self).mode, len as nat),
            clamped_to(*old(self), *final(self), len as int),
    {
        match &self.mode {
            CursorMode::Normal(o) => {
                let o2 = if *o <= len { *o } else { len };
                self.mode = CursorMode::Normal(o2);
            },
            CursorMode::Visual { start, end, mode } => {
                let s2 = if *start <= len { *start } else { len };
                let e2 = if *end <= len { *end } else { len };
                let m = *mode;
                self.mode = CursorMode::Visual { start: s2, end: e2, mode: m };
            },
            CursorMode::Insert(sel) => {
                let r = sel.get(0);
                let s2 = if r.start <= len { r.start } else { len };
                let e2 = if r.end <= len { r.end } else { len };
                self.mode = CursorMode::Insert(Selection::region(s2, e2));
            },
        }
    }

    pub fn new(mode: CursorMode, horiz: Option<usize>) -> (c: Cursor)
        ensures
            c.mode == mode,
            c.horiz == horiz,
    {
        Cursor { mode, horiz }
    }

    pub fn get_mode(&self) -> (r: Mode)
        ensures
            r == mode_of(self.mode),
    {
        match self.mode {
            CursorMode::Normal(_) => Mode::Normal,
            CursorMode::Visual { .. } => Mode::Visual,
            CursorMode::Insert(_) => Mode::Insert,
        }
    }

    pub fn is_visual(&self) -> (r: bool)
        ensures
            r == (mode_of(self.mode) == Mode::Visual),
    {
        match self.mode {
            CursorMode::Visual { .. } => true,
            _ => false,
        }
    }

    /// Where the caret stands.
    pub fn offset(&self) -> (r: usize)
        ensures
            r == offset_of(self.mode),
    {
        match &self.mode {
            CursorMode::Normal(o) => *o,
            CursorMode::Visual { end, .. } => *end,
            CursorMode::Insert(sel) => sel.get_cursor_offset(),
        }
    }

    /// The range of text that an edit in the current mode acts on.
    pub fn edit_range(&self, t: &Vec<char>) -> (r: (usize, usize))
        requires
            mode_wf(self.mode, t@.len()),
        ensures
            (r.0 as int, r.1 as int) == edit_range(t@, self.mode),
            r.0 <= r.1 <= t@.len(),
    {
        proof {
            lemma_edit_range_bounds(t@, self.mode);
        }
        match &self.mode {
            CursorMode::Normal(o) => {
                let o = *o;
                let e = line_end_of(t, o);
                (o, if o < e { o + 1 } else { e })
            },
            CursorMode::Visual { start, end, mode } => {
                let lo = if *start <= *end { *start } else { *end };
                let hi = if *start <= *end { *end } else { *start };
                if *mode == VisualMode::Linewise {
                    let ls = line_start_of(t, lo);
                    (ls, next_line_start_of(t, hi))
                } else {
                    (lo, if hi < t.len() { hi + 1 } else { t.len() })
                }
            },
            CursorMode::Insert(sel) => {
                let r = sel.get(0);
                (r.min(), r.max())
            },
        }
    }

    /// The text that the current mode acts on, with the submode to record.
    pub fn yank(&self, t: &Vec<char>) -> (r: RegisterData)
        requires
            mode_wf(self.mode, t@.len()),
        ensures
            r.content@ == yank_text(t@, self.mode),
            r.mode == yank_mode(self.mode),
    {
        let rs = self.edit_ranges(t);
        let mode = match &self.mode {
            CursorMode::Visual { mode, .. } => *mode,
            _ => VisualMode::Normal,
        };
        RegisterData::new(joined_of(t, &rs), mode)
    }

    /// The ranges that an edit in the current mode acts on.
    pub fn edit_ranges(&self, t: &Vec<char>) -> (r: Vec<(usize, usize)>)
        requires
            mode_wf(self.mode, t@.len()),
        ensures
            ranges_view(r@) == edit_ranges(t@, self.mode),
            ranges_ok(ranges_view(r@), t@.len() as int),
            r@.len() > 0,
    {
        match &self.mode {
            CursorMode::Visual { start, end, mode } => {
                if *mode == VisualMode::Blockwise {
                    return block_ranges_of(t, *start, *end);
                }
            },
            _ => {},
        }
        let (s, e) = self.edit_range(t);
        let mut v: Vec<(usize, usize)> = Vec::new();
        v.push((s, e));
        assert(ranges_view(v@) =~= seq![edit_range(t@, self.mode)]);
        v
    }

    /// Follows an edit made through another view: every offset is mapped
    /// through the delta, staying before text inserted at it.
    pub fn apply_delta(&mut self, d: &EditDelta, old_len: usize, new_len: usize)
        requires
            mode_wf(old(self).mode, old_len as nat),
            old_end(d@) <= old_len,
            new_len == old_len - d@.deleted.len() + d@.inserted.len(),
        ensures
            mode_wf(final(self).mode, new_len as nat),
            mapped_through(*old(self), *final(self), d@),
    {
        match &self.mode {
            CursorMode::Normal(o) => {
                proof { lemma_transform_bounds(old_len as int, new_len as int, d@, *o as int, false); }
                let o2 = d.transform_offset(*o, false);
                self.mode = CursorMode::Normal(o2);
            },
            CursorMode::Visual { start, end, mode } => {
                proof {
                    lemma_transform_bounds(old_len as int, new_len as int, d@, *start as int, false);
                    lemma_transform_bounds(old_len as int, new_len as int, d@, *end as int, false);
                }
                let s2 = d.transform_offset(*start, false);
                let e2 = d.transform_offset(*end, false);
                let m = *mode;
                self.mode = CursorMode::Visual { start: s2, end: e2, mode: m };
            },
            CursorMode::Insert(sel) => {
                proof {
                    assert forall|i: int| 0 <= i < sel@.len() implies fits(d@, (#[trigger] sel@[i]).0)
                        && fits(d@, sel@[i].1) by {
                        lemma_transform_bounds(old_len as int, new_len as int, d@, sel@[i].0, false);
                        lemma_transform_bounds(old_len as int, new_len as int, d@, sel@[i].1, false);
                    }
                }
                let sel2 = sel.apply_delta(d, false);
                proof {
                    lemma_sel_apply_within(sel@, d@, old_len as int, new_len as int, false);
                    lemma_sel_apply_sorted(sel@, d@, false);
                }
                self.mode = CursorMode::Insert(sel2);
            },
        }
    }
}

pub open spec fn ranges_view(v: Seq<(usize, usize)>) -> Seq<(int, int)> {
    v.map_values(|p: (usize, usize)| (p.0 as int, p.1 as int))
}

/// The text of the ranges `rs`, with a line feed between two ranges.
pub fn joined_of(t: &Vec<char>, rs: &Vec<(usize, usize)>) -> (r: Vec<char>)
    requires
        ranges_ok(ranges_view(rs@), t@.len() as int),
    ensures
        r@ == joined(t@, ranges_view(rs@)),
{
    let ghost rv = ranges_view(rs@);
    let mut out: Vec<char> = Vec::new();
    let mut i: usize = 0;
    while i < rs.len()
        invariant
            i <= rs@.len() == rv.len(),
            rv == ranges_view(rs@),
            ranges_ok(rv, t@.len() as int),
            out@ == joined(t@, rv.subrange(0, i as int)),
        decreases rs@.len() - i,
    {
        let (a, b) = rs[i];
        assert(rv[i as int] == (a as int, b as int));
        let ghost sub = rv.subrange(0, i as int + 1);
        assert(sub.drop_last() =~= rv.subrange(0, i as int));
        assert(sub.last() == rv[i as int]);
        if i > 0 {
            out.push('\n');
        }
        let piece = slice_chars(t, a, b);
        push_all(&mut out, &piece);
        proof {
            if i == 0 {
                assert(sub[0] == rv[0]);
                assert(out@ =~= t@.subrange(a as int, b as int));
            }
        }
        i += 1;
        assert(out@ =~= joined(t@, rv.subrange(0, i as int)));
    }
    assert(rv.subrange(0, rs@.len() as int) =~= rv);
    out
}

/// The regions of a blockwise visual selection between `start` and `end`.
pub fn block_ranges_of(t: &Vec<char>, start: usize, end: usize) -> (r: Vec<(usize, usize)>)
    requires
        start <= t@.len(),
        end <= t@.len(),
    ensures
        ranges_view(r@) == block_ranges(t@, start as int, end as int),
        ranges_ok(ranges_view(r@), t@.len() as int),
        r@.len() > 0,
{
    let n = t.len();
    let lo_off = if start <= end { start } else { end };
    let hi_off = if start <= end { end } else { start };
    let cs = start - line_start_of(t, start);
    let ce = end - line_start_of(t, end);
    let lo = if cs <= ce { cs } else { ce };
    let hi = if cs <= ce { ce } else { cs };
    let mut ls = line_start_of(t, lo_off);
    let stop = line_start_of(t, hi_off);
    let ghost ls0 = ls as int;
    let mut out: Vec<(usize, usize)> = Vec::new();
    let mut done = false;
    while !done
        invariant
            n == t@.len(),
            ls <= n,
            lo <= hi,
            !done ==> ranges_view(out@) + block_from(t@, ls as int, stop as int, lo as int, hi as int)
                == block_from(t@, ls0, stop as int, lo as int, hi as int),
            done ==> ranges_view(out@) == block_from(t@, ls0, stop as int, lo as int, hi as int),
            ranges_ok(ranges_view(out@), n as int),
            !done ==> forall|k: int| 0 <= k < out@.len() ==> (#[trigger] out@[k]).1 < ls,
            done ==> out@.len() > 0,
        decreases n - ls + if done { 0int } else { 1int },
    {
        let le = line_end_of(t, ls);
        let w = le - ls;
        let a = ls + if lo <= w { lo } else { w };
        let b = ls + if hi < w { hi + 1 } else { w };
        let ghost prev = ranges_view(out@);
        let ghost rest = block_from(t@, ls as int, stop as int, lo as int, hi as int);
        out.push((a, b));
        assert(ranges_view(out@) =~= prev.push((a as int, b as int)));
        proof {
            let rv = ranges_view(out@);
            assert(0 <= a <= b <= n);
            assert forall|x: int| 0 <= x < rv.len() implies 0 <= (#[trigger] rv[x]).0 <= rv[x].1 <= n by {
                if x < rv.len() - 1 {
                    assert(rv[x] == prev[x]);
                }
            }
            assert forall|x: int, y: int| 0 <= x < y < rv.len() implies (#[trigger] rv[x]).1 < (#[trigger] rv[y]).0 by {
                if y == rv.len() - 1 {
                    assert(out@[x].1 < ls);
                } else {
                    assert(rv[x] == prev[x] && rv[y] == prev[y]);
                }
            }
        }
        if ls >= stop || le >= n {
            assert(rest == seq![(a as int, b as int)]);
            assert(ranges_view(out@) =~= prev + rest);
            done = true;
        } else {
            let ghost next = block_from(t@, le as int + 1, stop as int, lo as int, hi as int);
            assert(rest == seq![(a as int, b as int)] + next);
            assert(prev + rest =~= ranges_view(out@) + next);
            ls = le + 1;
        }
    }
    out
}

/// The ranges that the regions of `sel` cover.
pub fn covered_ranges(sel: &Selection, len: usize) -> (r: Vec<(usize, usize)>)
    requires
        sel.wf(),
        regions_within(sel@, len as int),
    ensures
        ranges_view(r@) == covered(sel@),
        ranges_ok(ranges_view(r@), len as int),
        r@.len() == sel@.len(),
{
    let mut out: Vec<(usize, usize)> = Vec::new();
    let mut i: usize = 0;
    while i < sel.len()
        invariant
            i <= sel@.len(),
            sel.wf(),
            regions_within(sel@, len as int),
            ranges_view(out@) == covered(sel@).subrange(0, i as int),
        decreases sel@.len() - i,
    {
        let g = sel.get(i);
        let ghost prev = ranges_view(out@);
        out.push((g.min(), g.max()));
        assert(covered(sel@)[i as int] == (rmin(sel@[i as int]), rmax(sel@[i as int])));
        assert(ranges_view(out@) =~= prev.push(covered(sel@)[i as int]));
        i += 1;
        assert(ranges_view(out@) =~= covered(sel@).subrange(0, i as int));
    }
    assert(covered(sel@).subrange(0, sel@.len() as int) =~= covered(sel@));
    let ghost cv = covered(sel@);
    assert forall|x: int, y: int| 0 <= x < y < cv.len() implies (#[trigger] cv[x]).1 < (#[trigger] cv[y]).0 by {
        assert(rmax(sel@[x]) < rmin(sel@[y]));
    }
    assert forall|x: int| 0 <= x < cv.len() implies 0 <= (#[trigger] cv[x]).0 <= cv[x].1 <= len by {
        assert(0 <= sel@[x].0 <= len && 0 <= sel@[x].1 <= len);
    }
    out
}

/// Each cursor mapped through `d`.
pub fn map_cursors(cs: Vec<Cursor>, d: &EditDelta, old_len: usize, new_len: usize) -> (r: Vec<Cursor>)
    requires
        forall|i: int| 0 <= i < cs@.len() ==> mode_wf((#[trigger] cs@[i]).mode, old_len as nat),
        old_end(d@) <= old_len,
        new_len == old_len - d@.deleted.len() + d@.inserted.len(),
    ensures
        r@.len() == cs@.len(),
        forall|i: int| 0 <= i < r@.len() ==> mode_wf((#[trigger] r@[i]).mode, new_len as nat),
        forall|i: int| 0 <= i < r@.len() ==> mapped_through(cs@[i], #[trigger] r@[i], d@),
{
    let ghost cs0 = cs@;
    let n = cs.len();
    let mut rest = cs;
    let mut out: Vec<Cursor> = Vec::new();
    let mut i: usize = 0;
    while rest.len() > 0
        invariant
            i <= n,
            cs0.len() == n,
            rest@ == cs0.subrange(i as int, n as int),
            out@.len() == i,
            old_end(d@) <= old_len,
            new_len == old_len - d@.deleted.len() + d@.inserted.len(),
            forall|k: int| 0 <= k < cs0.len() ==> mode_wf((#[trigger] cs0[k]).mode, old_len as nat),
            forall|k: int| 0 <= k < out@.len() ==> mode_wf((#[trigger] out@[k]).mode, new_len as nat),
            forall|k: int| 0 <= k < out@.len() ==> mapped_through(cs0[k], #[trigger] out@[k], d@),
        decreases rest@.len(),
    {
        let mut c = rest.remove(0);
        assert(c == cs0[i as int]);
        c.apply_delta(d, old_len, new_len);
        out.push(c);
        i += 1;
        assert(rest@ =~= cs0.subrange(i as int, n as int));
    }
    out
}

/// Each cursor kept within a text of length `len`.
pub fn clamp_cursors(cs: Vec<Cursor>, len: usize) -> (r: Vec<Cursor>)
    requires
        forall|i: int| 0 <= i < cs@.len() ==> mode_wf((#[trigger] cs@[i]).mode, usize::MAX as nat),
    ensures
        r@.len() == cs@.len(),
        forall|i: int| 0 <= i < r@.len() ==> mode_wf((#[trigger] r@[i]).mode, len as nat),
        forall|i: int| 0 <= i < r@.len() ==> clamped_to(cs@[i], #[trigger] r@[i], len as int),
{
    let ghost cs0 = cs@;
    let n = cs.len();
    let mut rest = cs;
    let mut out: Vec<Cursor> = Vec::new();
    let mut i: usize = 0;
    while rest.len() > 0
        invariant
            i <= n,
            cs0.len() == n,
            rest@ == cs0.subrange(i as int, n as int),
            out@.len() == i,
            forall|k: int| 0 <= k < cs0.len() ==> mode_wf((#[trigger] cs0[k]).mode, usize::MAX as nat),
            forall|k: int| 0 <= k < out@.len() ==> mode_wf((#[trigger] out@[k]).mode, len as nat),
            forall|k: int| 0 <= k < out@.len() ==> clamped_to(cs0[k], #[trigger] out@[k], len as int),
        decreases rest@.len(),
    {
        let mut c = rest.remove(0);
        assert(c == cs0[i as int]);
        c.clamp(len);
        out.push(c);
        i += 1;
        assert(rest@ =~= cs0.subrange(i as int, n as int));
    }
    out
}

} // verus!
