use vstd::prelude::*;
use crate::delta::{fits, inverse_model, lemma_transform_monotone, round_trips, transform, DeltaModel, EditDelta};

verus! {

/// A region of text from `start` to `end`; the caret stands at `end`, so a
/// region with `end < start` has its caret at its lower end.
#[derive(Clone, Copy, Debug, PartialEq, Eq, Structural)]
pub struct SelRegion {
    pub start: usize,
    pub end: usize,
}

pub open spec fn rmin(r: (int, int)) -> int {
    if r.0 <= r.1 {
        r.0
    } else {
        r.1
    }
}

pub open spec fn rmax(r: (int, int)) -> int {
    if r.0 <= r.1 {
        r.1
    } else {
        r.0
    }
}

/// Regions in ascending order, each wholly before the next.
pub open spec fn sorted(rs: Seq<(int, int)>) -> bool {
    forall|i: int, j: int| 0 <= i < j < rs.len() ==> rmax(#[trigger] rs[i]) < rmin(#[trigger] rs[j])
}

pub open spec fn map_region(r: (int, int), d: DeltaModel, after: bool) -> (int, int) {
    (transform(d, r.0, after), transform(d, r.1, after))
}

/// The smallest region that covers both.
pub open spec fn merge(a: (int, int), b: (int, int)) -> (int, int) {
    (if rmin(a) <= rmin(b) {
        rmin(a)
    } else {
        rmin(b)
    }, if rmax(a) >= rmax(b) {
        rmax(a)
    } else {
        rmax(b)
    })
}

/// Each region mapped through `d`, in order; a region that comes to touch
/// the one before it is merged with it.
pub open spec fn sel_apply(rs: Seq<(int, int)>, d: DeltaModel, after: bool) -> Seq<(int, int)>
    decreases rs.len(),
{
    if rs.len() == 0 {
        Seq::empty()
    } else {
        let acc = sel_apply(rs.drop_last(), d, after);
        let r = map_region(rs.last(), d, after);
        if acc.len() > 0 && rmax(acc.last()) >= rmin(r) {
            acc.drop_last().push(merge(acc.last(), r))
        } else {
            acc.push(r)
        }
    }
}

pub open spec fn region_view(r: SelRegion) -> (int, int) {
    (r.start as int, r.end as int)
}

/// A set of disjoint regions, kept in ascending order.
#[derive(Clone, Debug)]
pub struct Selection {
    regions: Vec<SelRegion>,
}

impl View for Selection {
    type V = Seq<(int, int)>;

    closed spec fn view(&self) -> Seq<(int, int)> {
        self.regions@.map_values(|r: SelRegion| region_view(r))
    }
}

proof fn lemma_map_bounds(d: DeltaModel, r: (int, int), after: bool)
    requires
        0 <= d.start,
    ensures
        rmin(map_region(r, d, after)) == transform(d, rmin(r), after),
        rmax(map_region(r, d, after)) == transform(d, rmax(r), after),
{
    if r.0 <= r.1 {
        lemma_transform_monotone(d, r.0, r.1, after);
    } else {
        lemma_transform_monotone(d, r.1, r.0, after);
    }
}

/// Mapping a sorted selection keeps it sorted, and its last region ends
/// where the last input region's upper end is mapped.
pub proof fn lemma_sel_apply_sorted(rs: Seq<(int, int)>, d: DeltaModel, after: bool)
    requires
        0 <= d.start,
        sorted(rs),
    ensures
        sorted(sel_apply(rs, d, after)),
        rs.len() > 0 ==> sel_apply(rs, d, after).len() > 0 && rmax(sel_apply(rs, d, after).last())
            == transform(d, rmax(rs.last()), after),
        rs.len() == 0 ==> sel_apply(rs, d, after).len() == 0,
    decreases rs.len(),
{
    if rs.len() > 0 {
        let pre = rs.drop_last();
        assert(sorted(pre));
        lemma_sel_apply_sorted(pre, d, after);
        let acc = sel_apply(pre, d, after);
        let r = map_region(rs.last(), d, after);
        lemma_map_bounds(d, rs.last(), after);
        if pre.len() > 0 {
            assert(rmax(pre.last()) < rmin(rs.last())) by {
                assert(rs[pre.len() - 1] == pre.last());
            }
            lemma_transform_monotone(d, rmax(pre.last()), rmin(rs.last()), after);
            assert(rmax(acc.last()) <= rmin(r));
        }
        let out = sel_apply(rs, d, after);
        if acc.len() > 0 && rmax(acc.last()) >= rmin(r) {
            let m = merge(acc.last(), r);
            assert forall|i: int, j: int| 0 <= i < j < out.len() implies rmax(#[trigger] out[i])
                < rmin(#[trigger] out[j]) by {
                if j == out.len() - 1 {
                    assert(out[i] == acc[i]);
                    assert(rmax(acc[i]) < rmin(acc[acc.len() - 1]));
                } else {
                    assert(out[i] == acc[i] && out[j] == acc[j]);
                }
            }
        } else {
            assert forall|i: int, j: int| 0 <= i < j < out.len() implies rmax(#[trigger] out[i])
                < rmin(#[trigger] out[j]) by {
                if j == out.len() - 1 {
                    assert(out[i] == acc[i]);
                    if i < acc.len() - 1 {
                        assert(rmax(acc[i]) < rmin(acc[acc.len() - 1]));
                    }
                } else {
                    assert(out[i] == acc[i] && out[j] == acc[j]);
                }
            }
        }
    }
}

/// Mapping a selection within a text through a delta keeps it within the
/// text the delta makes; `old_len` and `new_len` are the two lengths.
pub proof fn lemma_sel_apply_within(rs: Seq<(int, int)>, d: DeltaModel, old_len: int, new_len: int, after: bool)
    requires
        0 <= d.start,
        crate::delta::old_end(d) <= old_len <= usize::MAX,
        new_len == old_len - d.deleted.len() + d.inserted.len() <= usize::MAX,
        forall|i: int| 0 <= i < rs.len() ==> 0 <= (#[trigger] rs[i]).0 <= old_len && 0 <= rs[i].1 <= old_len,
    ensures
        forall|i: int|
            0 <= i < sel_apply(rs, d, after).len() ==> 0 <= (#[trigger] sel_apply(rs, d, after)[i]).0
                <= new_len && 0 <= sel_apply(rs, d, after)[i].1 <= new_len,
    decreases rs.len(),
{
    if rs.len() > 0 {
        let pre = rs.drop_last();
        assert forall|i: int| 0 <= i < pre.len() implies 0 <= (#[trigger] pre[i]).0 <= old_len && 0 <= pre[i].1
            <= old_len by {
            assert(pre[i] == rs[i]);
        }
        lemma_sel_apply_within(pre, d, old_len, new_len, after);
        crate::delta::lemma_transform_bounds(old_len, new_len, d, rs.last().0, after);
        crate::delta::lemma_transform_bounds(old_len, new_len, d, rs.last().1, after);
        let acc = sel_apply(pre, d, after);
        let out = sel_apply(rs, d, after);
        assert forall|i: int| 0 <= i < out.len() implies 0 <= (#[trigger] out[i]).0 <= new_len && 0 <= out[i].1
            <= new_len by {
            if i < acc.len() - 1 || (i == acc.len() - 1 && out.len() > acc.len()) {
                assert(out[i] == acc[i]);
            }
        }
    }
}

/// When the mapped regions are already in order, nothing is merged.
proof fn lemma_no_merge(rs: Seq<(int, int)>, d: DeltaModel, after: bool)
    requires
        sorted(rs.map_values(|r: (int, int)| map_region(r, d, after))),
    ensures
        sel_apply(rs, d, after) == rs.map_values(|r: (int, int)| map_region(r, d, after)),
    decreases rs.len(),
{
    let mapped = rs.map_values(|r: (int, int)| map_region(r, d, after));
    if rs.len() == 0 {
        assert(mapped =~= Seq::<(int, int)>::empty());
    } else {
        let pre = rs.drop_last();
        let mpre = pre.map_values(|r: (int, int)| map_region(r, d, after));
        assert(mpre =~= mapped.drop_last());
        assert(sorted(mpre));
        lemma_no_merge(pre, d, after);
        assert(mapped[mapped.len() - 1] == map_region(rs.last(), d, after));
        if pre.len() > 0 {
            assert(mpre.last() == mapped[mapped.len() - 2]);
            assert(rmax(mapped[mapped.len() - 2]) < rmin(mapped[mapped.len() - 1]));
        }
        assert(mapped =~= mpre.push(map_region(rs.last(), d, after)));
    }
}

/// Every end of every region comes back to where it was when mapped
/// through `d` and then through its inverse.
pub open spec fn all_round_trip(rs: Seq<(int, int)>, d: DeltaModel, after: bool) -> bool {
    forall|i: int|
        0 <= i < rs.len() ==> round_trips(d, (#[trigger] rs[i]).0, after) && round_trips(
            d,
            rs[i].1,
            after,
        )
}

/// Delta invertibility for selections: mapping a selection through a delta
/// and then through the delta's inverse gives the selection back, provided
/// each region end taken alone comes back (an end inside a deleted range
/// cannot).
pub proof fn lemma_selection_round_trip(rs: Seq<(int, int)>, d: DeltaModel, after: bool)
    requires
        0 <= d.start,
        sorted(rs),
        all_round_trip(rs, d, after),
    ensures
        sel_apply(sel_apply(rs, d, after), inverse_model(d), after) == rs,
{
    let inv = inverse_model(d);
    let m1 = rs.map_values(|r: (int, int)| map_region(r, d, after));
    assert forall|i: int, j: int| 0 <= i < j < m1.len() implies rmax(#[trigger] m1[i]) < rmin(
        #[trigger] m1[j],
    ) by {
        lemma_map_bounds(d, rs[i], after);
        lemma_map_bounds(d, rs[j], after);
        let a = rmax(rs[i]);
        let b = rmin(rs[j]);
        assert(a < b);
        lemma_transform_monotone(d, a, b, after);
        assert(round_trips(d, a, after));
        assert(round_trips(d, b, after));
    }
    lemma_no_merge(rs, d, after);
    let m2 = m1.map_values(|r: (int, int)| map_region(r, inv, after));
    assert forall|i: int| 0 <= i < rs.len() implies m2[i] == rs[i] by {
        assert(round_trips(d, rs[i].0, after));
        assert(round_trips(d, rs[i].1, after));
    }
    assert(m2 =~= rs);
    lemma_no_merge(m1, inv, after);
}

impl SelRegion {
    pub fn caret(o: usize) -> (r: SelRegion)
        ensures
            r.start == o && r.end == o,
    {
        SelRegion { start: o, end: o }
    }

    pub fn min(&self) -> (r: usize)
        ensures
            r == rmin(region_view(*self)),
    {
        if self.start <= self.end {
            self.start
        } else {
            self.end
        }
    }

    pub fn max(&self) -> (r: usize)
        ensures
            r == rmax(region_view(*self)),
    {
        if self.start <= self.end {
            self.end
        } else {
            self.start
        }
    }

    pub fn is_caret(&self) -> (r: bool)
        ensures
            r == (self.start == self.end),
    {
        self.start == self.end
    }
}

impl Selection {
    pub open spec fn wf(&self) -> bool {
        sorted(self@)
    }

    /// The empty selection.
    pub fn new() -> (s: Selection)
        ensures
            s.wf(),
            s@ == Seq::<(int, int)>::empty(),
    {
        let s = Selection { regions: Vec::new() };
        assert(s@ =~= Seq::<(int, int)>::empty());
        s
    }

    /// A single caret at `o`.
    pub fn caret(o: usize) -> (s: Selection)
        ensures
            s.wf(),
            s@ == seq![(o as int, o as int)],
    {
        Selection::region(o, o)
    }

    /// A single region from `start` to `end`.
    pub fn region(start: usize, end: usize) -> (s: Selection)
        ensures
            s.wf(),
            s@ == seq![(start as int, end as int)],
    {
        let mut v: Vec<SelRegion> = Vec::new();
        v.push(SelRegion { start, end });
        let s = Selection { regions: v };
        assert(s@ =~= seq![(start as int, end as int)]);
        s
    }

    /// A copy of this selection.
    pub fn clone_selection(&self) -> (r: Selection)
        ensures
            r@ == self@,
    {
        let mut v: Vec<SelRegion> = Vec::new();
        let mut i: usize = 0;
        while i < self.regions.len()
            invariant
                i <= self.regions@.len(),
                v@ == self.regions@.subrange(0, i as int),
            decreases self.regions@.len() - i,
        {
            v.push(self.regions[i]);
            i += 1;
            assert(v@ =~= self.regions@.subrange(0, i as int));
        }
        assert(v@ =~= self.regions@);
        Selection { regions: v }
    }

    pub fn len(&self) -> (n: usize)
        ensures
            n == self@.len(),
    {
        self.regions.len()
    }

    /// The region at index `i`.
    pub fn get(&self, i: usize) -> (r: SelRegion)
        requires
            i < self@.len(),
        ensures
            region_view(r) == self@[i as int],
    {
        self.regions[i]
    }

    /// Adds a region that lies wholly after every region of the selection.
    pub fn push_region(&mut self, r: SelRegion)
        requires
            old(self).wf(),
            old(self)@.len() > 0 ==> rmax(old(self)@.last()) < rmin(region_view(r)),
        ensures
            final(self).wf(),
            final(self)@ == old(self)@.push(region_view(r)),
    {
        self.regions.push(r);
        assert(self@ =~= old(self)@.push(region_view(r)));
        assert forall|i: int, j: int| 0 <= i < j < self@.len() implies rmax(#[trigger] self@[i])
            < rmin(#[trigger] self@[j]) by {
            if j == self@.len() - 1 && i < j - 1 {
                assert(rmax(old(self)@[i]) < rmin(old(self)@.last()));
            }
        }
    }

    /// Lowest offset of the selection (0 when it is empty).
    pub fn min_offset(&self) -> (r: usize)
        requires
            self.wf(),
        ensures
            self@.len() == 0 ==> r == 0,
            self@.len() > 0 ==> r == rmin(self@[0]),
    {
        if self.regions.len() == 0 {
            0
        } else {
            self.regions[0].min()
        }
    }

    /// Where the caret of the last region stands (0 when it is empty).
    pub fn get_cursor_offset(&self) -> (r: usize)
        ensures
            self@.len() == 0 ==> r == 0,
            self@.len() > 0 ==> r == self@.last().1,
    {
        let n = self.regions.len();
        if n == 0 {
            0
        } else {
            self.regions[n - 1].end
        }
    }

    /// Every region is a caret.
    pub fn is_caret(&self) -> (r: bool)
        ensures
            r == (forall|i: int| 0 <= i < self@.len() ==> (#[trigger] self@[i]).0 == self@[i].1),
    {
        let mut i: usize = 0;
        while i < self.regions.len()
            invariant
                i <= self@.len(),
                forall|k: int| 0 <= k < i ==> (#[trigger] self@[k]).0 == self@[k].1,
            decreases self@.len() - i,
        {
            if !self.regions[i].is_caret() {
                assert(self@[i as int].0 != self@[i as int].1);
                return false;
            }
            i += 1;
        }
        true
    }

    /// The selection mapped through `d`: each region end moves as
    /// `transform` says, and regions that come to touch are merged.
    pub fn apply_delta(&self, d: &EditDelta, after: bool) -> (r: Selection)
        requires
            self.wf(),
            forall|i: int|
                0 <= i < self@.len() ==> fits(d@, (#[trigger] self@[i]).0) && fits(d@, self@[i].1),
        ensures
            r.wf(),
            r@ == sel_apply(self@, d@, after),
    {
        let mut out: Vec<SelRegion> = Vec::new();
        let mut i: usize = 0;
        while i < self.regions.len()
            invariant
                i <= self@.len(),
                self.wf(),
                forall|k: int|
                    0 <= k < self@.len() ==> fits(d@, (#[trigger] self@[k]).0) && fits(d@, self@[k].1),
                out@.map_values(|r: SelRegion| region_view(r)) == sel_apply(
                    self@.subrange(0, i as int),
                    d@,
                    after,
                ),
            decreases self@.len() - i,
        {
            let reg = self.regions[i];
            assert(region_view(reg) == self@[i as int]);
            let a = d.transform_offset(reg.start, after);
            let b = d.transform_offset(reg.end, after);
            let m = SelRegion { start: a, end: b };
            let ghost pre = self@.subrange(0, i as int);
            let ghost cur = self@.subrange(0, i as int + 1);
            assert(cur.drop_last() =~= pre);
            assert(cur.last() == self@[i as int]);
            let n = out.len();
            if n > 0 && out[n - 1].max() >= m.min() {
                let last = out[n - 1];
                let lo = if last.min() <= m.min() {
                    last.min()
                } else {
                    m.min()
                };
                let hi = if last.max() >= m.max() {
                    last.max()
                } else {
                    m.max()
                };
                out.set(n - 1, SelRegion { start: lo, end: hi });
            } else {
                out.push(m);
            }
            i += 1;
            assert(out@.map_values(|r: SelRegion| region_view(r)) =~= sel_apply(
                self@.subrange(0, i as int),
                d@,
                after,
            ));
        }
        assert(self@.subrange(0, self@.len() as int) =~= self@);
        proof {
            lemma_sel_apply_sorted(self@, d@, after);
        }
        let r = Selection { regions: out };
        r
    }
}

} // verus!
