use vstd::prelude::*;
use crate::text::{copy_chars, push_all, slice_chars};

verus! {

/// What a delta does to a text: the characters `deleted` that stand at
/// `start` are replaced by `inserted`.
pub struct DeltaModel {
    pub start: int,
    pub deleted: Seq<char>,
    pub inserted: Seq<char>,
}

/// One revision step of a text: a range of it replaced by new characters.
/// The delta keeps the characters it removes, so it can be inverted.
#[derive(Clone, Debug)]
pub struct EditDelta {
    pub start: usize,
    pub deleted: Vec<char>,
    pub inserted: Vec<char>,
}

impl View for EditDelta {
    type V = DeltaModel;

    open spec fn view(&self) -> DeltaModel {
        DeltaModel { start: self.start as int, deleted: self.deleted@, inserted: self.inserted@ }
    }
}

/// End, in the old text, of the range that `d` replaces.
pub open spec fn old_end(d: DeltaModel) -> int {
    d.start + d.deleted.len()
}

/// `d` applies to `t`: the characters it deletes stand in `t` at its start.
pub open spec fn applies(t: Seq<char>, d: DeltaModel) -> bool {
    0 <= d.start && old_end(d) <= t.len() && t.subrange(d.start, old_end(d)) == d.deleted
}

pub open spec fn apply_model(t: Seq<char>, d: DeltaModel) -> Seq<char> {
    t.subrange(0, d.start) + d.inserted + t.subrange(old_end(d), t.len() as int)
}

/// The delta that undoes `d`.
pub open spec fn inverse_model(d: DeltaModel) -> DeltaModel {
    DeltaModel { start: d.start, deleted: d.inserted, inserted: d.deleted }
}

/// The delta that replaces `t[start..end]` by `s`.
pub open spec fn replace_model(t: Seq<char>, start: int, end: int, s: Seq<char>) -> DeltaModel {
    DeltaModel { start, deleted: t.subrange(start, end), inserted: s }
}

/// Where offset `o` of the old text lands in the new one. Offsets before
/// the replaced range stay, those after it shift by the change in length.
/// The ends of the range go to the matching ends of the new characters;
/// an offset inside the range, or at an insertion point, goes before the
/// new characters, or after them when `after`.
pub open spec fn transform(d: DeltaModel, o: int, after: bool) -> int {
    let s = d.start;
    let e = old_end(d);
    let n = d.inserted.len() as int;
    if o < s {
        o
    } else if o > e {
        o - (e - s) + n
    } else if s == e {
        if after {
            s + n
        } else {
            s
        }
    } else if o == s {
        s
    } else if o == e {
        s + n
    } else if after {
        s + n
    } else {
        s
    }
}

/// Mapping `o` through `d` and back through its inverse gives `o` again.
pub open spec fn round_trips(d: DeltaModel, o: int, after: bool) -> bool {
    transform(inverse_model(d), transform(d, o, after), after) == o
}

/// A delta undone by its inverse gives back the text it was applied to.
pub proof fn lemma_inverse(t: Seq<char>, d: DeltaModel)
    requires
        applies(t, d),
    ensures
        applies(apply_model(t, d), inverse_model(d)),
        apply_model(apply_model(t, d), inverse_model(d)) == t,
        inverse_model(inverse_model(d)) == d,
{
    let u = apply_model(t, d);
    let s = d.start;
    let n = d.inserted.len() as int;
    assert(u.subrange(s, s + n) =~= d.inserted);
    assert(apply_model(u, inverse_model(d)) =~= t);
}

/// Mapping through a delta keeps the order of offsets.
pub proof fn lemma_transform_monotone(d: DeltaModel, a: int, b: int, after: bool)
    requires
        0 <= d.start,
        a <= b,
    ensures
        transform(d, a, after) <= transform(d, b, after),
{
}

/// Mapping `o` through `d` stays within machine integers.
pub open spec fn fits(d: DeltaModel, o: int) -> bool {
    &&& d.start + d.inserted.len() <= usize::MAX
    &&& old_end(d) <= usize::MAX
    &&& (o > old_end(d) ==> o - d.deleted.len() + d.inserted.len() <= usize::MAX)
}

/// An offset within the old text lands within the new one; `old_len` and
/// `new_len` are the lengths of the text before and after `d`.
pub proof fn lemma_transform_bounds(old_len: int, new_len: int, d: DeltaModel, o: int, after: bool)
    requires
        0 <= d.start,
        old_end(d) <= old_len,
        new_len == old_len - d.deleted.len() + d.inserted.len(),
        new_len <= usize::MAX,
        old_len <= usize::MAX,
        0 <= o <= old_len,
    ensures
        0 <= transform(d, o, after) <= new_len,
        fits(d, o),
{
}

impl EditDelta {
    /// The delta that replaces `t[start..end]` by `s`.
    pub fn replace(t: &Vec<char>, start: usize, end: usize, s: &Vec<char>) -> (d: EditDelta)
        requires
            start <= end <= t@.len(),
        ensures
            d@ == replace_model(t@, start as int, end as int, s@),
            applies(t@, d@),
    {
        EditDelta { start, deleted: slice_chars(t, start, end), inserted: copy_chars(s) }
    }

    /// The delta that undoes this one.
    pub fn inverse(&self) -> (r: EditDelta)
        ensures
            r@ == inverse_model(self@),
    {
        EditDelta {
            start: self.start,
            deleted: copy_chars(&self.inserted),
            inserted: copy_chars(&self.deleted),
        }
    }

    /// A copy of this delta.
    pub fn duplicate(&self) -> (r: EditDelta)
        ensures
            r@ == self@,
    {
        EditDelta {
            start: self.start,
            deleted: copy_chars(&self.deleted),
            inserted: copy_chars(&self.inserted),
        }
    }

    /// The text that this delta makes of `t`.
    pub fn apply(&self, t: &Vec<char>) -> (r: Vec<char>)
        requires
            applies(t@, self@),
        ensures
            r@ == apply_model(t@, self@),
    {
        let len = t.len();
        let end = self.start + self.deleted.len();
        let mut r = slice_chars(t, 0, self.start);
        push_all(&mut r, &self.inserted);
        let tail = slice_chars(t, end, len);
        push_all(&mut r, &tail);
        r
    }

    /// Where offset `o` lands after this delta.
    pub fn transform_offset(&self, o: usize, after: bool) -> (r: usize)
        requires
            fits(self@, o as int),
        ensures
            r == transform(self@, o as int, after),
    {
        let s = self.start;
        let n = self.inserted.len();
        let e = s + self.deleted.len();
        if o < s {
            o
        } else if o > e {
            o - (e - s) + n
        } else if s == e {
            if after {
                s + n
            } else {
                s
            }
        } else if o == s {
            s
        } else if o == e {
            s + n
        } else if after {
            s + n
        } else {
            s
        }
    }
}

} // verus!
