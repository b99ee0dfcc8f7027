use vstd::prelude::*;
use crate::delta::{
    applies, apply_model, inverse_model, lemma_inverse, replace_model, DeltaModel, EditDelta,
};
use crate::highlight::{StyleSpan, UpdateEvent};
use crate::text::{
    copy_chars, line_end, line_end_of, line_of, line_of_offset, line_start,
    line_start_of, offset_of_line, offset_of_line_spec, slice_chars,
};

verus! {

/// The kind of an edit; consecutive edits of one kind make one undo step.
#[derive(Clone, Copy, Debug, PartialEq, Eq, Structural)]
pub enum EditType {
    InsertChars,
    InsertNewline,
    Delete,
    Other,
}

/// Why an edit was refused.
#[derive(Clone, Copy, Debug, PartialEq, Eq, Structural)]
pub enum EditError {
    /// The buffer's content has not been loaded yet.
    NotLoaded,
    /// The range does not lie within the text.
    InvalidRange,
}

pub open spec fn group_model(g: Vec<EditDelta>) -> Seq<DeltaModel> {
    g@.map_values(|d: EditDelta| d@)
}

pub open spec fn stack_model(s: Seq<Vec<EditDelta>>) -> Seq<Seq<DeltaModel>> {
    s.map_values(|g: Vec<EditDelta>| group_model(g))
}

/// The text before a group of edits, from the text after them.
pub open spec fn undo_text(t: Seq<char>, g: Seq<DeltaModel>) -> Seq<char>
    decreases g.len(),
{
    if g.len() == 0 {
        t
    } else {
        undo_text(apply_model(t, inverse_model(g.last())), g.drop_last())
    }
}

/// The inverses of a group's edits undo it one after the other, from the
/// last edit back.
pub open spec fn undo_valid(t: Seq<char>, g: Seq<DeltaModel>) -> bool
    decreases g.len(),
{
    g.len() == 0 || (applies(t, inverse_model(g.last())) && undo_valid(
        apply_model(t, inverse_model(g.last())),
        g.drop_last(),
    ))
}

/// The text after a group of edits, from the text before them.
pub open spec fn redo_text(t: Seq<char>, g: Seq<DeltaModel>) -> Seq<char>
    decreases g.len(),
{
    if g.len() == 0 {
        t
    } else {
        apply_model(redo_text(t, g.drop_last()), g.last())
    }
}

/// A group's edits apply one after the other, from the first.
pub open spec fn redo_valid(t: Seq<char>, g: Seq<DeltaModel>) -> bool
    decreases g.len(),
{
    g.len() == 0 || (redo_valid(t, g.drop_last()) && applies(redo_text(t, g.drop_last()), g.last()))
}

/// Each group of the undo stack, from the top, undoes validly from the
/// text that undoing the groups above it leaves.
pub open spec fn undo_stack_valid(t: Seq<char>, s: Seq<Seq<DeltaModel>>) -> bool
    decreases s.len(),
{
    s.len() == 0 || (undo_valid(t, s.last()) && undo_stack_valid(undo_text(t, s.last()), s.drop_last()))
}

/// Each group of the redo stack, from the top, redoes validly from the
/// text that redoing the groups above it leaves.
pub open spec fn redo_stack_valid(t: Seq<char>, s: Seq<Seq<DeltaModel>>) -> bool
    decreases s.len(),
{
    s.len() == 0 || (redo_valid(t, s.last()) && redo_stack_valid(redo_text(t, s.last()), s.drop_last()))
}

/// The deltas `ds` apply one after the other from `t`, and every text on
/// the way fits in memory.
pub open spec fn chain_fits(t: Seq<char>, ds: Seq<DeltaModel>) -> bool {
    &&& redo_valid(t, ds)
    &&& forall|k: int| 0 <= k <= ds.len() ==> (#[trigger] redo_text(t, ds.subrange(0, k))).len() <= usize::MAX
}

proof fn lemma_chain_push(t: Seq<char>, ds: Seq<DeltaModel>, d: DeltaModel)
    requires
        chain_fits(t, ds),
        applies(redo_text(t, ds), d),
        apply_model(redo_text(t, ds), d).len() <= usize::MAX,
    ensures
        chain_fits(t, ds.push(d)),
        redo_text(t, ds.push(d)) == apply_model(redo_text(t, ds), d),
{
    let e = ds.push(d);
    assert(e.drop_last() =~= ds);
    assert forall|k: int| 0 <= k <= e.len() implies (#[trigger] redo_text(t, e.subrange(0, k))).len()
        <= usize::MAX by {
        if k <= ds.len() {
            assert(e.subrange(0, k) =~= ds.subrange(0, k));
        } else {
            assert(e.subrange(0, k) =~= e);
        }
    }
}

/// The deltas that undoing group `g` applies, in the order applied.
pub open spec fn undo_deltas(g: Seq<DeltaModel>) -> Seq<DeltaModel> {
    Seq::new(g.len(), |k: int| inverse_model(g[g.len() - 1 - k]))
}

/// An edit joins the open undo group when it is of the same kind as the
/// edit before it and nothing broke the group since.
pub open spec fn joins_group(last: Option<EditType>, kind: EditType, groups: Seq<Seq<DeltaModel>>) -> bool {
    last == Some(kind) && groups.len() > 0
}

/// The undo stack after edit `d`: added to the top group when it joins it,
/// else pushed as a group of its own.
pub open spec fn push_edit(groups: Seq<Seq<DeltaModel>>, d: DeltaModel, joins: bool) -> Seq<Seq<DeltaModel>> {
    if joins {
        groups.drop_last().push(groups.last().push(d))
    } else {
        groups.push(seq![d])
    }
}

/// Ranges in ascending order, each wholly before the next and within a
/// text of length `len`.
pub open spec fn ranges_ok(rs: Seq<(int, int)>, len: int) -> bool {
    &&& forall|i: int| 0 <= i < rs.len() ==> 0 <= (#[trigger] rs[i]).0 <= rs[i].1 <= len
    &&& forall|i: int, j: int| 0 <= i < j < rs.len() ==> (#[trigger] rs[i]).1 < (#[trigger] rs[j]).0
}

/// The text with every range of `rs` replaced by `s`; the last range is
/// replaced first, so that the others keep their offsets.
pub open spec fn replace_all(t: Seq<char>, rs: Seq<(int, int)>, s: Seq<char>) -> Seq<char>
    decreases rs.len(),
{
    if rs.len() == 0 {
        t
    } else {
        replace_all(apply_model(t, replace_model(t, rs.last().0, rs.last().1, s)), rs.drop_last(), s)
    }
}

/// The undo stack after the edits `ds`, made as one step: added to the top
/// group when they join it, else pushed as a group of their own.
pub open spec fn push_edits(groups: Seq<Seq<DeltaModel>>, ds: Seq<DeltaModel>, joins: bool) -> Seq<Seq<DeltaModel>> {
    if joins {
        groups.drop_last().push(groups.last() + ds)
    } else {
        groups.push(ds)
    }
}

/// Redo after undo: a group undone from the text it left gives that text
/// back when redone.
pub proof fn lemma_undo_then_redo(t: Seq<char>, g: Seq<DeltaModel>)
    requires
        undo_valid(t, g),
    ensures
        redo_valid(undo_text(t, g), g),
        redo_text(undo_text(t, g), g) == t,
    decreases g.len(),
{
    if g.len() > 0 {
        let d = g.last();
        let t1 = apply_model(t, inverse_model(d));
        lemma_inverse(t, inverse_model(d));
        lemma_undo_then_redo(t1, g.drop_last());
    }
}

/// Undo restores the text before an edit group of any length: a group of
/// edits applied one after the other from `t`, then undone, gives `t`.
pub proof fn lemma_redo_then_undo(t: Seq<char>, g: Seq<DeltaModel>)
    requires
        redo_valid(t, g),
    ensures
        undo_valid(redo_text(t, g), g),
        undo_text(redo_text(t, g), g) == t,
    decreases g.len(),
{
    if g.len() > 0 {
        let d = g.last();
        let r = redo_text(t, g.drop_last());
        lemma_redo_then_undo(t, g.drop_last());
        lemma_inverse(r, d);
    }
}

pub proof fn lemma_redo_valid_prefix(t: Seq<char>, g: Seq<DeltaModel>, i: int)
    requires
        redo_valid(t, g),
        0 <= i <= g.len(),
    ensures
        redo_valid(t, g.subrange(0, i)),
    decreases g.len(),
{
    if i < g.len() {
        lemma_redo_valid_prefix(t, g.drop_last(), i);
        assert(g.drop_last().subrange(0, i) =~= g.subrange(0, i));
    } else {
        assert(g.subrange(0, i) =~= g);
    }
}

/// Undo after an edit: the edit's group, undone, gives the text before the
/// edit when the edit opened the group, and otherwise the text that undoing
/// the group before the edit would have given.
pub proof fn lemma_undo_after_edit(
    t: Seq<char>,
    groups: Seq<Seq<DeltaModel>>,
    d: DeltaModel,
    joins: bool,
)
    requires
        applies(t, d),
        joins ==> groups.len() > 0,
    ensures
        undo_stack_valid(t, groups) ==> undo_stack_valid(apply_model(t, d), push_edit(groups, d, joins)),
        undo_text(apply_model(t, d), push_edit(groups, d, joins).last()) == if joins {
            undo_text(t, groups.last())
        } else {
            t
        },
{
    lemma_inverse(t, d);
    let t1 = apply_model(t, d);
    let s = push_edit(groups, d, joins);
    if joins {
        let g = groups.last().push(d);
        assert(s.last() == g);
        assert(g.drop_last() =~= groups.last());
        assert(g.last() == d);
        assert(s.drop_last() =~= groups.drop_last());
        assert(apply_model(t1, inverse_model(d)) == t);
        assert(undo_stack_valid(t, groups) ==> undo_valid(t1, g));
        assert(undo_text(t1, g) == undo_text(t, groups.last()));
    } else {
        let g = seq![d];
        assert(s.last() == g);
        assert(g.drop_last() =~= Seq::<DeltaModel>::empty());
        assert(g.last() == d);
        assert(s.drop_last() =~= groups);
        assert(undo_valid(t, g.drop_last()));
        assert(undo_valid(t1, g));
        assert(undo_text(t, g.drop_last()) == t);
        assert(undo_text(t1, g) == t);
    }
}

/// Undoes group `g` on `t`: its edits' inverses, from the last edit back.
/// Returns the text and the deltas applied, in order.
fn undo_group_text(t: Vec<char>, g: &Vec<EditDelta>) -> (r: (Vec<char>, Vec<EditDelta>))
    requires
        undo_valid(t@, group_model(*g)),
    ensures
        r.0@ == undo_text(t@, group_model(*g)),
        group_model(r.1) == undo_deltas(group_model(*g)),
        chain_fits(t@, group_model(r.1)),
        redo_text(t@, group_model(r.1)) == r.0@,
{
    let ghost gm = group_model(*g);
    let ghost t0 = t@;
    let _n0 = t.len();
    let mut cur = t;
    let mut applied: Vec<EditDelta> = Vec::new();
    let mut i: usize = g.len();
    assert(gm.subrange(0, i as int) =~= gm);
    while i > 0
        invariant
            i <= g@.len(),
            gm == group_model(*g),
            undo_valid(cur@, gm.subrange(0, i as int)),
            undo_text(cur@, gm.subrange(0, i as int)) == undo_text(t@, gm),
            group_model(applied) == Seq::new(
                (g@.len() - i) as nat,
                |k: int| inverse_model(gm[gm.len() - 1 - k]),
            ),
            chain_fits(t0, group_model(applied)),
            redo_text(t0, group_model(applied)) == cur@,
        decreases i,
    {
        i -= 1;
        let inv = g[i].inverse();
        assert(gm.subrange(0, i as int + 1).drop_last() =~= gm.subrange(0, i as int));
        assert(gm.subrange(0, i as int + 1).last() == gm[i as int]);
        assert(gm[i as int] == g@[i as int]@);
        assert(inv@ == inverse_model(gm[i as int]));
        cur = inv.apply(&cur);
        let _n = cur.len();
        let ghost prev = group_model(applied);
        applied.push(inv);
        assert(group_model(applied) =~= prev.push(inv@));
        proof {
            lemma_chain_push(t0, prev, inv@);
        }
        assert(group_model(applied) =~= Seq::new(
            (g@.len() - i) as nat,
            |k: int| inverse_model(gm[gm.len() - 1 - k]),
        ));
    }
    assert(gm.subrange(0, 0) =~= Seq::<DeltaModel>::empty());
    (cur, applied)
}

/// Redoes group `g` on `t`: its edits, from the first. Returns the text and
/// the deltas applied, in order.
fn redo_group_text(t: Vec<char>, g: &Vec<EditDelta>) -> (r: (Vec<char>, Vec<EditDelta>))
    requires
        redo_valid(t@, group_model(*g)),
    ensures
        r.0@ == redo_text(t@, group_model(*g)),
        group_model(r.1) == group_model(*g),
        chain_fits(t@, group_model(r.1)),
{
    let ghost gm = group_model(*g);
    let ghost t0 = t@;
    let _n0 = t.len();
    let mut cur = t;
    let mut applied: Vec<EditDelta> = Vec::new();
    let mut i: usize = 0;
    assert(gm.subrange(0, 0) =~= Seq::<DeltaModel>::empty());
    while i < g.len()
        invariant
            i <= g@.len(),
            gm == group_model(*g),
            redo_valid(t0, gm),
            cur@ == redo_text(t0, gm.subrange(0, i as int)),
            group_model(applied) == gm.subrange(0, i as int),
            chain_fits(t0, group_model(applied)),
        decreases g@.len() - i,
    {
        proof {
            lemma_redo_valid_prefix(t0, gm, i as int + 1);
        }
        assert(gm.subrange(0, i as int + 1).drop_last() =~= gm.subrange(0, i as int));
        assert(gm.subrange(0, i as int + 1).last() == gm[i as int]);
        cur = g[i].apply(&cur);
        let _n = cur.len();
        let ghost prev = group_model(applied);
        applied.push(g[i].duplicate());
        assert(group_model(applied) =~= prev.push(gm[i as int]));
        proof {
            lemma_chain_push(t0, prev, gm[i as int]);
        }
        i += 1;
        assert(group_model(applied) =~= gm.subrange(0, i as int));
    }
    assert(gm.subrange(0, g@.len() as int) =~= gm);
    (cur, applied)
}

/// A text buffer: its identity, text, revision, undo and redo stacks, load
/// state and latest style spans.
pub struct Buffer {
    id: u64,
    text: Vec<char>,
    rev: u64,
    undos: Vec<Vec<EditDelta>>,
    redos: Vec<Vec<EditDelta>>,
    last_edit_type: Option<EditType>,
    loaded: bool,
    language: Option<u32>,
    styles: Vec<StyleSpan>,
    styles_rev: u64,
    styles_semantic: bool,
}

/// Whether a style result for revision `rev` is shown: it must be for the
/// current revision, and it does not replace a semantic-token result of
/// that revision unless it is one too.
pub open spec fn accepts_styles(
    cur_rev: u64,
    shown_rev: u64,
    shown_semantic: bool,
    rev: u64,
    semantic: bool,
) -> bool {
    rev == cur_rev && !(shown_semantic && shown_rev == rev && !semantic)
}

/// Results arriving out of order: a style result older than the one shown
/// is never shown, and the revision of the shown styles never goes back.
pub proof fn lemma_styles_never_go_back(
    cur_rev: u64,
    shown_rev: u64,
    shown_semantic: bool,
    rev: u64,
    semantic: bool,
)
    requires
        shown_rev <= cur_rev,
    ensures
        rev < shown_rev ==> !accepts_styles(cur_rev, shown_rev, shown_semantic, rev, semantic),
        accepts_styles(cur_rev, shown_rev, shown_semantic, rev, semantic) ==> shown_rev <= rev,
{
}

impl Buffer {
    pub closed spec fn id_spec(&self) -> u64 {
        self.id
    }

    pub closed spec fn text_spec(&self) -> Seq<char> {
        self.text@
    }

    pub closed spec fn rev_spec(&self) -> u64 {
        self.rev
    }

    pub closed spec fn undo_groups(&self) -> Seq<Seq<DeltaModel>> {
        stack_model(self.undos@)
    }

    pub closed spec fn redo_groups(&self) -> Seq<Seq<DeltaModel>> {
        stack_model(self.redos@)
    }

    pub closed spec fn last_edit_spec(&self) -> Option<EditType> {
        self.last_edit_type
    }

    pub closed spec fn loaded_spec(&self) -> bool {
        self.loaded
    }

    pub closed spec fn language_spec(&self) -> Option<u32> {
        self.language
    }

    pub closed spec fn styles_spec(&self) -> Seq<StyleSpan> {
        self.styles@
    }

    pub closed spec fn styles_rev_spec(&self) -> u64 {
        self.styles_rev
    }

    pub closed spec fn styles_semantic_spec(&self) -> bool {
        self.styles_semantic
    }

    pub open spec fn wf(&self) -> bool {
        &&& undo_stack_valid(self.text_spec(), self.undo_groups())
        &&& redo_stack_valid(self.text_spec(), self.redo_groups())
        &&& self.styles_rev_spec() <= self.rev_spec()
    }

    /// An empty buffer whose content is not loaded yet.
    pub fn new(id: u64) -> (b: Buffer)
        ensures
            b.wf(),
            b.id_spec() == id,
            b.text_spec() == Seq::<char>::empty(),
            b.rev_spec() == 0,
            !b.loaded_spec(),
            b.undo_groups().len() == 0,
            b.redo_groups().len() == 0,
            b.last_edit_spec() is None,
            b.language_spec() is None,
            b.styles_spec().len() == 0,
            b.styles_rev_spec() == 0,
            !b.styles_semantic_spec(),
    {
        let b = Buffer {
            id,
            text: Vec::new(),
            rev: 0,
            undos: Vec::new(),
            redos: Vec::new(),
            last_edit_type: None,
            loaded: false,
            language: None,
            styles: Vec::new(),
            styles_rev: 0,
            styles_semantic: false,
        };
        assert(b.undo_groups() =~= Seq::<Seq<DeltaModel>>::empty());
        assert(b.redo_groups() =~= Seq::<Seq<DeltaModel>>::empty());
        b
    }

    /// Loads the buffer's content: the text is replaced, the history
    /// cleared, and the revision bumped.
    pub fn load_content(&mut self, content: Vec<char>)
        requires
            old(self).wf(),
            old(self).rev_spec() < u64::MAX,
        ensures
            final(self).wf(),
            final(self).text_spec() == content@,
            final(self).loaded_spec(),
            final(self).rev_spec() == old(self).rev_spec() + 1,
            final(self).undo_groups().len() == 0,
            final(self).redo_groups().len() == 0,
            final(self).last_edit_spec() is None,
            final(self).id_spec() == old(self).id_spec(),
            final(self).language_spec() == old(self).language_spec(),
            final(self).styles_spec() == old(self).styles_spec(),
            final(self).styles_rev_spec() == old(self).styles_rev_spec(),
            final(self).styles_semantic_spec() == old(self).styles_semantic_spec(),
    {
        self.text = content;
        self.loaded = true;
        self.rev = self.rev + 1;
        self.undos = Vec::new();
        self.redos = Vec::new();
        self.last_edit_type = None;
        assert(self.undo_groups() =~= Seq::<Seq<DeltaModel>>::empty());
        assert(self.redo_groups() =~= Seq::<Seq<DeltaModel>>::empty());
    }

    pub fn id(&self) -> (r: u64)
        ensures
            r == self.id_spec(),
    {
        self.id
    }

    pub fn rev(&self) -> (r: u64)
        ensures
            r == self.rev_spec(),
    {
        self.rev
    }

    pub fn text(&self) -> (r: &Vec<char>)
        ensures
            r@ == self.text_spec(),
    {
        &self.text
    }

    pub fn len(&self) -> (r: usize)
        ensures
            r == self.text_spec().len(),
    {
        self.text.len()
    }

    pub fn is_loaded(&self) -> (r: bool)
        ensures
            r == self.loaded_spec(),
    {
        self.loaded
    }

    pub fn language(&self) -> (r: Option<u32>)
        ensures
            r == self.language_spec(),
    {
        self.language
    }

    pub fn styles(&self) -> (r: &Vec<StyleSpan>)
        ensures
            r@ == self.styles_spec(),
    {
        &self.styles
    }

    pub fn styles_rev(&self) -> (r: u64)
        ensures
            r == self.styles_rev_spec(),
    {
        self.styles_rev
    }

    pub fn styles_semantic(&self) -> (r: bool)
        ensures
            r == self.styles_semantic_spec(),
    {
        self.styles_semantic
    }

    pub fn undo_len(&self) -> (r: usize)
        ensures
            r == self.undo_groups().len(),
    {
        self.undos.len()
    }

    pub fn redo_len(&self) -> (r: usize)
        ensures
            r == self.redo_groups().len(),
    {
        self.redos.len()
    }

    /// The characters from `start` to `end`.
    pub fn slice(&self, start: usize, end: usize) -> (r: Vec<char>)
        requires
            start <= end <= self.text_spec().len(),
        ensures
            r@ == self.text_spec().subrange(start as int, end as int),
    {
        slice_chars(&self.text, start, end)
    }

    /// The line and column of offset `o`.
    pub fn offset_to_line_col(&self, o: usize) -> (r: (usize, usize))
        requires
            o <= self.text_spec().len(),
        ensures
            r.0 == line_of(self.text_spec(), o as int),
            r.1 == o - line_start(self.text_spec(), o as int),
    {
        let line = line_of_offset(&self.text, o);
        let ls = line_start_of(&self.text, o);
        (line, o - ls)
    }

    /// The characters of line `line`, without its line feed (none past the
    /// last line).
    pub fn line_content(&self, line: usize) -> (r: Vec<char>)
        ensures
            r@ == self.text_spec().subrange(
                offset_of_line_spec(self.text_spec(), line as nat),
                line_end(self.text_spec(), offset_of_line_spec(self.text_spec(), line as nat)),
            ),
    {
        let s = offset_of_line(&self.text, line);
        let e = line_end_of(&self.text, s);
        slice_chars(&self.text, s, e)
    }

    /// The event that asks the highlight worker for styles of the current
    /// revision: a snapshot of the text, for the buffer's language. None
    /// when the buffer has no language.
    pub fn update_event(&self) -> (r: Option<UpdateEvent>)
        ensures
            self.language_spec() is None ==> r is None,
            self.language_spec() is Some ==> match r {
                Some(e) => e.buffer_id == self.id_spec() && e.rev == self.rev_spec() && e.language
                    == self.language_spec() && e.text@ == self.text_spec() && e.tokens is None,
                None => false,
            },
    {
        match self.language {
            None => None,
            Some(l) => Some(
                UpdateEvent {
                    buffer_id: self.id,
                    rev: self.rev,
                    language: Some(l),
                    text: copy_chars(&self.text),
                    tokens: None,
                },
            ),
        }
    }

    /// The event that hands semantic tokens computed for revision `rev` to
    /// the highlight worker; None when they are stale (another revision)
    /// or the buffer has no language.
    pub fn semantic_tokens_event(&self, rev: u64, tokens: Vec<StyleSpan>) -> (r: Option<UpdateEvent>)
        ensures
            (rev != self.rev_spec() || self.language_spec() is None) ==> r is None,
            (rev == self.rev_spec() && self.language_spec() is Some) ==> match r {
                Some(e) => e.buffer_id == self.id_spec() && e.rev == rev && e.language
                    == self.language_spec() && e.text@ == self.text_spec() && e.tokens == Some(tokens),
                None => false,
            },
    {
        if rev != self.rev {
            return None;
        }
        match self.language {
            None => None,
            Some(l) => Some(
                UpdateEvent {
                    buffer_id: self.id,
                    rev,
                    language: Some(l),
                    text: copy_chars(&self.text),
                    tokens: Some(tokens),
                },
            ),
        }
    }

    /// Sets the language whose grammar highlights the buffer.
    pub fn set_language(&mut self, language: Option<u32>)
        ensures
            final(self).language_spec() == language,
            final(self).id_spec() == old(self).id_spec(),
            final(self).text_spec() == old(self).text_spec(),
            final(self).rev_spec() == old(self).rev_spec(),
            final(self).undo_groups() == old(self).undo_groups(),
            final(self).redo_groups() == old(self).redo_groups(),
            final(self).last_edit_spec() == old(self).last_edit_spec(),
            final(self).loaded_spec() == old(self).loaded_spec(),
            final(self).styles_spec() == old(self).styles_spec(),
            final(self).styles_rev_spec() == old(self).styles_rev_spec(),
            final(self).styles_semantic_spec() == old(self).styles_semantic_spec(),
            old(self).wf() ==> final(self).wf(),
    {
        self.language = language;
    }

    /// Replaces `text[start..end]` by `s`. The edit gets the next revision,
    /// joins the open undo group when it is of the same kind as the edit
    /// before it (else opens a group of its own), and clears the redo stack.
    /// Refused on a buffer whose content is not loaded, and on a range
    /// outside the text; a refused edit changes nothing.
    pub fn apply_edit(&mut self, start: usize, end: usize, s: &Vec<char>, kind: EditType) -> (r:
        Result<EditDelta, EditError>)
        requires
            old(self).wf(),
            old(self).rev_spec() < u64::MAX,
        ensures
            final(self).wf(),
            !old(self).loaded_spec() ==> r == Err::<EditDelta, EditError>(EditError::NotLoaded)
                && *final(self) == *old(self),
            old(self).loaded_spec() && !(start <= end <= old(self).text_spec().len()) ==> r == Err::<
                EditDelta,
                EditError,
            >(EditError::InvalidRange) && *final(self) == *old(self),
            old(self).loaded_spec() && start <= end <= old(self).text_spec().len() ==> match r {
                Ok(d) => {
                    &&& d@ == replace_model(old(self).text_spec(), start as int, end as int, s@)
                    &&& final(self).text_spec() == apply_model(old(self).text_spec(), d@)
                    &&& final(self).rev_spec() == old(self).rev_spec() + 1
                    &&& final(self).undo_groups() == push_edit(
                        old(self).undo_groups(),
                        d@,
                        joins_group(old(self).last_edit_spec(), kind, old(self).undo_groups()),
                    )
                    &&& final(self).redo_groups().len() == 0
                    &&& final(self).last_edit_spec() == Some(kind)
                    &&& final(self).id_spec() == old(self).id_spec()
                    &&& final(self).loaded_spec()
                    &&& final(self).language_spec() == old(self).language_spec()
                    &&& final(self).styles_spec() == old(self).styles_spec()
                    &&& final(self).styles_rev_spec() == old(self).styles_rev_spec()
                    &&& final(self).styles_semantic_spec() == old(self).styles_semantic_spec()
                },
                Err(_) => false,
            },
    {
        if !self.loaded {
            return Err(EditError::NotLoaded);
        }
        if !(start <= end && end <= self.text.len()) {
            return Err(EditError::InvalidRange);
        }
        let ghost groups = self.undo_groups();
        let d = EditDelta::replace(&self.text, start, end, s);
        let joins = match self.last_edit_type {
            Some(k) => k == kind && self.undos.len() > 0,
            None => false,
        };
        assert(joins == joins_group(self.last_edit_type, kind, groups));
        let new_text = d.apply(&self.text);
        proof {
            lemma_undo_after_edit(self.text@, groups, d@, joins);
        }
        self.text = new_text;
        let dd = d.duplicate();
        if joins {
            let ghost before = self.undos@;
            match self.undos.pop() {
                Some(g) => {
                    let mut g = g;
                    let ghost gm = group_model(g);
                    g.push(dd);
                    assert(group_model(g) =~= gm.push(d@));
                    self.undos.push(g);
                },
                None => {},
            }
            assert(self.undo_groups() =~= push_edit(groups, d@, true));
        } else {
            let mut g: Vec<EditDelta> = Vec::new();
            g.push(dd);
            assert(group_model(g) =~= seq![d@]);
            self.undos.push(g);
            assert(self.undo_groups() =~= push_edit(groups, d@, false));
        }
        self.redos = Vec::new();
        assert(self.redo_groups() =~= Seq::<Seq<DeltaModel>>::empty());
        self.rev = self.rev + 1;
        self.last_edit_type = Some(kind);
        Ok(d)
    }

    /// Replaces every range of `rs` by `s`, as one edit of `kind`: one new
    /// revision and one undo step, joined to the open group as `apply_edit`
    /// would be. Returns the deltas applied, in order (last range first).
    /// Refused on a buffer that is not loaded, and when there is no range or
    /// the ranges are not in order within the text; a refused edit changes
    /// nothing.
    pub fn apply_edits(&mut self, rs: &Vec<(usize, usize)>, s: &Vec<char>, kind: EditType) -> (r: Result<
        Vec<EditDelta>,
        EditError,
    >)
        requires
            old(self).wf(),
            old(self).rev_spec() < u64::MAX,
        ensures
            final(self).wf(),
            ({
                let rm = rs@.map_values(|p: (usize, usize)| (p.0 as int, p.1 as int));
                let t = old(self).text_spec();
                if !old(self).loaded_spec() {
                    r == Err::<Vec<EditDelta>, EditError>(EditError::NotLoaded) && *final(self) == *old(self)
                } else if rm.len() == 0 || !ranges_ok(rm, t.len() as int) {
                    r == Err::<Vec<EditDelta>, EditError>(EditError::InvalidRange) && *final(self) == *old(self)
                } else {
                    match r {
                        Ok(ds) => {
                            &&& final(self).text_spec() == replace_all(t, rm, s@)
                            &&& chain_fits(t, group_model(ds))
                            &&& redo_text(t, group_model(ds)) == final(self).text_spec()
                            &&& ds@.len() == rm.len()
                            &&& final(self).rev_spec() == old(self).rev_spec() + 1
                            &&& final(self).undo_groups() == push_edits(
                                old(self).undo_groups(),
                                group_model(ds),
                                joins_group(old(self).last_edit_spec(), kind, old(self).undo_groups()),
                            )
                            &&& final(self).redo_groups().len() == 0
                            &&& final(self).last_edit_spec() == Some(kind)
                            &&& final(self).id_spec() == old(self).id_spec()
                            &&& final(self).loaded_spec()
                            &&& final(self).language_spec() == old(self).language_spec()
                            &&& final(self).styles_spec() == old(self).styles_spec()
                            &&& final(self).styles_rev_spec() == old(self).styles_rev_spec()
                            &&& final(self).styles_semantic_spec() == old(self).styles_semantic_spec()
                        },
                        Err(_) => false,
                    }
                }
            }),
    {
        let ghost rm = rs@.map_values(|p: (usize, usize)| (p.0 as int, p.1 as int));
        let ghost t0 = self.text@;
        let ghost g0 = self.undo_groups();
        let ghost joins0 = joins_group(self.last_edit_type, kind, g0);
        if !self.loaded {
            return Err(EditError::NotLoaded);
        }
        let n = rs.len();
        let len0 = self.text.len();
        if n == 0 {
            return Err(EditError::InvalidRange);
        }
        let mut k: usize = 0;
        while k < n
            invariant
                k <= n == rs@.len() == rm.len(),
                rm == rs@.map_values(|p: (usize, usize)| (p.0 as int, p.1 as int)),
                *self == *old(self),
                self.wf(),
                self.loaded,
                t0 == self.text@,
                forall|j: int| 0 <= j < k ==> 0 <= (#[trigger] rm[j]).0 <= rm[j].1 <= len0,
                forall|a: int, b: int| 0 <= a < b < k ==> (#[trigger] rm[a]).1 < (#[trigger] rm[b]).0,
                len0 == t0.len(),
            decreases n - k,
        {
            let (a, b) = rs[k];
            assert(rm[k as int] == (a as int, b as int));
            if !(a <= b && b <= len0) {
                return Err(EditError::InvalidRange);
            }
            if k > 0 && rs[k - 1].1 >= a {
                assert(rm[k as int - 1].1 >= rm[k as int].0);
                return Err(EditError::InvalidRange);
            }
            proof {
                assert forall|x: int, y: int| 0 <= x < y < k + 1 implies (#[trigger] rm[x]).1 < (#[trigger] rm[y]).0 by {
                    if y == k && x < k - 1 {
                        assert(rm[x].1 < rm[k - 1].0);
                    }
                }
            }
            k += 1;
        }
        assert(ranges_ok(rm, t0.len() as int));
        let old_rev = self.rev;
        let mut applied: Vec<EditDelta> = Vec::new();
        let mut i: usize = n;
        assert(rm.subrange(0, n as int) =~= rm);
        while i > 0
            invariant
                i <= n == rm.len() == rs@.len(),
                ranges_ok(rm, t0.len() as int),
                rm == rs@.map_values(|p: (usize, usize)| (p.0 as int, p.1 as int)),
                self.wf(),
                self.loaded,
                self.rev == old_rev,
                old_rev < u64::MAX,
                self.id == old(self).id,
                self.language == old(self).language,
                self.styles@ == old(self).styles@,
                self.styles_rev == old(self).styles_rev,
                self.styles_semantic == old(self).styles_semantic,
                replace_all(self.text@, rm.subrange(0, i as int), s@) == replace_all(t0, rm, s@),
                i < n ==> self.text@.len() >= rm[i as int].0 && self.text@.subrange(0, rm[i as int].0)
                    == t0.subrange(0, rm[i as int].0),
                i == n ==> self.text@ == t0,
                chain_fits(t0, group_model(applied)),
                redo_text(t0, group_model(applied)) == self.text@,
                applied@.len() == n - i,
                i < n ==> self.undo_groups() == push_edits(g0, group_model(applied), joins0),
                i < n ==> self.last_edit_type == Some(kind) && self.undo_groups().len() > 0,
                i == n ==> self.undo_groups() == g0 && joins0 == joins_group(self.last_edit_type, kind, g0),
                i < n ==> self.redo_groups().len() == 0,
            decreases i,
        {
            i -= 1;
            let (a, b) = rs[i];
            assert(rm[i as int] == (a as int, b as int));
            let ghost cur = self.text@;
            let ghost gs = self.undo_groups();
            let ghost joins = joins_group(self.last_edit_type, kind, gs);
            proof {
                if i + 1 < n {
                    assert(rm[i as int].1 < rm[i as int + 1].0);
                }
            }
            let d = match self.apply_edit(a, b, s, kind) {
                Ok(d) => d,
                Err(e) => {
                    return Err(e);
                },
            };
            let _l = self.text.len();
            self.rev = old_rev;
            let ghost sub = rm.subrange(0, i as int + 1);
            proof {
                assert(sub.last() == (a as int, b as int));
                assert(sub.drop_last() =~= rm.subrange(0, i as int));
                if i + 1 < n {
                    assert(cur.subrange(0, b as int) =~= t0.subrange(0, b as int));
                }
                assert(self.text@.subrange(0, a as int) =~= cur.subrange(0, a as int));
                assert(self.text@.subrange(0, rm[i as int].0) =~= t0.subrange(0, rm[i as int].0));
                lemma_chain_push(t0, group_model(applied), d@);
            }
            let ghost prev = group_model(applied);
            applied.push(d);
            assert(group_model(applied) =~= prev.push(d@));
            proof {
                if i + 1 == n {
                    assert(prev =~= Seq::<DeltaModel>::empty());
                    if joins0 {
                        assert(g0.last() + seq![d@] =~= g0.last().push(d@));
                    }
                    assert(self.undo_groups() =~= push_edits(g0, group_model(applied), joins0));
                } else {
                    assert(joins);
                    if joins0 {
                        assert(g0.last() + prev.push(d@) =~= (g0.last() + prev).push(d@));
                        assert(gs.drop_last() =~= g0.drop_last());
                    } else {
                        assert(gs.drop_last() =~= g0);
                    }
                    assert(self.undo_groups() =~= push_edits(g0, group_model(applied), joins0));
                }
            }
        }
        assert(rm.subrange(0, 0) =~= Seq::<(int, int)>::empty());
        self.rev = old_rev + 1;
        Ok(applied)
    }

    /// Undoes the top group of the undo stack and moves it to the redo
    /// stack, with the next revision. Returns the deltas applied, in order,
    /// so that dependent state can follow; with nothing to undo, nothing
    /// happens and `None` comes back.
    pub fn undo(&mut self) -> (r: Option<Vec<EditDelta>>)
        requires
            old(self).wf(),
            old(self).rev_spec() < u64::MAX,
        ensures
            final(self).wf(),
            old(self).undo_groups().len() == 0 ==> r is None && *final(self) == *old(self),
            old(self).undo_groups().len() > 0 ==> match r {
                Some(ds) => {
                    let g = old(self).undo_groups().last();
                    &&& group_model(ds) == undo_deltas(g)
                    &&& final(self).text_spec() == undo_text(old(self).text_spec(), g)
                    &&& chain_fits(old(self).text_spec(), group_model(ds))
                    &&& redo_text(old(self).text_spec(), group_model(ds)) == final(self).text_spec()
                    &&& final(self).rev_spec() == old(self).rev_spec() + 1
                    &&& final(self).undo_groups() == old(self).undo_groups().drop_last()
                    &&& final(self).redo_groups() == old(self).redo_groups().push(g)
                    &&& final(self).last_edit_spec() is None
                    &&& final(self).id_spec() == old(self).id_spec()
                    &&& final(self).loaded_spec() == old(self).loaded_spec()
                    &&& final(self).language_spec() == old(self).language_spec()
                    &&& final(self).styles_spec() == old(self).styles_spec()
                    &&& final(self).styles_rev_spec() == old(self).styles_rev_spec()
                    &&& final(self).styles_semantic_spec() == old(self).styles_semantic_spec()
                },
                None => false,
            },
    {
        if self.undos.len() == 0 {
            return None;
        }
        let ghost groups = self.undo_groups();
        let ghost redos = self.redo_groups();
        let ghost t0 = self.text@;
        let g = match self.undos.pop() {
            Some(g) => g,
            None => {
                return None;
            },
        };
        assert(group_model(g) == groups.last());
        assert(self.undo_groups() =~= groups.drop_last());
        let text = copy_chars(&self.text);
        let (new_text, applied) = undo_group_text(text, &g);
        proof {
            lemma_undo_then_redo(t0, groups.last());
        }
        self.text = new_text;
        self.redos.push(g);
        assert(self.redo_groups() =~= redos.push(groups.last()));
        assert(self.redo_groups().drop_last() =~= redos);
        self.rev = self.rev + 1;
        self.last_edit_type = None;
        Some(applied)
    }

    /// Redoes the top group of the redo stack and moves it back to the undo
    /// stack, with the next revision. Returns the deltas applied, in order;
    /// with nothing to redo, nothing happens and `None` comes back.
    pub fn redo(&mut self) -> (r: Option<Vec<EditDelta>>)
        requires
            old(self).wf(),
            old(self).rev_spec() < u64::MAX,
        ensures
            final(self).wf(),
            old(self).redo_groups().len() == 0 ==> r is None && *final(self) == *old(self),
            old(self).redo_groups().len() > 0 ==> match r {
                Some(ds) => {
                    let g = old(self).redo_groups().last();
                    &&& group_model(ds) == g
                    &&& final(self).text_spec() == redo_text(old(self).text_spec(), g)
                    &&& chain_fits(old(self).text_spec(), group_model(ds))
                    &&& final(self).rev_spec() == old(self).rev_spec() + 1
                    &&& final(self).undo_groups() == old(self).undo_groups().push(g)
                    &&& final(self).redo_groups() == old(self).redo_groups().drop_last()
                    &&& final(self).last_edit_spec() is None
                    &&& final(self).id_spec() == old(self).id_spec()
                    &&& final(self).loaded_spec() == old(self).loaded_spec()
                    &&& final(self).language_spec() == old(self).language_spec()
                    &&& final(self).styles_spec() == old(self).styles_spec()
                    &&& final(self).styles_rev_spec() == old(self).styles_rev_spec()
                    &&& final(self).styles_semantic_spec() == old(self).styles_semantic_spec()
                },
                None => false,
            },
    {
        if self.redos.len() == 0 {
            return None;
        }
        let ghost groups = self.redo_groups();
        let ghost undos = self.undo_groups();
        let ghost t0 = self.text@;
        let g = match self.redos.pop() {
            Some(g) => g,
            None => {
                return None;
            },
        };
        assert(group_model(g) == groups.last());
        assert(self.redo_groups() =~= groups.drop_last());
        let text = copy_chars(&self.text);
        let (new_text, applied) = redo_group_text(text, &g);
        proof {
            lemma_redo_then_undo(t0, groups.last());
        }
        self.text = new_text;
        self.undos.push(g);
        assert(self.undo_groups() =~= undos.push(groups.last()));
        assert(self.undo_groups().drop_last() =~= undos);
        self.rev = self.rev + 1;
        self.last_edit_type = None;
        Some(applied)
    }

    /// Ends the open undo group: the next edit starts a group of its own.
    pub fn break_undo_group(&mut self)
        ensures
            final(self).last_edit_spec() is None,
            final(self).id_spec() == old(self).id_spec(),
            final(self).text_spec() == old(self).text_spec(),
            final(self).rev_spec() == old(self).rev_spec(),
            final(self).undo_groups() == old(self).undo_groups(),
            final(self).redo_groups() == old(self).redo_groups(),
            final(self).loaded_spec() == old(self).loaded_spec(),
            final(self).language_spec() == old(self).language_spec(),
            final(self).styles_spec() == old(self).styles_spec(),
            final(self).styles_rev_spec() == old(self).styles_rev_spec(),
            final(self).styles_semantic_spec() == old(self).styles_semantic_spec(),
            old(self).wf() ==> final(self).wf(),
    {
        self.last_edit_type = None;
    }

    /// Shows style spans computed for revision `rev`, when
    /// `accepts_styles` allows; returns whether they were taken.
    pub fn update_styles(&mut self, rev: u64, spans: Vec<StyleSpan>, semantic: bool) -> (r: bool)
        requires
            old(self).wf(),
        ensures
            final(self).wf(),
            r == accepts_styles(
                old(self).rev_spec(),
                old(self).styles_rev_spec(),
                old(self).styles_semantic_spec(),
                rev,
                semantic,
            ),
            r ==> final(self).styles_spec() == spans@ && final(self).styles_rev_spec() == rev
                && final(self).styles_semantic_spec() == semantic,
            !r ==> final(self).styles_spec() == old(self).styles_spec()
                && final(self).styles_rev_spec() == old(self).styles_rev_spec()
                && final(self).styles_semantic_spec() == old(self).styles_semantic_spec(),
            final(self).id_spec() == old(self).id_spec(),
            final(self).text_spec() == old(self).text_spec(),
            final(self).rev_spec() == old(self).rev_spec(),
            final(self).undo_groups() == old(self).undo_groups(),
            final(self).redo_groups() == old(self).redo_groups(),
            final(self).last_edit_spec() == old(self).last_edit_spec(),
            final(self).loaded_spec() == old(self).loaded_spec(),
            final(self).language_spec() == old(self).language_spec(),
    {
        if rev != self.rev {
            return false;
        }
        if self.styles_semantic && self.styles_rev == rev && !semantic {
            return false;
        }
        self.styles = spans;
        self.styles_rev = rev;
        self.styles_semantic = semantic;
        true
    }
}

} // verus!
