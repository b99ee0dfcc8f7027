use vstd::prelude::*;
use crate::movement::is_word_char;
use crate::text::{copy_chars, slice_chars};

verus! {

#[derive(Clone, Copy, Debug, PartialEq, Eq, Structural)]
pub enum CompletionStatus {
    Inactive,
    Started,
    Done,
}

/// What the editor has to do after an edit in insert mode.
#[derive(Clone, Copy, Debug, PartialEq, Eq, Structural)]
pub enum CompletionAction {
    /// The session was dropped.
    Cancel,
    /// The session's items were filtered again; nothing is asked.
    Filter,
    /// A new session started: ask the completion provider, with this
    /// request id, for completions at this offset of this buffer.
    Request { request_id: u64, buffer_id: u64, offset: usize },
}

/// A completion session as plain values.
pub struct CompletionModel {
    pub buffer_id: u64,
    pub offset: usize,
    pub request_id: u64,
    pub status: CompletionStatus,
    pub input: Seq<char>,
    pub items: Seq<Seq<char>>,
    pub filtered: Seq<int>,
    pub index: usize,
}

/// Characters that may make up an identifier.
pub open spec fn is_ident_char(c: char) -> bool {
    is_word_char(c)
}

/// Characters after which completion is offered on an empty input: member
/// access and path separators.
pub open spec fn is_trigger_char(c: char) -> bool {
    c == '.' || c == ':'
}

/// Start of the identifier that ends at `o`: the first offset of the run
/// of identifier characters just before it.
pub open spec fn prev_boundary(t: Seq<char>, o: int) -> int
    decreases o,
{
    if o <= 0 || o > t.len() {
        if o > t.len() { t.len() as int } else { 0 }
    } else if is_ident_char(t[o - 1]) {
        prev_boundary(t, o - 1)
    } else {
        o
    }
}

/// End of the identifier that starts at `o`.
pub open spec fn next_boundary(t: Seq<char>, o: int) -> int
    decreases t.len() - o,
{
    if o >= t.len() {
        t.len() as int
    } else if is_ident_char(t[o]) {
        next_boundary(t, o + 1)
    } else {
        o
    }
}

/// `input` is a prefix of `item`, case counting.
pub open spec fn matches_input(item: Seq<char>, input: Seq<char>) -> bool {
    input.len() <= item.len() && item.subrange(0, input.len() as int) == input
}

/// Indices, ascending, of the items that the input matches.
pub open spec fn filter_spec(items: Seq<Seq<char>>, input: Seq<char>) -> Seq<int>
    decreases items.len(),
{
    if items.len() == 0 {
        Seq::empty()
    } else {
        let acc = filter_spec(items.drop_last(), input);
        if matches_input(items.last(), input) {
            acc.push(items.len() - 1)
        } else {
            acc
        }
    }
}

pub proof fn lemma_filter_bounds(items: Seq<Seq<char>>, input: Seq<char>)
    ensures
        forall|k: int| 0 <= k < filter_spec(items, input).len() ==> 0 <= #[trigger] filter_spec(items, input)[k] < items.len(),
    decreases items.len(),
{
    if items.len() > 0 {
        lemma_filter_bounds(items.drop_last(), input);
        let acc = filter_spec(items.drop_last(), input);
        assert(forall|k: int| 0 <= k < acc.len() ==> 0 <= #[trigger] acc[k] < items.len() - 1);
    }
}

/// Start of the identifier that ends at `o`.
pub fn prev_code_boundary(t: &Vec<char>, o: usize) -> (r: usize)
    ensures
        r == prev_boundary(t@, o as int),
        r <= t@.len(),
{
    if o > t.len() {
        return t.len();
    }
    let mut j: usize = o;
    while j > 0 && is_ident(t[j - 1])
        invariant
            j <= o <= t@.len(),
            prev_boundary(t@, j as int) == prev_boundary(t@, o as int),
        decreases j,
    {
        j -= 1;
    }
    j
}

/// End of the identifier that starts at `o`.
pub fn next_code_boundary(t: &Vec<char>, o: usize) -> (r: usize)
    ensures
        r == next_boundary(t@, o as int),
        r <= t@.len(),
{
    if o >= t.len() {
        return t.len();
    }
    let mut j: usize = o;
    while j < t.len() && is_ident(t[j])
        invariant
            o <= j <= t@.len(),
            next_boundary(t@, j as int) == next_boundary(t@, o as int),
        decreases t@.len() - j,
    {
        j += 1;
    }
    j
}

fn is_ident(c: char) -> (r: bool)
    ensures
        r == is_ident_char(c),
{
    let u = c as u32;
    (97 <= u && u <= 122) || (65 <= u && u <= 90) || (48 <= u && u <= 57) || c == '_' || u > 127
}

fn matches_input_exec(item: &Vec<char>, input: &Vec<char>) -> (r: bool)
    ensures
        r == matches_input(item@, input@),
{
    if input.len() > item.len() {
        return false;
    }
    let mut i: usize = 0;
    while i < input.len()
        invariant
            i <= input@.len() <= item@.len(),
            forall|k: int| 0 <= k < i ==> item@[k] == input@[k],
        decreases input@.len() - i,
    {
        if item[i] != input[i] {
            assert(item@.subrange(0, input@.len() as int)[i as int] != input@[i as int]);
            return false;
        }
        i += 1;
    }
    assert(item@.subrange(0, input@.len() as int) =~= input@);
    true
}

pub open spec fn items_model(items: Seq<Vec<char>>) -> Seq<Seq<char>> {
    items.map_values(|v: Vec<char>| v@)
}

fn filter_items(items: &Vec<Vec<char>>, input: &Vec<char>) -> (r: Vec<usize>)
    ensures
        r@.map_values(|k: usize| k as int) == filter_spec(items_model(items@), input@),
{
    let ghost im = items_model(items@);
    let mut out: Vec<usize> = Vec::new();
    let mut i: usize = 0;
    while i < items.len()
        invariant
            i <= items@.len(),
            im == items_model(items@),
            out@.map_values(|k: usize| k as int) == filter_spec(im.subrange(0, i as int), input@),
        decreases items@.len() - i,
    {
        let ghost sub = im.subrange(0, i as int + 1);
        assert(sub.drop_last() =~= im.subrange(0, i as int));
        assert(sub.last() == items@[i as int]@);
        if matches_input_exec(&items[i], input) {
            out.push(i);
        }
        i += 1;
        assert(out@.map_values(|k: usize| k as int) =~= filter_spec(im.subrange(0, i as int), input@));
    }
    assert(im.subrange(0, items@.len() as int) =~= im);
    out
}

/// What `on_edit` does, from session `o` to session `n` with action `r`.
pub open spec fn on_edit_spec(
    o: CompletionModel,
    n: CompletionModel,
    r: CompletionAction,
    buffer_id: u64,
    offset: usize,
    input: Seq<char>,
    prev: Option<char>,
) -> bool {
    let trigger = match prev {
        Some(c) => is_trigger_char(c),
        None => false,
    };
    if input.len() == 0 && !trigger {
        &&& r == CompletionAction::Cancel
        &&& n.status == CompletionStatus::Inactive
        &&& n.request_id == o.request_id
        &&& n.input.len() == 0
        &&& n.items.len() == 0
    } else if o.status != CompletionStatus::Inactive && o.offset == offset && o.buffer_id == buffer_id {
        &&& r == CompletionAction::Filter
        &&& n.input == input
        &&& n.status == o.status
        &&& n.request_id == o.request_id
        &&& n.items == o.items
        &&& n.buffer_id == buffer_id
        &&& n.offset == offset
    } else {
        &&& r == CompletionAction::Request { request_id: (o.request_id + 1) as u64, buffer_id, offset }
        &&& n.status == CompletionStatus::Started
        &&& n.request_id == o.request_id + 1
        &&& n.buffer_id == buffer_id
        &&& n.offset == offset
        &&& n.input == input
        &&& n.items.len() == 0
    }
}

/// Typing an identifier after a new anchor: the first character starts a
/// session with one request, and the next two only filter its items, with
/// no further request.
pub proof fn lemma_typing_requests_once(
    c0: CompletionModel,
    c1: CompletionModel,
    c2: CompletionModel,
    c3: CompletionModel,
    a1: CompletionAction,
    a2: CompletionAction,
    a3: CompletionAction,
    buffer_id: u64,
    offset: usize,
    i1: Seq<char>,
    i2: Seq<char>,
    i3: Seq<char>,
    p: Option<char>,
)
    requires
        c0.request_id < u64::MAX,
        c0.status == CompletionStatus::Inactive || c0.offset != offset || c0.buffer_id != buffer_id,
        i1.len() > 0 && i2.len() > 0 && i3.len() > 0,
        on_edit_spec(c0, c1, a1, buffer_id, offset, i1, p),
        on_edit_spec(c1, c2, a2, buffer_id, offset, i2, p),
        on_edit_spec(c2, c3, a3, buffer_id, offset, i3, p),
    ensures
        a1 == (CompletionAction::Request { request_id: (c0.request_id + 1) as u64, buffer_id, offset }),
        a2 == CompletionAction::Filter,
        a3 == CompletionAction::Filter,
        c3.request_id == c0.request_id + 1,
        c3.status == CompletionStatus::Started,
        c3.input == i3,
        c3.offset == offset,
{
}

/// One completion session of an editor: the buffer and anchor offset it
/// belongs to, the id of its latest request, its status, the input typed
/// since the anchor, the items received and those the input matches.
pub struct CompletionData {
    buffer_id: u64,
    offset: usize,
    request_id: u64,
    status: CompletionStatus,
    input: Vec<char>,
    items: Vec<Vec<char>>,
    filtered_items: Vec<usize>,
    index: usize,
}

impl View for CompletionData {
    type V = CompletionModel;

    closed spec fn view(&self) -> CompletionModel {
        CompletionModel {
            buffer_id: self.buffer_id,
            offset: self.offset,
            request_id: self.request_id,
            status: self.status,
            input: self.input@,
            items: items_model(self.items@),
            filtered: self.filtered_items@.map_values(|k: usize| k as int),
            index: self.index,
        }
    }
}

impl CompletionData {
    /// The filtered list belongs to the items and input, and the selected
    /// index lies within it (or is 0).
    pub open spec fn wf(&self) -> bool {
        &&& self@.filtered == filter_spec(self@.items, self@.input)
        &&& (self@.index == 0 || self@.index < self@.filtered.len())
    }

    /// No session yet.
    pub fn new() -> (c: CompletionData)
        ensures
            c.wf(),
            c@.status == CompletionStatus::Inactive,
            c@.request_id == 0,
            c@.items.len() == 0,
            c@.input.len() == 0,
    {
        let c = CompletionData {
            buffer_id: 0,
            offset: 0,
            request_id: 0,
            status: CompletionStatus::Inactive,
            input: Vec::new(),
            items: Vec::new(),
            filtered_items: Vec::new(),
            index: 0,
        };
        assert(c@.items =~= Seq::<Seq<char>>::empty());
        assert(c@.filtered =~= Seq::<int>::empty());
        c
    }

    pub fn status(&self) -> (r: CompletionStatus)
        ensures
            r == self@.status,
    {
        self.status
    }

    pub fn request_id(&self) -> (r: u64)
        ensures
            r == self@.request_id,
    {
        self.request_id
    }

    pub fn offset(&self) -> (r: usize)
        ensures
            r == self@.offset,
    {
        self.offset
    }

    pub fn buffer_id(&self) -> (r: u64)
        ensures
            r == self@.buffer_id,
    {
        self.buffer_id
    }

    pub fn input(&self) -> (r: &Vec<char>)
        ensures
            r@ == self@.input,
    {
        &self.input
    }

    pub fn items_len(&self) -> (r: usize)
        ensures
            r == self@.items.len(),
    {
        self.items.len()
    }

    pub fn filtered_len(&self) -> (r: usize)
        ensures
            r == self@.filtered.len(),
    {
        self.filtered_items.len()
    }

    pub fn index(&self) -> (r: usize)
        ensures
            r == self@.index,
    {
        self.index
    }

    /// Drops the session: inactive, with no input and no items. The request
    /// id stays, so that answers to earlier requests stay stale.
    pub fn cancel(&mut self)
        ensures
            final(self).wf(),
            final(self)@.status == CompletionStatus::Inactive,
            final(self)@.request_id == old(self)@.request_id,
            final(self)@.buffer_id == old(self)@.buffer_id,
            final(self)@.offset == old(self)@.offset,
            final(self)@.input.len() == 0,
            final(self)@.items.len() == 0,
            final(self)@.index == 0,
    {
        self.status = CompletionStatus::Inactive;
        self.input = Vec::new();
        self.items = Vec::new();
        self.filtered_items = Vec::new();
        self.index = 0;
        assert(self@.items =~= Seq::<Seq<char>>::empty());
        assert(self@.filtered =~= Seq::<int>::empty());
    }

    /// Takes a new input for the same session and filters the items again.
    pub fn update_input(&mut self, input: Vec<char>)
        ensures
            final(self).wf(),
            final(self)@.input == input@,
            final(self)@.index == 0,
            final(self)@.status == old(self)@.status,
            final(self)@.request_id == old(self)@.request_id,
            final(self)@.buffer_id == old(self)@.buffer_id,
            final(self)@.offset == old(self)@.offset,
            final(self)@.items == old(self)@.items,
    {
        self.filtered_items = filter_items(&self.items, &input);
        self.input = input;
        self.index = 0;
    }

    /// Decides what an edit in insert mode does to the session. `offset` is
    /// the start of the identifier around the caret (the anchor), `input`
    /// the identifier, and `prev` the character before the anchor. An empty
    /// input not after a trigger character cancels the session; an input at
    /// the anchor of the running session for the same buffer only filters
    /// its items again; anything else starts a new session with the next
    /// request id, for which one request must go out.
    pub fn on_edit(&mut self, buffer_id: u64, offset: usize, input: Vec<char>, prev: Option<char>) -> (r:
        CompletionAction)
        requires
            old(self)@.request_id < u64::MAX,
        ensures
            final(self).wf(),
            on_edit_spec(old(self)@, final(self)@, r, buffer_id, offset, input@, prev),
    {
        let trigger = match prev {
            Some(c) => c == '.' || c == ':',
            None => false,
        };
        if input.len() == 0 && !trigger {
            self.cancel();
            return CompletionAction::Cancel;
        }
        if self.status != CompletionStatus::Inactive && self.offset == offset && self.buffer_id
            == buffer_id {
            self.update_input(input);
            return CompletionAction::Filter;
        }
        self.buffer_id = buffer_id;
        self.offset = offset;
        self.status = CompletionStatus::Started;
        self.request_id = self.request_id + 1;
        self.items = Vec::new();
        self.filtered_items = Vec::new();
        self.input = input;
        self.index = 0;
        assert(self@.items =~= Seq::<Seq<char>>::empty());
        assert(self@.filtered =~= Seq::<int>::empty());
        CompletionAction::Request { request_id: self.request_id, buffer_id, offset }
    }

    /// Takes the items of an answer, with `input`, the identifier at the
    /// caret when it arrives. Only the answer to the session's current
    /// request, while it waits, is taken: the session is then done, with
    /// that input, and its items filtered by it. Any other answer was
    /// superseded and is dropped. Returns whether it was taken.
    pub fn done(&mut self, request_id: u64, input: Vec<char>, items: Vec<Vec<char>>) -> (r: bool)
        requires
            old(self).wf(),
        ensures
            final(self).wf(),
            r == (old(self)@.status == CompletionStatus::Started && request_id == old(self)@.request_id),
            r ==> final(self)@.status == CompletionStatus::Done && final(self)@.items == items_model(
                items@,
            ) && final(self)@.input == input@ && final(self)@.request_id == old(self)@.request_id
                && final(self)@.buffer_id == old(self)@.buffer_id && final(self)@.offset == old(
                self,
            )@.offset && final(self)@.index == 0,
            !r ==> final(self)@ == old(self)@,
    {
        if self.status != CompletionStatus::Started || request_id != self.request_id {
            return false;
        }
        self.filtered_items = filter_items(&items, &input);
        self.items = items;
        self.input = input;
        self.index = 0;
        self.status = CompletionStatus::Done;
        true
    }

    /// A request failed or its answer could not be read: the session is
    /// cancelled when the failure is for its current request; a failure of
    /// a superseded request is dropped. Returns whether it cancelled.
    pub fn fail(&mut self, request_id: u64) -> (r: bool)
        requires
            old(self).wf(),
        ensures
            final(self).wf(),
            r == (old(self)@.status == CompletionStatus::Started && request_id == old(self)@.request_id),
            r ==> final(self)@.status == CompletionStatus::Inactive && final(self)@.request_id == old(
                self,
            )@.request_id,
            !r ==> final(self)@ == old(self)@,
    {
        if self.status != CompletionStatus::Started || request_id != self.request_id {
            return false;
        }
        self.cancel();
        true
    }

    /// Moves the selection to the next filtered item, wrapping around.
    pub fn next(&mut self)
        requires
            old(self).wf(),
        ensures
            final(self).wf(),
            old(self)@.filtered.len() == 0 ==> final(self)@.index == 0,
            old(self)@.filtered.len() > 0 ==> final(self)@.index == if old(self)@.index + 1 < old(
                self,
            )@.filtered.len() {
                old(self)@.index + 1
            } else {
                0
            },
            final(self)@.items == old(self)@.items && final(self)@.input == old(self)@.input
                && final(self)@.status == old(self)@.status && final(self)@.request_id == old(
                self,
            )@.request_id,
    {
        let n = self.filtered_items.len();
        if n == 0 {
            self.index = 0;
        } else if self.index + 1 >= n {
            self.index = 0;
        } else {
            self.index = self.index + 1;
        }
    }

    /// Moves the selection to the previous filtered item, wrapping around.
    pub fn previous(&mut self)
        requires
            old(self).wf(),
        ensures
            final(self).wf(),
            old(self)@.filtered.len() == 0 ==> final(self)@.index == 0,
            old(self)@.filtered.len() > 0 ==> final(self)@.index == if old(self)@.index == 0 {
                old(self)@.filtered.len() - 1
            } else {
                old(self)@.index - 1
            },
            final(self)@.items == old(self)@.items && final(self)@.input == old(self)@.input
                && final(self)@.status == old(self)@.status && final(self)@.request_id == old(
                self,
            )@.request_id,
    {
        let n = self.filtered_items.len();
        if n == 0 {
            self.index = 0;
        } else if self.index == 0 {
            self.index = n - 1;
        } else {
            self.index = self.index - 1;
        }
    }

    /// The selected item's text: the selected one of the filtered items,
    /// none when no item matches.
    pub fn current(&self) -> (r: Option<Vec<char>>)
        requires
            self.wf(),
        ensures
            self@.filtered.len() == 0 ==> r is None,
            self@.filtered.len() > 0 ==> match r {
                Some(s) => s@ == self@.items[self@.filtered[self@.index as int]],
                None => false,
            },
    {
        proof {
            lemma_filter_bounds(self@.items, self@.input);
        }
        let n = self.filtered_items.len();
        if n == 0 {
            return None;
        }
        let k = self.filtered_items[self.index];
        assert(self@.filtered[self.index as int] == k as int);
        Some(copy_chars(&self.items[k]))
    }
}

/// The identifier around the caret at `o`: its start, its characters and
/// the character before it.
pub fn completion_input(t: &Vec<char>, o: usize) -> (r: (usize, Vec<char>, Option<char>))
    requires
        o <= t@.len(),
    ensures
        r.0 == prev_boundary(t@, o as int),
        r.1@ == t@.subrange(prev_boundary(t@, o as int), next_boundary(t@, o as int)),
        r.0 == 0 ==> r.2 is None,
        r.0 > 0 ==> r.2 == Some(t@[r.0 - 1]),
{
    let start = prev_code_boundary(t, o);
    let end = next_code_boundary(t, o);
    proof {
        lemma_boundaries(t@, o as int);
    }
    let input = slice_chars(t, start, end);
    let prev = if start == 0 {
        None
    } else {
        Some(t[start - 1])
    };
    (start, input, prev)
}

proof fn lemma_boundaries(t: Seq<char>, o: int)
    requires
        0 <= o <= t.len(),
    ensures
        prev_boundary(t, o) <= o <= next_boundary(t, o) <= t.len(),
{
    lemma_prev_le(t, o);
    lemma_next_ge(t, o);
}

proof fn lemma_prev_le(t: Seq<char>, o: int)
    requires
        0 <= o <= t.len(),
    ensures
        0 <= prev_boundary(t, o) <= o,
    decreases o,
{
    if o > 0 && is_ident_char(t[o - 1]) {
        lemma_prev_le(t, o - 1);
    }
}

proof fn lemma_next_ge(t: Seq<char>, o: int)
    requires
        0 <= o <= t.len(),
    ensures
        o <= next_boundary(t, o) <= t.len(),
    decreases t.len() - o,
{
    if o < t.len() && is_ident_char(t[o]) {
        lemma_next_ge(t, o + 1);
    }
}

} // verus!
