use vstd::prelude::*;
use crate::text::copy_chars;

verus! {

/// Number of slots in the ring of recent deletes.
pub const DELETE_RING_LEN: usize = 10;

/// How the content of a register was captured, and so how it is pasted.
#[derive(Clone, Copy, Debug, PartialEq, Eq, Structural)]
pub enum VisualMode {
    Normal,
    Linewise,
    Blockwise,
}

/// Text captured by a yank or a delete, with the way it was captured.
#[derive(Clone, Debug)]
pub struct RegisterData {
    pub content: Vec<char>,
    pub mode: VisualMode,
}

impl RegisterData {
    pub open spec fn same(&self, o: &RegisterData) -> bool {
        self.content@ == o.content@ && self.mode == o.mode
    }

    pub fn new(content: Vec<char>, mode: VisualMode) -> (r: RegisterData)
        ensures
            r.content@ == content@,
            r.mode == mode,
    {
        RegisterData { content, mode }
    }

    /// An empty register of the normal submode.
    pub fn empty() -> (r: RegisterData)
        ensures
            r.content@ == Seq::<char>::empty(),
            r.mode == VisualMode::Normal,
    {
        RegisterData { content: Vec::new(), mode: VisualMode::Normal }
    }

    /// A copy with the same content and mode.
    pub fn duplicate(&self) -> (r: RegisterData)
        ensures
            r.same(self),
    {
        RegisterData { content: copy_chars(&self.content), mode: self.mode }
    }
}

/// The registers of an editor: the unnamed register that every yank and
/// delete updates, the last yank, and a ring of the recent deletes.
#[derive(Clone, Debug)]
pub struct Register {
    unamed: RegisterData,
    last_yank: RegisterData,
    last_deletes: Vec<RegisterData>,
    newest_delete: usize,
}

impl Register {
    /// The ring has `DELETE_RING_LEN` slots, and its newest slot is one of
    /// them.
    pub open spec fn wf(&self) -> bool {
        &&& self.ring_spec().len() == DELETE_RING_LEN
        &&& 0 <= self.newest_spec() < DELETE_RING_LEN
    }

    pub closed spec fn unnamed_spec(&self) -> RegisterData {
        self.unamed
    }

    pub closed spec fn last_yank_spec(&self) -> RegisterData {
        self.last_yank
    }

    /// The slot of the ring that holds the newest delete.
    pub closed spec fn newest_spec(&self) -> int {
        self.newest_delete as int
    }

    pub closed spec fn ring_spec(&self) -> Seq<RegisterData> {
        self.last_deletes@
    }

    /// Empty registers; the ring starts with its newest slot at 0.
    pub fn new() -> (r: Register)
        ensures
            r.wf(),
            r.unnamed_spec().content@.len() == 0,
            r.last_yank_spec().content@.len() == 0,
            r.newest_spec() == 0,
            forall|i: int| 0 <= i < DELETE_RING_LEN ==> (#[trigger] r.ring_spec()[i]).content@.len() == 0,
    {
        let mut last_deletes: Vec<RegisterData> = Vec::new();
        let mut i: usize = 0;
        while i < DELETE_RING_LEN
            invariant
                i <= DELETE_RING_LEN,
                last_deletes@.len() == i,
                forall|k: int| 0 <= k < i ==> (#[trigger] last_deletes@[k]).content@.len() == 0,
            decreases DELETE_RING_LEN - i,
        {
            last_deletes.push(RegisterData::empty());
            i += 1;
        }
        Register {
            unamed: RegisterData::empty(),
            last_yank: RegisterData::empty(),
            last_deletes,
            newest_delete: 0,
        }
    }

    /// Records deleted text: it becomes the unnamed register and takes the
    /// next slot of the ring of deletes, which wraps after its last slot.
    pub fn add_delete(&mut self, data: RegisterData)
        requires
            old(self).wf(),
        ensures
            final(self).wf(),
            final(self).unnamed_spec().same(&data),
            final(self).last_yank_spec() == old(self).last_yank_spec(),
            final(self).newest_spec() == (old(self).newest_spec() + 1) % (DELETE_RING_LEN as int),
            final(self).ring_spec() == old(self).ring_spec().update(final(self).newest_spec(), data),
    {
        self.unamed = data.duplicate();
        let next = if self.newest_delete + 1 == DELETE_RING_LEN {
            0
        } else {
            self.newest_delete + 1
        };
        self.last_deletes.set(next, data);
        self.newest_delete = next;
    }

    /// Records yanked text: it becomes both the unnamed register and the
    /// last yank.
    pub fn add_yank(&mut self, data: RegisterData)
        requires
            old(self).wf(),
        ensures
            final(self).wf(),
            final(self).unnamed_spec().same(&data),
            final(self).last_yank_spec() == data,
            final(self).newest_spec() == old(self).newest_spec(),
            final(self).ring_spec() == old(self).ring_spec(),
    {
        self.unamed = data.duplicate();
        self.last_yank = data;
    }

    /// The unnamed register.
    pub fn unnamed(&self) -> (r: &RegisterData)
        ensures
            *r == self.unnamed_spec(),
    {
        &self.unamed
    }

    /// The last yank.
    pub fn last_yank(&self) -> (r: &RegisterData)
        ensures
            *r == self.last_yank_spec(),
    {
        &self.last_yank
    }

    /// The delete recorded `age` deletes before the newest one (0 is the
    /// newest); the ring remembers the last `DELETE_RING_LEN` deletes.
    pub fn delete_at(&self, age: usize) -> (r: &RegisterData)
        requires
            self.wf(),
            age < DELETE_RING_LEN,
        ensures
            *r == self.ring_spec()[(self.newest_spec() - age + DELETE_RING_LEN as int) % (DELETE_RING_LEN as int)],
    {
        let i = if age <= self.newest_delete {
            self.newest_delete - age
        } else {
            self.newest_delete + DELETE_RING_LEN - age
        };
        &self.last_deletes[i]
    }
}

} // verus!
