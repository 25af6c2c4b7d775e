//! Call frames and the arena that recycles them across runs.
use vstd::prelude::*;

use crate::error::{MiraError, Result, RuntimeErrorKind};
use crate::register::{all_cells, register_capacity, MiraAny, RegisterId, Registers};
use crate::value::MiraValue;

verus! {

/// Identifies a frame of the arena. The root frame is `0`; child frames are
/// numbered from `1` in the order in which a run creates them.
#[derive(Debug, Clone, Copy, PartialEq, Eq, Hash, Structural)]
pub struct FrameId(pub usize);

impl FrameId {
    /// The root frame.
    pub fn root() -> (r: Self)
        ensures
            r.0 == 0,
    {
        FrameId(0)
    }
}

/// A frame: its lexical parent and its register file.
#[derive(Debug)]
pub struct Frame {
    /// The lexically enclosing frame, if any.
    pub parent: Option<FrameId>,
    /// The frame's registers.
    pub registers: Registers,
}

impl Frame {
    /// A frame with `register_count` unwritten registers.
    pub fn new(register_count: usize, parent: Option<FrameId>) -> (r: Self)
        ensures
            r.parent == parent,
            r.registers@.len() == register_capacity(register_count),
            all_cells(r.registers@, MiraValue::Uninitialized),
    {
        Frame { registers: Registers::new(register_count), parent }
    }

    /// Mark every register unwritten and set a new parent; the register
    /// count is kept.
    pub fn reset(&mut self, parent: Option<FrameId>)
        ensures
            final(self).parent == parent,
            final(self).registers@.len() == old(self).registers@.len(),
            all_cells(final(self).registers@, MiraValue::Uninitialized),
    {
        self.registers.fill(MiraAny::uninitialized());
        self.parent = parent;
    }

    /// Resize for `register_count` registers, mark them unwritten and set a
    /// new parent.
    pub fn reset_with_count(&mut self, register_count: usize, parent: Option<FrameId>)
        ensures
            final(self).parent == parent,
            final(self).registers@.len() == register_capacity(register_count),
            all_cells(final(self).registers@, MiraValue::Uninitialized),
    {
        self.registers.reset(register_count);
        self.parent = parent;
    }
}

/// The frames of a runtime: the root frame and the child frames of the
/// current run. Frames of earlier runs are kept for their allocations only;
/// they are reset before they are handed out again.
pub struct FrameArena {
    root: Frame,
    children: Vec<Frame>,
    active_children: usize,
}

impl FrameArena {
    /// The internal consistency of the arena.
    pub closed spec fn wf(&self) -> bool {
        self.active_children <= self.children@.len()
    }

    /// Number of child frames handed out in the current run; the valid frame
    /// ids are `0..=active()`.
    pub closed spec fn active(&self) -> nat {
        self.active_children as nat
    }

    /// The active frames can be numbered by `usize`.
    pub proof fn lemma_active_bounded(&self)
        ensures
            self.active() <= usize::MAX,
    {
    }

    /// Number of child frames allocated, active or retained.
    pub closed spec fn allocated(&self) -> nat {
        self.children@.len()
    }

    /// The frame with a given id.
    pub closed spec fn frame(&self, id: FrameId) -> Frame {
        if id.0 == 0 {
            self.root
        } else {
            self.children@[id.0 - 1]
        }
    }

    /// An arena whose root frame has `root_register_count` unwritten registers
    /// and no children.
    pub fn new(root_register_count: usize) -> (r: Self)
        ensures
            r.wf(),
            r.active() == 0,
            r.frame(FrameId(0)).parent is None,
            r.frame(FrameId(0)).registers@.len() == register_capacity(root_register_count),
            all_cells(r.frame(FrameId(0)).registers@, MiraValue::Uninitialized),
    {
        FrameArena { root: Frame::new(root_register_count, None), children: Vec::new(), active_children: 0 }
    }

    /// Start a run: the root frame is resized and cleared and no child frame
    /// is active. Allocated children are kept for reuse.
    pub fn begin_run(&mut self, root_register_count: usize)
        requires
            old(self).wf(),
        ensures
            final(self).wf(),
            final(self).active() == 0,
            final(self).allocated() == old(self).allocated(),
            final(self).frame(FrameId(0)).parent is None,
            final(self).frame(FrameId(0)).registers@.len() == register_capacity(root_register_count),
            all_cells(final(self).frame(FrameId(0)).registers@, MiraValue::Uninitialized),
    {
        self.root.reset_with_count(root_register_count, None);
        self.active_children = 0;
    }

    /// Hand out the next child frame, reusing a retained allocation when one
    /// exists. The frame has `register_count` unwritten registers and the
    /// given parent; no other active frame changes.
    pub fn push(&mut self, register_count: usize, parent: Option<FrameId>) -> (r: FrameId)
        requires
            old(self).wf(),
            old(self).active() < usize::MAX,
        ensures
            final(self).wf(),
            r.0 == old(self).active() + 1,
            final(self).active() == r.0,
            final(self).frame(r).parent == parent,
            final(self).frame(r).registers@.len() == register_capacity(register_count),
            all_cells(final(self).frame(r).registers@, MiraValue::Uninitialized),
            forall|id: FrameId|
                id.0 <= old(self).active() ==> #[trigger] final(self).frame(id) == old(self).frame(id),
            pushed(*old(self), *final(self), r, register_count, parent),
    {
        let index = self.active_children;
        self.active_children = self.active_children + 1;
        if index < self.children.len() {
            self.children[index].reset_with_count(register_count, parent);
        } else {
            self.children.push(Frame::new(register_count, parent));
        }
        FrameId(self.active_children)
    }

    /// The frame with a given id.
    pub fn get(&self, frame: FrameId) -> (r: &Frame)
        requires
            self.wf(),
            frame.0 <= self.active(),
        ensures
            *r == self.frame(frame),
    {
        if frame.0 == 0 {
            &self.root
        } else {
            &self.children[frame.0 - 1]
        }
    }

    /// Mutable access to the frame with a given id.
    pub fn get_mut(&mut self, frame: FrameId) -> (r: &mut Frame)
        requires
            old(self).wf(),
            frame.0 <= old(self).active(),
        ensures
            *r == old(self).frame(frame),
            final(self).wf(),
            final(self).active() == old(self).active(),
            final(self).allocated() == old(self).allocated(),
            final(self).frame(frame) == *final(r),
            forall|id: FrameId|
                id.0 <= old(self).active() && id != frame ==> #[trigger] final(self).frame(id)
                    == old(self).frame(id),
    {
        if frame.0 == 0 {
            &mut self.root
        } else {
            &mut self.children[frame.0 - 1]
        }
    }

    /// Mark every register of a frame unwritten and give it a new parent.
    pub fn reset(&mut self, frame: FrameId, parent: Option<FrameId>)
        requires
            old(self).wf(),
            frame.0 <= old(self).active(),
        ensures
            final(self).wf(),
            final(self).active() == old(self).active(),
            final(self).allocated() == old(self).allocated(),
            final(self).frame(frame).parent == parent,
            final(self).frame(frame).registers@.len() == old(self).frame(frame).registers@.len(),
            all_cells(final(self).frame(frame).registers@, MiraValue::Uninitialized),
            forall|id: FrameId|
                id.0 <= old(self).active() && id != frame ==> #[trigger] final(self).frame(id)
                    == old(self).frame(id),
    {
        if frame.0 == 0 {
            self.root.reset(parent);
        } else {
            let index = frame.0 - 1;
            self.children[index].reset(parent);
        }
    }

    /// Whether register `register` may be read or written in frame `frame`.
    pub open spec fn register_in_range(&self, frame: FrameId, register: RegisterId) -> bool {
        register.0 <= self.frame(frame).registers@.len()
    }

    /// The raw content of a register: the nil register reads as `nil`.
    pub fn read_register_raw(&self, frame: FrameId, register: RegisterId) -> (r: MiraAny)
        requires
            self.wf(),
            frame.0 <= self.active(),
            self.register_in_range(frame, register),
        ensures
            register.0 == 0 ==> r.0 == MiraValue::Nil,
            register.0 != 0 ==> r == self.frame(frame).registers@[register.0 - 1],
    {
        if register.is_nil() {
            MiraAny::from(MiraValue::nil())
        } else {
            *self.get(frame).registers.get(register)
        }
    }

    /// The value of a register; an unwritten register is an error.
    pub fn read_register(&self, frame: FrameId, register: RegisterId) -> (r: Result<MiraValue>)
        requires
            self.wf(),
            frame.0 <= self.active(),
            self.register_in_range(frame, register),
        ensures
            register.0 == 0 ==> r == Ok::<MiraValue, Box<MiraError>>(MiraValue::Nil),
            register.0 != 0 && !(self.frame(frame).registers@[register.0 - 1].0 is Uninitialized)
                ==> r == Ok::<MiraValue, Box<MiraError>>(self.frame(frame).registers@[register.0 - 1].0),
            register.0 != 0 && self.frame(frame).registers@[register.0 - 1].0 is Uninitialized
                ==> (r matches Err(e) && e.is_runtime_with(RuntimeErrorKind::UninitializedValue)),
    {
        self.read_register_raw(frame, register).check()
    }

    /// Write a register; writes to the nil register are dropped.
    pub fn write_register_raw(&mut self, frame: FrameId, register: RegisterId, value: MiraAny)
        requires
            old(self).wf(),
            frame.0 <= old(self).active(),
            old(self).register_in_range(frame, register),
        ensures
            final(self).wf(),
            final(self).active() == old(self).active(),
            final(self).allocated() == old(self).allocated(),
            final(self).frame(frame).parent == old(self).frame(frame).parent,
            register.0 == 0 ==> final(self).frame(frame).registers@ == old(self).frame(frame).registers@,
            register.0 != 0 ==> final(self).frame(frame).registers@ == old(self).frame(
                frame,
            ).registers@.update(register.0 - 1, value),
            forall|id: FrameId|
                id.0 <= old(self).active() && id != frame ==> #[trigger] final(self).frame(id)
                    == old(self).frame(id),
    {
        if !register.is_nil() {
            if frame.0 == 0 {
                self.root.registers.set(register, value);
            } else {
                let index = frame.0 - 1;
                self.children[index].registers.set(register, value);
            }
        }
    }

    /// Write a value to a register; writes to the nil register are dropped.
    pub fn write_register(&mut self, frame: FrameId, register: RegisterId, value: MiraValue)
        requires
            old(self).wf(),
            frame.0 <= old(self).active(),
            old(self).register_in_range(frame, register),
        ensures
            final(self).wf(),
            final(self).active() == old(self).active(),
            final(self).allocated() == old(self).allocated(),
            final(self).frame(frame).parent == old(self).frame(frame).parent,
            register.0 == 0 ==> final(self).frame(frame).registers@ == old(self).frame(frame).registers@,
            register.0 != 0 ==> final(self).frame(frame).registers@ == old(self).frame(
                frame,
            ).registers@.update(register.0 - 1, MiraAny(value)),
            forall|id: FrameId|
                id.0 <= old(self).active() && id != frame ==> #[trigger] final(self).frame(id)
                    == old(self).frame(id),
    {
        self.write_register_raw(frame, register, MiraAny::from(value));
    }

    /// Mark a register unwritten; the nil register is left alone.
    pub fn clear_register(&mut self, frame: FrameId, register: RegisterId)
        requires
            old(self).wf(),
            frame.0 <= old(self).active(),
            old(self).register_in_range(frame, register),
        ensures
            final(self).wf(),
            final(self).active() == old(self).active(),
            final(self).allocated() == old(self).allocated(),
            final(self).frame(frame).parent == old(self).frame(frame).parent,
            register.0 == 0 ==> final(self).frame(frame).registers@ == old(self).frame(frame).registers@,
            register.0 != 0 ==> final(self).frame(frame).registers@ == old(self).frame(
                frame,
            ).registers@.update(register.0 - 1, MiraAny(MiraValue::Uninitialized)),
            forall|id: FrameId|
                id.0 <= old(self).active() && id != frame ==> #[trigger] final(self).frame(id)
                    == old(self).frame(id),
    {
        self.write_register_raw(frame, register, MiraAny::uninitialized());
    }

    /// The frame reached from `frame` by following `level` parent links, or
    /// `None` when a link is missing on the way.
    pub open spec fn ancestor(&self, frame: FrameId, level: nat) -> Option<FrameId>
        decreases level,
    {
        if level == 0 {
            Some(frame)
        } else {
            match self.frame(frame).parent {
                Some(parent) => self.ancestor(parent, (level - 1) as nat),
                None => None,
            }
        }
    }

    /// Whether the parent links followed from `frame` for `level` steps all
    /// lead to active frames.
    pub open spec fn chain_active(&self, frame: FrameId, level: nat) -> bool
        decreases level,
    {
        &&& frame.0 <= self.active()
        &&& level > 0 ==> match self.frame(frame).parent {
            Some(parent) => self.chain_active(parent, (level - 1) as nat),
            None => true,
        }
    }

    /// Follow `level` parent links from `frame`; a missing link is an
    /// invalid upvalue level.
    pub fn parent_frame(&self, frame: FrameId, level: usize) -> (r: Result<FrameId>)
        requires
            self.wf(),
            self.chain_active(frame, level as nat),
        ensures
            self.ancestor(frame, level as nat) matches Some(id) ==> r == Ok::<FrameId, Box<MiraError>>(id),
            self.ancestor(frame, level as nat) is None ==> (r matches Err(e) && e.is_runtime_with(
                RuntimeErrorKind::InvalidUpvalueLevel { level },
            )),
    {
        let mut current = frame;
        let mut step: usize = 0;
        while step < level
            invariant
                self.wf(),
                step <= level,
                self.chain_active(current, (level - step) as nat),
                self.ancestor(frame, level as nat) == self.ancestor(current, (level - step) as nat),
            decreases level - step,
        {
            match self.get(current).parent {
                Some(parent) => {
                    current = parent;
                },
                None => {
                    return Err(MiraError::runtime(RuntimeErrorKind::InvalidUpvalueLevel { level }));
                },
            }
            step = step + 1;
        }
        Ok(current)
    }
}

/// Whether `after` and `id` are what `push(register_count, parent)` makes of
/// `before`, by its contract.
pub open spec fn pushed(
    before: FrameArena,
    after: FrameArena,
    id: FrameId,
    register_count: usize,
    parent: Option<FrameId>,
) -> bool {
    &&& after.wf()
    &&& id.0 == before.active() + 1
    &&& after.active() == id.0
    &&& after.frame(id).parent == parent
    &&& after.frame(id).registers@.len() == register_capacity(register_count)
    &&& all_cells(after.frame(id).registers@, MiraValue::Uninitialized)
    &&& forall|other: FrameId| other.0 <= before.active() ==> #[trigger] after.frame(other) == before.frame(other)
}

/// After a fresh run (no child frame active), successive pushes hand out
/// the frames numbered 1, 2, ... in push order; each keeps its parent and
/// its cleared registers through the later pushes, and the frames active
/// before are left alone.
pub proof fn lemma_pushes_number_frames(
    states: Seq<FrameArena>,
    ids: Seq<FrameId>,
    counts: Seq<usize>,
    parents: Seq<Option<FrameId>>,
)
    requires
        states.len() == ids.len() + 1,
        counts.len() == ids.len(),
        parents.len() == ids.len(),
        states[0].active() == 0,
        forall|i: int| 0 <= i < ids.len() ==> #[trigger] pushed(states[i], states[i + 1], ids[i], counts[i], parents[i]),
    ensures
        states.last().active() == ids.len(),
        states.last().frame(FrameId(0)) == states[0].frame(FrameId(0)),
        forall|i: int| 0 <= i < ids.len() ==> {
            &&& (#[trigger] ids[i]).0 == i + 1
            &&& states.last().frame(ids[i]).parent == parents[i]
            &&& states.last().frame(ids[i]).registers@.len() == register_capacity(counts[i])
            &&& all_cells(states.last().frame(ids[i]).registers@, MiraValue::Uninitialized)
        },
    decreases ids.len(),
{
    if ids.len() > 0 {
        let n = ids.len() - 1;
        let shorter = states.take(n + 1);
        assert forall|i: int| 0 <= i < n implies #[trigger] pushed(
            shorter[i],
            shorter[i + 1],
            ids.take(n)[i],
            counts.take(n)[i],
            parents.take(n)[i],
        ) by {
            assert(pushed(states[i], states[i + 1], ids[i], counts[i], parents[i]));
        }
        lemma_pushes_number_frames(shorter, ids.take(n), counts.take(n), parents.take(n));
        assert(pushed(states[n], states[n + 1], ids[n], counts[n], parents[n]));
        assert forall|i: int| 0 <= i < ids.len() implies {
            &&& (#[trigger] ids[i]).0 == i + 1
            &&& states.last().frame(ids[i]).parent == parents[i]
            &&& states.last().frame(ids[i]).registers@.len() == register_capacity(counts[i])
            &&& all_cells(states.last().frame(ids[i]).registers@, MiraValue::Uninitialized)
        } by {
            if i < n {
                assert(ids.take(n)[i] == ids[i]);
                assert(shorter.last() == states[n]);
                assert(states[n + 1].frame(ids[i]) == states[n].frame(ids[i]));
            }
        }
    }
}

} // verus!
