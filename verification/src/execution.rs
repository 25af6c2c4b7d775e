//! Bookkeeping of script execution that needs no value arena: run
//! generations, the timeout countdown, loop frames and global lookups.
use vstd::prelude::*;

use crate::call_stack::CallStack;
use crate::error::{MiraError, Result, RuntimeErrorKind};
use crate::frame::{FrameArena, FrameId};
use crate::globals::Globals;
use crate::model::Program;
use crate::register::register_capacity;
use crate::register::all_cells;
use crate::value::MiraValue;

verus! {

/// The generation of a run; script closures remember the run that made
/// them. Never zero.
#[derive(Debug, Clone, Copy, PartialEq, Eq, Hash, Structural)]
pub struct ExecutionId(u64);

impl ExecutionId {
    #[verifier::type_invariant]
    spec fn nonzero(self) -> bool {
        self.0 != 0
    }

    /// The number of this generation.
    pub closed spec fn spec_get(self) -> u64 {
        self.0
    }

    /// The first generation.
    pub fn initial() -> (r: Self)
        ensures
            r.spec_get() == 1,
    {
        ExecutionId(1)
    }

    /// The generation after this one; the number space must not be
    /// exhausted.
    pub fn next(self) -> (r: Self)
        requires
            self.spec_get() < u64::MAX,
        ensures
            r.spec_get() == self.spec_get() + 1,
    {
        ExecutionId(self.0 + 1)
    }
}

/// The countdown between two readings of the clock: the clock is read
/// every `interval` checkpoints, and at least every checkpoint when the
/// interval is zero.
#[derive(Debug, Clone, Copy, PartialEq, Eq, Structural)]
pub struct Checkpoint {
    /// Checkpoints left before the clock is read.
    pub remaining: u32,
    /// The configured interval.
    pub interval: u32,
}

/// The interval actually used: at least one.
pub open spec fn effective_interval(interval: u32) -> u32 {
    if interval > 1 {
        interval
    } else {
        1
    }
}

impl Checkpoint {
    /// A countdown that starts full.
    pub fn new(interval: u32) -> (r: Self)
        ensures
            r.interval == interval,
            r.remaining == effective_interval(interval),
    {
        Checkpoint { remaining: if interval > 1 { interval } else { 1 }, interval }
    }

    /// Count one checkpoint; returns whether the clock must be read now,
    /// in which case the countdown starts again.
    pub fn tick(&mut self) -> (r: bool)
        ensures
            final(self).interval == old(self).interval,
            r == (old(self).remaining <= 1),
            old(self).remaining > 1 ==> final(self).remaining == old(self).remaining - 1,
            old(self).remaining <= 1 ==> final(self).remaining == effective_interval(old(self).interval),
    {
        let remaining = self.remaining;
        if remaining > 1 {
            self.remaining = remaining - 1;
            return false;
        }
        self.remaining = if self.interval > 1 {
            self.interval
        } else {
            1
        };
        true
    }

    /// Count one checkpoint, given whether the time limit has passed: an
    /// error once the clock is read and the limit has passed.
    pub fn check(&mut self, timed_out: bool) -> (r: Result<()>)
        ensures
            final(self).interval == old(self).interval,
            old(self).remaining > 1 ==> final(self).remaining == old(self).remaining - 1 && r is Ok,
            old(self).remaining <= 1 ==> final(self).remaining == effective_interval(old(self).interval),
            old(self).remaining <= 1 && timed_out ==> (r matches Err(e) && e.is_runtime_with(
                RuntimeErrorKind::Timeout,
            )),
            old(self).remaining <= 1 && !timed_out ==> r is Ok,
    {
        if self.tick() && timed_out {
            return Err(MiraError::runtime(RuntimeErrorKind::Timeout));
        }
        Ok(())
    }
}

impl FrameArena {
    /// The frame for the next iteration of a loop: the frame kept for reuse
    /// when there is one, cleared and given the parent again; otherwise a
    /// new frame, kept for the next iterations when `reuse_frame` is set.
    pub fn loop_frame(
        &mut self,
        register_count: usize,
        parent: FrameId,
        reuse_frame: bool,
        reusable_frame: &mut Option<FrameId>,
    ) -> (r: FrameId)
        requires
            old(self).wf(),
            old(self).active() < usize::MAX,
            *old(reusable_frame) matches Some(id) ==> id.0 <= old(self).active(),
        ensures
            final(self).wf(),
            final(self).frame(r).parent == Some(parent),
            forall|id: FrameId|
                id.0 <= old(self).active() && id != r ==> #[trigger] final(self).frame(id) == old(self).frame(id),
            all_cells(final(self).frame(r).registers@, MiraValue::Uninitialized),
            *old(reusable_frame) matches Some(id) ==> {
                &&& r == id
                &&& *final(reusable_frame) == Some(id)
                &&& final(self).active() == old(self).active()
                &&& final(self).frame(r).registers@.len() == old(self).frame(r).registers@.len()
            },
            *old(reusable_frame) is None ==> {
                &&& r.0 == old(self).active() + 1
                &&& final(self).active() == r.0
                &&& final(self).frame(r).registers@.len() == register_capacity(register_count)
                &&& *final(reusable_frame) == if reuse_frame {
                    Some(r)
                } else {
                    None
                }
            },
    {
        if let Some(frame) = *reusable_frame {
            self.reset(frame, Some(parent));
            return frame;
        }
        let frame = self.push(register_count, Some(parent));
        if reuse_frame {
            *reusable_frame = Some(frame);
        }
        frame
    }
}

/// The value of the global in a slot of a program, looked up with the
/// slot's standard-library hint; an undefined or unwritten global is an
/// error naming it.
pub fn get_global_slot(program: &Program, globals: &Globals, slot: usize) -> (r: Result<MiraValue>)
    requires
        globals.wf(),
        slot < program.global_names@.len(),
        match program.global_names@[slot as int].1 {
            Some(index) => index < globals.std_names().len() ==> globals.std_names()[index as int]
                == program.global_names@[slot as int].0@,
            None => true,
        },
    ensures
        ({
            let name = program.global_names@[slot as int].0@;
            &&& globals.visible(name) matches Some(value) ==> r matches Ok(v) && v == value
            &&& globals.visible(name) is None ==> (r matches Err(e) && match *e {
                MiraError::Runtime { kind: RuntimeErrorKind::UndefinedGlobal { name: missing }, .. } => missing@ == name,
                _ => false,
            })
        }),
{
    let (name, hint) = &program.global_names[slot];
    match globals.get_hint(name.as_str(), *hint) {
        Some(value) => Ok(value),
        None => Err(MiraError::runtime(RuntimeErrorKind::UndefinedGlobal { name: name.clone() })),
    }
}

/// The value of a global by name; an undefined or unwritten global is an
/// error naming it.
pub fn get_global_name(globals: &Globals, key: &str) -> (r: Result<MiraValue>)
    requires
        globals.wf(),
    ensures
        globals.visible(key@) matches Some(value) ==> r matches Ok(v) && v == value,
        globals.visible(key@) is None ==> (r matches Err(e) && match *e {
            MiraError::Runtime { kind: RuntimeErrorKind::UndefinedGlobal { name }, .. } => name@ == key@,
            _ => false,
        }),
{
    match globals.get(key) {
        Some(value) => Ok(value),
        None => Err(MiraError::runtime(RuntimeErrorKind::UndefinedGlobal { name: key.to_owned() })),
    }
}

/// Enter a call of `function`, the calls under way being `stack`: a stack
/// already `max_depth` deep refuses it, and only a function value can be
/// called. Entering pushes the function's handle, which is returned; the
/// caller runs the function and then pops it.
pub fn call(stack: &mut CallStack<u64>, max_depth: u32, function: MiraValue) -> (r: Result<u64>)
    requires
        old(stack).wf(),
    ensures
        final(stack).wf(),
        old(stack).entries().len() >= max_depth ==> {
            &&& r matches Err(e) && e.is_runtime_with(RuntimeErrorKind::MaxCallDepth { max: max_depth })
            &&& final(stack).entries() == old(stack).entries()
        },
        old(stack).entries().len() < max_depth && !(function is Function) ==> {
            &&& r matches Err(e) && e.is_runtime_with(RuntimeErrorKind::NotCallable { actual: function.spec_value_type() })
            &&& final(stack).entries() == old(stack).entries()
        },
        old(stack).entries().len() < max_depth && function is Function ==> {
            &&& r matches Ok(h) && function == MiraValue::Function(h) && final(stack).entries() == old(
                stack,
            ).entries().push(h)
        },
{
    if stack.depth() >= max_depth as usize {
        return Err(MiraError::runtime(RuntimeErrorKind::MaxCallDepth { max: max_depth }));
    }
    match function {
        MiraValue::Function(handle) => {
            stack.push(handle);
            Ok(handle)
        },
        _ => Err(MiraError::runtime(RuntimeErrorKind::NotCallable { actual: function.value_type() })),
    }
}

} // verus!
