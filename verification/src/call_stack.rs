//! The stack of functions being called, kept inline while shallow.
use vstd::prelude::*;

verus! {

/// Number of calls held inline, before the overflow vector.
pub const INLINE_CALL_DEPTH: usize = 4;

/// The functions being called, from the outermost to the innermost. The
/// first four are held inline; deeper ones go to an overflow vector.
pub struct CallStack<H> {
    inline: [Option<H>; INLINE_CALL_DEPTH],
    overflow: Vec<H>,
    len: usize,
}

impl<H: Copy> CallStack<H> {
    /// The internal consistency of the stack.
    pub closed spec fn wf(&self) -> bool {
        &&& self.inline@.len() == INLINE_CALL_DEPTH
        &&& if self.len >= INLINE_CALL_DEPTH {
            self.overflow@.len() == self.len - INLINE_CALL_DEPTH
        } else {
            self.overflow@.len() == 0
        }
        &&& forall|i: int|
            0 <= i < INLINE_CALL_DEPTH ==> ((#[trigger] self.inline@[i]) is Some <==> i < self.len)
    }

    /// The calls on the stack, outermost first.
    pub closed spec fn entries(&self) -> Seq<H> {
        Seq::new(
            self.len as nat,
            |i: int|
                if i < INLINE_CALL_DEPTH {
                    self.inline@[i]->0
                } else {
                    self.overflow@[i - INLINE_CALL_DEPTH]
                },
        )
    }

    /// An empty stack.
    pub fn new() -> (r: Self)
        ensures
            r.wf(),
            r.entries() == Seq::<H>::empty(),
    {
        let r = CallStack { inline: [None; INLINE_CALL_DEPTH], overflow: Vec::new(), len: 0 };
        assert(r.entries() =~= Seq::<H>::empty());
        r
    }

    /// Number of calls on the stack.
    pub fn depth(&self) -> (r: usize)
        requires
            self.wf(),
        ensures
            r == self.entries().len(),
    {
        self.len
    }

    /// Enter a call.
    pub fn push(&mut self, function: H)
        requires
            old(self).wf(),
            old(self).entries().len() < usize::MAX,
        ensures
            final(self).wf(),
            final(self).entries() == old(self).entries().push(function),
    {
        if self.len < INLINE_CALL_DEPTH {
            self.inline[self.len] = Some(function);
        } else {
            self.overflow.push(function);
        }
        self.len = self.len + 1;
        assert(self.entries() =~= old(self).entries().push(function));
    }

    /// Leave the innermost call; popping an empty stack does nothing.
    pub fn pop(&mut self)
        requires
            old(self).wf(),
        ensures
            final(self).wf(),
            old(self).entries().len() == 0 ==> final(self).entries() == old(self).entries(),
            old(self).entries().len() > 0 ==> final(self).entries() == old(self).entries().drop_last(),
    {
        if self.len == 0 {
            return;
        }
        self.len = self.len - 1;
        if self.len < INLINE_CALL_DEPTH {
            self.inline[self.len] = None;
        } else {
            self.overflow.pop();
        }
        assert(self.entries() =~= old(self).entries().drop_last());
    }

    /// The innermost call, if any.
    pub fn last(&self) -> (r: Option<H>)
        requires
            self.wf(),
        ensures
            self.entries().len() == 0 ==> r is None,
            self.entries().len() > 0 ==> r == Some(self.entries().last()),
    {
        if self.len == 0 {
            None
        } else if self.len <= INLINE_CALL_DEPTH {
            self.inline[self.len - 1]
        } else {
            let last = self.overflow[self.overflow.len() - 1];
            Some(last)
        }
    }

    /// The calls on the stack, outermost first.
    pub fn iter(&self) -> (r: Vec<H>)
        requires
            self.wf(),
        ensures
            r@ == self.entries(),
    {
        let mut result: Vec<H> = Vec::new();
        let mut index: usize = 0;
        while index < self.len
            invariant
                self.wf(),
                index <= self.len,
                result@ == self.entries().take(index as int),
            decreases self.len - index,
        {
            if index < INLINE_CALL_DEPTH {
                match self.inline[index] {
                    Some(function) => result.push(function),
                    None => {},
                }
            } else {
                result.push(self.overflow[index - INLINE_CALL_DEPTH]);
            }
            index = index + 1;
            assert(result@ =~= self.entries().take(index as int));
        }
        assert(self.entries().take(self.len as int) =~= self.entries());
        result
    }
}

/// Leaving a call after entering it gives back the calls as they were,
/// and until then the entered call is the innermost one.
pub proof fn lemma_pop_undoes_push<H>(entries: Seq<H>, function: H)
    ensures
        entries.push(function).drop_last() == entries,
        entries.push(function).last() == function,
        entries.push(function).len() == entries.len() + 1,
{
    assert(entries.push(function).drop_last() =~= entries);
}

/// The calls after entering and leaving calls one step at a time, each
/// step entering `Some(function)` or leaving with `None`, as a `Vec` of the
/// calls would hold them: a push appends, a pop drops the last one and does
/// nothing on an empty stack.
pub open spec fn calls_after<H>(entries: Seq<H>, steps: Seq<Option<H>>) -> Seq<H>
    decreases steps.len(),
{
    if steps.len() == 0 {
        entries
    } else {
        let before = calls_after(entries, steps.drop_last());
        match steps.last() {
            Some(function) => before.push(function),
            None => if before.len() == 0 {
                before
            } else {
                before.drop_last()
            },
        }
    }
}

/// Whether `after` is what `push` (for `Some`) or `pop` (for `None`) makes
/// of `before`, by their contracts.
pub open spec fn stepped<H: Copy>(before: CallStack<H>, after: CallStack<H>, step: Option<H>) -> bool {
    &&& after.wf()
    &&& match step {
        Some(function) => after.entries() == before.entries().push(function),
        None => if before.entries().len() == 0 {
            after.entries() == before.entries()
        } else {
            after.entries() == before.entries().drop_last()
        },
    }
}

/// Over any sequence of pushes and pops, the calls a stack holds (and so
/// what `iter`, `last` and `depth` report) are those a `Vec` would hold
/// after the same pushes and pops.
pub proof fn lemma_steps_follow_vec<H: Copy>(states: Seq<CallStack<H>>, steps: Seq<Option<H>>)
    requires
        states.len() == steps.len() + 1,
        forall|i: int| 0 <= i < steps.len() ==> #[trigger] stepped(states[i], states[i + 1], steps[i]),
    ensures
        states.last().entries() == calls_after(states[0].entries(), steps),
    decreases steps.len(),
{
    if steps.len() > 0 {
        let n = steps.len() - 1;
        let shorter = states.take(n + 1);
        assert forall|i: int| 0 <= i < steps.drop_last().len() implies #[trigger] stepped(
            shorter[i],
            shorter[i + 1],
            steps.drop_last()[i],
        ) by {
            assert(stepped(states[i], states[i + 1], steps[i]));
        }
        lemma_steps_follow_vec(shorter, steps.drop_last());
        assert(stepped(states[n], states[n + 1], steps[n]));
    }
}

} // verus!
