//! Registers: identifiers, register cells and a frame's register file.
use vstd::prelude::*;

use crate::error::{MiraError, Result, RuntimeErrorKind};
use crate::value::MiraValue;

verus! {

/// Identifies a register of a frame. Register `0` is the nil register:
/// reads from it give `nil` and writes to it are dropped.
#[derive(Clone, Copy, Debug, PartialEq, Eq, Hash, Structural)]
pub struct RegisterId(pub usize);

impl RegisterId {
    /// Wrap a raw register index.
    pub fn new(id: usize) -> (r: Self)
        ensures
            r.0 == id,
    {
        RegisterId(id)
    }

    /// Whether this is the nil register.
    pub fn is_nil(self) -> (r: bool)
        ensures
            r == (self.0 == 0),
    {
        self.0 == 0
    }
}

/// The content of a register cell: a value, or the unwritten marker.
#[derive(Clone, Copy, Debug)]
pub struct MiraAny(pub MiraValue);

impl MiraAny {
    /// An unwritten cell.
    pub fn uninitialized() -> (r: Self)
        ensures
            r.0 == MiraValue::Uninitialized,
    {
        MiraAny(MiraValue::Uninitialized)
    }

    /// Store `value` and return the previous content.
    pub fn replace(&mut self, value: MiraValue) -> (r: MiraAny)
        ensures
            r == *old(self),
            final(self).0 == value,
    {
        let previous = *self;
        *self = MiraAny(value);
        previous
    }

    /// The raw content, the unwritten marker included.
    pub fn unwrap(self) -> (r: MiraValue)
        ensures
            r == self.0,
    {
        self.0
    }

    /// The value of a written cell; reading an unwritten cell is an error.
    pub fn check(self) -> (r: Result<MiraValue>)
        ensures
            self.0 is Uninitialized ==> (r matches Err(e) && e.is_runtime_with(
                RuntimeErrorKind::UninitializedValue,
            )),
            !(self.0 is Uninitialized) ==> r == Ok::<MiraValue, Box<MiraError>>(self.0),
    {
        if self.is_uninitialized() {
            Err(MiraError::runtime(RuntimeErrorKind::UninitializedValue))
        } else {
            Ok(self.0)
        }
    }

    /// Whether this cell is unwritten.
    pub fn is_uninitialized(self) -> (r: bool)
        ensures
            r == (self.0 is Uninitialized),
    {
        self.0.is_uninitialized()
    }
}

impl From<MiraValue> for MiraAny {
    fn from(value: MiraValue) -> (r: Self) {
        MiraAny(value)
    }
}

impl vstd::std_specs::convert::FromSpecImpl<MiraValue> for MiraAny {
    open spec fn obeys_from_spec() -> bool {
        true
    }

    open spec fn from_spec(v: MiraValue) -> Self {
        MiraAny(v)
    }
}

/// Number of registers held inline, before the overflow vector.
pub const INLINE_REGISTER_COUNT: usize = 16;

/// The cell count of a register file sized for `count` registers.
pub open spec fn register_capacity(count: usize) -> nat {
    if count > INLINE_REGISTER_COUNT {
        count as nat
    } else {
        INLINE_REGISTER_COUNT as nat
    }
}

/// Whether every cell of `cells` holds `value`.
pub open spec fn all_cells(cells: Seq<MiraAny>, value: MiraValue) -> bool {
    forall|i: int| 0 <= i < cells.len() ==> (#[trigger] cells[i]).0 == value
}

/// The register file of a frame. Register `r` (from 1) lives in cell `r - 1`:
/// the first sixteen cells inline, the rest in an overflow vector.
#[derive(Debug)]
pub struct Registers {
    inline: [MiraAny; INLINE_REGISTER_COUNT],
    overflow: Vec<MiraAny>,
}

impl View for Registers {
    type V = Seq<MiraAny>;

    closed spec fn view(&self) -> Seq<MiraAny> {
        self.inline@ + self.overflow@
    }
}

impl Registers {
    /// The cells of this file; register `r` is cell `r - 1`.
    pub closed spec fn cells(&self) -> Seq<MiraAny> {
        self.inline@ + self.overflow@
    }

    proof fn lemma_view(&self)
        ensures
            self@ == self.cells(),
            self.inline@.len() == INLINE_REGISTER_COUNT,
            self@.len() == INLINE_REGISTER_COUNT + self.overflow@.len(),
    {
    }

    /// A register file with every cell unwritten, sized for `count` registers.
    pub fn new(count: usize) -> (r: Self)
        ensures
            r@.len() == register_capacity(count),
            all_cells(r@, MiraValue::Uninitialized),
    {
        let inline = [MiraAny::uninitialized(); INLINE_REGISTER_COUNT];
        let extra = if count > INLINE_REGISTER_COUNT {
            count - INLINE_REGISTER_COUNT
        } else {
            0
        };
        let mut overflow: Vec<MiraAny> = Vec::new();
        let mut index: usize = 0;
        while index < extra
            invariant
                index <= extra,
                overflow@.len() == index,
                all_cells(overflow@, MiraValue::Uninitialized),
            decreases extra - index,
        {
            overflow.push(MiraAny::uninitialized());
            index = index + 1;
        }
        let r = Registers { inline, overflow };
        proof {
            assert(r.inline@.len() == INLINE_REGISTER_COUNT);
            assert forall|i: int| 0 <= i < r@.len() implies (#[trigger] r@[i]).0
                == MiraValue::Uninitialized by {
                if i < INLINE_REGISTER_COUNT {
                    assert(r@[i] == r.inline@[i]);
                } else {
                    assert(r@[i] == r.overflow@[i - INLINE_REGISTER_COUNT]);
                }
            }
        }
        r
    }

    /// Resize for `count` registers and mark every cell unwritten.
    pub fn reset(&mut self, count: usize)
        ensures
            final(self)@.len() == register_capacity(count),
            all_cells(final(self)@, MiraValue::Uninitialized),
    {
        *self = Registers::new(count);
    }

    /// Store `value` in every cell.
    pub fn fill(&mut self, value: MiraAny)
        ensures
            final(self)@.len() == old(self)@.len(),
            forall|i: int| 0 <= i < final(self)@.len() ==> #[trigger] final(self)@[i] == value,
    {
        let mut index: usize = 0;
        while index < INLINE_REGISTER_COUNT
            invariant
                index <= INLINE_REGISTER_COUNT,
                self.inline@.len() == INLINE_REGISTER_COUNT,
                self.overflow@ == old(self).overflow@,
                forall|i: int| 0 <= i < index ==> #[trigger] self.inline@[i] == value,
            decreases INLINE_REGISTER_COUNT - index,
        {
            self.inline[index] = value;
            index = index + 1;
        }
        let mut index: usize = 0;
        while index < self.overflow.len()
            invariant
                index <= self.overflow@.len(),
                self.overflow@.len() == old(self).overflow@.len(),
                self.inline@.len() == INLINE_REGISTER_COUNT,
                forall|i: int| 0 <= i < INLINE_REGISTER_COUNT ==> #[trigger] self.inline@[i] == value,
                forall|i: int| 0 <= i < index ==> #[trigger] self.overflow@[i] == value,
            decreases self.overflow@.len() - index,
        {
            self.overflow.set(index, value);
            index = index + 1;
        }
        proof {
            assert forall|i: int| 0 <= i < self@.len() implies #[trigger] self@[i] == value by {
                if i < INLINE_REGISTER_COUNT {
                    assert(self@[i] == self.inline@[i]);
                } else {
                    assert(self@[i] == self.overflow@[i - INLINE_REGISTER_COUNT]);
                }
            }
        }
    }

    /// The cell of a register other than the nil register.
    pub fn get(&self, register: RegisterId) -> (r: &MiraAny)
        requires
            1 <= register.0 <= self@.len(),
        ensures
            *r == self@[register.0 - 1],
    {
        let id = register.0 - 1;
        if id < INLINE_REGISTER_COUNT {
            &self.inline[id]
        } else {
            &self.overflow[id - INLINE_REGISTER_COUNT]
        }
    }

    /// Mutable access to the cell of a register other than the nil register.
    pub fn get_mut(&mut self, register: RegisterId) -> (r: &mut MiraAny)
        requires
            1 <= register.0 <= old(self)@.len(),
        ensures
            *r == old(self)@[register.0 - 1],
            final(self)@ == old(self)@.update(register.0 - 1, *final(r)),
    {
        let id = register.0 - 1;
        if id < INLINE_REGISTER_COUNT {
            &mut self.inline[id]
        } else {
            &mut self.overflow[id - INLINE_REGISTER_COUNT]
        }
    }

    /// Overwrite the cell of a register other than the nil register.
    pub fn set(&mut self, register: RegisterId, value: MiraAny)
        requires
            1 <= register.0 <= old(self)@.len(),
        ensures
            final(self)@ == old(self)@.update(register.0 - 1, value),
    {
        let id = register.0 - 1;
        if id < INLINE_REGISTER_COUNT {
            self.inline[id] = value;
        } else {
            self.overflow.set(id - INLINE_REGISTER_COUNT, value);
        }
        proof {
            assert(self@ =~= old(self)@.update(register.0 - 1, value));
        }
    }

    /// Read a register: the nil register reads as `nil`.
    pub fn read(&self, register: RegisterId) -> (r: MiraAny)
        requires
            register.0 <= self@.len(),
        ensures
            register.0 == 0 ==> r.0 == MiraValue::Nil,
            register.0 != 0 ==> r == self@[register.0 - 1],
    {
        if register.is_nil() {
            MiraAny::from(MiraValue::nil())
        } else {
            *self.get(register)
        }
    }
}

} // verus!
