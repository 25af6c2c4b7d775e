//! Insertion-ordered tables keyed by name, kept in `indexmap::IndexMap`:
//! the standard-library cells of a runtime, and the global names of a
//! program with their standard-library slots.
use vstd::prelude::*;

use indexmap::IndexMap;

use crate::register::MiraAny;

verus! {

/// `indexmap::IndexMap`, an insertion-ordered hash map.
#[verifier::external_type_specification]
#[verifier::external_body]
#[verifier::reject_recursive_types(K)]
#[verifier::reject_recursive_types(V)]
#[verifier::reject_recursive_types(S)]
pub struct ExIndexMap<K, V, S>(IndexMap<K, V, S>);

/// The entries of a map from names to cells, in insertion order.
pub uninterp spec fn cell_entries(map: IndexMap<String, MiraAny>) -> Seq<(Seq<char>, MiraAny)>;

/// The entries of a map from names to optional slots, in insertion order.
pub uninterp spec fn slot_entries(map: IndexMap<String, Option<usize>>) -> Seq<(Seq<char>, Option<usize>)>;

/// The names of a sequence of entries.
pub open spec fn entry_names<V>(entries: Seq<(Seq<char>, V)>) -> Seq<Seq<char>> {
    entries.map_values(|entry: (Seq<char>, V)| entry.0)
}

/// The values of a sequence of entries.
pub open spec fn entry_values<V>(entries: Seq<(Seq<char>, V)>) -> Seq<V> {
    entries.map_values(|entry: (Seq<char>, V)| entry.1)
}

/// `IndexMap::new`: an empty map.
#[verifier::external_body]
fn cell_map_new() -> (r: IndexMap<String, MiraAny>)
    ensures
        cell_entries(r) == Seq::<(Seq<char>, MiraAny)>::empty(),
{
    IndexMap::new()
}

/// `IndexMap::len`: the number of entries.
#[verifier::external_body]
fn cell_map_len(map: &IndexMap<String, MiraAny>) -> (r: usize)
    ensures
        r == cell_entries(*map).len(),
{
    map.len()
}

/// `IndexMap::get_index_of`: the position of the entry whose key equals
/// `name`, or `None` when no key equals it.
#[verifier::external_body]
fn cell_map_get_index_of(map: &IndexMap<String, MiraAny>, name: &str) -> (r: Option<usize>)
    ensures
        match r {
            Some(i) => i < cell_entries(*map).len() && cell_entries(*map)[i as int].0 == name@,
            None => !entry_names(cell_entries(*map)).contains(name@),
        },
{
    map.get_index_of(name)
}

/// `IndexMap::insert_full`: when a key equals `name` its value is replaced
/// in place and the position and old value are returned; otherwise the
/// entry is appended and its position is returned with `None`.
#[verifier::external_body]
fn cell_map_insert_full(map: &mut IndexMap<String, MiraAny>, name: String, value: MiraAny) -> (r: (
    usize,
    Option<MiraAny>,
))
    ensures
        entry_names(cell_entries(*old(map))).contains(name@) ==> r.0 < cell_entries(*old(map)).len(),
        entry_names(cell_entries(*old(map))).contains(name@) ==> cell_entries(*old(map))[r.0 as int].0
            == name@,
        entry_names(cell_entries(*old(map))).contains(name@) ==> r.1 == Some(
            cell_entries(*old(map))[r.0 as int].1,
        ),
        entry_names(cell_entries(*old(map))).contains(name@) ==> cell_entries(*final(map))
            == cell_entries(*old(map)).update(r.0 as int, (name@, value)),
        !entry_names(cell_entries(*old(map))).contains(name@) ==> r.0 == cell_entries(*old(map)).len(),
        !entry_names(cell_entries(*old(map))).contains(name@) ==> r.1 is None,
        !entry_names(cell_entries(*old(map))).contains(name@) ==> cell_entries(*final(map))
            == cell_entries(*old(map)).push((name@, value)),
{
    map.insert_full(name, value)
}

/// `IndexMap::get_index`, key cloned: the key at a position, if in range.
#[verifier::external_body]
fn cell_map_key(map: &IndexMap<String, MiraAny>, index: usize) -> (r: Option<String>)
    ensures
        index < cell_entries(*map).len() ==> r is Some && r.unwrap()@ == cell_entries(*map)[index as int].0,
        index >= cell_entries(*map).len() ==> r is None,
{
    map.get_index(index).map(|(name, _)| name.clone())
}

/// `IndexMap::get_index`, value copied: the value at a position, if in range.
#[verifier::external_body]
fn cell_map_value(map: &IndexMap<String, MiraAny>, index: usize) -> (r: Option<MiraAny>)
    ensures
        index < cell_entries(*map).len() ==> r == Some(cell_entries(*map)[index as int].1),
        index >= cell_entries(*map).len() ==> r is None,
{
    map.get_index(index).map(|(_, value)| *value)
}

/// `IndexMap::get_index_mut`, then a store: the value at a position in
/// range is replaced; the keys stay.
#[verifier::external_body]
fn cell_map_set_value(map: &mut IndexMap<String, MiraAny>, index: usize, value: MiraAny)
    requires
        index < cell_entries(*old(map)).len(),
    ensures
        cell_entries(*final(map)) == cell_entries(*old(map)).update(
            index as int,
            (cell_entries(*old(map))[index as int].0, value),
        ),
{
    if let Some((_, slot)) = map.get_index_mut(index) {
        *slot = value;
    }
}

/// The cells of the standard library, by name, in installation order.
pub struct CellTable {
    map: IndexMap<String, MiraAny>,
}

impl View for CellTable {
    type V = Seq<(Seq<char>, MiraAny)>;

    closed spec fn view(&self) -> Seq<(Seq<char>, MiraAny)> {
        cell_entries(self.map)
    }
}

impl CellTable {
    /// The names, in insertion order.
    pub open spec fn names(&self) -> Seq<Seq<char>> {
        entry_names(self@)
    }

    /// The cells, in insertion order.
    pub open spec fn cells(&self) -> Seq<MiraAny> {
        entry_values(self@)
    }

    /// Names are never repeated.
    pub open spec fn wf(&self) -> bool {
        self.names().no_duplicates()
    }

    /// An empty table.
    pub fn new() -> (r: Self)
        ensures
            r.wf(),
            r@ == Seq::<(Seq<char>, MiraAny)>::empty(),
    {
        let r = CellTable { map: cell_map_new() };
        assert(r.names() =~= Seq::<Seq<char>>::empty());
        r
    }

    /// The number of entries.
    pub fn len(&self) -> (r: usize)
        ensures
            r == self@.len(),
    {
        cell_map_len(&self.map)
    }

    /// The position of a name, if present.
    pub fn index_of(&self, name: &str) -> (r: Option<usize>)
        ensures
            match r {
                Some(i) => i < self@.len() && self.names()[i as int] == name@,
                None => !self.names().contains(name@),
            },
    {
        cell_map_get_index_of(&self.map, name)
    }

    /// Append a name that is not present with its cell; returns its position.
    pub fn push(&mut self, name: String, cell: MiraAny) -> (r: usize)
        requires
            old(self).wf(),
            !old(self).names().contains(name@),
        ensures
            final(self).wf(),
            r == old(self)@.len(),
            final(self)@ == old(self)@.push((name@, cell)),
    {
        let (index, _) = cell_map_insert_full(&mut self.map, name, cell);
        proof {
            assert(self.names() =~= old(self).names().push(name@));
            assert forall|i: int, j: int|
                0 <= i < self.names().len() && 0 <= j < self.names().len() && i != j implies self.names()[i]
                != self.names()[j] by {
                if i == old(self)@.len() as int {
                    assert(old(self).names().contains(self.names()[j]));
                } else if j == old(self)@.len() as int {
                    assert(old(self).names().contains(self.names()[i]));
                }
            }
        }
        index
    }

    /// The name at a position, if in range.
    pub fn name(&self, index: usize) -> (r: Option<String>)
        ensures
            index < self@.len() ==> r is Some && r.unwrap()@ == self.names()[index as int],
            index >= self@.len() ==> r is None,
    {
        cell_map_key(&self.map, index)
    }

    /// The cell at a position in range.
    pub fn cell(&self, index: usize) -> (r: MiraAny)
        requires
            index < self@.len(),
        ensures
            r == self.cells()[index as int],
    {
        match cell_map_value(&self.map, index) {
            Some(cell) => cell,
            None => MiraAny::uninitialized(),
        }
    }

    /// Replace the cell at a position in range; the names stay.
    pub fn set(&mut self, index: usize, cell: MiraAny)
        requires
            old(self).wf(),
            index < old(self)@.len(),
        ensures
            final(self).wf(),
            final(self).names() == old(self).names(),
            final(self).cells() == old(self).cells().update(index as int, cell),
    {
        cell_map_set_value(&mut self.map, index, cell);
        proof {
            assert(self.names() =~= old(self).names());
            assert(self.cells() =~= old(self).cells().update(index as int, cell));
        }
    }
}

/// `IndexMap::new`: an empty map.
#[verifier::external_body]
fn slot_map_new() -> (r: IndexMap<String, Option<usize>>)
    ensures
        slot_entries(r) == Seq::<(Seq<char>, Option<usize>)>::empty(),
{
    IndexMap::new()
}

/// `IndexMap::len`: the number of entries.
#[verifier::external_body]
fn slot_map_len(map: &IndexMap<String, Option<usize>>) -> (r: usize)
    ensures
        r == slot_entries(*map).len(),
{
    map.len()
}

/// `IndexMap::get_index_of`: the position of the entry whose key equals
/// `name`, or `None` when no key equals it.
#[verifier::external_body]
fn slot_map_get_index_of(map: &IndexMap<String, Option<usize>>, name: &str) -> (r: Option<usize>)
    ensures
        match r {
            Some(i) => i < slot_entries(*map).len() && slot_entries(*map)[i as int].0 == name@,
            None => !entry_names(slot_entries(*map)).contains(name@),
        },
{
    map.get_index_of(name)
}

/// `IndexMap::insert_full`: when a key equals `name` its value is replaced
/// in place and the position and old value are returned; otherwise the
/// entry is appended and its position is returned with `None`.
#[verifier::external_body]
fn slot_map_insert_full(map: &mut IndexMap<String, Option<usize>>, name: String, slot: Option<usize>) -> (r: (
    usize,
    Option<Option<usize>>,
))
    ensures
        entry_names(slot_entries(*old(map))).contains(name@) ==> r.0 < slot_entries(*old(map)).len(),
        entry_names(slot_entries(*old(map))).contains(name@) ==> slot_entries(*old(map))[r.0 as int].0
            == name@,
        entry_names(slot_entries(*old(map))).contains(name@) ==> r.1 == Some(
            slot_entries(*old(map))[r.0 as int].1,
        ),
        entry_names(slot_entries(*old(map))).contains(name@) ==> slot_entries(*final(map))
            == slot_entries(*old(map)).update(r.0 as int, (name@, slot)),
        !entry_names(slot_entries(*old(map))).contains(name@) ==> r.0 == slot_entries(*old(map)).len(),
        !entry_names(slot_entries(*old(map))).contains(name@) ==> r.1 is None,
        !entry_names(slot_entries(*old(map))).contains(name@) ==> slot_entries(*final(map))
            == slot_entries(*old(map)).push((name@, slot)),
{
    map.insert_full(name, slot)
}

/// `IndexMap::get_index`, key cloned and value copied: the entry at a
/// position, if in range.
#[verifier::external_body]
fn slot_map_entry(map: &IndexMap<String, Option<usize>>, index: usize) -> (r: Option<(String, Option<usize>)>)
    ensures
        index < slot_entries(*map).len() ==> r is Some && r.unwrap().0@ == slot_entries(*map)[index as int].0
            && r.unwrap().1 == slot_entries(*map)[index as int].1,
        index >= slot_entries(*map).len() ==> r is None,
{
    map.get_index(index).map(|(name, slot)| (name.clone(), *slot))
}

/// The global names of a program in order of first use, each with its
/// standard-library slot.
pub struct SlotTable {
    map: IndexMap<String, Option<usize>>,
}

impl View for SlotTable {
    type V = Seq<(Seq<char>, Option<usize>)>;

    closed spec fn view(&self) -> Seq<(Seq<char>, Option<usize>)> {
        slot_entries(self.map)
    }
}

impl SlotTable {
    /// The names, in order of first use.
    pub open spec fn names(&self) -> Seq<Seq<char>> {
        entry_names(self@)
    }

    /// Names are never repeated.
    pub open spec fn wf(&self) -> bool {
        self.names().no_duplicates()
    }

    /// An empty table.
    pub fn new() -> (r: Self)
        ensures
            r.wf(),
            r@ == Seq::<(Seq<char>, Option<usize>)>::empty(),
    {
        let r = SlotTable { map: slot_map_new() };
        assert(r.names() =~= Seq::<Seq<char>>::empty());
        r
    }

    /// The number of entries.
    pub fn len(&self) -> (r: usize)
        ensures
            r == self@.len(),
    {
        slot_map_len(&self.map)
    }

    /// The position of a name, if present.
    pub fn index_of(&self, name: &str) -> (r: Option<usize>)
        ensures
            match r {
                Some(i) => i < self@.len() && self.names()[i as int] == name@,
                None => !self.names().contains(name@),
            },
    {
        slot_map_get_index_of(&self.map, name)
    }

    /// Append a name that is not present with its slot; returns its position.
    pub fn push(&mut self, name: String, slot: Option<usize>) -> (r: usize)
        requires
            old(self).wf(),
            !old(self).names().contains(name@),
        ensures
            final(self).wf(),
            r == old(self)@.len(),
            final(self)@ == old(self)@.push((name@, slot)),
    {
        let (index, _) = slot_map_insert_full(&mut self.map, name, slot);
        proof {
            assert(self.names() =~= old(self).names().push(name@));
            assert forall|i: int, j: int|
                0 <= i < self.names().len() && 0 <= j < self.names().len() && i != j implies self.names()[i]
                != self.names()[j] by {
                if i == old(self)@.len() as int {
                    assert(old(self).names().contains(self.names()[j]));
                } else if j == old(self)@.len() as int {
                    assert(old(self).names().contains(self.names()[i]));
                }
            }
        }
        index
    }

    /// The entry at a position, if in range.
    pub fn entry(&self, index: usize) -> (r: Option<(String, Option<usize>)>)
        ensures
            index < self@.len() ==> r is Some && r.unwrap().0@ == self@[index as int].0 && r.unwrap().1
                == self@[index as int].1,
            index >= self@.len() ==> r is None,
    {
        slot_map_entry(&self.map, index)
    }
}

} // verus!
