//! The global namespace: standard-library globals and host-provided globals.
use vstd::prelude::*;

use crate::tables::CellTable;
use crate::register::MiraAny;
use crate::value::MiraValue;

verus! {

/// Compares two strings (`<str as PartialEq>::eq`): equal exactly when
/// their characters are equal.
#[verifier::external_body]
pub(crate) fn str_eq(left: &str, right: &str) -> (r: bool)
    ensures
        r == (left@ == right@),
{
    left == right
}

/// What a global cell shows to scripts: its value, unless unwritten.
pub open spec fn spec_read_global(value: Option<MiraAny>) -> Option<MiraValue> {
    match value {
        Some(cell) => if cell.0 is Uninitialized {
            None
        } else {
            Some(cell.0)
        },
        None => None,
    }
}

/// What a global cell shows to scripts: its value, unless unwritten.
pub fn read_global(value: Option<MiraAny>) -> (r: Option<MiraValue>)
    ensures
        r == spec_read_global(value),
{
    match value {
        Some(value) => {
            if !value.is_uninitialized() {
                Some(value.unwrap())
            } else {
                None
            }
        },
        None => None,
    }
}

/// The characters of each string.
pub open spec fn string_views(strings: Seq<String>) -> Seq<Seq<char>> {
    strings.map_values(|s: String| s@)
}

/// The value that `names` and `values` associate with `name`.
pub open spec fn lookup(names: Seq<Seq<char>>, values: Seq<MiraAny>, name: Seq<char>) -> Option<MiraAny> {
    if names.contains(name) {
        Some(values[names.index_of(name)])
    } else {
        None
    }
}

/// In a sequence without repeats, a name's position is the one it is found at.
pub proof fn lemma_index_of_unique(names: Seq<Seq<char>>, index: int, name: Seq<char>)
    requires
        names.no_duplicates(),
        0 <= index < names.len(),
        names[index] == name,
    ensures
        names.contains(name),
        names.index_of(name) == index,
{
    assert(names.contains(name));
}

/// Host-provided globals, in insertion order.
pub struct GlobalData {
    entries: Vec<(String, MiraAny)>,
}

impl GlobalData {
    /// The names, in insertion order.
    pub closed spec fn names(&self) -> Seq<Seq<char>> {
        self.entries@.map_values(|entry: (String, MiraAny)| entry.0@)
    }

    /// The cells, in insertion order.
    pub closed spec fn values(&self) -> Seq<MiraAny> {
        self.entries@.map_values(|entry: (String, MiraAny)| entry.1)
    }

    /// Names are never repeated.
    pub open spec fn wf(&self) -> bool {
        &&& self.names().no_duplicates()
        &&& self.names().len() == self.values().len()
    }

    /// The cell of a name, if present.
    pub open spec fn cell(&self, name: Seq<char>) -> Option<MiraAny> {
        lookup(self.names(), self.values(), name)
    }

    /// No globals.
    pub fn new() -> (r: Self)
        ensures
            r.wf(),
            r.names() == Seq::<Seq<char>>::empty(),
    {
        let r = GlobalData { entries: Vec::new() };
        assert(r.names() =~= Seq::<Seq<char>>::empty());
        r
    }

    /// The position of a name, if present.
    fn position(&self, name: &str) -> (r: Option<usize>)
        requires
            self.wf(),
        ensures
            match r {
                Some(i) => i < self.names().len() && self.names()[i as int] == name@,
                None => !self.names().contains(name@),
            },
    {
        let mut index: usize = 0;
        while index < self.entries.len()
            invariant
                index <= self.entries@.len(),
                forall|j: int| 0 <= j < index ==> self.names()[j] != name@,
            decreases self.entries@.len() - index,
        {
            if str_eq(self.entries[index].0.as_str(), name) {
                return Some(index);
            }
            index = index + 1;
        }
        None
    }

    /// The value of a global, unless absent or unwritten.
    pub fn get(&self, name: &str) -> (r: Option<MiraValue>)
        requires
            self.wf(),
        ensures
            r == spec_read_global(self.cell(name@)),
    {
        match self.position(name) {
            Some(index) => {
                proof {
                    lemma_index_of_unique(self.names(), index as int, name@);
                }
                read_global(Some(self.entries[index].1))
            },
            None => read_global(None),
        }
    }

    /// Set a global, appending it when new; returns what it showed before.
    pub fn insert(&mut self, name: String, value: MiraValue) -> (r: Option<MiraValue>)
        requires
            old(self).wf(),
        ensures
            final(self).wf(),
            r == spec_read_global(old(self).cell(name@)),
            old(self).names().contains(name@) ==> final(self).names() == old(self).names(),
            !old(self).names().contains(name@) ==> final(self).names() == old(self).names().push(name@),
            final(self).cell(name@) == Some(MiraAny(value)),
            forall|other: Seq<char>| other != name@ ==> #[trigger] final(self).cell(other) == old(self).cell(other),
    {
        match self.position(name.as_str()) {
            Some(index) => {
                proof {
                    lemma_index_of_unique(self.names(), index as int, name@);
                }
                let previous = self.entries[index].1;
                let entry_name = self.entries[index].0.clone();
                self.entries.set(index, (entry_name, MiraAny::from(value)));
                proof {
                    assert(self.names() =~= old(self).names());
                    assert(self.values() =~= old(self).values().update(index as int, MiraAny(value)));
                    lemma_index_of_unique(self.names(), index as int, name@);
                }
                read_global(Some(previous))
            },
            None => {
                let ghost before = self.names();
                self.entries.push((name, MiraAny::from(value)));
                proof {
                    assert(self.names() =~= before.push(name@));
                    assert(self.values() =~= old(self).values().push(MiraAny(value)));
                    assert forall|i: int, j: int|
                        0 <= i < self.names().len() && 0 <= j < self.names().len() && i != j
                        implies self.names()[i] != self.names()[j] by {
                        if i == before.len() as int {
                            assert(before.contains(self.names()[j]));
                        } else if j == before.len() as int {
                            assert(before.contains(self.names()[i]));
                        }
                    }
                    lemma_index_of_unique(self.names(), before.len() as int, name@);
                    assert forall|other: Seq<char>| other != name@ implies #[trigger] self.cell(other)
                        == old(self).cell(other) by {
                        if before.contains(other) {
                            let k = before.index_of(other);
                            lemma_index_of_unique(self.names(), k, other);
                        }
                    }
                }
                read_global(None)
            },
        }
    }

    /// Whether a name is present (written or not).
    pub fn contains_key(&self, name: &str) -> (r: bool)
        requires
            self.wf(),
        ensures
            r == self.names().contains(name@),
    {
        self.position(name).is_some()
    }

    /// The number of globals.
    pub fn len(&self) -> (r: usize)
        ensures
            r == self.names().len(),
    {
        self.entries.len()
    }

    /// The names, in insertion order.
    pub fn keys(&self) -> (r: Vec<String>)
        ensures
            string_views(r@) == self.names(),
    {
        let mut result: Vec<String> = Vec::new();
        let mut index: usize = 0;
        while index < self.entries.len()
            invariant
                index <= self.entries@.len(),
                result@.len() == index,
                forall|j: int| 0 <= j < index ==> #[trigger] result@[j]@ == self.names()[j],
            decreases self.entries@.len() - index,
        {
            let name = self.entries[index].0.clone();
            result.push(name);
            index = index + 1;
        }
        assert(string_views(result@) =~= self.names());
        result
    }
}

/// The global namespace of a runtime: the standard library, installed
/// first, then host-provided globals.
pub struct Globals {
    std: CellTable,
    context: GlobalData,
}

impl Globals {
    /// The standard-library names, in installation order.
    pub closed spec fn std_names(&self) -> Seq<Seq<char>> {
        self.std.names()
    }

    /// The standard-library cells, in installation order.
    pub closed spec fn std_values(&self) -> Seq<MiraAny> {
        self.std.cells()
    }

    /// The host-provided names, in insertion order.
    pub closed spec fn context_names(&self) -> Seq<Seq<char>> {
        self.context.names()
    }

    /// The cell of a host-provided global.
    pub closed spec fn context_cell(&self, name: Seq<char>) -> Option<MiraAny> {
        self.context.cell(name)
    }

    /// The internal consistency of the namespace: no name repeats, and no
    /// name is both a standard-library and a host-provided global.
    pub closed spec fn wf(&self) -> bool {
        &&& self.std.wf()
        &&& self.std.names().len() == self.std.cells().len()
        &&& self.context.wf()
        &&& forall|name: Seq<char>|
            #[trigger] self.std.names().contains(name) ==> !self.context.names().contains(name)
    }

    /// Every global name: the standard library's, then the host's.
    pub open spec fn names(&self) -> Seq<Seq<char>> {
        self.std_names() + self.context_names()
    }

    /// The cell that a name refers to, if it is defined.
    pub open spec fn cell(&self, name: Seq<char>) -> Option<MiraAny> {
        if self.context_names().contains(name) {
            self.context_cell(name)
        } else {
            lookup(self.std_names(), self.std_values(), name)
        }
    }

    /// What a name shows to scripts: the value of its cell, unless the name
    /// is undefined or its cell unwritten.
    pub open spec fn visible(&self, name: Seq<char>) -> Option<MiraValue> {
        spec_read_global(self.cell(name))
    }

    proof fn lemma_cell_defined(&self, name: Seq<char>)
        requires
            self.wf(),
        ensures
            self.cell(name) is Some <==> self.names().contains(name),
    {
        if self.names().contains(name) {
            let i = self.names().index_of(name);
            if i < self.std_names().len() {
                assert(self.std_names().contains(name));
            } else {
                assert(self.context_names()[i - self.std_names().len()] == name);
                assert(self.context_names().contains(name));
            }
        }
        if self.context_names().contains(name) {
            let i = self.context_names().index_of(name);
            assert(self.names()[i + self.std_names().len()] == name);
        } else if self.std_names().contains(name) {
            let i = self.std_names().index_of(name);
            assert(self.names()[i] == name);
        }
    }

    /// An empty namespace.
    pub fn new() -> (r: Self)
        ensures
            r.wf(),
            r.names() == Seq::<Seq<char>>::empty(),
    {
        let r = Globals { std: CellTable::new(), context: GlobalData::new() };
        assert(r.names() =~= Seq::<Seq<char>>::empty());
        r
    }

    /// Install a standard-library global; returns its slot. The standard
    /// library is installed before any host global, under distinct names and
    /// with written values.
    pub fn insert_std(&mut self, name: String, value: MiraValue) -> (r: usize)
        requires
            old(self).wf(),
            !old(self).std_names().contains(name@),
            old(self).context_names().len() == 0,
            !(value is Uninitialized),
        ensures
            final(self).wf(),
            r == old(self).std_names().len(),
            final(self).std_names() == old(self).std_names().push(name@),
            final(self).context_names().len() == 0,
            final(self).names() == old(self).names().push(name@),
            final(self).cell(name@) == Some(MiraAny(value)),
            forall|other: Seq<char>| other != name@ ==> #[trigger] final(self).cell(other) == old(self).cell(other),
    {
        let ghost before = self.std.names();
        let slot = self.std.push(name, MiraAny::from(value));
        proof {
            assert(self.std.names() =~= before.push(name@));
            assert(self.std.cells() =~= old(self).std.cells().push(MiraAny(value)));
        }
        proof {
            assert(self.context.names().len() == 0);
            assert forall|n: Seq<char>| #[trigger] self.std.names().contains(n) implies !self.context.names().contains(n) by {}
            assert(self.names() =~= old(self).names().push(name@)) by {
                assert(old(self).names() =~= before);
                assert(self.names() =~= self.std.names());
            }
            lemma_index_of_unique(self.std.names(), before.len() as int, name@);
            assert forall|other: Seq<char>| other != name@ implies #[trigger] self.cell(other)
                == old(self).cell(other) by {
                if before.contains(other) {
                    let k = before.index_of(other);
                    lemma_index_of_unique(self.std.names(), k, other);
                }
            }
        }
        slot
    }

    /// Set a global. A standard-library name keeps its slot; an unknown
    /// name is appended to the host globals. Returns what the name showed
    /// before.
    pub fn insert(&mut self, name: String, value: MiraValue) -> (r: Option<MiraValue>)
        requires
            old(self).wf(),
        ensures
            final(self).wf(),
            r == old(self).visible(name@),
            old(self).names().contains(name@) ==> final(self).names() == old(self).names(),
            !old(self).names().contains(name@) ==> final(self).names() == old(self).names().push(name@),
            final(self).std_names() == old(self).std_names(),
            final(self).cell(name@) == Some(MiraAny(value)),
            !(value is Uninitialized) ==> final(self).visible(name@) == Some(value),
            value is Uninitialized ==> final(self).visible(name@) is None,
            forall|other: Seq<char>| other != name@ ==> #[trigger] final(self).cell(other) == old(self).cell(other),
    {
        proof {
            old(self).lemma_cell_defined(name@);
        }
        match self.std.index_of(name.as_str()) {
            Some(index) => {
                proof {
                    lemma_index_of_unique(self.std.names(), index as int, name@);
                }
                let previous = self.std.cell(index);
                self.std.set(index, MiraAny::from(value));
                proof {
                    assert(!self.context.names().contains(name@));
                    lemma_index_of_unique(self.std.names(), index as int, name@);
                    assert forall|other: Seq<char>| other != name@ implies #[trigger] self.cell(other)
                        == old(self).cell(other) by {
                        if self.std.names().contains(other) {
                            let k = self.std.names().index_of(other);
                            lemma_index_of_unique(self.std.names(), k, other);
                        }
                    }
                }
                read_global(Some(previous))
            },
            None => {
                let ghost before = self.context.names();
                let previous = self.context.insert(name, value);
                proof {
                    assert forall|n: Seq<char>| #[trigger] self.std.names().contains(n) implies !self.context.names().contains(n) by {
                        if before.contains(n) {
                        } else if n != name@ {
                            if self.context.names().contains(n) {
                                let k = self.context.names().index_of(n);
                                if k < before.len() {
                                    assert(before[k] == n);
                                }
                            }
                        }
                    }
                    if before.contains(name@) {
                        assert(self.names() =~= old(self).names());
                    } else {
                        assert(self.names() =~= old(self).names().push(name@));
                    }
                    lemma_index_of_unique(self.context.names(), self.context.names().index_of(name@), name@);
                    assert forall|other: Seq<char>| other != name@ implies #[trigger] self.cell(other)
                        == old(self).cell(other) by {
                        if self.context.names().contains(other) {
                            let k = self.context.names().index_of(other);
                            if k < before.len() {
                                assert(before[k] == other);
                            }
                        }
                    }
                }
                previous
            },
        }
    }

    /// What a name shows to scripts.
    pub fn get(&self, name: &str) -> (r: Option<MiraValue>)
        requires
            self.wf(),
        ensures
            r == self.visible(name@),
    {
        if self.context.contains_key(name) {
            self.context.get(name)
        } else {
            match self.std.index_of(name) {
                Some(index) => {
                    proof {
                        lemma_index_of_unique(self.std.names(), index as int, name@);
                    }
                    read_global(Some(self.std.cell(index)))
                },
                None => read_global(None),
            }
        }
    }

    /// What a name shows to scripts, looked up by its standard-library slot
    /// when a slot is given and in range; that slot holds the same name.
    pub fn get_hint(&self, name: &str, index: Option<usize>) -> (r: Option<MiraValue>)
        requires
            self.wf(),
            index is Some && index.unwrap() < self.std_names().len() ==> self.std_names()[index.unwrap() as int] == name@,
        ensures
            r == self.visible(name@),
    {
        match index {
            Some(slot) => {
                if slot < self.std.len() {
                    proof {
                        lemma_index_of_unique(self.std.names(), slot as int, name@);
                    }
                    read_global(Some(self.std.cell(slot)))
                } else {
                    self.get(name)
                }
            },
            None => self.get(name),
        }
    }

    /// Whether a name is defined: it names a global whose cell is written.
    /// A removed global is no longer defined.
    pub fn contains_key(&self, name: &str) -> (r: bool)
        requires
            self.wf(),
        ensures
            r == self.visible(name@) is Some,
    {
        self.get(name).is_some()
    }

    /// Remove a global: it is no longer defined. A standard-library name
    /// keeps its slot and a host name its place, with an unwritten cell.
    /// Returns what the name showed before; an undefined name is left as it
    /// was and gives `None`.
    pub fn remove(&mut self, name: &str) -> (r: Option<MiraValue>)
        requires
            old(self).wf(),
        ensures
            final(self).wf(),
            final(self).names() == old(self).names(),
            final(self).std_names() == old(self).std_names(),
            r == old(self).visible(name@),
            old(self).visible(name@) is None ==> final(self).cell(name@) == old(self).cell(name@),
            old(self).visible(name@) is Some ==> final(self).cell(name@) == Some(
                MiraAny(MiraValue::Uninitialized),
            ),
            final(self).visible(name@) is None,
            forall|other: Seq<char>| other != name@ ==> #[trigger] final(self).cell(other) == old(self).cell(other),
    {
        if !self.contains_key(name) {
            proof {
                old(self).lemma_cell_defined(name@);
            }
            None
        } else {
            proof {
                old(self).lemma_cell_defined(name@);
            }
            self.insert(name.to_owned(), MiraValue::uninitialized())
        }
    }

    /// The slot of a standard-library name, if it is one.
    pub fn std_slot(&self, name: &str) -> (r: Option<usize>)
        requires
            self.wf(),
        ensures
            match r {
                Some(i) => i < self.std_names().len() && self.std_names()[i as int] == name@,
                None => !self.std_names().contains(name@),
            },
    {
        self.std.index_of(name)
    }

    /// Every global name, the standard library's first, each in the order
    /// it was defined.
    pub fn keys(&self) -> (r: Vec<String>)
        requires
            self.wf(),
        ensures
            string_views(r@) == self.names(),
    {
        let mut result: Vec<String> = Vec::new();
        let count = self.std.len();
        let mut index: usize = 0;
        while index < count
            invariant
                count == self.std.names().len(),
                index <= count,
                result@.len() == index,
                forall|j: int| 0 <= j < index ==> #[trigger] result@[j]@ == self.std.names()[j],
            decreases count - index,
        {
            match self.std.name(index) {
                Some(name) => result.push(name),
                None => {},
            }
            index = index + 1;
        }
        let context = self.context.keys();
        let mut index: usize = 0;
        while index < context.len()
            invariant
                count == self.std.names().len(),
                index <= context@.len(),
                result@.len() == count + index,
                string_views(context@) == self.context.names(),
                forall|j: int| 0 <= j < count ==> #[trigger] result@[j]@ == self.std.names()[j],
                forall|j: int| 0 <= j < index ==> #[trigger] result@[count + j]@ == context@[j]@,
            decreases context@.len() - index,
        {
            let name = context[index].clone();
            result.push(name);
            index = index + 1;
        }
        proof {
            assert forall|j: int| 0 <= j < result@.len() implies #[trigger] string_views(result@)[j]
                == self.names()[j] by {
                if j >= count {
                    let k = j - count;
                    assert(result@[count + k]@ == context@[k]@);
                    assert(string_views(context@)[k] == context@[k]@);
                }
            }
            assert(string_views(result@) =~= self.names());
        }
        result
    }
}

} // verus!
