//! Typed variable cells, and the name-keyed table that holds them (and the
//! jump labels).
use vstd::prelude::*;
use crate::instructions::Type;

verus! {

/// A typed variable slot: its type, and its value once set.
///
/// A `flt` value is held as the bit pattern of its IEEE-754 double.
#[derive(Clone, Copy, Debug, PartialEq, Eq, Structural)]
pub enum Cll {
    Int(Option<i32>),
    Flt(Option<u64>),
    Chr(Option<char>),
}

impl Cll {
    /// The type of the cell.
    pub open spec fn spec_tag(&self) -> Type {
        match self {
            Cll::Int(_) => Type::Int,
            Cll::Flt(_) => Type::Flt,
            Cll::Chr(_) => Type::Chr,
        }
    }

    /// The cell holds a value.
    pub open spec fn spec_is_set(&self) -> bool {
        match self {
            Cll::Int(v) => v is Some,
            Cll::Flt(v) => v is Some,
            Cll::Chr(v) => v is Some,
        }
    }

    /// The uninitialised cell of a type.
    pub open spec fn spec_empty(t: Type) -> Cll {
        match t {
            Type::Int => Cll::Int(None),
            Type::Flt => Cll::Flt(None),
            Type::Chr => Cll::Chr(None),
        }
    }

    /// The type of the cell.
    #[verifier::when_used_as_spec(spec_tag)]
    pub fn tag(&self) -> (r: Type)
        ensures
            r == self.spec_tag(),
    {
        match self {
            Cll::Int(_) => Type::Int,
            Cll::Flt(_) => Type::Flt,
            Cll::Chr(_) => Type::Chr,
        }
    }

    /// Whether the cell holds a value.
    #[verifier::when_used_as_spec(spec_is_set)]
    pub fn is_set(&self) -> (r: bool)
        ensures
            r == self.spec_is_set(),
    {
        match self {
            Cll::Int(v) => v.is_some(),
            Cll::Flt(v) => v.is_some(),
            Cll::Chr(v) => v.is_some(),
        }
    }

    /// The uninitialised cell of a type.
    pub fn empty(t: Type) -> (r: Cll)
        ensures
            r == Cll::spec_empty(t),
    {
        match t {
            Type::Int => Cll::Int(None),
            Type::Flt => Cll::Flt(None),
            Type::Chr => Cll::Chr(None),
        }
    }
}

/// A table from names to values, with at most one entry per name.
pub struct Table<V: Copy> {
    entries: Vec<(String, V)>,
    contents: Ghost<Map<Seq<char>, V>>,
}

/// The variable store.
pub type Mem = Table<Cll>;

impl<V: Copy> Table<V> {
    #[verifier::type_invariant]
    spec fn wf(&self) -> bool {
        &&& forall|i: int, j: int|
            0 <= i < j < self.entries.len() ==> (#[trigger] self.entries[i].0)@
                != (#[trigger] self.entries[j].0)@
        &&& forall|i: int|
            0 <= i < self.entries.len() ==> self.contents@.contains_key(
                (#[trigger] self.entries[i].0)@,
            ) && self.contents@[self.entries[i].0@] == self.entries[i].1
        &&& forall|k: Seq<char>|
            #[trigger] self.contents@.contains_key(k) ==> exists|i: int|
                0 <= i < self.entries.len() && (#[trigger] self.entries[i].0)@ == k
    }

    /// What the table holds.
    pub closed spec fn view(&self) -> Map<Seq<char>, V> {
        self.contents@
    }

    /// An empty table.
    pub fn new() -> (r: Self)
        ensures
            r.view() == Map::<Seq<char>, V>::empty(),
    {
        Table { entries: Vec::new(), contents: Ghost(Map::empty()) }
    }

    /// The number of names in the table.
    pub fn len(&self) -> (r: usize)
        ensures
            r == self.view().len(),
    {
        proof {
            use_type_invariant(self);
            self.lemma_len();
        }
        self.entries.len()
    }

    proof fn lemma_len(&self)
        requires
            self.wf(),
        ensures
            self.contents@.dom().finite(),
            self.contents@.len() == self.entries.len(),
    {
        let keys = Seq::new(self.entries.len() as nat, |i: int| self.entries[i].0@);
        assert(keys.no_duplicates());
        assert(self.contents@.dom() =~= keys.to_set()) by {
            assert forall|k: Seq<char>| self.contents@.dom().contains(k) implies keys.to_set().contains(k) by {
                let i = choose|i: int| 0 <= i < self.entries.len() && (#[trigger] self.entries[i].0)@ == k;
                assert(keys[i] == k);
            }
            assert forall|k: Seq<char>| keys.to_set().contains(k) implies self.contents@.dom().contains(k) by {
                let i = choose|i: int| 0 <= i < keys.len() && keys[i] == k;
                assert(self.contents@.contains_key(self.entries[i].0@));
            }
        }
        keys.unique_seq_to_set();
    }

    fn find(&self, name: &String) -> (r: Option<usize>)
        requires
            self.wf(),
        ensures
            match r {
                Some(i) => i < self.entries.len() && self.entries[i as int].0@ == name@,
                None => !self.contents@.contains_key(name@),
            },
    {
        let mut i: usize = 0;
        while i < self.entries.len()
            invariant
                self.wf(),
                i <= self.entries.len(),
                forall|j: int| 0 <= j < i ==> (#[trigger] self.entries[j].0)@ != name@,
            decreases self.entries.len() - i,
        {
            if self.entries[i].0 == *name {
                return Some(i);
            }
            i = i + 1;
        }
        None
    }

    /// The value stored under `name`, if any.
    pub fn get(&self, name: &String) -> (r: Option<V>)
        ensures
            r == (if self.view().contains_key(name@) {
                Some(self.view()[name@])
            } else {
                None
            }),
    {
        proof {
            use_type_invariant(self);
        }
        match self.find(name) {
            Some(i) => Some(self.entries[i].1),
            None => None,
        }
    }

    /// Stores `value` under `name`, replacing what was there.
    pub fn insert(&mut self, name: String, value: V)
        ensures
            final(self).view() == old(self).view().insert(name@, value),
    {
        proof {
            use_type_invariant(&*self);
        }
        let ghost key = name@;
        let ghost m = self.contents@.insert(key, value);
        let found = self.find(&name);
        let mut taken = Table::new();
        std::mem::swap(self, &mut taken);
        proof {
            use_type_invariant(&taken);
        }
        let ghost old_contents = taken.contents@;
        let Table { mut entries, contents: _ } = taken;
        let ghost old_entries = entries@;
        match found {
            Some(i) => {
                entries.set(i, (name, value));
                proof {
                    assert forall|k: Seq<char>| #[trigger] m.contains_key(k) implies exists|j: int|
                        0 <= j < entries.len() && (#[trigger] entries[j].0)@ == k by {
                        if k != key {
                            let j = choose|j: int|
                                0 <= j < old_entries.len() && (#[trigger] old_entries[j].0)@ == k;
                            assert(entries[j] == old_entries[j]);
                        } else {
                            assert(entries[i as int].0@ == k);
                        }
                    }
                }
            },
            None => {
                entries.push((name, value));
                proof {
                    let n = old_entries.len() as int;
                    assert forall|j: int| 0 <= j < n implies (#[trigger] entries[j].0)@ != key by {
                        assert(entries[j] == old_entries[j]);
                        assert(old_contents.contains_key(old_entries[j].0@));
                    }
                    assert(entries[n].0@ == key);
                    assert forall|k: Seq<char>| #[trigger] m.contains_key(k) implies exists|j: int|
                        0 <= j < entries.len() && (#[trigger] entries[j].0)@ == k by {
                        if k != key {
                            let j = choose|j: int|
                                0 <= j < old_entries.len() && (#[trigger] old_entries[j].0)@ == k;
                            assert(entries[j] == old_entries[j]);
                        }
                    }
                }
            },
        }
        assert(old_contents == old(self).contents@);
        assert(forall|i: int, j: int|
            0 <= i < j < entries.len() ==> (#[trigger] entries[i].0)@
                != (#[trigger] entries[j].0)@);
        assert(forall|i: int|
            0 <= i < entries.len() ==> m.contains_key(
                (#[trigger] entries[i].0)@,
            ) && m[entries[i].0@] == entries[i].1);
        assert(forall|k: Seq<char>|
            #[trigger] m.contains_key(k) ==> exists|i: int|
                0 <= i < entries.len() && (#[trigger] entries[i].0)@ == k);
        let ghost g = Table::<V> { entries: entries, contents: Ghost(m) };
        assert(g.entries == entries);
        assert(g.contents@ == m);
        assert(g.wf());
        let t = Table { entries, contents: Ghost(m) };
        *self = t;
    }
}

} // verus!
