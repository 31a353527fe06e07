//! A map from names to values that keeps its entries in the order of
//! their names.

use vstd::prelude::*;
use crate::names::{
    name_order, name_precedes, name_precedes_asymmetric, name_precedes_transitive, NameOrder,
};

verus! {

/// Each entry's name comes strictly before the names of all later entries.
pub open spec fn ascending_names<V>(entries: Seq<(Seq<char>, V)>) -> bool {
    forall|i: int, j: int|
        0 <= i < j < entries.len() ==> name_precedes(#[trigger] entries[i].0, #[trigger] entries[j].0)
}

/// Some entry has the given name.
pub open spec fn binds<V>(entries: Seq<(Seq<char>, V)>, name: Seq<char>) -> bool {
    exists|i: int| 0 <= i < entries.len() && (#[trigger] entries[i]).0 == name
}

/// The place of an entry of the given name.
pub open spec fn index_of<V>(entries: Seq<(Seq<char>, V)>, name: Seq<char>) -> int {
    choose|i: int| 0 <= i < entries.len() && (#[trigger] entries[i]).0 == name
}

/// The map that a list of entries with distinct names writes down.
pub open spec fn entries_map<V>(entries: Seq<(Seq<char>, V)>) -> Map<Seq<char>, V> {
    Map::new(|name: Seq<char>| binds(entries, name), |name: Seq<char>| entries[index_of(entries, name)].1)
}

/// In a list with ascending names, an entry's name is bound, and to that
/// entry alone.
pub proof fn entry_is_bound<V>(entries: Seq<(Seq<char>, V)>, i: int)
    requires
        ascending_names(entries),
        0 <= i < entries.len(),
    ensures
        binds(entries, entries[i].0),
        index_of(entries, entries[i].0) == i,
        entries_map(entries).dom().contains(entries[i].0),
        entries_map(entries)[entries[i].0] == entries[i].1,
{
    let name = entries[i].0;
    let j = index_of(entries, name);
    if j < i {
        name_precedes_asymmetric(entries[j].0, entries[i].0);
    } else if i < j {
        name_precedes_asymmetric(entries[i].0, entries[j].0);
    }
}

/// Two lists with ascending names that write down the same map are the
/// same list.
pub proof fn entries_determined<V>(a: Seq<(Seq<char>, V)>, b: Seq<(Seq<char>, V)>)
    requires
        ascending_names(a),
        ascending_names(b),
        entries_map(a) == entries_map(b),
    ensures
        a == b,
    decreases a.len(),
{
    if a.len() == 0 {
        if b.len() > 0 {
            entry_is_bound(b, 0);
            assert(entries_map(a).dom().contains(b[0].0));
        }
        assert(a =~= b);
    } else if b.len() == 0 {
        entry_is_bound(a, 0);
        assert(entries_map(b).dom().contains(a[0].0));
    } else {
        let x = a.last();
        let y = b.last();
        entry_is_bound(a, a.len() - 1);
        entry_is_bound(b, b.len() - 1);
        assert(entries_map(b).dom().contains(x.0));
        assert(entries_map(a).dom().contains(y.0));
        let i = index_of(b, x.0);
        let j = index_of(a, y.0);
        if i < b.len() - 1 {
            if j < a.len() - 1 {
                name_precedes_transitive(x.0, y.0, x.0);
                name_precedes_asymmetric(x.0, x.0);
            } else {
                name_precedes_asymmetric(x.0, y.0);
            }
        }
        assert(x.0 == y.0);
        assert(x.1 == y.1);
        assert(x == y);
        let front_a = a.drop_last();
        let front_b = b.drop_last();
        assert forall|name: Seq<char>| binds(front_a, name) == binds(front_b, name) by {
            if binds(front_a, name) {
                let k = index_of(front_a, name);
                assert(a[k].0 == name);
                entry_is_bound(a, k);
                assert(entries_map(b).dom().contains(name));
                let m = index_of(b, name);
                if m == b.len() - 1 {
                    name_precedes_asymmetric(a[k].0, x.0);
                }
                assert(front_b[m].0 == name);
            }
            if binds(front_b, name) {
                let k = index_of(front_b, name);
                assert(b[k].0 == name);
                entry_is_bound(b, k);
                assert(entries_map(a).dom().contains(name));
                let m = index_of(a, name);
                if m == a.len() - 1 {
                    name_precedes_asymmetric(b[k].0, y.0);
                }
                assert(front_a[m].0 == name);
            }
        }
        assert forall|name: Seq<char>| binds(front_a, name) implies #[trigger] entries_map(front_a)[name]
            == entries_map(front_b)[name] by {
            let k = index_of(front_a, name);
            let m = index_of(front_b, name);
            assert(a[k].0 == name);
            assert(b[m].0 == name);
            entry_is_bound(a, k);
            entry_is_bound(b, m);
        }
        assert(entries_map(front_a) =~= entries_map(front_b));
        entries_determined(front_a, front_b);
        assert(a =~= front_a.push(x));
        assert(b =~= front_b.push(y));
    }
}

/// A map from names to values whose entries stand in ascending order of
/// their names.
#[derive(Debug)]
pub struct NameMap<V> {
    entries: Vec<(String, V)>,
}

impl<V> View for NameMap<V> {
    type V = Map<Seq<char>, V>;

    closed spec fn view(&self) -> Map<Seq<char>, V> {
        entries_map(self.entries())
    }
}

impl<V> NameMap<V> {
    /// The entries in their order: each name with its value.
    pub closed spec fn entries(&self) -> Seq<(Seq<char>, V)> {
        self.entries@.map_values(|entry: (String, V)| (entry.0@, entry.1))
    }

    #[verifier::type_invariant]
    pub closed spec fn well_formed(self) -> bool {
        ascending_names(self.entries())
    }

    /// The entries of a well-formed map have ascending names, and the map
    /// holds what they write down.
    pub proof fn well_formed_entries(self)
        requires
            self.well_formed(),
        ensures
            ascending_names(self.entries()),
            self@ == entries_map(self.entries()),
    {
    }

    /// A name that the map binds is the name of one of its entries, and
    /// the map binds it to that entry's value.
    pub proof fn bound_entry(self, name: Seq<char>)
        requires
            self.well_formed(),
        ensures
            self@.dom().contains(name) ==> {
                let i = index_of(self.entries(), name);
                &&& 0 <= i < self.entries().len()
                &&& self.entries()[i] == (name, self@[name])
            },
    {
    }

    /// A name is bound exactly if one entry has it, and no two entries
    /// have the same name.
    pub proof fn one_entry_per_name(self, name: Seq<char>)
        requires
            self.well_formed(),
        ensures
            self@.dom().contains(name) <==> exists|i: int|
                0 <= i < self.entries().len() && (#[trigger] self.entries()[i]).0 == name,
            forall|i: int, j: int|
                0 <= i < self.entries().len() && 0 <= j < self.entries().len() && (
                #[trigger] self.entries()[i]).0 == name && (#[trigger] self.entries()[j]).0 == name ==> i
                    == j,
    {
        let entries = self.entries();
        assert forall|i: int, j: int|
            0 <= i < entries.len() && 0 <= j < entries.len() && (#[trigger] entries[i]).0 == name && (
            #[trigger] entries[j]).0 == name implies i == j by {
            entry_is_bound(entries, i);
            entry_is_bound(entries, j);
        }
    }

    /// The empty map.
    pub fn new() -> (map: NameMap<V>)
        ensures
            map@ == Map::<Seq<char>, V>::empty(),
            map.entries() == Seq::<(Seq<char>, V)>::empty(),
    {
        let map = NameMap { entries: Vec::new() };
        assert(map.entries() =~= Seq::<(Seq<char>, V)>::empty());
        assert(map@ =~= Map::<Seq<char>, V>::empty());
        map
    }

    /// The number of entries.
    pub fn len(&self) -> (count: usize)
        ensures
            count == self.entries().len(),
    {
        self.entries.len()
    }

    /// The place at which an entry of the given name stands or would stand,
    /// and whether one stands there.
    fn search(&self, name: &str) -> (found: (usize, bool))
        ensures
            found.0 <= self.entries().len(),
            forall|i: int| 0 <= i < found.0 ==> name_precedes((#[trigger] self.entries()[i]).0, name@),
            forall|i: int|
                found.0 <= i < self.entries().len() ==> !name_precedes(
                    (#[trigger] self.entries()[i]).0,
                    name@,
                ),
            found.1 == (found.0 < self.entries().len() && self.entries()[found.0 as int].0 == name@),
            found.1 == binds(self.entries(), name@),
    {
        proof {
            use_type_invariant(self);
        }
        let ghost entries = self.entries();
        let mut low: usize = 0;
        let mut high: usize = self.entries.len();
        while low < high
            invariant
                entries == self.entries(),
                ascending_names(entries),
                low <= high <= entries.len(),
                forall|i: int| 0 <= i < low ==> name_precedes((#[trigger] entries[i]).0, name@),
                forall|i: int| high <= i < entries.len() ==> !name_precedes((#[trigger] entries[i]).0, name@),
            decreases high - low,
        {
            let middle = low + (high - low) / 2;
            let ghost pivot = entries[middle as int].0;
            if name_order(self.entries[middle].0.as_str(), name) == NameOrder::Before {
                assert forall|i: int| 0 <= i < middle + 1 implies name_precedes(
                    (#[trigger] entries[i]).0,
                    name@,
                ) by {
                    if i < middle {
                        name_precedes_transitive(entries[i].0, pivot, name@);
                    }
                }
                low = middle + 1;
            } else {
                assert forall|i: int| middle <= i < entries.len() implies !name_precedes(
                    (#[trigger] entries[i]).0,
                    name@,
                ) by {
                    if middle < i && name_precedes(entries[i].0, name@) {
                        name_precedes_transitive(pivot, entries[i].0, name@);
                    }
                }
                high = middle;
            }
        }
        let found = low < self.entries.len() && name_order(self.entries[low].0.as_str(), name)
            == NameOrder::Same;
        proof {
            if binds(entries, name@) {
                let i = index_of(entries, name@);
                if i < low {
                    name_precedes_asymmetric(entries[i].0, name@);
                } else if low < i {
                    assert(!name_precedes(entries[low as int].0, name@));
                    assert(name_precedes(entries[low as int].0, entries[i].0));
                }
            }
        }
        (low, found)
    }

    /// The value that the name is bound to, if it is bound.
    pub fn get(&self, name: &str) -> (value: Option<&V>)
        ensures
            value == if self@.dom().contains(name@) {
                Some(&self@[name@])
            } else {
                None
            },
    {
        proof {
            use_type_invariant(self);
        }
        let (at, found) = self.search(name);
        if found {
            proof {
                entry_is_bound(self.entries(), at as int);
            }
            Some(&self.entries[at].1)
        } else {
            None
        }
    }

    /// Binds the name to the value. An earlier binding of the name is
    /// replaced; all other bindings stay.
    pub fn insert(&mut self, name: String, value: V)
        ensures
            final(self)@ == old(self)@.insert(name@, value),
    {
        proof {
            use_type_invariant(&*self);
        }
        let ghost before = self.entries();
        let (at, found) = self.search(name.as_str());
        let ghost entry = (name@, value);
        let mut entries: Vec<(String, V)> = Vec::new();
        std::mem::swap(&mut entries, &mut self.entries);
        if found {
            entries.set(at, (name, value));
        } else {
            entries.insert(at, (name, value));
        }
        proof {
            let after = entries@.map_values(|entry: (String, V)| (entry.0@, entry.1));
            if found {
                assert(after =~= before.update(at as int, entry));
            } else {
                assert(after =~= before.insert(at as int, entry));
            }
            written(before, after, at as int, found, entry);
        }
        self.entries = entries;
    }

    /// The entry at place `i` in the order of the names, if there are that many.
    pub fn entry(&self, i: usize) -> (entry: Option<(&String, &V)>)
        ensures
            match entry {
                Some((name, value)) => i < self.entries().len() && self.entries()[i as int] == (name@, *value),
                None => i >= self.entries().len(),
            },
    {
        if i < self.entries.len() {
            Some((&self.entries[i].0, &self.entries[i].1))
        } else {
            None
        }
    }
}

/// Writing an entry at the place that a search found keeps the names
/// ascending and binds the entry's name to its value.
proof fn written<V>(
    before: Seq<(Seq<char>, V)>,
    after: Seq<(Seq<char>, V)>,
    at: int,
    found: bool,
    entry: (Seq<char>, V),
)
    requires
        ascending_names(before),
        0 <= at <= before.len(),
        forall|i: int| 0 <= i < at ==> name_precedes((#[trigger] before[i]).0, entry.0),
        forall|i: int| at <= i < before.len() ==> !name_precedes((#[trigger] before[i]).0, entry.0),
        found == (at < before.len() && before[at].0 == entry.0),
        found == binds(before, entry.0),
        after == if found {
            before.update(at, entry)
        } else {
            before.insert(at, entry)
        },
    ensures
        ascending_names(after),
        entries_map(after) == entries_map(before).insert(entry.0, entry.1),
{
    let shift = if found {
        0int
    } else {
        1int
    };
    assert forall|i: int, j: int| 0 <= i < j < after.len() implies name_precedes(
        #[trigger] after[i].0,
        #[trigger] after[j].0,
    ) by {
        if i == at {
            let j0 = j - shift;
            assert(after[j] == before[j0]);
            if found {
                assert(name_precedes(before[at].0, before[j0].0));
            } else {
                assert(!name_precedes(before[j0].0, entry.0));
                assert(!binds(before, entry.0));
                assert(before[j0].0 != entry.0);
                crate::names::name_precedes_total(before[j0].0, entry.0);
            }
        } else if j == at {
            assert(after[i] == before[i]);
        } else {
            let i0 = if i < at {
                i
            } else {
                i - shift
            };
            let j0 = if j < at {
                j
            } else {
                j - shift
            };
            assert(after[i] == before[i0]);
            assert(after[j] == before[j0]);
            assert(name_precedes(before[i0].0, before[j0].0));
        }
    }
    entry_is_bound(after, at);
    let old_map = entries_map(before);
    let new_map = entries_map(after);
    assert forall|name: Seq<char>| new_map.dom().contains(name) == (name == entry.0 || old_map.dom().contains(
        name,
    )) by {
        if binds(after, name) && name != entry.0 {
            let i = index_of(after, name);
            let i0 = if i < at {
                i
            } else {
                i - shift
            };
            assert(before[i0].0 == name);
        }
        if binds(before, name) && name != entry.0 {
            let i = index_of(before, name);
            let i1 = if i < at {
                i
            } else {
                i + shift
            };
            assert(after[i1].0 == name);
        }
    }
    assert forall|name: Seq<char>| new_map.dom().contains(name) && name != entry.0 implies new_map[name]
        == old_map[name] by {
        let i = index_of(after, name);
        let i0 = if i < at {
            i
        } else {
            i - shift
        };
        assert(before[i0].0 == name);
        entry_is_bound(before, i0);
    }
    assert(new_map =~= old_map.insert(entry.0, entry.1));
}

/// Appending an entry whose name comes after all the others binds that
/// name and leaves the other bindings as they were.
pub proof fn entries_map_push<V>(entries: Seq<(Seq<char>, V)>, entry: (Seq<char>, V))
    requires
        ascending_names(entries.push(entry)),
    ensures
        ascending_names(entries),
        entries_map(entries.push(entry)) == entries_map(entries).insert(entry.0, entry.1),
{
    let after = entries.push(entry);
    let at = entries.len() as int;
    assert forall|i: int, j: int| 0 <= i < j < entries.len() implies name_precedes(
        #[trigger] entries[i].0,
        #[trigger] entries[j].0,
    ) by {
        assert(after[i] == entries[i]);
        assert(after[j] == entries[j]);
    }
    assert forall|i: int| 0 <= i < at implies name_precedes((#[trigger] entries[i]).0, entry.0) by {
        assert(after[i] == entries[i]);
        assert(after[at] == entry);
    }
    if binds(entries, entry.0) {
        let i = index_of(entries, entry.0);
        name_precedes_asymmetric(entries[i].0, entry.0);
    }
    assert(after =~= entries.insert(at, entry));
    written(entries, after, at, false, entry);
}

/// Changing the values of a list, entry by entry, changes the values of
/// the map that it writes down in the same way.
pub proof fn entries_map_values<V, W>(entries: Seq<(Seq<char>, V)>, change: spec_fn(V) -> W)
    requires
        ascending_names(entries),
    ensures
        ascending_names(entries.map_values(|entry: (Seq<char>, V)| (entry.0, change(entry.1)))),
        entries_map(entries.map_values(|entry: (Seq<char>, V)| (entry.0, change(entry.1))))
            == entries_map(entries).map_values(change),
{
    let changed = entries.map_values(|entry: (Seq<char>, V)| (entry.0, change(entry.1)));
    assert forall|i: int, j: int| 0 <= i < j < changed.len() implies name_precedes(
        #[trigger] changed[i].0,
        #[trigger] changed[j].0,
    ) by {
        assert(name_precedes(entries[i].0, entries[j].0));
    }
    assert forall|name: Seq<char>| binds(changed, name) == binds(entries, name) by {
        if binds(changed, name) {
            let i = index_of(changed, name);
            assert(entries[i].0 == name);
        }
        if binds(entries, name) {
            let i = index_of(entries, name);
            assert(changed[i].0 == name);
        }
    }
    assert forall|name: Seq<char>| binds(entries, name) implies #[trigger] entries_map(changed)[name]
        == change(entries_map(entries)[name]) by {
        let i = index_of(entries, name);
        assert(changed[i].0 == name);
        entry_is_bound(changed, i);
        entry_is_bound(entries, i);
    }
    assert(entries_map(changed) =~= entries_map(entries).map_values(change));
}

} // verus!
