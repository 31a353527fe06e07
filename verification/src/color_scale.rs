//! Colour scales and the sets of scales that a theme family offers.

use vstd::prelude::*;
use vstd::string::StringExecFns;
use crate::color::Hsla;
use crate::name_map::{ascending_names, entries_map, entry_is_bound, NameMap};

verus! {

/// A scale: twelve colours, ordered by rising emphasis. The order carries
/// meaning and is never changed.
pub type ColorScale = [Hsla; 12];

/// Four scales under one name: a solid and a translucent scale for each of
/// the light and the dark appearance.
#[derive(Debug, PartialEq)]
pub struct ColorScaleSet {
    pub name: String,
    pub light: ColorScale,
    pub dark: ColorScale,
    pub light_alpha: ColorScale,
    pub dark_alpha: ColorScale,
}

impl Clone for ColorScaleSet {
    fn clone(&self) -> (copy: ColorScaleSet)
        ensures
            copy == *self,
    {
        ColorScaleSet {
            name: self.name.clone(),
            light: self.light,
            dark: self.dark,
            light_alpha: self.light_alpha,
            dark_alpha: self.dark_alpha,
        }
    }
}

impl ColorScaleSet {
    /// A set of the given name with its four scales.
    pub fn new(
        name: String,
        light: ColorScale,
        dark: ColorScale,
        light_alpha: ColorScale,
        dark_alpha: ColorScale,
    ) -> (set: ColorScaleSet)
        ensures
            set.name == name,
            set.light == light,
            set.dark == dark,
            set.light_alpha == light_alpha,
            set.dark_alpha == dark_alpha,
    {
        ColorScaleSet { name, light, dark, light_alpha, dark_alpha }
    }
}

/// The scale sets that every family knows by name.
#[derive(Debug, Clone, Copy, PartialEq, Eq, Hash, Structural)]
pub enum ColorScaleName {
    Slate,
    Red,
}

impl ColorScaleName {
    /// The name under which the scale set is kept: `slate` or `red`.
    pub open spec fn name_text(self) -> Seq<char> {
        match self {
            ColorScaleName::Slate => "slate"@,
            ColorScaleName::Red => "red"@,
        }
    }

    /// The name under which the scale set is kept.
    pub fn name(&self) -> (name: String)
        ensures
            name@ == self.name_text(),
    {
        match self {
            ColorScaleName::Slate => String::from_str("slate"),
            ColorScaleName::Red => String::from_str("red"),
        }
    }
}

/// A list of scale sets holds each set under its own name.
pub open spec fn own_names(entries: Seq<(Seq<char>, ColorScaleSet)>) -> bool {
    forall|i: int| 0 <= i < entries.len() ==> (#[trigger] entries[i]).1.name@ == entries[i].0
}

/// Scale sets, each found by its name.
#[derive(Debug)]
pub struct ColorScales(NameMap<ColorScaleSet>);

impl View for ColorScales {
    type V = Map<Seq<char>, ColorScaleSet>;

    closed spec fn view(&self) -> Map<Seq<char>, ColorScaleSet> {
        self.0@
    }
}

impl ColorScales {
    /// The sets with their names, in ascending order of the names.
    pub closed spec fn entries(&self) -> Seq<(Seq<char>, ColorScaleSet)> {
        self.0.entries()
    }

    #[verifier::type_invariant]
    pub closed spec fn well_formed(self) -> bool {
        &&& self.0.well_formed()
        &&& own_names(self.0.entries())
    }

    /// A well-formed collection holds each set under its own name, in
    /// ascending order of the names, and is the map that its entries write.
    pub proof fn well_formed_entries(self)
        requires
            self.well_formed(),
        ensures
            ascending_names(self.entries()),
            own_names(self.entries()),
            self@ == entries_map(self.entries()),
    {
        self.0.well_formed_entries();
    }

    /// The last write wins: after two sets of one name were added, one
    /// after the other, the collection is as if only the second had been
    /// added, and exactly one of its entries has that name: the second set.
    pub proof fn last_write_wins(
        before: ColorScales,
        between: ColorScales,
        after: ColorScales,
        first: ColorScaleSet,
        second: ColorScaleSet,
    )
        requires
            after.well_formed(),
            first.name@ == second.name@,
            between@ == before@.insert(first.name@, first),
            after@ == between@.insert(second.name@, second),
        ensures
            after@ == before@.insert(second.name@, second),
            exists|i: int|
                0 <= i < after.entries().len() && #[trigger] after.entries()[i] == (second.name@, second),
            forall|i: int, j: int|
                0 <= i < after.entries().len() && 0 <= j < after.entries().len() && (
                #[trigger] after.entries()[i]).0 == second.name@ && (#[trigger] after.entries()[j]).0
                    == second.name@ ==> i == j,
    {
        assert(after@ =~= before@.insert(second.name@, second));
        after.0.one_entry_per_name(second.name@);
        after.0.bound_entry(second.name@);
        let i = crate::name_map::index_of(after.entries(), second.name@);
        assert(after.entries()[i] == (second.name@, second));
    }

    /// The empty collection.
    pub fn new() -> (scales: ColorScales)
        ensures
            scales@ == Map::<Seq<char>, ColorScaleSet>::empty(),
            scales.entries() == Seq::<(Seq<char>, ColorScaleSet)>::empty(),
    {
        let map: NameMap<ColorScaleSet> = NameMap::new();
        proof {
            use_type_invariant(&map);
        }
        ColorScales(map)
    }

    /// Adds a set under its name. The last set added under a name is the
    /// one that the collection holds under it.
    pub fn insert(&mut self, set: ColorScaleSet)
        ensures
            final(self)@ == old(self)@.insert(set.name@, set),
    {
        proof {
            use_type_invariant(&*self);
        }
        let ghost before = self.0;
        let mut map: NameMap<ColorScaleSet> = NameMap::new();
        proof {
            use_type_invariant(&map);
        }
        std::mem::swap(&mut map, &mut self.0);
        let name = set.name.clone();
        map.insert(name, set);
        proof {
            use_type_invariant(&map);
            map.well_formed_entries();
            let after = map.entries();
            assert forall|i: int| 0 <= i < after.len() implies (#[trigger] after[i]).1.name@
                == after[i].0 by {
                entry_is_bound(after, i);
                if after[i].0 != set.name@ {
                    before.bound_entry(after[i].0);
                }
            }
        }
        self.0 = map;
    }

    /// The set of the given name, or `None` where the collection holds none.
    pub fn get(&self, name: &str) -> (found: Option<&ColorScaleSet>)
        ensures
            found == if self@.dom().contains(name@) {
                Some(&self@[name@])
            } else {
                None
            },
            found matches Some(set) ==> set.name@ == name@,
    {
        proof {
            use_type_invariant(self);
            self.0.bound_entry(name@);
        }
        self.0.get(name)
    }

    /// The number of sets.
    pub fn len(&self) -> (count: usize)
        ensures
            count == self.entries().len(),
    {
        self.0.len()
    }
}

} // verus!
