//! Named UI colours: the tokens that an interface uses in place of colour
//! literals.

use vstd::prelude::*;
use vstd::string::StringExecFns;
use crate::color::Hsla;
use crate::name_map::{ascending_names, entries_map, entry_is_bound, NameMap};

verus! {

/// A UI colour: a token name, the colour bound to it, and a description.
#[derive(Debug, PartialEq)]
pub struct UIColor {
    pub name: String,
    pub value: Hsla,
    pub description: Option<String>,
}

impl Clone for UIColor {
    fn clone(&self) -> (copy: UIColor)
        ensures
            copy == *self,
    {
        let description = match &self.description {
            Some(text) => Some(text.clone()),
            None => None,
        };
        UIColor { name: self.name.clone(), value: self.value, description }
    }
}

impl UIColor {
    /// A UI colour of the given name, value and description.
    pub fn new(name: &str, value: Hsla, description: Option<String>) -> (color: UIColor)
        ensures
            color.name@ == name@,
            color.value == value,
            color.description == description,
    {
        UIColor { name: String::from_str(name), value, description }
    }
}

/// A list of UI colours holds each colour under its own name.
pub open spec fn own_names(entries: Seq<(Seq<char>, UIColor)>) -> bool {
    forall|i: int| 0 <= i < entries.len() ==> (#[trigger] entries[i]).1.name@ == entries[i].0
}

/// A collection of UI colours, each found by its name. The colours stand in
/// ascending order of their names.
#[derive(Debug)]
pub struct UIColors(NameMap<UIColor>);

impl View for UIColors {
    type V = Map<Seq<char>, UIColor>;

    closed spec fn view(&self) -> Map<Seq<char>, UIColor> {
        self.0@
    }
}

impl UIColors {
    /// The colours with their names, in ascending order of the names.
    pub closed spec fn entries(&self) -> Seq<(Seq<char>, UIColor)> {
        self.0.entries()
    }

    #[verifier::type_invariant]
    pub closed spec fn well_formed(self) -> bool {
        &&& self.0.well_formed()
        &&& own_names(self.0.entries())
    }

    /// A well-formed collection holds each colour under its own name, in
    /// ascending order of the names, and is the map that its entries write.
    pub proof fn well_formed_entries(self)
        requires
            self.well_formed(),
        ensures
            ascending_names(self.entries()),
            own_names(self.entries()),
            self@ == entries_map(self.entries()),
    {
        self.0.well_formed_entries();
    }

    /// Adding a colour replaces by name: after two colours of one name were
    /// added, one after the other, the collection is as if only the second
    /// had been added, and exactly one of its entries has that name.
    pub proof fn last_write_wins(
        before: UIColors,
        between: UIColors,
        after: UIColors,
        first: UIColor,
        second: UIColor,
    )
        requires
            after.well_formed(),
            first.name@ == second.name@,
            between@ == before@.insert(first.name@, first),
            after@ == between@.insert(second.name@, second),
        ensures
            after@ == before@.insert(second.name@, second),
            exists|i: int|
                0 <= i < after.entries().len() && #[trigger] after.entries()[i] == (second.name@, second),
            forall|i: int, j: int|
                0 <= i < after.entries().len() && 0 <= j < after.entries().len() && (
                #[trigger] after.entries()[i]).0 == second.name@ && (#[trigger] after.entries()[j]).0
                    == second.name@ ==> i == j,
    {
        assert(after@ =~= before@.insert(second.name@, second));
        after.0.one_entry_per_name(second.name@);
        after.0.bound_entry(second.name@);
        let i = crate::name_map::index_of(after.entries(), second.name@);
        assert(after.entries()[i] == (second.name@, second));
    }

    /// The empty collection.
    pub fn new() -> (colors: UIColors)
        ensures
            colors@ == Map::<Seq<char>, UIColor>::empty(),
            colors.entries() == Seq::<(Seq<char>, UIColor)>::empty(),
    {
        let map: NameMap<UIColor> = NameMap::new();
        proof {
            use_type_invariant(&map);
        }
        UIColors(map)
    }

    /// Adds a colour under its name. A colour that the collection held
    /// under that name is replaced.
    pub fn add(&mut self, color: UIColor)
        ensures
            final(self)@ == old(self)@.insert(color.name@, color),
    {
        proof {
            use_type_invariant(&*self);
        }
        let ghost before = self.0;
        let mut map: NameMap<UIColor> = NameMap::new();
        proof {
            use_type_invariant(&map);
        }
        std::mem::swap(&mut map, &mut self.0);
        let name = color.name.clone();
        map.insert(name, color);
        proof {
            use_type_invariant(&map);
            map.well_formed_entries();
            let after = map.entries();
            assert forall|i: int| 0 <= i < after.len() implies (#[trigger] after[i]).1.name@
                == after[i].0 by {
                entry_is_bound(after, i);
                if after[i].0 != color.name@ {
                    before.bound_entry(after[i].0);
                }
            }
        }
        self.0 = map;
    }

    /// The colour of the given name, or `None` where the collection holds
    /// none: an unknown name is an ordinary answer.
    pub fn get(&self, name: &str) -> (found: Option<&UIColor>)
        ensures
            found == if self@.dom().contains(name@) {
                Some(&self@[name@])
            } else {
                None
            },
            found matches Some(color) ==> color.name@ == name@,
    {
        proof {
            use_type_invariant(self);
            self.0.bound_entry(name@);
        }
        self.0.get(name)
    }

    /// The number of colours.
    pub fn len(&self) -> (count: usize)
        ensures
            count == self.entries().len(),
    {
        self.0.len()
    }

    /// The colour at place `i` in ascending order of the names, if there
    /// are that many.
    pub fn get_at(&self, i: usize) -> (found: Option<&UIColor>)
        ensures
            match found {
                Some(color) => i < self.entries().len() && self.entries()[i as int].1 == *color,
                None => i >= self.entries().len(),
            },
    {
        match self.0.entry(i) {
            Some((_, color)) => Some(color),
            None => None,
        }
    }
}

/// The colours of the tokens that the system itself defines:
/// `background`, `border` and `text`.
#[derive(Debug, Clone, Copy, PartialEq, Eq)]
pub struct SystemColors {
    pub background: Hsla,
    pub border: Hsla,
    pub text: Hsla,
}

impl SystemColors {
    /// `colors` binds the three system tokens, each to its colour and
    /// without a description, and nothing else.
    pub open spec fn binds(self, colors: Map<Seq<char>, UIColor>) -> bool {
        &&& colors.dom() == set!["background"@, "border"@, "text"@]
        &&& colors["background"@].name@ == "background"@
        &&& colors["background"@].value == self.background
        &&& colors["background"@].description == None::<String>
        &&& colors["border"@].name@ == "border"@
        &&& colors["border"@].value == self.border
        &&& colors["border"@].description == None::<String>
        &&& colors["text"@].name@ == "text"@
        &&& colors["text"@].value == self.text
        &&& colors["text"@].description == None::<String>
    }

    /// The system tokens as a collection: the defaults that a variant's
    /// overrides are resolved against.
    pub fn tokens(&self) -> (colors: UIColors)
        ensures
            self.binds(colors@),
    {
        proof {
            reveal_strlit("background");
            reveal_strlit("border");
            reveal_strlit("text");
            assert("background"@.len() != "border"@.len());
            assert("background"@.len() != "text"@.len());
            assert("border"@.len() != "text"@.len());
        }
        let mut colors = UIColors::new();
        colors.add(UIColor::new("background", self.background, None));
        colors.add(UIColor::new("border", self.border, None));
        colors.add(UIColor::new("text", self.text, None));
        assert(colors@.dom() =~= set!["background"@, "border"@, "text"@]);
        colors
    }
}

} // verus!
