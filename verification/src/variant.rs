//! Theme variants: what a document says of one, and the colours that its
//! overrides resolve to.

use vstd::prelude::*;
use crate::color::Hsla;
use crate::encoding::{decoded, written, Encoded, NumberDocument, ZedHsla};
use crate::error::{NotFoundError, ParseError, ThemeError};
use crate::name_map::{ascending_names, entries_map, entries_map_push, entries_map_values, NameMap};
use crate::theme::Appearance;
use crate::ui_color::{UIColor, UIColors};

verus! {

/// The number under which a registry keeps a variant.
pub type ThemeId = usize;

/// The overrides of a variant: token names, each with the colour that
/// replaces the token's default.
pub type ColorOverrides = NameMap<ZedHsla>;

/// A variant of a theme: who made it, which appearance it serves, and the
/// colours that it overrides. A token without an override keeps its default.
#[derive(Debug)]
pub struct ThemeVariant {
    pub id: ThemeId,
    pub name: String,
    pub author: String,
    pub appearance: Appearance,
    pub overrides: ColorOverrides,
}

/// One override as it stands in a document: a token and the numbers that
/// write its colour.
#[derive(Debug)]
pub struct OverrideDocument {
    pub token: String,
    pub color: Vec<NumberDocument>,
}

/// A variant as it stands in a document, before anything is checked.
#[derive(Debug)]
pub struct ThemeDocument {
    pub name: String,
    pub author: String,
    pub appearance: String,
    pub overrides: Vec<OverrideDocument>,
}

/// The fault of the first override, from place `from` on, whose numbers
/// write no colour.
pub open spec fn first_fault(overrides: Seq<OverrideDocument>, from: int) -> Option<ThemeError>
    decreases overrides.len() - from,
{
    if from < 0 || from >= overrides.len() {
        None
    } else {
        match decoded(overrides[from].color@) {
            Err(error) => Some(error),
            Ok(_) => first_fault(overrides, from + 1),
        }
    }
}

/// What the numbers of an override encode, where they write a colour.
pub open spec fn encoded(entry: OverrideDocument) -> Encoded {
    decoded(entry.color@)->Ok_0
}

/// The overrides that a document's list writes down: each token with what
/// the last entry under that token encodes.
pub open spec fn written_overrides(overrides: Seq<OverrideDocument>) -> Map<Seq<char>, Encoded>
    decreases overrides.len(),
{
    if overrides.len() == 0 {
        Map::empty()
    } else {
        written_overrides(overrides.drop_last()).insert(
            overrides.last().token@,
            encoded(overrides.last()),
        )
    }
}

/// What a collection of overrides holds, token by token.
pub open spec fn encoded_overrides(overrides: Map<Seq<char>, ZedHsla>) -> Map<Seq<char>, Encoded> {
    overrides.map_values(|color: ZedHsla| color@)
}

impl ThemeDocument {
    /// What is wrong with the document: an appearance that is neither
    /// `light` nor `dark`, or else the fault of the first override whose
    /// numbers write no colour.
    pub open spec fn fault(&self) -> Option<ThemeError> {
        if Appearance::keyed(self.appearance@) is None {
            Some(ThemeError::Parse(ParseError::Appearance))
        } else {
            first_fault(self.overrides@, 0)
        }
    }

    /// The variant says what the document says.
    pub open spec fn describes(&self, variant: ThemeVariant) -> bool {
        &&& variant.name@ == self.name@
        &&& variant.author@ == self.author@
        &&& Appearance::keyed(self.appearance@) == Some(variant.appearance)
        &&& encoded_overrides(variant.overrides@) == written_overrides(self.overrides@)
    }
}

impl ThemeVariant {
    /// A variant with the given fields.
    pub fn new(name: String, author: String, appearance: Appearance, overrides: ColorOverrides) -> (variant:
        ThemeVariant)
        ensures
            variant.id == 0,
            variant.name == name,
            variant.author == author,
            variant.appearance == appearance,
            variant.overrides == overrides,
    {
        ThemeVariant { id: 0, name, author, appearance, overrides }
    }

    /// Checks a document and makes the variant that it describes.
    ///
    /// Fails as a whole, with the document's fault, if the appearance is
    /// unknown, if the numbers of an override are neither four whole
    /// numbers nor four fractions, or if a standard value lies outside its
    /// domain. Fractions are brought into range. Where a token occurs twice,
    /// the later override stands.
    pub fn from_document(document: &ThemeDocument) -> (made: Result<ThemeVariant, ThemeError>)
        ensures
            match made {
                Ok(variant) => {
                    &&& document.fault() is None
                    &&& document.describes(variant)
                    &&& variant.id == 0
                },
                Err(error) => document.fault() == Some(error),
            },
    {
        let appearance = match Appearance::from_key(document.appearance.as_str()) {
            Ok(appearance) => appearance,
            Err(error) => {
                return Err(ThemeError::Parse(error));
            },
        };
        let mut overrides: ColorOverrides = NameMap::new();
        let mut i: usize = 0;
        assert(document.overrides@.take(0) =~= Seq::<OverrideDocument>::empty());
        assert(encoded_overrides(overrides@) =~= written_overrides(document.overrides@.take(0)));
        while i < document.overrides.len()
            invariant
                i <= document.overrides@.len(),
                Appearance::keyed(document.appearance@) == Some(appearance),
                first_fault(document.overrides@, 0) == first_fault(document.overrides@, i as int),
                encoded_overrides(overrides@) == written_overrides(document.overrides@.take(i as int)),
            decreases document.overrides@.len() - i,
        {
            let entry = &document.overrides[i];
            let ghost before = overrides@;
            let color = match ZedHsla::from_document(&entry.color) {
                Ok(color) => color,
                Err(error) => {
                    return Err(error);
                },
            };
            assert(color@ == encoded(*entry));
            overrides.insert(entry.token.clone(), color);
            proof {
                let next = document.overrides@.take(i + 1);
                assert(next.drop_last() =~= document.overrides@.take(i as int));
                assert(next.last() == document.overrides@[i as int]);
                assert(encoded_overrides(before.insert(entry.token@, color)) =~= encoded_overrides(
                    before,
                ).insert(entry.token@, color@));
            }
            i += 1;
        }
        assert(document.overrides@.take(i as int) =~= document.overrides@);
        Ok(
            ThemeVariant {
                id: 0,
                name: document.name.clone(),
                author: document.author.clone(),
                appearance,
                overrides,
            },
        )
    }
}

/// The overrides of a document as a list: each token with what its
/// colour encodes.
pub open spec fn listed_overrides(overrides: Seq<OverrideDocument>) -> Seq<(Seq<char>, Encoded)> {
    overrides.map_values(|entry: OverrideDocument| (entry.token@, encoded(entry)))
}

/// A list of overrides with ascending tokens writes down the map of
/// its entries.
pub proof fn written_in_order(overrides: Seq<OverrideDocument>)
    requires
        ascending_names(listed_overrides(overrides)),
    ensures
        written_overrides(overrides) == entries_map(listed_overrides(overrides)),
    decreases overrides.len(),
{
    let listed = listed_overrides(overrides);
    if overrides.len() == 0 {
        assert(entries_map(listed) =~= Map::<Seq<char>, Encoded>::empty());
    } else {
        let front = overrides.drop_last();
        assert(listed =~= listed_overrides(front).push(listed.last()));
        entries_map_push(listed_overrides(front), listed.last());
        written_in_order(front);
    }
}

impl ThemeVariant {
    /// The document says what the variant says, with the overrides in
    /// ascending order of their tokens and each colour written in the
    /// encoding in which the variant holds it, so that reading the numbers
    /// gives the colour again.
    pub open spec fn renders(&self, document: ThemeDocument) -> bool {
        &&& document.name@ == self.name@
        &&& document.author@ == self.author@
        &&& document.appearance@ == self.appearance.key_text()
        &&& document.overrides@.len() == self.overrides.entries().len()
        &&& forall|i: int|
            0 <= i < document.overrides@.len() ==> {
                &&& (#[trigger] document.overrides@[i]).token@ == self.overrides.entries()[i].0
                &&& document.overrides@[i].color@ == written(self.overrides.entries()[i].1@)
                &&& decoded(document.overrides@[i].color@) == Ok::<Encoded, ThemeError>(
                    self.overrides.entries()[i].1@,
                )
            }
    }

    /// Writes the variant down as a document. The document has no fault,
    /// and checking it gives a variant that says what this one says.
    pub fn to_document(&self) -> (document: ThemeDocument)
        ensures
            self.renders(document),
            document.fault() is None,
            document.describes(*self),
    {
        let ghost entries = self.overrides.entries();
        let mut overrides: Vec<OverrideDocument> = Vec::new();
        let mut i: usize = 0;
        while i < self.overrides.len()
            invariant
                entries == self.overrides.entries(),
                i <= entries.len(),
                overrides@.len() == i,
                forall|j: int|
                    0 <= j < i ==> {
                        &&& (#[trigger] overrides@[j]).token@ == entries[j].0
                        &&& overrides@[j].color@ == written(entries[j].1@)
                        &&& decoded(overrides@[j].color@) == Ok::<Encoded, ThemeError>(entries[j].1@)
                    },
            decreases entries.len() - i,
        {
            match self.overrides.entry(i) {
                Some((token, color)) => {
                    overrides.push(OverrideDocument { token: token.clone(), color: color.to_document() });
                },
                None => {},
            }
            i += 1;
        }
        let document = ThemeDocument {
            name: self.name.clone(),
            author: self.author.clone(),
            appearance: self.appearance.key(),
            overrides,
        };
        proof {
            use_type_invariant(&self.overrides);
            self.appearance.key_round_trip();
            rendered_list(*self, document);
            written_in_order(document.overrides@);
            no_fault(document.overrides@, 0);
        }
        document
    }

    /// The colour that the variant gives to a token: the variant's
    /// override, or else the default. A token that neither binds is
    /// reported as not found.
    pub fn resolve_token(&self, defaults: &UIColors, token: &str) -> (found: Result<Hsla, NotFoundError>)
        ensures
            match found {
                Ok(color) => if self.overrides@.dom().contains(token@) {
                    color@ == self.overrides@[token@]@.color()
                } else {
                    defaults@.dom().contains(token@) && color == defaults@[token@].value
                },
                Err(error) => {
                    &&& error == NotFoundError::Token
                    &&& !self.overrides@.dom().contains(token@)
                    &&& !defaults@.dom().contains(token@)
                },
            },
    {
        match self.overrides.get(token) {
            Some(color) => Ok(color.to_hsla()),
            None => match defaults.get(token) {
                Some(color) => Ok(color.value),
                None => Err(NotFoundError::Token),
            },
        }
    }
}

/// Two documents say the same: the same name, author and appearance, and
/// the same overrides, number for number, in the same order.
pub open spec fn same_document(first: ThemeDocument, second: ThemeDocument) -> bool {
    &&& first.name@ == second.name@
    &&& first.author@ == second.author@
    &&& first.appearance@ == second.appearance@
    &&& first.overrides@.len() == second.overrides@.len()
    &&& forall|i: int|
        0 <= i < first.overrides@.len() ==> {
            &&& (#[trigger] first.overrides@[i]).token@ == second.overrides@[i].token@
            &&& first.overrides@[i].color@ == second.overrides@[i].color@
        }
}

/// The overrides that a rendered document lists are the variant's
/// entries, each value replaced by what it encodes.
proof fn rendered_list(variant: ThemeVariant, document: ThemeDocument)
    requires
        variant.overrides.well_formed(),
        variant.renders(document),
    ensures
        ascending_names(listed_overrides(document.overrides@)),
        entries_map(listed_overrides(document.overrides@)) == encoded_overrides(variant.overrides@),
{
    let entries = variant.overrides.entries();
    let view = |color: ZedHsla| color@;
    variant.overrides.well_formed_entries();
    entries_map_values(entries, view);
    assert(listed_overrides(document.overrides@) =~= entries.map_values(
        |entry: (Seq<char>, ZedHsla)| (entry.0, view(entry.1)),
    ));
}

/// A document that was written from a variant is written again, letter for
/// letter, from the variant that it describes.
pub proof fn document_round_trip(
    first: ThemeVariant,
    document: ThemeDocument,
    second: ThemeVariant,
    again: ThemeDocument,
)
    requires
        first.overrides.well_formed(),
        second.overrides.well_formed(),
        first.renders(document),
        document.describes(second),
        second.renders(again),
    ensures
        same_document(document, again),
{
    first.appearance.key_round_trip();
    rendered_list(first, document);
    rendered_list(second, again);
    written_in_order(document.overrides@);
    let listed = listed_overrides(document.overrides@);
    let relisted = listed_overrides(again.overrides@);
    crate::name_map::entries_determined(listed, relisted);
    assert forall|i: int| 0 <= i < document.overrides@.len() implies {
        &&& (#[trigger] document.overrides@[i]).token@ == again.overrides@[i].token@
        &&& document.overrides@[i].color@ == again.overrides@[i].color@
    } by {
        assert(listed[i] == relisted[i]);
        assert(encoded(document.overrides@[i]) == first.overrides.entries()[i].1@);
        assert(encoded(again.overrides@[i]) == second.overrides.entries()[i].1@);
    }
}

/// A list of overrides all of which write a colour has no first fault.
pub proof fn no_fault(overrides: Seq<OverrideDocument>, from: int)
    requires
        0 <= from,
        forall|i: int| from <= i < overrides.len() ==> decoded((#[trigger] overrides[i]).color@) is Ok,
    ensures
        first_fault(overrides, from) is None,
    decreases overrides.len() - from,
{
    if from < overrides.len() {
        no_fault(overrides, from + 1);
    }
}

/// `resolved` is the colour that an override gives to a token: the token's
/// name, the colour that the override denotes, and the description of the
/// token's default, if it has one.
pub open spec fn overridden(
    defaults: Map<Seq<char>, UIColor>,
    token: Seq<char>,
    color: ZedHsla,
    resolved: UIColor,
) -> bool {
    &&& resolved.name@ == token
    &&& resolved.value@ == color@.color()
    &&& resolved.description == if defaults.dom().contains(token) {
        defaults[token].description
    } else {
        None
    }
}

/// `resolved` binds every token of the defaults and of the overrides: an
/// overridden token to its override, any other token to its default.
pub open spec fn resolution(
    defaults: Map<Seq<char>, UIColor>,
    overrides: Map<Seq<char>, ZedHsla>,
    resolved: Map<Seq<char>, UIColor>,
) -> bool {
    &&& resolved.dom() == defaults.dom().union(overrides.dom())
    &&& forall|token: Seq<char>| #[trigger]
        overrides.dom().contains(token) ==> overridden(defaults, token, overrides[token], resolved[token])
    &&& forall|token: Seq<char>|
        defaults.dom().contains(token) && !overrides.dom().contains(token) ==> #[trigger] resolved[token]
            == defaults[token]
}

/// Defaults and overrides have one resolution: two collections that both
/// resolve them bind the same tokens, each to the same name, colour and
/// description.
pub proof fn resolution_determined(
    defaults: Map<Seq<char>, UIColor>,
    overrides: Map<Seq<char>, ZedHsla>,
    first: Map<Seq<char>, UIColor>,
    second: Map<Seq<char>, UIColor>,
)
    requires
        resolution(defaults, overrides, first),
        resolution(defaults, overrides, second),
    ensures
        first.dom() == second.dom(),
        forall|token: Seq<char>| #[trigger]
            first.dom().contains(token) ==> {
                &&& first[token].name@ == second[token].name@
                &&& first[token].value == second[token].value
                &&& first[token].description == second[token].description
            },
{
    assert forall|token: Seq<char>| #[trigger] first.dom().contains(token) implies {
        &&& first[token].name@ == second[token].name@
        &&& first[token].value == second[token].value
        &&& first[token].description == second[token].description
    } by {
        if overrides.dom().contains(token) {
            first[token].value.view_injective(second[token].value);
        } else {
            assert(defaults.dom().contains(token));
            assert(first[token] == defaults[token]);
            assert(second[token] == defaults[token]);
        }
    }
}

impl ThemeVariant {
    /// The colours of the variant: the defaults with each overridden token
    /// bound to its override. Neither the variant nor the defaults change.
    pub fn resolve(&self, defaults: &UIColors) -> (resolved: UIColors)
        ensures
            resolution(defaults@, self.overrides@, resolved@),
    {
        let ghost base = defaults.entries();
        let ghost entries = self.overrides.entries();
        proof {
            use_type_invariant(defaults);
            defaults.well_formed_entries();
            use_type_invariant(&self.overrides);
            self.overrides.well_formed_entries();
        }
        let mut resolved = UIColors::new();
        let mut i: usize = 0;
        assert(base.take(0) =~= Seq::<(Seq<char>, UIColor)>::empty());
        assert(entries_map(base.take(0)) =~= Map::<Seq<char>, UIColor>::empty());
        while i < defaults.len()
            invariant
                base == defaults.entries(),
                ascending_names(base),
                crate::ui_color::own_names(base),
                defaults@ == entries_map(base),
                i <= base.len(),
                resolved@ == entries_map(base.take(i as int)),
            decreases base.len() - i,
        {
            match defaults.get_at(i) {
                Some(color) => {
                    proof {
                        let next = base.take(i + 1);
                        assert(next =~= base.take(i as int).push(base[i as int]));
                        prefix_ascending(base, i + 1);
                        entries_map_push(base.take(i as int), base[i as int]);
                    }
                    resolved.add(color.clone());
                },
                None => {},
            }
            i += 1;
        }
        assert(base.take(i as int) =~= base);
        assert(resolved@.dom() =~= defaults@.dom().union(Map::<Seq<char>, ZedHsla>::empty().dom()));
        let mut k: usize = 0;
        assert(entries.take(0) =~= Seq::<(Seq<char>, ZedHsla)>::empty());
        assert(entries_map(entries.take(0)) =~= Map::<Seq<char>, ZedHsla>::empty());
        while k < self.overrides.len()
            invariant
                entries == self.overrides.entries(),
                ascending_names(entries),
                k <= entries.len(),
                resolution(defaults@, entries_map(entries.take(k as int)), resolved@),
            decreases entries.len() - k,
        {
            match self.overrides.entry(k) {
                Some((token, color)) => {
                    let description = match defaults.get(token.as_str()) {
                        Some(default) => match &default.description {
                            Some(text) => Some(text.clone()),
                            None => None,
                        },
                        None => None,
                    };
                    let bound = UIColor { name: token.clone(), value: color.to_hsla(), description };
                    let ghost earlier = entries_map(entries.take(k as int));
                    let ghost later = entries_map(entries.take(k + 1));
                    proof {
                        let next = entries.take(k + 1);
                        assert(next =~= entries.take(k as int).push(entries[k as int]));
                        prefix_ascending(entries, k + 1);
                        entries_map_push(entries.take(k as int), entries[k as int]);
                        assert(later == earlier.insert(token@, *color));
                        assert(overridden(defaults@, token@, *color, bound));
                    }
                    resolved.add(bound);
                    proof {
                        assert(resolved@.dom() =~= defaults@.dom().union(later.dom()));
                        assert forall|other: Seq<char>| #[trigger]
                            later.dom().contains(other) implies overridden(
                            defaults@,
                            other,
                            later[other],
                            resolved@[other],
                        ) by {
                            if other != token@ {
                                assert(earlier.dom().contains(other));
                            }
                        }
                        assert forall|other: Seq<char>|
                            defaults@.dom().contains(other) && !later.dom().contains(other) implies #[trigger]
                            resolved@[other] == defaults@[other] by {
                            assert(!earlier.dom().contains(other));
                        }
                    }
                },
                None => {},
            }
            k += 1;
        }
        assert(entries.take(k as int) =~= entries);
        resolved
    }
}

/// The first entries of a list with ascending names have ascending names.
proof fn prefix_ascending<V>(entries: Seq<(Seq<char>, V)>, count: int)
    requires
        ascending_names(entries),
        0 <= count <= entries.len(),
    ensures
        ascending_names(entries.take(count)),
{
    let front = entries.take(count);
    assert forall|i: int, j: int| 0 <= i < j < front.len() implies crate::names::name_precedes(
        #[trigger] front[i].0,
        #[trigger] front[j].0,
    ) by {
        assert(front[i] == entries[i]);
        assert(front[j] == entries[j]);
    }
}

} // verus!
