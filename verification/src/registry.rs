//! Theme families and the registry that lists their variants.

use vstd::prelude::*;
use crate::color_scale::{ColorScaleSet, ColorScales};
use crate::error::NotFoundError;
use crate::names::{
    name_follows_transitive, name_order, name_precedes, name_precedes_asymmetric,
    name_precedes_extends, name_precedes_total, NameOrder,
};
use crate::theme::{Appearance, Theme};

verus! {

/// A family of themes: the variants that one author publishes under one
/// name, and the scale sets that they draw on.
#[derive(Debug)]
pub struct ThemeFamily {
    pub name: String,
    pub author: String,
    pub color_scale_sets: ColorScales,
    pub variants: Vec<Theme>,
}

impl ThemeFamily {
    /// A family without variants and without scale sets.
    pub fn new(name: String, author: String) -> (family: ThemeFamily)
        ensures
            family.name == name,
            family.author == author,
            family.variants@ == Seq::<Theme>::empty(),
            family.color_scale_sets@ == Map::<Seq<char>, ColorScaleSet>::empty(),
    {
        ThemeFamily { name, author, color_scale_sets: ColorScales::new(), variants: Vec::new() }
    }

    /// Appends a variant. A family may hold several variants of one name.
    pub fn add_variant(&mut self, variant: Theme)
        ensures
            final(self).variants@ == old(self).variants@.push(variant),
            final(self).name == old(self).name,
            final(self).author == old(self).author,
            final(self).color_scale_sets == old(self).color_scale_sets,
    {
        self.variants.push(variant);
    }

    /// The variant at the given place in the order of addition.
    pub fn variant(&self, index: usize) -> (found: Result<&Theme, NotFoundError>)
        ensures
            found == if index < self.variants@.len() {
                Ok::<&Theme, NotFoundError>(&self.variants@[index as int])
            } else {
                Err::<&Theme, NotFoundError>(NotFoundError::Variant)
            },
    {
        if index < self.variants.len() {
            Ok(&self.variants[index])
        } else {
            Err(NotFoundError::Variant)
        }
    }

    /// Adds a scale set under its name. A set that the family held under
    /// that name is replaced.
    pub fn add_color_scale_set(&mut self, set: ColorScaleSet)
        ensures
            final(self).color_scale_sets@ == old(self).color_scale_sets@.insert(set.name@, set),
            final(self).variants == old(self).variants,
            final(self).name == old(self).name,
            final(self).author == old(self).author,
    {
        self.color_scale_sets.insert(set);
    }

    /// The scale set of the given name.
    pub fn color_scale_set(&self, name: &str) -> (found: Result<&ColorScaleSet, NotFoundError>)
        ensures
            found == if self.color_scale_sets@.dom().contains(name@) {
                Ok::<&ColorScaleSet, NotFoundError>(&self.color_scale_sets@[name@])
            } else {
                Err::<&ColorScaleSet, NotFoundError>(NotFoundError::ScaleSet)
            },
    {
        match self.color_scale_sets.get(name) {
            Some(set) => Ok(set),
            None => Err(NotFoundError::ScaleSet),
        }
    }
}

/// The variants of all the families, family by family, each family's in the
/// order in which they were added.
pub open spec fn family_variants(families: Seq<ThemeFamily>) -> Seq<Theme>
    decreases families.len(),
{
    if families.len() == 0 {
        Seq::empty()
    } else {
        family_variants(families.drop_last()) + families.last().variants@
    }
}

/// The test that a theme has the given appearance.
pub open spec fn has_appearance(appearance: Appearance) -> spec_fn(Theme) -> bool {
    |theme: Theme| theme.appearance == appearance
}

/// The test that a theme has the given name.
pub open spec fn has_name(name: Seq<char>) -> spec_fn(Theme) -> bool {
    |theme: Theme| theme.name@ == name
}

/// The themes of the given appearance, in their order.
pub open spec fn of_appearance(themes: Seq<Theme>, appearance: Appearance) -> Seq<Theme> {
    themes.filter(has_appearance(appearance))
}

/// The themes of the given name, in their order.
pub open spec fn named(themes: Seq<Theme>, name: Seq<char>) -> Seq<Theme> {
    themes.filter(has_name(name))
}

/// No theme stands before one whose name comes before its own.
pub open spec fn ascending(themes: Seq<Theme>) -> bool {
    forall|i: int, j: int|
        0 <= i < j < themes.len() ==> !name_precedes(#[trigger] themes[j].name@, #[trigger] themes[i].name@)
}

/// `sorted` holds the themes of `themes` in ascending order of their names,
/// those of one name in the order in which they stand in `themes`.
pub open spec fn stably_sorted(themes: Seq<Theme>, sorted: Seq<Theme>) -> bool {
    &&& sorted.len() == themes.len()
    &&& ascending(sorted)
    &&& forall|name: Seq<char>| #[trigger] named(sorted, name) == named(themes, name)
}

/// The themes that a list of references points to.
pub open spec fn themes_of(references: Seq<&Theme>) -> Seq<Theme> {
    references.map_values(|theme: &Theme| *theme)
}

/// The themes that a query selects: all of them, or those of one appearance.
pub open spec fn selected(themes: Seq<Theme>, wanted: Option<Appearance>) -> Seq<Theme> {
    match wanted {
        None => themes,
        Some(appearance) => of_appearance(themes, appearance),
    }
}

proof fn named_push(themes: Seq<Theme>, theme: Theme, name: Seq<char>)
    ensures
        named(themes.push(theme), name) == if theme.name@ == name {
            named(themes, name).push(theme)
        } else {
            named(themes, name)
        },
{
    reveal(Seq::filter);
    assert(themes.push(theme).drop_last() =~= themes);
}

proof fn selected_push(themes: Seq<Theme>, theme: Theme, wanted: Option<Appearance>)
    ensures
        selected(themes.push(theme), wanted) == if wanted is None || wanted == Some(theme.appearance) {
            selected(themes, wanted).push(theme)
        } else {
            selected(themes, wanted)
        },
{
    reveal(Seq::filter);
    assert(themes.push(theme).drop_last() =~= themes);
}

proof fn named_insert(themes: Seq<Theme>, at: int, theme: Theme, name: Seq<char>)
    requires
        0 <= at <= themes.len(),
        forall|j: int| at <= j < themes.len() ==> (#[trigger] themes[j]).name@ != theme.name@,
    ensures
        named(themes.insert(at, theme), name) == named(themes.push(theme), name),
{
    let same = has_name(name);
    let front = themes.take(at);
    let back = themes.skip(at);
    assert(themes =~= front + back);
    assert(themes.insert(at, theme) =~= front.push(theme) + back);
    Seq::filter_distributes_over_add(front, back, same);
    Seq::filter_distributes_over_add(front.push(theme), back, same);
    named_push(front, theme, name);
    named_push(themes, theme, name);
    if theme.name@ == name {
        back.lemma_all_neg_filter_empty(same);
        assert(named(themes, name) =~= named(front, name));
        assert(named(themes.insert(at, theme), name) =~= named(front, name).push(theme));
    }
}

/// Some theme of a list that holds a theme of the given name.
proof fn some_named(themes: Seq<Theme>, name: Seq<char>) -> (at: int)
    requires
        named(themes, name).len() > 0,
    ensures
        0 <= at < themes.len(),
        themes[at].name@ == name,
{
    if forall|i: int| 0 <= i < themes.len() ==> !has_name(name)(#[trigger] themes[i]) {
        themes.lemma_all_neg_filter_empty(has_name(name));
    }
    choose|i: int| 0 <= i < themes.len() && has_name(name)(#[trigger] themes[i])
}

proof fn same_order(first: Seq<Theme>, second: Seq<Theme>)
    requires
        first.len() == second.len(),
        ascending(first),
        ascending(second),
        forall|name: Seq<char>| #[trigger] named(first, name) == named(second, name),
    ensures
        first == second,
    decreases first.len(),
{
    if first.len() == 0 {
        assert(first =~= second);
    } else {
        let x = first.last();
        let y = second.last();
        let a = first.drop_last();
        let b = second.drop_last();
        assert(first =~= a.push(x));
        assert(second =~= b.push(y));
        named_push(a, x, x.name@);
        named_push(b, y, y.name@);
        assert(named(first, x.name@) == named(second, x.name@));
        assert(named(first, y.name@) == named(second, y.name@));
        let i = some_named(second, x.name@);
        let j = some_named(first, y.name@);
        if x.name@ != y.name@ {
            assert(!name_precedes(second[second.len() - 1].name@, second[i].name@));
            assert(!name_precedes(first[first.len() - 1].name@, first[j].name@));
            name_precedes_total(x.name@, y.name@);
        }
        named_push(b, y, x.name@);
        assert(named(a, x.name@).push(x) == named(b, x.name@).push(y));
        assert(named(a, x.name@).push(x).last() == x);
        assert(x == y);
        assert forall|name: Seq<char>| #[trigger] named(a, name) == named(b, name) by {
            named_push(a, x, name);
            named_push(b, y, name);
            assert(named(first, name) == named(second, name));
            if x.name@ == name {
                assert(named(a, name).push(x).drop_last() =~= named(a, name));
                assert(named(b, name).push(y).drop_last() =~= named(b, name));
            }
        }
        assert forall|i: int, j: int| 0 <= i < j < a.len() implies !name_precedes(
            #[trigger] a[j].name@,
            #[trigger] a[i].name@,
        ) by {
            assert(a[i] == first[i] && a[j] == first[j]);
        }
        assert forall|i: int, j: int| 0 <= i < j < b.len() implies !name_precedes(
            #[trigger] b[j].name@,
            #[trigger] b[i].name@,
        ) by {
            assert(b[i] == second[i] && b[j] == second[j]);
        }
        same_order(a, b);
    }
}

/// A list of themes has one stable order by name: two lists that both hold
/// its themes in ascending order of their names, those of one name in the
/// order of the list, are the same list.
pub proof fn stable_order_unique(themes: Seq<Theme>, first: Seq<Theme>, second: Seq<Theme>)
    requires
        stably_sorted(themes, first),
        stably_sorted(themes, second),
    ensures
        first == second,
{
    assert forall|name: Seq<char>| #[trigger] named(first, name) == named(second, name) by {
        assert(named(first, name) == named(themes, name));
        assert(named(second, name) == named(themes, name));
    }
    same_order(first, second);
}

/// Puts the theme behind the themes whose names do not come after its own,
/// and before all the others.
fn insert_by_name<'a>(sorted: &mut Vec<&'a Theme>, theme: &'a Theme)
    requires
        ascending(themes_of(old(sorted)@)),
    ensures
        final(sorted)@.len() == old(sorted)@.len() + 1,
        ascending(themes_of(final(sorted)@)),
        forall|name: Seq<char>| #[trigger]
            named(themes_of(final(sorted)@), name) == named(themes_of(old(sorted)@).push(*theme), name),
{
    let ghost before = themes_of(sorted@);
    let mut low: usize = 0;
    let mut high: usize = sorted.len();
    while low < high
        invariant
            low <= high <= sorted@.len(),
            sorted@ == old(sorted)@,
            before == themes_of(sorted@),
            ascending(before),
            forall|i: int| 0 <= i < low ==> !name_precedes(theme.name@, (#[trigger] before[i]).name@),
            forall|i: int| high <= i < before.len() ==> name_precedes(theme.name@, (#[trigger] before[i]).name@),
        decreases high - low,
    {
        let middle = low + (high - low) / 2;
        let ghost pivot = before[middle as int].name@;
        if name_order(theme.name.as_str(), sorted[middle].name.as_str()) == NameOrder::Before {
            assert forall|i: int| middle <= i < before.len() implies name_precedes(
                theme.name@,
                (#[trigger] before[i]).name@,
            ) by {
                if middle < i {
                    assert(!name_precedes(before[i].name@, before[middle as int].name@));
                    name_precedes_extends(theme.name@, pivot, before[i].name@);
                }
            }
            high = middle;
        } else {
            assert forall|i: int| 0 <= i < middle + 1 implies !name_precedes(
                theme.name@,
                (#[trigger] before[i]).name@,
            ) by {
                if i < middle {
                    assert(!name_precedes(before[middle as int].name@, before[i].name@));
                    name_follows_transitive(before[i].name@, pivot, theme.name@);
                }
            }
            low = middle + 1;
        }
    }
    sorted.insert(low, theme);
    proof {
        let at = low as int;
        let after = themes_of(sorted@);
        assert(after =~= before.insert(at, *theme));
        assert forall|j: int| at <= j < before.len() implies (#[trigger] before[j]).name@
            != theme.name@ by {
            name_precedes_asymmetric(theme.name@, before[j].name@);
        }
        assert forall|name: Seq<char>| #[trigger]
            named(after, name) == named(before.push(*theme), name) by {
            named_insert(before, at, *theme, name);
        }
        assert forall|i: int, j: int| 0 <= i < j < after.len() implies !name_precedes(
            #[trigger] after[j].name@,
            #[trigger] after[i].name@,
        ) by {
            if j == at {
                assert(after[i] == before[i]);
            } else if i == at {
                assert(after[j] == before[j - 1]);
                name_precedes_asymmetric(theme.name@, before[j - 1].name@);
            } else {
                let i0 = if i < at {
                    i
                } else {
                    i - 1
                };
                let j0 = if j < at {
                    j
                } else {
                    j - 1
                };
                assert(after[i] == before[i0] && after[j] == before[j0]);
                assert(!name_precedes(before[j0].name@, before[i0].name@));
            }
        }
    }
}

/// The registry: the theme families, in the order in which they were added.
#[derive(Debug)]
pub struct ThemeRegistry {
    pub families: Vec<ThemeFamily>,
}

impl ThemeRegistry {
    /// A registry without families.
    pub fn new() -> (registry: ThemeRegistry)
        ensures
            registry.families@ == Seq::<ThemeFamily>::empty(),
    {
        ThemeRegistry { families: Vec::new() }
    }

    /// Appends a family.
    pub fn add_family(&mut self, family: ThemeFamily)
        ensures
            final(self).families@ == old(self).families@.push(family),
    {
        self.families.push(family);
    }

    fn collect(&self, wanted: Option<Appearance>) -> (sorted: Vec<&Theme>)
        ensures
            stably_sorted(selected(family_variants(self.families@), wanted), themes_of(sorted@)),
    {
        let mut sorted: Vec<&Theme> = Vec::new();
        let ghost mut seen: Seq<Theme> = Seq::empty();
        let mut f: usize = 0;
        proof {
            assert(self.families@.take(0) =~= Seq::<ThemeFamily>::empty());
            assert(themes_of(sorted@) =~= selected(seen, wanted)) by {
                reveal(Seq::filter);
            }
        }
        while f < self.families.len()
            invariant
                f <= self.families@.len(),
                seen == family_variants(self.families@.take(f as int)),
                stably_sorted(selected(seen, wanted), themes_of(sorted@)),
            decreases self.families@.len() - f,
        {
            let family = &self.families[f];
            let ghost start = seen;
            let mut v: usize = 0;
            assert(family.variants@.take(0) =~= Seq::<Theme>::empty());
            assert(seen =~= start + family.variants@.take(0));
            while v < family.variants.len()
                invariant
                    v <= family.variants@.len(),
                    seen == start + family.variants@.take(v as int),
                    stably_sorted(selected(seen, wanted), themes_of(sorted@)),
                decreases family.variants@.len() - v,
            {
                let variant = &family.variants[v];
                let ghost chosen = selected(seen, wanted);
                let ghost before = themes_of(sorted@);
                proof {
                    selected_push(seen, *variant, wanted);
                    assert(family.variants@.take(v + 1) =~= family.variants@.take(v as int).push(*variant));
                    assert(start + family.variants@.take(v + 1) =~= seen.push(*variant));
                }
                let keep = match wanted {
                    None => true,
                    Some(appearance) => variant.appearance == appearance,
                };
                if keep {
                    insert_by_name(&mut sorted, variant);
                    proof {
                        let after = themes_of(sorted@);
                        assert forall|name: Seq<char>| #[trigger]
                            named(after, name) == named(chosen.push(*variant), name) by {
                            named_push(before, *variant, name);
                            named_push(chosen, *variant, name);
                            assert(named(before, name) == named(chosen, name));
                        }
                    }
                }
                proof {
                    seen = seen.push(*variant);
                }
                v += 1;
            }
            proof {
                let next = self.families@.take(f + 1);
                assert(next.drop_last() =~= self.families@.take(f as int));
                assert(next.last() == self.families@[f as int]);
                assert(family.variants@.take(v as int) =~= family.variants@);
            }
            f += 1;
        }
        assert(self.families@.take(f as int) =~= self.families@);
        sorted
    }

    /// Every variant of every family, in ascending order of the variants'
    /// names; variants of one name keep the order in which they were added.
    pub fn all_themes(&self) -> (themes: Vec<&Theme>)
        ensures
            stably_sorted(family_variants(self.families@), themes_of(themes@)),
    {
        self.collect(None)
    }

    /// The dark variants of every family, ordered as `all_themes` orders them.
    pub fn all_dark(&self) -> (themes: Vec<&Theme>)
        ensures
            stably_sorted(
                of_appearance(family_variants(self.families@), Appearance::Dark),
                themes_of(themes@),
            ),
    {
        self.collect(Some(Appearance::Dark))
    }

    /// The light variants of every family, ordered as `all_themes` orders them.
    pub fn all_light(&self) -> (themes: Vec<&Theme>)
        ensures
            stably_sorted(
                of_appearance(family_variants(self.families@), Appearance::Light),
                themes_of(themes@),
            ),
    {
        self.collect(Some(Appearance::Light))
    }
}

} // verus!
