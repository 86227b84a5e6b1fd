//! The per-category configuration that the UI collaborator supplies: which
//! tag categories and values are enabled, and the colors chosen for them.
//! The query builder and the style resolver both read it; nothing here
//! writes back to the UI.

use vstd::prelude::*;

verus! {

/// An opaque display color with eight bits per channel.
#[derive(Clone, Copy, Debug, PartialEq, Eq, Structural)]
pub struct Color {
    pub r: u8,
    pub g: u8,
    pub b: u8,
}

/// One selectable tag value of a category, e.g. `"primary"` under
/// `"highway"`, with its enabled flag and display color.
#[derive(Clone, Debug)]
pub struct TagToggle {
    pub value: String,
    pub enabled: bool,
    pub color: Color,
}

/// One tag category: a display name, the canonical lower-case tag key it
/// filters on (see `key_canonical`), a disabled switch that grays the
/// whole category out, a wildcard flag that enables every value, and the
/// individual toggles.
#[derive(Clone, Debug)]
pub struct Category {
    pub name: String,
    pub key: String,
    pub disabled: bool,
    pub all: bool,
    pub items: Vec<TagToggle>,
}

/// The whole layer panel: all categories, in display order.
#[derive(Clone, Debug)]
pub struct SettingsOverlay {
    pub categories: Vec<Category>,
}

/// The `(key, value)` filters that the enabled toggles of one item list
/// contribute; `None` never occurs here (no wildcard at this level).
pub open spec fn item_pairs(key: Seq<char>, items: Seq<TagToggle>) -> Seq<
    (Seq<char>, Option<Seq<char>>),
>
    decreases items.len(),
{
    if items.len() == 0 {
        Seq::empty()
    } else {
        let pre = item_pairs(key, items.drop_last());
        if items.last().enabled {
            pre.push((key, Some(items.last().value@)))
        } else {
            pre
        }
    }
}

/// The filters one category contributes: none when it is disabled; the
/// single wildcard filter `(key, None)` when every value is enabled, so
/// that specific values are skipped as redundant (wildcard wins); else one
/// filter per enabled value.
pub open spec fn cat_pairs(c: Category) -> Seq<(Seq<char>, Option<Seq<char>>)> {
    if c.disabled {
        Seq::empty()
    } else if c.all {
        seq![(c.key@, None::<Seq<char>>)]
    } else {
        item_pairs(c.key@, c.items@)
    }
}

/// All filters of the whole configuration, category by category.
pub open spec fn enabled_pairs(cats: Seq<Category>) -> Seq<(Seq<char>, Option<Seq<char>>)>
    decreases cats.len(),
{
    if cats.len() == 0 {
        Seq::empty()
    } else {
        enabled_pairs(cats.drop_last()) + cat_pairs(cats.last())
    }
}

/// The string holds no upper-case ASCII letter: the canonical form of a
/// tag key, as the remote query language expects it.
pub open spec fn key_canonical(s: Seq<char>) -> bool {
    forall|i: int| 0 <= i < s.len() ==> !('A' <= #[trigger] s[i] <= 'Z')
}

/// Every category carries its tag key in canonical lower-case form.
pub open spec fn keys_canonical(cats: Seq<Category>) -> bool {
    forall|c: int| 0 <= c < cats.len() ==> key_canonical((#[trigger] cats[c]).key@)
}

/// The view of an executable filter pair.
pub open spec fn pair_view(p: (String, Option<String>)) -> (Seq<char>, Option<Seq<char>>) {
    (p.0@, if p.1 is Some {
        Some(p.1->0@)
    } else {
        None
    })
}

impl Category {
    /// Set every individual toggle of this category to `enabled`, keeping
    /// values and colors.
    pub fn set_children(&mut self, enabled: bool)
        ensures
            final(self).name == old(self).name,
            final(self).key == old(self).key,
            final(self).disabled == old(self).disabled,
            final(self).all == old(self).all,
            final(self).items@.len() == old(self).items@.len(),
            forall|i: int|
                0 <= i < old(self).items@.len() ==> (#[trigger] final(self).items@[i]).value
                    == old(self).items@[i].value && final(self).items@[i].color
                    == old(self).items@[i].color && final(self).items@[i].enabled == enabled,
    {
        let mut i: usize = 0;
        while i < self.items.len()
            invariant
                i <= self.items@.len(),
                self.name == old(self).name,
                self.key == old(self).key,
                self.disabled == old(self).disabled,
                self.all == old(self).all,
                self.items@.len() == old(self).items@.len(),
                forall|t: int|
                    0 <= t < self.items@.len() ==> (#[trigger] self.items@[t]).value == old(
                        self,
                    ).items@[t].value && self.items@[t].color == old(self).items@[t].color,
                forall|t: int| 0 <= t < i ==> (#[trigger] self.items@[t]).enabled == enabled,
            decreases self.items@.len() - i,
        {
            let value = self.items[i].value.clone();
            let color = self.items[i].color;
            self.items.set(i, TagToggle { value, enabled, color });
            i = i + 1;
        }
    }
}

impl SettingsOverlay {
    /// An empty panel with no categories.
    pub fn new() -> (s: SettingsOverlay)
        ensures
            s.categories@.len() == 0,
    {
        SettingsOverlay { categories: Vec::new() }
    }

    /// All enabled `(key, value)` filters, with `None` standing for a
    /// wildcard-enabled category.
    pub fn enabled_filters(&self) -> (res: Vec<(String, Option<String>)>)
        ensures
            res@.map_values(|p: (String, Option<String>)| pair_view(p)) == enabled_pairs(
                self.categories@,
            ),
    {
        let mut res: Vec<(String, Option<String>)> = Vec::new();
        let mut i: usize = 0;
        proof {
            assert(self.categories@.take(0) =~= Seq::<Category>::empty());
            assert(res@.map_values(|p: (String, Option<String>)| pair_view(p)) =~= enabled_pairs(
                self.categories@.take(0),
            ));
        }
        while i < self.categories.len()
            invariant
                i <= self.categories@.len(),
                res@.map_values(|p: (String, Option<String>)| pair_view(p)) == enabled_pairs(
                    self.categories@.take(i as int),
                ),
            decreases self.categories@.len() - i,
        {
            let c = &self.categories[i];
            let ghost pre = res@;
            if !c.disabled {
                if c.all {
                    res.push((c.key.clone(), None));
                    proof {
                        assert(res@.map_values(|p: (String, Option<String>)| pair_view(p))
                            =~= pre.map_values(|p: (String, Option<String>)| pair_view(p)).push(
                            (c.key@, None::<Seq<char>>),
                        ));
                        assert(cat_pairs(self.categories@[i as int]) =~= seq![
                            (c.key@, None::<Seq<char>>),
                        ]);
                        assert(enabled_pairs(self.categories@.take(i as int)).push(
                            (c.key@, None::<Seq<char>>),
                        ) =~= enabled_pairs(self.categories@.take(i as int)) + cat_pairs(
                            self.categories@[i as int],
                        ));
                    }
                } else {
                    let mut j: usize = 0;
                    proof {
                        assert(c.items@.take(0) =~= Seq::<TagToggle>::empty());
                        assert(pre.map_values(|p: (String, Option<String>)| pair_view(p))
                            + item_pairs(c.key@, c.items@.take(0)) =~= pre.map_values(
                            |p: (String, Option<String>)| pair_view(p),
                        ));
                    }
                    while j < c.items.len()
                        invariant
                            j <= c.items@.len(),
                            0 <= i < self.categories@.len(),
                            c == &self.categories@[i as int],
                            res@.map_values(|p: (String, Option<String>)| pair_view(p))
                                == pre.map_values(|p: (String, Option<String>)| pair_view(p))
                                + item_pairs(c.key@, c.items@.take(j as int)),
                        decreases c.items@.len() - j,
                    {
                        let ghost prej = res@;
                        if c.items[j].enabled {
                            res.push((c.key.clone(), Some(c.items[j].value.clone())));
                        }
                        proof {
                            assert(c.items@.take(j + 1).drop_last() =~= c.items@.take(j as int));
                            assert(c.items@.take(j + 1).last() == c.items@[j as int]);
                            if c.items@[j as int].enabled {
                                assert(res@.map_values(|p: (String, Option<String>)| pair_view(p))
                                    =~= prej.map_values(
                                    |p: (String, Option<String>)| pair_view(p),
                                ).push((c.key@, Some(c.items@[j as int].value@))));
                                assert(prej.map_values(|p: (String, Option<String>)| pair_view(p)).push(
                                    (c.key@, Some(c.items@[j as int].value@)),
                                ) =~= pre.map_values(|p: (String, Option<String>)| pair_view(p))
                                    + item_pairs(c.key@, c.items@.take(j + 1)));
                            }
                        }
                        j = j + 1;
                    }
                    proof {
                        assert(c.items@.take(c.items@.len() as int) =~= c.items@);
                    }
                }
            }
            proof {
                assert(self.categories@.take(i + 1).drop_last() =~= self.categories@.take(i as int));
                assert(self.categories@.take(i + 1).last() == self.categories@[i as int]);
                if self.categories@[i as int].disabled {
                    assert(enabled_pairs(self.categories@.take(i as int)) + cat_pairs(
                        self.categories@[i as int],
                    ) =~= enabled_pairs(self.categories@.take(i as int)));
                }
                assert(res@.map_values(|p: (String, Option<String>)| pair_view(p)) =~= enabled_pairs(
                    self.categories@.take(i + 1),
                ));
            }
            i = i + 1;
        }
        proof {
            assert(self.categories@.take(self.categories@.len() as int) =~= self.categories@);
        }
        res
    }

    /// The panel listing: every enabled filter, with the wildcard
    /// written as the value `"*"`.
    pub fn get_true_keys_with_category(&self) -> (res: Vec<(String, String)>)
        ensures
            res@.len() == enabled_pairs(self.categories@).len(),
            forall|j: int|
                0 <= j < res@.len() ==> (#[trigger] res@[j]).0@ == enabled_pairs(
                    self.categories@,
                )[j].0 && (if enabled_pairs(self.categories@)[j].1 is Some {
                    res@[j].1@ == enabled_pairs(self.categories@)[j].1->0
                } else {
                    res@[j].1@ == "*"@
                }),
    {
        let filters = self.enabled_filters();
        let mut res: Vec<(String, String)> = Vec::new();
        let ghost pairs = enabled_pairs(self.categories@);
        let mut i: usize = 0;
        while i < filters.len()
            invariant
                i <= filters@.len(),
                filters@.map_values(|p: (String, Option<String>)| pair_view(p)) == pairs,
                res@.len() == i,
                forall|j: int|
                    0 <= j < i ==> (#[trigger] res@[j]).0@ == pairs[j].0 && (if pairs[j].1
                        is Some {
                        res@[j].1@ == pairs[j].1->0
                    } else {
                        res@[j].1@ == "*"@
                    }),
            decreases filters@.len() - i,
        {
            proof {
                assert(pairs[i as int] == pair_view(filters@[i as int]));
            }
            let key = filters[i].0.clone();
            match &filters[i].1 {
                Some(v) => {
                    res.push((key, v.clone()));
                },
                None => {
                    res.push((key, new_star()));
                },
            }
            i = i + 1;
        }
        res
    }

    /// The names of the categories that are grayed out entirely.
    pub fn get_disabled_categories(&self) -> (res: Vec<String>)
        ensures
            res@.map_values(|s: String| s@) == disabled_names(self.categories@),
    {
        let mut res: Vec<String> = Vec::new();
        let mut i: usize = 0;
        proof {
            assert(self.categories@.take(0) =~= Seq::<Category>::empty());
            assert(res@.map_values(|s: String| s@) =~= disabled_names(self.categories@.take(0)));
        }
        while i < self.categories.len()
            invariant
                i <= self.categories@.len(),
                res@.map_values(|s: String| s@) == disabled_names(self.categories@.take(i as int)),
            decreases self.categories@.len() - i,
        {
            let ghost pre = res@;
            if self.categories[i].disabled {
                res.push(self.categories[i].name.clone());
                proof {
                    assert(res@.map_values(|s: String| s@) =~= pre.map_values(|s: String| s@).push(
                        self.categories@[i as int].name@,
                    ));
                }
            }
            proof {
                assert(self.categories@.take(i + 1).drop_last() =~= self.categories@.take(i as int));
                assert(self.categories@.take(i + 1).last() == self.categories@[i as int]);
                assert(res@.map_values(|s: String| s@) =~= disabled_names(
                    self.categories@.take(i + 1),
                ));
            }
            i = i + 1;
        }
        proof {
            assert(self.categories@.take(self.categories@.len() as int) =~= self.categories@);
        }
        res
    }
}

/// The names of the disabled categories, in order.
pub open spec fn disabled_names(cats: Seq<Category>) -> Seq<Seq<char>>
    decreases cats.len(),
{
    if cats.len() == 0 {
        Seq::empty()
    } else {
        let pre = disabled_names(cats.drop_last());
        if cats.last().disabled {
            pre.push(cats.last().name@)
        } else {
            pre
        }
    }
}

/// The wildcard marker of the panel listing.
fn new_star() -> (s: String)
    ensures
        s@ == "*"@,
{
    proof {
        reveal_strlit("*");
    }
    "*".to_owned()
}

} // verus!
