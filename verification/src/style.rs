//! Deciding how a feature is drawn.
//!
//! The resolver walks the configured categories in order and takes the
//! first one that matches the feature's tags: the feature must carry the
//! category's tag key, and either the category is wildcard-enabled or the
//! tag's value is one of its enabled toggles.  Linear categories (roads and
//! rails) get no fill and sit at a lower elevation than polygonal features,
//! so roads render under buildings.  A feature no enabled category matches
//! is excluded from the render set entirely.

use vstd::prelude::*;
use crate::feature::MapFeature;
use crate::feature::str_eq_fold;
use crate::feature::str_matches_fold;
use crate::feature::tag_lookup;
use crate::settings::Category;
use crate::settings::Color;
use crate::settings::SettingsOverlay;
use crate::settings::TagToggle;

verus! {

/// What the renderer needs for one feature: an optional fill color, the
/// stroke color, the stroke width in tenths of a unit, and the elevation
/// layer (lower draws first, hence underneath).
#[derive(Clone, Copy, Debug, PartialEq, Eq, Structural)]
pub struct StyleDecision {
    pub fill: Option<Color>,
    pub stroke: Color,
    pub width_tenths: u32,
    pub elevation: u8,
}

/// The fallback color used where no per-value color is configured.
pub open spec fn default_gray() -> Color {
    Color { r: 102, g: 102, b: 102 }
}

/// Categories whose features are lines, not areas.
pub open spec fn is_linear(key: Seq<char>) -> bool {
    str_eq_fold(key, "highway"@) || str_eq_fold(key, "railway"@)
}

/// Road classes drawn wider than the rest.
pub open spec fn is_major_road(value: Seq<char>) -> bool {
    str_eq_fold(value, "residential"@) || str_eq_fold(value, "primary"@) || str_eq_fold(
        value,
        "secondary"@,
    ) || str_eq_fold(value, "tertiary"@)
}

/// The style a matched category assigns, given the tag value it matched
/// and the color chosen for it.
pub open spec fn decide(key: Seq<char>, value: Seq<char>, color: Color) -> StyleDecision {
    if is_linear(key) {
        StyleDecision {
            fill: None,
            stroke: color,
            width_tenths: if is_major_road(value) {
                55
            } else {
                25
            },
            elevation: 0,
        }
    } else {
        StyleDecision { fill: Some(color), stroke: color, width_tenths: 10, elevation: 1 }
    }
}

/// The first enabled toggle whose value matches `v` up to ASCII case.
pub open spec fn item_match(items: Seq<TagToggle>, v: Seq<char>) -> Option<TagToggle>
    decreases items.len(),
{
    if items.len() == 0 {
        None
    } else if items[0].enabled && str_eq_fold(items[0].value@, v) {
        Some(items[0])
    } else {
        item_match(items.drop_first(), v)
    }
}

/// What one category decides for a feature: nothing when it is disabled,
/// when the feature lacks its tag key, or when the tag's value is not
/// enabled; otherwise the style, colored by the matched toggle, or by the
/// default gray for a wildcard match.
pub open spec fn cat_decision(c: Category, tags: Seq<(String, String)>) -> Option<StyleDecision> {
    if c.disabled {
        None
    } else {
        match tag_lookup(tags, c.key@) {
            None => None,
            Some(v) => if c.all {
                Some(decide(c.key@, v@, default_gray()))
            } else {
                match item_match(c.items@, v@) {
                    None => None,
                    Some(t) => Some(decide(c.key@, v@, t.color)),
                }
            },
        }
    }
}

/// The first category, in configuration order, that decides.
pub open spec fn resolve_spec(cats: Seq<Category>, tags: Seq<(String, String)>) -> Option<
    StyleDecision,
>
    decreases cats.len(),
{
    if cats.len() == 0 {
        None
    } else {
        match cat_decision(cats[0], tags) {
            Some(d) => Some(d),
            None => resolve_spec(cats.drop_first(), tags),
        }
    }
}

fn find_item(items: &Vec<TagToggle>, v: &str) -> (r: Option<Color>)
    ensures
        r is Some <==> item_match(items@, v@) is Some,
        r is Some ==> item_match(items@, v@)->0.color == r->0,
{
    let mut i: usize = 0;
    proof {
        assert(items@.skip(0) =~= items@);
    }
    while i < items.len()
        invariant
            i <= items@.len(),
            item_match(items@, v@) == item_match(items@.skip(i as int), v@),
        decreases items@.len() - i,
    {
        proof {
            assert(items@.skip(i as int)[0] == items@[i as int]);
            assert(items@.skip(i as int).drop_first() =~= items@.skip(i + 1));
        }
        if items[i].enabled && str_matches_fold(items[i].value.as_str(), v) {
            return Some(items[i].color);
        }
        i = i + 1;
    }
    proof {
        assert(items@.skip(items@.len() as int) =~= Seq::<TagToggle>::empty());
    }
    None
}

/// Resolve the style of one feature under the current configuration, or
/// `None` when no enabled category matches it.
pub fn resolve(feature: &MapFeature, settings: &SettingsOverlay) -> (r: Option<StyleDecision>)
    ensures
        r == resolve_spec(settings.categories@, feature.properties.pairs_spec()),
{
    let ghost tags = feature.properties.pairs_spec();
    let mut i: usize = 0;
    proof {
        assert(settings.categories@.skip(0) =~= settings.categories@);
    }
    while i < settings.categories.len()
        invariant
            i <= settings.categories@.len(),
            tags == feature.properties.pairs_spec(),
            resolve_spec(settings.categories@, tags) == resolve_spec(
                settings.categories@.skip(i as int),
                tags,
            ),
        decreases settings.categories@.len() - i,
    {
        proof {
            assert(settings.categories@.skip(i as int)[0] == settings.categories@[i as int]);
            assert(settings.categories@.skip(i as int).drop_first() =~= settings.categories@.skip(
                i + 1,
            ));
        }
        let c = &settings.categories[i];
        if !c.disabled {
            if let Some(v) = feature.properties.get(c.key.as_str()) {
                if c.all {
                    return Some(
                        build_decision(c.key.as_str(), v.as_str(), Color { r: 102, g: 102, b: 102 }),
                    );
                } else {
                    if let Some(color) = find_item(&c.items, v.as_str()) {
                        return Some(build_decision(c.key.as_str(), v.as_str(), color));
                    }
                }
            }
        }
        i = i + 1;
    }
    proof {
        assert(settings.categories@.skip(settings.categories@.len() as int) =~= Seq::<
            Category,
        >::empty());
    }
    None
}

/// The executable twin of `decide`.
fn build_decision(key: &str, value: &str, color: Color) -> (d: StyleDecision)
    ensures
        d == decide(key@, value@, color),
{
    if str_matches_fold(key, "highway") || str_matches_fold(key, "railway") {
        let width: u32 = if str_matches_fold(value, "residential") || str_matches_fold(
            value,
            "primary",
        ) || str_matches_fold(value, "secondary") || str_matches_fold(value, "tertiary") {
            55
        } else {
            25
        };
        StyleDecision { fill: None, stroke: color, width_tenths: width, elevation: 0 }
    } else {
        StyleDecision { fill: Some(color), stroke: color, width_tenths: 10, elevation: 1 }
    }
}

} // verus!
