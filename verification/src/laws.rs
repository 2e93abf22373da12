//! The engine's guarantees, stated and proved once, over the same spec
//! functions that the executable functions' contracts use.

use vstd::prelude::*;

use crate::feature::SpecFeature;
use crate::filter::{lemma_eval_list, spec_eval, spec_eval_list, spec_resolve, Filter};
use crate::style::{
    spec_checked_props, spec_contributions, spec_is_drawn, spec_is_rendered, spec_layout_visible,
    spec_paint_lookup, spec_prop_not_zero, spec_should_keep, spec_style_layers,
    spec_visible_on_zoom, spec_zoom_scaled, MapboxStyleLayer, PaintValue, SourceGroup,
};
use crate::tri::{combine_any, lemma_definite_wins, FilterResult};

verus! {

/// A layer with both zoom bounds set, and no hiding layout flag, is
/// structurally visible exactly on the half-open window `[minzoom,
/// maxzoom)`: it is visible at its minzoom and invisible at its maxzoom.
pub proof fn lemma_zoom_window(l: MapboxStyleLayer, z: u8, lo: i64, hi: i64)
    requires
        l.minzoom == Option::<i64>::Some(lo),
        l.maxzoom == Option::<i64>::Some(hi),
        spec_layout_visible(l),
    ensures
        spec_visible_on_zoom(l, z) <==> (lo <= spec_zoom_scaled(z) < hi),
{
}

/// A layer whose layout visibility is exactly `"none"` is never drawn,
/// whatever its zoom bounds and paint say.
pub proof fn lemma_visibility_none_hides(l: MapboxStyleLayer, z: u8)
    requires
        l.visibility matches Option::Some(v) && v@ == "none"@,
    ensures
        !spec_is_drawn(l, z),
{
}

/// A paint property absent from the layer's paint set never blocks
/// rendering.
pub proof fn lemma_absent_paint_never_blocks(l: MapboxStyleLayer, name: Seq<char>, z: u8)
    requires
        spec_paint_lookup(l.paint@, name) is None,
    ensures
        spec_prop_not_zero(l, name, z),
{
}

/// A constant zero under a checked paint property always blocks rendering,
/// at every zoom.
pub proof fn lemma_zero_paint_blocks(l: MapboxStyleLayer, name: Seq<char>, z: u8)
    requires
        spec_checked_props().contains(name),
        spec_paint_lookup(l.paint@, name) == Option::Some(PaintValue::Constant(0)),
    ensures
        !spec_is_rendered(l, z),
{
    let i = choose|i: int|
        0 <= i < spec_checked_props().len() && spec_checked_props()[i] == name;
    assert(!spec_prop_not_zero(l, spec_checked_props()[i], z));
}

/// An equality, inequality or membership predicate whose operand resolves
/// to no value yields `Unknown`, never `False`.
pub proof fn lemma_missing_operand_unknown(flt: Filter, ft: SpecFeature)
    requires
        match flt {
            Filter::Equals(k, _) => spec_resolve(k, ft) is None,
            Filter::NotEquals(k, _) => spec_resolve(k, ft) is None,
            Filter::OneOf(k, _) => spec_resolve(k, ft) is None,
            Filter::NotOneOf(k, _) => spec_resolve(k, ft) is None,
            _ => false,
        },
    ensures
        spec_eval(flt, ft) == FilterResult::Unknown,
{
}

/// Existence tests are always definite: `has` and `!has` never yield
/// `Unknown`, against any feature.
pub proof fn lemma_existence_definite(key: String, ft: SpecFeature)
    ensures
        spec_eval(Filter::Has(key), ft) != FilterResult::Unknown,
        spec_eval(Filter::NotHas(key), ft) != FilterResult::Unknown,
{
}

/// Empty-combinator identities: an empty conjunction holds, an empty
/// disjunction fails, and an empty negated disjunction holds.
pub proof fn lemma_empty_combinator_identities(subs: Vec<Filter>, ft: SpecFeature)
    requires
        subs@.len() == 0,
    ensures
        spec_eval(Filter::AllOf(subs), ft) == FilterResult::True,
        spec_eval(Filter::AnyOf(subs), ft) == FilterResult::False,
        spec_eval(Filter::NoneOf(subs), ft) == FilterResult::True,
{
}

/// A definite sub-result decides a combinator whatever its siblings are,
/// `Unknown` ones included: one `True` sub-filter decides a disjunction,
/// and one `False` sub-filter decides a conjunction.
pub proof fn lemma_definite_sub_decides(subs: Vec<Filter>, ft: SpecFeature, i: int)
    requires
        0 <= i < subs@.len(),
    ensures
        spec_eval(subs@[i], ft) == FilterResult::True ==> spec_eval(Filter::AnyOf(subs), ft)
            == FilterResult::True,
        spec_eval(subs@[i], ft) == FilterResult::False ==> spec_eval(Filter::AllOf(subs), ft)
            == FilterResult::False,
{
    lemma_eval_list(subs@, ft);
    lemma_definite_wins(spec_eval_list(subs@, ft), i);
}

/// The keep decision over the layers sharing one source-layer is exactly
/// their three-valued disjunction: the contributions of the drawn layers
/// combined as `any`, and `False` where no layer is bound to the name.
pub proof fn lemma_keep_is_disjunction(
    groups: Seq<SourceGroup>,
    name: Seq<char>,
    zoom: u8,
    ft: SpecFeature,
)
    ensures
        spec_style_layers(groups, name) matches Option::Some(ls) ==> spec_should_keep(
            groups,
            name,
            zoom,
            ft,
        ) == combine_any(spec_contributions(ls, zoom, ft)),
        spec_style_layers(groups, name) is None ==> spec_should_keep(groups, name, zoom, ft)
            == FilterResult::False,
{
}

} // verus!
