//! Style layers, paint-based visibility, and the style document model.
//!
//! A style layer carries optional zoom bounds with half-open `[minzoom,
//! maxzoom)` semantics, an optional layout visibility flag, a paint-property
//! mapping and an optional filter. Zoom bounds and paint values are held in
//! the same fixed-point form as property numbers (millionths, see
//! `value::NUM_SCALE`), so a fractional bound from the style source keeps
//! its exact decimal meaning against integer query zooms.

use vstd::prelude::*;

use crate::feature::{FeatureView, SpecFeature};
use crate::filter::{spec_eval, spec_filter_model, Filter, SpecFilter};
use crate::tri::{combine_any, has_result, FilterResult};
use crate::value::NUM_SCALE;

verus! {

/// Mathematical model of a `PaintValue`.
pub enum SpecPaint {
    Constant(int),
    Stops(Seq<(u8, int)>),
}

/// Mathematical model of a `MapboxStyleLayer`.
pub struct SpecLayer {
    pub minzoom: Option<int>,
    pub maxzoom: Option<int>,
    pub visibility: Option<Seq<char>>,
    pub paint: Seq<(Seq<char>, SpecPaint)>,
    pub filter: Option<SpecFilter>,
}

/// The models of a stop table's entries.
pub open spec fn spec_stop_models(stops: Seq<(u8, i64)>) -> Seq<(u8, int)> {
    stops.map_values(|s: (u8, i64)| (s.0, s.1 as int))
}

/// The model of a paint value.
pub open spec fn spec_paint_model(p: PaintValue) -> SpecPaint {
    match p {
        PaintValue::Constant(v) => SpecPaint::Constant(v as int),
        PaintValue::Stops(stops) => SpecPaint::Stops(spec_stop_models(stops@)),
    }
}

/// The models of a paint mapping's entries.
pub open spec fn spec_paint_entry_models(paint: Seq<(String, PaintValue)>) -> Seq<
    (Seq<char>, SpecPaint),
> {
    paint.map_values(|p: (String, PaintValue)| (p.0@, spec_paint_model(p.1)))
}

/// The model of a style layer.
pub open spec fn spec_layer_model(l: MapboxStyleLayer) -> SpecLayer {
    SpecLayer {
        minzoom: match l.minzoom {
            Option::Some(m) => Option::Some(m as int),
            Option::None => Option::None,
        },
        maxzoom: match l.maxzoom {
            Option::Some(m) => Option::Some(m as int),
            Option::None => Option::None,
        },
        visibility: match l.visibility {
            Option::Some(s) => Option::Some(s@),
            Option::None => Option::None,
        },
        paint: spec_paint_entry_models(l.paint@),
        filter: match l.filter {
            Option::Some(f) => Option::Some(spec_filter_model(f)),
            Option::None => Option::None,
        },
    }
}

/// The models of a sequence of style layers.
pub open spec fn spec_layer_models(ls: Seq<MapboxStyleLayer>) -> Seq<SpecLayer> {
    ls.map_values(|l: MapboxStyleLayer| spec_layer_model(l))
}

/// The model of a whole style document: source-layer name to layer models,
/// in group order.
pub open spec fn spec_groups_model(groups: Seq<SourceGroup>) -> Seq<(Seq<char>, Seq<SpecLayer>)> {
    groups.map_values(|g: SourceGroup| (g.name@, spec_layer_models(g.layers@)))
}

/// A paint-property value: a constant, or a table of `(zoom, value)` stops.
/// Numbers are fixed-point millionths.
#[derive(Debug)]
pub enum PaintValue {
    Constant(i64),
    Stops(Vec<(u8, i64)>),
}

/// The value of the first stop whose zoom equals `zoom` exactly, if any.
pub open spec fn spec_stop_at(stops: Seq<(u8, i64)>, zoom: u8) -> Option<i64>
    decreases stops.len(),
{
    if stops.len() == 0 {
        Option::None
    } else if stops[0].0 == zoom {
        Option::Some(stops[0].1)
    } else {
        spec_stop_at(stops.drop_first(), zoom)
    }
}

/// Is the paint value non-zero at the given zoom? A constant is non-zero
/// exactly when it is not `0`; a stop table blocks only when a stop matches
/// the zoom exactly and carries `0` — between stops nothing is interpolated,
/// so the value counts as non-zero.
pub open spec fn spec_paint_nonzero(p: PaintValue, zoom: u8) -> bool {
    match p {
        PaintValue::Constant(v) => v != 0,
        PaintValue::Stops(stops) => match spec_stop_at(stops@, zoom) {
            Option::Some(v) => v != 0,
            Option::None => true,
        },
    }
}

impl PaintValue {
    /// Non-zero test at one zoom, per `spec_paint_nonzero`.
    #[verifier::loop_isolation(false)]
    pub fn is_nonzero_at_zoom(&self, zoom: u8) -> (r: bool)
        ensures
            r == spec_paint_nonzero(*self, zoom),
    {
        match self {
            PaintValue::Constant(v) => *v != 0,
            PaintValue::Stops(stops) => {
                for i in 0..stops.len()
                    invariant
                        forall|j: int| 0 <= j < i ==> (#[trigger] stops@[j]).0 != zoom,
                {
                    if stops[i].0 == zoom {
                        proof {
                            lemma_stop_at_found(stops@, zoom, i as int);
                        }
                        return stops[i].1 != 0;
                    }
                }
                proof {
                    lemma_stop_at_missing(stops@, zoom);
                }
                true
            },
        }
    }
}

/// When the first `i` stops miss and stop `i` matches the zoom, the lookup
/// returns stop `i`.
proof fn lemma_stop_at_found(stops: Seq<(u8, i64)>, zoom: u8, i: int)
    requires
        0 <= i < stops.len(),
        stops[i].0 == zoom,
        forall|j: int| 0 <= j < i ==> (#[trigger] stops[j]).0 != zoom,
    ensures
        spec_stop_at(stops, zoom) == Option::Some(stops[i].1),
    decreases i,
{
    if i > 0 {
        lemma_stop_at_found(stops.drop_first(), zoom, i - 1);
    }
}

/// When no stop matches the zoom, the lookup misses.
proof fn lemma_stop_at_missing(stops: Seq<(u8, i64)>, zoom: u8)
    requires
        forall|j: int| 0 <= j < stops.len() ==> (#[trigger] stops[j]).0 != zoom,
    ensures
        spec_stop_at(stops, zoom) is None,
    decreases stops.len(),
{
    if stops.len() > 0 {
        lemma_stop_at_missing(stops.drop_first(), zoom);
    }
}

/// One style layer bound to a source-layer. Zoom bounds are fixed-point
/// millionths; absent bounds do not constrain.
#[derive(Debug)]
pub struct MapboxStyleLayer {
    pub minzoom: Option<i64>,
    pub maxzoom: Option<i64>,
    pub visibility: Option<String>,
    pub paint: Vec<(String, PaintValue)>,
    pub filter: Option<Filter>,
}

/// An integer query zoom on the fixed-point scale of the zoom bounds.
pub open spec fn spec_zoom_scaled(zoom: u8) -> int {
    zoom * (NUM_SCALE as int)
}

/// The layout visibility flag blocks only when it is exactly `"none"`.
pub open spec fn spec_layout_visible(l: MapboxStyleLayer) -> bool {
    match l.visibility {
        Option::Some(v) => v@ != "none"@,
        Option::None => true,
    }
}

/// The zoom is at or above the lower bound, when one is set.
pub open spec fn spec_zoom_above_min(l: MapboxStyleLayer, zoom: u8) -> bool {
    match l.minzoom {
        Option::Some(m) => spec_zoom_scaled(zoom) >= m,
        Option::None => true,
    }
}

/// The zoom is strictly below the upper bound, when one is set: a layer is
/// invisible exactly at its maxzoom.
pub open spec fn spec_zoom_below_max(l: MapboxStyleLayer, zoom: u8) -> bool {
    match l.maxzoom {
        Option::Some(m) => m > spec_zoom_scaled(zoom),
        Option::None => true,
    }
}

/// Structural visibility: layout flag and both zoom bounds.
pub open spec fn spec_visible_on_zoom(l: MapboxStyleLayer, zoom: u8) -> bool {
    spec_layout_visible(l) && spec_zoom_above_min(l, zoom) && spec_zoom_below_max(l, zoom)
}

/// The first paint entry under the given property name, if any.
pub open spec fn spec_paint_lookup(
    paint: Seq<(String, PaintValue)>,
    name: Seq<char>,
) -> Option<PaintValue>
    decreases paint.len(),
{
    if paint.len() == 0 {
        Option::None
    } else if paint[0].0@ == name {
        Option::Some(paint[0].1)
    } else {
        spec_paint_lookup(paint.drop_first(), name)
    }
}

/// A paint property blocks rendering only when it is present and evaluates
/// to zero at the zoom; an absent property never blocks.
pub open spec fn spec_prop_not_zero(l: MapboxStyleLayer, name: Seq<char>, zoom: u8) -> bool {
    match spec_paint_lookup(l.paint@, name) {
        Option::Some(p) => spec_paint_nonzero(p, zoom),
        Option::None => true,
    }
}

/// The opacity- and size-like paint properties consulted by the rendering
/// heuristic.
pub open spec fn spec_checked_props() -> Seq<Seq<char>> {
    seq![
        "fill-opacity"@,
        "fill-outline-color"@,
        "line-opacity"@,
        "line-width"@,
        "icon-size"@,
        "text-size"@,
        "text-max-width"@,
        "text-opacity"@,
        "raster-opacity"@,
        "circle-radius"@,
        "circle-opacity"@,
        "fill-extrusion-opacity"@,
        "heatmap-opacity"@,
    ]
}

/// The layer is rendered when every checked paint property that is present
/// is non-zero at the zoom.
pub open spec fn spec_is_rendered(l: MapboxStyleLayer, zoom: u8) -> bool {
    forall|i: int|
        0 <= i < spec_checked_props().len()
            ==> spec_prop_not_zero(l, #[trigger] spec_checked_props()[i], zoom)
}

/// Structurally visible and rendered: the layer is currently drawn.
pub open spec fn spec_is_drawn(l: MapboxStyleLayer, zoom: u8) -> bool {
    spec_visible_on_zoom(l, zoom) && spec_is_rendered(l, zoom)
}

impl MapboxStyleLayer {
    /// The layout flag does not hide the layer.
    pub fn check_layout_visibility(&self) -> (r: bool)
        ensures
            r == spec_layout_visible(*self),
    {
        match &self.visibility {
            Some(v) => {
                let none_flag: String = "none".to_owned();
                !v.eq(&none_flag)
            },
            None => true,
        }
    }

    /// The zoom does not fall below the lower bound.
    pub fn check_zoom_underflow(&self, zoom: u8) -> (r: bool)
        ensures
            r == spec_zoom_above_min(*self, zoom),
    {
        match self.minzoom {
            Some(m) => (zoom as i64) * NUM_SCALE >= m,
            None => true,
        }
    }

    /// The zoom does not reach the upper bound.
    pub fn check_zoom_overflow(&self, zoom: u8) -> (r: bool)
        ensures
            r == spec_zoom_below_max(*self, zoom),
    {
        match self.maxzoom {
            Some(m) => m > (zoom as i64) * NUM_SCALE,
            None => true,
        }
    }

    /// Structural visibility at the zoom.
    pub fn is_visible_on_zoom(&self, zoom: u8) -> (r: bool)
        ensures
            r == spec_visible_on_zoom(*self, zoom),
    {
        self.check_layout_visibility() && self.check_zoom_underflow(zoom)
            && self.check_zoom_overflow(zoom)
    }

    /// The named paint property, if present, is non-zero at the zoom.
    #[verifier::loop_isolation(false)]
    pub fn check_paint_property_not_zero(&self, property: &String, zoom: u8) -> (r: bool)
        ensures
            r == spec_prop_not_zero(*self, property@, zoom),
    {
        for i in 0..self.paint.len()
            invariant
                forall|j: int| 0 <= j < i ==> (#[trigger] self.paint@[j]).0@ != property@,
        {
            if self.paint[i].0.eq(property) {
                proof {
                    lemma_paint_lookup_found(self.paint@, property@, i as int);
                }
                return self.paint[i].1.is_nonzero_at_zoom(zoom);
            }
        }
        proof {
            lemma_paint_lookup_missing(self.paint@, property@);
        }
        true
    }

    /// Every checked paint property that is present is non-zero at the zoom.
    #[verifier::loop_isolation(false)]
    pub fn is_rendered(&self, zoom: u8) -> (r: bool)
        ensures
            r == spec_is_rendered(*self, zoom),
    {
        let names = checked_paint_properties();
        let ghost specs = spec_checked_props();
        for i in 0..names.len()
            invariant
                names@.len() == specs.len(),
                forall|j: int| 0 <= j < specs.len() ==> #[trigger] names@[j]@ == specs[j],
                forall|j: int| 0 <= j < i ==> spec_prop_not_zero(*self, #[trigger] specs[j], zoom),
        {
            if !self.check_paint_property_not_zero(&names[i], zoom) {
                assert(!spec_prop_not_zero(*self, spec_checked_props()[i as int], zoom));
                return false;
            }
        }
        true
    }

    /// Currently drawn: structurally visible and rendered.
    pub fn is_drawn(&self, zoom: u8) -> (r: bool)
        ensures
            r == spec_is_drawn(*self, zoom),
    {
        self.is_visible_on_zoom(zoom) && self.is_rendered(zoom)
    }
}

/// The checked paint property names as strings, aligned with
/// `spec_checked_props`.
#[verifier::loop_isolation(false)]
fn checked_paint_properties() -> (r: Vec<String>)
    ensures
        r@.len() == spec_checked_props().len(),
        forall|j: int| 0 <= j < r@.len() ==> #[trigger] r@[j]@ == spec_checked_props()[j],
{
    let mut names: Vec<String> = Vec::new();
    names.push("fill-opacity".to_owned());
    names.push("fill-outline-color".to_owned());
    names.push("line-opacity".to_owned());
    names.push("line-width".to_owned());
    names.push("icon-size".to_owned());
    names.push("text-size".to_owned());
    names.push("text-max-width".to_owned());
    names.push("text-opacity".to_owned());
    names.push("raster-opacity".to_owned());
    names.push("circle-radius".to_owned());
    names.push("circle-opacity".to_owned());
    names.push("fill-extrusion-opacity".to_owned());
    names.push("heatmap-opacity".to_owned());
    names
}

/// When the first `i` paint keys miss and key `i` matches, the lookup
/// returns entry `i`.
proof fn lemma_paint_lookup_found(paint: Seq<(String, PaintValue)>, name: Seq<char>, i: int)
    requires
        0 <= i < paint.len(),
        paint[i].0@ == name,
        forall|j: int| 0 <= j < i ==> (#[trigger] paint[j]).0@ != name,
    ensures
        spec_paint_lookup(paint, name) == Option::Some(paint[i].1),
    decreases i,
{
    if i > 0 {
        lemma_paint_lookup_found(paint.drop_first(), name, i - 1);
    }
}

/// When no paint key matches, the lookup misses.
proof fn lemma_paint_lookup_missing(paint: Seq<(String, PaintValue)>, name: Seq<char>)
    requires
        forall|j: int| 0 <= j < paint.len() ==> (#[trigger] paint[j]).0@ != name,
    ensures
        spec_paint_lookup(paint, name) is None,
    decreases paint.len(),
{
    if paint.len() > 0 {
        lemma_paint_lookup_missing(paint.drop_first(), name);
    }
}

/// The style layers bound to one source-layer name.
#[derive(Debug)]
pub struct SourceGroup {
    pub name: String,
    pub layers: Vec<MapboxStyleLayer>,
}

/// A loaded style document: an ordered mapping from source-layer name to
/// the style layers bound to it. Built once by the loader; read-only
/// afterwards.
#[derive(Debug)]
pub struct MapboxStyle {
    pub groups: Vec<SourceGroup>,
}

/// The layers of the first group under the given source-layer name.
pub open spec fn spec_style_layers(
    groups: Seq<SourceGroup>,
    name: Seq<char>,
) -> Option<Seq<MapboxStyleLayer>>
    decreases groups.len(),
{
    if groups.len() == 0 {
        Option::None
    } else if groups[0].name@ == name {
        Option::Some(groups[0].layers@)
    } else {
        spec_style_layers(groups.drop_first(), name)
    }
}

/// What a drawn layer contributes for one feature: `True` when it has no
/// filter, otherwise its filter's outcome.
pub open spec fn spec_layer_result(l: MapboxStyleLayer, ft: SpecFeature) -> FilterResult {
    match l.filter {
        Option::Some(f) => spec_eval(f, ft),
        Option::None => FilterResult::True,
    }
}

/// The contributions of the layers that are drawn at the zoom, in order;
/// layers not currently drawn contribute nothing.
pub open spec fn spec_contributions(
    ls: Seq<MapboxStyleLayer>,
    zoom: u8,
    ft: SpecFeature,
) -> Seq<FilterResult>
    decreases ls.len(),
{
    if ls.len() == 0 {
        Seq::empty()
    } else {
        let rest = spec_contributions(ls.drop_first(), zoom, ft);
        if spec_is_drawn(ls[0], zoom) {
            seq![spec_layer_result(ls[0], ft)] + rest
        } else {
            rest
        }
    }
}

/// Is some layer of the sequence currently drawn at the zoom?
pub open spec fn spec_any_drawn(ls: Seq<MapboxStyleLayer>, zoom: u8) -> bool {
    exists|i: int| 0 <= i < ls.len() && spec_is_drawn(#[trigger] ls[i], zoom)
}

/// Is some layer under the name currently drawn at the zoom?
pub open spec fn spec_layer_visible(groups: Seq<SourceGroup>, name: Seq<char>, zoom: u8) -> bool {
    match spec_style_layers(groups, name) {
        Option::Some(ls) => spec_any_drawn(ls, zoom),
        Option::None => false,
    }
}

/// The keep decision for one feature: the three-valued disjunction of the
/// drawn layers' contributions; `False` when no layer is bound to the name.
pub open spec fn spec_should_keep(
    groups: Seq<SourceGroup>,
    name: Seq<char>,
    zoom: u8,
    ft: SpecFeature,
) -> FilterResult {
    match spec_style_layers(groups, name) {
        Option::Some(ls) => combine_any(spec_contributions(ls, zoom, ft)),
        Option::None => FilterResult::False,
    }
}

impl MapboxStyle {
    /// Group names are pairwise distinct: one entry per source-layer.
    pub open spec fn wf(self) -> bool {
        forall|i: int, j: int|
            0 <= i < j < self.groups@.len()
                ==> #[trigger] self.groups@[i].name@ != #[trigger] self.groups@[j].name@
    }

    /// Index of the first group under the given name.
    #[verifier::loop_isolation(false)]
    fn find_group(&self, name: &String) -> (r: Option<usize>)
        ensures
            match r {
                Option::Some(i) => i < self.groups@.len() && self.groups@[i as int].name@ == name@
                    && spec_style_layers(self.groups@, name@) == Option::Some(
                    self.groups@[i as int].layers@,
                ),
                Option::None => spec_style_layers(self.groups@, name@) is None,
            },
    {
        for i in 0..self.groups.len()
            invariant
                forall|j: int| 0 <= j < i ==> (#[trigger] self.groups@[j]).name@ != name@,
        {
            if self.groups[i].name.eq(name) {
                proof {
                    lemma_style_layers_found(self.groups@, name@, i as int);
                }
                return Some(i);
            }
        }
        proof {
            lemma_style_layers_missing(self.groups@, name@);
        }
        None
    }

    /// Every source-layer name the style references, in group order; a set
    /// in a vector, duplicate-free whenever the style is well-formed.
    #[verifier::loop_isolation(false)]
    pub fn source_layers(&self) -> (r: Vec<String>)
        ensures
            r@.len() == self.groups@.len(),
            forall|j: int| 0 <= j < r@.len() ==> #[trigger] r@[j]@ == self.groups@[j].name@,
            self.wf() ==> forall|i: int, j: int|
                0 <= i < j < r@.len() ==> #[trigger] r@[i]@ != #[trigger] r@[j]@,
    {
        let mut names: Vec<String> = Vec::new();
        for i in 0..self.groups.len()
            invariant
                names@.len() == i,
                forall|j: int| 0 <= j < i ==> #[trigger] names@[j]@ == self.groups@[j].name@,
        {
            names.push(self.groups[i].name.clone());
        }
        names
    }

    /// Is at least one layer bound to the name currently drawn at the zoom,
    /// regardless of its filter? Used for cheap layer-level pruning.
    #[verifier::loop_isolation(false)]
    pub fn is_layer_visible_on_zoom(&self, layer_name: &String, zoom: u8) -> (r: bool)
        ensures
            r == spec_layer_visible(self.groups@, layer_name@, zoom),
    {
        match self.find_group(layer_name) {
            None => false,
            Some(g) => {
                let layers = &self.groups[g].layers;
                for i in 0..layers.len()
                    invariant
                        forall|j: int| 0 <= j < i ==> !spec_is_drawn(#[trigger] layers@[j], zoom),
                {
                    if layers[i].is_drawn(zoom) {
                        proof {
                            assert(spec_is_drawn(layers@[i as int], zoom));
                            assert(spec_any_drawn(layers@, zoom));
                        }
                        return true;
                    }
                }
                false
            },
        }
    }

    /// The keep decision for one feature of the named source-layer at the
    /// zoom: `True` as soon as one drawn layer's filter passes, else
    /// `Unknown` when one was ambiguous, else `False` — the three-valued
    /// disjunction of the drawn layers' contributions.
    #[verifier::loop_isolation(false)]
    pub fn should_keep_feature(
        &self,
        layer_name: &String,
        zoom: u8,
        feature: &FeatureView,
    ) -> (r: FilterResult)
        ensures
            r == spec_should_keep(self.groups@, layer_name@, zoom, feature@),
    {
        let group = match self.find_group(layer_name) {
            None => {
                return FilterResult::False;
            },
            Some(g) => g,
        };
        let layers = &self.groups[group].layers;
        proof {
            lemma_contributions(layers@, zoom, feature@);
        }
        let mut saw_unknown = false;
        for i in 0..layers.len()
            invariant
                forall|j: int|
                    0 <= j < i && spec_is_drawn(#[trigger] layers@[j], zoom)
                        ==> spec_layer_result(layers@[j], feature@) != FilterResult::True,
                saw_unknown == exists|j: int|
                    0 <= j < i && spec_is_drawn(#[trigger] layers@[j], zoom)
                        && spec_layer_result(layers@[j], feature@) == FilterResult::Unknown,
        {
            let layer = &layers[i];
            if layer.is_drawn(zoom) {
                let result = match &layer.filter {
                    Some(f) => f.evaluate(feature),
                    None => FilterResult::True,
                };
                match result {
                    FilterResult::True => {
                        proof {
                            assert(spec_is_drawn(layers@[i as int], zoom)
                                && spec_layer_result(layers@[i as int], feature@)
                                == FilterResult::True);
                        }
                        return FilterResult::True;
                    },
                    FilterResult::Unknown => {
                        saw_unknown = true;
                    },
                    FilterResult::False => {},
                }
            }
        }
        if saw_unknown {
            FilterResult::Unknown
        } else {
            FilterResult::False
        }
    }
}

/// How many layers of the sequence are drawn at the zoom and contribute
/// `Unknown` for the feature.
pub open spec fn spec_unknown_count(ls: Seq<MapboxStyleLayer>, zoom: u8, ft: SpecFeature) -> nat
    decreases ls.len(),
{
    if ls.len() == 0 {
        0
    } else {
        (if spec_is_drawn(ls[0], zoom) && spec_layer_result(ls[0], ft) == FilterResult::Unknown {
            1nat
        } else {
            0nat
        }) + spec_unknown_count(ls.drop_first(), zoom, ft)
    }
}

impl MapboxStyle {
    /// The keep decision together with how many drawn layers were
    /// ambiguous about the feature: the caller can see how much of a
    /// `False` or `Unknown` answer rests on missing properties. The
    /// decision itself equals `should_keep_feature`'s.
    #[verifier::loop_isolation(false)]
    pub fn should_keep_feature_counting(
        &self,
        layer_name: &String,
        zoom: u8,
        feature: &FeatureView,
    ) -> (r: (FilterResult, usize))
        ensures
            r.0 == spec_should_keep(self.groups@, layer_name@, zoom, feature@),
            match spec_style_layers(self.groups@, layer_name@) {
                Option::Some(ls) => r.1 == spec_unknown_count(ls, zoom, feature@),
                Option::None => r.1 == 0,
            },
    {
        let group = match self.find_group(layer_name) {
            None => {
                return (FilterResult::False, 0);
            },
            Some(g) => g,
        };
        let layers = &self.groups[group].layers;
        proof {
            lemma_contributions(layers@, zoom, feature@);
        }
        let mut saw_true = false;
        let mut unknown_count: usize = 0;
        assert(layers@.skip(0) =~= layers@);
        for i in 0..layers.len()
            invariant
                unknown_count <= i,
                spec_unknown_count(layers@, zoom, feature@) == unknown_count
                    + spec_unknown_count(layers@.skip(i as int), zoom, feature@),
                saw_true == exists|j: int|
                    0 <= j < i && spec_is_drawn(#[trigger] layers@[j], zoom)
                        && spec_layer_result(layers@[j], feature@) == FilterResult::True,
                unknown_count > 0 <==> exists|j: int|
                    0 <= j < i && spec_is_drawn(#[trigger] layers@[j], zoom)
                        && spec_layer_result(layers@[j], feature@) == FilterResult::Unknown,
        {
            assert(layers@.skip(i as int)[0] == layers@[i as int]);
            assert(layers@.skip(i as int).drop_first() =~= layers@.skip(i as int + 1));
            let layer = &layers[i];
            if layer.is_drawn(zoom) {
                let result = match &layer.filter {
                    Some(f) => f.evaluate(feature),
                    None => FilterResult::True,
                };
                match result {
                    FilterResult::True => {
                        saw_true = true;
                    },
                    FilterResult::Unknown => {
                        unknown_count = unknown_count + 1;
                    },
                    FilterResult::False => {},
                }
            }
        }
        assert(layers@.skip(layers@.len() as int) =~= Seq::<MapboxStyleLayer>::empty());
        let decision = if saw_true {
            FilterResult::True
        } else if unknown_count > 0 {
            FilterResult::Unknown
        } else {
            FilterResult::False
        };
        (decision, unknown_count)
    }
}

/// When the first `i` group names miss and name `i` matches, the lookup
/// returns group `i`'s layers.
proof fn lemma_style_layers_found(groups: Seq<SourceGroup>, name: Seq<char>, i: int)
    requires
        0 <= i < groups.len(),
        groups[i].name@ == name,
        forall|j: int| 0 <= j < i ==> (#[trigger] groups[j]).name@ != name,
    ensures
        spec_style_layers(groups, name) == Option::Some(groups[i].layers@),
    decreases i,
{
    if i > 0 {
        lemma_style_layers_found(groups.drop_first(), name, i - 1);
    }
}

/// When no group name matches, the lookup misses.
proof fn lemma_style_layers_missing(groups: Seq<SourceGroup>, name: Seq<char>)
    requires
        forall|j: int| 0 <= j < groups.len() ==> (#[trigger] groups[j]).name@ != name,
    ensures
        spec_style_layers(groups, name) is None,
    decreases groups.len(),
{
    if groups.len() > 0 {
        lemma_style_layers_missing(groups.drop_first(), name);
    }
}

/// Prepending one result to a result sequence: the whole holds `v` exactly
/// when the head is `v` or the rest holds it.
proof fn lemma_has_result_cons(x: FilterResult, s: Seq<FilterResult>, v: FilterResult)
    ensures
        has_result(seq![x] + s, v) <==> (x == v || has_result(s, v)),
{
    let c = seq![x] + s;
    assert(c[0] == x);
    if has_result(s, v) {
        let i = choose|i: int| 0 <= i < s.len() && s[i] == v;
        assert(c[i + 1] == s[i]);
    }
    if has_result(c, v) {
        let i = choose|i: int| 0 <= i < c.len() && c[i] == v;
        if i > 0 {
            assert(s[i - 1] == c[i]);
        }
    }
}

/// A result occurs among the contributions exactly when some drawn layer
/// contributes it.
proof fn lemma_contributions(ls: Seq<MapboxStyleLayer>, zoom: u8, ft: SpecFeature)
    ensures
        forall|v: FilterResult|
            #[trigger] has_result(spec_contributions(ls, zoom, ft), v) <==> exists|j: int|
                0 <= j < ls.len() && spec_is_drawn(#[trigger] ls[j], zoom)
                    && spec_layer_result(ls[j], ft) == v,
    decreases ls.len(),
{
    if ls.len() == 0 {
        assert(forall|v: FilterResult| !has_result(spec_contributions(ls, zoom, ft), v));
    } else {
        let rest = ls.drop_first();
        lemma_contributions(rest, zoom, ft);
        assert forall|v: FilterResult|
            #[trigger] has_result(spec_contributions(ls, zoom, ft), v) <==> exists|j: int|
                0 <= j < ls.len() && spec_is_drawn(#[trigger] ls[j], zoom)
                    && spec_layer_result(ls[j], ft) == v by {
            let in_rest = has_result(spec_contributions(rest, zoom, ft), v);
            assert(in_rest <==> exists|j: int|
                0 <= j < rest.len() && spec_is_drawn(#[trigger] rest[j], zoom)
                    && spec_layer_result(rest[j], ft) == v);
            if spec_is_drawn(ls[0], zoom) {
                lemma_has_result_cons(
                    spec_layer_result(ls[0], ft),
                    spec_contributions(rest, zoom, ft),
                    v,
                );
            } else {
                assert(spec_contributions(ls, zoom, ft) == spec_contributions(rest, zoom, ft));
            }
            if exists|j: int|
                0 <= j < ls.len() && spec_is_drawn(#[trigger] ls[j], zoom)
                    && spec_layer_result(ls[j], ft) == v {
                let j = choose|j: int|
                    0 <= j < ls.len() && spec_is_drawn(#[trigger] ls[j], zoom)
                        && spec_layer_result(ls[j], ft) == v;
                if j > 0 {
                    assert(rest[j - 1] == ls[j]);
                    assert(spec_is_drawn(rest[j - 1], zoom)
                        && spec_layer_result(rest[j - 1], ft) == v);
                }
            }
            if in_rest {
                let j = choose|j: int|
                    0 <= j < rest.len() && spec_is_drawn(#[trigger] rest[j], zoom)
                        && spec_layer_result(rest[j], ft) == v;
                assert(ls[j + 1] == rest[j]);
                assert(spec_is_drawn(ls[j + 1], zoom) && spec_layer_result(ls[j + 1], ft) == v);
            }
        }
    }
}

} // verus!
