//! A borrowed view of one decoded tile feature: its geometry class and its
//! property mapping, as seen by the filter evaluator.
//!
//! The tile codec decodes features outside this crate; the adapter around it
//! hands each one over as a `FeatureView` holding plain values. A property may
//! carry a null value: it then counts as present for existence tests, but its
//! value is absent for every other predicate.

use vstd::prelude::*;

use crate::value::{spec_value_eq, FilterValue, SpecValue};

verus! {

/// Geometry class of a feature. Multi-geometries collapse into their
/// singular class; geometry collections are `Unknown`.
#[derive(Debug, Clone, Copy, PartialEq, Eq, Structural)]
pub enum GeomType {
    Point,
    LineString,
    Polygon,
    Unknown,
}

/// The class name that the synthetic `$type` attribute resolves to.
pub open spec fn spec_geom_name(g: GeomType) -> Seq<char> {
    match g {
        GeomType::Point => "Point"@,
        GeomType::LineString => "LineString"@,
        GeomType::Polygon => "Polygon"@,
        GeomType::Unknown => "Unknown"@,
    }
}

impl GeomType {
    /// The class name as a string value.
    pub fn name(&self) -> (r: String)
        ensures
            r@ == spec_geom_name(*self),
    {
        match self {
            GeomType::Point => "Point".to_owned(),
            GeomType::LineString => "LineString".to_owned(),
            GeomType::Polygon => "Polygon".to_owned(),
            GeomType::Unknown => "Unknown".to_owned(),
        }
    }
}

/// One decoded feature: a geometry class and its properties. A pair with a
/// `None` value is a property that was present but null.
#[derive(Debug)]
pub struct FeatureView {
    pub geom: GeomType,
    pub props: Vec<(String, Option<FilterValue>)>,
}

/// Mathematical model of a `FeatureView`.
pub struct SpecFeature {
    pub geom: GeomType,
    pub props: Seq<(Seq<char>, Option<SpecValue>)>,
}

impl View for FeatureView {
    type V = SpecFeature;

    open spec fn view(&self) -> SpecFeature {
        SpecFeature {
            geom: self.geom,
            props: self.props@.map_values(
                |p: (String, Option<FilterValue>)|
                    (
                        p.0@,
                        match p.1 {
                            Option::Some(v) => Option::Some(v@),
                            Option::None => Option::None,
                        },
                    ),
            ),
        }
    }
}

/// First entry of `props` whose key spells `key`, or `None`.
pub open spec fn spec_prop_entry(
    props: Seq<(Seq<char>, Option<SpecValue>)>,
    key: Seq<char>,
) -> Option<Option<SpecValue>>
    decreases props.len(),
{
    if props.len() == 0 {
        Option::None
    } else if props[0].0 == key {
        Option::Some(props[0].1)
    } else {
        spec_prop_entry(props.drop_first(), key)
    }
}

/// Does the feature carry the property at all? The synthetic `$type` key is
/// always present; a null-valued property still counts as present.
pub open spec fn spec_feature_has(f: SpecFeature, key: Seq<char>) -> bool {
    key == "$type"@ || spec_prop_entry(f.props, key) is Some
}

/// The value the key resolves to: the geometry class name for `$type`, the
/// stored value for a present non-null property, absent otherwise.
pub open spec fn spec_feature_value(f: SpecFeature, key: Seq<char>) -> Option<SpecValue> {
    if key == "$type"@ {
        Option::Some(SpecValue::Text(spec_geom_name(f.geom)))
    } else {
        match spec_prop_entry(f.props, key) {
            Option::Some(Option::Some(v)) => Option::Some(v),
            _ => Option::None,
        }
    }
}

/// Model of an optional exec value.
pub open spec fn spec_opt_value(o: Option<FilterValue>) -> Option<SpecValue> {
    match o {
        Option::Some(v) => Option::Some(v@),
        Option::None => Option::None,
    }
}

impl FeatureView {
    /// Existence test behind the `has`/`!has` predicates; never ambiguous.
    pub fn has(&self, key: &String) -> (r: bool)
        ensures
            r == spec_feature_has(self@, key@),
    {
        let dollar_type: String = "$type".to_owned();
        if key.eq(&dollar_type) {
            return true;
        }
        let ghost model = self@.props;
        for i in 0..self.props.len()
            invariant
                model == self@.props,
                model.len() == self.props.len(),
                forall|j: int| 0 <= j < i ==> #[trigger] model[j].0 != key@,
                forall|j: int|
                    0 <= j < self.props.len() ==> #[trigger] model[j].0 == self.props[j].0@,
            {
            if self.props[i].0.eq(key) {
                proof {
                    lemma_prop_entry_found(model, key@, i as int);
                }
                return true;
            }
        }
        proof {
            lemma_prop_entry_missing(model, key@);
        }
        false
    }

    /// Resolve a literal property key to its value, `$type` included; `None`
    /// when the key is absent or its value is null.
    pub fn value_of(&self, key: &String) -> (r: Option<FilterValue>)
        ensures
            spec_opt_value(r) == spec_feature_value(self@, key@),
    {
        let dollar_type: String = "$type".to_owned();
        if key.eq(&dollar_type) {
            return Some(FilterValue::Text(self.geom.name()));
        }
        let ghost model = self@.props;
        for i in 0..self.props.len()
            invariant
                key@ != "$type"@,
                model == self@.props,
                model.len() == self.props.len(),
                forall|j: int| 0 <= j < i ==> #[trigger] model[j].0 != key@,
                forall|j: int|
                    0 <= j < self.props.len()
                        ==> #[trigger] model[j] == (
                        self.props[j].0@,
                        spec_opt_value(self.props[j].1),
                    ),
            {
            if self.props[i].0.eq(key) {
                proof {
                    lemma_prop_entry_found(model, key@, i as int);
                    assert(model[i as int] == (
                        self.props[i as int].0@,
                        spec_opt_value(self.props[i as int].1),
                    ));
                }
                return match &self.props[i].1 {
                    Some(v) => Some(v.clone()),
                    None => None,
                };
            }
        }
        proof {
            lemma_prop_entry_missing(model, key@);
        }
        None
    }
}

/// When the first `i` keys miss and key `i` matches, the lookup returns
/// entry `i`.
proof fn lemma_prop_entry_found(
    props: Seq<(Seq<char>, Option<SpecValue>)>,
    key: Seq<char>,
    i: int,
)
    requires
        0 <= i < props.len(),
        props[i].0 == key,
        forall|j: int| 0 <= j < i ==> #[trigger] props[j].0 != key,
    ensures
        spec_prop_entry(props, key) == Option::Some(props[i].1),
    decreases i,
{
    if i > 0 {
        lemma_prop_entry_found(props.drop_first(), key, i - 1);
    }
}

/// When no key matches, the lookup misses.
proof fn lemma_prop_entry_missing(props: Seq<(Seq<char>, Option<SpecValue>)>, key: Seq<char>)
    requires
        forall|j: int| 0 <= j < props.len() ==> #[trigger] props[j].0 != key,
    ensures
        spec_prop_entry(props, key) is None,
    decreases props.len(),
{
    if props.len() > 0 {
        lemma_prop_entry_missing(props.drop_first(), key);
    }
}

} // verus!
