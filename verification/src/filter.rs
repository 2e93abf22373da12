//! The filter expression language and its three-valued evaluator.
//!
//! A filter is a tree of predicates over one feature, combined by `all`,
//! `any` and `none`. A predicate's operand is a value expression: a property
//! lookup, a literal, or one of the nested forms `match`, `case` and
//! `coalesce`. Evaluation follows Kleene logic: a predicate whose operand
//! resolves to no value yields `Unknown`, and `Unknown` propagates through
//! the combinators unless a definite answer is reached first.

use vstd::prelude::*;

use crate::feature::{spec_feature_has, spec_feature_value, spec_opt_value, FeatureView, SpecFeature};
use crate::tri::{combine_all, combine_any, combine_none, spec_from_bool, FilterResult};
use crate::value::{spec_value_eq, spec_value_in, FilterValue, SpecValue};

verus! {

/// A value-producing operand of a predicate, evaluated lazily against the
/// feature. Resolution yields an optional value; absence propagates.
#[derive(Debug)]
pub enum ValueExpr {
    /// Look the named property up in the feature; covers bare literal keys,
    /// with the synthetic `$type` name resolving to the geometry class.
    Get(String),
    /// A constant value.
    Lit(FilterValue),
    /// `match(input, label -> result, ..., default)`: the result of the
    /// first arm whose label equals the input value; the default when no
    /// label matches; absent when the input itself is absent.
    Match(Box<ValueExpr>, Vec<(FilterValue, ValueExpr)>, Box<ValueExpr>),
    /// `case(condition -> result, ..., default)`: each condition is a
    /// filter predicate; the result of the first arm whose condition
    /// evaluates to a definite `True` (a `False` or `Unknown` condition
    /// does not fire); the default when no condition does.
    Cases(Vec<(Filter, ValueExpr)>, Box<ValueExpr>),
    /// `coalesce(expr, ...)`: the first expression resolving to a present
    /// value; absent when none does.
    Coalesce(Vec<ValueExpr>),
}

/// Mathematical model of a `ValueExpr`.
pub enum SpecExpr {
    Get(Seq<char>),
    Lit(SpecValue),
    Match(Box<SpecExpr>, Seq<(SpecValue, SpecExpr)>, Box<SpecExpr>),
    Cases(Seq<(SpecFilter, SpecExpr)>, Box<SpecExpr>),
    Coalesce(Seq<SpecExpr>),
}

/// Mathematical model of a `Filter`.
pub enum SpecFilter {
    Equals(SpecExpr, SpecValue),
    NotEquals(SpecExpr, SpecValue),
    OneOf(SpecExpr, Seq<SpecValue>),
    NotOneOf(SpecExpr, Seq<SpecValue>),
    Has(Seq<char>),
    NotHas(Seq<char>),
    AllOf(Seq<SpecFilter>),
    AnyOf(Seq<SpecFilter>),
    NoneOf(Seq<SpecFilter>),
    Unrecognized,
}

/// The models of a sequence of values.
pub open spec fn spec_value_models(vs: Seq<FilterValue>) -> Seq<SpecValue> {
    vs.map_values(|v: FilterValue| v@)
}

/// The model of a value expression.
pub open spec fn spec_expr_model(e: ValueExpr) -> SpecExpr
    decreases e,
{
    match e {
        ValueExpr::Get(key) => SpecExpr::Get(key@),
        ValueExpr::Lit(v) => SpecExpr::Lit(v@),
        ValueExpr::Match(input, arms, default) => SpecExpr::Match(
            Box::new(spec_expr_model(*input)),
            spec_match_arm_models(arms@),
            Box::new(spec_expr_model(*default)),
        ),
        ValueExpr::Cases(arms, default) => SpecExpr::Cases(
            spec_case_arm_models(arms@),
            Box::new(spec_expr_model(*default)),
        ),
        ValueExpr::Coalesce(exprs) => SpecExpr::Coalesce(spec_expr_models(exprs@)),
    }
}

/// The models of a sequence of `match` arms.
pub open spec fn spec_match_arm_models(arms: Seq<(FilterValue, ValueExpr)>) -> Seq<
    (SpecValue, SpecExpr),
>
    decreases arms,
{
    if arms.len() == 0 {
        Seq::empty()
    } else {
        seq![(arms[0].0@, spec_expr_model(arms[0].1))] + spec_match_arm_models(arms.drop_first())
    }
}

/// The models of a sequence of `case` arms.
pub open spec fn spec_case_arm_models(arms: Seq<(Filter, ValueExpr)>) -> Seq<
    (SpecFilter, SpecExpr),
>
    decreases arms,
{
    if arms.len() == 0 {
        Seq::empty()
    } else {
        seq![(spec_filter_model(arms[0].0), spec_expr_model(arms[0].1))] + spec_case_arm_models(
            arms.drop_first(),
        )
    }
}

/// The models of a sequence of value expressions.
pub open spec fn spec_expr_models(exprs: Seq<ValueExpr>) -> Seq<SpecExpr>
    decreases exprs,
{
    if exprs.len() == 0 {
        Seq::empty()
    } else {
        seq![spec_expr_model(exprs[0])] + spec_expr_models(exprs.drop_first())
    }
}

/// The model of a filter tree.
pub open spec fn spec_filter_model(flt: Filter) -> SpecFilter
    decreases flt,
{
    match flt {
        Filter::Equals(key, value) => SpecFilter::Equals(spec_expr_model(key), value@),
        Filter::NotEquals(key, value) => SpecFilter::NotEquals(spec_expr_model(key), value@),
        Filter::OneOf(key, values) => SpecFilter::OneOf(spec_expr_model(key), spec_value_models(values@)),
        Filter::NotOneOf(key, values) => SpecFilter::NotOneOf(
            spec_expr_model(key),
            spec_value_models(values@),
        ),
        Filter::Has(key) => SpecFilter::Has(key@),
        Filter::NotHas(key) => SpecFilter::NotHas(key@),
        Filter::AllOf(subs) => SpecFilter::AllOf(spec_filter_models(subs@)),
        Filter::AnyOf(subs) => SpecFilter::AnyOf(spec_filter_models(subs@)),
        Filter::NoneOf(subs) => SpecFilter::NoneOf(spec_filter_models(subs@)),
        Filter::Unrecognized => SpecFilter::Unrecognized,
    }
}

/// The models of a sequence of filters.
pub open spec fn spec_filter_models(flts: Seq<Filter>) -> Seq<SpecFilter>
    decreases flts,
{
    if flts.len() == 0 {
        Seq::empty()
    } else {
        seq![spec_filter_model(flts[0])] + spec_filter_models(flts.drop_first())
    }
}

/// The model sequence is pointwise the model of the filter sequence.
pub proof fn lemma_filter_models(flts: Seq<Filter>)
    ensures
        spec_filter_models(flts).len() == flts.len(),
        forall|i: int|
            0 <= i < flts.len()
                ==> #[trigger] spec_filter_models(flts)[i] == spec_filter_model(flts[i]),
    decreases flts.len(),
{
    if flts.len() > 0 {
        lemma_filter_models(flts.drop_first());
    }
}

/// The model sequence is pointwise the model of the expression sequence.
pub proof fn lemma_expr_models(exprs: Seq<ValueExpr>)
    ensures
        spec_expr_models(exprs).len() == exprs.len(),
        forall|i: int|
            0 <= i < exprs.len()
                ==> #[trigger] spec_expr_models(exprs)[i] == spec_expr_model(exprs[i]),
    decreases exprs.len(),
{
    if exprs.len() > 0 {
        lemma_expr_models(exprs.drop_first());
    }
}

/// The model sequence is pointwise the model of the `match` arm sequence.
pub proof fn lemma_match_arm_models(arms: Seq<(FilterValue, ValueExpr)>)
    ensures
        spec_match_arm_models(arms).len() == arms.len(),
        forall|i: int|
            0 <= i < arms.len()
                ==> #[trigger] spec_match_arm_models(arms)[i] == (
                arms[i].0@,
                spec_expr_model(arms[i].1),
            ),
    decreases arms.len(),
{
    if arms.len() > 0 {
        lemma_match_arm_models(arms.drop_first());
    }
}

/// The model sequence is pointwise the model of the `case` arm sequence.
pub proof fn lemma_case_arm_models(arms: Seq<(Filter, ValueExpr)>)
    ensures
        spec_case_arm_models(arms).len() == arms.len(),
        forall|i: int|
            0 <= i < arms.len()
                ==> #[trigger] spec_case_arm_models(arms)[i] == (
                spec_filter_model(arms[i].0),
                spec_expr_model(arms[i].1),
            ),
    decreases arms.len(),
{
    if arms.len() > 0 {
        lemma_case_arm_models(arms.drop_first());
    }
}

impl View for ValueExpr {
    type V = SpecExpr;

    open spec fn view(&self) -> SpecExpr {
        spec_expr_model(*self)
    }
}

impl View for Filter {
    type V = SpecFilter;

    open spec fn view(&self) -> SpecFilter {
        spec_filter_model(*self)
    }
}

/// What a value expression resolves to against one feature; `None` is the
/// absent value.
pub open spec fn spec_resolve(e: ValueExpr, f: SpecFeature) -> Option<SpecValue>
    decreases e,
{
    match e {
        ValueExpr::Get(key) => spec_feature_value(f, key@),
        ValueExpr::Lit(v) => Option::Some(v@),
        ValueExpr::Match(input, arms, default) => match spec_resolve(*input, f) {
            Option::None => Option::None,
            Option::Some(v) => match spec_match_arms(v, arms@, f) {
                Option::Some(chosen) => chosen,
                Option::None => spec_resolve(*default, f),
            },
        },
        ValueExpr::Cases(arms, default) => match spec_case_arms(arms@, f) {
            Option::Some(chosen) => chosen,
            Option::None => spec_resolve(*default, f),
        },
        ValueExpr::Coalesce(exprs) => spec_coalesce(exprs@, f),
    }
}

/// The resolution of the first `match` arm whose label equals the input
/// value `v`; `None` when no label matches.
pub open spec fn spec_match_arms(
    v: SpecValue,
    arms: Seq<(FilterValue, ValueExpr)>,
    f: SpecFeature,
) -> Option<Option<SpecValue>>
    decreases arms,
{
    if arms.len() == 0 {
        Option::None
    } else if spec_value_eq(v, arms[0].0@) {
        Option::Some(spec_resolve(arms[0].1, f))
    } else {
        spec_match_arms(v, arms.drop_first(), f)
    }
}

/// The resolution of the first `case` arm whose condition filter
/// evaluates to a definite `True`; `None` when no condition fires.
pub open spec fn spec_case_arms(
    arms: Seq<(Filter, ValueExpr)>,
    f: SpecFeature,
) -> Option<Option<SpecValue>>
    decreases arms,
{
    if arms.len() == 0 {
        Option::None
    } else if spec_eval(arms[0].0, f) == FilterResult::True {
        Option::Some(spec_resolve(arms[0].1, f))
    } else {
        spec_case_arms(arms.drop_first(), f)
    }
}

/// The first present resolution among the expressions; `None` when every
/// expression resolves absent.
pub open spec fn spec_coalesce(exprs: Seq<ValueExpr>, f: SpecFeature) -> Option<SpecValue>
    decreases exprs,
{
    if exprs.len() == 0 {
        Option::None
    } else {
        match spec_resolve(exprs[0], f) {
            Option::Some(v) => Option::Some(v),
            Option::None => spec_coalesce(exprs.drop_first(), f),
        }
    }
}

impl ValueExpr {
    /// Resolve this expression against the feature.
    #[verifier::loop_isolation(false)]
    pub fn resolve(&self, feature: &FeatureView) -> (r: Option<FilterValue>)
        ensures
            spec_opt_value(r) == spec_resolve(*self, feature@),
        decreases *self,
    {
        match self {
            ValueExpr::Get(key) => feature.value_of(key),
            ValueExpr::Lit(v) => Some(v.clone()),
            ValueExpr::Match(input, arms, default) => {
                let inner = input.resolve(feature);
                match inner {
                    None => None,
                    Some(v) => {
                        for i in 0..arms.len()
                            invariant
                                spec_opt_value(Some(v)) == spec_resolve(**input, feature@),
                                forall|j: int|
                                    0 <= j < i ==> !spec_value_eq(v@, #[trigger] arms@[j].0@),
                        {
                            if v.equals(&arms[i].0) {
                                proof {
                                    lemma_match_arm_found(v@, arms@, feature@, i as int);
                                }
                                return arms[i].1.resolve(feature);
                            }
                        }
                        proof {
                            lemma_match_arm_missing(v@, arms@, feature@);
                        }
                        default.resolve(feature)
                    },
                }
            },
            ValueExpr::Cases(arms, default) => {
                for i in 0..arms.len()
                    invariant
                        forall|j: int|
                            0 <= j < i
                                ==> spec_eval(#[trigger] arms@[j].0, feature@)
                                != FilterResult::True,
                {
                    let cond = arms[i].0.evaluate(feature);
                    let fired = match cond {
                        FilterResult::True => true,
                        _ => false,
                    };
                    if fired {
                        proof {
                            lemma_case_arm_found(arms@, feature@, i as int);
                        }
                        return arms[i].1.resolve(feature);
                    }
                }
                proof {
                    lemma_case_arm_missing(arms@, feature@);
                }
                default.resolve(feature)
            },
            ValueExpr::Coalesce(exprs) => {
                for i in 0..exprs.len()
                    invariant
                        forall|j: int|
                            0 <= j < i ==> spec_resolve(#[trigger] exprs@[j], feature@) is None,
                {
                    let r = exprs[i].resolve(feature);
                    if r.is_some() {
                        proof {
                            lemma_coalesce_found(exprs@, feature@, i as int);
                        }
                        return r;
                    }
                }
                proof {
                    lemma_coalesce_missing(exprs@, feature@);
                }
                None
            },
        }
    }
}

/// One node of a filter tree. A missing filter on a style layer is
/// represented by the layer, not here: every `Filter` value is a predicate.
#[derive(Debug)]
pub enum Filter {
    /// Operand equals the given value; `Unknown` when the operand is absent.
    Equals(ValueExpr, FilterValue),
    /// Operand differs from the given value; `Unknown` when absent.
    NotEquals(ValueExpr, FilterValue),
    /// Operand is one of the listed values; `Unknown` when absent.
    OneOf(ValueExpr, Vec<FilterValue>),
    /// Operand is none of the listed values; `Unknown` when absent.
    NotOneOf(ValueExpr, Vec<FilterValue>),
    /// The named property exists on the feature; never `Unknown`.
    Has(String),
    /// The named property does not exist; never `Unknown`.
    NotHas(String),
    /// Three-valued conjunction of the sub-filters.
    AllOf(Vec<Filter>),
    /// Three-valued disjunction of the sub-filters.
    AnyOf(Vec<Filter>),
    /// True only when every sub-filter is definitely false.
    NoneOf(Vec<Filter>),
    /// An unparsable filter form; always evaluates to `Unknown`.
    Unrecognized,
}

/// The three-valued outcome of a filter against one feature.
pub open spec fn spec_eval(flt: Filter, f: SpecFeature) -> FilterResult
    decreases flt,
{
    match flt {
        Filter::Equals(key, value) => match spec_resolve(key, f) {
            Option::None => FilterResult::Unknown,
            Option::Some(v) => spec_from_bool(spec_value_eq(v, value@)),
        },
        Filter::NotEquals(key, value) => match spec_resolve(key, f) {
            Option::None => FilterResult::Unknown,
            Option::Some(v) => spec_from_bool(!spec_value_eq(v, value@)),
        },
        Filter::OneOf(key, values) => match spec_resolve(key, f) {
            Option::None => FilterResult::Unknown,
            Option::Some(v) => spec_from_bool(
                spec_value_in(v, values@.map_values(|x: FilterValue| x@)),
            ),
        },
        Filter::NotOneOf(key, values) => match spec_resolve(key, f) {
            Option::None => FilterResult::Unknown,
            Option::Some(v) => spec_from_bool(
                !spec_value_in(v, values@.map_values(|x: FilterValue| x@)),
            ),
        },
        Filter::Has(key) => spec_from_bool(spec_feature_has(f, key@)),
        Filter::NotHas(key) => spec_from_bool(!spec_feature_has(f, key@)),
        Filter::AllOf(subs) => combine_all(spec_eval_list(subs@, f)),
        Filter::AnyOf(subs) => combine_any(spec_eval_list(subs@, f)),
        Filter::NoneOf(subs) => combine_none(spec_eval_list(subs@, f)),
        Filter::Unrecognized => FilterResult::Unknown,
    }
}

/// The outcomes of a sequence of sub-filters, in order.
pub open spec fn spec_eval_list(flts: Seq<Filter>, f: SpecFeature) -> Seq<FilterResult>
    decreases flts,
{
    if flts.len() == 0 {
        Seq::empty()
    } else {
        seq![spec_eval(flts[0], f)] + spec_eval_list(flts.drop_first(), f)
    }
}

/// The outcome sequence is as long as the filter sequence, and outcome `i`
/// is the outcome of filter `i`.
pub proof fn lemma_eval_list(flts: Seq<Filter>, f: SpecFeature)
    ensures
        spec_eval_list(flts, f).len() == flts.len(),
        forall|i: int|
            0 <= i < flts.len()
                ==> #[trigger] spec_eval_list(flts, f)[i] == spec_eval(flts[i], f),
    decreases flts.len(),
{
    if flts.len() > 0 {
        lemma_eval_list(flts.drop_first(), f);
    }
}

impl Filter {
    /// Evaluate the filter against the feature, with short-circuiting
    /// three-valued logic.
    #[verifier::loop_isolation(false)]
    pub fn evaluate(&self, feature: &FeatureView) -> (r: FilterResult)
        ensures
            r == spec_eval(*self, feature@),
        decreases *self,
    {
        match self {
            Filter::Equals(key, value) => match key.resolve(feature) {
                Some(actual) => FilterResult::from_bool(actual.equals(value)),
                None => FilterResult::Unknown,
            },
            Filter::NotEquals(key, value) => match key.resolve(feature) {
                Some(actual) => FilterResult::from_bool(!actual.equals(value)),
                None => FilterResult::Unknown,
            },
            Filter::OneOf(key, values) => match key.resolve(feature) {
                Some(actual) => FilterResult::from_bool(
                    crate::value::value_in_list(&actual, values),
                ),
                None => FilterResult::Unknown,
            },
            Filter::NotOneOf(key, values) => match key.resolve(feature) {
                Some(actual) => FilterResult::from_bool(
                    !crate::value::value_in_list(&actual, values),
                ),
                None => FilterResult::Unknown,
            },
            Filter::Has(key) => FilterResult::from_bool(feature.has(key)),
            Filter::NotHas(key) => FilterResult::from_bool(!feature.has(key)),
            Filter::AllOf(subs) => eval_all(subs, feature),
            Filter::AnyOf(subs) => eval_any(subs, feature),
            Filter::NoneOf(subs) => eval_none(subs, feature),
            Filter::Unrecognized => FilterResult::Unknown,
        }
    }
}

/// Three-valued conjunction, short-circuiting on the first definite `False`.
#[verifier::loop_isolation(false)]
fn eval_all(subs: &Vec<Filter>, feature: &FeatureView) -> (r: FilterResult)
    ensures
        r == combine_all(spec_eval_list(subs@, feature@)),
    decreases subs@,
{
    let ghost rs = spec_eval_list(subs@, feature@);
    proof {
        lemma_eval_list(subs@, feature@);
    }
    let mut saw_unknown = false;
    for i in 0..subs.len()
        invariant
            forall|j: int| 0 <= j < i ==> #[trigger] rs[j] != FilterResult::False,
            saw_unknown == exists|j: int|
                0 <= j < i && #[trigger] rs[j] == FilterResult::Unknown,
    {
        match subs[i].evaluate(feature) {
            FilterResult::False => {
                proof {
                    assert(rs[i as int] == FilterResult::False);
                }
                return FilterResult::False;
            },
            FilterResult::Unknown => {
                proof {
                    assert(rs[i as int] == FilterResult::Unknown);
                }
                saw_unknown = true;
            },
            FilterResult::True => {},
        }
    }
    if saw_unknown {
        FilterResult::Unknown
    } else {
        FilterResult::True
    }
}

/// Three-valued disjunction, short-circuiting on the first definite `True`.
#[verifier::loop_isolation(false)]
fn eval_any(subs: &Vec<Filter>, feature: &FeatureView) -> (r: FilterResult)
    ensures
        r == combine_any(spec_eval_list(subs@, feature@)),
    decreases subs@,
{
    let ghost rs = spec_eval_list(subs@, feature@);
    proof {
        lemma_eval_list(subs@, feature@);
    }
    let mut saw_unknown = false;
    for i in 0..subs.len()
        invariant
            forall|j: int| 0 <= j < i ==> #[trigger] rs[j] != FilterResult::True,
            saw_unknown == exists|j: int|
                0 <= j < i && #[trigger] rs[j] == FilterResult::Unknown,
    {
        match subs[i].evaluate(feature) {
            FilterResult::True => {
                proof {
                    assert(rs[i as int] == FilterResult::True);
                }
                return FilterResult::True;
            },
            FilterResult::Unknown => {
                proof {
                    assert(rs[i as int] == FilterResult::Unknown);
                }
                saw_unknown = true;
            },
            FilterResult::False => {},
        }
    }
    if saw_unknown {
        FilterResult::Unknown
    } else {
        FilterResult::False
    }
}

/// True only when every sub-filter is definitely false; a definite `True`
/// short-circuits to `False`.
#[verifier::loop_isolation(false)]
fn eval_none(subs: &Vec<Filter>, feature: &FeatureView) -> (r: FilterResult)
    ensures
        r == combine_none(spec_eval_list(subs@, feature@)),
    decreases subs@,
{
    let ghost rs = spec_eval_list(subs@, feature@);
    proof {
        lemma_eval_list(subs@, feature@);
    }
    let mut saw_unknown = false;
    for i in 0..subs.len()
        invariant
            forall|j: int| 0 <= j < i ==> #[trigger] rs[j] != FilterResult::True,
            saw_unknown == exists|j: int|
                0 <= j < i && #[trigger] rs[j] == FilterResult::Unknown,
    {
        match subs[i].evaluate(feature) {
            FilterResult::True => {
                proof {
                    assert(rs[i as int] == FilterResult::True);
                }
                return FilterResult::False;
            },
            FilterResult::Unknown => {
                proof {
                    assert(rs[i as int] == FilterResult::Unknown);
                }
                saw_unknown = true;
            },
            FilterResult::False => {},
        }
    }
    if saw_unknown {
        FilterResult::Unknown
    } else {
        FilterResult::True
    }
}

/// When the first `i` labels miss and label `i` matches, the `match` picks
/// arm `i`.
proof fn lemma_match_arm_found(
    v: SpecValue,
    arms: Seq<(FilterValue, ValueExpr)>,
    f: SpecFeature,
    i: int,
)
    requires
        0 <= i < arms.len(),
        spec_value_eq(v, arms[i].0@),
        forall|j: int| 0 <= j < i ==> !spec_value_eq(v, #[trigger] arms[j].0@),
    ensures
        spec_match_arms(v, arms, f) == Option::Some(spec_resolve(arms[i].1, f)),
    decreases i,
{
    if i > 0 {
        lemma_match_arm_found(v, arms.drop_first(), f, i - 1);
    }
}

/// When no label matches, the `match` falls through to its default.
proof fn lemma_match_arm_missing(v: SpecValue, arms: Seq<(FilterValue, ValueExpr)>, f: SpecFeature)
    requires
        forall|j: int| 0 <= j < arms.len() ==> !spec_value_eq(v, #[trigger] arms[j].0@),
    ensures
        spec_match_arms(v, arms, f) is None,
    decreases arms.len(),
{
    if arms.len() > 0 {
        lemma_match_arm_missing(v, arms.drop_first(), f);
    }
}

/// When the first `i` conditions do not fire and condition `i` does, the
/// `case` picks arm `i`.
proof fn lemma_case_arm_found(arms: Seq<(Filter, ValueExpr)>, f: SpecFeature, i: int)
    requires
        0 <= i < arms.len(),
        spec_eval(arms[i].0, f) == FilterResult::True,
        forall|j: int|
            0 <= j < i ==> spec_eval(#[trigger] arms[j].0, f) != FilterResult::True,
    ensures
        spec_case_arms(arms, f) == Option::Some(spec_resolve(arms[i].1, f)),
    decreases i,
{
    if i > 0 {
        lemma_case_arm_found(arms.drop_first(), f, i - 1);
    }
}

/// When no condition fires, the `case` falls through to its default.
proof fn lemma_case_arm_missing(arms: Seq<(Filter, ValueExpr)>, f: SpecFeature)
    requires
        forall|j: int|
            0 <= j < arms.len() ==> spec_eval(#[trigger] arms[j].0, f) != FilterResult::True,
    ensures
        spec_case_arms(arms, f) is None,
    decreases arms.len(),
{
    if arms.len() > 0 {
        lemma_case_arm_missing(arms.drop_first(), f);
    }
}

/// When the first `i` expressions resolve absent and expression `i`
/// resolves to a value, the `coalesce` yields that value.
proof fn lemma_coalesce_found(exprs: Seq<ValueExpr>, f: SpecFeature, i: int)
    requires
        0 <= i < exprs.len(),
        spec_resolve(exprs[i], f) is Some,
        forall|j: int| 0 <= j < i ==> spec_resolve(#[trigger] exprs[j], f) is None,
    ensures
        spec_coalesce(exprs, f) == spec_resolve(exprs[i], f),
    decreases i,
{
    if i > 0 {
        lemma_coalesce_found(exprs.drop_first(), f, i - 1);
    }
}

/// When every expression resolves absent, so does the `coalesce`.
proof fn lemma_coalesce_missing(exprs: Seq<ValueExpr>, f: SpecFeature)
    requires
        forall|j: int| 0 <= j < exprs.len() ==> spec_resolve(#[trigger] exprs[j], f) is None,
    ensures
        spec_coalesce(exprs, f) is None,
    decreases exprs.len(),
{
    if exprs.len() > 0 {
        lemma_coalesce_missing(exprs.drop_first(), f);
    }
}

} // verus!
