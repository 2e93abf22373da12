//! The style-document loader: from a parsed JSON tree to the style model.
//!
//! Parsing is strictly separated from evaluation: malformed input is caught
//! here, once, at load time. A malformed filter sub-expression degrades to
//! the `Unrecognized` filter variant rather than aborting the whole load;
//! only a document without a usable `layers` array, or one whose layers
//! name no source-layer at all, is rejected.

use vstd::prelude::*;

use crate::filter::{
    spec_expr_model, spec_filter_model, spec_filter_models, spec_value_models, Filter, SpecExpr,
    SpecFilter, ValueExpr,
};
use crate::json::{spec_json_get, JsonValue};
use crate::style::{
    spec_groups_model, spec_layer_model, spec_layer_models, spec_paint_entry_models,
    spec_paint_model, spec_stop_models, MapboxStyle, MapboxStyleLayer, PaintValue, SourceGroup,
    SpecLayer, SpecPaint,
};
use crate::value::{FilterValue, SpecValue, NUM_SCALE};

verus! {

/// Why a style document was rejected.
#[derive(Debug, Clone, Copy, PartialEq, Eq, Structural)]
pub enum StyleError {
    /// The document has no `layers` array.
    MissingLayers,
    /// The layers name no source-layer at all: the style holds no rule.
    NoSourceLayers,
}

impl StyleError {
    /// A human-readable description of the rejection.
    pub fn message(&self) -> (r: &'static str)
        ensures
            self is MissingLayers ==> r@ == "style json missing layers array"@,
            self is NoSourceLayers ==> r@ == "style json contains no source-layer entries"@,
    {
        match self {
            StyleError::MissingLayers => "style json missing layers array",
            StyleError::NoSourceLayers => "style json contains no source-layer entries",
        }
    }
}

/// The filter-operand value a scalar node denotes: a string, a number or a
/// boolean; other nodes denote none.
pub open spec fn spec_parse_value(j: JsonValue) -> Option<SpecValue> {
    match j {
        JsonValue::Text(s) => Option::Some(SpecValue::Text(s@)),
        JsonValue::Number(n) => Option::Some(SpecValue::Number(n as int)),
        JsonValue::Flag(b) => Option::Some(SpecValue::Flag(b)),
        _ => Option::None,
    }
}

/// Model of an optional parsed value.
pub open spec fn spec_opt_value_model(r: Option<FilterValue>) -> Option<SpecValue> {
    match r {
        Option::Some(v) => Option::Some(v@),
        Option::None => Option::None,
    }
}

/// Model of an optional parsed expression.
pub open spec fn spec_opt_expr_model(r: Option<ValueExpr>) -> Option<SpecExpr> {
    match r {
        Option::Some(e) => Option::Some(spec_expr_model(e)),
        Option::None => Option::None,
    }
}

/// Model of an optional parsed filter.
pub open spec fn spec_opt_filter_model(r: Option<Filter>) -> Option<SpecFilter> {
    match r {
        Option::Some(f) => Option::Some(spec_filter_model(f)),
        Option::None => Option::None,
    }
}

/// Parse a scalar node as a filter-operand value.
pub fn parse_filter_value(j: &JsonValue) -> (r: Option<FilterValue>)
    ensures
        spec_opt_value_model(r) == spec_parse_value(*j),
{
    match j {
        JsonValue::Text(s) => Some(FilterValue::Text(s.clone())),
        JsonValue::Number(n) => Some(FilterValue::Number(*n)),
        JsonValue::Flag(b) => Some(FilterValue::Flag(*b)),
        _ => None,
    }
}

/// The expression a node in nested operand position denotes. A scalar is
/// a literal value; an array is one of the recognized forms: `["get",
/// name]`, `["match", input, label, result, ..., default]`, `["case",
/// condition, result, ..., default]`, or `["coalesce", expr, ...]`. Any
/// other shape denotes no expression.
pub open spec fn spec_parse_expr(j: JsonValue) -> Option<SpecExpr>
    decreases j, 0int,
{
    match j {
        JsonValue::Text(s) => Option::Some(SpecExpr::Lit(SpecValue::Text(s@))),
        JsonValue::Number(n) => Option::Some(SpecExpr::Lit(SpecValue::Number(n as int))),
        JsonValue::Flag(b) => Option::Some(SpecExpr::Lit(SpecValue::Flag(b))),
        JsonValue::Array(items) => if items@.len() == 0 {
            Option::None
        } else {
            match items@[0] {
                JsonValue::Text(op) => if op@ == "get"@ {
                    if items@.len() == 2 {
                        match items@[1] {
                            JsonValue::Text(name) => Option::Some(SpecExpr::Get(name@)),
                            _ => Option::None,
                        }
                    } else {
                        Option::None
                    }
                } else if op@ == "match"@ {
                    if items@.len() >= 5 && items@.len() % 2 == 1 {
                        match (
                            spec_parse_expr(items@[1]),
                            spec_parse_match_pairs(items@.subrange(2, items@.len() - 1)),
                            spec_parse_expr(items@[items@.len() - 1]),
                        ) {
                            (
                                Option::Some(input),
                                Option::Some(arms),
                                Option::Some(default),
                            ) => Option::Some(
                                SpecExpr::Match(Box::new(input), arms, Box::new(default)),
                            ),
                            _ => Option::None,
                        }
                    } else {
                        Option::None
                    }
                } else if op@ == "case"@ {
                    if items@.len() >= 4 && items@.len() % 2 == 0 {
                        match (
                            spec_parse_case_pairs(items@.subrange(1, items@.len() - 1)),
                            spec_parse_expr(items@[items@.len() - 1]),
                        ) {
                            (Option::Some(arms), Option::Some(default)) => Option::Some(
                                SpecExpr::Cases(arms, Box::new(default)),
                            ),
                            _ => Option::None,
                        }
                    } else {
                        Option::None
                    }
                } else if op@ == "coalesce"@ {
                    if items@.len() >= 2 {
                        match spec_parse_expr_list(items@.subrange(1, items@.len() as int)) {
                            Option::Some(exprs) => Option::Some(SpecExpr::Coalesce(exprs)),
                            Option::None => Option::None,
                        }
                    } else {
                        Option::None
                    }
                } else {
                    Option::None
                },
                _ => Option::None,
            }
        },
        _ => Option::None,
    }
}

/// The `match` arms an even run of nodes denotes: alternating labels and
/// result expressions; any malformed pair poisons the run.
pub open spec fn spec_parse_match_pairs(items: Seq<JsonValue>) -> Option<
    Seq<(SpecValue, SpecExpr)>,
>
    decreases items, 0int,
{
    if items.len() == 0 {
        Option::Some(Seq::empty())
    } else if items.len() == 1 {
        Option::None
    } else {
        match (spec_parse_value(items[0]), spec_parse_expr(items[1])) {
            (Option::Some(label), Option::Some(result)) => match spec_parse_match_pairs(
                items.subrange(2, items.len() as int),
            ) {
                Option::Some(rest) => Option::Some(seq![(label, result)] + rest),
                Option::None => Option::None,
            },
            _ => Option::None,
        }
    }
}

/// The `case` arms an even run of nodes denotes: alternating filter
/// conditions and result expressions; a condition that is no filter form,
/// or a malformed result, poisons the run.
pub open spec fn spec_parse_case_pairs(items: Seq<JsonValue>) -> Option<
    Seq<(SpecFilter, SpecExpr)>,
>
    decreases items, 0int,
{
    if items.len() == 0 {
        Option::Some(Seq::empty())
    } else if items.len() == 1 {
        Option::None
    } else {
        match (spec_parse_filter(items[0]), spec_parse_expr(items[1])) {
            (Option::Some(cond), Option::Some(result)) => match spec_parse_case_pairs(
                items.subrange(2, items.len() as int),
            ) {
                Option::Some(rest) => Option::Some(seq![(cond, result)] + rest),
                Option::None => Option::None,
            },
            _ => Option::None,
        }
    }
}

/// The expression list a run of nodes denotes; any malformed node poisons
/// the run.
pub open spec fn spec_parse_expr_list(items: Seq<JsonValue>) -> Option<Seq<SpecExpr>>
    decreases items, 0int,
{
    if items.len() == 0 {
        Option::Some(Seq::empty())
    } else {
        match spec_parse_expr(items[0]) {
            Option::Some(e) => match spec_parse_expr_list(items.drop_first()) {
                Option::Some(rest) => Option::Some(seq![e] + rest),
                Option::None => Option::None,
            },
            Option::None => Option::None,
        }
    }
}

/// The operand key a filter names: a bare string is a property lookup, an
/// array is a nested value expression.
pub open spec fn spec_parse_key(j: JsonValue) -> Option<SpecExpr>
    decreases j, 1int,
{
    match j {
        JsonValue::Text(s) => Option::Some(SpecExpr::Get(s@)),
        JsonValue::Array(_) => spec_parse_expr(j),
        _ => Option::None,
    }
}

/// The models of a pushed-on `match` arm sequence extend the models.
proof fn lemma_match_arm_models_push(arms: Seq<(FilterValue, ValueExpr)>, x: (FilterValue, ValueExpr))
    ensures
        crate::filter::spec_match_arm_models(arms.push(x)) =~= crate::filter::spec_match_arm_models(
            arms,
        ).push((x.0@, spec_expr_model(x.1))),
{
    crate::filter::lemma_match_arm_models(arms.push(x));
    crate::filter::lemma_match_arm_models(arms);
    assert(arms.push(x)[arms.len() as int] == x);
}

/// The models of a pushed-on `case` arm sequence extend the models.
proof fn lemma_case_arm_models_push(arms: Seq<(Filter, ValueExpr)>, x: (Filter, ValueExpr))
    ensures
        crate::filter::spec_case_arm_models(arms.push(x)) =~= crate::filter::spec_case_arm_models(
            arms,
        ).push((spec_filter_model(x.0), spec_expr_model(x.1))),
{
    crate::filter::lemma_case_arm_models(arms.push(x));
    crate::filter::lemma_case_arm_models(arms);
    assert(arms.push(x)[arms.len() as int] == x);
}

/// The models of a pushed-on expression sequence extend the models.
proof fn lemma_expr_models_push(exprs: Seq<ValueExpr>, x: ValueExpr)
    ensures
        crate::filter::spec_expr_models(exprs.push(x)) =~= crate::filter::spec_expr_models(
            exprs,
        ).push(spec_expr_model(x)),
{
    crate::filter::lemma_expr_models(exprs.push(x));
    crate::filter::lemma_expr_models(exprs);
    assert(exprs.push(x)[exprs.len() as int] == x);
}

/// Parse a nested operand expression.
#[verifier::loop_isolation(false)]
pub fn parse_expr(j: &JsonValue) -> (r: Option<ValueExpr>)
    ensures
        spec_opt_expr_model(r) == spec_parse_expr(*j),
    decreases *j, 0int,
{
    let items = match j {
        JsonValue::Text(s) => {
            return Some(ValueExpr::Lit(FilterValue::Text(s.clone())));
        },
        JsonValue::Number(n) => {
            return Some(ValueExpr::Lit(FilterValue::Number(*n)));
        },
        JsonValue::Flag(b) => {
            return Some(ValueExpr::Lit(FilterValue::Flag(*b)));
        },
        JsonValue::Array(items) => items,
        _ => {
            return None;
        },
    };
    if items.len() == 0 {
        return None;
    }
    let op = match &items[0] {
        JsonValue::Text(op) => op,
        _ => {
            return None;
        },
    };
    let op_get: String = "get".to_owned();
    let op_match: String = "match".to_owned();
    let op_case: String = "case".to_owned();
    let op_coalesce: String = "coalesce".to_owned();
    if op.eq(&op_get) {
        if items.len() == 2 {
            match &items[1] {
                JsonValue::Text(name) => Some(ValueExpr::Get(name.clone())),
                _ => None,
            }
        } else {
            None
        }
    } else if op.eq(&op_match) {
        if items.len() < 5 || items.len() % 2 == 0 {
            return None;
        }
        let end = items.len() - 1;
        let input = match parse_expr(&items[1]) {
            Some(e) => e,
            None => {
                return None;
            },
        };
        let mut arms: Vec<(FilterValue, ValueExpr)> = Vec::new();
        assert(crate::filter::spec_match_arm_models(arms@) + spec_parse_match_pairs(
            items@.subrange(2, end as int),
        )->Some_0 =~= spec_parse_match_pairs(items@.subrange(2, end as int))->Some_0);
        let mut i: usize = 2;
        while i < end
            invariant
                2 <= i <= end,
                i % 2 == 0,
                end % 2 == 0,
                end == items@.len() - 1,
                spec_parse_match_pairs(items@.subrange(2, end as int)) == match (
                spec_parse_match_pairs(items@.subrange(i as int, end as int))) {
                    Option::Some(rest) => Option::Some(
                        crate::filter::spec_match_arm_models(arms@) + rest,
                    ),
                    Option::None => Option::<Seq<(SpecValue, SpecExpr)>>::None,
                },
            decreases end - i,
        {
            let ghost sub = items@.subrange(i as int, end as int);
            assert(sub.len() >= 2);
            assert(sub[0] == items@[i as int]);
            assert(sub[1] == items@[i as int + 1]);
            assert(sub.subrange(2, sub.len() as int) =~= items@.subrange(i as int + 2, end as int));
            let label = match parse_filter_value(&items[i]) {
                Some(v) => v,
                None => {
                    return None;
                },
            };
            let result = match parse_expr(&items[i + 1]) {
                Some(e) => e,
                None => {
                    return None;
                },
            };
            let ghost old_arms = arms@;
            let ghost arm_model = (label@, spec_expr_model(result));
            arms.push((label, result));
            proof {
                lemma_match_arm_models_push(old_arms, (label, result));
                if spec_parse_match_pairs(items@.subrange(i as int + 2, end as int)) is Some {
                    let rest = spec_parse_match_pairs(
                        items@.subrange(i as int + 2, end as int),
                    )->Some_0;
                    assert(crate::filter::spec_match_arm_models(old_arms) + (seq![arm_model]
                        + rest) =~= crate::filter::spec_match_arm_models(arms@) + rest);
                }
            }
            i = i + 2;
        }
        assert(items@.subrange(end as int, end as int) =~= Seq::<JsonValue>::empty());
        assert(crate::filter::spec_match_arm_models(arms@) + Seq::<(SpecValue, SpecExpr)>::empty()
            =~= crate::filter::spec_match_arm_models(arms@));
        let default = match parse_expr(&items[end]) {
            Some(e) => e,
            None => {
                return None;
            },
        };
        Some(ValueExpr::Match(Box::new(input), arms, Box::new(default)))
    } else if op.eq(&op_case) {
        if items.len() < 4 || items.len() % 2 == 1 {
            return None;
        }
        let end = items.len() - 1;
        let mut arms: Vec<(Filter, ValueExpr)> = Vec::new();
        assert(crate::filter::spec_case_arm_models(arms@) + spec_parse_case_pairs(
            items@.subrange(1, end as int),
        )->Some_0 =~= spec_parse_case_pairs(items@.subrange(1, end as int))->Some_0);
        let mut i: usize = 1;
        while i < end
            invariant
                1 <= i <= end,
                i % 2 == 1,
                end % 2 == 1,
                end == items@.len() - 1,
                spec_parse_case_pairs(items@.subrange(1, end as int)) == match (
                spec_parse_case_pairs(items@.subrange(i as int, end as int))) {
                    Option::Some(rest) => Option::Some(
                        crate::filter::spec_case_arm_models(arms@) + rest,
                    ),
                    Option::None => Option::<Seq<(SpecFilter, SpecExpr)>>::None,
                },
            decreases end - i,
        {
            let ghost sub = items@.subrange(i as int, end as int);
            assert(sub.len() >= 2);
            assert(sub[0] == items@[i as int]);
            assert(sub[1] == items@[i as int + 1]);
            assert(sub.subrange(2, sub.len() as int) =~= items@.subrange(i as int + 2, end as int));
            let cond = match parse_filter(&items[i]) {
                Some(f) => f,
                None => {
                    return None;
                },
            };
            let result = match parse_expr(&items[i + 1]) {
                Some(e) => e,
                None => {
                    return None;
                },
            };
            let ghost old_arms = arms@;
            let ghost arm_model = (spec_filter_model(cond), spec_expr_model(result));
            arms.push((cond, result));
            proof {
                lemma_case_arm_models_push(old_arms, (cond, result));
                if spec_parse_case_pairs(items@.subrange(i as int + 2, end as int)) is Some {
                    let rest = spec_parse_case_pairs(
                        items@.subrange(i as int + 2, end as int),
                    )->Some_0;
                    assert(crate::filter::spec_case_arm_models(old_arms) + (seq![arm_model] + rest)
                        =~= crate::filter::spec_case_arm_models(arms@) + rest);
                }
            }
            i = i + 2;
        }
        assert(items@.subrange(end as int, end as int) =~= Seq::<JsonValue>::empty());
        assert(crate::filter::spec_case_arm_models(arms@) + Seq::<(SpecFilter, SpecExpr)>::empty()
            =~= crate::filter::spec_case_arm_models(arms@));
        let default = match parse_expr(&items[end]) {
            Some(e) => e,
            None => {
                return None;
            },
        };
        Some(ValueExpr::Cases(arms, Box::new(default)))
    } else if op.eq(&op_coalesce) {
        if items.len() < 2 {
            return None;
        }
        let mut exprs: Vec<ValueExpr> = Vec::new();
        assert(items@.subrange(1, items@.len() as int) =~= items@.skip(1));
        assert(crate::filter::spec_expr_models(exprs@) + spec_parse_expr_list(
            items@.skip(1),
        )->Some_0 =~= spec_parse_expr_list(items@.skip(1))->Some_0);
        for i in 1..items.len()
            invariant
                spec_parse_expr_list(items@.skip(1)) == match (
                spec_parse_expr_list(items@.skip(i as int))) {
                    Option::Some(rest) => Option::Some(
                        crate::filter::spec_expr_models(exprs@) + rest,
                    ),
                    Option::None => Option::<Seq<SpecExpr>>::None,
                },
        {
            assert(items@.skip(i as int)[0] == items@[i as int]);
            assert(items@.skip(i as int).drop_first() =~= items@.skip(i as int + 1));
            let e = match parse_expr(&items[i]) {
                Some(e) => e,
                None => {
                    return None;
                },
            };
            let ghost old_exprs = exprs@;
            let ghost e_model = spec_expr_model(e);
            exprs.push(e);
            proof {
                lemma_expr_models_push(old_exprs, e);
                if spec_parse_expr_list(items@.skip(i as int + 1)) is Some {
                    let rest = spec_parse_expr_list(items@.skip(i as int + 1))->Some_0;
                    assert(crate::filter::spec_expr_models(old_exprs) + (seq![e_model] + rest)
                        =~= crate::filter::spec_expr_models(exprs@) + rest);
                }
            }
        }
        assert(items@.skip(items@.len() as int) =~= Seq::<JsonValue>::empty());
        assert(crate::filter::spec_expr_models(exprs@) + Seq::<SpecExpr>::empty()
            =~= crate::filter::spec_expr_models(exprs@));
        Some(ValueExpr::Coalesce(exprs))
    } else {
        None
    }
}

/// Parse a filter operand key.
pub fn parse_key(j: &JsonValue) -> (r: Option<ValueExpr>)
    ensures
        spec_opt_expr_model(r) == spec_parse_key(*j),
    decreases *j, 1int,
{
    match j {
        JsonValue::Text(s) => Some(ValueExpr::Get(s.clone())),
        JsonValue::Array(_) => parse_expr(j),
        _ => None,
    }
}

/// The value list a run of scalar nodes denotes; `None` as soon as one
/// node is no scalar.
pub open spec fn spec_parse_values(items: Seq<JsonValue>) -> Option<Seq<SpecValue>>
    decreases items.len(),
{
    if items.len() == 0 {
        Option::Some(Seq::empty())
    } else {
        match spec_parse_value(items[0]) {
            Option::None => Option::None,
            Option::Some(v) => match spec_parse_values(items.drop_first()) {
                Option::None => Option::None,
                Option::Some(rest) => Option::Some(seq![v] + rest),
            },
        }
    }
}

/// Parse the nodes from `start` on as a value list.
#[verifier::loop_isolation(false)]
fn parse_values_from(items: &Vec<JsonValue>, start: usize) -> (r: Option<Vec<FilterValue>>)
    requires
        start <= items@.len(),
    ensures
        match r {
            Option::Some(vs) => spec_parse_values(items@.skip(start as int)) == Option::Some(
                spec_value_models(vs@),
            ),
            Option::None => spec_parse_values(items@.skip(start as int)) is None,
        },
{
    let mut vals: Vec<FilterValue> = Vec::new();
    assert(spec_value_models(vals@) + spec_parse_values(items@.skip(start as int))->Some_0
        =~= spec_parse_values(items@.skip(start as int))->Some_0);
    for i in start..items.len()
        invariant
            start <= i <= items@.len(),
            spec_parse_values(items@.skip(start as int)) == match spec_parse_values(
                items@.skip(i as int),
            ) {
                Option::Some(rest) => Option::Some(spec_value_models(vals@) + rest),
                Option::None => Option::<Seq<SpecValue>>::None,
            },
    {
        assert(items@.skip(i as int)[0] == items@[i as int]);
        assert(items@.skip(i as int).drop_first() =~= items@.skip(i as int + 1));
        match parse_filter_value(&items[i]) {
            None => {
                return None;
            },
            Some(v) => {
                let ghost old_vals = vals@;
                vals.push(v);
                proof {
                    assert(spec_value_models(vals@) =~= spec_value_models(old_vals).push(v@));
                    if spec_parse_values(items@.skip(i as int + 1)) is Some {
                        let rest = spec_parse_values(items@.skip(i as int + 1))->Some_0;
                        assert(spec_value_models(old_vals) + (seq![v@] + rest) =~= spec_value_models(
                            vals@,
                        ) + rest);
                    }
                }
            },
        }
    }
    assert(items@.skip(items@.len() as int) =~= Seq::<JsonValue>::empty());
    assert(spec_value_models(vals@) + Seq::<SpecValue>::empty() =~= spec_value_models(vals@));
    Some(vals)
}

/// The filter an array node denotes. A recognized head with a malformed
/// body degrades to `Unrecognized`; a node that is no filter form at all
/// (no array, empty array, non-string head or key, bad operand value)
/// denotes no filter, and a layer carrying it matches every feature.
pub open spec fn spec_parse_filter(j: JsonValue) -> Option<SpecFilter>
    decreases j, 2int,
{
    match j {
        JsonValue::Array(items) => if items@.len() == 0 {
            Option::None
        } else {
            match items@[0] {
                JsonValue::Text(op) => if op@ == "=="@ || op@ == "!="@ {
                    if items@.len() < 3 {
                        Option::Some(SpecFilter::Unrecognized)
                    } else {
                        match (spec_parse_key(items@[1]), spec_parse_value(items@[2])) {
                            (Option::Some(k), Option::Some(v)) => Option::Some(
                                if op@ == "=="@ {
                                    SpecFilter::Equals(k, v)
                                } else {
                                    SpecFilter::NotEquals(k, v)
                                },
                            ),
                            _ => Option::None,
                        }
                    }
                } else if op@ == "in"@ || op@ == "!in"@ {
                    if items@.len() < 3 {
                        Option::Some(SpecFilter::Unrecognized)
                    } else {
                        match spec_parse_key(items@[1]) {
                            Option::None => Option::None,
                            Option::Some(k) => match (
                                match items@[2] {
                                    JsonValue::Array(list) => spec_parse_values(list@),
                                    _ => spec_parse_values(items@.skip(2)),
                                }
                            ) {
                                Option::None => Option::Some(SpecFilter::Unrecognized),
                                Option::Some(values) => Option::Some(
                                    if op@ == "in"@ {
                                        SpecFilter::OneOf(k, values)
                                    } else {
                                        SpecFilter::NotOneOf(k, values)
                                    },
                                ),
                            },
                        }
                    }
                } else if op@ == "has"@ || op@ == "!has"@ {
                    if items@.len() < 2 {
                        Option::Some(SpecFilter::Unrecognized)
                    } else {
                        match items@[1] {
                            JsonValue::Text(s) => Option::Some(
                                if op@ == "has"@ {
                                    SpecFilter::Has(s@)
                                } else {
                                    SpecFilter::NotHas(s@)
                                },
                            ),
                            _ => Option::None,
                        }
                    }
                } else if op@ == "all"@ || op@ == "any"@ || op@ == "none"@ {
                    let subs = spec_parse_filter_list(items@.skip(1));
                    Option::Some(
                        if op@ == "all"@ {
                            SpecFilter::AllOf(subs)
                        } else if op@ == "any"@ {
                            SpecFilter::AnyOf(subs)
                        } else {
                            SpecFilter::NoneOf(subs)
                        },
                    )
                } else {
                    Option::Some(SpecFilter::Unrecognized)
                },
                _ => Option::None,
            }
        },
        _ => Option::None,
    }
}

/// The sub-filters a combinator's operands denote; an operand that denotes
/// no filter degrades to `Unrecognized` in place.
pub open spec fn spec_parse_filter_list(items: Seq<JsonValue>) -> Seq<SpecFilter>
    decreases items, 0int,
{
    if items.len() == 0 {
        Seq::empty()
    } else {
        seq![
            match spec_parse_filter(items[0]) {
                Option::Some(f) => f,
                Option::None => SpecFilter::Unrecognized,
            },
        ] + spec_parse_filter_list(items.drop_first())
    }
}

/// Parse a filter tree from an array node.
#[verifier::loop_isolation(false)]
pub fn parse_filter(j: &JsonValue) -> (r: Option<Filter>)
    ensures
        spec_opt_filter_model(r) == spec_parse_filter(*j),
    decreases *j, 2int,
{
    let items = match j {
        JsonValue::Array(items) => items,
        _ => {
            return None;
        },
    };
    if items.len() == 0 {
        return None;
    }
    let op = match &items[0] {
        JsonValue::Text(op) => op,
        _ => {
            return None;
        },
    };
    let op_eq: String = "==".to_owned();
    let op_neq: String = "!=".to_owned();
    let op_in: String = "in".to_owned();
    let op_not_in: String = "!in".to_owned();
    let op_has: String = "has".to_owned();
    let op_not_has: String = "!has".to_owned();
    let op_all: String = "all".to_owned();
    let op_any: String = "any".to_owned();
    let op_none: String = "none".to_owned();
    if op.eq(&op_eq) || op.eq(&op_neq) {
        if items.len() < 3 {
            return Some(Filter::Unrecognized);
        }
        let key = match parse_key(&items[1]) {
            Some(k) => k,
            None => {
                return None;
            },
        };
        let value = match parse_filter_value(&items[2]) {
            Some(v) => v,
            None => {
                return None;
            },
        };
        if op.eq(&op_eq) {
            Some(Filter::Equals(key, value))
        } else {
            Some(Filter::NotEquals(key, value))
        }
    } else if op.eq(&op_in) || op.eq(&op_not_in) {
        if items.len() < 3 {
            return Some(Filter::Unrecognized);
        }
        let key = match parse_key(&items[1]) {
            Some(k) => k,
            None => {
                return None;
            },
        };
        let values = match &items[2] {
            JsonValue::Array(list) => {
                proof {
                    assert(list@.skip(0) =~= list@);
                }
                parse_values_from(list, 0)
            },
            _ => parse_values_from(items, 2),
        };
        match values {
            None => Some(Filter::Unrecognized),
            Some(vs) => {
                if op.eq(&op_in) {
                    Some(Filter::OneOf(key, vs))
                } else {
                    Some(Filter::NotOneOf(key, vs))
                }
            },
        }
    } else if op.eq(&op_has) || op.eq(&op_not_has) {
        if items.len() < 2 {
            return Some(Filter::Unrecognized);
        }
        match &items[1] {
            JsonValue::Text(s) => {
                if op.eq(&op_has) {
                    Some(Filter::Has(s.clone()))
                } else {
                    Some(Filter::NotHas(s.clone()))
                }
            },
            _ => None,
        }
    } else if op.eq(&op_all) || op.eq(&op_any) || op.eq(&op_none) {
        let mut subs: Vec<Filter> = Vec::new();
        assert(spec_filter_models(subs@) + spec_parse_filter_list(items@.skip(1))
            =~= spec_parse_filter_list(items@.skip(1)));
        for i in 1..items.len()
            invariant
                1 <= i <= items@.len(),
                spec_parse_filter_list(items@.skip(1)) == spec_filter_models(subs@)
                    + spec_parse_filter_list(items@.skip(i as int)),
        {
            assert(items@.skip(i as int)[0] == items@[i as int]);
            assert(items@.skip(i as int).drop_first() =~= items@.skip(i as int + 1));
            let sub = match parse_filter(&items[i]) {
                Some(f) => f,
                None => Filter::Unrecognized,
            };
            let ghost old_subs = subs@;
            let ghost sub_model = spec_filter_model(sub);
            subs.push(sub);
            proof {
                lemma_filter_models_push(old_subs, sub);
                let rest = spec_parse_filter_list(items@.skip(i as int + 1));
                assert(spec_filter_models(old_subs) + (seq![sub_model] + rest) =~= (
                    spec_filter_models(old_subs).push(sub_model)
                ) + rest);
            }
        }
        assert(items@.skip(items@.len() as int) =~= Seq::<JsonValue>::empty());
        assert(spec_filter_models(subs@) + Seq::<SpecFilter>::empty() =~= spec_filter_models(
            subs@,
        ));
        if op.eq(&op_all) {
            Some(Filter::AllOf(subs))
        } else if op.eq(&op_any) {
            Some(Filter::AnyOf(subs))
        } else {
            Some(Filter::NoneOf(subs))
        }
    } else {
        Some(Filter::Unrecognized)
    }
}

/// The query zoom a stop's fixed-point zoom stands for: out of range when
/// no integer zoom in `0..=255` truncates from it.
pub open spec fn spec_stop_zoom(m: int) -> Option<u8> {
    if m <= -(NUM_SCALE as int) || m >= 256 * (NUM_SCALE as int) {
        Option::None
    } else if m < 0 {
        Option::Some(0u8)
    } else {
        Option::Some((m / (NUM_SCALE as int)) as u8)
    }
}

/// The stop table a run of nodes denotes: each node must be an array; one
/// shorter than two entries, or with an out-of-range zoom, is skipped; one
/// whose zoom or value is no number poisons the whole table.
pub open spec fn spec_parse_stops(items: Seq<JsonValue>) -> Option<Seq<(u8, int)>>
    decreases items.len(),
{
    if items.len() == 0 {
        Option::Some(Seq::empty())
    } else {
        match items[0] {
            JsonValue::Array(arr) => if arr@.len() < 2 {
                spec_parse_stops(items.drop_first())
            } else {
                match (arr@[0], arr@[1]) {
                    (JsonValue::Number(z), JsonValue::Number(v)) => match spec_parse_stops(
                        items.drop_first(),
                    ) {
                        Option::None => Option::None,
                        Option::Some(rest) => match spec_stop_zoom(z as int) {
                            Option::None => Option::Some(rest),
                            Option::Some(zz) => Option::Some(seq![(zz, v as int)] + rest),
                        },
                    },
                    _ => Option::None,
                }
            },
            _ => Option::None,
        }
    }
}

/// The paint value a node denotes: a plain number is a constant; an object
/// with a non-empty well-formed `stops` array is a stop table; anything
/// else denotes none and the property is simply absent.
pub open spec fn spec_parse_paint(j: JsonValue) -> Option<SpecPaint> {
    match j {
        JsonValue::Number(n) => Option::Some(SpecPaint::Constant(n as int)),
        _ => match spec_json_get(j, "stops"@) {
            Option::Some(JsonValue::Array(stops)) => match spec_parse_stops(stops@) {
                Option::None => Option::None,
                Option::Some(parsed) => if parsed.len() == 0 {
                    Option::None
                } else {
                    Option::Some(SpecPaint::Stops(parsed))
                },
            },
            _ => Option::None,
        },
    }
}

/// Model of an optional parsed paint value.
pub open spec fn spec_opt_paint_model(r: Option<PaintValue>) -> Option<SpecPaint> {
    match r {
        Option::Some(p) => Option::Some(spec_paint_model(p)),
        Option::None => Option::None,
    }
}

/// The integer query zoom a fixed-point stop zoom truncates to, when it
/// lies in range.
fn stop_zoom(m: i64) -> (r: Option<u8>)
    ensures
        r == spec_stop_zoom(m as int),
{
    if m <= -NUM_SCALE || m >= 256 * NUM_SCALE {
        None
    } else if m < 0 {
        Some(0)
    } else {
        let z = m / NUM_SCALE;
        assert(0 <= z <= 255) by (nonlinear_arith)
            requires
                0 <= m < 256 * NUM_SCALE,
                z == m / NUM_SCALE,
                NUM_SCALE == 1_000_000,
        ;
        Some(z as u8)
    }
}

/// Parse a `stops` array into a stop table.
#[verifier::loop_isolation(false)]
fn parse_stops(items: &Vec<JsonValue>) -> (r: Option<Vec<(u8, i64)>>)
    ensures
        match r {
            Option::Some(vs) => spec_parse_stops(items@) == Option::Some(spec_stop_models(vs@)),
            Option::None => spec_parse_stops(items@) is None,
        },
{
    let mut out: Vec<(u8, i64)> = Vec::new();
    assert(items@.skip(0) =~= items@);
    assert(spec_stop_models(out@) + spec_parse_stops(items@)->Some_0 =~= spec_parse_stops(
        items@,
    )->Some_0);
    for i in 0..items.len()
        invariant
            spec_parse_stops(items@) == match spec_parse_stops(items@.skip(i as int)) {
                Option::Some(rest) => Option::Some(spec_stop_models(out@) + rest),
                Option::None => Option::<Seq<(u8, int)>>::None,
            },
    {
        assert(items@.skip(i as int)[0] == items@[i as int]);
        assert(items@.skip(i as int).drop_first() =~= items@.skip(i as int + 1));
        let arr = match &items[i] {
            JsonValue::Array(arr) => arr,
            _ => {
                return None;
            },
        };
        if arr.len() >= 2 {
            match (&arr[0], &arr[1]) {
                (JsonValue::Number(z), JsonValue::Number(v)) => {
                    match stop_zoom(*z) {
                        None => {},
                        Some(zz) => {
                            let ghost old_out = out@;
                            out.push((zz, *v));
                            proof {
                                assert(spec_stop_models(out@) =~= spec_stop_models(old_out).push(
                                    (zz, *v as int),
                                ));
                                if spec_parse_stops(items@.skip(i as int + 1)) is Some {
                                    let rest = spec_parse_stops(items@.skip(i as int + 1))->Some_0;
                                    assert(spec_stop_models(old_out) + (seq![(zz, *v as int)] + rest)
                                        =~= spec_stop_models(out@) + rest);
                                }
                            }
                        },
                    }
                },
                _ => {
                    return None;
                },
            }
        }
    }
    assert(items@.skip(items@.len() as int) =~= Seq::<JsonValue>::empty());
    assert(spec_stop_models(out@) + Seq::<(u8, int)>::empty() =~= spec_stop_models(out@));
    Some(out)
}

/// Parse a paint-property value.
pub fn parse_paint_value(j: &JsonValue) -> (r: Option<PaintValue>)
    ensures
        spec_opt_paint_model(r) == spec_parse_paint(*j),
{
    if let JsonValue::Number(n) = j {
        return Some(PaintValue::Constant(*n));
    }
    let stops_key: String = "stops".to_owned();
    let stops_node = match j.get(&stops_key) {
        Some(v) => v,
        None => {
            return None;
        },
    };
    let list = match stops_node {
        JsonValue::Array(list) => list,
        _ => {
            return None;
        },
    };
    let parsed = match parse_stops(list) {
        Some(p) => p,
        None => {
            return None;
        },
    };
    if parsed.len() == 0 {
        None
    } else {
        Some(PaintValue::Stops(parsed))
    }
}

/// The paint mapping an object's fields denote: each field whose value
/// denotes a paint value contributes, in order; the others are ignored.
pub open spec fn spec_parse_paint_map(fields: Seq<(String, JsonValue)>) -> Seq<
    (Seq<char>, SpecPaint),
>
    decreases fields.len(),
{
    if fields.len() == 0 {
        Seq::empty()
    } else {
        let rest = spec_parse_paint_map(fields.drop_first());
        match spec_parse_paint(fields[0].1) {
            Option::Some(p) => seq![(fields[0].0@, p)] + rest,
            Option::None => rest,
        }
    }
}

/// The source-layer name and layer model a `layers` entry denotes; `None`
/// when the entry names no `source` or no `source-layer` string, and the
/// entry is then ignored.
pub open spec fn spec_parse_layer(j: JsonValue) -> Option<(Seq<char>, SpecLayer)> {
    if spec_json_get(j, "source"@) is None {
        Option::None
    } else {
        match spec_json_get(j, "source-layer"@) {
            Option::Some(JsonValue::Text(sl)) => Option::Some(
                (
                    sl@,
                    SpecLayer {
                        minzoom: match spec_json_get(j, "minzoom"@) {
                            Option::Some(JsonValue::Number(n)) => Option::Some(n as int),
                            _ => Option::None,
                        },
                        maxzoom: match spec_json_get(j, "maxzoom"@) {
                            Option::Some(JsonValue::Number(n)) => Option::Some(n as int),
                            _ => Option::None,
                        },
                        visibility: match spec_json_get(j, "layout"@) {
                            Option::Some(layout) => match spec_json_get(layout, "visibility"@) {
                                Option::Some(JsonValue::Text(v)) => Option::Some(v@),
                                _ => Option::None,
                            },
                            Option::None => Option::None,
                        },
                        paint: match spec_json_get(j, "paint"@) {
                            Option::Some(JsonValue::Object(fields)) => spec_parse_paint_map(
                                fields@,
                            ),
                            _ => Seq::empty(),
                        },
                        filter: match spec_json_get(j, "filter"@) {
                            Option::Some(fj) => spec_parse_filter(fj),
                            Option::None => Option::None,
                        },
                    },
                ),
            ),
            _ => Option::None,
        }
    }
}

/// Model of an optional parsed layer entry.
pub open spec fn spec_opt_entry_model(r: Option<(String, MapboxStyleLayer)>) -> Option<
    (Seq<char>, SpecLayer),
> {
    match r {
        Option::Some(e) => Option::Some((e.0@, spec_layer_model(e.1))),
        Option::None => Option::None,
    }
}

/// Parse a paint object into the layer's paint mapping.
#[verifier::loop_isolation(false)]
fn parse_paint_map(fields: &Vec<(String, JsonValue)>) -> (r: Vec<(String, PaintValue)>)
    ensures
        spec_paint_entry_models(r@) == spec_parse_paint_map(fields@),
{
    let mut out: Vec<(String, PaintValue)> = Vec::new();
    assert(fields@.skip(0) =~= fields@);
    assert(spec_paint_entry_models(out@) + spec_parse_paint_map(fields@) =~= spec_parse_paint_map(
        fields@,
    ));
    for i in 0..fields.len()
        invariant
            spec_parse_paint_map(fields@) == spec_paint_entry_models(out@)
                + spec_parse_paint_map(fields@.skip(i as int)),
    {
        assert(fields@.skip(i as int)[0] == fields@[i as int]);
        assert(fields@.skip(i as int).drop_first() =~= fields@.skip(i as int + 1));
        match parse_paint_value(&fields[i].1) {
            None => {},
            Some(p) => {
                let ghost old_out = out@;
                let ghost pm = spec_paint_model(p);
                let key = fields[i].0.clone();
                out.push((key, p));
                proof {
                    assert(spec_paint_entry_models(out@) =~= spec_paint_entry_models(
                        old_out,
                    ).push((fields@[i as int].0@, pm)));
                    let rest = spec_parse_paint_map(fields@.skip(i as int + 1));
                    assert(spec_paint_entry_models(old_out) + (seq![
                        (fields@[i as int].0@, pm),
                    ] + rest) =~= spec_paint_entry_models(out@) + rest);
                }
            },
        }
    }
    assert(fields@.skip(fields@.len() as int) =~= Seq::<(String, JsonValue)>::empty());
    assert(spec_paint_entry_models(out@) + Seq::<(Seq<char>, SpecPaint)>::empty()
        =~= spec_paint_entry_models(out@));
    out
}

/// Parse one `layers` entry into its source-layer name and style layer.
pub fn parse_layer(j: &JsonValue) -> (r: Option<(String, MapboxStyleLayer)>)
    ensures
        spec_opt_entry_model(r) == spec_parse_layer(*j),
{
    let source_key: String = "source".to_owned();
    if j.get(&source_key).is_none() {
        return None;
    }
    let source_layer_key: String = "source-layer".to_owned();
    let name = match j.get(&source_layer_key) {
        Some(JsonValue::Text(sl)) => sl.clone(),
        _ => {
            return None;
        },
    };
    let minzoom_key: String = "minzoom".to_owned();
    let minzoom: Option<i64> = match j.get(&minzoom_key) {
        Some(JsonValue::Number(n)) => Some(*n),
        _ => None,
    };
    let maxzoom_key: String = "maxzoom".to_owned();
    let maxzoom: Option<i64> = match j.get(&maxzoom_key) {
        Some(JsonValue::Number(n)) => Some(*n),
        _ => None,
    };
    let layout_key: String = "layout".to_owned();
    let visibility_key: String = "visibility".to_owned();
    let visibility: Option<String> = match j.get(&layout_key) {
        Some(layout) => match layout.get(&visibility_key) {
            Some(JsonValue::Text(v)) => Some(v.clone()),
            _ => None,
        },
        None => None,
    };
    let paint_key: String = "paint".to_owned();
    let paint: Vec<(String, PaintValue)> = match j.get(&paint_key) {
        Some(JsonValue::Object(fields)) => parse_paint_map(fields),
        _ => {
            let empty_paint: Vec<(String, PaintValue)> = Vec::new();
            proof {
                assert(spec_paint_entry_models(empty_paint@) =~= Seq::<
                    (Seq<char>, SpecPaint),
                >::empty());
            }
            empty_paint
        },
    };
    let filter_key: String = "filter".to_owned();
    let filter: Option<Filter> = match j.get(&filter_key) {
        Some(fj) => parse_filter(fj),
        None => None,
    };
    Some(
        (
            name,
            MapboxStyleLayer { minzoom, maxzoom, visibility, paint, filter },
        ),
    )
}

/// The accepted source-layer entries of a `layers` array, in order.
pub open spec fn spec_style_entries(items: Seq<JsonValue>) -> Seq<(Seq<char>, SpecLayer)>
    decreases items.len(),
{
    if items.len() == 0 {
        Seq::empty()
    } else {
        let rest = spec_style_entries(items.drop_first());
        match spec_parse_layer(items[0]) {
            Option::Some(e) => seq![e] + rest,
            Option::None => rest,
        }
    }
}

/// The models of parsed source-layer entries.
pub open spec fn spec_entry_models(es: Seq<(String, MapboxStyleLayer)>) -> Seq<
    (Seq<char>, SpecLayer),
> {
    es.map_values(|e: (String, MapboxStyleLayer)| (e.0@, spec_layer_model(e.1)))
}

/// The layers of the entries that carry the name, in order.
pub open spec fn spec_entries_with(es: Seq<(Seq<char>, SpecLayer)>, name: Seq<char>) -> Seq<
    SpecLayer,
>
    decreases es.len(),
{
    if es.len() == 0 {
        Seq::empty()
    } else {
        let rest = spec_entries_with(es.drop_first(), name);
        if es[0].0 == name {
            seq![es[0].1] + rest
        } else {
            rest
        }
    }
}

/// The entries that carry another name, in order.
pub open spec fn spec_entries_without(es: Seq<(Seq<char>, SpecLayer)>, name: Seq<char>) -> Seq<
    (Seq<char>, SpecLayer),
>
    decreases es.len(),
{
    if es.len() == 0 {
        Seq::empty()
    } else {
        let rest = spec_entries_without(es.drop_first(), name);
        if es[0].0 == name {
            rest
        } else {
            seq![es[0]] + rest
        }
    }
}

/// Dropping a name's entries never lengthens the entry sequence.
proof fn lemma_entries_without_len(es: Seq<(Seq<char>, SpecLayer)>, name: Seq<char>)
    ensures
        spec_entries_without(es, name).len() <= es.len(),
    decreases es.len(),
{
    if es.len() > 0 {
        lemma_entries_without_len(es.drop_first(), name);
    }
}

/// Grouping by source-layer name, in first-appearance order: the first
/// entry opens its name's group, which collects every later entry of that
/// name in order; the remaining entries group likewise.
pub open spec fn spec_group_entries(es: Seq<(Seq<char>, SpecLayer)>) -> Seq<
    (Seq<char>, Seq<SpecLayer>),
>
    decreases es.len(),
    via spec_group_entries_decreases
{
    if es.len() == 0 {
        Seq::empty()
    } else {
        seq![(es[0].0, seq![es[0].1] + spec_entries_with(es.drop_first(), es[0].0))]
            + spec_group_entries(spec_entries_without(es.drop_first(), es[0].0))
    }
}

#[via_fn]
proof fn spec_group_entries_decreases(es: Seq<(Seq<char>, SpecLayer)>) {
    if es.len() > 0 {
        lemma_entries_without_len(es.drop_first(), es[0].0);
    }
}

/// Dropping one name's entries keeps every other name absent that was
/// absent before.
proof fn lemma_without_keeps_absent(es: Seq<(Seq<char>, SpecLayer)>, m: Seq<char>, n: Seq<char>)
    requires
        forall|k: int| 0 <= k < es.len() ==> (#[trigger] es[k]).0 != n,
    ensures
        forall|k: int|
            0 <= k < spec_entries_without(es, m).len()
                ==> (#[trigger] spec_entries_without(es, m)[k]).0 != n,
    decreases es.len(),
{
    if es.len() > 0 {
        lemma_without_keeps_absent(es.drop_first(), m, n);
        let rest = spec_entries_without(es.drop_first(), m);
        assert forall|k: int| 0 <= k < spec_entries_without(es, m).len() implies (
        #[trigger] spec_entries_without(es, m)[k]).0 != n by {
            if es[0].0 == m {
                assert(spec_entries_without(es, m)[k] == rest[k]);
            } else if k == 0 {
                assert(spec_entries_without(es, m)[0] == es[0]);
            } else {
                assert(spec_entries_without(es, m)[k] == rest[k - 1]);
            }
        }
    }
}

/// The entries without a name hold no entry of that name.
proof fn lemma_without_no_name(es: Seq<(Seq<char>, SpecLayer)>, n: Seq<char>)
    ensures
        forall|k: int|
            0 <= k < spec_entries_without(es, n).len()
                ==> (#[trigger] spec_entries_without(es, n)[k]).0 != n,
    decreases es.len(),
{
    if es.len() > 0 {
        lemma_without_no_name(es.drop_first(), n);
        let rest = spec_entries_without(es.drop_first(), n);
        assert forall|k: int| 0 <= k < spec_entries_without(es, n).len() implies (
        #[trigger] spec_entries_without(es, n)[k]).0 != n by {
            if es[0].0 == n {
                assert(spec_entries_without(es, n)[k] == rest[k]);
            } else if k == 0 {
                assert(spec_entries_without(es, n)[0] == es[0]);
            } else {
                assert(spec_entries_without(es, n)[k] == rest[k - 1]);
            }
        }
    }
}

/// A name no entry carries names no group.
proof fn lemma_group_no_name(es: Seq<(Seq<char>, SpecLayer)>, n: Seq<char>)
    requires
        forall|k: int| 0 <= k < es.len() ==> (#[trigger] es[k]).0 != n,
    ensures
        forall|gi: int|
            0 <= gi < spec_group_entries(es).len()
                ==> (#[trigger] spec_group_entries(es)[gi]).0 != n,
    decreases es.len(),
{
    if es.len() > 0 {
        lemma_entries_without_len(es.drop_first(), es[0].0);
        lemma_without_keeps_absent(es.drop_first(), es[0].0, n);
        lemma_group_no_name(spec_entries_without(es.drop_first(), es[0].0), n);
        let sub = spec_group_entries(spec_entries_without(es.drop_first(), es[0].0));
        assert forall|gi: int| 0 <= gi < spec_group_entries(es).len() implies (
        #[trigger] spec_group_entries(es)[gi]).0 != n by {
            if gi > 0 {
                assert(spec_group_entries(es)[gi] == sub[gi - 1]);
            }
        }
    }
}

/// Group names are pairwise distinct: each name's group is opened once.
proof fn lemma_group_distinct(es: Seq<(Seq<char>, SpecLayer)>)
    ensures
        forall|gi: int, gj: int|
            0 <= gi < gj < spec_group_entries(es).len()
                ==> (#[trigger] spec_group_entries(es)[gi]).0 != (
                #[trigger] spec_group_entries(es)[gj]).0,
    decreases es.len(),
{
    if es.len() > 0 {
        let n = es[0].0;
        let rest = spec_entries_without(es.drop_first(), n);
        lemma_entries_without_len(es.drop_first(), n);
        lemma_without_no_name(es.drop_first(), n);
        lemma_group_no_name(rest, n);
        lemma_group_distinct(rest);
        assert forall|gi: int, gj: int|
            0 <= gi < gj < spec_group_entries(es).len() implies (
        #[trigger] spec_group_entries(es)[gi]).0 != (#[trigger] spec_group_entries(es)[gj]).0 by {
            if gi == 0 {
                assert(spec_group_entries(es)[gj] == spec_group_entries(rest)[gj - 1]);
            } else {
                assert(spec_group_entries(es)[gi] == spec_group_entries(rest)[gi - 1]);
                assert(spec_group_entries(es)[gj] == spec_group_entries(rest)[gj - 1]);
            }
        }
    }
}

/// Group the parsed entries by source-layer name, in first-appearance
/// order.
#[verifier::loop_isolation(false)]
fn group_entries(entries: Vec<(String, MapboxStyleLayer)>) -> (r: Vec<SourceGroup>)
    ensures
        spec_groups_model(r@) == spec_group_entries(spec_entry_models(entries@)),
    decreases entries@.len(),
{
    let mut entries = entries;
    let ghost es0 = spec_entry_models(entries@);
    if entries.len() == 0 {
        let out: Vec<SourceGroup> = Vec::new();
        proof {
            assert(es0 =~= Seq::<(Seq<char>, SpecLayer)>::empty());
            assert(spec_groups_model(out@) =~= Seq::<(Seq<char>, Seq<SpecLayer>)>::empty());
        }
        return out;
    }
    let first = entries.remove(0);
    proof {
        assert(spec_entry_models(entries@) =~= es0.drop_first());
        assert(es0[0] == (first.0@, spec_layer_model(first.1)));
    }
    let name = first.0;
    let mut layers: Vec<MapboxStyleLayer> = Vec::new();
    layers.push(first.1);
    let mut rest: Vec<(String, MapboxStyleLayer)> = Vec::new();
    proof {
        assert(spec_layer_models(layers@) =~= seq![es0[0].1]);
        assert(spec_entry_models(rest@) =~= Seq::<(Seq<char>, SpecLayer)>::empty());
        assert(seq![es0[0].1] + spec_entries_with(es0.drop_first(), name@) =~= spec_layer_models(
            layers@,
        ) + spec_entries_with(spec_entry_models(entries@), name@));
        assert(spec_entry_models(rest@) + spec_entries_without(
            spec_entry_models(entries@),
            name@,
        ) =~= spec_entries_without(es0.drop_first(), name@));
    }
    while entries.len() > 0
        invariant
            name@ == es0[0].0,
            layers@.len() >= 1,
            entries@.len() + rest@.len() + layers@.len() == es0.len(),
            spec_layer_models(layers@) + spec_entries_with(spec_entry_models(entries@), name@)
                == seq![es0[0].1] + spec_entries_with(es0.drop_first(), name@),
            spec_entry_models(rest@) + spec_entries_without(spec_entry_models(entries@), name@)
                == spec_entries_without(es0.drop_first(), name@),
        decreases entries@.len(),
    {
        let ghost r_old = spec_entry_models(entries@);
        let e = entries.remove(0);
        proof {
            assert(spec_entry_models(entries@) =~= r_old.drop_first());
            assert(r_old[0] == (e.0@, spec_layer_model(e.1)));
        }
        if e.0.eq(&name) {
            let ghost old_layers = layers@;
            layers.push(e.1);
            proof {
                assert(spec_layer_models(layers@) =~= spec_layer_models(old_layers).push(
                    spec_layer_model(e.1),
                ));
                assert(spec_layer_models(old_layers) + (seq![spec_layer_model(e.1)]
                    + spec_entries_with(spec_entry_models(entries@), name@)) =~= spec_layer_models(
                    layers@,
                ) + spec_entries_with(spec_entry_models(entries@), name@));
            }
        } else {
            let ghost old_rest = rest@;
            rest.push(e);
            proof {
                assert(spec_entry_models(rest@) =~= spec_entry_models(old_rest).push(
                    (e.0@, spec_layer_model(e.1)),
                ));
                assert(spec_entry_models(old_rest) + (seq![(e.0@, spec_layer_model(e.1))]
                    + spec_entries_without(spec_entry_models(entries@), name@))
                    =~= spec_entry_models(rest@) + spec_entries_without(
                    spec_entry_models(entries@),
                    name@,
                ));
            }
        }
    }
    proof {
        assert(spec_entry_models(entries@) =~= Seq::<(Seq<char>, SpecLayer)>::empty());
        assert(spec_layer_models(layers@) + Seq::<SpecLayer>::empty() =~= spec_layer_models(
            layers@,
        ));
        assert(spec_entry_models(rest@) + Seq::<(Seq<char>, SpecLayer)>::empty()
            =~= spec_entry_models(rest@));
    }
    let mut groups = group_entries(rest);
    let ghost sub_groups = spec_groups_model(groups@);
    groups.insert(0, SourceGroup { name, layers });
    proof {
        assert(spec_groups_model(groups@) =~= seq![
            (es0[0].0, seq![es0[0].1] + spec_entries_with(es0.drop_first(), es0[0].0)),
        ] + sub_groups);
    }
    groups
}

/// The `layers` array of a style document, when the document carries one.
pub open spec fn spec_doc_layers(j: JsonValue) -> Option<Seq<JsonValue>> {
    match spec_json_get(j, "layers"@) {
        Option::Some(JsonValue::Array(items)) => Option::Some(items@),
        _ => Option::None,
    }
}

/// Build the style model from a parsed style document: group the usable
/// `layers` entries by source-layer name. The load fails exactly when the
/// document has no `layers` array, or when no entry names a source-layer.
#[verifier::loop_isolation(false)]
pub fn style_from_json(doc: &JsonValue) -> (r: Result<MapboxStyle, StyleError>)
    ensures
        match r {
            Result::Ok(style) => {
                &&& spec_doc_layers(*doc) is Some
                &&& spec_style_entries(spec_doc_layers(*doc)->Some_0).len() > 0
                &&& spec_groups_model(style.groups@) == spec_group_entries(
                    spec_style_entries(spec_doc_layers(*doc)->Some_0),
                )
                &&& style.wf()
            },
            Result::Err(StyleError::MissingLayers) => spec_doc_layers(*doc) is None,
            Result::Err(StyleError::NoSourceLayers) => spec_doc_layers(*doc) is Some
                && spec_style_entries(spec_doc_layers(*doc)->Some_0).len() == 0,
        },
{
    let layers_key: String = "layers".to_owned();
    let items = match doc.get(&layers_key) {
        Some(JsonValue::Array(items)) => items,
        _ => {
            return Err(StyleError::MissingLayers);
        },
    };
    let mut entries: Vec<(String, MapboxStyleLayer)> = Vec::new();
    assert(items@.skip(0) =~= items@);
    assert(spec_entry_models(entries@) + spec_style_entries(items@) =~= spec_style_entries(
        items@,
    ));
    for i in 0..items.len()
        invariant
            spec_style_entries(items@) == spec_entry_models(entries@) + spec_style_entries(
                items@.skip(i as int),
            ),
    {
        assert(items@.skip(i as int)[0] == items@[i as int]);
        assert(items@.skip(i as int).drop_first() =~= items@.skip(i as int + 1));
        match parse_layer(&items[i]) {
            None => {},
            Some(e) => {
                let ghost old_entries = entries@;
                let ghost em = (e.0@, spec_layer_model(e.1));
                entries.push(e);
                proof {
                    assert(spec_entry_models(entries@) =~= spec_entry_models(old_entries).push(
                        em,
                    ));
                    let more = spec_style_entries(items@.skip(i as int + 1));
                    assert(spec_entry_models(old_entries) + (seq![em] + more)
                        =~= spec_entry_models(entries@) + more);
                }
            },
        }
    }
    assert(items@.skip(items@.len() as int) =~= Seq::<JsonValue>::empty());
    assert(spec_entry_models(entries@) + Seq::<(Seq<char>, SpecLayer)>::empty()
        =~= spec_entry_models(entries@));
    if entries.len() == 0 {
        proof {
            assert(spec_entry_models(entries@) =~= Seq::<(Seq<char>, SpecLayer)>::empty());
        }
        return Err(StyleError::NoSourceLayers);
    }
    let ghost es = spec_entry_models(entries@);
    let groups = group_entries(entries);
    proof {
        lemma_group_distinct(es);
    }
    let style = MapboxStyle { groups };
    proof {
        assert forall|i: int, j: int| 0 <= i < j < style.groups@.len() implies (
        #[trigger] style.groups@[i]).name@ != (#[trigger] style.groups@[j]).name@ by {
            assert(spec_groups_model(style.groups@)[i].0 == style.groups@[i].name@);
            assert(spec_groups_model(style.groups@)[j].0 == style.groups@[j].name@);
        }
    }
    Ok(style)
}

/// Load a style document and return only its source-layer names, in group
/// order; the load fails as `style_from_json` does.
pub fn read_style_source_layers(doc: &JsonValue) -> (r: Result<Vec<String>, StyleError>)
    ensures
        match r {
            Result::Ok(names) => {
                &&& spec_doc_layers(*doc) is Some
                &&& spec_style_entries(spec_doc_layers(*doc)->Some_0).len() > 0
                &&& names@.len() == spec_group_entries(
                    spec_style_entries(spec_doc_layers(*doc)->Some_0),
                ).len()
                &&& forall|i: int|
                    0 <= i < names@.len() ==> #[trigger] names@[i]@ == spec_group_entries(
                        spec_style_entries(spec_doc_layers(*doc)->Some_0),
                    )[i].0
            },
            Result::Err(StyleError::MissingLayers) => spec_doc_layers(*doc) is None,
            Result::Err(StyleError::NoSourceLayers) => spec_doc_layers(*doc) is Some
                && spec_style_entries(spec_doc_layers(*doc)->Some_0).len() == 0,
        },
{
    match style_from_json(doc) {
        Ok(style) => {
            let names = style.source_layers();
            proof {
                assert forall|i: int| 0 <= i < names@.len() implies #[trigger] names@[i]@
                    == spec_group_entries(
                    spec_style_entries(spec_doc_layers(*doc)->Some_0),
                )[i].0 by {
                    assert(spec_groups_model(style.groups@)[i].0 == style.groups@[i].name@);
                }
            }
            Ok(names)
        },
        Err(e) => Err(e),
    }
}

/// Does some entry carry the name?
pub open spec fn spec_has_entry_name(es: Seq<(Seq<char>, SpecLayer)>, n: Seq<char>) -> bool {
    exists|k: int| 0 <= k < es.len() && (#[trigger] es[k]).0 == n
}

/// Does some group carry the name?
pub open spec fn spec_has_group_name(gs: Seq<(Seq<char>, Seq<SpecLayer>)>, n: Seq<char>) -> bool {
    exists|gi: int| 0 <= gi < gs.len() && (#[trigger] gs[gi]).0 == n
}

/// An entry name splits into the head entry's name or one further on.
proof fn lemma_has_entry_split(es: Seq<(Seq<char>, SpecLayer)>, n: Seq<char>)
    requires
        es.len() > 0,
    ensures
        spec_has_entry_name(es, n) <==> (es[0].0 == n || spec_has_entry_name(
            es.drop_first(),
            n,
        )),
{
    if spec_has_entry_name(es, n) {
        let k = choose|k: int| 0 <= k < es.len() && (#[trigger] es[k]).0 == n;
        if k > 0 {
            assert(es.drop_first()[k - 1] == es[k]);
        }
    }
    if spec_has_entry_name(es.drop_first(), n) {
        let k = choose|k: int|
            0 <= k < es.drop_first().len() && (#[trigger] es.drop_first()[k]).0 == n;
        assert(es[k + 1] == es.drop_first()[k]);
    }
}

/// A group name splits into the head group's name or one further on.
proof fn lemma_has_group_split(gs: Seq<(Seq<char>, Seq<SpecLayer>)>, n: Seq<char>)
    requires
        gs.len() > 0,
    ensures
        spec_has_group_name(gs, n) <==> (gs[0].0 == n || spec_has_group_name(
            gs.drop_first(),
            n,
        )),
{
    if spec_has_group_name(gs, n) {
        let gi = choose|gi: int| 0 <= gi < gs.len() && (#[trigger] gs[gi]).0 == n;
        if gi > 0 {
            assert(gs.drop_first()[gi - 1] == gs[gi]);
        }
    }
    if spec_has_group_name(gs.drop_first(), n) {
        let gi = choose|gi: int|
            0 <= gi < gs.drop_first().len() && (#[trigger] gs.drop_first()[gi]).0 == n;
        assert(gs[gi + 1] == gs.drop_first()[gi]);
    }
}

/// Dropping one name's entries keeps every other name's presence as it
/// was.
proof fn lemma_without_names(es: Seq<(Seq<char>, SpecLayer)>, m: Seq<char>, n: Seq<char>)
    requires
        m != n,
    ensures
        spec_has_entry_name(spec_entries_without(es, m), n) <==> spec_has_entry_name(es, n),
    decreases es.len(),
{
    if es.len() > 0 {
        lemma_without_names(es.drop_first(), m, n);
        lemma_has_entry_split(es, n);
        if es[0].0 != m {
            let w = spec_entries_without(es, m);
            assert(w == seq![es[0]] + spec_entries_without(es.drop_first(), m));
            lemma_has_entry_split(w, n);
            assert(w[0] == es[0]);
            assert(w.drop_first() =~= spec_entries_without(es.drop_first(), m));
        }
    }
}

/// Round trip: grouping loses and invents no source-layer name — a name
/// is a group name of the grouped entries exactly when some accepted
/// entry carries it. With `source_layers` and the loader's contracts,
/// the listed source-layers are, as a set, exactly the distinct
/// `source-layer` values among entries that declare a `source`.
pub proof fn lemma_source_layers_round_trip(es: Seq<(Seq<char>, SpecLayer)>)
    ensures
        forall|n: Seq<char>|
            #[trigger] spec_has_group_name(spec_group_entries(es), n) <==> spec_has_entry_name(
                es,
                n,
            ),
    decreases es.len(),
{
    if es.len() == 0 {
        assert forall|n: Seq<char>|
            #[trigger] spec_has_group_name(spec_group_entries(es), n) <==> spec_has_entry_name(
                es,
                n,
            ) by {
            assert(!spec_has_group_name(spec_group_entries(es), n));
            assert(!spec_has_entry_name(es, n));
        }
    } else {
        let n0 = es[0].0;
        let rest = spec_entries_without(es.drop_first(), n0);
        lemma_entries_without_len(es.drop_first(), n0);
        lemma_source_layers_round_trip(rest);
        let gs = spec_group_entries(es);
        assert forall|n: Seq<char>|
            #[trigger] spec_has_group_name(gs, n) <==> spec_has_entry_name(es, n) by {
            lemma_has_group_split(gs, n);
            assert(gs[0].0 == n0);
            assert(gs.drop_first() =~= spec_group_entries(rest));
            lemma_has_entry_split(es, n);
            if n != n0 {
                lemma_without_names(es.drop_first(), n0, n);
            } else {
                assert(spec_has_entry_name(es, n0));
            }
        }
    }
}

/// The models of a pushed-on filter sequence extend the models pointwise.
proof fn lemma_filter_models_push(flts: Seq<Filter>, x: Filter)
    ensures
        spec_filter_models(flts.push(x)) =~= spec_filter_models(flts).push(spec_filter_model(x)),
{
    crate::filter::lemma_filter_models(flts.push(x));
    crate::filter::lemma_filter_models(flts);
    assert(flts.push(x)[flts.len() as int] == x);
}

} // verus!
