//! Filter evaluation: three-valued predicates, combinators, and nested
//! value expressions, exercised against hand-built features.

use tile_prune::{FeatureView, Filter, FilterResult, FilterValue, GeomType, ValueExpr, NUM_SCALE};

fn text(t: &str) -> FilterValue {
    FilterValue::Text(t.to_string())
}

fn number(units: i64) -> FilterValue {
    FilterValue::Number(units * NUM_SCALE)
}

fn feature(props: Vec<(&str, Option<FilterValue>)>) -> FeatureView {
    FeatureView {
        geom: GeomType::Point,
        props: props.into_iter().map(|(k, v)| (k.to_string(), v)).collect(),
    }
}

fn get(key: &str) -> ValueExpr {
    ValueExpr::Get(key.to_string())
}

#[test]
fn equality_matches_and_rejects() {
    let f = feature(vec![("class", Some(text("primary")))]);
    assert_eq!(
        Filter::Equals(get("class"), text("primary")).evaluate(&f),
        FilterResult::True
    );
    assert_eq!(
        Filter::Equals(get("class"), text("secondary")).evaluate(&f),
        FilterResult::False
    );
    assert_eq!(
        Filter::NotEquals(get("class"), text("secondary")).evaluate(&f),
        FilterResult::True
    );
}

#[test]
fn equality_with_missing_property_is_unknown() {
    let f = feature(vec![]);
    assert_eq!(
        Filter::Equals(get("class"), text("primary")).evaluate(&f),
        FilterResult::Unknown
    );
    assert_eq!(
        Filter::NotEquals(get("class"), text("primary")).evaluate(&f),
        FilterResult::Unknown
    );
    assert_eq!(
        Filter::OneOf(get("class"), vec![text("primary")]).evaluate(&f),
        FilterResult::Unknown
    );
    assert_eq!(
        Filter::NotOneOf(get("class"), vec![text("primary")]).evaluate(&f),
        FilterResult::Unknown
    );
}

#[test]
fn null_valued_property_counts_as_present_but_valueless() {
    let f = feature(vec![("tunnel", None)]);
    assert_eq!(
        Filter::Has("tunnel".to_string()).evaluate(&f),
        FilterResult::True
    );
    assert_eq!(
        Filter::Equals(get("tunnel"), text("yes")).evaluate(&f),
        FilterResult::Unknown
    );
}

#[test]
fn existence_tests_are_never_unknown() {
    let present = feature(vec![("class", Some(text("primary")))]);
    let empty = feature(vec![]);
    assert_eq!(
        Filter::Has("class".to_string()).evaluate(&present),
        FilterResult::True
    );
    assert_eq!(
        Filter::Has("class".to_string()).evaluate(&empty),
        FilterResult::False
    );
    assert_eq!(
        Filter::NotHas("class".to_string()).evaluate(&empty),
        FilterResult::True
    );
    assert_eq!(
        Filter::Has("$type".to_string()).evaluate(&empty),
        FilterResult::True
    );
    assert_eq!(
        Filter::NotHas("$type".to_string()).evaluate(&empty),
        FilterResult::False
    );
}

#[test]
fn membership_tests_check_the_value_list() {
    let f = feature(vec![("class", Some(text("secondary")))]);
    let list = vec![text("primary"), text("secondary")];
    assert_eq!(
        Filter::OneOf(get("class"), list.clone()).evaluate(&f),
        FilterResult::True
    );
    assert_eq!(
        Filter::NotOneOf(get("class"), list).evaluate(&f),
        FilterResult::False
    );
    assert_eq!(
        Filter::OneOf(get("class"), vec![text("service")]).evaluate(&f),
        FilterResult::False
    );
}

#[test]
fn numbers_compare_by_fixed_point_value() {
    let f = feature(vec![("lanes", Some(number(2)))]);
    assert_eq!(
        Filter::Equals(get("lanes"), number(2)).evaluate(&f),
        FilterResult::True
    );
    assert_eq!(
        Filter::Equals(get("lanes"), number(3)).evaluate(&f),
        FilterResult::False
    );
    assert_eq!(
        Filter::Equals(get("lanes"), text("2")).evaluate(&f),
        FilterResult::False
    );
}

#[test]
fn type_attribute_resolves_to_geometry_class() {
    let point = FeatureView { geom: GeomType::Point, props: vec![] };
    let line = FeatureView { geom: GeomType::LineString, props: vec![] };
    let poly = FeatureView { geom: GeomType::Polygon, props: vec![] };
    let other = FeatureView { geom: GeomType::Unknown, props: vec![] };
    let is_point = Filter::Equals(get("$type"), text("Point"));
    assert_eq!(is_point.evaluate(&point), FilterResult::True);
    assert_eq!(is_point.evaluate(&line), FilterResult::False);
    assert_eq!(
        Filter::Equals(get("$type"), text("Polygon")).evaluate(&poly),
        FilterResult::True
    );
    assert_eq!(
        Filter::Equals(get("$type"), text("Unknown")).evaluate(&other),
        FilterResult::True
    );
}

#[test]
fn empty_combinators_have_their_identities() {
    let f = feature(vec![]);
    assert_eq!(Filter::AllOf(vec![]).evaluate(&f), FilterResult::True);
    assert_eq!(Filter::AnyOf(vec![]).evaluate(&f), FilterResult::False);
    assert_eq!(Filter::NoneOf(vec![]).evaluate(&f), FilterResult::True);
}

#[test]
fn definite_answers_win_over_unknown_siblings() {
    let f = feature(vec![("class", Some(text("primary")))]);
    assert_eq!(
        Filter::AnyOf(vec![
            Filter::Equals(get("missing"), text("x")),
            Filter::Equals(get("class"), text("primary")),
        ])
        .evaluate(&f),
        FilterResult::True
    );
    assert_eq!(
        Filter::AllOf(vec![
            Filter::Equals(get("missing"), text("x")),
            Filter::Equals(get("class"), text("secondary")),
        ])
        .evaluate(&f),
        FilterResult::False
    );
    assert_eq!(
        Filter::AnyOf(vec![
            Filter::Equals(get("missing"), text("x")),
            Filter::Equals(get("class"), text("x")),
        ])
        .evaluate(&f),
        FilterResult::Unknown
    );
}

#[test]
fn none_combinator_rejects_any_true() {
    let f = feature(vec![("class", Some(text("primary")))]);
    let yes = Filter::Equals(get("class"), text("primary"));
    let no = Filter::Equals(get("class"), text("secondary"));
    let unknown = Filter::Equals(get("missing"), text("x"));
    assert_eq!(Filter::NoneOf(vec![no]).evaluate(&f), FilterResult::True);
    assert_eq!(Filter::NoneOf(vec![yes]).evaluate(&f), FilterResult::False);
    assert_eq!(
        Filter::NoneOf(vec![unknown]).evaluate(&f),
        FilterResult::Unknown
    );
}

#[test]
fn unrecognized_filter_evaluates_to_unknown() {
    let f = feature(vec![("class", Some(text("primary")))]);
    assert_eq!(Filter::Unrecognized.evaluate(&f), FilterResult::Unknown);
}

#[test]
fn match_expression_picks_first_equal_label() {
    let f = feature(vec![("class", Some(text("secondary")))]);
    let expr = ValueExpr::Match(
        Box::new(get("class")),
        vec![
            (text("primary"), ValueExpr::Lit(number(1))),
            (text("secondary"), ValueExpr::Lit(number(2))),
        ],
        Box::new(ValueExpr::Lit(number(0))),
    );
    assert_eq!(
        Filter::Equals(expr, number(2)).evaluate(&f),
        FilterResult::True
    );
}

#[test]
fn match_expression_falls_back_to_default() {
    let f = feature(vec![("class", Some(text("service")))]);
    let expr = ValueExpr::Match(
        Box::new(get("class")),
        vec![(text("primary"), ValueExpr::Lit(number(1)))],
        Box::new(ValueExpr::Lit(number(0))),
    );
    assert_eq!(
        Filter::Equals(expr, number(0)).evaluate(&f),
        FilterResult::True
    );
}

#[test]
fn match_with_absent_input_is_absent() {
    let f = feature(vec![]);
    let expr = ValueExpr::Match(
        Box::new(get("class")),
        vec![(text("primary"), ValueExpr::Lit(number(1)))],
        Box::new(ValueExpr::Lit(number(0))),
    );
    assert_eq!(
        Filter::Equals(expr, number(0)).evaluate(&f),
        FilterResult::Unknown
    );
}

#[test]
fn case_expression_picks_first_true_condition() {
    let f = feature(vec![("bridge", Some(FilterValue::Flag(true)))]);
    let expr = ValueExpr::Cases(
        vec![(
            Filter::Equals(get("bridge"), FilterValue::Flag(true)),
            ValueExpr::Lit(number(7)),
        )],
        Box::new(ValueExpr::Lit(number(0))),
    );
    assert_eq!(
        Filter::Equals(expr, number(7)).evaluate(&f),
        FilterResult::True
    );
}

#[test]
fn case_expression_defaults_when_no_condition_fires() {
    let f = feature(vec![("bridge", Some(FilterValue::Flag(false)))]);
    let expr = ValueExpr::Cases(
        vec![(
            Filter::Equals(get("bridge"), FilterValue::Flag(true)),
            ValueExpr::Lit(number(7)),
        )],
        Box::new(ValueExpr::Lit(number(0))),
    );
    assert_eq!(
        Filter::Equals(expr, number(0)).evaluate(&f),
        FilterResult::True
    );
}

#[test]
fn case_condition_must_be_definitely_true_to_fire() {
    let f = feature(vec![]);
    let expr = ValueExpr::Cases(
        vec![(
            Filter::Equals(get("bridge"), FilterValue::Flag(true)),
            ValueExpr::Lit(number(7)),
        )],
        Box::new(ValueExpr::Lit(number(0))),
    );
    assert_eq!(
        Filter::Equals(expr, number(0)).evaluate(&f),
        FilterResult::True
    );
}

#[test]
fn coalesce_takes_first_present_value() {
    let f = feature(vec![("name_en", Some(text("River")))]);
    let expr = ValueExpr::Coalesce(vec![get("name_de"), get("name_en"), get("name")]);
    assert_eq!(
        Filter::Equals(expr, text("River")).evaluate(&f),
        FilterResult::True
    );
    let none = ValueExpr::Coalesce(vec![get("name_de"), get("name_fr")]);
    assert_eq!(
        Filter::Equals(none, text("River")).evaluate(&f),
        FilterResult::Unknown
    );
}
