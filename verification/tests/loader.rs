//! Loading style documents from JSON trees: layer grouping, error cases,
//! filter parsing, and the per-feature keep decision.

use tile_prune::{
    FeatureView, FilterResult, FilterValue, GeomType, JsonValue, StyleError, NUM_SCALE,
};

fn jtext(s: &str) -> JsonValue {
    JsonValue::Text(s.to_string())
}

fn junits(units: i64) -> JsonValue {
    JsonValue::Number(units * NUM_SCALE)
}

fn jflag(b: bool) -> JsonValue {
    JsonValue::Flag(b)
}

fn jobj(fields: Vec<(&str, JsonValue)>) -> JsonValue {
    JsonValue::Object(fields.into_iter().map(|(k, v)| (k.to_string(), v)).collect())
}

fn jarr(items: Vec<JsonValue>) -> JsonValue {
    JsonValue::Array(items)
}

fn style_doc(layers: Vec<JsonValue>) -> JsonValue {
    jobj(vec![("layers", jarr(layers))])
}

fn road_feature(class: Option<&str>) -> FeatureView {
    let props = match class {
        Some(c) => vec![("class".to_string(), Some(FilterValue::Text(c.to_string())))],
        None => vec![],
    };
    FeatureView { geom: GeomType::LineString, props }
}

#[test]
fn water_style_visibility_scenario() {
    let doc = style_doc(vec![
        jobj(vec![
            ("source", jtext("v")),
            ("source-layer", jtext("water")),
            ("minzoom", junits(2)),
            ("maxzoom", junits(5)),
            ("paint", jobj(vec![("fill-opacity", junits(1))])),
        ]),
        jobj(vec![
            ("source", jtext("v")),
            ("source-layer", jtext("water")),
            ("layout", jobj(vec![("visibility", jtext("none"))])),
        ]),
    ]);
    let style = tile_prune::style_from_json(&doc).unwrap();
    let water = "water".to_string();
    assert!(!style.is_layer_visible_on_zoom(&water, 1));
    assert!(style.is_layer_visible_on_zoom(&water, 3));
    assert!(!style.is_layer_visible_on_zoom(&water, 5));
    let roads = "roads".to_string();
    assert!(!style.is_layer_visible_on_zoom(&roads, 3));
}

#[test]
fn zero_line_width_never_renders() {
    let doc = style_doc(vec![jobj(vec![
        ("source", jtext("v")),
        ("source-layer", jtext("roads")),
        ("paint", jobj(vec![("line-width", junits(0))])),
    ])]);
    let style = tile_prune::style_from_json(&doc).unwrap();
    let roads = "roads".to_string();
    for zoom in [0u8, 3, 10, 255] {
        assert!(!style.is_layer_visible_on_zoom(&roads, zoom));
        assert_eq!(
            style.should_keep_feature(&roads, zoom, &road_feature(Some("primary"))),
            FilterResult::False
        );
    }
}

#[test]
fn get_expression_filter_scenario() {
    let doc = style_doc(vec![jobj(vec![
        ("source", jtext("v")),
        ("source-layer", jtext("roads")),
        (
            "filter",
            jarr(vec![
                jtext("=="),
                jarr(vec![jtext("get"), jtext("class")]),
                jtext("primary"),
            ]),
        ),
    ])]);
    let style = tile_prune::style_from_json(&doc).unwrap();
    let roads = "roads".to_string();
    assert_eq!(
        style.should_keep_feature(&roads, 10, &road_feature(Some("primary"))),
        FilterResult::True
    );
    assert_eq!(
        style.should_keep_feature(&roads, 10, &road_feature(Some("secondary"))),
        FilterResult::False
    );
    assert_eq!(
        style.should_keep_feature(&roads, 10, &road_feature(None)),
        FilterResult::Unknown
    );
}

#[test]
fn two_layers_on_one_source_layer_combine_as_any() {
    let doc = style_doc(vec![
        jobj(vec![
            ("source", jtext("v")),
            ("source-layer", jtext("roads")),
            (
                "filter",
                jarr(vec![jtext("=="), jtext("class"), jtext("primary")]),
            ),
        ]),
        jobj(vec![
            ("source", jtext("v")),
            ("source-layer", jtext("roads")),
            (
                "filter",
                jarr(vec![jtext("=="), jtext("class"), jtext("secondary")]),
            ),
        ]),
    ]);
    let style = tile_prune::style_from_json(&doc).unwrap();
    let roads = "roads".to_string();
    assert_eq!(
        style.should_keep_feature(&roads, 8, &road_feature(Some("primary"))),
        FilterResult::True
    );
    assert_eq!(
        style.should_keep_feature(&roads, 8, &road_feature(Some("secondary"))),
        FilterResult::True
    );
    assert_eq!(
        style.should_keep_feature(&roads, 8, &road_feature(Some("tertiary"))),
        FilterResult::False
    );
}

#[test]
fn source_layers_round_trip() {
    let doc = style_doc(vec![
        jobj(vec![("source", jtext("v")), ("source-layer", jtext("water"))]),
        jobj(vec![("source", jtext("v")), ("source-layer", jtext("roads"))]),
        jobj(vec![("source", jtext("v")), ("source-layer", jtext("water"))]),
        jobj(vec![("source-layer", jtext("ignored-no-source"))]),
        jobj(vec![("source", jtext("v"))]),
        jobj(vec![("id", jtext("background"))]),
    ]);
    let mut names = tile_prune::read_style_source_layers(&doc).unwrap();
    names.sort();
    assert_eq!(names, vec!["roads".to_string(), "water".to_string()]);
}

#[test]
fn missing_layers_array_is_an_error() {
    let no_layers = jobj(vec![("version", junits(8))]);
    assert_eq!(
        tile_prune::style_from_json(&no_layers).unwrap_err(),
        StyleError::MissingLayers
    );
    let not_an_array = jobj(vec![("layers", jtext("nope"))]);
    assert_eq!(
        tile_prune::style_from_json(&not_an_array).unwrap_err(),
        StyleError::MissingLayers
    );
}

#[test]
fn style_without_source_layers_is_an_error() {
    let empty = style_doc(vec![]);
    assert_eq!(
        tile_prune::style_from_json(&empty).unwrap_err(),
        StyleError::NoSourceLayers
    );
    let only_background = style_doc(vec![jobj(vec![("id", jtext("background"))])]);
    assert_eq!(
        tile_prune::style_from_json(&only_background).unwrap_err(),
        StyleError::NoSourceLayers
    );
}

#[test]
fn unparsable_filter_leaves_layer_matching_everything() {
    let doc = style_doc(vec![jobj(vec![
        ("source", jtext("v")),
        ("source-layer", jtext("roads")),
        ("filter", junits(42)),
    ])]);
    let style = tile_prune::style_from_json(&doc).unwrap();
    let roads = "roads".to_string();
    assert_eq!(
        style.should_keep_feature(&roads, 4, &road_feature(None)),
        FilterResult::True
    );
}

#[test]
fn malformed_and_unknown_filter_forms_degrade_to_unknown() {
    let doc = style_doc(vec![
        jobj(vec![
            ("source", jtext("v")),
            ("source-layer", jtext("roads")),
            ("filter", jarr(vec![jtext("==")])),
        ]),
        jobj(vec![
            ("source", jtext("v")),
            ("source-layer", jtext("paths")),
            ("filter", jarr(vec![jtext("within"), junits(1)])),
        ]),
    ]);
    let style = tile_prune::style_from_json(&doc).unwrap();
    assert_eq!(
        style.should_keep_feature(&"roads".to_string(), 4, &road_feature(Some("primary"))),
        FilterResult::Unknown
    );
    assert_eq!(
        style.should_keep_feature(&"paths".to_string(), 4, &road_feature(Some("primary"))),
        FilterResult::Unknown
    );
}

#[test]
fn in_filter_accepts_list_and_spread_forms() {
    let doc = style_doc(vec![
        jobj(vec![
            ("source", jtext("v")),
            ("source-layer", jtext("roads")),
            (
                "filter",
                jarr(vec![
                    jtext("in"),
                    jtext("class"),
                    jarr(vec![jtext("primary"), jtext("secondary")]),
                ]),
            ),
        ]),
        jobj(vec![
            ("source", jtext("v")),
            ("source-layer", jtext("paths")),
            (
                "filter",
                jarr(vec![
                    jtext("!in"),
                    jtext("class"),
                    jtext("primary"),
                    jtext("secondary"),
                ]),
            ),
        ]),
    ]);
    let style = tile_prune::style_from_json(&doc).unwrap();
    assert_eq!(
        style.should_keep_feature(&"roads".to_string(), 4, &road_feature(Some("secondary"))),
        FilterResult::True
    );
    assert_eq!(
        style.should_keep_feature(&"roads".to_string(), 4, &road_feature(Some("service"))),
        FilterResult::False
    );
    assert_eq!(
        style.should_keep_feature(&"paths".to_string(), 4, &road_feature(Some("secondary"))),
        FilterResult::False
    );
    assert_eq!(
        style.should_keep_feature(&"paths".to_string(), 4, &road_feature(Some("track"))),
        FilterResult::True
    );
}

#[test]
fn stop_tables_parse_and_block_on_exact_zero() {
    let doc = style_doc(vec![jobj(vec![
        ("source", jtext("v")),
        ("source-layer", jtext("roads")),
        (
            "paint",
            jobj(vec![(
                "line-opacity",
                jobj(vec![(
                    "stops",
                    jarr(vec![
                        jarr(vec![junits(5), junits(0)]),
                        jarr(vec![junits(6), junits(1)]),
                    ]),
                )]),
            )]),
        ),
    ])]);
    let style = tile_prune::style_from_json(&doc).unwrap();
    let roads = "roads".to_string();
    assert!(!style.is_layer_visible_on_zoom(&roads, 5));
    assert!(style.is_layer_visible_on_zoom(&roads, 4));
    assert!(style.is_layer_visible_on_zoom(&roads, 6));
}

#[test]
fn malformed_paint_value_is_ignored() {
    let doc = style_doc(vec![jobj(vec![
        ("source", jtext("v")),
        ("source-layer", jtext("roads")),
        (
            "paint",
            jobj(vec![("line-width", jtext("wide")), ("line-opacity", junits(0))]),
        ),
    ])]);
    let style = tile_prune::style_from_json(&doc).unwrap();
    let roads = "roads".to_string();
    assert!(!style.is_layer_visible_on_zoom(&roads, 3));
    let harmless = style_doc(vec![jobj(vec![
        ("source", jtext("v")),
        ("source-layer", jtext("roads")),
        ("paint", jobj(vec![("line-width", jtext("wide"))])),
    ])]);
    let style2 = tile_prune::style_from_json(&harmless).unwrap();
    assert!(style2.is_layer_visible_on_zoom(&roads, 3));
}

#[test]
fn filters_apply_only_through_drawn_layers() {
    let doc = style_doc(vec![jobj(vec![
        ("source", jtext("v")),
        ("source-layer", jtext("roads")),
        ("minzoom", junits(10)),
        (
            "filter",
            jarr(vec![jtext("=="), jtext("class"), jtext("primary")]),
        ),
    ])]);
    let style = tile_prune::style_from_json(&doc).unwrap();
    let roads = "roads".to_string();
    assert_eq!(
        style.should_keep_feature(&roads, 3, &road_feature(Some("primary"))),
        FilterResult::False
    );
    assert_eq!(
        style.should_keep_feature(&roads, 10, &road_feature(Some("primary"))),
        FilterResult::True
    );
}

#[test]
fn keep_decision_reports_unknown_occurrences() {
    let doc = style_doc(vec![
        jobj(vec![
            ("source", jtext("v")),
            ("source-layer", jtext("roads")),
            (
                "filter",
                jarr(vec![jtext("=="), jtext("surface"), jtext("paved")]),
            ),
        ]),
        jobj(vec![
            ("source", jtext("v")),
            ("source-layer", jtext("roads")),
            (
                "filter",
                jarr(vec![jtext("=="), jtext("smoothness"), jtext("good")]),
            ),
        ]),
        jobj(vec![
            ("source", jtext("v")),
            ("source-layer", jtext("roads")),
            (
                "filter",
                jarr(vec![jtext("=="), jtext("class"), jtext("primary")]),
            ),
        ]),
    ]);
    let style = tile_prune::style_from_json(&doc).unwrap();
    let roads = "roads".to_string();
    assert_eq!(
        style.should_keep_feature_counting(&roads, 6, &road_feature(Some("primary"))),
        (FilterResult::True, 2)
    );
    assert_eq!(
        style.should_keep_feature_counting(&roads, 6, &road_feature(Some("tertiary"))),
        (FilterResult::Unknown, 2)
    );
    assert_eq!(
        style.should_keep_feature_counting(&"rivers".to_string(), 6, &road_feature(None)),
        (FilterResult::False, 0)
    );
}

#[test]
fn has_filter_round_trip_through_parser() {
    let doc = style_doc(vec![jobj(vec![
        ("source", jtext("v")),
        ("source-layer", jtext("roads")),
        ("filter", jarr(vec![jtext("!has"), jtext("tunnel")])),
    ])]);
    let style = tile_prune::style_from_json(&doc).unwrap();
    let roads = "roads".to_string();
    assert_eq!(
        style.should_keep_feature(&roads, 4, &road_feature(Some("primary"))),
        FilterResult::True
    );
    let tunnel = FeatureView {
        geom: GeomType::LineString,
        props: vec![("tunnel".to_string(), Some(FilterValue::Flag(true)))],
    };
    assert_eq!(
        style.should_keep_feature(&roads, 4, &tunnel),
        FilterResult::False
    );
}

#[test]
fn match_expression_round_trips_through_parser() {
    let doc = style_doc(vec![jobj(vec![
        ("source", jtext("v")),
        ("source-layer", jtext("roads")),
        (
            "filter",
            jarr(vec![
                jtext("=="),
                jarr(vec![
                    jtext("match"),
                    jarr(vec![jtext("get"), jtext("class")]),
                    jtext("primary"),
                    junits(1),
                    jtext("secondary"),
                    junits(2),
                    junits(0),
                ]),
                junits(2),
            ]),
        ),
    ])]);
    let style = tile_prune::style_from_json(&doc).unwrap();
    let roads = "roads".to_string();
    assert_eq!(
        style.should_keep_feature(&roads, 4, &road_feature(Some("secondary"))),
        FilterResult::True
    );
    assert_eq!(
        style.should_keep_feature(&roads, 4, &road_feature(Some("primary"))),
        FilterResult::False
    );
    assert_eq!(
        style.should_keep_feature(&roads, 4, &road_feature(Some("track"))),
        FilterResult::False
    );
    assert_eq!(
        style.should_keep_feature(&roads, 4, &road_feature(None)),
        FilterResult::Unknown
    );
}

#[test]
fn case_and_coalesce_round_trip_through_parser() {
    let doc = style_doc(vec![
        jobj(vec![
            ("source", jtext("v")),
            ("source-layer", jtext("roads")),
            (
                "filter",
                jarr(vec![
                    jtext("=="),
                    jarr(vec![
                        jtext("case"),
                        jarr(vec![jtext("=="), jtext("bridge"), jflag(true)]),
                        junits(1),
                        junits(0),
                    ]),
                    junits(1),
                ]),
            ),
        ]),
        jobj(vec![
            ("source", jtext("v")),
            ("source-layer", jtext("places")),
            (
                "filter",
                jarr(vec![
                    jtext("=="),
                    jarr(vec![
                        jtext("coalesce"),
                        jarr(vec![jtext("get"), jtext("name_en")]),
                        jarr(vec![jtext("get"), jtext("name")]),
                    ]),
                    jtext("Lakeside"),
                ]),
            ),
        ]),
    ]);
    let style = tile_prune::style_from_json(&doc).unwrap();
    let bridge = FeatureView {
        geom: GeomType::LineString,
        props: vec![("bridge".to_string(), Some(FilterValue::Flag(true)))],
    };
    assert_eq!(
        style.should_keep_feature(&"roads".to_string(), 4, &bridge),
        FilterResult::True
    );
    assert_eq!(
        style.should_keep_feature(&"roads".to_string(), 4, &road_feature(Some("primary"))),
        FilterResult::False
    );
    let named = FeatureView {
        geom: GeomType::Point,
        props: vec![(
            "name".to_string(),
            Some(FilterValue::Text("Lakeside".to_string())),
        )],
    };
    assert_eq!(
        style.should_keep_feature(&"places".to_string(), 4, &named),
        FilterResult::True
    );
}

#[test]
fn match_case_coalesce_combine_under_all() {
    let doc = style_doc(vec![jobj(vec![
        ("source", jtext("v")),
        ("source-layer", jtext("roads")),
        (
            "filter",
            jarr(vec![
                jtext("all"),
                jarr(vec![
                    jtext("=="),
                    jarr(vec![
                        jtext("match"),
                        jarr(vec![jtext("get"), jtext("class")]),
                        jtext("primary"),
                        junits(1),
                        junits(0),
                    ]),
                    junits(1),
                ]),
                jarr(vec![
                    jtext("=="),
                    jarr(vec![
                        jtext("case"),
                        jarr(vec![
                            jtext("=="),
                            jarr(vec![jtext("get"), jtext("class")]),
                            jtext("primary"),
                        ]),
                        jtext("yes"),
                        jtext("no"),
                    ]),
                    jtext("yes"),
                ]),
                jarr(vec![
                    jtext("=="),
                    jarr(vec![
                        jtext("coalesce"),
                        jarr(vec![jtext("get"), jtext("class")]),
                        jtext("fallback"),
                    ]),
                    jtext("primary"),
                ]),
            ]),
        ),
    ])]);
    let style = tile_prune::style_from_json(&doc).unwrap();
    let roads = "roads".to_string();
    assert_eq!(
        style.should_keep_feature(&roads, 3, &road_feature(Some("primary"))),
        FilterResult::True
    );
    assert_eq!(
        style.should_keep_feature(&roads, 3, &road_feature(Some("secondary"))),
        FilterResult::False
    );
    assert_eq!(
        style.should_keep_feature(&roads, 3, &road_feature(None)),
        FilterResult::False
    );
}

#[test]
fn malformed_expression_key_drops_the_filter() {
    let doc = style_doc(vec![jobj(vec![
        ("source", jtext("v")),
        ("source-layer", jtext("roads")),
        (
            "filter",
            jarr(vec![jtext("=="), jarr(vec![jtext("get")]), jtext("primary")]),
        ),
    ])]);
    let style = tile_prune::style_from_json(&doc).unwrap();
    assert_eq!(
        style.should_keep_feature(&"roads".to_string(), 4, &road_feature(Some("secondary"))),
        FilterResult::True
    );
}

#[test]
fn combinator_filters_round_trip_through_parser() {
    let doc = style_doc(vec![jobj(vec![
        ("source", jtext("v")),
        ("source-layer", jtext("roads")),
        (
            "filter",
            jarr(vec![
                jtext("all"),
                jarr(vec![jtext("=="), jtext("class"), jtext("primary")]),
                jarr(vec![jtext("none"), jarr(vec![jtext("has"), jtext("tunnel")])]),
            ]),
        ),
    ])]);
    let style = tile_prune::style_from_json(&doc).unwrap();
    let roads = "roads".to_string();
    assert_eq!(
        style.should_keep_feature(&roads, 4, &road_feature(Some("primary"))),
        FilterResult::True
    );
    assert_eq!(
        style.should_keep_feature(&roads, 4, &road_feature(Some("secondary"))),
        FilterResult::False
    );
}
