//! Layer visibility: zoom windows, layout flags, and the paint-zero
//! rendering heuristic, on directly built layers.

use tile_prune::{MapboxStyleLayer, PaintValue, NUM_SCALE};

fn plain_layer() -> MapboxStyleLayer {
    MapboxStyleLayer {
        minzoom: None,
        maxzoom: None,
        visibility: None,
        paint: vec![],
        filter: None,
    }
}

#[test]
fn zoom_window_is_half_open() {
    let mut layer = plain_layer();
    layer.minzoom = Some(2 * NUM_SCALE);
    layer.maxzoom = Some(5 * NUM_SCALE);
    assert!(!layer.is_visible_on_zoom(1));
    assert!(layer.is_visible_on_zoom(2));
    assert!(layer.is_visible_on_zoom(4));
    assert!(!layer.is_visible_on_zoom(5));
    assert!(!layer.is_visible_on_zoom(6));
}

#[test]
fn fractional_zoom_bounds_keep_their_meaning() {
    let mut layer = plain_layer();
    layer.minzoom = Some(2 * NUM_SCALE + NUM_SCALE / 2);
    layer.maxzoom = Some(4 * NUM_SCALE + NUM_SCALE / 2);
    assert!(!layer.is_visible_on_zoom(2));
    assert!(layer.is_visible_on_zoom(3));
    assert!(layer.is_visible_on_zoom(4));
    assert!(!layer.is_visible_on_zoom(5));
}

#[test]
fn unset_bounds_do_not_constrain() {
    let layer = plain_layer();
    assert!(layer.is_visible_on_zoom(0));
    assert!(layer.is_visible_on_zoom(255));
}

#[test]
fn visibility_none_hides_at_every_zoom() {
    let mut layer = plain_layer();
    layer.visibility = Some("none".to_string());
    assert!(!layer.is_visible_on_zoom(0));
    assert!(!layer.is_visible_on_zoom(10));
    let mut visible = plain_layer();
    visible.visibility = Some("visible".to_string());
    assert!(visible.is_visible_on_zoom(10));
}

#[test]
fn absent_paint_never_blocks_rendering() {
    let layer = plain_layer();
    assert!(layer.is_rendered(0));
    let mut unrelated = plain_layer();
    unrelated.paint = vec![("fill-color".to_string(), PaintValue::Constant(0))];
    assert!(unrelated.is_rendered(7));
}

#[test]
fn constant_zero_paint_always_blocks() {
    let mut layer = plain_layer();
    layer.paint = vec![("line-width".to_string(), PaintValue::Constant(0))];
    assert!(!layer.is_rendered(0));
    assert!(!layer.is_rendered(14));
    let mut opaque = plain_layer();
    opaque.paint = vec![("line-width".to_string(), PaintValue::Constant(NUM_SCALE))];
    assert!(opaque.is_rendered(14));
}

#[test]
fn stop_table_blocks_only_on_exact_zero_stop() {
    let mut layer = plain_layer();
    layer.paint = vec![(
        "fill-opacity".to_string(),
        PaintValue::Stops(vec![(5, 0), (6, NUM_SCALE)]),
    )];
    assert!(!layer.is_rendered(5));
    assert!(layer.is_rendered(6));
    assert!(layer.is_rendered(4));
    assert!(layer.is_rendered(12));
}

#[test]
fn half_opacity_counts_as_rendered() {
    let mut layer = plain_layer();
    layer.paint = vec![("fill-opacity".to_string(), PaintValue::Constant(NUM_SCALE / 2))];
    assert!(layer.is_rendered(3));
}
