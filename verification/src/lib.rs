//! Style-driven feature visibility engine for vector map tiles.
//!
//! A cartographic style document assigns each source-layer a set of style
//! layers, each with zoom bounds, layout visibility, paint properties and an
//! optional filter expression. This crate decides, for one decoded feature at
//! one zoom level, whether any style rule could render it. Filters are
//! evaluated in three-valued (Kleene) logic: a predicate over a property the
//! feature does not carry yields `Unknown` rather than `False`, and callers
//! choose the policy for ambiguous features.

pub mod feature;
pub mod filter;
pub mod json;
pub mod laws;
pub mod parse;
pub mod style;
pub mod tri;
pub mod value;

pub use feature::{FeatureView, GeomType};
pub use filter::{Filter, ValueExpr};
pub use json::JsonValue;
pub use parse::{read_style_source_layers, style_from_json, StyleError};
pub use style::{MapboxStyle, MapboxStyleLayer, PaintValue, SourceGroup};
pub use tri::FilterResult;
pub use value::{FilterValue, NUM_SCALE};
