//! Feature-property values and their equality relation.
//!
//! A property value is a string, a number or a boolean. Numbers are held in
//! fixed-point form: an `i64` counting millionths, so that `1` is stored as
//! `1_000_000` and `0.5` as `500_000`. The adapter that decodes tiles and
//! style documents performs the rounding; inside this crate numeric equality
//! is exact equality of the fixed-point representation.

use vstd::prelude::*;

verus! {

/// One fixed-point unit per millionth: the number `n` is stored as
/// `n * NUM_SCALE`.
pub const NUM_SCALE: i64 = 1_000_000;

/// A feature-property or filter-operand value.
#[derive(Debug)]
pub enum FilterValue {
    /// A string value.
    Text(String),
    /// A numeric value, in millionths (see `NUM_SCALE`).
    Number(i64),
    /// A boolean value.
    Flag(bool),
}

/// Mathematical model of a `FilterValue`.
pub enum SpecValue {
    Text(Seq<char>),
    Number(int),
    Flag(bool),
}

impl View for FilterValue {
    type V = SpecValue;

    open spec fn view(&self) -> SpecValue {
        match self {
            FilterValue::Text(s) => SpecValue::Text(s@),
            FilterValue::Number(n) => SpecValue::Number(*n as int),
            FilterValue::Flag(b) => SpecValue::Flag(*b),
        }
    }
}

/// Value equality: equal only across matching tags; strings by their
/// characters, numbers by their fixed-point representation, booleans exactly.
pub open spec fn spec_value_eq(a: SpecValue, b: SpecValue) -> bool {
    match (a, b) {
        (SpecValue::Text(x), SpecValue::Text(y)) => x == y,
        (SpecValue::Number(x), SpecValue::Number(y)) => x == y,
        (SpecValue::Flag(x), SpecValue::Flag(y)) => x == y,
        _ => false,
    }
}

impl Clone for FilterValue {
    /// A clone carries the same value.
    fn clone(&self) -> (r: Self)
        ensures
            r == *self,
    {
        match self {
            FilterValue::Text(s) => FilterValue::Text(s.clone()),
            FilterValue::Number(n) => FilterValue::Number(*n),
            FilterValue::Flag(b) => FilterValue::Flag(*b),
        }
    }
}

impl FilterValue {
    /// Total equality test over the value variants; mismatched tags are
    /// never equal.
    pub fn equals(&self, other: &FilterValue) -> (r: bool)
        ensures
            r == spec_value_eq(self@, other@),
    {
        match (self, other) {
            (FilterValue::Text(a), FilterValue::Text(b)) => a.eq(b),
            (FilterValue::Number(a), FilterValue::Number(b)) => a == b,
            (FilterValue::Flag(a), FilterValue::Flag(b)) => a == b,
            _ => false,
        }
    }
}

/// Membership of a value in a list of values, by `spec_value_eq`.
pub open spec fn spec_value_in(v: SpecValue, vs: Seq<SpecValue>) -> bool {
    exists|i: int| 0 <= i < vs.len() && spec_value_eq(v, vs[i])
}

/// True iff some value of the list equals `v`.
pub fn value_in_list(v: &FilterValue, vs: &Vec<FilterValue>) -> (r: bool)
    ensures
        r == spec_value_in(v@, vs@.map_values(|x: FilterValue| x@)),
{
    let ghost models = vs@.map_values(|x: FilterValue| x@);
    for i in 0..vs.len()
        invariant
            models == vs@.map_values(|x: FilterValue| x@),
            forall|j: int| 0 <= j < i ==> !spec_value_eq(v@, models[j]),
    {
        if v.equals(&vs[i]) {
            assert(spec_value_eq(v@, models[i as int]));
            return true;
        }
    }
    false
}

} // verus!
