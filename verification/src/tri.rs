//! Three-valued filter results and the Kleene combinators over them.

use vstd::prelude::*;

verus! {

/// Outcome of evaluating a style filter against one feature.
///
/// `Unknown` records that evaluation could not complete because a required
/// property was absent from the feature; it is never silently coerced to
/// `True` or `False` here — callers decide policy.
#[derive(Clone, Copy, Debug, PartialEq, Eq, Structural)]
pub enum FilterResult {
    True,
    False,
    Unknown,
}

/// The three-valued result a definite boolean stands for.
pub open spec fn spec_from_bool(value: bool) -> FilterResult {
    if value {
        FilterResult::True
    } else {
        FilterResult::False
    }
}

impl FilterResult {
    /// Lift a definite boolean into the three-valued domain.
    pub fn from_bool(value: bool) -> (r: FilterResult)
        ensures
            r == spec_from_bool(value),
    {
        if value {
            FilterResult::True
        } else {
            FilterResult::False
        }
    }
}

/// Does the sequence of sub-results contain `v`?
pub open spec fn has_result(rs: Seq<FilterResult>, v: FilterResult) -> bool {
    exists|i: int| 0 <= i < rs.len() && rs[i] == v
}

/// Conjunction over three-valued sub-results: `False` dominates, then
/// `Unknown`, and the empty conjunction is `True`.
pub open spec fn combine_all(rs: Seq<FilterResult>) -> FilterResult {
    if has_result(rs, FilterResult::False) {
        FilterResult::False
    } else if has_result(rs, FilterResult::Unknown) {
        FilterResult::Unknown
    } else {
        FilterResult::True
    }
}

/// Disjunction over three-valued sub-results: `True` dominates, then
/// `Unknown`, and the empty disjunction is `False`.
pub open spec fn combine_any(rs: Seq<FilterResult>) -> FilterResult {
    if has_result(rs, FilterResult::True) {
        FilterResult::True
    } else if has_result(rs, FilterResult::Unknown) {
        FilterResult::Unknown
    } else {
        FilterResult::False
    }
}

/// Negated disjunction: `True` only when every sub-result is `False`; a
/// definite `True` sub-result forces `False`; otherwise `Unknown`.
pub open spec fn combine_none(rs: Seq<FilterResult>) -> FilterResult {
    if has_result(rs, FilterResult::True) {
        FilterResult::False
    } else if has_result(rs, FilterResult::Unknown) {
        FilterResult::Unknown
    } else {
        FilterResult::True
    }
}

/// Empty-combinator identities: the empty conjunction holds, the empty
/// disjunction fails, and the empty negated disjunction holds.
pub proof fn lemma_empty_combinators()
    ensures
        combine_all(Seq::<FilterResult>::empty()) == FilterResult::True,
        combine_any(Seq::<FilterResult>::empty()) == FilterResult::False,
        combine_none(Seq::<FilterResult>::empty()) == FilterResult::True,
{
}

/// A definite answer wins over any `Unknown` sibling: one `True` sub-result
/// decides a disjunction, and one `False` sub-result decides a conjunction,
/// whatever the other sub-results are.
pub proof fn lemma_definite_wins(rs: Seq<FilterResult>, i: int)
    requires
        0 <= i < rs.len(),
    ensures
        rs[i] == FilterResult::True ==> combine_any(rs) == FilterResult::True,
        rs[i] == FilterResult::False ==> combine_all(rs) == FilterResult::False,
        rs[i] == FilterResult::True ==> combine_none(rs) == FilterResult::False,
{
}

} // verus!
