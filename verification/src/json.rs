//! The parsed style-document tree.
//!
//! A style document arrives as JSON text; the adapter around this crate
//! parses the text and hands the loader this tree of plain values. Numbers
//! are fixed-point millionths, like every number in this crate (see
//! `value::NUM_SCALE`). An object is a field list in document order.

use vstd::prelude::*;

verus! {

/// One node of a style-document tree.
#[derive(Debug)]
pub enum JsonValue {
    Null,
    Flag(bool),
    /// A number in fixed-point millionths.
    Number(i64),
    Text(String),
    Array(Vec<JsonValue>),
    Object(Vec<(String, JsonValue)>),
}

/// The value of the first field whose key spells `key`, or `None`.
pub open spec fn spec_field_lookup(
    fields: Seq<(String, JsonValue)>,
    key: Seq<char>,
) -> Option<JsonValue>
    decreases fields.len(),
{
    if fields.len() == 0 {
        Option::None
    } else if fields[0].0@ == key {
        Option::Some(fields[0].1)
    } else {
        spec_field_lookup(fields.drop_first(), key)
    }
}

/// The member of an object under the key; `None` on any other node.
pub open spec fn spec_json_get(j: JsonValue, key: Seq<char>) -> Option<JsonValue> {
    match j {
        JsonValue::Object(fields) => spec_field_lookup(fields@, key),
        _ => Option::None,
    }
}

impl JsonValue {
    /// Member access on an object node; `None` elsewhere.
    #[verifier::loop_isolation(false)]
    pub fn get<'a>(&'a self, key: &String) -> (r: Option<&'a JsonValue>)
        ensures
            match r {
                Option::Some(v) => spec_json_get(*self, key@) == Option::Some(*v),
                Option::None => spec_json_get(*self, key@) is None,
            },
    {
        match self {
            JsonValue::Object(fields) => {
                for i in 0..fields.len()
                    invariant
                        forall|j: int| 0 <= j < i ==> (#[trigger] fields@[j]).0@ != key@,
                {
                    if fields[i].0.eq(key) {
                        proof {
                            lemma_field_lookup_found(fields@, key@, i as int);
                        }
                        return Some(&fields[i].1);
                    }
                }
                proof {
                    lemma_field_lookup_missing(fields@, key@);
                }
                None
            },
            _ => None,
        }
    }
}

/// When the first `i` keys miss and key `i` matches, the lookup returns
/// field `i`.
proof fn lemma_field_lookup_found(fields: Seq<(String, JsonValue)>, key: Seq<char>, i: int)
    requires
        0 <= i < fields.len(),
        fields[i].0@ == key,
        forall|j: int| 0 <= j < i ==> (#[trigger] fields[j]).0@ != key,
    ensures
        spec_field_lookup(fields, key) == Option::Some(fields[i].1),
    decreases i,
{
    if i > 0 {
        lemma_field_lookup_found(fields.drop_first(), key, i - 1);
    }
}

/// When no key matches, the lookup misses.
proof fn lemma_field_lookup_missing(fields: Seq<(String, JsonValue)>, key: Seq<char>)
    requires
        forall|j: int| 0 <= j < fields.len() ==> (#[trigger] fields[j]).0@ != key,
    ensures
        spec_field_lookup(fields, key) is None,
    decreases fields.len(),
{
    if fields.len() > 0 {
        lemma_field_lookup_missing(fields.drop_first(), key);
    }
}

} // verus!
