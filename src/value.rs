use vstd::prelude::*;

verus! {

/// A semi-structured document value: the tree that a parsed document yields.
///
/// A number keeps the text of its canonical form; a tagged value keeps its tag
/// and the value it annotates.
#[derive(Debug, PartialEq)]
pub enum Value {
    Null,
    Bool(bool),
    Number(String),
    String(String),
    Sequence(Vec<Value>),
    Mapping(Vec<(Value, Value)>),
    Tagged(String, Box<Value>),
}

/// The value with every tag around it taken off.
pub open spec fn untagged(v: Value) -> Value
    decreases v,
{
    match v {
        Value::Tagged(_, inner) => untagged(*inner),
        _ => v,
    }
}

/// A mapping, once tags are looked through.
pub open spec fn is_mapping(v: Value) -> bool {
    untagged(v) is Mapping
}

/// A sequence, once tags are looked through.
pub open spec fn is_sequence(v: Value) -> bool {
    untagged(v) is Sequence
}

/// Neither a mapping nor a sequence: null, a boolean, a number or a string.
pub open spec fn is_scalar(v: Value) -> bool {
    !is_mapping(v) && !is_sequence(v)
}

/// The elements of a sequence value; empty for any other value.
pub open spec fn sequence_items(v: Value) -> Seq<Value> {
    match untagged(v) {
        Value::Sequence(items) => items@,
        _ => Seq::empty(),
    }
}

/// The exec counterpart of `untagged`.
pub fn untag(v: &Value) -> (r: &Value)
    ensures
        *r == untagged(*v),
    decreases v,
{
    match v {
        Value::Tagged(_, inner) => untag(inner),
        _ => v,
    }
}

} // verus!
