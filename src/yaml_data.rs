use vstd::prelude::*;
use crate::errors::ErrorInfo;
use crate::keyed::{keys_unique, lookup, position, upsert};
use crate::value::{Value, untag, is_mapping, sequence_items};

verus! {

/// What a property finding looks like in contracts: property name, position in
/// the sequence (if any) and message.
pub type ErrorView = (Seq<char>, Option<usize>, Seq<char>);

/// `i` is the position of the first mapping among `items`.
pub open spec fn is_first_mapping(items: Seq<Value>, i: int) -> bool {
    &&& 0 <= i < items.len()
    &&& is_mapping(items[i])
    &&& forall|j: int| 0 <= j < i ==> !is_mapping(#[trigger] items[j])
}

/// Some element of `items` is a mapping.
pub open spec fn has_mapping(items: Seq<Value>) -> bool {
    exists|i: int| 0 <= i < items.len() && is_mapping(#[trigger] items[i])
}

/// How a property value breaks the depth rule, if it does: `Some(None)` for a
/// value that is itself a mapping, `Some(Some(i))` for a sequence whose first
/// mapping element stands at `i`, and `None` for a valid value (a scalar, or a
/// sequence none of whose elements is a mapping).
///
/// The rule is the strict one: no mapping may stand as a property value or as
/// an element of a property's sequence. Elements are checked one level deep
/// only; what lies inside a nested sequence is not examined. Tags are looked
/// through at every level.
pub open spec fn depth_violation(v: Value) -> Option<Option<usize>> {
    if is_mapping(v) {
        Some(None)
    } else if has_mapping(sequence_items(v)) {
        Some(Some(choose|i: usize| is_first_mapping(sequence_items(v), i as int)))
    } else {
        None
    }
}

/// A value that is not a mapping, and whose sequence has its first mapping
/// element at `j`, breaks the rule at `j`.
pub proof fn lemma_first_mapping_violation(v: Value, j: usize)
    requires
        !is_mapping(v),
        is_first_mapping(sequence_items(v), j as int),
    ensures
        depth_violation(v) == Some(Some(j)),
{
    let items = sequence_items(v);
    assert(has_mapping(items));
    let c = choose|c: usize| is_first_mapping(items, c as int);
    if c < j {
        assert(!is_mapping(items[c as int]));
    } else if c > j {
        assert(!is_mapping(items[j as int]));
    }
}

/// The message reported for a violation at `index`.
pub open spec fn violation_message(index: Option<usize>) -> Seq<char> {
    match index {
        None => "A property value cannot be a mapping."@,
        Some(_) => "A sequence element cannot be a mapping."@,
    }
}

/// The findings for a property list, one per invalid property, in list order.
pub open spec fn errors_of(props: Seq<(String, Value)>) -> Seq<ErrorView>
    decreases props.len(),
{
    if props.len() == 0 {
        Seq::empty()
    } else {
        let rest = errors_of(props.drop_last());
        let (k, v) = props.last();
        match depth_violation(v) {
            Some(index) => rest.push((k@, index, violation_message(index))),
            None => rest,
        }
    }
}

/// The properties that break the depth rule.
pub open spec fn invalid_properties(props: Seq<(String, Value)>) -> Seq<(String, Value)> {
    props.filter(|p: (String, Value)| depth_violation(p.1) is Some)
}

/// The elements of the sequence stored under `key`; empty where there is no
/// such property or its value is not a sequence.
pub open spec fn list_items(props: Seq<(String, Value)>, key: Seq<char>) -> Seq<Value> {
    match lookup(props, key) {
        Some(v) => sequence_items(v),
        None => Seq::empty(),
    }
}

/// The values that decoded, in the order of the elements they came from.
pub open spec fn decoded<T>(outcomes: Seq<Option<T>>) -> Seq<T> {
    outcomes.filter_map(|o: Option<T>| o)
}

fn message_for(index: Option<usize>) -> (r: String)
    ensures
        r@ == violation_message(index),
{
    match index {
        None => String::from_str("A property value cannot be a mapping."),
        Some(_) => String::from_str("A sequence element cannot be a mapping."),
    }
}

/// Checks one property value against the depth rule.
pub fn validate_table_value(v: &Value) -> (r: Result<(), (Option<usize>, String)>)
    ensures
        match r {
            Ok(()) => depth_violation(*v) is None,
            Err((index, msg)) => depth_violation(*v) == Some(index) && msg@
                == violation_message(index),
        },
{
    match untag(v) {
        Value::Mapping(_) => {
            let index: Option<usize> = None;
            Err((index, message_for(index)))
        },
        Value::Sequence(items) => {
            let mut i: usize = 0;
            while i < items.len()
                invariant
                    sequence_items(*v) == items@,
                    !is_mapping(*v),
                    0 <= i <= items.len(),
                    forall|j: int| 0 <= j < i ==> !is_mapping(#[trigger] items@[j]),
                decreases items.len() - i,
            {
                if let Value::Mapping(_) = untag(&items[i]) {
                    proof {
                        lemma_first_mapping_violation(*v, i);
                    }
                    let index = Some(i);
                    return Err((index, message_for(index)));
                }
                i = i + 1;
            }
            Ok(())
        },
        _ => Ok(()),
    }
}

/// One record: an identifier, a name, and an open bag of named properties.
#[derive(Debug)]
pub struct YamlData {
    id: i64,
    name: String,
    properties: Vec<(String, Value)>,
}

impl YamlData {
    /// The record's identifier.
    pub closed spec fn spec_id(&self) -> i64 {
        self.id
    }

    /// The record's name.
    pub closed spec fn spec_name(&self) -> Seq<char> {
        self.name@
    }

    /// The property bag, in insertion order.
    pub closed spec fn spec_properties(&self) -> Seq<(String, Value)> {
        self.properties@
    }

    /// Property names are unique.
    pub open spec fn wf(&self) -> bool {
        keys_unique(self.spec_properties())
    }

    /// A record with the given identifier and name and no properties.
    pub fn new(id: i64, name: String) -> (r: Self)
        ensures
            r.wf(),
            r.spec_id() == id,
            r.spec_name() == name@,
            r.spec_properties() == Seq::<(String, Value)>::empty(),
    {
        YamlData { id, name, properties: Vec::new() }
    }

    /// Sets property `key` to `value`, replacing the value of an existing
    /// property of that name in place, or adding the property at the end.
    pub fn insert(&mut self, key: String, value: Value)
        requires
            old(self).wf(),
        ensures
            final(self).wf(),
            final(self).spec_id() == old(self).spec_id(),
            final(self).spec_name() == old(self).spec_name(),
            lookup(final(self).spec_properties(), key@) == Some(value),
            forall|k: Seq<char>|
                k != key@ ==> lookup(final(self).spec_properties(), k) == lookup(
                    old(self).spec_properties(),
                    k,
                ),
            lookup(old(self).spec_properties(), key@) is None ==> final(self).spec_properties()
                == old(self).spec_properties().push((key, value)),
            lookup(old(self).spec_properties(), key@) is Some ==> exists|i: int|
                0 <= i < old(self).spec_properties().len()
                    && (#[trigger] old(self).spec_properties()[i]).0@ == key@
                    && final(self).spec_properties() == old(self).spec_properties().update(i, (key, value)),
    {
        upsert(&mut self.properties, key, value);
    }

    /// The value of property `key`, if the record has one.
    pub fn get_value(&self, key: &str) -> (r: Option<&Value>)
        requires
            self.wf(),
        ensures
            match r {
                Some(v) => lookup(self.spec_properties(), key@) == Some(*v),
                None => lookup(self.spec_properties(), key@) is None,
            },
    {
        match position(&self.properties, key) {
            Some(i) => Some(&self.properties[i].1),
            None => None,
        }
    }

    /// Decodes the value of property `key` with `decode`; `None` where the
    /// property is missing or does not decode.
    pub fn get_data<T, F: Fn(&Value) -> Option<T>>(&self, key: &str, decode: F) -> (r: Option<T>)
        requires
            self.wf(),
            forall|v: &Value| decode.requires((v,)),
        ensures
            match lookup(self.spec_properties(), key@) {
                Some(v) => decode.ensures((&v,), r),
                None => r is None,
            },
    {
        match self.get_value(key) {
            Some(v) => decode(v),
            None => None,
        }
    }

    /// Decodes each element of the sequence stored under `key` with `decode`,
    /// keeping those that decode, in order. Empty where the property is
    /// missing or not a sequence.
    pub fn get_data_as_vec<T, F: Fn(&Value) -> Option<T>>(&self, key: &str, decode: F) -> (r: Vec<
        T,
    >)
        requires
            self.wf(),
            forall|v: &Value| decode.requires((v,)),
        ensures
            exists|outcomes: Seq<Option<T>>|
                {
                    &&& outcomes.len() == list_items(self.spec_properties(), key@).len()
                    &&& forall|i: int|
                        0 <= i < outcomes.len() ==> decode.ensures(
                            (&list_items(self.spec_properties(), key@)[i],),
                            #[trigger] outcomes[i],
                        )
                    &&& r@ == decoded(outcomes)
                },
    {
        let mut out: Vec<T> = Vec::new();
        let ghost items = list_items(self.spec_properties(), key@);
        let ghost mut outcomes: Seq<Option<T>> = Seq::empty();
        if let Some(v) = self.get_value(key) {
            if let Value::Sequence(elems) = untag(v) {
                let mut i: usize = 0;
                while i < elems.len()
                    invariant
                        items == elems@,
                        0 <= i <= elems.len(),
                        outcomes.len() == i,
                        forall|j: int|
                            0 <= j < i ==> decode.ensures((&items[j],), #[trigger] outcomes[j]),
                        forall|v: &Value| decode.requires((v,)),
                        out@ == decoded(outcomes),
                    decreases elems.len() - i,
                {
                    let o = decode(&elems[i]);
                    proof {
                        let next = outcomes.push(o);
                        assert(next.drop_last() =~= outcomes);
                    }
                    match o {
                        Some(x) => out.push(x),
                        None => {},
                    }
                    proof {
                        outcomes = outcomes.push(o);
                    }
                    i = i + 1;
                }
            }
        }
        assert(outcomes.len() == items.len());
        assert(out@ == decoded(outcomes));
        out
    }

    /// The property bag, in insertion order.
    pub fn properties(&self) -> (r: &[(String, Value)])
        ensures
            r@ == self.spec_properties(),
    {
        self.properties.as_slice()
    }

    pub fn id(&self) -> (r: i64)
        ensures
            r == self.spec_id(),
    {
        self.id
    }

    pub fn name(&self) -> (r: &str)
        ensures
            r@ == self.spec_name(),
    {
        self.name.as_str()
    }

    /// Checks every property against the depth rule and reports all findings,
    /// one per invalid property, or success when there are none.
    pub fn validate(&self) -> (r: Result<(), Vec<ErrorInfo>>)
        ensures
            match r {
                Ok(()) => errors_of(self.spec_properties()).len() == 0,
                Err(errors) => errors@.len() > 0 && errors@.map_values(|e: ErrorInfo| e@)
                    == errors_of(self.spec_properties()),
            },
    {
        let mut errors: Vec<ErrorInfo> = Vec::new();
        let mut i: usize = 0;
        while i < self.properties.len()
            invariant
                0 <= i <= self.properties.len(),
                errors@.map_values(|e: ErrorInfo| e@) == errors_of(
                    self.properties@.subrange(0, i as int),
                ),
            decreases self.properties.len() - i,
        {
            let (name, v) = &self.properties[i];
            let ghost done = self.properties@.subrange(0, i as int);
            let ghost next = self.properties@.subrange(0, i + 1);
            assert(next.drop_last() =~= done);
            if let Err((index, msg)) = validate_table_value(v) {
                let e = ErrorInfo::new(name.clone(), index, msg);
                errors.push(e);
                assert(errors@.map_values(|e: ErrorInfo| e@) =~= errors_of(next));
            }
            i = i + 1;
        }
        assert(self.properties@.subrange(0, self.properties@.len() as int) =~= self.properties@);
        if errors.len() == 0 {
            Ok(())
        } else {
            Err(errors)
        }
    }
}

} // verus!
