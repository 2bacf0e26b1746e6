use vstd::prelude::*;
use crate::keyed::keys_unique;
use crate::value::{Value, is_mapping, is_scalar, sequence_items};
use crate::yaml_data::{
    ErrorView, YamlData, decoded, depth_violation, errors_of, invalid_properties, is_first_mapping,
    lemma_first_mapping_violation, violation_message,
};

verus! {

/// A property list all of whose values are scalars yields no findings.
pub proof fn lemma_scalars_valid(props: Seq<(String, Value)>)
    requires
        forall|i: int| 0 <= i < props.len() ==> is_scalar(#[trigger] props[i].1),
    ensures
        errors_of(props).len() == 0,
    decreases props.len(),
{
    if props.len() > 0 {
        assert(is_scalar(props[props.len() - 1].1));
        lemma_scalars_valid(props.drop_last());
    }
}

/// Every finding names a property of the list.
proof fn lemma_findings_name_properties(props: Seq<(String, Value)>, e: ErrorView)
    requires
        errors_of(props).contains(e),
    ensures
        exists|i: int| 0 <= i < props.len() && (#[trigger] props[i]).0@ == e.0 && depth_violation(props[i].1) == Some(e.1),
    decreases props.len(),
{
    let rest = errors_of(props.drop_last());
    if rest.contains(e) {
        lemma_findings_name_properties(props.drop_last(), e);
        let i = choose|i: int| 0 <= i < props.drop_last().len() && (#[trigger] props.drop_last()[i]).0@ == e.0 && depth_violation(props.drop_last()[i].1) == Some(e.1);
        assert(props[i] == props.drop_last()[i]);
    } else {
        let k = props.len() - 1;
        assert(props[k].0@ == e.0);
    }
}

/// An invalid property at position `i` yields exactly the finding that
/// `depth_violation` describes, and, names being unique, no other finding
/// names it.
proof fn lemma_finding_for(props: Seq<(String, Value)>, i: int)
    requires
        keys_unique(props),
        0 <= i < props.len(),
        depth_violation(props[i].1) is Some,
    ensures
        errors_of(props).contains(
            (props[i].0@, depth_violation(props[i].1)->0, violation_message(depth_violation(props[i].1)->0)),
        ),
        forall|e: ErrorView| #[trigger] errors_of(props).contains(e) && e.0 == props[i].0@ ==> e.1 == depth_violation(props[i].1)->0,
    decreases props.len(),
{
    let last = props.len() - 1;
    let front = props.drop_last();
    if i < last {
        assert(keys_unique(front));
        assert(front[i] == props[i]);
        lemma_finding_for(front, i);
        let found = (props[i].0@, depth_violation(props[i].1)->0, violation_message(depth_violation(props[i].1)->0));
        let idx = choose|idx: int| 0 <= idx < errors_of(front).len() && errors_of(front)[idx] == found;
        assert(errors_of(props)[idx] == found);
        assert forall|e: ErrorView| #[trigger] errors_of(props).contains(e) && e.0 == props[i].0@ implies e.1 == depth_violation(props[i].1)->0 by {
            if !errors_of(front).contains(e) {
                assert(props[last].0@ != props[i].0@);
            }
        }
    } else {
        let found = (props[i].0@, depth_violation(props[i].1)->0, violation_message(depth_violation(props[i].1)->0));
        assert(errors_of(props).last() == found);
        assert forall|e: ErrorView| #[trigger] errors_of(props).contains(e) && e.0 == props[i].0@ implies e.1 == depth_violation(props[i].1)->0 by {
            if errors_of(front).contains(e) {
                lemma_findings_name_properties(front, e);
                let j = choose|j: int| 0 <= j < front.len() && (#[trigger] front[j]).0@ == e.0 && depth_violation(front[j].1) == Some(e.1);
                assert(props[j] == front[j]);
            }
        }
    }
}

/// A record with a property whose value is a mapping fails validation, with a
/// finding for that property and no sequence position.
pub proof fn lemma_mapping_reported(d: &YamlData, i: int)
    requires
        d.wf(),
        0 <= i < d.spec_properties().len(),
        is_mapping(d.spec_properties()[i].1),
    ensures
        errors_of(d.spec_properties()).len() > 0,
        errors_of(d.spec_properties()).contains(
            (d.spec_properties()[i].0@, None, violation_message(None)),
        ),
{
    lemma_finding_for(d.spec_properties(), i);
}

/// A record with a property whose value is a sequence with its first mapping
/// element at `j` fails validation with a finding for that property at `j`,
/// and with no finding for that property at any other position.
pub proof fn lemma_sequence_mapping_reported(d: &YamlData, i: int, j: usize)
    requires
        d.wf(),
        0 <= i < d.spec_properties().len(),
        !is_mapping(d.spec_properties()[i].1),
        is_first_mapping(sequence_items(d.spec_properties()[i].1), j as int),
    ensures
        errors_of(d.spec_properties()).contains(
            (d.spec_properties()[i].0@, Some(j), violation_message(Some(j))),
        ),
        forall|e: ErrorView|
            #[trigger] errors_of(d.spec_properties()).contains(e) && e.0 == d.spec_properties()[i].0@
                ==> e.1 == Some(j),
{
    lemma_first_mapping_violation(d.spec_properties()[i].1, j);
    assert(depth_violation(d.spec_properties()[i].1) == Some(Some(j)));
    lemma_finding_for(d.spec_properties(), i);
}

/// There is one finding per invalid property.
pub proof fn lemma_one_finding_per_invalid_property(props: Seq<(String, Value)>)
    ensures
        errors_of(props).len() == invalid_properties(props).len(),
    decreases props.len(),
{
    if props.len() > 0 {
        let front = props.drop_last();
        lemma_one_finding_per_invalid_property(front);
        reveal(Seq::filter);
        let pred = |p: (String, Value)| depth_violation(p.1) is Some;
        assert(invalid_properties(props) == props.filter(pred));
        assert(invalid_properties(front) == front.filter(pred));
        if pred(props.last()) {
            assert(props.filter(pred) == front.filter(pred).push(props.last()));
        } else {
            assert(props.filter(pred) == front.filter(pred));
        }
    }
}

/// Decoding a list of N elements of which M fail keeps N - M values.
pub proof fn lemma_decoded_len<T>(outcomes: Seq<Option<T>>)
    ensures
        decoded(outcomes).len() == outcomes.len() - outcomes.filter(|o: Option<T>| o is None).len(),
    decreases outcomes.len(),
{
    if outcomes.len() > 0 {
        let front = outcomes.drop_last();
        lemma_decoded_len(front);
        reveal(Seq::filter);
        let pred = |o: Option<T>| o is None;
        if pred(outcomes.last()) {
            assert(outcomes.filter(pred) == front.filter(pred).push(outcomes.last()));
            assert(decoded(outcomes) == decoded(front));
        } else {
            assert(outcomes.filter(pred) == front.filter(pred));
            assert(decoded(outcomes).len() == decoded(front).len() + 1);
        }
    }
}

/// `pos` gives, for each decoded value, the increasing position of the
/// element it came from.
pub open spec fn pos_witness<T>(outcomes: Seq<Option<T>>, pos: Seq<int>) -> bool {
    &&& pos.len() == decoded(outcomes).len()
    &&& forall|k: int|
        0 <= k < pos.len() ==> 0 <= #[trigger] pos[k] < outcomes.len() && outcomes[pos[k]] == Some(
            decoded(outcomes)[k],
        )
    &&& forall|k1: int, k2: int| 0 <= k1 < k2 < pos.len() ==> pos[k1] < pos[k2]
}

/// The decoded values keep the relative order of the elements they came from:
/// the k-th value comes from the element at `pos[k]`, and positions increase.
pub proof fn lemma_decoded_order<T>(outcomes: Seq<Option<T>>)
    ensures
        exists|pos: Seq<int>| pos_witness(outcomes, pos),
    decreases outcomes.len(),
{
    if outcomes.len() == 0 {
        let pos = Seq::<int>::empty();
        assert(decoded(outcomes).len() == 0);
        assert(pos_witness(outcomes, pos));
    } else {
        let front = outcomes.drop_last();
        lemma_decoded_order(front);
        let pos = choose|pos: Seq<int>| pos_witness(front, pos);
        let last = outcomes.len() - 1;
        assert(decoded(front).len() <= front.len()) by {
            lemma_decoded_len(front);
        }
        if outcomes.last() is Some {
            let p2 = pos.push(last);
            assert(decoded(outcomes) == decoded(front) + seq![outcomes.last()->0]);
            assert forall|k: int| 0 <= k < p2.len() implies 0 <= #[trigger] p2[k] < outcomes.len()
                && outcomes[p2[k]] == Some(decoded(outcomes)[k]) by {
                if k < pos.len() {
                    assert(outcomes[pos[k]] == front[pos[k]]);
                }
            }
            assert(pos_witness(outcomes, p2));
        } else {
            assert(decoded(outcomes) == decoded(front));
            assert forall|k: int| 0 <= k < pos.len() implies 0 <= #[trigger] pos[k] < outcomes.len()
                && outcomes[pos[k]] == Some(decoded(outcomes)[k]) by {
                assert(outcomes[pos[k]] == front[pos[k]]);
            }
            assert(pos_witness(outcomes, pos));
        }
    }
}

} // verus!
