use vstd::prelude::*;

verus! {

/// No two entries share a name.
pub open spec fn keys_unique<V>(entries: Seq<(String, V)>) -> bool {
    forall|i: int, j: int| 0 <= i < j < entries.len() ==> entries[i].0@ != entries[j].0@
}

/// The value stored under `key`, if any.
pub open spec fn lookup<V>(entries: Seq<(String, V)>, key: Seq<char>) -> Option<V> {
    if exists|i: int| 0 <= i < entries.len() && (#[trigger] entries[i]).0@ == key {
        let i = choose|i: int| 0 <= i < entries.len() && (#[trigger] entries[i]).0@ == key;
        Some(entries[i].1)
    } else {
        None
    }
}

/// With unique names, the entry at `i` is the one that `lookup` finds.
pub proof fn lemma_lookup_at<V>(entries: Seq<(String, V)>, i: int)
    requires
        keys_unique(entries),
        0 <= i < entries.len(),
    ensures
        lookup(entries, entries[i].0@) == Some(entries[i].1),
{
    let key = entries[i].0@;
    assert(exists|c: int| 0 <= c < entries.len() && (#[trigger] entries[c]).0@ == key);
    let c = choose|c: int| 0 <= c < entries.len() && (#[trigger] entries[c]).0@ == key;
    if c < i {
        assert(entries[c].0@ != entries[i].0@);
    } else if c > i {
        assert(entries[i].0@ != entries[c].0@);
    }
}

/// Where the entry named `key` stands.
pub fn position<V>(entries: &Vec<(String, V)>, key: &str) -> (r: Option<usize>)
    requires
        keys_unique(entries@),
    ensures
        match r {
            Some(i) => i < entries@.len() && entries@[i as int].0@ == key@ && lookup(
                entries@,
                key@,
            ) == Some(entries@[i as int].1),
            None => lookup(entries@, key@) is None,
        },
{
    let wanted = String::from_str(key);
    let mut i: usize = 0;
    while i < entries.len()
        invariant
            keys_unique(entries@),
            wanted@ == key@,
            0 <= i <= entries.len(),
            forall|j: int| 0 <= j < i ==> (#[trigger] entries@[j]).0@ != key@,
        decreases entries.len() - i,
    {
        if entries[i].0 == wanted {
            proof {
                lemma_lookup_at(entries@, i as int);
            }
            return Some(i);
        }
        i = i + 1;
    }
    None
}

/// Stores `value` under `key`: in place of the value of an entry of that name,
/// or as a new entry at the end. Other names keep their values.
pub fn upsert<V>(entries: &mut Vec<(String, V)>, key: String, value: V)
    requires
        keys_unique(old(entries)@),
    ensures
        keys_unique(final(entries)@),
        lookup(final(entries)@, key@) == Some(value),
        forall|k: Seq<char>| k != key@ ==> lookup(final(entries)@, k) == lookup(old(entries)@, k),
        lookup(old(entries)@, key@) is None ==> final(entries)@ == old(entries)@.push((key, value)),
        lookup(old(entries)@, key@) is Some ==> exists|i: int|
            0 <= i < old(entries)@.len() && (#[trigger] old(entries)@[i]).0@ == key@
                && final(entries)@ == old(entries)@.update(i, (key, value)),
{
    let ghost before = entries@;
    let ghost pair = (key, value);
    let found = position(entries, key.as_str());
    let ghost at: int;
    match found {
        Some(i) => {
            entries.set(i, (key, value));
            proof {
                at = i as int;
                assert(entries@ == before.update(at, pair));
            }
        },
        None => {
            proof {
                at = before.len() as int;
                assert forall|j: int| 0 <= j < before.len() implies (#[trigger] before[j]).0@ != key@ by {
                    if before[j].0@ == key@ {
                        assert(lookup(before, key@) is Some);
                    }
                }
            }
            entries.push((key, value));
        },
    }
    proof {
        let after = entries@;
        assert(keys_unique(after));
        lemma_lookup_at(after, at);
        assert forall|k: Seq<char>| k != key@ implies lookup(after, k) == lookup(before, k) by {
            if exists|j: int| 0 <= j < before.len() && (#[trigger] before[j]).0@ == k {
                let j = choose|j: int| 0 <= j < before.len() && (#[trigger] before[j]).0@ == k;
                assert(after[j].0@ == k);
            }
            if exists|j: int| 0 <= j < after.len() && (#[trigger] after[j]).0@ == k {
                let j = choose|j: int| 0 <= j < after.len() && (#[trigger] after[j]).0@ == k;
                assert(before[j].0@ == k);
            }
        }
    }
}

} // verus!
