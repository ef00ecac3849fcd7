//! Lists of keyed entries, read as maps.
use vstd::prelude::*;

verus! {

/// No key occurs twice in a list of members.
pub open spec fn distinct_keys<V>(entries: Seq<(String, V)>) -> bool {
    forall|i: int, j: int|
        #![trigger entries[i], entries[j]]
        0 <= i < j < entries.len() ==> entries[i].0@ != entries[j].0@
}

/// `key` is that of some entry.
pub open spec fn has_key<V>(entries: Seq<(String, V)>, key: Seq<char>) -> bool {
    exists|i: int| 0 <= i < entries.len() && (#[trigger] entries[i]).0@ == key
}

/// The position of an entry with that key.
pub open spec fn key_index<V>(entries: Seq<(String, V)>, key: Seq<char>) -> int {
    choose|i: int| 0 <= i < entries.len() && (#[trigger] entries[i]).0@ == key
}

/// The keys of a list of entries are finitely many.
pub proof fn lemma_finite_keys<V>(entries: Seq<(String, V)>)
    ensures
        Set::new(|key: Seq<char>| has_key(entries, key)).finite(),
{
    let keys = entries.map_values(|entry: (String, V)| entry.0@);
    let all = Set::new(|key: Seq<char>| has_key(entries, key));
    assert forall|key: Seq<char>| all.contains(key) <==> keys.to_set().contains(key) by {
        if all.contains(key) {
            assert(keys[key_index(entries, key)] == key);
        }
        if keys.to_set().contains(key) {
            let i = choose|i: int| 0 <= i < keys.len() && keys[i] == key;
            assert(entries[i].0@ == key);
        }
    }
    assert(all =~= keys.to_set());
    vstd::seq_lib::seq_to_set_is_finite(keys);
}

/// Entries with the same distinct keys in the same order have their members at the same places.
pub proof fn lemma_same_members<V, W>(a: Seq<(String, V)>, b: Seq<(String, W)>)
    requires
        distinct_keys(a),
        a.len() == b.len(),
        forall|i: int| 0 <= i < a.len() ==> (#[trigger] a[i]).0@ == b[i].0@,
    ensures
        forall|k: Seq<char>| #[trigger] has_key(a, k) <==> has_key(b, k),
        forall|k: Seq<char>|
            has_key(a, k) ==> 0 <= #[trigger] key_index(a, k) < a.len() && key_index(a, k)
                == key_index(b, k),
{
    assert forall|k: Seq<char>| #[trigger] has_key(a, k) <==> has_key(b, k) by {
        if has_key(a, k) {
            let i = key_index(a, k);
            assert(b[i].0@ == k);
        }
        if has_key(b, k) {
            let i = key_index(b, k);
            assert(a[i].0@ == k);
        }
    }
    assert forall|k: Seq<char>| has_key(a, k) implies 0 <= #[trigger] key_index(a, k) < a.len()
        && key_index(a, k) == key_index(b, k) by {
        let i = key_index(a, k);
        assert(b[i].0@ == k);
        assert(has_key(b, k));
        let j = key_index(b, k);
        assert(a[j].0@ == k);
    }
}

/// Without the entry at `at`, the members are the same but for its key.
pub proof fn lemma_members_after_remove<V>(
    before: Seq<(String, V)>,
    after: Seq<(String, V)>,
    at: int,
)
    requires
        distinct_keys(before),
        0 <= at < before.len(),
        after == before.remove(at),
    ensures
        distinct_keys(after),
        forall|k: Seq<char>| #[trigger]
            has_key(after, k) <==> has_key(before, k) && k != before[at].0@,
        forall|k: Seq<char>|
            has_key(after, k) ==> 0 <= #[trigger] key_index(after, k) < after.len() && 0
                <= key_index(before, k) < before.len() && after[key_index(after, k)]
                == before[key_index(before, k)],
{
    assert forall|k: Seq<char>| #[trigger] has_key(after, k) implies has_key(before, k) && k
        != before[at].0@ by {
        let i = key_index(after, k);
        let j = if i < at { i } else { i + 1 };
        assert(before[j].0@ == k);
    }
    assert forall|k: Seq<char>| has_key(before, k) && k != before[at].0@ implies #[trigger] has_key(
        after,
        k,
    ) by {
        let j = key_index(before, k);
        let i = if j < at { j } else { j - 1 };
        assert(after[i].0@ == k);
    }
    assert forall|k: Seq<char>| has_key(after, k) implies 0 <= #[trigger] key_index(after, k)
        < after.len() && 0 <= key_index(before, k) < before.len() && after[key_index(after, k)]
        == before[key_index(before, k)] by {
        let i = key_index(after, k);
        let j = if i < at { i } else { i + 1 };
        assert(before[j].0@ == k);
        assert(has_key(before, k));
        assert(key_index(before, k) == j);
    }
}

/// Entries that differ only at `key` hold the same members but for `key`.
pub proof fn lemma_members_after_insert<V>(
    before: Seq<(String, V)>,
    after: Seq<(String, V)>,
    key: Seq<char>,
    value: V,
)
    requires
        distinct_keys(before),
        distinct_keys(after),
        exists|at: int|
            0 <= at < after.len() && before.len() <= after.len() <= before.len() + 1 && (after.len()
                > before.len() ==> at == before.len()) && (#[trigger] after[at]).0@ == key && after[at].1
                == value && (at < before.len() ==> before[at].0@ == key) && forall|j: int|
                0 <= j < before.len() && j != at ==> after[j] == #[trigger] before[j],
    ensures
        forall|k: Seq<char>| #[trigger] has_key(after, k) <==> has_key(before, k) || k == key,
        after[key_index(after, key)].1 == value,
        0 <= key_index(after, key) < after.len(),
        forall|k: Seq<char>|
            has_key(before, k) && k != key ==> 0 <= #[trigger] key_index(after, k) < after.len()
                && 0 <= key_index(before, k) < before.len() && after[key_index(after, k)]
                == before[key_index(before, k)],
{
    let at = choose|at: int|
        0 <= at < after.len() && before.len() <= after.len() <= before.len() + 1 && (after.len()
            > before.len() ==> at == before.len()) && (#[trigger] after[at]).0@ == key && after[at].1
            == value && (at < before.len() ==> before[at].0@ == key) && forall|j: int|
            0 <= j < before.len() && j != at ==> after[j] == #[trigger] before[j];
    assert(has_key(after, key));
    assert(key_index(after, key) == at);
    assert forall|k: Seq<char>| #[trigger] has_key(after, k) implies has_key(before, k) || k
        == key by {
        let i = key_index(after, k);
        if i != at {
            assert(before[i].0@ == k);
        }
    }
    assert forall|k: Seq<char>| has_key(before, k) || k == key implies #[trigger] has_key(
        after,
        k,
    ) by {
        if k != key {
            let i = key_index(before, k);
            assert(after[i] == before[i]);
        }
    }
    assert forall|k: Seq<char>| has_key(before, k) && k != key implies 0 <= #[trigger] key_index(
        after,
        k,
    ) < after.len() && 0 <= key_index(before, k) < before.len() && after[key_index(after, k)]
        == before[key_index(before, k)] by {
        let i = key_index(before, k);
        assert(after[i] == before[i]);
        assert(has_key(after, k));
        let j = key_index(after, k);
        assert(after[j].0@ == k);
        assert(i == j);
    }
}

} // verus!
