//! What a hash holds after its entries were put into it one after the
//! other: the last value of each key, under hashable keys only.

use vstd::prelude::*;
use crate::object::{hash_insert, hash_key_of, hash_lookup, key_position, DataType, HashKeyView, Value};

verus! {

/// Where a key is found, it stands, and nowhere before; where none is
/// found, there is none.
pub proof fn lemma_key_position(pairs: Seq<(HashKeyView, Value)>, key: HashKeyView, from: int)
    requires
        0 <= from,
    ensures
        key_position(pairs, key, from) matches Some(i) ==> from <= i < pairs.len() && pairs[i].0
            == key && forall|j: int| from <= j < i ==> (#[trigger] pairs[j]).0 != key,
        key_position(pairs, key, from) is None ==> forall|j: int|
            from <= j < pairs.len() ==> (#[trigger] pairs[j]).0 != key,
    decreases pairs.len() - from,
{
    if from < pairs.len() && pairs[from].0 != key {
        lemma_key_position(pairs, key, from + 1);
    }
}

/// The first entry with a key is where the key is found.
pub proof fn lemma_key_position_is(
    pairs: Seq<(HashKeyView, Value)>,
    key: HashKeyView,
    from: int,
    at: int,
)
    requires
        0 <= from <= at <= pairs.len(),
        forall|j: int| from <= j < at ==> (#[trigger] pairs[j]).0 != key,
        at < pairs.len() ==> pairs[at].0 == key,
    ensures
        key_position(pairs, key, from) == (if at < pairs.len() {
            Some(at)
        } else {
            None
        }),
    decreases at - from,
{
    if from < at {
        assert(pairs[from].0 != key);
        lemma_key_position_is(pairs, key, from + 1, at);
    }
}

/// After `value` was put under `key`, the hash holds `value` under `key`
/// and what it held under every other key; it has the keys it had and
/// `key`, and at most one entry more.
pub proof fn law_insert_then_lookup(
    pairs: Seq<(HashKeyView, Value)>,
    key: HashKeyView,
    value: Value,
    other: HashKeyView,
)
    ensures
        hash_lookup(hash_insert(pairs, key, value), other) == (if other == key {
            value
        } else {
            hash_lookup(pairs, other)
        }),
        key_position(hash_insert(pairs, key, value), other, 0) is Some <==> other == key
            || key_position(pairs, other, 0) is Some,
        pairs.len() <= hash_insert(pairs, key, value).len() <= pairs.len() + 1,
{
    let after = hash_insert(pairs, key, value);
    lemma_key_position(pairs, key, 0);
    lemma_key_position(pairs, other, 0);
    let at = match key_position(pairs, other, 0) {
        Some(i) => i,
        None => if other == key {
            pairs.len() as int
        } else {
            after.len() as int
        },
    };
    assert forall|j: int| 0 <= j < at implies (#[trigger] after[j]).0 != other by {
        if j < pairs.len() {
            assert(after[j].0 == pairs[j].0);
            assert(pairs[j].0 != other);
        }
    }
    if at < after.len() && at < pairs.len() {
        assert(after[at].0 == pairs[at].0);
    }
    lemma_key_position_is(after, other, 0, at);
}

/// Whether a hash has no key twice.
pub open spec fn distinct_keys(pairs: Seq<(HashKeyView, Value)>) -> bool {
    forall|i: int, j: int|
        0 <= i < j < pairs.len() ==> (#[trigger] pairs[i]).0 != (#[trigger] pairs[j]).0
}

/// Putting a value under a key into a hash that has no key twice gives a
/// hash that has no key twice.
pub proof fn law_insert_keeps_distinct(
    pairs: Seq<(HashKeyView, Value)>,
    key: HashKeyView,
    value: Value,
)
    requires
        distinct_keys(pairs),
    ensures
        distinct_keys(hash_insert(pairs, key, value)),
{
    let after = hash_insert(pairs, key, value);
    lemma_key_position(pairs, key, 0);
    assert forall|i: int, j: int| 0 <= i < j < after.len() implies (#[trigger] after[i]).0 != (
    #[trigger] after[j]).0 by {
        if j < pairs.len() {
            assert(after[i].0 == pairs[i].0);
            assert(after[j].0 == pairs[j].0);
        } else {
            assert(after[i].0 == pairs[i].0);
            assert(pairs[i].0 != key);
        }
    }
}

/// Whether `p` is the place of a key among the keys and values that
/// alternate in `values` from `from` on.
pub open spec fn key_place(values: Seq<Value>, from: int, p: int) -> bool {
    0 <= from <= p && p + 1 < values.len() && (p - from) % 2 == 0
}

/// The hash of the keys and values that alternate in `values` from `from`
/// on, put one after the other into `done`; or the kind of the first key
/// that is not hashable.
pub open spec fn hash_from(values: Seq<Value>, from: int, done: Seq<(HashKeyView, Value)>)
    -> Result<Seq<(HashKeyView, Value)>, DataType>
    decreases values.len() - from,
{
    if from < 0 || from + 1 >= values.len() {
        Ok(done)
    } else {
        match hash_key_of(values[from]) {
            Err(kind) => Err(kind),
            Ok(key) => hash_from(values, from + 2, hash_insert(done, key, values[from + 1])),
        }
    }
}

/// Whether no key from `from` on is `key`.
pub open spec fn absent(values: Seq<Value>, from: int, key: HashKeyView) -> bool {
    forall|p: int| #[trigger]
        key_place(values, from, p) ==> hash_key_of(values[p]) != Ok::<HashKeyView, DataType>(key)
}

/// A key that is not hashable makes the construction fail.
pub proof fn law_unhashable_key_fails(
    values: Seq<Value>,
    from: int,
    done: Seq<(HashKeyView, Value)>,
    p: int,
)
    requires
        key_place(values, from, p),
        !(values[p] is Integer || values[p] is Boolean || values[p] is String),
    ensures
        hash_from(values, from, done) is Err,
    decreases values.len() - from,
{
    if p != from && hash_key_of(values[from]) is Ok {
        law_unhashable_key_fails(
            values,
            from + 2,
            hash_insert(done, hash_key_of(values[from])->Ok_0, values[from + 1]),
            p,
        );
    }
}

/// Where the construction fails, a key is not hashable: the error is the
/// kind of the first such key, whose place is returned.
pub proof fn law_failure_is_of_a_key(
    values: Seq<Value>,
    from: int,
    done: Seq<(HashKeyView, Value)>,
) -> (p: int)
    requires
        hash_from(values, from, done) is Err,
    ensures
        key_place(values, from, p),
        !(values[p] is Integer || values[p] is Boolean || values[p] is String),
        hash_from(values, from, done) == Err::<Seq<(HashKeyView, Value)>, DataType>(
            crate::object::type_of(values[p]),
        ),
        forall|q: int| #[trigger] key_place(values, from, q) && q < p ==> hash_key_of(values[q]) is Ok,
    decreases values.len() - from,
{
    match hash_key_of(values[from]) {
        Err(kind) => from,
        Ok(key) => {
            let p = law_failure_is_of_a_key(
                values,
                from + 2,
                hash_insert(done, key, values[from + 1]),
            );
            assert forall|q: int| #[trigger] key_place(values, from, q) && q < p implies hash_key_of(
                values[q],
            ) is Ok by {
                if q != from {
                    assert(key_place(values, from + 2, q));
                }
            }
            p
        },
    }
}

/// The later entry of a key wins: the hash holds, under the key at `p`,
/// the value behind it, where no later entry has the same key.
pub proof fn law_last_entry_wins(
    values: Seq<Value>,
    from: int,
    done: Seq<(HashKeyView, Value)>,
    p: int,
)
    requires
        hash_from(values, from, done) is Ok,
        key_place(values, from, p),
        hash_key_of(values[p]) is Ok ==> absent(values, p + 2, hash_key_of(values[p])->Ok_0),
    ensures
        hash_key_of(values[p]) is Ok,
        hash_lookup(hash_from(values, from, done)->Ok_0, hash_key_of(values[p])->Ok_0) == values[p
            + 1],
        key_position(hash_from(values, from, done)->Ok_0, hash_key_of(values[p])->Ok_0, 0) is Some,
    decreases values.len() - from,
{
    let key = hash_key_of(values[from])->Ok_0;
    let next = hash_insert(done, key, values[from + 1]);
    if p == from {
        law_insert_then_lookup(done, key, values[from + 1], key);
        law_other_keys_stay(values, from + 2, next, key);
    } else {
        law_last_entry_wins(values, from + 2, next, p);
    }
}

/// A key that no entry from `from` on has is in the hash if it was in
/// `done`, with the value that it had there.
pub proof fn law_other_keys_stay(
    values: Seq<Value>,
    from: int,
    done: Seq<(HashKeyView, Value)>,
    key: HashKeyView,
)
    requires
        hash_from(values, from, done) is Ok,
        absent(values, from, key),
    ensures
        hash_lookup(hash_from(values, from, done)->Ok_0, key) == hash_lookup(done, key),
        key_position(hash_from(values, from, done)->Ok_0, key, 0) is Some <==> key_position(
            done,
            key,
            0,
        ) is Some,
    decreases values.len() - from,
{
    if from < 0 || from + 1 >= values.len() {
    } else {
        let first = hash_key_of(values[from])->Ok_0;
        let next = hash_insert(done, first, values[from + 1]);
        assert(key_place(values, from, from));
        assert(first != key);
        law_insert_then_lookup(done, first, values[from + 1], key);
        assert forall|p: int| #[trigger] key_place(values, from + 2, p) implies hash_key_of(
            values[p],
        ) != Ok::<HashKeyView, DataType>(key) by {
            assert(key_place(values, from, p));
        }
        law_other_keys_stay(values, from + 2, next, key);
    }
}

/// The hash has no more entries than `done` had and there are keys from
/// `from` on.
pub proof fn law_hash_size(values: Seq<Value>, from: int, done: Seq<(HashKeyView, Value)>)
    requires
        0 <= from <= values.len(),
        hash_from(values, from, done) is Ok,
    ensures
        done.len() <= hash_from(values, from, done)->Ok_0.len() <= done.len() + (values.len()
            - from) / 2,
    decreases values.len() - from,
{
    if from + 1 < values.len() {
        let first = hash_key_of(values[from])->Ok_0;
        law_insert_then_lookup(done, first, values[from + 1], first);
        law_hash_size(values, from + 2, hash_insert(done, first, values[from + 1]));
    }
}

/// Keys and values behind others make the hash that they make alone.
pub proof fn lemma_hash_from_tail(
    head: Seq<Value>,
    tail: Seq<Value>,
    from: int,
    done: Seq<(HashKeyView, Value)>,
)
    requires
        0 <= from,
    ensures
        hash_from(head + tail, head.len() + from, done) == hash_from(tail, from, done),
    decreases tail.len() - from,
{
    let all = head + tail;
    if from + 1 < tail.len() {
        assert(all[head.len() + from] == tail[from]);
        assert(all[head.len() + from + 1] == tail[from + 1]);
        match hash_key_of(tail[from]) {
            Ok(key) => {
                lemma_hash_from_tail(head, tail, from + 2, hash_insert(done, key, tail[from + 1]));
            },
            Err(_) => {},
        }
    }
}

/// The hash of keys and values that are put into a hash that has no key
/// twice, such as the empty hash, has no key twice.
pub proof fn law_hash_has_no_key_twice(
    values: Seq<Value>,
    from: int,
    done: Seq<(HashKeyView, Value)>,
)
    requires
        distinct_keys(done),
        hash_from(values, from, done) is Ok,
    ensures
        distinct_keys(hash_from(values, from, done)->Ok_0),
    decreases values.len() - from,
{
    if from < 0 || from + 1 >= values.len() {
    } else {
        let key = hash_key_of(values[from])->Ok_0;
        law_insert_keeps_distinct(done, key, values[from + 1]);
        law_hash_has_no_key_twice(values, from + 2, hash_insert(done, key, values[from + 1]));
    }
}

} // verus!
