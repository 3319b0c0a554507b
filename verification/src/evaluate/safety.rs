//! Why the evaluator never meets an environment that it released.

use vstd::prelude::*;
use crate::environment::{
    alive, bound, extended, lemma_store_position, lookup, store_value, EnvironmentView, Heap,
};
use crate::evaluate::garbage::{
    collected, handles_in, handles_in_entries, handles_in_store, handles_of,
    law_collection_keeps_reachable, successors,
};
use crate::ast::{InfixOperatorKind, PrefixOperatorKind};
use crate::evaluate::error::{builtin_error, ErrorView};
use crate::evaluate::semantics::{index_result, infix_result, prefix_result};
use crate::object::builtin::{builtin_result, BuiltinFunction};
use crate::object::{hash_insert, hash_key_of, hash_lookup, key_position, HashKeyView, Value};

verus! {

/// Whether every function inside a value refers to an environment that is
/// still there.
pub open spec fn value_sound(value: Value, heap: Heap) -> bool
    decreases value,
{
    match value {
        Value::Function(function) => alive(heap, function.environment),
        Value::Return(inner) => value_sound(*inner, heap),
        Value::Array(items) => forall|i: int|
            0 <= i < items.len() ==> value_sound(#[trigger] items[i], heap),
        Value::HashMap(pairs) => forall|i: int|
            0 <= i < pairs.len() ==> value_sound((#[trigger] pairs[i]).1, heap),
        Value::Closure(closure) => forall|i: int|
            0 <= i < closure.free.len() ==> value_sound(#[trigger] closure.free[i], heap),
        _ => true,
    }
}

/// Whether every value of a list is sound.
pub open spec fn values_sound(values: Seq<Value>, heap: Heap) -> bool {
    forall|i: int| 0 <= i < values.len() ==> value_sound(#[trigger] values[i], heap)
}

/// Whether every value of the entries of a hash is sound.
pub open spec fn entries_sound(pairs: Seq<(HashKeyView, Value)>, heap: Heap) -> bool {
    forall|i: int| 0 <= i < pairs.len() ==> value_sound((#[trigger] pairs[i]).1, heap)
}

/// Whether every value that is bound is sound.
pub open spec fn store_sound(store: Seq<(Seq<char>, Value)>, heap: Heap) -> bool {
    forall|i: int| 0 <= i < store.len() ==> value_sound((#[trigger] store[i]).1, heap)
}

/// Whether every environment of the heap leads only to environments that
/// are still there: the environment around it is, and its values are sound.
pub open spec fn heap_sound(heap: Heap) -> bool {
    forall|e: int|
        0 <= e < heap.len() ==> ((#[trigger] heap[e]) matches Some(node) ==> (
        node.outer matches Some(outer) ==> alive(heap, outer)) && store_sound(node.store, heap))
}

/// Whether every environment of `before` is still there in `after`.
pub open spec fn grows(before: Heap, after: Heap) -> bool {
    forall|e: nat| alive(before, e) ==> alive(after, e)
}

/// Whether all of the environments are still there.
pub open spec fn all_alive(handles: Seq<nat>, heap: Heap) -> bool {
    forall|k: int| 0 <= k < handles.len() ==> alive(heap, #[trigger] handles[k])
}

/// A sound value stays sound while no environment goes.
pub proof fn lemma_value_sound_grows(value: Value, before: Heap, after: Heap)
    requires
        value_sound(value, before),
        grows(before, after),
    ensures
        value_sound(value, after),
    decreases value,
{
    match value {
        Value::Return(inner) => {
            lemma_value_sound_grows(*inner, before, after);
        },
        Value::Array(items) => {
            assert forall|i: int| 0 <= i < items.len() implies value_sound(
                #[trigger] items[i],
                after,
            ) by {
                lemma_value_sound_grows(items[i], before, after);
            }
        },
        Value::HashMap(pairs) => {
            assert forall|i: int| 0 <= i < pairs.len() implies value_sound(
                (#[trigger] pairs[i]).1,
                after,
            ) by {
                lemma_value_sound_grows(pairs[i].1, before, after);
            }
        },
        Value::Closure(closure) => {
            assert forall|i: int| 0 <= i < closure.free.len() implies value_sound(
                #[trigger] closure.free[i],
                after,
            ) by {
                lemma_value_sound_grows(closure.free[i], before, after);
            }
        },
        _ => {},
    }
}

/// Sound values stay sound while no environment goes.
pub proof fn lemma_values_sound_grow(values: Seq<Value>, before: Heap, after: Heap)
    requires
        values_sound(values, before),
        grows(before, after),
    ensures
        values_sound(values, after),
{
    assert forall|i: int| 0 <= i < values.len() implies value_sound(
        #[trigger] values[i],
        after,
    ) by {
        lemma_value_sound_grows(values[i], before, after);
    }
}

/// Sound entries stay sound while no environment goes.
pub proof fn lemma_entries_sound_grow(
    pairs: Seq<(HashKeyView, Value)>,
    before: Heap,
    after: Heap,
)
    requires
        entries_sound(pairs, before),
        grows(before, after),
    ensures
        entries_sound(pairs, after),
{
    assert forall|i: int| 0 <= i < pairs.len() implies value_sound(
        (#[trigger] pairs[i]).1,
        after,
    ) by {
        lemma_value_sound_grows(pairs[i].1, before, after);
    }
}

/// A sound heap stays sound, environment by environment, while no
/// environment goes.
proof fn lemma_store_sound_grows(store: Seq<(Seq<char>, Value)>, before: Heap, after: Heap)
    requires
        store_sound(store, before),
        grows(before, after),
    ensures
        store_sound(store, after),
{
    assert forall|i: int| 0 <= i < store.len() implies value_sound(
        (#[trigger] store[i]).1,
        after,
    ) by {
        lemma_value_sound_grows(store[i].1, before, after);
    }
}

/// What a name means in a sound heap is sound.
pub proof fn lemma_lookup_sound(heap: Heap, environment: nat, name: Seq<char>)
    requires
        heap_sound(heap),
    ensures
        lookup(heap, environment, name) matches Some(value) ==> value_sound(value, heap),
    decreases environment,
{
    if alive(heap, environment) {
        let node = heap[environment as int]->0;
        lemma_store_position(node.store, name, 0);
        match store_value(node.store, name) {
            Some(value) => {},
            None => {
                match node.outer {
                    Some(outer) => {
                        if outer < environment {
                            lemma_lookup_sound(heap, outer, name);
                        }
                    },
                    None => {},
                }
            },
        }
    }
}

/// Binding a sound value keeps a sound heap sound, and no environment goes.
pub proof fn lemma_bound_sound(heap: Heap, environment: nat, name: Seq<char>, value: Value)
    requires
        heap_sound(heap),
        value_sound(value, heap),
    ensures
        heap_sound(bound(heap, environment, name, value)),
        grows(heap, bound(heap, environment, name, value)),
        grows(bound(heap, environment, name, value), heap),
        bound(heap, environment, name, value).len() == heap.len(),
{
    let after = bound(heap, environment, name, value);
    assert forall|e: int| 0 <= e < after.len() implies ((#[trigger] after[e]) matches Some(node)
        ==> (node.outer matches Some(outer) ==> alive(after, outer)) && store_sound(
        node.store,
        after,
    )) by {
        if after[e] is Some {
            let old_node = heap[e]->0;
            let node = after[e]->0;
            assert(heap[e] is Some);
            lemma_store_sound_grows(old_node.store, heap, after);
            if e == environment {
                lemma_store_position(old_node.store, name, 0);
                lemma_value_sound_grows(value, heap, after);
                assert forall|i: int| 0 <= i < node.store.len() implies value_sound(
                    (#[trigger] node.store[i]).1,
                    after,
                ) by {
                    if i < old_node.store.len() && node.store[i] == old_node.store[i] {
                        assert(value_sound(old_node.store[i].1, after));
                    }
                }
            }
        }
    }
}

/// A new environment inside one that is still there keeps a sound heap
/// sound, and no environment goes.
pub proof fn lemma_extended_sound(heap: Heap, outer: nat)
    requires
        heap_sound(heap),
        alive(heap, outer),
    ensures
        heap_sound(extended(heap, outer)),
        grows(heap, extended(heap, outer)),
        alive(extended(heap, outer), heap.len()),
{
    let after = extended(heap, outer);
    assert forall|e: int| 0 <= e < after.len() implies ((#[trigger] after[e]) matches Some(node)
        ==> (node.outer matches Some(around) ==> alive(after, around)) && store_sound(
        node.store,
        after,
    )) by {
        if e < heap.len() {
            assert(after[e] == heap[e]);
            if heap[e] is Some {
                lemma_store_sound_grows(heap[e]->0.store, heap, after);
            }
        }
    }
}

/// The value of a hash under a key is sound if the values of the hash are.
pub proof fn lemma_hash_lookup_sound(pairs: Seq<(HashKeyView, Value)>, key: HashKeyView, heap: Heap)
    requires
        entries_sound(pairs, heap),
    ensures
        value_sound(hash_lookup(pairs, key), heap),
{
    lemma_key_position(pairs, key, 0);
}

/// Where a key is found, there is an entry.
pub proof fn lemma_key_position(pairs: Seq<(HashKeyView, Value)>, key: HashKeyView, from: int)
    requires
        0 <= from,
    ensures
        key_position(pairs, key, from) matches Some(i) ==> from <= i < pairs.len(),
    decreases pairs.len() - from,
{
    if from < pairs.len() && pairs[from].0 != key {
        lemma_key_position(pairs, key, from + 1);
    }
}

/// A hash with one more sound value has sound values.
pub proof fn lemma_hash_insert_sound(
    pairs: Seq<(HashKeyView, Value)>,
    key: HashKeyView,
    value: Value,
    heap: Heap,
)
    requires
        entries_sound(pairs, heap),
        value_sound(value, heap),
    ensures
        entries_sound(hash_insert(pairs, key, value), heap),
{
    lemma_key_position(pairs, key, 0);
    let after = hash_insert(pairs, key, value);
    assert forall|i: int| 0 <= i < after.len() implies value_sound(
        (#[trigger] after[i]).1,
        heap,
    ) by {
        if i < pairs.len() && after[i] == pairs[i] {
            assert(value_sound(pairs[i].1, heap));
        }
    }
}

/// Environments of two lists are all there just if those of either list
/// are.
proof fn lemma_all_alive_concat(first: Seq<nat>, second: Seq<nat>, heap: Heap)
    ensures
        all_alive(first + second, heap) <==> all_alive(first, heap) && all_alive(second, heap),
{
    let both = first + second;
    if all_alive(both, heap) {
        assert forall|k: int| 0 <= k < first.len() implies alive(heap, #[trigger] first[k]) by {
            assert(both[k] == first[k]);
        }
        assert forall|k: int| 0 <= k < second.len() implies alive(heap, #[trigger] second[k]) by {
            assert(both[first.len() + k] == second[k]);
        }
    }
    if all_alive(first, heap) && all_alive(second, heap) {
        assert forall|k: int| 0 <= k < both.len() implies alive(heap, #[trigger] both[k]) by {
            if k < first.len() {
                assert(both[k] == first[k]);
            } else {
                assert(both[k] == second[k - first.len()]);
            }
        }
    }
}

/// A value is sound just if the environments that it refers to are all
/// there.
pub proof fn lemma_sound_by_handles(value: Value, heap: Heap)
    ensures
        value_sound(value, heap) <==> all_alive(handles_of(value), heap),
    decreases value, 0int,
{
    match value {
        Value::Function(function) => {
            assert(handles_of(value)[0] == function.environment);
        },
        Value::Return(inner) => {
            lemma_sound_by_handles(*inner, heap);
        },
        Value::Array(items) => {
            lemma_values_sound_by_handles(items, items.len() as int, heap);
        },
        Value::HashMap(pairs) => {
            lemma_entries_sound_by_handles(pairs, pairs.len() as int, heap);
        },
        Value::Closure(closure) => {
            lemma_values_sound_by_handles(closure.free, closure.free.len() as int, heap);
        },
        _ => {},
    }
}

proof fn lemma_values_sound_by_handles(items: Seq<Value>, upto: int, heap: Heap)
    requires
        0 <= upto <= items.len(),
    ensures
        (forall|i: int| 0 <= i < upto ==> value_sound(#[trigger] items[i], heap)) <==> all_alive(
            handles_in(items, upto),
            heap,
        ),
    decreases items, upto,
{
    if upto > 0 {
        lemma_values_sound_by_handles(items, upto - 1, heap);
        lemma_sound_by_handles(items[upto - 1], heap);
        lemma_all_alive_concat(handles_in(items, upto - 1), handles_of(items[upto - 1]), heap);
        if all_alive(handles_in(items, upto), heap) {
            assert forall|i: int| 0 <= i < upto implies value_sound(#[trigger] items[i], heap) by {
                if i == upto - 1 {
                }
            }
        }
    }
}

proof fn lemma_entries_sound_by_handles(pairs: Seq<(HashKeyView, Value)>, upto: int, heap: Heap)
    requires
        0 <= upto <= pairs.len(),
    ensures
        (forall|i: int| 0 <= i < upto ==> value_sound((#[trigger] pairs[i]).1, heap))
            <==> all_alive(handles_in_entries(pairs, upto), heap),
    decreases pairs, upto,
{
    if upto > 0 {
        lemma_entries_sound_by_handles(pairs, upto - 1, heap);
        lemma_sound_by_handles(pairs[upto - 1].1, heap);
        lemma_all_alive_concat(
            handles_in_entries(pairs, upto - 1),
            handles_of(pairs[upto - 1].1),
            heap,
        );
        if all_alive(handles_in_entries(pairs, upto), heap) {
            assert forall|i: int| 0 <= i < upto implies value_sound(
                (#[trigger] pairs[i]).1,
                heap,
            ) by {
                if i == upto - 1 {
                }
            }
        }
    }
}

proof fn lemma_store_sound_by_handles(store: Seq<(Seq<char>, Value)>, upto: int, heap: Heap)
    requires
        0 <= upto <= store.len(),
    ensures
        (forall|i: int| 0 <= i < upto ==> value_sound((#[trigger] store[i]).1, heap))
            <==> all_alive(handles_in_store(store, upto), heap),
    decreases upto,
{
    if upto > 0 {
        lemma_store_sound_by_handles(store, upto - 1, heap);
        lemma_sound_by_handles(store[upto - 1].1, heap);
        lemma_all_alive_concat(
            handles_in_store(store, upto - 1),
            handles_of(store[upto - 1].1),
            heap,
        );
        if all_alive(handles_in_store(store, upto), heap) {
            assert forall|i: int| 0 <= i < upto implies value_sound(
                (#[trigger] store[i]).1,
                heap,
            ) by {
                if i == upto - 1 {
                }
            }
        }
    }
}

/// An environment leads only to environments that are there just if the
/// environment around it is there and its values are sound.
proof fn lemma_successors_alive(node: EnvironmentView, heap: Heap)
    ensures
        all_alive(successors(node), heap) <==> (node.outer matches Some(outer) ==> alive(
            heap,
            outer,
        )) && store_sound(node.store, heap),
{
    let around = match node.outer {
        Some(outer) => seq![outer],
        None => Seq::<nat>::empty(),
    };
    let inside = handles_in_store(node.store, node.store.len() as int);
    lemma_all_alive_concat(around, inside, heap);
    lemma_store_sound_by_handles(node.store, node.store.len() as int, heap);
    match node.outer {
        Some(outer) => {
            assert(around[0] == outer);
        },
        None => {},
    }
}

/// Collection keeps a sound heap sound, and keeps the outermost
/// environment: no environment that is kept leads to one that was released.
pub proof fn law_collection_is_safe(heap: Heap, root: nat)
    requires
        heap_sound(heap),
        alive(heap, root),
    ensures
        heap_sound(collected(heap, root)),
        alive(collected(heap, root), root),
{
    law_collection_keeps_reachable(heap, root);
    let after = collected(heap, root);
    assert forall|e: int| 0 <= e < after.len() implies ((#[trigger] after[e]) matches Some(node)
        ==> (node.outer matches Some(outer) ==> alive(after, outer)) && store_sound(
        node.store,
        after,
    )) by {
        if after[e] is Some {
            let node = after[e]->0;
            assert(after[e] == heap[e]);
            lemma_successors_alive(node, heap);
            assert forall|k: int| 0 <= k < successors(node).len() implies alive(
                after,
                #[trigger] successors(node)[k],
            ) by {
                assert(alive(heap, successors(heap[e]->0)[k]));
            }
            lemma_successors_alive(node, after);
        }
    }
}

/// What every evaluation keeps: the heap stays sound, no environment goes,
/// the value is sound, and no released environment was met.
pub open spec fn safely(before: Heap, after: Heap, result: Result<Value, ErrorView>) -> bool {
    &&& heap_sound(after)
    &&& grows(before, after)
    &&& (result matches Ok(value) ==> value_sound(value, after))
    &&& result != Err::<Value, ErrorView>(ErrorView::UnknownEnvironment)
}

/// What every evaluation of a list keeps.
pub open spec fn values_safely(
    before: Heap,
    after: Heap,
    result: Result<Seq<Value>, ErrorView>,
) -> bool {
    &&& heap_sound(after)
    &&& grows(before, after)
    &&& (result matches Ok(values) ==> values_sound(values, after))
    &&& result != Err::<Seq<Value>, ErrorView>(ErrorView::UnknownEnvironment)
}

/// What every evaluation of the entries of a hash keeps.
pub open spec fn entries_safely(
    before: Heap,
    after: Heap,
    result: Result<Seq<(HashKeyView, Value)>, ErrorView>,
) -> bool {
    &&& heap_sound(after)
    &&& grows(before, after)
    &&& (result matches Ok(pairs) ==> entries_sound(pairs, after))
    &&& result != Err::<Seq<(HashKeyView, Value)>, ErrorView>(ErrorView::UnknownEnvironment)
}

/// Operators yield integers, booleans and strings, which refer to no
/// environment, and never meet an environment.
pub proof fn lemma_operators_sound(
    prefix: PrefixOperatorKind,
    infix: InfixOperatorKind,
    left: Value,
    right: Value,
    heap: Heap,
)
    ensures
        prefix_result(prefix, right) matches Ok(value) ==> value_sound(value, heap),
        prefix_result(prefix, right) != Err::<Value, ErrorView>(ErrorView::UnknownEnvironment),
        infix_result(infix, left, right) matches Ok(value) ==> value_sound(value, heap),
        infix_result(infix, left, right) != Err::<Value, ErrorView>(ErrorView::UnknownEnvironment),
{
}

/// What an index access yields is part of the container.
pub proof fn lemma_index_sound(container: Value, index: Value, heap: Heap)
    requires
        value_sound(container, heap),
    ensures
        index_result(container, index) matches Ok(value) ==> value_sound(value, heap),
        index_result(container, index) != Err::<Value, ErrorView>(ErrorView::UnknownEnvironment),
{
    match container {
        Value::HashMap(pairs) => {
            match hash_key_of(index) {
                Ok(key) => {
                    lemma_hash_lookup_sound(pairs, key, heap);
                },
                Err(_) => {},
            }
        },
        _ => {},
    }
}

/// What a built-in function yields is made of parts of its arguments.
pub proof fn lemma_builtin_sound(function: BuiltinFunction, args: Seq<Value>, heap: Heap)
    requires
        values_sound(args, heap),
    ensures
        builtin_result(function, args) matches Ok(value) ==> value_sound(value, heap),
        (match builtin_result(function, args) {
            Ok(value) => Ok(value),
            Err(error) => Err(builtin_error(error)),
        }) != Err::<Value, ErrorView>(ErrorView::UnknownEnvironment),
{
    if args.len() >= 1 {
        assert(value_sound(args[0], heap));
        match args[0] {
            Value::Array(items) => {
                if items.len() > 0 {
                    assert(value_sound(items[0], heap));
                    assert(value_sound(items[items.len() - 1], heap));
                    let rest = items.subrange(1, items.len() as int);
                    assert forall|i: int| 0 <= i < rest.len() implies value_sound(
                        #[trigger] rest[i],
                        heap,
                    ) by {
                        assert(rest[i] == items[i + 1]);
                    }
                }
                if args.len() == 2 {
                    assert(value_sound(args[1], heap));
                    let longer = items.push(args[1]);
                    assert forall|i: int| 0 <= i < longer.len() implies value_sound(
                        #[trigger] longer[i],
                        heap,
                    ) by {
                        if i < items.len() {
                            assert(longer[i] == items[i]);
                        }
                    }
                }
            },
            _ => {},
        }
    }
}

/// No environment goes on the way from `first` to `third` if none goes on
/// either half of the way.
pub proof fn lemma_grows_on(first: Heap, second: Heap, third: Heap)
    requires
        grows(first, second),
        grows(second, third),
    ensures
        grows(first, third),
{
}

} // verus!
