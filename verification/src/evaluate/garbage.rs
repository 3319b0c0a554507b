//! Which environments an evaluator still needs.

use vstd::prelude::*;
use crate::environment::{alive, EnvironmentView, Heap};
use crate::object::{HashKeyView, Value};

verus! {

/// The environments that a value refers to: that of a function, and those
/// of the values inside a returned value, an array, a hash or a closure.
pub open spec fn handles_of(value: Value) -> Seq<nat>
    decreases value, 0int,
{
    match value {
        Value::Function(function) => seq![function.environment],
        Value::Return(inner) => handles_of(*inner),
        Value::Array(items) => handles_in(items, items.len() as int),
        Value::HashMap(pairs) => handles_in_entries(pairs, pairs.len() as int),
        Value::Closure(closure) => handles_in(closure.free, closure.free.len() as int),
        _ => Seq::empty(),
    }
}

/// The environments that the first `upto` values refer to.
pub open spec fn handles_in(items: Seq<Value>, upto: int) -> Seq<nat>
    decreases items, upto,
{
    if upto <= 0 || upto > items.len() {
        Seq::empty()
    } else {
        handles_in(items, upto - 1) + handles_of(items[upto - 1])
    }
}

/// The environments that the values of the first `upto` entries of a hash
/// refer to.
pub open spec fn handles_in_entries(pairs: Seq<(HashKeyView, Value)>, upto: int) -> Seq<nat>
    decreases pairs, upto,
{
    if upto <= 0 || upto > pairs.len() {
        Seq::empty()
    } else {
        handles_in_entries(pairs, upto - 1) + handles_of(pairs[upto - 1].1)
    }
}

/// The environments that the values of the first `upto` bindings refer to.
pub open spec fn handles_in_store(store: Seq<(Seq<char>, Value)>, upto: int) -> Seq<nat>
    decreases upto,
{
    if upto <= 0 || upto > store.len() {
        Seq::empty()
    } else {
        handles_in_store(store, upto - 1) + handles_of(store[upto - 1].1)
    }
}

/// The environments that an environment leads to directly: the one around
/// it, and those that its values refer to.
pub open spec fn successors(node: EnvironmentView) -> Seq<nat> {
    (match node.outer {
        Some(outer) => seq![outer],
        None => Seq::empty(),
    }) + handles_in_store(node.store, node.store.len() as int)
}

/// No slot is marked.
pub open spec fn unmarked(count: nat) -> Seq<bool> {
    Seq::new(count, |i: int| false)
}

/// The marks after the pending environments, and all that they lead to,
/// were marked. The last pending environment is taken first. `budget` is
/// the number of environments that may still be marked; as many as the heap
/// has slots will do.
pub open spec fn marked(heap: Heap, marks: Seq<bool>, pending: Seq<nat>, budget: nat) -> Seq<bool>
    decreases budget, pending.len(),
{
    if pending.len() == 0 {
        marks
    } else {
        let first = pending.last();
        if alive(heap, first) && first < marks.len() && !marks[first as int] && budget > 0 {
            marked(
                heap,
                marks.update(first as int, true),
                pending.drop_last() + successors(heap[first as int]->0),
                (budget - 1) as nat,
            )
        } else {
            marked(heap, marks, pending.drop_last(), budget)
        }
    }
}

/// The heap without the environments that are not marked.
pub open spec fn swept(heap: Heap, marks: Seq<bool>) -> Heap {
    Seq::new(
        heap.len(),
        |i: int|
            if i < marks.len() && marks[i] {
                heap[i]
            } else {
                None
            },
    )
}

/// The marks of the environments that can be reached from `root`.
pub open spec fn reached(heap: Heap, root: nat) -> Seq<bool> {
    marked(heap, unmarked(heap.len()), seq![root], heap.len())
}

/// The heap without the environments that cannot be reached from `root`.
pub open spec fn collected(heap: Heap, root: nat) -> Heap {
    swept(heap, reached(heap, root))
}

/// How many of the first `upto` slots hold an environment.
pub open spec fn population(heap: Heap, upto: int) -> nat
    decreases upto,
{
    if upto <= 0 || upto > heap.len() {
        0
    } else {
        population(heap, upto - 1) + (if heap[upto - 1] is Some {
            1nat
        } else {
            0nat
        })
    }
}

/// The indices of a list of handles.
pub open spec fn naturals(handles: Seq<usize>) -> Seq<nat> {
    Seq::new(handles.len(), |i: int| handles[i] as nat)
}

/// How many of the first `upto` slots are not marked.
pub open spec fn pale(marks: Seq<bool>, upto: int) -> nat
    decreases upto,
{
    if upto <= 0 || upto > marks.len() {
        0
    } else {
        pale(marks, upto - 1) + (if marks[upto - 1] {
            0nat
        } else {
            1nat
        })
    }
}

/// Whether every environment that is marked leads only to environments that
/// are marked or wait in `pending`, as far as they are still there.
pub open spec fn closed_up_to(heap: Heap, marks: Seq<bool>, pending: Seq<nat>) -> bool {
    forall|e: int, k: int|
        0 <= e < heap.len() && e < marks.len() && marks[e] && heap[e] is Some && 0 <= k
            < successors(heap[e]->0).len() && alive(heap, #[trigger] successors(heap[e]->0)[k])
            ==> {
            let s = successors(heap[e]->0)[k];
            (s < marks.len() && marks[s as int]) || pending.contains(s)
        }
}

proof fn lemma_pale_unmarked(count: nat, upto: int)
    requires
        0 <= upto <= count,
    ensures
        pale(unmarked(count), upto) == upto,
    decreases upto,
{
    if upto > 0 {
        lemma_pale_unmarked(count, upto - 1);
    }
}

proof fn lemma_pale_marking(marks: Seq<bool>, slot: int, upto: int)
    requires
        0 <= slot < marks.len(),
        !marks[slot],
        0 <= upto <= marks.len(),
    ensures
        pale(marks.update(slot, true), upto) + (if slot < upto {
            1nat
        } else {
            0nat
        }) == pale(marks, upto),
    decreases upto,
{
    if upto > 0 {
        lemma_pale_marking(marks, slot, upto - 1);
    }
}

/// What marking achieves: every mark stays, every pending environment that
/// is still there is marked, and in the end every marked environment leads
/// only to marked environments, as far as they are still there.
proof fn lemma_marked(heap: Heap, marks: Seq<bool>, pending: Seq<nat>, budget: nat)
    requires
        marks.len() == heap.len(),
        budget >= pale(marks, marks.len() as int),
        closed_up_to(heap, marks, pending),
    ensures
        marked(heap, marks, pending, budget).len() == heap.len(),
        forall|e: int| 0 <= e < marks.len() && marks[e] ==> marked(heap, marks, pending, budget)[e],
        forall|i: int|
            0 <= i < pending.len() && alive(heap, #[trigger] pending[i]) ==> marked(
                heap,
                marks,
                pending,
                budget,
            )[pending[i] as int],
        closed_up_to(heap, marked(heap, marks, pending, budget), Seq::empty()),
    decreases budget, pending.len(),
{
    let result = marked(heap, marks, pending, budget);
    if pending.len() == 0 {
        assert forall|e: int, k: int|
            0 <= e < heap.len() && e < marks.len() && marks[e] && heap[e] is Some && 0 <= k
                < successors(heap[e]->0).len() && alive(
                heap,
                #[trigger] successors(heap[e]->0)[k],
            ) implies {
            let s = successors(heap[e]->0)[k];
            (s < marks.len() && marks[s as int]) || Seq::<nat>::empty().contains(s)
        } by {
            let s = successors(heap[e]->0)[k];
            assert(!pending.contains(s));
        }
    } else {
        let first = pending.last();
        let rest = pending.drop_last();
        if alive(heap, first) && !marks[first as int] {
            lemma_pale_marking(marks, first as int, marks.len() as int);
            assert(budget > 0);
            let node = heap[first as int]->0;
            let next_marks = marks.update(first as int, true);
            let next_pending = rest + successors(node);
            assert forall|e: int, k: int|
                0 <= e < heap.len() && e < next_marks.len() && next_marks[e] && heap[e] is Some
                    && 0 <= k < successors(heap[e]->0).len() && alive(
                    heap,
                    #[trigger] successors(heap[e]->0)[k],
                ) implies {
                let s = successors(heap[e]->0)[k];
                (s < next_marks.len() && next_marks[s as int]) || next_pending.contains(s)
            } by {
                let s = successors(heap[e]->0)[k];
                if e == first {
                    assert(next_pending[rest.len() + k] == s);
                } else {
                    if !(s < marks.len() && marks[s as int]) {
                        assert(pending.contains(s));
                        let i = choose|i: int| 0 <= i < pending.len() && pending[i] == s;
                        if i < rest.len() {
                            assert(next_pending[i] == s);
                        }
                    }
                }
            }
            lemma_marked(heap, next_marks, next_pending, (budget - 1) as nat);
            assert(result == marked(heap, next_marks, next_pending, (budget - 1) as nat));
            assert forall|e: int| 0 <= e < marks.len() && marks[e] implies result[e] by {
                assert(next_marks[e]);
            }
            assert forall|i: int| 0 <= i < pending.len() && alive(heap, #[trigger] pending[i])
                implies result[pending[i] as int] by {
                if i < rest.len() {
                    assert(next_pending[i] == pending[i]);
                } else {
                    assert(pending[i] == first);
                    assert(next_marks[first as int]);
                }
            }
        } else {
            assert forall|e: int, k: int|
                0 <= e < heap.len() && e < marks.len() && marks[e] && heap[e] is Some && 0 <= k
                    < successors(heap[e]->0).len() && alive(
                    heap,
                    #[trigger] successors(heap[e]->0)[k],
                ) implies {
                let s = successors(heap[e]->0)[k];
                (s < marks.len() && marks[s as int]) || rest.contains(s)
            } by {
                let s = successors(heap[e]->0)[k];
                if !(s < marks.len() && marks[s as int]) {
                    assert(pending.contains(s));
                    let i = choose|i: int| 0 <= i < pending.len() && pending[i] == s;
                    assert(i < rest.len());
                    assert(rest[i] == s);
                }
            }
            lemma_marked(heap, marks, rest, budget);
            assert(result == marked(heap, marks, rest, budget));
            assert forall|i: int| 0 <= i < pending.len() && alive(heap, #[trigger] pending[i])
                implies result[pending[i] as int] by {
                if i < rest.len() {
                    assert(rest[i] == pending[i]);
                } else {
                    assert(pending[i] == first);
                    assert(marks[first as int]);
                }
            }
        }
    }
}

/// Whether `to` can be reached from `root` in at most `steps` steps, each
/// from an environment that is there to one that it leads to directly.
pub open spec fn leads_to(heap: Heap, root: nat, to: nat, steps: nat) -> bool
    decreases steps,
{
    to == root || (steps > 0 && exists|from: nat|
        #[trigger] alive(heap, from) && leads_to(heap, root, from, (steps - 1) as nat)
            && successors(heap[from as int]->0).contains(to))
}

/// Whether `to` can be reached from `root`.
pub open spec fn reachable(heap: Heap, root: nat, to: nat) -> bool {
    exists|steps: nat| leads_to(heap, root, to, steps)
}

/// What an environment that can be reached leads to can be reached.
proof fn lemma_reachable_on(heap: Heap, root: nat, from: nat, k: int)
    requires
        reachable(heap, root, from),
        alive(heap, from),
        0 <= k < successors(heap[from as int]->0).len(),
    ensures
        reachable(heap, root, successors(heap[from as int]->0)[k]),
{
    let steps = choose|steps: nat| leads_to(heap, root, from, steps);
    let to = successors(heap[from as int]->0)[k];
    let more: nat = steps + 1;
    assert(successors(heap[from as int]->0).contains(to));
    assert((more - 1) as nat == steps);
    assert(leads_to(heap, root, from, (more - 1) as nat));
    assert(leads_to(heap, root, to, more));
}

/// Marking marks only what can be reached, where only that was marked and
/// pending before.
proof fn lemma_marked_reachable(
    heap: Heap,
    root: nat,
    marks: Seq<bool>,
    pending: Seq<nat>,
    budget: nat,
)
    requires
        forall|e: int| 0 <= e < marks.len() && #[trigger] marks[e] ==> reachable(heap, root, e as nat),
        forall|i: int| 0 <= i < pending.len() ==> reachable(heap, root, #[trigger] pending[i]),
    ensures
        forall|e: int|
            0 <= e < marked(heap, marks, pending, budget).len() && #[trigger] marked(
                heap,
                marks,
                pending,
                budget,
            )[e] ==> reachable(heap, root, e as nat),
    decreases budget, pending.len(),
{
    let result = marked(heap, marks, pending, budget);
    if pending.len() == 0 {
        assert(result == marks);
    } else {
        let first = pending.last();
        let rest = pending.drop_last();
        assert forall|i: int| 0 <= i < rest.len() implies reachable(
            heap,
            root,
            #[trigger] rest[i],
        ) by {
            assert(rest[i] == pending[i]);
        }
        if alive(heap, first) && first < marks.len() && !marks[first as int] && budget > 0 {
            let node = heap[first as int]->0;
            let next_marks = marks.update(first as int, true);
            let next_pending = rest + successors(node);
            assert(reachable(heap, root, pending[pending.len() - 1]));
            assert forall|i: int| 0 <= i < next_pending.len() implies reachable(
                heap,
                root,
                #[trigger] next_pending[i],
            ) by {
                if i < rest.len() {
                    assert(next_pending[i] == rest[i]);
                } else {
                    assert(next_pending[i] == successors(node)[i - rest.len()]);
                    lemma_reachable_on(heap, root, first, i - rest.len());
                }
            }
            assert forall|e: int| 0 <= e < next_marks.len() && #[trigger] next_marks[e] implies reachable(
                heap,
                root,
                e as nat,
            ) by {
                if e != first {
                    assert(marks[e]);
                }
            }
            lemma_marked_reachable(heap, root, next_marks, next_pending, (budget - 1) as nat);
            assert(result == marked(heap, next_marks, next_pending, (budget - 1) as nat));
        } else {
            lemma_marked_reachable(heap, root, marks, rest, budget);
            assert(result == marked(heap, marks, rest, budget));
        }
    }
}

/// Collection keeps what can be reached. The outermost environment is kept;
/// whatever a kept environment leads to, by the link to the environment
/// around it or by a function among its values, is kept as far as it was
/// still there; what is kept is kept as it was; and nothing is kept that
/// cannot be reached from the outermost environment.
pub proof fn law_collection_keeps_reachable(heap: Heap, root: nat)
    requires
        alive(heap, root),
    ensures
        collected(heap, root).len() == heap.len(),
        collected(heap, root)[root as int] == heap[root as int],
        forall|e: int, k: int|
            0 <= e < heap.len() && collected(heap, root)[e] is Some && 0 <= k < successors(
                heap[e]->0,
            ).len() && alive(heap, #[trigger] successors(heap[e]->0)[k]) ==> alive(
                collected(heap, root),
                successors(heap[e]->0)[k],
            ),
        forall|e: int|
            0 <= e < heap.len() ==> (#[trigger] collected(heap, root)[e]) == heap[e] || collected(
                heap,
                root,
            )[e] is None,
        forall|e: int|
            0 <= e < heap.len() && (#[trigger] collected(heap, root)[e]) is Some ==> reachable(
                heap,
                root,
                e as nat,
            ),
{
    let start = unmarked(heap.len());
    let pending = seq![root];
    assert(leads_to(heap, root, root, 0));
    lemma_marked_reachable(heap, root, start, pending, heap.len());
    lemma_pale_unmarked(heap.len(), heap.len() as int);
    lemma_marked(heap, start, pending, heap.len());
    let marks = reached(heap, root);
    assert(pending[0] == root);
    assert(marks[root as int]);
    assert forall|e: int, k: int|
        0 <= e < heap.len() && collected(heap, root)[e] is Some && 0 <= k < successors(
            heap[e]->0,
        ).len() && alive(heap, #[trigger] successors(heap[e]->0)[k]) implies alive(
        collected(heap, root),
        successors(heap[e]->0)[k],
    ) by {
        let s = successors(heap[e]->0)[k];
        assert(marks[e]);
        assert(!Seq::<nat>::empty().contains(s));
    }
}

} // verus!
