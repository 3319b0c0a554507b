//! Environments of the evaluator: name bindings with a link to the
//! environment around them.
//!
//! A function value refers to the environment in which its literal was
//! evaluated, and that environment may in turn hold the function. So
//! environments are not owned by the values that refer to them: an evaluator
//! owns all the environments it creates, in slots in the order of their
//! creation, and a value holds a handle, the index of a slot. After each
//! program the evaluator releases the environments that nothing can reach
//! any more; their slots stay empty, so that no handle ever meets another
//! environment than its own.

use vstd::prelude::*;
use vstd::string::*;
use crate::object::{Object, Value};
use crate::text::str_eq;

verus! {

/// A handle to an environment: the index of its slot among the environments
/// of an evaluator.
#[derive(Debug, Clone, Copy, PartialEq, Eq, Structural)]
pub struct Environment {
    pub index: usize,
}

/// An environment itself: its bindings, in the order in which they were
/// made, and the handle of the environment around it.
#[derive(Debug)]
pub struct EnvironmentOwner {
    id: usize,
    store: Vec<(String, Object)>,
    outer: Option<Environment>,
}

/// The mathematical value of an [`EnvironmentOwner`]. No name is bound
/// twice: see [`distinct_names`].
pub struct EnvironmentView {
    pub id: nat,
    pub store: Seq<(Seq<char>, Value)>,
    pub outer: Option<nat>,
}

/// The environments of an evaluator, slot by slot; a released environment
/// leaves `None`.
pub type Heap = Seq<Option<EnvironmentView>>;

/// The position of the first binding of `name` from `from` on.
pub open spec fn store_position(store: Seq<(Seq<char>, Value)>, name: Seq<char>, from: int)
    -> Option<int>
    decreases store.len() - from,
{
    if from < 0 || from >= store.len() {
        None
    } else if store[from].0 == name {
        Some(from)
    } else {
        store_position(store, name, from + 1)
    }
}

/// The value bound to `name`.
pub open spec fn store_value(store: Seq<(Seq<char>, Value)>, name: Seq<char>) -> Option<Value> {
    match store_position(store, name, 0) {
        Some(i) => Some(store[i].1),
        None => None,
    }
}

/// The bindings with `name` bound to `value`: in the place of the old
/// binding of `name`, or, for a new name, behind the other bindings.
pub open spec fn rebound(store: Seq<(Seq<char>, Value)>, name: Seq<char>, value: Value) -> Seq<
    (Seq<char>, Value),
> {
    match store_position(store, name, 0) {
        Some(i) => store.update(i, (name, value)),
        None => store.push((name, value)),
    }
}

/// Whether a slot holds an environment.
pub open spec fn alive(heap: Heap, environment: nat) -> bool {
    environment < heap.len() && heap[environment as int] is Some
}

/// Every environment knows the index of its slot, and the environment
/// around it, if there is one, has an earlier slot.
pub open spec fn linked(heap: Heap) -> bool {
    forall|i: int|
        0 <= i < heap.len() ==> ((#[trigger] heap[i]) matches Some(node) ==> node.id == i && (
        node.outer matches Some(outer) ==> outer < i))
}

/// The value of `name` in the environment in slot `environment`: the value
/// bound there, or else the value of `name` in the environment around. An
/// empty slot binds nothing.
pub open spec fn lookup(heap: Heap, environment: nat, name: Seq<char>) -> Option<Value>
    decreases environment,
{
    if !alive(heap, environment) {
        None
    } else {
        let node = heap[environment as int]->0;
        match store_value(node.store, name) {
            Some(value) => Some(value),
            None => match node.outer {
                Some(outer) if outer < environment => lookup(heap, outer, name),
                _ => None,
            },
        }
    }
}

/// `heap` with `name` bound to `value` in the environment in slot
/// `environment`. An empty slot takes no binding.
pub open spec fn bound(heap: Heap, environment: nat, name: Seq<char>, value: Value) -> Heap {
    if alive(heap, environment) {
        let node = heap[environment as int]->0;
        heap.update(
            environment as int,
            Some(EnvironmentView { store: rebound(node.store, name, value), ..node }),
        )
    } else {
        heap
    }
}

/// `heap` with a new, empty environment inside the one in slot `outer`. The
/// new environment gets the next slot, `heap.len()`.
pub open spec fn extended(heap: Heap, outer: nat) -> Heap {
    heap.push(Some(EnvironmentView { id: heap.len(), store: Seq::empty(), outer: Some(outer) }))
}

/// The view of a slot.
pub open spec fn slot_view(slot: Option<EnvironmentOwner>) -> Option<EnvironmentView> {
    match slot {
        Some(owner) => Some(owner@),
        None => None,
    }
}

/// The views of the slots of an evaluator.
pub open spec fn heap_view(owners: Seq<Option<EnvironmentOwner>>) -> Heap {
    Seq::new(owners.len(), |i: int| slot_view(owners[i]))
}

impl EnvironmentOwner {
    pub closed spec fn view(&self) -> EnvironmentView {
        EnvironmentView {
            id: self.id as nat,
            store: Seq::new(
                self.store@.len(),
                |i: int| (self.store@[i].0@, self.store@[i].1.view()),
            ),
            outer: match self.outer {
                Some(outer) => Some(outer.index as nat),
                None => None,
            },
        }
    }

    /// The handle of the environment around this one.
    pub fn outer(&self) -> (outer: Option<Environment>)
        ensures
            (match outer {
                Some(outer) => Some(outer.index as nat),
                None => None,
            }) == self@.outer,
    {
        self.outer
    }

    /// How many bindings were made in this environment.
    pub fn len(&self) -> (count: usize)
        ensures
            count == self@.store.len(),
    {
        self.store.len()
    }

    /// The value of the binding that was made as the `index`-th.
    pub fn value(&self, index: usize) -> (value: &Object)
        requires
            index < self@.store.len(),
        ensures
            value.view() == self@.store[index as int].1,
    {
        &self.store[index].1
    }

    fn position(&self, name: &str) -> (position: Option<usize>)
        ensures
            (match position {
                Some(i) => Some(i as int),
                None => None,
            }) == store_position(self@.store, name@, 0),
            position matches Some(i) ==> i < self@.store.len(),
    {
        let mut i: usize = 0;
        while i < self.store.len()
            invariant
                i <= self.store@.len(),
                store_position(self@.store, name@, 0) == store_position(
                    self@.store,
                    name@,
                    i as int,
                ),
            decreases self.store@.len() - i,
        {
            if str_eq(self.store[i].0.as_str(), name) {
                return Some(i);
            }
            i += 1;
        }
        None
    }

    fn find(&self, name: &str) -> (value: Option<Object>)
        ensures
            (match value {
                Some(value) => Some(value.view()),
                None => None,
            }) == store_value(self@.store, name@),
    {
        match self.position(name) {
            Some(i) => Some(self.store[i].1.duplicate()),
            None => None,
        }
    }

    fn bind(&mut self, name: String, value: Object)
        ensures
            final(self)@ == (EnvironmentView {
                store: rebound(old(self)@.store, name@, value.view()),
                ..old(self)@
            }),
    {
        match self.position(name.as_str()) {
            Some(i) => {
                self.store[i] = (name, value);
                assert(self@.store =~= old(self)@.store.update(i as int, (name@, value.view())));
            },
            None => {
                self.store.push((name, value));
                assert(self@.store =~= old(self)@.store.push((name@, value.view())));
            },
        }
    }
}

impl Environment {
    /// The outermost environment of a new evaluator: the handle of slot 0
    /// and the empty environment for that slot.
    pub fn new() -> (r: (Self, EnvironmentOwner))
        ensures
            r.0.index == 0,
            r.1@ == (EnvironmentView { id: 0, store: Seq::empty(), outer: None }),
    {
        let owner = EnvironmentOwner { id: 0, store: Vec::new(), outer: None };
        assert(owner@.store =~= Seq::empty());
        (Environment { index: 0 }, owner)
    }

    /// The value of `name` in this environment or, failing that, in the
    /// environments around it. The environment must not have been released.
    pub fn get(&self, owners: &Vec<Option<EnvironmentOwner>>, name: &str) -> (value: Option<
        Object,
    >)
        requires
            alive(heap_view(owners@), self.index as nat),
        ensures
            (match value {
                Some(value) => Some(value.view()),
                None => None,
            }) == lookup(heap_view(owners@), self.index as nat, name@),
    {
        let mut current = self.index;
        loop
            invariant
                lookup(heap_view(owners@), self.index as nat, name@) == lookup(
                    heap_view(owners@),
                    current as nat,
                    name@,
                ),
            decreases current,
        {
            if current >= owners.len() {
                return None;
            }
            let owner = match &owners[current] {
                Some(owner) => owner,
                None => {
                    return None;
                },
            };
            assert(heap_view(owners@)[current as int] == Some(owner@));
            match owner.find(name) {
                Some(value) => {
                    return Some(value);
                },
                None => {},
            }
            match owner.outer {
                Some(outer) => {
                    if outer.index >= current {
                        return None;
                    }
                    current = outer.index;
                },
                None => {
                    return None;
                },
            }
        }
    }

    /// Binds `name` to `value` in this environment, which must not have
    /// been released.
    pub fn set(&self, owners: &mut Vec<Option<EnvironmentOwner>>, name: String, value: Object)
        requires
            alive(heap_view(old(owners)@), self.index as nat),
        ensures
            heap_view(final(owners)@) == bound(
                heap_view(old(owners)@),
                self.index as nat,
                name@,
                value.view(),
            ),
            final(owners)@.len() == old(owners)@.len(),
    {
        let ghost before = heap_view(owners@);
        if self.index >= owners.len() {
            return ;
        }
        let mut slot: Option<EnvironmentOwner> = None;
        std::mem::swap(&mut slot, &mut owners[self.index]);
        match slot {
            Some(owner) => {
                let mut owner = owner;
                let ghost node = owner@;
                owner.bind(name, value);
                owners[self.index] = Some(owner);
                assert(heap_view(owners@) =~= before.update(
                    self.index as int,
                    Some(
                        EnvironmentView {
                            store: rebound(node.store, name@, value.view()),
                            ..node
                        },
                    ),
                ));
            },
            None => {
                assert(heap_view(owners@) =~= before);
            },
        }
    }

    /// A new, empty environment inside this one, which must not have been
    /// released: its handle and the environment itself, which is to be put
    /// in the next slot of `owners`.
    pub fn extend(&self, owners: &Vec<Option<EnvironmentOwner>>) -> (r: (
        Environment,
        EnvironmentOwner,
    ))
        requires
            alive(heap_view(owners@), self.index as nat),
        ensures
            r.0.index == owners@.len(),
            heap_view(owners@.push(Some(r.1))) == extended(heap_view(owners@), self.index as nat),
    {
        let owner = EnvironmentOwner {
            id: owners.len(),
            store: Vec::new(),
            outer: Some(Environment { index: self.index }),
        };
        assert(owner@.store =~= Seq::empty());
        assert(heap_view(owners@.push(Some(owner))) =~= extended(
            heap_view(owners@),
            self.index as nat,
        ));
        (Environment { index: owners.len() }, owner)
    }

    /// Whether this handle refers to `owner`.
    pub fn is_owned_by(&self, owner: &EnvironmentOwner) -> (r: bool)
        ensures
            r == (self.index == owner@.id),
    {
        self.index == owner.id
    }
}

/// Where a name is found, it is bound; where it is not found, no binding
/// from `from` on is one of it.
pub proof fn lemma_store_position(store: Seq<(Seq<char>, Value)>, name: Seq<char>, from: int)
    requires
        0 <= from,
    ensures
        store_position(store, name, from) matches Some(i) ==> from <= i < store.len()
            && store[i].0 == name && forall|j: int| from <= j < i ==> store[j].0 != name,
        store_position(store, name, from) is None ==> forall|j: int|
            from <= j < store.len() ==> store[j].0 != name,
    decreases store.len() - from,
{
    if from < store.len() && store[from].0 != name {
        lemma_store_position(store, name, from + 1);
    }
}

/// The first binding of a name is where a binding of it has only other
/// names before it.
pub proof fn lemma_store_position_is(
    store: Seq<(Seq<char>, Value)>,
    name: Seq<char>,
    from: int,
    at: int,
)
    requires
        0 <= from <= at < store.len(),
        store[at].0 == name,
        forall|j: int| from <= j < at ==> store[j].0 != name,
    ensures
        store_position(store, name, from) == Some(at),
    decreases at - from,
{
    if from < at {
        lemma_store_position_is(store, name, from + 1, at);
    }
}

/// Whether no name is bound twice.
pub open spec fn distinct_names(store: Seq<(Seq<char>, Value)>) -> bool {
    forall|i: int, j: int|
        0 <= i < j < store.len() ==> (#[trigger] store[i]).0 != (#[trigger] store[j]).0
}

/// Binding a name where no name is bound twice, as in a new environment,
/// leaves no name bound twice.
pub proof fn law_rebound_keeps_distinct(
    store: Seq<(Seq<char>, Value)>,
    name: Seq<char>,
    value: Value,
)
    requires
        distinct_names(store),
    ensures
        distinct_names(rebound(store, name, value)),
        distinct_names(Seq::<(Seq<char>, Value)>::empty()),
{
    let after = rebound(store, name, value);
    lemma_store_position(store, name, 0);
    assert forall|i: int, j: int| 0 <= i < j < after.len() implies (#[trigger] after[i]).0 != (
    #[trigger] after[j]).0 by {
        assert(after[i].0 == store[i].0);
        if j < store.len() {
            assert(after[j].0 == store[j].0);
        } else {
            assert(store[i].0 != name);
        }
    }
}

/// A name that is bound has the value that it was bound to last, and the
/// binding of one name leaves the value of every other name as it was.
pub proof fn lemma_rebound(
    store: Seq<(Seq<char>, Value)>,
    name: Seq<char>,
    value: Value,
    other: Seq<char>,
)
    ensures
        store_value(rebound(store, name, value), name) == Some(value),
        other != name ==> store_value(rebound(store, name, value), other) == store_value(
            store,
            other,
        ),
{
    let after = rebound(store, name, value);
    lemma_store_position(store, name, 0);
    lemma_store_position(store, other, 0);
    match store_position(store, name, 0) {
        Some(i) => {
            lemma_store_position_is(after, name, 0, i);
            if other != name {
                match store_position(store, other, 0) {
                    Some(j) => {
                        lemma_store_position_is(after, other, 0, j);
                    },
                    None => {
                        lemma_store_position(after, other, 0);
                    },
                }
            }
        },
        None => {
            lemma_store_position_is(after, name, 0, store.len() as int);
            if other != name {
                match store_position(store, other, 0) {
                    Some(j) => {
                        lemma_store_position_is(after, other, 0, j);
                    },
                    None => {
                        lemma_store_position(after, other, 0);
                    },
                }
            }
        },
    }
}

/// Where two heaps agree on their first `count` slots, a name has the same
/// value in each of those slots of either heap.
pub proof fn lemma_lookup_prefix(
    first: Heap,
    second: Heap,
    count: nat,
    environment: nat,
    name: Seq<char>,
)
    requires
        environment < count,
        count <= first.len(),
        count <= second.len(),
        forall|i: int| 0 <= i < count ==> first[i] == second[i],
    ensures
        lookup(first, environment, name) == lookup(second, environment, name),
    decreases environment,
{
    assert(first[environment as int] == second[environment as int]);
    match first[environment as int] {
        Some(node) => {
            match node.outer {
                Some(outer) => {
                    if outer < environment {
                        lemma_lookup_prefix(first, second, count, outer, name);
                    }
                },
                None => {},
            }
        },
        None => {},
    }
}

} // verus!
