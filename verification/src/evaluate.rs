//! The tree-walking evaluator.

pub mod error;
pub mod garbage;
pub mod safety;
pub mod semantics;

use std::rc::Rc;
use vstd::prelude::*;
use vstd::string::*;
use crate::ast::{
    expressions_view, lemma_block_view, lemma_expression_view, names_view, pairs_view,
    statements_view, BlockStatement, Expression, HashLiteralPair, InfixOperatorKind,
    PrefixOperatorKind, Program, Statement,
};
use crate::environment::{
    alive, heap_view, slot_view, Environment, EnvironmentOwner, EnvironmentView,
};
use crate::evaluate::safety::{
    entries_safely, entries_sound, grows, heap_sound, law_collection_is_safe,
    lemma_bound_sound, lemma_builtin_sound, lemma_entries_sound_grow, lemma_extended_sound,
    lemma_grows_on, lemma_hash_insert_sound, lemma_index_sound, lemma_lookup_sound,
    lemma_operators_sound, lemma_value_sound_grows, lemma_values_sound_grow, safely,
    value_sound, values_safely, values_sound,
};
use crate::evaluate::garbage::{
    collected, handles_in, handles_in_entries, handles_in_store, handles_of, marked, naturals,
    population, reached, successors, swept, unmarked,
};
use crate::evaluate::error::{Error, ErrorView};
use crate::evaluate::semantics::{
    entered, eval_block, eval_expression, eval_expressions, eval_function_call, eval_hash_literal,
    eval_if_expression, eval_index, eval_infix_operator, eval_pairs, eval_prefix_operator,
    eval_program, eval_statement, eval_statements, index_result, infix_result, integer_infix,
    operator_message, parameters_bound, prefix_result, Evaluated, Listed, World, MAX_CALL_DEPTH,
};
use crate::object::builtin::{lines_view, BuiltinFunction};
use crate::object::{
    entries_view, hash_get, hash_put, lemma_object_view, share, values_view, FunctionObject,
    HashKey, HashKeyView, Object, Value,
};

verus! {

/// The view of a value or of the error in its place.
pub open spec fn object_result(r: Result<Object, Error>) -> Result<Value, ErrorView> {
    match r {
        Ok(value) => Ok(value.view()),
        Err(error) => Err(error@),
    }
}

/// The view of a list of values or of the error in its place.
pub open spec fn objects_result(r: Result<Vec<Object>, Error>) -> Result<Seq<Value>, ErrorView> {
    match r {
        Ok(values) => Ok(values_view(values@)),
        Err(error) => Err(error@),
    }
}

/// The view of the entries of a hash or of the error in their place.
pub open spec fn entries_result(r: Result<Vec<(HashKey, Object)>, Error>) -> Result<
    Seq<(HashKeyView, Value)>,
    ErrorView,
> {
    match r {
        Ok(entries) => Ok(entries_view(entries@)),
        Err(error) => Err(error@),
    }
}

/// A copy of a list of names.
pub fn copy_names(names: &Vec<String>) -> (copy: Vec<String>)
    ensures
        copy@ == names@,
{
    let mut copy: Vec<String> = Vec::new();
    let mut i: usize = 0;
    while i < names.len()
        invariant
            i <= names@.len(),
            copy@ == names@.subrange(0, i as int),
        decreases names@.len() - i,
    {
        copy.push(names[i].clone());
        assert(copy@ =~= names@.subrange(0, i as int + 1));
        i += 1;
    }
    assert(copy@ =~= names@);
    copy
}

/// The kinds of the operands around the operator, as in `INTEGER + BOOLEAN`.
pub fn operator_text(left: &Object, operator: InfixOperatorKind, right: &Object) -> (text: String)
    ensures
        text@ == operator_message(left.view(), operator, right.view()),
{
    let mut text = String::from_str(left.data_type().name());
    let symbol = operator.debug_str();
    text.append(" ");
    text.append(symbol.as_str());
    text.append(" ");
    text.append(right.data_type().name());
    text
}

/// Applies a prefix operator to a value.
pub fn apply_prefix_operator(operator: PrefixOperatorKind, right: &Object) -> (r: Result<
    Object,
    Error,
>)
    ensures
        object_result(r) == prefix_result(operator, right.view()),
{
    match operator {
        PrefixOperatorKind::Not => Ok(Object::Boolean(!right.is_truthy())),
        PrefixOperatorKind::Negative => match right {
            Object::Integer(value) => Ok(Object::Integer(0i64.wrapping_sub(*value))),
            other => {
                let mut text = String::from_str("-");
                text.append(other.data_type().name());
                Err(Error::UnknownOperator(text))
            },
        },
    }
}

/// Applies a binary operator to two integers.
pub fn apply_integer_operator(operator: InfixOperatorKind, left: i64, right: i64) -> (r: Result<
    Object,
    Error,
>)
    ensures
        object_result(r) == integer_infix(operator, left, right),
{
    match operator {
        InfixOperatorKind::Add => Ok(Object::Integer(left.wrapping_add(right))),
        InfixOperatorKind::Subtract => Ok(Object::Integer(left.wrapping_sub(right))),
        InfixOperatorKind::Multiply => Ok(Object::Integer(left.wrapping_mul(right))),
        InfixOperatorKind::Divide => {
            if right == 0 {
                Err(Error::DivisionByZero)
            } else {
                match left.checked_div(right) {
                    Some(q) => Ok(Object::Integer(q)),
                    None => Ok(Object::Integer(i64::MIN)),
                }
            }
        },
        InfixOperatorKind::Equal => Ok(Object::Boolean(left == right)),
        InfixOperatorKind::NotEqual => Ok(Object::Boolean(left != right)),
        InfixOperatorKind::GreaterThan => Ok(Object::Boolean(left > right)),
        InfixOperatorKind::LessThan => Ok(Object::Boolean(left < right)),
    }
}

/// Applies a binary operator to two values.
pub fn apply_infix_operator(operator: InfixOperatorKind, left: &Object, right: &Object) -> (r:
    Result<Object, Error>)
    ensures
        object_result(r) == infix_result(operator, left.view(), right.view()),
{
    match (left, right) {
        (Object::Integer(a), Object::Integer(b)) => apply_integer_operator(operator, *a, *b),
        (Object::Boolean(a), Object::Boolean(b)) => match operator {
            InfixOperatorKind::Equal => Ok(Object::Boolean(*a == *b)),
            InfixOperatorKind::NotEqual => Ok(Object::Boolean(*a != *b)),
            _ => Err(Error::UnknownOperator(operator_text(left, operator, right))),
        },
        (Object::String(a), Object::String(b)) => match operator {
            InfixOperatorKind::Add => {
                let mut joined = String::from_str(a.as_str());
                joined.append(b.as_str());
                Ok(Object::String(Rc::new(joined)))
            },
            _ => Err(Error::UnknownOperator(operator_text(left, operator, right))),
        },
        _ => {
            if left.data_type() != right.data_type() {
                Err(Error::TypeMismatch(operator_text(left, operator, right)))
            } else {
                Err(Error::UnknownOperator(operator_text(left, operator, right)))
            }
        },
    }
}

/// Applies the index operator to a container and an index.
pub fn apply_index(container: &Object, index: &Object) -> (r: Result<Object, Error>)
    ensures
        object_result(r) == index_result(container.view(), index.view()),
{
    proof {
        lemma_object_view(*container);
    }
    match container {
        Object::Array(items) => match index {
            Object::Integer(position) => {
                if *position < 0 {
                    return Ok(Object::Null);
                }
                if *position as u64 >= items.len() as u64 {
                    return Ok(Object::Null);
                }
                Ok(items[*position as usize].duplicate())
            },
            other => Err(
                Error::IndexOperatorNotSupported(
                    String::from_str(container.data_type().name()),
                    String::from_str(other.data_type().name()),
                ),
            ),
        },
        Object::HashMap(pairs) => match HashKey::from_object(index) {
            Ok(key) => Ok(hash_get(pairs, &key)),
            Err(kind) => Err(Error::NotHashable(String::from_str(kind.name()))),
        },
        other => Err(
            Error::IndexOperatorNotSupported(
                String::from_str(other.data_type().name()),
                String::from_str(index.data_type().name()),
            ),
        ),
    }
}

/// Evaluates syntax trees directly. The bindings of the outermost
/// environment, and what programs printed, stay from one program to the
/// next. The evaluator keeps every environment that its programs create.
pub struct Evaluator {
    environment: Environment,
    environment_owners: Vec<Option<EnvironmentOwner>>,
    output: Vec<String>,
    call_depth: usize,
}

impl Evaluator {
    /// The slot of the outermost environment.
    pub closed spec fn root(&self) -> nat {
        self.environment.index as nat
    }

    /// No environment of the evaluator leads to one that was released, and
    /// the outermost environment is there. Every evaluator that
    /// [`Evaluator::new`] made is so, and stays so.
    pub closed spec fn wf(&self) -> bool {
        &&& heap_sound(self@.heap)
        &&& alive(self@.heap, self.root())
    }

    /// How many calls can be in progress at once in this evaluator.
    pub closed spec fn call_depth(&self) -> nat {
        self.call_depth as nat
    }

    /// The state of a new evaluator: an empty outermost environment.
    pub open spec fn new_view() -> World {
        World {
            heap: seq![Some(EnvironmentView { id: 0, store: Seq::empty(), outer: None })],
            output: Seq::empty(),
        }
    }

    pub closed spec fn view(&self) -> World {
        World { heap: heap_view(self.environment_owners@), output: lines_view(self.output@) }
    }

    /// An evaluator with an empty outermost environment.
    pub fn new() -> (evaluator: Self)
        ensures
            evaluator.wf(),
            evaluator.root() == 0,
            evaluator.call_depth() == MAX_CALL_DEPTH,
            evaluator@ == Evaluator::new_view(),
    {
        let (environment, owner) = Environment::new();
        let mut owners: Vec<Option<EnvironmentOwner>> = Vec::new();
        owners.push(Some(owner));
        let evaluator = Evaluator {
            environment,
            environment_owners: owners,
            output: Vec::new(),
            call_depth: MAX_CALL_DEPTH,
        };
        assert(evaluator@.heap =~= seq![
            Some(EnvironmentView { id: 0, store: Seq::empty(), outer: None }),
        ]);
        assert(evaluator@.output =~= Seq::<Seq<char>>::empty());
        assert(evaluator@.heap[0]->0.store.len() == 0);
        evaluator
    }

    /// An evaluator like a new one in which at most `depth` calls can be in
    /// progress at once.
    pub fn with_call_depth(depth: usize) -> (evaluator: Self)
        ensures
            evaluator.wf(),
            evaluator.root() == 0,
            evaluator.call_depth() == depth,
            evaluator@ == Evaluator::new_view(),
    {
        let mut evaluator = Evaluator::new();
        evaluator.call_depth = depth;
        evaluator
    }

    /// Evaluates a program in the outermost environment. Afterwards,
    /// whether the program failed or not, the environments that nothing can
    /// reach any more are released.
    pub fn evaluate(&mut self, program: &Program) -> (r: Result<Object, Error>)
        requires
            old(self).wf(),
        ensures
            final(self).wf(),
            !(r matches Err(Error::UnknownEnvironment)),
            final(self).root() == old(self).root(),
            final(self).call_depth() == old(self).call_depth(),
            eval_program(program@, old(self).root(), old(self)@, old(self).call_depth()) == (Evaluated {
                world: final(self)@,
                result: object_result(r),
            }),
    {
        let environment = self.environment;
        let depth = self.call_depth;
        let outcome = self.evaluate_statements(&program.statements, environment, depth);
        match outcome {
            Ok(Object::Return(value)) => {
                self.collect_garbage();
                Ok(value.duplicate())
            },
            Ok(value) => {
                self.collect_garbage();
                Ok(value)
            },
            Err(error) => {
                self.collect_garbage();
                Err(error)
            },
        }
    }

    /// Whether the environment of a handle is still there.
    fn holds(&self, environment: Environment) -> (r: bool)
        ensures
            r == alive(self@.heap, environment.index as nat),
    {
        environment.index < self.environment_owners.len()
            && self.environment_owners[environment.index].is_some()
    }

    /// How many environments the evaluator holds.
    pub fn environment_count(&self) -> (count: usize)
        ensures
            count == population(self@.heap, self@.heap.len() as int),
    {
        let mut count: usize = 0;
        let mut i: usize = 0;
        while i < self.environment_owners.len()
            invariant
                i <= self.environment_owners@.len(),
                count <= i,
                count == population(self@.heap, i as int),
            decreases self.environment_owners@.len() - i,
        {
            if self.environment_owners[i].is_some() {
                count += 1;
            }
            i += 1;
        }
        count
    }

    /// Releases the environments that cannot be reached from the outermost
    /// one.
    fn collect_garbage(&mut self)
        requires
            old(self).wf(),
        ensures
            final(self).wf(),
            final(self).root() == old(self).root(),
            final(self).call_depth() == old(self).call_depth(),
            final(self)@ == (World {
                heap: collected(old(self)@.heap, old(self).root()),
                ..old(self)@
            }),
    {
        let used = self.collect_used_environments();
        let mut i: usize = 0;
        while i < self.environment_owners.len()
            invariant
                i <= self.environment_owners@.len(),
                self.environment_owners@.len() == old(self).environment_owners@.len(),
                used@.len() == old(self).environment_owners@.len(),
                used@ == reached(old(self)@.heap, old(self).root()),
                self.environment == old(self).environment,
                self.output == old(self).output,
                self.call_depth == old(self).call_depth,
                forall|j: int|
                    0 <= j < i ==> slot_view(#[trigger] self.environment_owners@[j]) == (
                    if used@[j] {
                        slot_view(old(self).environment_owners@[j])
                    } else {
                        None
                    }),
                forall|j: int|
                    i <= j < self.environment_owners@.len() ==> (
                    #[trigger] self.environment_owners@[j]) == old(self).environment_owners@[j],
            decreases self.environment_owners@.len() - i,
        {
            if !used[i] {
                self.environment_owners[i] = None;
            }
            i += 1;
        }
        assert(self@.heap =~= swept(old(self)@.heap, used@));
        proof {
            law_collection_is_safe(old(self)@.heap, old(self).root());
        }
    }

    /// Marks the environments that can be reached from the outermost one.
    fn collect_used_environments(&self) -> (used: Vec<bool>)
        ensures
            used@ == reached(self@.heap, self.root()),
            used@.len() == self@.heap.len(),
    {
        let mut used: Vec<bool> = Vec::new();
        while used.len() < self.environment_owners.len()
            invariant
                used@.len() <= self.environment_owners@.len(),
                forall|j: int| 0 <= j < used@.len() ==> !used@[j],
            decreases self.environment_owners@.len() - used@.len(),
        {
            used.push(false);
        }
        assert(used@ =~= unmarked(self@.heap.len()));
        let mut pending: Vec<usize> = Vec::new();
        pending.push(self.environment.index);
        assert(naturals(pending@) =~= seq![self.root()]);
        let mut budget: usize = self.environment_owners.len();
        loop
            invariant
                used@.len() == self@.heap.len(),
                reached(self@.heap, self.root()) == marked(
                    self@.heap,
                    used@,
                    naturals(pending@),
                    budget as nat,
                ),
            decreases budget, pending@.len(),
        {
            let ghost before = naturals(pending@);
            let first = match pending.pop() {
                Some(first) => first,
                None => {
                    return used;
                },
            };
            assert(naturals(pending@) =~= before.drop_last());
            assert(before.last() == first as nat);
            if first < self.environment_owners.len() && !used[first] && budget > 0 {
                match &self.environment_owners[first] {
                    Some(owner) => {
                        assert(self@.heap[first as int] == Some(owner@));
                        used[first] = true;
                        budget -= 1;
                        match owner.outer() {
                            Some(outer) => {
                                let ghost rest = naturals(pending@);
                                pending.push(outer.index);
                                assert(naturals(pending@) =~= rest + seq![outer.index as nat]);
                            },
                            None => {
                                assert(naturals(pending@) + Seq::<nat>::empty() =~= naturals(
                                    pending@,
                                ));
                            },
                        }
                        let ghost base = naturals(pending@);
                        let mut i: usize = 0;
                        assert(base + handles_in_store(owner@.store, 0) =~= base);
                        while i < owner.len()
                            invariant
                                i <= owner@.store.len(),
                                naturals(pending@) == base + handles_in_store(
                                    owner@.store,
                                    i as int,
                                ),
                            decreases owner@.store.len() - i,
                        {
                            let ghost so_far = naturals(pending@);
                            Self::collect_used_environments_from_obj(
                                owner.value(i),
                                &mut pending,
                            );
                            assert(base + handles_in_store(owner@.store, i as int + 1) =~= so_far
                                + handles_of(owner@.store[i as int].1));
                            i += 1;
                        }
                        assert(naturals(pending@) =~= before.drop_last() + successors(owner@));
                    },
                    None => {},
                }
            }
        }
    }

    /// Adds the environments that `object` refers to to `pending`.
    fn collect_used_environments_from_obj(object: &Object, pending: &mut Vec<usize>)
        ensures
            naturals(final(pending)@) == naturals(old(pending)@) + handles_of(object.view()),
        decreases object,
    {
        proof {
            lemma_object_view(*object);
        }
        let ghost before = naturals(pending@);
        match object {
            Object::Function(function) => {
                pending.push(function.environment.index);
                assert(naturals(pending@) =~= before + seq![function.environment.index as nat]);
            },
            Object::Return(inner) => {
                Self::collect_used_environments_from_obj(inner, pending);
            },
            Object::Array(items) => {
                Self::collect_used_environments_from_list(items, pending);
            },
            Object::HashMap(pairs) => {
                Self::collect_used_environments_from_entries(pairs, pending);
            },
            Object::Closure(closure) => {
                Self::collect_used_environments_from_list(&closure.free, pending);
            },
            _ => {
                assert(before + Seq::<nat>::empty() =~= before);
            },
        }
    }

    /// Adds the environments that the values of the entries of a hash refer
    /// to to `pending`.
    fn collect_used_environments_from_entries(
        pairs: &Vec<(HashKey, Object)>,
        pending: &mut Vec<usize>,
    )
        ensures
            naturals(final(pending)@) == naturals(old(pending)@) + handles_in_entries(
                entries_view(pairs@),
                pairs@.len() as int,
            ),
        decreases pairs,
    {
        let ghost before = naturals(pending@);
        let mut i: usize = 0;
        assert(before + handles_in_entries(entries_view(pairs@), 0) =~= before);
        while i < pairs.len()
            invariant
                i <= pairs@.len(),
                naturals(pending@) == before + handles_in_entries(entries_view(pairs@), i as int),
            decreases pairs@.len() - i,
        {
            let ghost so_far = naturals(pending@);
            Self::collect_used_environments_from_obj(&pairs[i].1, pending);
            assert(before + handles_in_entries(entries_view(pairs@), i as int + 1) =~= so_far
                + handles_of(entries_view(pairs@)[i as int].1));
            i += 1;
        }
    }

    /// Adds the environments that the values of `items` refer to to
    /// `pending`.
    fn collect_used_environments_from_list(items: &Vec<Object>, pending: &mut Vec<usize>)
        ensures
            naturals(final(pending)@) == naturals(old(pending)@) + handles_in(
                values_view(items@),
                items@.len() as int,
            ),
        decreases items,
    {
        let ghost before = naturals(pending@);
        let mut i: usize = 0;
        assert(before + handles_in(values_view(items@), 0) =~= before);
        while i < items.len()
            invariant
                i <= items@.len(),
                naturals(pending@) == before + handles_in(values_view(items@), i as int),
            decreases items@.len() - i,
        {
            let ghost so_far = naturals(pending@);
            Self::collect_used_environments_from_obj(&items[i], pending);
            assert(before + handles_in(values_view(items@), i as int + 1) =~= so_far + handles_of(
                values_view(items@)[i as int],
            ));
            i += 1;
        }
    }

    /// Hands over the lines that programs printed since the last call.
    pub fn take_output(&mut self) -> (lines: Vec<String>)
        ensures
            old(self).wf() ==> final(self).wf(),
            final(self).root() == old(self).root(),
            final(self).call_depth() == old(self).call_depth(),
            lines_view(lines@) == old(self)@.output,
            final(self)@ == (World { output: Seq::empty(), ..old(self)@ }),
    {
        let mut lines: Vec<String> = Vec::new();
        std::mem::swap(&mut lines, &mut self.output);
        assert(self@.output =~= Seq::<Seq<char>>::empty());
        lines
    }

    fn bind(&mut self, environment: Environment, name: String, value: Object)
        requires
            alive(old(self)@.heap, environment.index as nat),
            heap_sound(old(self)@.heap),
            value_sound(value.view(), old(self)@.heap),
        ensures
            heap_sound(final(self)@.heap),
            grows(old(self)@.heap, final(self)@.heap),
            final(self).root() == old(self).root(),
            final(self).call_depth() == old(self).call_depth(),
            final(self)@.heap.len() == old(self)@.heap.len(),
            final(self)@ == (World {
                heap: crate::environment::bound(
                    old(self)@.heap,
                    environment.index as nat,
                    name@,
                    value.view(),
                ),
                ..old(self)@
            }),
    {
        proof {
            lemma_bound_sound(old(self)@.heap, environment.index as nat, name@, value.view());
        }
        environment.set(&mut self.environment_owners, name, value);
    }

    fn evaluate_statements(
        &mut self,
        statements: &Vec<Statement>,
        environment: Environment,
        depth: usize,
    ) -> (r: Result<Object, Error>)
        requires
            heap_sound(old(self)@.heap),
            alive(old(self)@.heap, environment.index as nat),
        ensures
            safely(old(self)@.heap, final(self)@.heap, object_result(r)),
            final(self).root() == old(self).root(),
            final(self).call_depth() == old(self).call_depth(),
            eval_statements(
                statements_view(statements@),
                0,
                environment.index as nat,
                old(self)@,
                depth as nat,
                Value::Null,
            ) == (Evaluated { world: final(self)@, result: object_result(r) }),
        decreases depth, statements, statements@.len() + 1,
    {
        let mut last = Object::Null;
        let mut i: usize = 0;
        while i < statements.len()
            invariant
                i <= statements@.len(),
                self.call_depth() == old(self).call_depth(),
                self.root() == old(self).root(),
                heap_sound(self@.heap),
                grows(old(self)@.heap, self@.heap),
                alive(old(self)@.heap, environment.index as nat),
                value_sound(last.view(), self@.heap),
                    eval_statements(
                    statements_view(statements@),
                    0,
                    environment.index as nat,
                    old(self)@,
                    depth as nat,
                    Value::Null,
                ) == eval_statements(
                    statements_view(statements@),
                    i as int,
                    environment.index as nat,
                    self@,
                    depth as nat,
                    last.view(),
                ),
            decreases statements@.len() - i,
        {
            let ghost before = self@.heap;
            let outcome = self.evaluate_statement(&statements[i], environment, depth);
            proof {
                lemma_grows_on(old(self)@.heap, before, self@.heap);
            }
            let value = match outcome {
                Ok(value) => value,
                Err(error) => {
                    return Err(error);
                },
            };
            match value {
                Object::Return(_) => {
                    return Ok(value);
                },
                _ => {},
            }
            last = value;
            i += 1;
        }
        Ok(last)
    }

    fn evaluate_statement(
        &mut self,
        statement: &Statement,
        environment: Environment,
        depth: usize,
    ) -> (r: Result<Object, Error>)
        requires
            heap_sound(old(self)@.heap),
            alive(old(self)@.heap, environment.index as nat),
        ensures
            safely(old(self)@.heap, final(self)@.heap, object_result(r)),
            final(self).root() == old(self).root(),
            final(self).call_depth() == old(self).call_depth(),
            eval_statement(statement@, environment.index as nat, old(self)@, depth as nat) == (
            Evaluated { world: final(self)@, result: object_result(r) }),
        decreases depth, statement, 2int,
    {
        match statement {
            Statement::Let { name, value } => {
                let value = match self.evaluate_expression(value, environment, depth) {
                    Ok(value) => value,
                    Err(error) => {
                        return Err(error);
                    },
                };
                self.bind(environment, name.clone(), value);
                Ok(Object::Null)
            },
            Statement::Return(value) => {
                match self.evaluate_expression(value, environment, depth) {
                    Ok(value) => Ok(Object::Return(Rc::new(value))),
                    Err(error) => Err(error),
                }
            },
            Statement::Expression(value) => self.evaluate_expression(value, environment, depth),
        }
    }

    fn evaluate_expressions(
        &mut self,
        items: &Vec<Expression>,
        environment: Environment,
        depth: usize,
    ) -> (r: Result<Vec<Object>, Error>)
        requires
            heap_sound(old(self)@.heap),
            alive(old(self)@.heap, environment.index as nat),
        ensures
            values_safely(old(self)@.heap, final(self)@.heap, objects_result(r)),
            final(self).root() == old(self).root(),
            final(self).call_depth() == old(self).call_depth(),
            eval_expressions(
                expressions_view(items@),
                0,
                environment.index as nat,
                old(self)@,
                depth as nat,
                Seq::empty(),
            ) == (Listed { world: final(self)@, result: objects_result(r) }),
        decreases depth, items, items@.len() + 1,
    {
        let mut values: Vec<Object> = Vec::new();
        assert(values_view(values@) =~= Seq::empty());
        let mut i: usize = 0;
        while i < items.len()
            invariant
                i <= items@.len(),
                self.call_depth() == old(self).call_depth(),
                self.root() == old(self).root(),
                heap_sound(self@.heap),
                grows(old(self)@.heap, self@.heap),
                alive(old(self)@.heap, environment.index as nat),
                values_sound(values_view(values@), self@.heap),
                    eval_expressions(
                    expressions_view(items@),
                    0,
                    environment.index as nat,
                    old(self)@,
                    depth as nat,
                    Seq::empty(),
                ) == eval_expressions(
                    expressions_view(items@),
                    i as int,
                    environment.index as nat,
                    self@,
                    depth as nat,
                    values_view(values@),
                ),
            decreases items@.len() - i,
        {
            let ghost before = self@.heap;
            let ghost done = values_view(values@);
            let outcome = self.evaluate_expression(&items[i], environment, depth);
            proof {
                lemma_grows_on(old(self)@.heap, before, self@.heap);
                lemma_values_sound_grow(done, before, self@.heap);
            }
            let value = match outcome {
                Ok(value) => value,
                Err(error) => {
                    return Err(error);
                },
            };
            values.push(value);
            assert(values_view(values@) =~= done.push(value.view()));
            assert forall|j: int| 0 <= j < values_view(values@).len() implies value_sound(
                #[trigger] values_view(values@)[j],
                self@.heap,
            ) by {
                if j < done.len() {
                    assert(values_view(values@)[j] == done[j]);
                }
            }
            i += 1;
        }
        Ok(values)
    }

    fn evaluate_pairs(
        &mut self,
        pairs: &Vec<HashLiteralPair>,
        environment: Environment,
        depth: usize,
    ) -> (r: Result<Vec<(HashKey, Object)>, Error>)
        requires
            heap_sound(old(self)@.heap),
            alive(old(self)@.heap, environment.index as nat),
        ensures
            entries_safely(old(self)@.heap, final(self)@.heap, entries_result(r)),
            final(self).root() == old(self).root(),
            final(self).call_depth() == old(self).call_depth(),
            eval_pairs(
                pairs_view(pairs@),
                0,
                environment.index as nat,
                old(self)@,
                depth as nat,
                Seq::empty(),
            ) == (Listed { world: final(self)@, result: entries_result(r) }),
        decreases depth, pairs, pairs@.len() + 1,
    {
        let mut entries: Vec<(HashKey, Object)> = Vec::new();
        assert(entries_view(entries@) =~= Seq::empty());
        let mut i: usize = 0;
        while i < pairs.len()
            invariant
                i <= pairs@.len(),
                self.call_depth() == old(self).call_depth(),
                self.root() == old(self).root(),
                heap_sound(self@.heap),
                grows(old(self)@.heap, self@.heap),
                alive(old(self)@.heap, environment.index as nat),
                entries_sound(entries_view(entries@), self@.heap),
                    eval_pairs(
                    pairs_view(pairs@),
                    0,
                    environment.index as nat,
                    old(self)@,
                    depth as nat,
                    Seq::empty(),
                ) == eval_pairs(
                    pairs_view(pairs@),
                    i as int,
                    environment.index as nat,
                    self@,
                    depth as nat,
                    entries_view(entries@),
                ),
            decreases pairs@.len() - i,
        {
            let ghost before = self@.heap;
            let ghost done = entries_view(entries@);
            let outcome = self.evaluate_expression(&pairs[i].key, environment, depth);
            let ghost between = self@.heap;
            proof {
                lemma_grows_on(old(self)@.heap, before, between);
            }
            let key = match outcome {
                Ok(key) => key,
                Err(error) => {
                    return Err(error);
                },
            };
            let outcome = self.evaluate_expression(&pairs[i].value, environment, depth);
            proof {
                lemma_grows_on(old(self)@.heap, between, self@.heap);
                lemma_grows_on(before, between, self@.heap);
                lemma_entries_sound_grow(done, before, self@.heap);
            }
            let value = match outcome {
                Ok(value) => value,
                Err(error) => {
                    return Err(error);
                },
            };
            let hash_key = match HashKey::from_object(&key) {
                Ok(hash_key) => hash_key,
                Err(kind) => {
                    return Err(Error::NotHashable(String::from_str(kind.name())));
                },
            };
            proof {
                lemma_hash_insert_sound(done, hash_key@, value.view(), self@.heap);
            }
            hash_put(&mut entries, hash_key, value);
            i += 1;
        }
        Ok(entries)
    }

    fn evaluate_expression(
        &mut self,
        expression: &Expression,
        environment: Environment,
        depth: usize,
    ) -> (r: Result<Object, Error>)
        requires
            heap_sound(old(self)@.heap),
            alive(old(self)@.heap, environment.index as nat),
        ensures
            safely(old(self)@.heap, final(self)@.heap, object_result(r)),
            final(self).root() == old(self).root(),
            final(self).call_depth() == old(self).call_depth(),
            eval_expression(expression@, environment.index as nat, old(self)@, depth as nat) == (
            Evaluated { world: final(self)@, result: object_result(r) }),
        decreases depth, expression, 1int,
    {
        proof {
            lemma_expression_view(*expression);
        }
        match expression {
            Expression::Identifier(name) => {
                proof {
                    lemma_lookup_sound(self@.heap, environment.index as nat, name@);
                }
                match environment.get(&self.environment_owners, name.as_str()) {
                    Some(value) => {
                        return Ok(value);
                    },
                    None => {},
                }
                match BuiltinFunction::from_ident(name.as_str()) {
                    Some(function) => Ok(Object::Builtin(function)),
                    None => Err(Error::UnknownIdentifier(name.clone())),
                }
            },
            Expression::StringLiteral(value) => Ok(Object::String(Rc::new(value.clone()))),
            Expression::IntegerLiteral(value) => Ok(Object::Integer(*value)),
            Expression::BooleanLiteral(value) => Ok(Object::Boolean(*value)),
            Expression::ArrayLiteral(items) => {
                match self.evaluate_expressions(items, environment, depth) {
                    Ok(values) => {
                        let array = Object::Array(Rc::new(values));
                        proof {
                            lemma_object_view(array);
                        }
                        Ok(array)
                    },
                    Err(error) => Err(error),
                }
            },
            Expression::HashLiteral(_) => self.evaluate_hash_literal(
                expression,
                environment,
                depth,
            ),
            Expression::PrefixOperator { .. } => self.evaluate_prefix_operator(
                expression,
                environment,
                depth,
            ),
            Expression::InfixOperator { .. } => self.evaluate_infix_operator(
                expression,
                environment,
                depth,
            ),
            Expression::If { .. } => self.evaluate_if_expression(expression, environment, depth),
            Expression::FunctionLiteral { parameters, body } => {
                let function = FunctionObject {
                    parameters: Rc::new(copy_names(parameters)),
                    body: BlockStatement { statements: share(&body.statements) },
                    environment,
                };
                Ok(Object::Function(function))
            },
            Expression::FunctionCall { .. } => self.evaluate_function_call(
                expression,
                environment,
                depth,
            ),
            Expression::Index { .. } => self.evaluate_index(expression, environment, depth),
        }
    }

    fn evaluate_hash_literal(
        &mut self,
        expression: &Expression,
        environment: Environment,
        depth: usize,
    ) -> (r: Result<Object, Error>)
        requires
            heap_sound(old(self)@.heap),
            alive(old(self)@.heap, environment.index as nat),
        ensures
            safely(old(self)@.heap, final(self)@.heap, object_result(r)),
            final(self).root() == old(self).root(),
            final(self).call_depth() == old(self).call_depth(),
            eval_hash_literal(expression@, environment.index as nat, old(self)@, depth as nat)
                == (Evaluated { world: final(self)@, result: object_result(r) }),
        decreases depth, expression, 0int,
    {
        proof {
            lemma_expression_view(*expression);
        }
        let Expression::HashLiteral(pairs) = expression else {
            return Ok(Object::Null);
        };
        match self.evaluate_pairs(pairs, environment, depth) {
            Ok(entries) => {
                let hash = Object::HashMap(Rc::new(entries));
                proof {
                    lemma_object_view(hash);
                }
                Ok(hash)
            },
            Err(error) => Err(error),
        }
    }

    fn evaluate_prefix_operator(
        &mut self,
        expression: &Expression,
        environment: Environment,
        depth: usize,
    ) -> (r: Result<Object, Error>)
        requires
            heap_sound(old(self)@.heap),
            alive(old(self)@.heap, environment.index as nat),
        ensures
            safely(old(self)@.heap, final(self)@.heap, object_result(r)),
            final(self).root() == old(self).root(),
            final(self).call_depth() == old(self).call_depth(),
            eval_prefix_operator(expression@, environment.index as nat, old(self)@, depth as nat)
                == (Evaluated { world: final(self)@, result: object_result(r) }),
        decreases depth, expression, 0int,
    {
        let Expression::PrefixOperator { operator, right } = expression else {
            return Ok(Object::Null);
        };
        match self.evaluate_expression(right, environment, depth) {
            Ok(right) => {
                proof {
                    lemma_operators_sound(
                        *operator,
                        InfixOperatorKind::Add,
                        right.view(),
                        right.view(),
                        self@.heap,
                    );
                }
                apply_prefix_operator(*operator, &right)
            },
            Err(error) => Err(error),
        }
    }

    fn evaluate_infix_operator(
        &mut self,
        expression: &Expression,
        environment: Environment,
        depth: usize,
    ) -> (r: Result<Object, Error>)
        requires
            heap_sound(old(self)@.heap),
            alive(old(self)@.heap, environment.index as nat),
        ensures
            safely(old(self)@.heap, final(self)@.heap, object_result(r)),
            final(self).root() == old(self).root(),
            final(self).call_depth() == old(self).call_depth(),
            eval_infix_operator(expression@, environment.index as nat, old(self)@, depth as nat)
                == (Evaluated { world: final(self)@, result: object_result(r) }),
        decreases depth, expression, 0int,
    {
        let Expression::InfixOperator { operator, left, right } = expression else {
            return Ok(Object::Null);
        };
        let left = match self.evaluate_expression(left, environment, depth) {
            Ok(left) => left,
            Err(error) => {
                return Err(error);
            },
        };
        let ghost between = self@.heap;
        let outcome = self.evaluate_expression(right, environment, depth);
        proof {
            lemma_grows_on(old(self)@.heap, between, self@.heap);
        }
        let right = match outcome {
            Ok(right) => right,
            Err(error) => {
                return Err(error);
            },
        };
        proof {
            lemma_operators_sound(
                PrefixOperatorKind::Not,
                *operator,
                left.view(),
                right.view(),
                self@.heap,
            );
        }
        apply_infix_operator(*operator, &left, &right)
    }

    fn evaluate_if_expression(
        &mut self,
        expression: &Expression,
        environment: Environment,
        depth: usize,
    ) -> (r: Result<Object, Error>)
        requires
            heap_sound(old(self)@.heap),
            alive(old(self)@.heap, environment.index as nat),
        ensures
            safely(old(self)@.heap, final(self)@.heap, object_result(r)),
            final(self).root() == old(self).root(),
            final(self).call_depth() == old(self).call_depth(),
            eval_if_expression(expression@, environment.index as nat, old(self)@, depth as nat)
                == (Evaluated { world: final(self)@, result: object_result(r) }),
        decreases depth, expression, 0int,
    {
        let Expression::If { condition, consequence, alternative } = expression else {
            return Ok(Object::Null);
        };
        let condition = match self.evaluate_expression(condition, environment, depth) {
            Ok(condition) => condition,
            Err(error) => {
                return Err(error);
            },
        };
        let ghost between = self@.heap;
        let outcome = if condition.is_truthy() {
            self.evaluate_block_statement(consequence, environment, depth)
        } else {
            self.evaluate_block_statement(alternative, environment, depth)
        };
        proof {
            lemma_grows_on(old(self)@.heap, between, self@.heap);
        }
        outcome
    }

    fn evaluate_block_statement(
        &mut self,
        block: &BlockStatement,
        environment: Environment,
        depth: usize,
    ) -> (r: Result<Object, Error>)
        requires
            heap_sound(old(self)@.heap),
            alive(old(self)@.heap, environment.index as nat),
        ensures
            safely(old(self)@.heap, final(self)@.heap, object_result(r)),
            final(self).root() == old(self).root(),
            final(self).call_depth() == old(self).call_depth(),
            eval_block(block@, environment.index as nat, old(self)@, depth as nat) == (Evaluated {
                world: final(self)@,
                result: object_result(r),
            }),
        decreases depth, block, 1int,
    {
        proof {
            lemma_block_view(*block);
        }
        self.evaluate_statements(&block.statements, environment, depth)
    }

    /// Starts the call of a function of the language: creates the
    /// environment of the call and binds the parameters in it.
    fn enter(&mut self, function: &FunctionObject, args: &Vec<Object>) -> (scope: Environment)
        requires
            alive(old(self)@.heap, function.environment.index as nat),
            args@.len() >= function.parameters@.len(),
            heap_sound(old(self)@.heap),
            values_sound(values_view(args@), old(self)@.heap),
        ensures
            heap_sound(final(self)@.heap),
            grows(old(self)@.heap, final(self)@.heap),
            alive(final(self)@.heap, scope.index as nat),
            final(self).call_depth() == old(self).call_depth(),
            final(self).root() == old(self).root(),
            scope.index == old(self)@.heap.len(),
            entered(function@, values_view(args@), old(self)@) == Ok::<World, ErrorView>(
                final(self)@,
            ),
    {
        let (scope, owner) = function.environment.extend(&self.environment_owners);
        self.environment_owners.push(Some(owner));
        let ghost start = heap_view(self.environment_owners@);
        proof {
            lemma_extended_sound(old(self)@.heap, function.environment.index as nat);
        }
        let mut i: usize = 0;
        while i < function.parameters.len()
            invariant
                i <= function.parameters@.len(),
                args@.len() >= function.parameters@.len(),
                self.environment == old(self).environment,
                self.output == old(self).output,
                self.call_depth == old(self).call_depth,
                scope.index == old(self).environment_owners@.len(),
                heap_sound(self@.heap),
                grows(old(self)@.heap, self@.heap),
                alive(self@.heap, scope.index as nat),
                values_sound(values_view(args@), old(self)@.heap),
                parameters_bound(
                    start,
                    scope.index as nat,
                    names_view(function.parameters@),
                    values_view(args@),
                    0,
                ) == parameters_bound(
                    heap_view(self.environment_owners@),
                    scope.index as nat,
                    names_view(function.parameters@),
                    values_view(args@),
                    i as int,
                ),
            decreases function.parameters@.len() - i,
        {
            proof {
                assert(value_sound(values_view(args@)[i as int], old(self)@.heap));
                lemma_value_sound_grows(args@[i as int].view(), old(self)@.heap, self@.heap);
                lemma_bound_sound(
                    self@.heap,
                    scope.index as nat,
                    function.parameters@[i as int]@,
                    args@[i as int].view(),
                );
            }
            let ghost before = self@.heap;
            scope.set(
                &mut self.environment_owners,
                function.parameters[i].clone(),
                args[i].duplicate(),
            );
            proof {
                lemma_grows_on(old(self)@.heap, before, self@.heap);
            }
            i += 1;
        }
        scope
    }

    fn evaluate_function_call(
        &mut self,
        expression: &Expression,
        environment: Environment,
        depth: usize,
    ) -> (r: Result<Object, Error>)
        requires
            heap_sound(old(self)@.heap),
            alive(old(self)@.heap, environment.index as nat),
        ensures
            safely(old(self)@.heap, final(self)@.heap, object_result(r)),
            final(self).root() == old(self).root(),
            final(self).call_depth() == old(self).call_depth(),
            eval_function_call(expression@, environment.index as nat, old(self)@, depth as nat)
                == (Evaluated { world: final(self)@, result: object_result(r) }),
        decreases depth, expression, 0int,
    {
        proof {
            lemma_expression_view(*expression);
        }
        let Expression::FunctionCall { function, arguments } = expression else {
            return Ok(Object::Null);
        };
        let args = match self.evaluate_expressions(arguments, environment, depth) {
            Ok(args) => args,
            Err(error) => {
                return Err(error);
            },
        };
        let ghost between = self@.heap;
        let outcome = self.evaluate_expression(function, environment, depth);
        let ghost ready = self@.heap;
        proof {
            lemma_grows_on(old(self)@.heap, between, ready);
            lemma_values_sound_grow(values_view(args@), between, ready);
        }
        let callee = match outcome {
            Ok(callee) => callee,
            Err(error) => {
                return Err(error);
            },
        };
        match callee {
            Object::Function(called) => {
                if depth == 0 {
                    return Err(Error::StackOverflow);
                }
                if !self.holds(called.environment) {
                    return Err(Error::UnknownEnvironment);
                }
                if args.len() < called.parameters.len() {
                    return Err(
                        Error::WrongNumberOfArguments {
                            expected: called.parameters.len(),
                            got: args.len(),
                        },
                    );
                }
                let scope = self.enter(&called, &args);
                let ghost inside = self@.heap;
                let outcome = self.evaluate_block_statement(&called.body, scope, depth - 1);
                proof {
                    lemma_grows_on(ready, inside, self@.heap);
                    lemma_grows_on(old(self)@.heap, ready, self@.heap);
                }
                match outcome {
                    Ok(Object::Return(value)) => Ok(value.duplicate()),
                    Ok(value) => Ok(value),
                    Err(error) => Err(error),
                }
            },
            Object::Builtin(builtin) => {
                proof {
                    lemma_builtin_sound(builtin, values_view(args@), ready);
                }
                match builtin.execute(&args, &mut self.output) {
                    Ok(value) => Ok(value),
                    Err(error) => Err(Error::from_builtin(error)),
                }
            },
            other => Err(Error::NotAFunction(String::from_str(other.data_type().name()))),
        }
    }

    fn evaluate_index(
        &mut self,
        expression: &Expression,
        environment: Environment,
        depth: usize,
    ) -> (r: Result<Object, Error>)
        requires
            heap_sound(old(self)@.heap),
            alive(old(self)@.heap, environment.index as nat),
        ensures
            safely(old(self)@.heap, final(self)@.heap, object_result(r)),
            final(self).root() == old(self).root(),
            final(self).call_depth() == old(self).call_depth(),
            eval_index(expression@, environment.index as nat, old(self)@, depth as nat) == (
            Evaluated { world: final(self)@, result: object_result(r) }),
        decreases depth, expression, 0int,
    {
        let Expression::Index { left, index } = expression else {
            return Ok(Object::Null);
        };
        let container = match self.evaluate_expression(left, environment, depth) {
            Ok(container) => container,
            Err(error) => {
                return Err(error);
            },
        };
        let ghost between = self@.heap;
        let outcome = self.evaluate_expression(index, environment, depth);
        proof {
            lemma_grows_on(old(self)@.heap, between, self@.heap);
            lemma_value_sound_grows(container.view(), between, self@.heap);
        }
        let position = match outcome {
            Ok(position) => position,
            Err(error) => {
                return Err(error);
            },
        };
        proof {
            lemma_index_sound(container.view(), position.view(), self@.heap);
        }
        apply_index(&container, &position)
    }
}

} // verus!
