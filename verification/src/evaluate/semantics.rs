//! What the evaluator does, as mathematical functions on its state.

use vstd::prelude::*;
use crate::ast::{
    infix_operator_text, ExpressionView, InfixOperatorKind, PrefixOperatorKind, StatementView,
};
use crate::environment::{
    alive, bound, extended, lemma_lookup_prefix, lemma_rebound, lookup, store_value, Heap,
};
use crate::evaluate::garbage::collected;
use crate::evaluate::error::{builtin_error, ErrorView};
use crate::object::builtin::{builtin_of_ident, builtin_output, builtin_result, BuiltinFunction};
use crate::object::hashing::{hash_from, lemma_hash_from_tail};
use crate::object::{
    hash_insert, hash_key_of, hash_lookup, kind_name, negative, quotient, truthy, type_of,
    DataType, FunctionView, HashKeyView, Value,
};

verus! {

/// How many calls of functions of the language can be in progress at once,
/// unless the evaluator was made with another limit.
pub const MAX_CALL_DEPTH: usize = 1024;

/// The mathematical value of an evaluator: the environments, slot by slot,
/// and the lines printed so far.
pub struct World {
    pub heap: Heap,
    pub output: Seq<Seq<char>>,
}

/// Where an evaluation leaves the evaluator, and its value or error.
pub struct Evaluated {
    pub world: World,
    pub result: Result<Value, ErrorView>,
}

/// Where the evaluation of a list leaves the evaluator, and the values or
/// the error.
pub struct Listed<T> {
    pub world: World,
    pub result: Result<Seq<T>, ErrorView>,
}

/// An evaluation that yields `value`.
pub open spec fn yields(world: World, value: Value) -> Evaluated {
    Evaluated { world, result: Ok(value) }
}

/// An evaluation that fails.
pub open spec fn fails(world: World, error: ErrorView) -> Evaluated {
    Evaluated { world, result: Err(error) }
}

/// The value on its way out of a function, taken out of its wrapper.
pub open spec fn unwrapped(evaluated: Evaluated) -> Evaluated {
    match evaluated.result {
        Ok(Value::Return(value)) => yields(evaluated.world, *value),
        _ => evaluated,
    }
}

/// The kinds of the operands around the operator, as in `INTEGER + BOOLEAN`.
pub open spec fn operator_message(left: Value, operator: InfixOperatorKind, right: Value) -> Seq<
    char,
> {
    kind_name(type_of(left)) + " "@ + infix_operator_text(operator) + " "@ + kind_name(
        type_of(right),
    )
}

/// A prefix operator applied to a value: `!` yields whether the value is not
/// truthy, `-` the negative of an integer.
pub open spec fn prefix_result(operator: PrefixOperatorKind, right: Value) -> Result<
    Value,
    ErrorView,
> {
    match operator {
        PrefixOperatorKind::Not => Ok(Value::Boolean(!truthy(right))),
        PrefixOperatorKind::Negative => match right {
            Value::Integer(value) => Ok(Value::Integer(negative(value))),
            other => Err(ErrorView::UnknownOperator("-"@ + kind_name(type_of(other)))),
        },
    }
}

/// A binary operator applied to two integers: arithmetic wraps around.
pub open spec fn integer_infix(operator: InfixOperatorKind, a: i64, b: i64) -> Result<
    Value,
    ErrorView,
> {
    match operator {
        InfixOperatorKind::Add => Ok(Value::Integer(a.wrapping_add(b))),
        InfixOperatorKind::Subtract => Ok(Value::Integer(a.wrapping_sub(b))),
        InfixOperatorKind::Multiply => Ok(Value::Integer(a.wrapping_mul(b))),
        InfixOperatorKind::Divide => if b == 0 {
            Err(ErrorView::DivisionByZero)
        } else {
            Ok(Value::Integer(quotient(a, b)))
        },
        InfixOperatorKind::Equal => Ok(Value::Boolean(a == b)),
        InfixOperatorKind::NotEqual => Ok(Value::Boolean(a != b)),
        InfixOperatorKind::GreaterThan => Ok(Value::Boolean(a > b)),
        InfixOperatorKind::LessThan => Ok(Value::Boolean(a < b)),
    }
}

/// A binary operator applied to two values. Integers take every operator,
/// booleans `==` and `!=`, strings `+`. Operands of different kinds are a
/// type mismatch; any other combination is an unknown operator.
pub open spec fn infix_result(operator: InfixOperatorKind, left: Value, right: Value) -> Result<
    Value,
    ErrorView,
> {
    match (left, right) {
        (Value::Integer(a), Value::Integer(b)) => integer_infix(operator, a, b),
        (Value::Boolean(a), Value::Boolean(b)) => match operator {
            InfixOperatorKind::Equal => Ok(Value::Boolean(a == b)),
            InfixOperatorKind::NotEqual => Ok(Value::Boolean(a != b)),
            _ => Err(ErrorView::UnknownOperator(operator_message(left, operator, right))),
        },
        (Value::String(a), Value::String(b)) => match operator {
            InfixOperatorKind::Add => Ok(Value::String(a + b)),
            _ => Err(ErrorView::UnknownOperator(operator_message(left, operator, right))),
        },
        _ => if type_of(left) != type_of(right) {
            Err(ErrorView::TypeMismatch(operator_message(left, operator, right)))
        } else {
            Err(ErrorView::UnknownOperator(operator_message(left, operator, right)))
        },
    }
}

/// An index access: the item of an array at an integer index, or the value
/// of a hash under a key; `null` where there is none.
pub open spec fn index_result(container: Value, index: Value) -> Result<Value, ErrorView> {
    match container {
        Value::Array(items) => match index {
            Value::Integer(i) => Ok(
                if 0 <= i < items.len() {
                    items[i as int]
                } else {
                    Value::Null
                },
            ),
            other => Err(
                ErrorView::IndexOperatorNotSupported(
                    kind_name(DataType::Array),
                    kind_name(type_of(other)),
                ),
            ),
        },
        Value::HashMap(pairs) => match hash_key_of(index) {
            Ok(key) => Ok(hash_lookup(pairs, key)),
            Err(kind) => Err(ErrorView::NotHashable(kind_name(kind))),
        },
        other => Err(
            ErrorView::IndexOperatorNotSupported(
                kind_name(type_of(other)),
                kind_name(type_of(index)),
            ),
        ),
    }
}

/// `heap` with the parameters from `from` on bound to the arguments in the
/// same places, in the environment with index `scope`.
pub open spec fn parameters_bound(
    heap: Heap,
    scope: nat,
    parameters: Seq<Seq<char>>,
    args: Seq<Value>,
    from: int,
) -> Heap
    decreases parameters.len() - from,
{
    if from < 0 || from >= parameters.len() || from >= args.len() {
        heap
    } else {
        parameters_bound(
            bound(heap, scope, parameters[from], args[from]),
            scope,
            parameters,
            args,
            from + 1,
        )
    }
}

/// The start of a call of a function of the language: a new environment
/// inside the one that the function captured, with the parameters bound to
/// the arguments. The function's environment must still be there, and there
/// must be an argument for every parameter; further arguments are ignored.
/// The new environment gets the next slot of the heap.
pub open spec fn entered(function: FunctionView, args: Seq<Value>, world: World) -> Result<
    World,
    ErrorView,
> {
    if !alive(world.heap, function.environment) {
        Err(ErrorView::UnknownEnvironment)
    } else if args.len() < function.parameters.len() {
        Err(
            ErrorView::WrongNumberOfArguments {
                expected: function.parameters.len(),
                got: args.len(),
            },
        )
    } else {
        Ok(
            World {
                heap: parameters_bound(
                    extended(world.heap, function.environment),
                    world.heap.len(),
                    function.parameters,
                    args,
                    0,
                ),
                ..world
            },
        )
    }
}

/// The call of a built-in function: its result, and what it prints.
pub open spec fn builtin_applied(function: BuiltinFunction, args: Seq<Value>, world: World)
    -> Evaluated {
    Evaluated {
        world: World { output: world.output + builtin_output(function, args), ..world },
        result: match builtin_result(function, args) {
            Ok(value) => Ok(value),
            Err(error) => Err(builtin_error(error)),
        },
    }
}

/// Evaluates a statement. `let` binds its name in the environment and
/// yields `null`; `return` wraps its value for the way out of the function.
pub open spec fn eval_statement(statement: StatementView, scope: nat, world: World, depth: nat)
    -> Evaluated
    decreases depth, statement, 2int,
{
    match statement {
        StatementView::Let { name, value } => {
            let bound_value = eval_expression(value, scope, world, depth);
            match bound_value.result {
                Ok(value) => yields(
                    World {
                        heap: bound(bound_value.world.heap, scope, name, value),
                        ..bound_value.world
                    },
                    Value::Null,
                ),
                Err(_) => bound_value,
            }
        },
        StatementView::Return(value) => {
            let returned = eval_expression(value, scope, world, depth);
            match returned.result {
                Ok(value) => yields(returned.world, Value::Return(Box::new(value))),
                Err(_) => returned,
            }
        },
        StatementView::Expression(value) => eval_expression(value, scope, world, depth),
    }
}

/// Evaluates the statements from `from` on, in their order, up to the first
/// that yields a value on its way out of a function; that value is passed on
/// in its wrapper. Otherwise the value of the last statement is yielded;
/// `last` is the value of the statement before `from`.
pub open spec fn eval_statements(
    statements: Seq<StatementView>,
    from: int,
    scope: nat,
    world: World,
    depth: nat,
    last: Value,
) -> Evaluated
    decreases depth, statements, statements.len() - from,
{
    if from < 0 || from >= statements.len() {
        yields(world, last)
    } else {
        let first = eval_statement(statements[from], scope, world, depth);
        match first.result {
            Err(_) => first,
            Ok(Value::Return(_)) => first,
            Ok(value) => eval_statements(statements, from + 1, scope, first.world, depth, value),
        }
    }
}

/// Evaluates a block. An empty block yields `null`.
pub open spec fn eval_block(statements: Seq<StatementView>, scope: nat, world: World, depth: nat)
    -> Evaluated
    decreases depth, statements, statements.len() + 1,
{
    eval_statements(statements, 0, scope, world, depth, Value::Null)
}

/// Evaluates the expressions from `from` on, from left to right. `done`
/// holds the values of the expressions before `from`.
pub open spec fn eval_expressions(
    items: Seq<ExpressionView>,
    from: int,
    scope: nat,
    world: World,
    depth: nat,
    done: Seq<Value>,
) -> Listed<Value>
    decreases depth, items, items.len() - from,
{
    if from < 0 || from >= items.len() {
        Listed { world, result: Ok(done) }
    } else {
        let first = eval_expression(items[from], scope, world, depth);
        match first.result {
            Err(error) => Listed { world: first.world, result: Err(error) },
            Ok(value) => eval_expressions(
                items,
                from + 1,
                scope,
                first.world,
                depth,
                done.push(value),
            ),
        }
    }
}

/// Evaluates the entries of a hash literal from `from` on: each key, then
/// its value; then the key must be hashable. `done` holds the entries
/// before `from`.
pub open spec fn eval_pairs(
    pairs: Seq<(ExpressionView, ExpressionView)>,
    from: int,
    scope: nat,
    world: World,
    depth: nat,
    done: Seq<(HashKeyView, Value)>,
) -> Listed<(HashKeyView, Value)>
    decreases depth, pairs, pairs.len() - from,
{
    if from < 0 || from >= pairs.len() {
        Listed { world, result: Ok(done) }
    } else {
        let key = eval_expression(pairs[from].0, scope, world, depth);
        match key.result {
            Err(error) => Listed { world: key.world, result: Err(error) },
            Ok(key_value) => {
                let value = eval_expression(pairs[from].1, scope, key.world, depth);
                match value.result {
                    Err(error) => Listed { world: value.world, result: Err(error) },
                    Ok(value_value) => match hash_key_of(key_value) {
                        Err(kind) => Listed {
                            world: value.world,
                            result: Err(ErrorView::NotHashable(kind_name(kind))),
                        },
                        Ok(hash_key) => eval_pairs(
                            pairs,
                            from + 1,
                            scope,
                            value.world,
                            depth,
                            hash_insert(done, hash_key, value_value),
                        ),
                    },
                }
            },
        }
    }
}

/// Evaluates an expression in the environment with index `scope`. `depth`
/// is the number of calls that may still be nested.
pub open spec fn eval_expression(expression: ExpressionView, scope: nat, world: World, depth: nat)
    -> Evaluated
    decreases depth, expression, 1int,
{
    match expression {
        ExpressionView::Identifier(name) => match lookup(world.heap, scope, name) {
            Some(value) => yields(world, value),
            None => match builtin_of_ident(name) {
                Some(function) => yields(world, Value::Builtin(function)),
                None => fails(world, ErrorView::UnknownIdentifier(name)),
            },
        },
        ExpressionView::StringLiteral(value) => yields(world, Value::String(value)),
        ExpressionView::IntegerLiteral(value) => yields(world, Value::Integer(value)),
        ExpressionView::BooleanLiteral(value) => yields(world, Value::Boolean(value)),
        ExpressionView::ArrayLiteral(items) => {
            let listed = eval_expressions(items, 0, scope, world, depth, Seq::empty());
            match listed.result {
                Ok(values) => yields(listed.world, Value::Array(values)),
                Err(error) => fails(listed.world, error),
            }
        },
        ExpressionView::HashLiteral(_) => eval_hash_literal(expression, scope, world, depth),
        ExpressionView::PrefixOperator { .. } => eval_prefix_operator(
            expression,
            scope,
            world,
            depth,
        ),
        ExpressionView::InfixOperator { .. } => eval_infix_operator(
            expression,
            scope,
            world,
            depth,
        ),
        ExpressionView::If { .. } => eval_if_expression(expression, scope, world, depth),
        ExpressionView::FunctionLiteral { parameters, body } => yields(
            world,
            Value::Function(FunctionView { parameters, body, environment: scope }),
        ),
        ExpressionView::FunctionCall { .. } => eval_function_call(expression, scope, world, depth),
        ExpressionView::Index { .. } => eval_index(expression, scope, world, depth),
    }
}

/// Evaluates a hash literal.
pub open spec fn eval_hash_literal(
    expression: ExpressionView,
    scope: nat,
    world: World,
    depth: nat,
) -> Evaluated
    decreases depth, expression, 0int,
{
    match expression {
        ExpressionView::HashLiteral(pairs) => {
            let listed = eval_pairs(pairs, 0, scope, world, depth, Seq::empty());
            match listed.result {
                Ok(entries) => yields(listed.world, Value::HashMap(entries)),
                Err(error) => fails(listed.world, error),
            }
        },
        _ => yields(world, Value::Null),
    }
}

/// Evaluates a prefix operation.
pub open spec fn eval_prefix_operator(
    expression: ExpressionView,
    scope: nat,
    world: World,
    depth: nat,
) -> Evaluated
    decreases depth, expression, 0int,
{
    match expression {
        ExpressionView::PrefixOperator { operator, right } => {
            let operand = eval_expression(*right, scope, world, depth);
            match operand.result {
                Ok(value) => Evaluated {
                    world: operand.world,
                    result: prefix_result(operator, value),
                },
                Err(_) => operand,
            }
        },
        _ => yields(world, Value::Null),
    }
}

/// Evaluates a binary operation: the left operand, then the right one.
pub open spec fn eval_infix_operator(
    expression: ExpressionView,
    scope: nat,
    world: World,
    depth: nat,
) -> Evaluated
    decreases depth, expression, 0int,
{
    match expression {
        ExpressionView::InfixOperator { operator, left, right } => {
            let first = eval_expression(*left, scope, world, depth);
            match first.result {
                Err(_) => first,
                Ok(left_value) => {
                    let second = eval_expression(*right, scope, first.world, depth);
                    match second.result {
                        Err(_) => second,
                        Ok(right_value) => Evaluated {
                            world: second.world,
                            result: infix_result(operator, left_value, right_value),
                        },
                    }
                },
            }
        },
        _ => yields(world, Value::Null),
    }
}

/// Evaluates a conditional: the consequence if the condition is truthy, the
/// alternative otherwise.
pub open spec fn eval_if_expression(
    expression: ExpressionView,
    scope: nat,
    world: World,
    depth: nat,
) -> Evaluated
    decreases depth, expression, 0int,
{
    match expression {
        ExpressionView::If { condition, consequence, alternative } => {
            let test = eval_expression(*condition, scope, world, depth);
            match test.result {
                Err(_) => test,
                Ok(value) => if truthy(value) {
                    eval_block(consequence, scope, test.world, depth)
                } else {
                    eval_block(alternative, scope, test.world, depth)
                },
            }
        },
        _ => yields(world, Value::Null),
    }
}

/// Evaluates a call: the arguments from left to right, then the callee. A
/// function of the language runs its body in a new environment inside the
/// one it captured; a value on its way out of the body loses its wrapper.
pub open spec fn eval_function_call(
    expression: ExpressionView,
    scope: nat,
    world: World,
    depth: nat,
) -> Evaluated
    decreases depth, expression, 0int,
{
    match expression {
        ExpressionView::FunctionCall { function, arguments } => {
            let listed = eval_expressions(arguments, 0, scope, world, depth, Seq::empty());
            match listed.result {
                Err(error) => fails(listed.world, error),
                Ok(args) => {
                    let callee = eval_expression(*function, scope, listed.world, depth);
                    match callee.result {
                        Err(_) => callee,
                        Ok(Value::Function(called)) => if depth == 0 {
                            fails(callee.world, ErrorView::StackOverflow)
                        } else {
                            match entered(called, args, callee.world) {
                                Err(error) => fails(callee.world, error),
                                Ok(inside) => unwrapped(
                                    eval_block(
                                        called.body,
                                        callee.world.heap.len(),
                                        inside,
                                        (depth - 1) as nat,
                                    ),
                                ),
                            }
                        },
                        Ok(Value::Builtin(builtin)) => builtin_applied(
                            builtin,
                            args,
                            callee.world,
                        ),
                        Ok(other) => fails(
                            callee.world,
                            ErrorView::NotAFunction(kind_name(type_of(other))),
                        ),
                    }
                },
            }
        },
        _ => yields(world, Value::Null),
    }
}

/// Evaluates an index access: the container, then the index.
pub open spec fn eval_index(expression: ExpressionView, scope: nat, world: World, depth: nat)
    -> Evaluated
    decreases depth, expression, 0int,
{
    match expression {
        ExpressionView::Index { left, index } => {
            let container = eval_expression(*left, scope, world, depth);
            match container.result {
                Err(_) => container,
                Ok(container_value) => {
                    let position = eval_expression(*index, scope, container.world, depth);
                    match position.result {
                        Err(_) => position,
                        Ok(index_value) => Evaluated {
                            world: position.world,
                            result: index_result(container_value, index_value),
                        },
                    }
                },
            }
        },
        _ => yields(world, Value::Null),
    }
}

/// Evaluates a program in the outermost environment, `root`: the value of its last
/// statement, or the value of the first `return` that is reached. At most
/// `depth` calls can be in progress at once. After the program, whether it
/// failed or not, the environments that nothing can reach any more are
/// released.
pub open spec fn eval_program(
    program: Seq<StatementView>,
    root: nat,
    world: World,
    depth: nat,
) -> Evaluated {
    let evaluated = unwrapped(eval_statements(program, 0, root, world, depth, Value::Null));
    Evaluated {
        world: World { heap: collected(evaluated.world.heap, root), ..evaluated.world },
        ..evaluated
    }
}

/// Binding parameters touches the environment of the call only, and there
/// only the parameters that are bound.
pub proof fn lemma_parameters_bound(
    heap: Heap,
    scope: nat,
    parameters: Seq<Seq<char>>,
    args: Seq<Value>,
    from: int,
    name: Seq<char>,
)
    requires
        alive(heap, scope),
        0 <= from,
        forall|i: int| from <= i < parameters.len() ==> parameters[i] != name,
    ensures
        parameters_bound(heap, scope, parameters, args, from).len() == heap.len(),
        forall|i: int|
            0 <= i < heap.len() && i != scope ==> parameters_bound(
                heap,
                scope,
                parameters,
                args,
                from,
            )[i] == heap[i],
        alive(parameters_bound(heap, scope, parameters, args, from), scope),
        parameters_bound(heap, scope, parameters, args, from)[scope as int]->0.outer
            == heap[scope as int]->0.outer,
        store_value(
            parameters_bound(heap, scope, parameters, args, from)[scope as int]->0.store,
            name,
        ) == store_value(heap[scope as int]->0.store, name),
    decreases parameters.len() - from,
{
    if from < parameters.len() && from < args.len() {
        let next = bound(heap, scope, parameters[from], args[from]);
        lemma_parameters_bound(next, scope, parameters, args, from + 1, name);
        lemma_rebound(heap[scope as int]->0.store, parameters[from], args[from], name);
        let after = parameters_bound(heap, scope, parameters, args, from);
        assert(after == parameters_bound(next, scope, parameters, args, from + 1));
        assert forall|i: int| 0 <= i < heap.len() && i != scope implies after[i] == heap[i] by {
            assert(next[i] == heap[i]);
        }
    }
}

/// A function resolves its free identifiers in the environment that it
/// captured: in the environment of a call, a name that is not a parameter
/// has the value that it has in the function's environment.
pub proof fn law_closure_scope(
    function: FunctionView,
    args: Seq<Value>,
    world: World,
    name: Seq<char>,
)
    requires
        entered(function, args, world) is Ok,
        forall|i: int| 0 <= i < function.parameters.len() ==> function.parameters[i] != name,
    ensures
        lookup(entered(function, args, world)->Ok_0.heap, world.heap.len(), name) == lookup(
            world.heap,
            function.environment,
            name,
        ),
{
    let scope = world.heap.len();
    let start = extended(world.heap, function.environment);
    let inside = entered(function, args, world)->Ok_0.heap;
    lemma_parameters_bound(start, scope, function.parameters, args, 0, name);
    assert(start[scope as int]->0.store =~= Seq::empty());
    assert(inside[scope as int]->0.outer == Some(function.environment));
    assert forall|i: int| 0 <= i < scope implies world.heap[i] == inside[i] by {
        assert(start[i] == world.heap[i]);
    }
    lemma_lookup_prefix(world.heap, inside, scope, function.environment, name);
}

/// A `let` that binds a function literal makes the function's own name
/// visible to the function: the name is bound, in the environment that the
/// function captures, to the function itself.
pub proof fn law_recursive_binding(
    name: Seq<char>,
    parameters: Seq<Seq<char>>,
    body: Seq<StatementView>,
    scope: nat,
    world: World,
    depth: nat,
)
    requires
        alive(world.heap, scope),
    ensures
        ({
            let function = Value::Function(FunctionView { parameters, body, environment: scope });
            let after = eval_statement(
                StatementView::Let {
                    name,
                    value: ExpressionView::FunctionLiteral { parameters, body },
                },
                scope,
                world,
                depth,
            );
            &&& after.result == Ok::<Value, ErrorView>(Value::Null)
            &&& after.world.heap == bound(world.heap, scope, name, function)
            &&& lookup(after.world.heap, scope, name) == Some(function)
        }),
{
    let function = Value::Function(FunctionView { parameters, body, environment: scope });
    let literal = ExpressionView::FunctionLiteral { parameters, body };
    assert(eval_expression(literal, scope, world, depth) == yields(world, function));
    lemma_rebound(world.heap[scope as int]->0.store, name, function, name);
}

/// Only integers, booleans and strings are keys of a hash.
pub proof fn law_hashable_kinds(value: Value)
    ensures
        hash_key_of(value) is Ok <==> (value is Integer || value is Boolean || value is String),
        hash_key_of(value) is Err ==> hash_key_of(value)->Err_0 == type_of(value),
{
}

/// An index into a hash that is not hashable is an error.
pub proof fn law_hash_index_domain(pairs: Seq<(HashKeyView, Value)>, index: Value)
    requires
        !(index is Integer || index is Boolean || index is String),
    ensures
        index_result(Value::HashMap(pairs), index) == Err::<Value, ErrorView>(
            ErrorView::NotHashable(kind_name(type_of(index))),
        ),
{
}

/// The values of the keys and values of a hash literal from the `from`-th
/// entry on, in their order, and where their evaluation leaves the world;
/// or the first error of an evaluation.
pub open spec fn pairs_evaluated(
    pairs: Seq<(ExpressionView, ExpressionView)>,
    from: int,
    scope: nat,
    world: World,
    depth: nat,
) -> Listed<Value>
    decreases depth, pairs, pairs.len() - from,
{
    if from < 0 || from >= pairs.len() {
        Listed { world, result: Ok(Seq::empty()) }
    } else {
        let key = eval_expression(pairs[from].0, scope, world, depth);
        match key.result {
            Err(error) => Listed { world: key.world, result: Err(error) },
            Ok(key_value) => {
                let value = eval_expression(pairs[from].1, scope, key.world, depth);
                match value.result {
                    Err(error) => Listed { world: value.world, result: Err(error) },
                    Ok(value_value) => {
                        let rest = pairs_evaluated(pairs, from + 1, scope, value.world, depth);
                        match rest.result {
                            Err(error) => rest,
                            Ok(list) => Listed {
                                world: rest.world,
                                result: Ok(seq![key_value, value_value] + list),
                            },
                        }
                    },
                }
            },
        }
    }
}

/// Where every key and every value of a hash literal evaluates without an
/// error, the literal yields the hash of their values, in which the later
/// entry of a key wins, or fails with `NotHashable` and the kind of the
/// first key that is not hashable: what [`hash_from`] says, and the laws
/// beside it.
pub proof fn law_hash_literal(
    pairs: Seq<(ExpressionView, ExpressionView)>,
    from: int,
    scope: nat,
    world: World,
    depth: nat,
    done: Seq<(HashKeyView, Value)>,
)
    requires
        0 <= from,
        pairs_evaluated(pairs, from, scope, world, depth).result is Ok,
    ensures
        eval_pairs(pairs, from, scope, world, depth, done).result == (match hash_from(
            pairs_evaluated(pairs, from, scope, world, depth).result->Ok_0,
            0,
            done,
        ) {
            Ok(entries) => Ok::<Seq<(HashKeyView, Value)>, ErrorView>(entries),
            Err(kind) => Err(ErrorView::NotHashable(kind_name(kind))),
        }),
    decreases pairs.len() - from,
{
    if from < pairs.len() {
        let key = eval_expression(pairs[from].0, scope, world, depth);
        let value = eval_expression(pairs[from].1, scope, key.world, depth);
        let key_value = key.result->Ok_0;
        let value_value = value.result->Ok_0;
        let rest = pairs_evaluated(pairs, from + 1, scope, value.world, depth);
        let list = rest.result->Ok_0;
        let values = seq![key_value, value_value] + list;
        assert(values[0] == key_value && values[1] == value_value);
        match hash_key_of(key_value) {
            Ok(hash_key) => {
                let next = hash_insert(done, hash_key, value_value);
                law_hash_literal(pairs, from + 1, scope, value.world, depth, next);
                lemma_hash_from_tail(seq![key_value, value_value], list, 0, next);
            },
            Err(_) => {},
        }
    }
}

/// A key of a hash literal that is not hashable is an error: where the key
/// and the value of an entry evaluate without error and the key's value is
/// not hashable, the literal fails with `NotHashable`.
pub proof fn law_hash_literal_domain(
    pairs: Seq<(ExpressionView, ExpressionView)>,
    from: int,
    scope: nat,
    world: World,
    depth: nat,
    done: Seq<(HashKeyView, Value)>,
)
    requires
        0 <= from < pairs.len(),
        eval_expression(pairs[from].0, scope, world, depth).result is Ok,
        eval_expression(
            pairs[from].1,
            scope,
            eval_expression(pairs[from].0, scope, world, depth).world,
            depth,
        ).result is Ok,
        ({
            let key = eval_expression(pairs[from].0, scope, world, depth).result->Ok_0;
            !(key is Integer || key is Boolean || key is String)
        }),
    ensures
        eval_pairs(pairs, from, scope, world, depth, done).result == Err::<
            Seq<(HashKeyView, Value)>,
            ErrorView,
        >(
            ErrorView::NotHashable(
                kind_name(
                    type_of(eval_expression(pairs[from].0, scope, world, depth).result->Ok_0),
                ),
            ),
        ),
{
}

/// A built-in function changes no binding: its call leaves every
/// environment as it was. Whatever `rest` and `push` return, the array that
/// they were given is still what any name bound to it means.
pub proof fn law_builtin_purity(function: BuiltinFunction, args: Seq<Value>, world: World)
    ensures
        builtin_applied(function, args, world).world.heap == world.heap,
{
}

} // verus!
