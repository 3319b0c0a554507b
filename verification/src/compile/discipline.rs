//! Why compiled code keeps the stack discipline of the virtual machine:
//! the compiler knows, for every position of the code it emits, how high
//! the stack is there.

use vstd::prelude::*;
use crate::ast::{ExpressionView, PrefixOperatorKind, StatementView};
use crate::code::{BytecodeView, Instruction};
use crate::compile::heights::{
    between, closure_made, grown, inside, kept, lemma_between, lemma_branches, lemma_closure,
    lemma_constant, lemma_defined, lemma_emit, lemma_inside, lemma_ready, lemma_resolved,
    lemma_returning, lemma_skip, lemma_still, lemma_stripped, lemma_table, lemma_then,
    lemma_twice, placed, ready, stretch,
};
use crate::compile::symbol_table::{defined, resolved, SymbolTableView};
use crate::compile::{
    builtin_table, compile_block, compile_conditional, compile_expression, compile_expressions,
    compile_function_literal, compile_infix_operator, compile_pairs, compile_program,
    compile_statement, compile_statements, current, emitted, function_entered, load, operation,
    parameters_defined, patched, scope_left, store, with_trailing_return, without_trailing_pop,
    CompilerView,
};
use crate::object::Value;
use crate::vm::discipline::{
    all_disciplined, bytecode_typed, disciplined, flows, law_run_empties_stack,
    lemma_function_heights,
};
use crate::vm::machine::{runs_to, MachineView, GLOBALS_SIZE};

verus! {

/// Whether a statement is compiled from `c` without cutting an operand
/// that says how many values an instruction takes or where a jump leads.
pub open spec fn statement_fits(statement: StatementView, c: CompilerView) -> bool
    decreases statement, 2int,
{
    match statement {
        StatementView::Let { name, value } => {
            let start = CompilerView { symbols: defined(c.symbols, name).0, ..c };
            if value is FunctionLiteral {
                function_fits(value, Some(name), start)
            } else {
                expression_fits(value, start)
            }
        },
        StatementView::Return(value) => expression_fits(value, c),
        StatementView::Expression(value) => expression_fits(value, c),
    }
}

/// Whether the statements from `from` on are compiled from `c` without
/// cutting such an operand.
pub open spec fn statements_fit(statements: Seq<StatementView>, from: int, c: CompilerView)
    -> bool
    decreases statements, statements.len() - from,
{
    if from < 0 || from >= statements.len() {
        true
    } else {
        let first = compile_statement(statements[from], c);
        statement_fits(statements[from], c) && (first.error is Some || statements_fit(
            statements,
            from + 1,
            first.state,
        ))
    }
}

/// Whether a block is compiled from `c` without cutting such an operand.
pub open spec fn block_fits(statements: Seq<StatementView>, c: CompilerView) -> bool
    decreases statements, statements.len() + 1,
{
    statements_fit(statements, 0, c)
}

/// Whether the expressions from `from` on are compiled from `c` without
/// cutting such an operand.
pub open spec fn expressions_fit(items: Seq<ExpressionView>, from: int, c: CompilerView) -> bool
    decreases items, items.len() - from,
{
    if from < 0 || from >= items.len() {
        true
    } else {
        let first = compile_expression(items[from], c);
        expression_fits(items[from], c) && (first.error is Some || expressions_fit(
            items,
            from + 1,
            first.state,
        ))
    }
}

/// Whether the entries from `from` on are compiled from `c` without cutting
/// such an operand.
pub open spec fn pairs_fit(pairs: Seq<(ExpressionView, ExpressionView)>, from: int, c: CompilerView)
    -> bool
    decreases pairs, pairs.len() - from,
{
    if from < 0 || from >= pairs.len() {
        true
    } else {
        let key = compile_expression(pairs[from].0, c);
        let value = compile_expression(pairs[from].1, key.state);
        expression_fits(pairs[from].0, c) && (key.error is Some || (expression_fits(
            pairs[from].1,
            key.state,
        ) && (value.error is Some || pairs_fit(pairs, from + 1, value.state))))
    }
}

/// Whether an expression is compiled from `c` without cutting such an
/// operand: a list literal has no more items, and a call no more arguments,
/// than the operand of its instruction can say.
pub open spec fn expression_fits(expression: ExpressionView, c: CompilerView) -> bool
    decreases expression, 1int,
{
    match expression {
        ExpressionView::ArrayLiteral(items) => items.len() <= 0xffff && expressions_fit(
            items,
            0,
            c,
        ),
        ExpressionView::HashLiteral(pairs) => 2 * pairs.len() <= 0xffff && pairs_fit(pairs, 0, c),
        ExpressionView::PrefixOperator { operator, right } => expression_fits(*right, c),
        ExpressionView::InfixOperator { operator, left, right } => {
            let (first, second) = if operator is LessThan {
                (*right, *left)
            } else {
                (*left, *right)
            };
            let one = compile_expression(first, c);
            expression_fits(first, c) && (one.error is Some || expression_fits(second, one.state))
        },
        ExpressionView::If { .. } => conditional_fits(expression, c),
        ExpressionView::FunctionLiteral { .. } => function_fits(expression, None, c),
        ExpressionView::FunctionCall { function, arguments } => {
            let callee = compile_expression(*function, c);
            arguments.len() <= 0xff && expression_fits(*function, c) && (callee.error is Some
                || expressions_fit(arguments, 0, callee.state))
        },
        ExpressionView::Index { left, index } => {
            let container = compile_expression(*left, c);
            expression_fits(*left, c) && (container.error is Some || expression_fits(
                *index,
                container.state,
            ))
        },
        _ => true,
    }
}

/// Whether a conditional is compiled from `c` without cutting such an
/// operand: both jumps lead to where they are meant to.
pub open spec fn conditional_fits(expression: ExpressionView, c: CompilerView) -> bool
    decreases expression, 0int,
{
    match expression {
        ExpressionView::If { condition, consequence, alternative } => {
            let test = compile_expression(*condition, c);
            let skip_position = current(test.state).len() as int;
            let start = emitted(test.state, Instruction::JumpNotTruthy(0));
            let first = compile_block(consequence, start);
            let jumping = emitted(without_trailing_pop(first.state), Instruction::Jump(0));
            let next = patched(
                jumping,
                skip_position,
                Instruction::JumpNotTruthy((current(jumping).len() as usize) as u16),
            );
            let second = compile_block(alternative, next);
            expression_fits(*condition, c) && (test.error is Some || (block_fits(
                consequence,
                start,
            ) && (first.error is Some || (current(jumping).len() <= 0xffff && block_fits(
                alternative,
                next,
            ) && (second.error is Some || current(without_trailing_pop(second.state)).len()
                <= 0xffff)))))
        },
        _ => true,
    }
}

/// Whether a function literal is compiled from `c` without cutting such an
/// operand: the function captures no more values than the operand of
/// `Closure` can say.
pub open spec fn function_fits(expression: ExpressionView, name: Option<Seq<char>>, c: CompilerView)
    -> bool
    decreases expression, 0int,
{
    match expression {
        ExpressionView::FunctionLiteral { parameters, body } => {
            let start = parameters_defined(function_entered(c, name), parameters, 0);
            let inside = compile_block(body, start);
            block_fits(body, start) && (inside.error is Some || scope_left(
                with_trailing_return(inside.state),
            ).2.len() <= 0xff)
        },
        _ => true,
    }
}

/// Whether code ends as the code of the statement does.
pub open spec fn ends_as(statement: StatementView, code: Seq<Instruction>) -> bool {
    code.len() > 0 && match statement {
        StatementView::Let { .. } => code.last() is SetGlobal || code.last() is SetLocal,
        StatementView::Return(_) => code.last() is ReturnValue,
        StatementView::Expression(_) => code.last() == Instruction::Pop,
    }
}

/// The code of a statement leaves the stack as high as it was.
pub proof fn lemma_statement(statement: StatementView, c: CompilerView, h: Seq<int>) -> (g: Seq<
    int,
>)
    requires
        ready(c, h),
        statement_fits(statement, c),
        compile_statement(statement, c).error is None,
    ensures
        grown(c, h, compile_statement(statement, c).state, g, 0, 1),
        current(compile_statement(statement, c).state).len() >= current(c).len() + 2,
        ends_as(statement, current(compile_statement(statement, c).state)),
    decreases statement, 2int,
{
    match statement {
        StatementView::Let { name, value } => {
            let (symbols, symbol) = defined(c.symbols, name);
            lemma_ready(c, h);
            lemma_defined(c.symbols, name);
            let start = CompilerView { symbols, ..c };
            lemma_table(c, h, symbols);
            let middle = if value is FunctionLiteral {
                lemma_function(value, Some(name), start, h)
            } else {
                lemma_expression(value, start, h)
            };
            let valued = if value is FunctionLiteral {
                compile_function_literal(value, Some(name), start).state
            } else {
                compile_expression(value, start).state
            };
            lemma_then(c, h, start, h, valued, middle, (0, 0), (1, 0));
            let g = lemma_emit(valued, middle, store(symbol), -1);
            lemma_then(c, h, valued, middle, emitted(valued, store(symbol)), g, (1, 0), (-1, 1));
            g
        },
        StatementView::Return(value) => {
            let middle = lemma_expression(value, c, h);
            let valued = compile_expression(value, c).state;
            let g = lemma_emit(valued, middle, Instruction::ReturnValue, -1);
            lemma_then(
                c,
                h,
                valued,
                middle,
                emitted(valued, Instruction::ReturnValue),
                g,
                (1, 0),
                (-1, 1),
            );
            g
        },
        StatementView::Expression(value) => {
            let middle = lemma_expression(value, c, h);
            let valued = compile_expression(value, c).state;
            let g = lemma_emit(valued, middle, Instruction::Pop, -1);
            lemma_then(c, h, valued, middle, emitted(valued, Instruction::Pop), g, (1, 0), (-1, 1));
            g
        },
    }
}

/// The code of a list of statements leaves the stack as high as it was.
pub proof fn lemma_statements(
    statements: Seq<StatementView>,
    from: int,
    c: CompilerView,
    h: Seq<int>,
) -> (g: Seq<int>)
    requires
        ready(c, h),
        0 <= from <= statements.len(),
        statements_fit(statements, from, c),
        compile_statements(statements, from, c).error is None,
    ensures
        grown(c, h, compile_statements(statements, from, c).state, g, 0, 1),
        from < statements.len() ==> current(compile_statements(statements, from, c).state).len()
            >= current(c).len() + 2 && ends_as(
            statements.last(),
            current(compile_statements(statements, from, c).state),
        ),
    decreases statements, statements.len() - from,
{
    if from >= statements.len() {
        lemma_still(c, h);
        h
    } else {
        let middle = lemma_statement(statements[from], c, h);
        let first = compile_statement(statements[from], c).state;
        let g = lemma_statements(statements, from + 1, first, middle);
        let all = compile_statements(statements, from + 1, first).state;
        lemma_then(c, h, first, middle, all, g, (0, 1), (0, 1));
        g
    }
}

/// The code of a block, as it is before its value is made use of, leaves
/// the stack as high as it was and ends in `Pop` or `ReturnValue`.
pub proof fn lemma_block(statements: Seq<StatementView>, c: CompilerView, h: Seq<int>) -> (g: Seq<
    int,
>)
    requires
        ready(c, h),
        block_fits(statements, c),
        compile_block(statements, c).error is None,
    ensures
        grown(c, h, compile_block(statements, c).state, g, 0, 1),
        current(compile_block(statements, c).state).len() >= current(c).len() + 2,
        current(compile_block(statements, c).state).last() == Instruction::Pop || current(
            compile_block(statements, c).state,
        ).last() is ReturnValue,
    decreases statements, statements.len() + 1,
{
    if statements.len() == 0 {
        let one = lemma_emit(c, h, Instruction::Null, 1);
        let first = emitted(c, Instruction::Null);
        let g = lemma_emit(first, one, Instruction::Pop, -1);
        lemma_then(c, h, first, one, emitted(first, Instruction::Pop), g, (1, 1), (-1, 1));
        g
    } else {
        let body = lemma_statements(statements, 0, c, h);
        let done = compile_statements(statements, 0, c).state;
        if statements.last() is Let {
            let one = lemma_emit(done, body, Instruction::Null, 1);
            let first = emitted(done, Instruction::Null);
            let g = lemma_emit(first, one, Instruction::Pop, -1);
            lemma_then(c, h, done, body, first, one, (0, 1), (1, 1));
            lemma_then(c, h, first, one, emitted(first, Instruction::Pop), g, (1, 1), (-1, 1));
            g
        } else {
            body
        }
    }
}

/// The code of a list of expressions raises the stack by their number.
pub proof fn lemma_expressions(
    items: Seq<ExpressionView>,
    from: int,
    c: CompilerView,
    h: Seq<int>,
) -> (g: Seq<int>)
    requires
        ready(c, h),
        0 <= from <= items.len(),
        expressions_fit(items, from, c),
        compile_expressions(items, from, c).error is None,
    ensures
        grown(c, h, compile_expressions(items, from, c).state, g, items.len() - from, 0),
    decreases items, items.len() - from,
{
    if from >= items.len() {
        lemma_still(c, h);
        h
    } else {
        let middle = lemma_expression(items[from], c, h);
        let first = compile_expression(items[from], c).state;
        let g = lemma_expressions(items, from + 1, first, middle);
        let all = compile_expressions(items, from + 1, first).state;
        lemma_then(c, h, first, middle, all, g, (1, 0), (items.len() - from - 1, 0));
        g
    }
}

/// The code of the entries of a hash literal raises the stack by twice
/// their number.
pub proof fn lemma_pairs(
    pairs: Seq<(ExpressionView, ExpressionView)>,
    from: int,
    c: CompilerView,
    h: Seq<int>,
) -> (g: Seq<int>)
    requires
        ready(c, h),
        0 <= from <= pairs.len(),
        pairs_fit(pairs, from, c),
        compile_pairs(pairs, from, c).error is None,
    ensures
        grown(c, h, compile_pairs(pairs, from, c).state, g, 2 * (pairs.len() - from), 0),
    decreases pairs, pairs.len() - from,
{
    if from >= pairs.len() {
        lemma_still(c, h);
        h
    } else {
        let one = lemma_expression(pairs[from].0, c, h);
        let key = compile_expression(pairs[from].0, c).state;
        let two = lemma_expression(pairs[from].1, key, one);
        let value = compile_expression(pairs[from].1, key).state;
        lemma_then(c, h, key, one, value, two, (1, 0), (1, 0));
        let g = lemma_pairs(pairs, from + 1, value, two);
        let all = compile_pairs(pairs, from + 1, value).state;
        lemma_then(c, h, value, two, all, g, (2, 0), (2 * (pairs.len() - from - 1), 0));
        g
    }
}

/// The code of an expression raises the stack by one: by its value.
pub proof fn lemma_expression(expression: ExpressionView, c: CompilerView, h: Seq<int>) -> (g: Seq<
    int,
>)
    requires
        ready(c, h),
        expression_fits(expression, c),
        compile_expression(expression, c).error is None,
    ensures
        grown(c, h, compile_expression(expression, c).state, g, 1, 0),
        current(compile_expression(expression, c).state).len() > current(c).len(),
    decreases expression, 1int,
{
    match expression {
        ExpressionView::Identifier(name) => lemma_identifier(expression, c, h),
        ExpressionView::IntegerLiteral(value) => lemma_constant(c, h, Value::Integer(value)),
        ExpressionView::BooleanLiteral(value) => {
            let instruction = if value {
                Instruction::True
            } else {
                Instruction::False
            };
            lemma_ready(c, h);
            lemma_emit(c, h, instruction, 1)
        },
        ExpressionView::StringLiteral(value) => lemma_constant(c, h, Value::String(value)),
        ExpressionView::ArrayLiteral(items) => lemma_array(expression, c, h),
        ExpressionView::HashLiteral(pairs) => lemma_hash(expression, c, h),
        ExpressionView::PrefixOperator { operator, right } => lemma_prefix(expression, c, h),
        ExpressionView::InfixOperator { .. } => lemma_infix(expression, c, h),
        ExpressionView::If { .. } => lemma_conditional(expression, c, h),
        ExpressionView::FunctionLiteral { .. } => lemma_function(expression, None, c, h),
        ExpressionView::FunctionCall { function, arguments } => lemma_call(expression, c, h),
        ExpressionView::Index { left, index } => lemma_index(expression, c, h),
    }
}

/// The code of a name pushes its value.
proof fn lemma_identifier(expression: ExpressionView, c: CompilerView, h: Seq<int>) -> (g: Seq<int>)
    requires
        ready(c, h),
        expression is Identifier,
        expression_fits(expression, c),
        compile_expression(expression, c).error is None,
    ensures
        grown(c, h, compile_expression(expression, c).state, g, 1, 0),
        current(compile_expression(expression, c).state).len() > current(c).len(),
    decreases expression, 0int,
{
    let name = expression->Identifier_0;
    let (symbols, found) = resolved(c.symbols, name);
    lemma_ready(c, h);
    lemma_resolved(c.symbols, name);
    let state = CompilerView { symbols, ..c };
    lemma_table(c, h, symbols);
    let symbol = found->Some_0;
    lemma_ready(state, h);
    let g = lemma_emit(state, h, load(symbol), 1);
    lemma_then(c, h, state, h, emitted(state, load(symbol)), g, (0, 0), (1, 1));
    g
}

/// The code of an array literal pushes the items and makes one value of them.
proof fn lemma_array(expression: ExpressionView, c: CompilerView, h: Seq<int>) -> (g: Seq<int>)
    requires
        ready(c, h),
        expression is ArrayLiteral,
        expression_fits(expression, c),
        compile_expression(expression, c).error is None,
    ensures
        grown(c, h, compile_expression(expression, c).state, g, 1, 0),
        current(compile_expression(expression, c).state).len() > current(c).len(),
    decreases expression, 0int,
{
    let items = expression->ArrayLiteral_0;
    let middle = lemma_expressions(items, 0, c, h);
    let listed = compile_expressions(items, 0, c).state;
    let instruction = Instruction::Array((items.len() as usize) as u16);
    let g = lemma_emit(listed, middle, instruction, 1 - items.len());
    lemma_then(
        c,
        h,
        listed,
        middle,
        emitted(listed, instruction),
        g,
        (items.len() as int, 0),
        (1 - items.len(), 1),
    );
    g
}

/// The code of a hash literal pushes keys and values and makes one value of them.
proof fn lemma_hash(expression: ExpressionView, c: CompilerView, h: Seq<int>) -> (g: Seq<int>)
    requires
        ready(c, h),
        expression is HashLiteral,
        expression_fits(expression, c),
        compile_expression(expression, c).error is None,
    ensures
        grown(c, h, compile_expression(expression, c).state, g, 1, 0),
        current(compile_expression(expression, c).state).len() > current(c).len(),
    decreases expression, 0int,
{
    let pairs = expression->HashLiteral_0;
    let middle = lemma_pairs(pairs, 0, c, h);
    let listed = compile_pairs(pairs, 0, c).state;
    let count = (pairs.len() as usize).wrapping_mul(2) as u16;
    lemma_twice(pairs.len());
    let instruction = Instruction::Hash(count);
    let g = lemma_emit(listed, middle, instruction, 1 - 2 * pairs.len());
    lemma_then(
        c,
        h,
        listed,
        middle,
        emitted(listed, instruction),
        g,
        ((2 * pairs.len()) as int, 0),
        (1 - 2 * pairs.len(), 1),
    );
    g
}

/// The code of a prefix operation puts its result in the place of the operand.
proof fn lemma_prefix(expression: ExpressionView, c: CompilerView, h: Seq<int>) -> (g: Seq<int>)
    requires
        ready(c, h),
        expression is PrefixOperator,
        expression_fits(expression, c),
        compile_expression(expression, c).error is None,
    ensures
        grown(c, h, compile_expression(expression, c).state, g, 1, 0),
        current(compile_expression(expression, c).state).len() > current(c).len(),
    decreases expression, 0int,
{
    let right = *expression->PrefixOperator_right;
    let middle = lemma_expression(right, c, h);
    let valued = compile_expression(right, c).state;
    let instruction = match expression->PrefixOperator_operator {
        PrefixOperatorKind::Not => Instruction::Bang,
        PrefixOperatorKind::Negative => Instruction::Minus,
    };
    let g = lemma_emit(valued, middle, instruction, 0);
    lemma_then(c, h, valued, middle, emitted(valued, instruction), g, (1, 0), (0, 1));
    g
}

/// The code of a binary operation puts its result in the place of the operands.
proof fn lemma_infix(expression: ExpressionView, c: CompilerView, h: Seq<int>) -> (g: Seq<int>)
    requires
        ready(c, h),
        expression is InfixOperator,
        expression_fits(expression, c),
        compile_expression(expression, c).error is None,
    ensures
        grown(c, h, compile_expression(expression, c).state, g, 1, 0),
        current(compile_expression(expression, c).state).len() > current(c).len(),
    decreases expression, 0int,
{
    let operator = expression->InfixOperator_operator;
    let (first, second) = if operator is LessThan {
        (*expression->InfixOperator_right, *expression->InfixOperator_left)
    } else {
        (*expression->InfixOperator_left, *expression->InfixOperator_right)
    };
    assert(compile_expression(expression, c) == compile_infix_operator(expression, c));
    let one = lemma_expression(first, c, h);
    let lower = compile_expression(first, c).state;
    let two = lemma_expression(second, lower, one);
    let upper = compile_expression(second, lower).state;
    lemma_then(c, h, lower, one, upper, two, (1, 0), (1, 0));
    let g = lemma_emit(upper, two, operation(operator), -1);
    lemma_then(c, h, upper, two, emitted(upper, operation(operator)), g, (2, 0), (-1, 1));
    g
}

/// The code of a call puts the result in the place of the function and its arguments.
proof fn lemma_call(expression: ExpressionView, c: CompilerView, h: Seq<int>) -> (g: Seq<int>)
    requires
        ready(c, h),
        expression is FunctionCall,
        expression_fits(expression, c),
        compile_expression(expression, c).error is None,
    ensures
        grown(c, h, compile_expression(expression, c).state, g, 1, 0),
        current(compile_expression(expression, c).state).len() > current(c).len(),
    decreases expression, 0int,
{
    let function = *expression->FunctionCall_function;
    let arguments = expression->FunctionCall_arguments;
    let one = lemma_expression(function, c, h);
    let callee = compile_expression(function, c).state;
    let two = lemma_expressions(arguments, 0, callee, one);
    let listed = compile_expressions(arguments, 0, callee).state;
    lemma_then(c, h, callee, one, listed, two, (1, 0), (arguments.len() as int, 0));
    let instruction = Instruction::Call((arguments.len() as usize) as u8);
    let g = lemma_emit(listed, two, instruction, -arguments.len());
    lemma_then(
        c,
        h,
        listed,
        two,
        emitted(listed, instruction),
        g,
        ((1 + arguments.len()) as int, 0),
        (-arguments.len(), 1),
    );
    g
}

/// The code of an index expression puts the element in the place of container and index.
proof fn lemma_index(expression: ExpressionView, c: CompilerView, h: Seq<int>) -> (g: Seq<int>)
    requires
        ready(c, h),
        expression is Index,
        expression_fits(expression, c),
        compile_expression(expression, c).error is None,
    ensures
        grown(c, h, compile_expression(expression, c).state, g, 1, 0),
        current(compile_expression(expression, c).state).len() > current(c).len(),
    decreases expression, 0int,
{
    let left = *expression->Index_left;
    let index = *expression->Index_index;
    let one = lemma_expression(left, c, h);
    let container = compile_expression(left, c).state;
    let two = lemma_expression(index, container, one);
    let indexed = compile_expression(index, container).state;
    lemma_then(c, h, container, one, indexed, two, (1, 0), (1, 0));
    let g = lemma_emit(indexed, two, Instruction::Index, -1);
    lemma_then(c, h, indexed, two, emitted(indexed, Instruction::Index), g, (2, 0), (-1, 1));
    g
}

/// The code of a block whose value is made use of raises the stack by
/// one.
pub proof fn lemma_value(statements: Seq<StatementView>, c: CompilerView, h: Seq<int>) -> (g: Seq<
    int,
>)
    requires
        ready(c, h),
        block_fits(statements, c),
        compile_block(statements, c).error is None,
    ensures
        grown(c, h, without_trailing_pop(compile_block(statements, c).state), g, 1, 0),
        current(without_trailing_pop(compile_block(statements, c).state)).len() > current(c).len(),
    decreases statements, statements.len() + 2,
{
    let raw = lemma_block(statements, c, h);
    lemma_stripped(c, h, compile_block(statements, c).state, raw)
}

/// The code of a conditional raises the stack by one, whichever arm runs.
pub proof fn lemma_conditional(expression: ExpressionView, c: CompilerView, h: Seq<int>) -> (g:
    Seq<int>)
    requires
        ready(c, h),
        expression is If,
        conditional_fits(expression, c),
        compile_conditional(expression, c).error is None,
    ensures
        grown(c, h, compile_conditional(expression, c).state, g, 1, 0),
        current(compile_conditional(expression, c).state).len() > current(c).len(),
    decreases expression, 0int,
{
    let condition = *expression->If_condition;
    let consequence = expression->If_consequence;
    let alternative = expression->If_alternative;
    let base = h[current(c).len() as int];
    let asked_h = lemma_expression(condition, c, h);
    let asked = compile_expression(condition, c).state;
    lemma_skip(asked, asked_h, base);
    let skipping = emitted(asked, Instruction::JumpNotTruthy(0));
    let taken_h = lemma_value(consequence, skipping, asked_h.push(base));
    let taken = without_trailing_pop(compile_block(consequence, skipping).state);
    lemma_between(taken, taken_h, current(asked).len() as int, base);
    let other = between(taken, current(asked).len() as int);
    let ended_h = lemma_value(alternative, other, taken_h.push(base));
    let ended = without_trailing_pop(compile_block(alternative, other).state);
    lemma_branches(c, h, (asked, asked_h), (taken, taken_h), (ended, ended_h));
    ended_h
}

/// The code around a function literal raises the stack by one, and the
/// code of the function keeps the discipline.
pub proof fn lemma_function(
    expression: ExpressionView,
    name: Option<Seq<char>>,
    c: CompilerView,
    h: Seq<int>,
) -> (g: Seq<int>)
    requires
        ready(c, h),
        expression is FunctionLiteral,
        function_fits(expression, name, c),
        compile_function_literal(expression, name, c).error is None,
    ensures
        grown(c, h, compile_function_literal(expression, name, c).state, g, 1, 0),
        current(compile_function_literal(expression, name, c).state).len() > current(c).len(),
    decreases expression, 0int,
{
    let parameters = expression->FunctionLiteral_parameters;
    let body = expression->FunctionLiteral_body;
    let start = inside(c, name, parameters);
    lemma_inside(c, h, name, parameters);
    let raw = lemma_block(body, start, seq![0int]);
    let b = compile_block(body, start).state;
    lemma_returning(start, b, raw);
    let returning = with_trailing_return(b);
    assert forall|k: int| 0 <= k < c.scopes.len() implies #[trigger] returning.scopes[k]
        == c.scopes[k] by {
        assert(start.scopes[k] == c.scopes[k]);
    }
    let g = lemma_closure(c, h, returning, parameters.len());
    assert(compile_function_literal(expression, name, c).state == closure_made(
        returning,
        parameters.len(),
    ));
    g
}

/// Whether a program is compiled, with the constants and symbols of
/// earlier programs, without cutting an operand that says how many values
/// an instruction takes or where a jump leads.
pub open spec fn program_fits(
    program: Seq<StatementView>,
    constants: Seq<Value>,
    symbols: SymbolTableView,
) -> bool {
    statements_fit(
        program,
        0,
        CompilerView { constants, symbols, scopes: seq![Seq::<Instruction>::empty()] },
    )
}

/// Whether constants and symbols are such as a compiler has between two
/// programs: the constants are disciplined, and the table is that of the
/// outermost scope, with globals and built-in functions only.
pub open spec fn between_programs(constants: Seq<Value>, symbols: SymbolTableView) -> bool {
    all_disciplined(constants) && symbols.outer is None && kept(symbols)
}

/// A new compiler is as a compiler is between two programs.
pub proof fn law_new_compiler_is_between_programs()
    ensures
        between_programs(Seq::empty(), builtin_table()),
{
    let table = builtin_table();
    assert(table.free_symbols.len() == 0);
    assert(table.outer is None);
    assert forall|i: int| 0 <= i < table.store.len() implies {
        let scope = (#[trigger] table.store[i]).1.scope;
        scope is Global || scope is Builtin
    } by {
        assert(table.store.len() == 6);
    }
}

/// The bytecode of a program that compiles without an operand being cut
/// keeps the stack discipline: there are heights that fit its instructions,
/// with nothing on the stack at the end, and every function among its
/// constants keeps the discipline too. The compiler is then again as it is
/// between two programs.
pub proof fn law_compiled_code_keeps_discipline(
    program: Seq<StatementView>,
    constants: Seq<Value>,
    symbols: SymbolTableView,
) -> (heights: Seq<int>)
    requires
        between_programs(constants, symbols),
        program_fits(program, constants, symbols),
        compile_program(program, constants, symbols).error is None,
    ensures
        ({
            let after = compile_program(program, constants, symbols).state;
            &&& bytecode_typed(
                BytecodeView { instructions: current(after), constants: after.constants },
                heights,
            )
            &&& between_programs(after.constants, after.symbols)
        }),
{
    reveal(ready);
    reveal(stretch);
    let c = CompilerView { constants, symbols, scopes: seq![Seq::<Instruction>::empty()] };
    let h = seq![0int];
    assert(current(c) =~= Seq::<Instruction>::empty());
    let g = lemma_statements(program, 0, c, h);
    let after = compile_statements(program, 0, c).state;
    let code = current(after);
    assert(g[0] == h[0]);
    assert forall|i: int| 0 <= i < code.len() implies flows(code, g, i) && !(
    #[trigger] code[i] is CurrentClosure) by {
        assert(placed(code, g, i, code.len() - 1, true));
    }
    g
}

/// A run of a program that compiles without an operand being cut, on a
/// machine whose globals earlier such programs have left, ends with an
/// empty stack if it ends without an error: every value that the program
/// pushes is popped again. The globals that the run leaves are fit for the
/// next program.
pub proof fn law_successful_run_empties_stack(
    program: Seq<StatementView>,
    constants: Seq<Value>,
    symbols: SymbolTableView,
    before: MachineView,
    limit: nat,
)
    requires
        between_programs(constants, symbols),
        program_fits(program, constants, symbols),
        compile_program(program, constants, symbols).error is None,
        before.globals.len() == GLOBALS_SIZE,
        all_disciplined(before.globals),
    ensures
        ({
            let after = compile_program(program, constants, symbols).state;
            let bytecode = BytecodeView { instructions: current(after), constants: after.constants };
            let (machine, error) = runs_to(before, bytecode, limit);
            &&& error is None ==> machine.sp == 0
            &&& machine.globals.len() == GLOBALS_SIZE
            &&& all_disciplined(machine.globals)
        }),
{
    let heights = law_compiled_code_keeps_discipline(program, constants, symbols);
    let after = compile_program(program, constants, symbols).state;
    let bytecode = BytecodeView { instructions: current(after), constants: after.constants };
    law_run_empties_stack(before, bytecode, heights, limit);
}

/// Whether every jump of the code leads to a place within the code or to
/// its end.
pub open spec fn jumps_within(code: Seq<Instruction>) -> bool {
    forall|i: int|
        0 <= i < code.len() ==> ((#[trigger] code[i]) matches Instruction::Jump(target) ==> target
            <= code.len()) && (code[i] matches Instruction::JumpNotTruthy(target) ==> target
            <= code.len())
}

/// The jumps of compiled code lead to places within the code: those of the
/// program, and those of every function among the constants.
pub proof fn law_jumps_lead_into_the_code(
    program: Seq<StatementView>,
    constants: Seq<Value>,
    symbols: SymbolTableView,
)
    requires
        between_programs(constants, symbols),
        program_fits(program, constants, symbols),
        compile_program(program, constants, symbols).error is None,
    ensures
        ({
            let after = compile_program(program, constants, symbols).state;
            &&& jumps_within(current(after))
            &&& forall|k: int|
                0 <= k < after.constants.len() ==> ((
                #[trigger] after.constants[k]) matches Value::CompiledFunction(function)
                    ==> jumps_within(function.instructions))
        }),
{
    let heights = law_compiled_code_keeps_discipline(program, constants, symbols);
    let after = compile_program(program, constants, symbols).state;
    let code = current(after);
    assert forall|i: int| 0 <= i < code.len() implies ((#[trigger] code[i]) matches Instruction::Jump(
        target,
    ) ==> target <= code.len()) && (code[i] matches Instruction::JumpNotTruthy(target) ==> target
        <= code.len()) by {
        assert(flows(code, heights, i));
    }
    assert forall|k: int| 0 <= k < after.constants.len() implies ((
    #[trigger] after.constants[k]) matches Value::CompiledFunction(function) ==> jumps_within(
        function.instructions,
    )) by {
        assert(disciplined(after.constants[k]));
        match after.constants[k] {
            Value::CompiledFunction(function) => {
                lemma_function_heights(function.instructions);
            },
            _ => {},
        }
    }
}

} // verus!
