//! The compiler after a program that failed to compile: it is as it is
//! between two programs, so that the next program finds it in order.

use vstd::prelude::*;
use crate::ast::{ExpressionView, StatementView};
use crate::code::Instruction;
use crate::compile::discipline::{
    between_programs, block_fits, conditional_fits, expression_fits, expressions_fit, function_fits,
    lemma_block, lemma_expression, lemma_function, lemma_statement, lemma_value, pairs_fit,
    program_fits, statement_fits, statements_fit,
};
use crate::compile::heights::{
    between, grown, inside, kept, lemma_between, lemma_defined, lemma_inside, lemma_ready,
    lemma_resolved, lemma_skip, ready, sane,
};
use crate::compile::symbol_table::{defined, lemma_outermost, outermost, SymbolTableView};
use crate::compile::{
    compile_block, compile_conditional, compile_expression, compile_expressions,
    compile_function_literal, compile_infix_operator, compile_pairs, compile_program,
    compile_statement, compile_statements, current, emitted, without_trailing_pop, CompilerView,
};
use crate::object::Value;

verus! {

/// Heights for the code of a compiler, whatever they are.
pub open spec fn some_heights(c: CompilerView) -> Seq<int> {
    Seq::new(current(c).len() + 1, |i: int| 0int)
}

/// A compiler that is in order has heights for its code.
proof fn lemma_some_heights(c: CompilerView)
    requires
        sane(c),
    ensures
        ready(c, some_heights(c)),
{
    lemma_ready(c, some_heights(c));
}

/// A compiler that has grown is in order.
proof fn lemma_grown_sane(
    c: CompilerView,
    h: Seq<int>,
    d: CompilerView,
    g: Seq<int>,
    rise: int,
    slack: int,
)
    requires
        grown(c, h, d, g, rise, slack),
    ensures
        sane(d),
        ready(d, g),
{
    lemma_ready(d, g);
}

/// Whether it fails or not, compiling a statement leaves the compiler in
/// order.
pub proof fn lemma_statement_sane(statement: StatementView, c: CompilerView)
    requires
        sane(c),
        statement_fits(statement, c),
    ensures
        sane(compile_statement(statement, c).state),
    decreases statement, 2int,
{
    let out = compile_statement(statement, c);
    let h = some_heights(c);
    lemma_some_heights(c);
    if out.error is None {
        let g = lemma_statement(statement, c, h);
        lemma_grown_sane(c, h, out.state, g, 0, 1);
    } else {
        match statement {
            StatementView::Let { name, value } => {
                lemma_defined(c.symbols, name);
                let start = CompilerView { symbols: defined(c.symbols, name).0, ..c };
                if value is FunctionLiteral {
                    lemma_function_sane(value, Some(name), start);
                } else {
                    lemma_expression_sane(value, start);
                }
            },
            StatementView::Return(value) => {
                lemma_expression_sane(value, c);
            },
            StatementView::Expression(value) => {
                lemma_expression_sane(value, c);
            },
        }
    }
}

/// Whether it fails or not, compiling statements leaves the compiler in
/// order.
pub proof fn lemma_statements_sane(statements: Seq<StatementView>, from: int, c: CompilerView)
    requires
        sane(c),
        0 <= from <= statements.len(),
        statements_fit(statements, from, c),
    ensures
        sane(compile_statements(statements, from, c).state),
    decreases statements, statements.len() - from,
{
    if from < statements.len() {
        let first = compile_statement(statements[from], c);
        lemma_statement_sane(statements[from], c);
        if first.error is None {
            lemma_statements_sane(statements, from + 1, first.state);
        }
    }
}

/// Whether it fails or not, compiling a block leaves the compiler in order.
pub proof fn lemma_block_sane(statements: Seq<StatementView>, c: CompilerView)
    requires
        sane(c),
        block_fits(statements, c),
    ensures
        sane(compile_block(statements, c).state),
    decreases statements, statements.len() + 1,
{
    let out = compile_block(statements, c);
    let h = some_heights(c);
    lemma_some_heights(c);
    if out.error is None {
        let g = lemma_block(statements, c, h);
        lemma_grown_sane(c, h, out.state, g, 0, 1);
    } else {
        lemma_statements_sane(statements, 0, c);
    }
}

/// Whether it fails or not, compiling expressions leaves the compiler in
/// order.
pub proof fn lemma_expressions_sane(items: Seq<ExpressionView>, from: int, c: CompilerView)
    requires
        sane(c),
        0 <= from <= items.len(),
        expressions_fit(items, from, c),
    ensures
        sane(compile_expressions(items, from, c).state),
    decreases items, items.len() - from,
{
    if from < items.len() {
        let first = compile_expression(items[from], c);
        lemma_expression_sane(items[from], c);
        if first.error is None {
            lemma_expressions_sane(items, from + 1, first.state);
        }
    }
}

/// Whether it fails or not, compiling the entries of a hash literal leaves
/// the compiler in order.
pub proof fn lemma_pairs_sane(
    pairs: Seq<(ExpressionView, ExpressionView)>,
    from: int,
    c: CompilerView,
)
    requires
        sane(c),
        0 <= from <= pairs.len(),
        pairs_fit(pairs, from, c),
    ensures
        sane(compile_pairs(pairs, from, c).state),
    decreases pairs, pairs.len() - from,
{
    if from < pairs.len() {
        let key = compile_expression(pairs[from].0, c);
        lemma_expression_sane(pairs[from].0, c);
        if key.error is None {
            let value = compile_expression(pairs[from].1, key.state);
            lemma_expression_sane(pairs[from].1, key.state);
            if value.error is None {
                lemma_pairs_sane(pairs, from + 1, value.state);
            }
        }
    }
}

/// Whether it fails or not, compiling an expression leaves the compiler in
/// order.
pub proof fn lemma_expression_sane(expression: ExpressionView, c: CompilerView)
    requires
        sane(c),
        expression_fits(expression, c),
    ensures
        sane(compile_expression(expression, c).state),
    decreases expression, 1int,
{
    let out = compile_expression(expression, c);
    let h = some_heights(c);
    lemma_some_heights(c);
    if out.error is None {
        let g = lemma_expression(expression, c, h);
        lemma_grown_sane(c, h, out.state, g, 1, 0);
    } else {
        match expression {
            ExpressionView::Identifier(name) => {
                lemma_resolved(c.symbols, name);
            },
            ExpressionView::ArrayLiteral(items) => {
                lemma_expressions_sane(items, 0, c);
            },
            ExpressionView::HashLiteral(pairs) => {
                lemma_pairs_sane(pairs, 0, c);
            },
            ExpressionView::PrefixOperator { operator, right } => {
                lemma_expression_sane(*right, c);
            },
            ExpressionView::InfixOperator { operator, left, right } => {
                let (first, second) = if operator is LessThan {
                    (*right, *left)
                } else {
                    (*left, *right)
                };
                assert(out == compile_infix_operator(expression, c));
                lemma_expression_sane(first, c);
                let one = compile_expression(first, c);
                if one.error is None {
                    lemma_expression_sane(second, one.state);
                }
            },
            ExpressionView::If { .. } => {
                lemma_conditional_sane(expression, c);
            },
            ExpressionView::FunctionLiteral { .. } => {
                lemma_function_sane(expression, None, c);
            },
            ExpressionView::FunctionCall { function, arguments } => {
                lemma_expression_sane(*function, c);
                let callee = compile_expression(*function, c);
                if callee.error is None {
                    lemma_expressions_sane(arguments, 0, callee.state);
                }
            },
            ExpressionView::Index { left, index } => {
                lemma_expression_sane(*left, c);
                let container = compile_expression(*left, c);
                if container.error is None {
                    lemma_expression_sane(*index, container.state);
                }
            },
            _ => {},
        }
    }
}

/// Whether it fails or not, compiling a conditional leaves the compiler in
/// order.
proof fn lemma_conditional_sane(expression: ExpressionView, c: CompilerView)
    requires
        sane(c),
        expression is If,
        conditional_fits(expression, c),
        compile_conditional(expression, c).error is Some,
    ensures
        sane(compile_conditional(expression, c).state),
    decreases expression, 0int,
{
    let condition = *expression->If_condition;
    let consequence = expression->If_consequence;
    let alternative = expression->If_alternative;
    let h = some_heights(c);
    lemma_some_heights(c);
    let test = compile_expression(condition, c);
    if test.error is Some {
        lemma_expression_sane(condition, c);
    } else {
        let base = h[current(c).len() as int];
        let asked_h = lemma_expression(condition, c, h);
        lemma_grown_sane(c, h, test.state, asked_h, 1, 0);
        lemma_skip(test.state, asked_h, base);
        let skipping = emitted(test.state, Instruction::JumpNotTruthy(0));
        lemma_ready(skipping, asked_h.push(base));
        let first = compile_block(consequence, skipping);
        if first.error is Some {
            lemma_block_sane(consequence, skipping);
        } else {
            let taken_h = lemma_value(consequence, skipping, asked_h.push(base));
            let taken = without_trailing_pop(first.state);
            lemma_grown_sane(skipping, asked_h.push(base), taken, taken_h, 1, 0);
            lemma_between(taken, taken_h, current(test.state).len() as int, base);
            let other = between(taken, current(test.state).len() as int);
            lemma_ready(other, taken_h.push(base));
            lemma_block_sane(alternative, other);
        }
    }
}

/// Whether it fails or not, compiling a function literal leaves the
/// compiler in order.
pub proof fn lemma_function_sane(
    expression: ExpressionView,
    name: Option<Seq<char>>,
    c: CompilerView,
)
    requires
        sane(c),
        expression is FunctionLiteral,
        function_fits(expression, name, c),
    ensures
        sane(compile_function_literal(expression, name, c).state),
    decreases expression, 0int,
{
    let out = compile_function_literal(expression, name, c);
    let h = some_heights(c);
    lemma_some_heights(c);
    if out.error is None {
        let g = lemma_function(expression, name, c, h);
        lemma_grown_sane(c, h, out.state, g, 1, 0);
    } else {
        let parameters = expression->FunctionLiteral_parameters;
        let body = expression->FunctionLiteral_body;
        lemma_inside(c, h, name, parameters);
        let start = inside(c, name, parameters);
        lemma_ready(start, seq![0int]);
        lemma_block_sane(body, start);
    }
}

/// What is kept in a table is kept in its outermost scope.
proof fn lemma_kept_outermost(table: SymbolTableView)
    requires
        kept(table),
    ensures
        kept(outermost(table)),
    decreases table,
{
    match table.outer {
        Some(outer) => {
            lemma_kept_outermost(*outer);
        },
        None => {},
    }
}

/// Whether a program compiles or fails to compile, the compiler is
/// afterwards, back in its outermost scope, as it is between two programs:
/// the next program finds the constants disciplined and the table that of
/// the top level.
pub proof fn law_compiler_stays_between_programs(
    program: Seq<StatementView>,
    constants: Seq<Value>,
    symbols: SymbolTableView,
)
    requires
        between_programs(constants, symbols),
        program_fits(program, constants, symbols),
    ensures
        ({
            let after = compile_program(program, constants, symbols).state;
            between_programs(after.constants, outermost(after.symbols))
        }),
{
    let c = CompilerView { constants, symbols, scopes: seq![Seq::<Instruction>::empty()] };
    lemma_statements_sane(program, 0, c);
    let after = compile_statements(program, 0, c).state;
    lemma_kept_outermost(after.symbols);
    lemma_outermost(after.symbols);
}

} // verus!
