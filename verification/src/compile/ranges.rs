//! The operands of compiled code that name a constant name one that is
//! there.

use vstd::prelude::*;
use crate::ast::{ExpressionView, StatementView};
use crate::code::Instruction;
use crate::compile::symbol_table::{defined, resolved, Symbol, SymbolTableView};
use crate::compile::heights::{closure_made, inside};
use crate::compile::{
    compile_block, compile_conditional, compile_expression, compile_expressions,
    compile_function_literal, compile_infix_operator, compile_pairs, compile_program,
    compile_statement, compile_statements, constant_added, constant_emitted, current, emitted,
    function_entered, load, loads_emitted, operation, parameters_defined, patched, scope_left,
    store, with_current, with_trailing_return, without_trailing_pop, CompilerView,
};
use crate::object::{CompiledFunctionView, Value};

verus! {

/// Whether an operand that names a constant names one of `pool`, and the
/// operand of a `Closure` a compiled function.
pub open spec fn in_range(instruction: Instruction, pool: Seq<Value>) -> bool {
    match instruction {
        Instruction::Constant(index) => 0 <= index < pool.len(),
        Instruction::Closure { constant_index, free_variables } => constant_index < pool.len()
            && pool[constant_index as int] is CompiledFunction,
        _ => true,
    }
}

/// Whether every instruction of the code is in range.
pub open spec fn ranged(code: Seq<Instruction>, pool: Seq<Value>) -> bool {
    forall|i: int| 0 <= i < code.len() ==> in_range(#[trigger] code[i], pool)
}

/// Whether all the code of a compiler is in range of its constants: the
/// code of every function that is being compiled, and that of every
/// function among the constants.
pub open spec fn tidy(c: CompilerView) -> bool {
    &&& forall|s: int| 0 <= s < c.scopes.len() ==> ranged(#[trigger] c.scopes[s], c.constants)
    &&& forall|k: int|
        0 <= k < c.constants.len() ==> ((#[trigger] c.constants[k]) matches Value::CompiledFunction(
            function,
        ) ==> ranged(function.instructions, c.constants))
}

/// Whether the constants are so few that no operand that names one is cut.
pub open spec fn small(c: CompilerView) -> bool {
    c.constants.len() <= 0x8000
}

/// Whether a compiler is tidy as long as its constants are few.
#[verifier::opaque]
pub open spec fn orderly(c: CompilerView) -> bool {
    c.scopes.len() >= 1 && (small(c) ==> tidy(c))
}

/// Whether `d` has the constants of `c` and perhaps more.
#[verifier::opaque]
pub open spec fn extends(c: CompilerView, d: CompilerView) -> bool {
    &&& c.constants.len() <= d.constants.len()
    &&& forall|k: int| 0 <= k < c.constants.len() ==> #[trigger] d.constants[k] == c.constants[k]
}

/// Code in range stays in range when constants are added.
pub proof fn lemma_ranged_grows(code: Seq<Instruction>, pool: Seq<Value>, larger: Seq<Value>)
    requires
        ranged(code, pool),
        pool.len() <= larger.len(),
        forall|k: int| 0 <= k < pool.len() ==> #[trigger] larger[k] == pool[k],
    ensures
        ranged(code, larger),
{
    assert forall|i: int| 0 <= i < code.len() implies in_range(#[trigger] code[i], larger) by {
        assert(in_range(code[i], pool));
        match code[i] {
            Instruction::Closure { constant_index, free_variables } => {
                assert(larger[constant_index as int] == pool[constant_index as int]);
            },
            _ => {},
        }
    }
}

/// A compiler has its own constants.
pub proof fn lemma_extends_itself(c: CompilerView)
    ensures
        extends(c, c),
{
    reveal(extends);
}

/// Constants are added to constants that were added.
pub proof fn lemma_extends_on(c: CompilerView, d: CompilerView, e: CompilerView)
    requires
        extends(c, d),
        extends(d, e),
    ensures
        extends(c, e),
{
    reveal(extends);
    assert forall|k: int| 0 <= k < c.constants.len() implies #[trigger] e.constants[k]
        == c.constants[k] by {
        assert(e.constants[k] == d.constants[k]);
    }
}

/// Other code for the innermost function, in range, leaves the compiler
/// orderly.
pub proof fn lemma_recoded(c: CompilerView, code: Seq<Instruction>)
    requires
        orderly(c),
        small(c) ==> ranged(code, c.constants),
    ensures
        orderly(with_current(c, code)),
        extends(c, with_current(c, code)),
        with_current(c, code).scopes.len() == c.scopes.len(),
        current(with_current(c, code)) == code,
{
    reveal(orderly);
    reveal(extends);
    let d = with_current(c, code);
    if small(c) {
        assert forall|s: int| 0 <= s < d.scopes.len() implies ranged(
            #[trigger] d.scopes[s],
            d.constants,
        ) by {
            if s < c.scopes.len() - 1 {
                assert(d.scopes[s] == c.scopes[s]);
            }
        }
    }
}

/// One more instruction in range leaves the compiler orderly.
pub proof fn lemma_emitted(c: CompilerView, instruction: Instruction)
    requires
        orderly(c),
        small(c) ==> in_range(instruction, c.constants),
    ensures
        orderly(emitted(c, instruction)),
        extends(c, emitted(c, instruction)),
        emitted(c, instruction).scopes.len() == c.scopes.len(),
{
    reveal(orderly);
    let code = current(c).push(instruction);
    if small(c) {
        assert(ranged(current(c), c.constants));
        assert forall|i: int| 0 <= i < code.len() implies in_range(
            #[trigger] code[i],
            c.constants,
        ) by {
            if i < current(c).len() {
                assert(code[i] == current(c)[i]);
                assert(in_range(current(c)[i], c.constants));
            }
        }
    }
    lemma_recoded(c, code);
}

/// Another instruction that names no constant at a place of the code leaves
/// the compiler orderly.
pub proof fn lemma_patched(c: CompilerView, pos: int, instruction: Instruction)
    requires
        orderly(c),
        !(instruction is Constant),
        !(instruction is Closure),
    ensures
        orderly(patched(c, pos, instruction)),
        extends(c, patched(c, pos, instruction)),
        patched(c, pos, instruction).scopes.len() == c.scopes.len(),
{
    reveal(orderly);
    if 0 <= pos < current(c).len() {
        let code = current(c).update(pos, instruction);
        if small(c) {
            assert(ranged(current(c), c.constants));
            assert forall|i: int| 0 <= i < code.len() implies in_range(
                #[trigger] code[i],
                c.constants,
            ) by {
                if i != pos {
                    assert(in_range(current(c)[i], c.constants));
                }
            }
        }
        lemma_recoded(c, code);
    } else {
        lemma_extends_itself(c);
    }
}

/// Without the `Pop` at its end the code is in range as before.
pub proof fn lemma_stripped(c: CompilerView)
    requires
        orderly(c),
    ensures
        orderly(without_trailing_pop(c)),
        extends(c, without_trailing_pop(c)),
        without_trailing_pop(c).scopes.len() == c.scopes.len(),
{
    reveal(orderly);
    if current(c).len() > 0 && current(c).last() == Instruction::Pop {
        let code = current(c).drop_last();
        if small(c) {
            assert(ranged(current(c), c.constants));
            assert forall|i: int| 0 <= i < code.len() implies in_range(
                #[trigger] code[i],
                c.constants,
            ) by {
                assert(in_range(current(c)[i], c.constants));
            }
        }
        lemma_recoded(c, code);
    } else {
        lemma_extends_itself(c);
    }
}

/// With a `ReturnValue` for the `Pop` at its end the code is in range as
/// before.
pub proof fn lemma_returning(c: CompilerView)
    requires
        orderly(c),
    ensures
        orderly(with_trailing_return(c)),
        extends(c, with_trailing_return(c)),
        with_trailing_return(c).scopes.len() == c.scopes.len(),
{
    if current(c).len() > 0 && current(c).last() == Instruction::Pop {
        lemma_patched(c, current(c).len() - 1, Instruction::ReturnValue);
    } else {
        lemma_extends_itself(c);
    }
}

/// A constant that is no function, and the instruction that pushes it,
/// leave the compiler orderly.
pub proof fn lemma_constant(c: CompilerView, constant: Value)
    requires
        orderly(c),
        !(constant is CompiledFunction),
    ensures
        orderly(constant_emitted(c, constant)),
        extends(c, constant_emitted(c, constant)),
        constant_emitted(c, constant).scopes.len() == c.scopes.len(),
{
    lemma_added(c, constant);
    let added = constant_added(c, constant);
    lemma_emitted(added, Instruction::Constant((c.constants.len() as usize) as i16));
    lemma_extends_on(c, added, constant_emitted(c, constant));
}

/// A constant whose code, if it is a function, is in range of the constants
/// with it leaves the compiler orderly.
pub proof fn lemma_added(c: CompilerView, constant: Value)
    requires
        orderly(c),
        constant matches Value::CompiledFunction(function) ==> (small(constant_added(c, constant))
            ==> ranged(function.instructions, c.constants)),
    ensures
        orderly(constant_added(c, constant)),
        extends(c, constant_added(c, constant)),
        constant_added(c, constant).scopes == c.scopes,
{
    reveal(orderly);
    reveal(extends);
    let d = constant_added(c, constant);
    if small(d) {
        assert(tidy(c));
        assert forall|s: int| 0 <= s < d.scopes.len() implies ranged(
            #[trigger] d.scopes[s],
            d.constants,
        ) by {
            assert(ranged(c.scopes[s], c.constants));
            lemma_ranged_grows(c.scopes[s], c.constants, d.constants);
        }
        assert forall|k: int| 0 <= k < d.constants.len() implies ((
        #[trigger] d.constants[k]) matches Value::CompiledFunction(function) ==> ranged(
            function.instructions,
            d.constants,
        )) by {
            match d.constants[k] {
                Value::CompiledFunction(function) => {
                    if k < c.constants.len() {
                        assert(d.constants[k] == c.constants[k]);
                    }
                    lemma_ranged_grows(function.instructions, c.constants, d.constants);
                },
                _ => {},
            }
        }
    }
}

/// Another table leaves the compiler orderly.
pub proof fn lemma_table(c: CompilerView, symbols: SymbolTableView)
    requires
        orderly(c),
    ensures
        orderly(CompilerView { symbols, ..c }),
        extends(c, CompilerView { symbols, ..c }),
{
    reveal(orderly);
    reveal(extends);
}

/// The instructions that push captured values leave the compiler orderly.
pub proof fn lemma_loads(c: CompilerView, symbols: Seq<Symbol>, from: int)
    requires
        orderly(c),
    ensures
        orderly(loads_emitted(c, symbols, from)),
        extends(c, loads_emitted(c, symbols, from)),
        loads_emitted(c, symbols, from).scopes.len() == c.scopes.len(),
    decreases symbols.len() - from,
{
    if from < 0 || from >= symbols.len() {
        lemma_extends_itself(c);
    } else {
        lemma_emitted(c, load(symbols[from]));
        let d = emitted(c, load(symbols[from]));
        lemma_loads(d, symbols, from + 1);
        lemma_extends_on(c, d, loads_emitted(d, symbols, from + 1));
    }
}

/// The body of a function begins in an orderly compiler.
pub proof fn lemma_inside(c: CompilerView, name: Option<Seq<char>>, parameters: Seq<Seq<char>>)
    requires
        orderly(c),
    ensures
        orderly(inside(c, name, parameters)),
        extends(c, inside(c, name, parameters)),
        inside(c, name, parameters).scopes.len() == c.scopes.len() + 1,
{
    reveal(orderly);
    reveal(extends);
    let entered = function_entered(c, name);
    lemma_parameters(entered, parameters, 0);
    let d = inside(c, name, parameters);
    assert(d.scopes == c.scopes.push(Seq::empty()));
    if small(c) {
        assert forall|s: int| 0 <= s < d.scopes.len() implies ranged(
            #[trigger] d.scopes[s],
            d.constants,
        ) by {
            if s < c.scopes.len() {
                assert(d.scopes[s] == c.scopes[s]);
            }
        }
    }
}

/// Defining parameters changes the table only.
proof fn lemma_parameters(c: CompilerView, parameters: Seq<Seq<char>>, from: int)
    ensures
        parameters_defined(c, parameters, from).scopes == c.scopes,
        parameters_defined(c, parameters, from).constants == c.constants,
    decreases parameters.len() - from,
{
    if from < 0 || from >= parameters.len() {
    } else {
        lemma_parameters(
            CompilerView { symbols: defined(c.symbols, parameters[from]).0, ..c },
            parameters,
            from + 1,
        );
    }
}

/// The function that a body leaves becomes a constant in range, and the
/// `Closure` that names it is in range.
pub proof fn lemma_closure(returning: CompilerView, parameters: nat)
    requires
        orderly(returning),
        returning.scopes.len() >= 2,
    ensures
        orderly(closure_made(returning, parameters)),
        extends(returning, closure_made(returning, parameters)),
        closure_made(returning, parameters).scopes.len() == returning.scopes.len() - 1,
{
    let (outside, instructions, free) = scope_left(returning);
    assert(orderly(outside) && extends(returning, outside) && (small(returning) ==> ranged(
        instructions,
        returning.constants,
    )) && outside.constants == returning.constants) by {
        reveal(orderly);
        reveal(extends);
        if small(returning) {
            assert(ranged(returning.scopes[returning.scopes.len() - 1], returning.constants));
            assert forall|s: int| 0 <= s < outside.scopes.len() implies ranged(
                #[trigger] outside.scopes[s],
                outside.constants,
            ) by {
                assert(outside.scopes[s] == returning.scopes[s]);
            }
        }
    }
    lemma_loads(outside, free, 0);
    let loaded = loads_emitted(outside, free, 0);
    let function = Value::CompiledFunction(
        CompiledFunctionView {
            instructions,
            num_locals: returning.symbols.num_definitions as nat,
            num_arguments: parameters,
        },
    );
    let added = constant_added(loaded, function);
    assert(small(added) ==> ranged(instructions, loaded.constants)) by {
        reveal(extends);
        if small(added) {
            lemma_ranged_grows(instructions, returning.constants, loaded.constants);
        }
    }
    lemma_added(loaded, function);
    let instruction = Instruction::Closure {
        constant_index: (loaded.constants.len() as usize) as u16,
        free_variables: (free.len() as usize) as u8,
    };
    assert(small(added) ==> in_range(instruction, added.constants));
    lemma_emitted(added, instruction);
    lemma_extends_on(returning, outside, loaded);
    lemma_extends_on(returning, loaded, added);
    lemma_extends_on(returning, added, emitted(added, instruction));
}

/// Whether a step from `c` leaves the compiler orderly, with the constants
/// of `c` and perhaps more, and, where it succeeds, inside the same
/// function.
pub open spec fn passes(c: CompilerView, step: crate::compile::Outcome) -> bool {
    &&& orderly(step.state)
    &&& extends(c, step.state)
    &&& step.error is None ==> step.state.scopes.len() == c.scopes.len()
}

/// A step and one more instruction in range are a step.
proof fn lemma_then_emitted(c: CompilerView, step: crate::compile::Outcome, instruction: Instruction)
    requires
        passes(c, step),
        !(instruction is Constant),
        !(instruction is Closure),
    ensures
        passes(c, crate::compile::then_emitted(step, instruction)),
{
    if step.error is None {
        lemma_emitted(step.state, instruction);
        lemma_extends_on(c, step.state, emitted(step.state, instruction));
    }
}

/// One step after another is a step.
proof fn lemma_passes_on(c: CompilerView, d: CompilerView, step: crate::compile::Outcome)
    requires
        extends(c, d),
        d.scopes.len() == c.scopes.len(),
        passes(d, step),
    ensures
        passes(c, step),
{
    lemma_extends_on(c, d, step.state);
}

/// Compiling a statement keeps the compiler orderly.
pub proof fn lemma_statement(statement: StatementView, c: CompilerView)
    requires
        orderly(c),
    ensures
        passes(c, compile_statement(statement, c)),
    decreases statement, 2int,
{
    match statement {
        StatementView::Let { name, value } => {
            let (symbols, symbol) = defined(c.symbols, name);
            let start = CompilerView { symbols, ..c };
            lemma_table(c, symbols);
            let valued = if value is FunctionLiteral {
                lemma_function(value, Some(name), start);
                compile_function_literal(value, Some(name), start)
            } else {
                lemma_expression(value, start);
                compile_expression(value, start)
            };
            lemma_passes_on(c, start, valued);
            lemma_then_emitted(c, valued, store(symbol));
        },
        StatementView::Return(value) => {
            lemma_expression(value, c);
            lemma_then_emitted(c, compile_expression(value, c), Instruction::ReturnValue);
        },
        StatementView::Expression(value) => {
            lemma_expression(value, c);
            lemma_then_emitted(c, compile_expression(value, c), Instruction::Pop);
        },
    }
}

/// Compiling statements keeps the compiler orderly.
pub proof fn lemma_statements(statements: Seq<StatementView>, from: int, c: CompilerView)
    requires
        orderly(c),
    ensures
        passes(c, compile_statements(statements, from, c)),
    decreases statements, statements.len() - from,
{
    if from < 0 || from >= statements.len() {
        lemma_extends_itself(c);
    } else {
        lemma_statement(statements[from], c);
        let first = compile_statement(statements[from], c);
        if first.error is None {
            lemma_statements(statements, from + 1, first.state);
            lemma_passes_on(c, first.state, compile_statements(statements, from + 1, first.state));
        }
    }
}

/// Compiling a block keeps the compiler orderly.
pub proof fn lemma_block(statements: Seq<StatementView>, c: CompilerView)
    requires
        orderly(c),
    ensures
        passes(c, compile_block(statements, c)),
    decreases statements, statements.len() + 1,
{
    if statements.len() == 0 {
        lemma_emitted(c, Instruction::Null);
        let one = emitted(c, Instruction::Null);
        lemma_emitted(one, Instruction::Pop);
        lemma_extends_on(c, one, emitted(one, Instruction::Pop));
    } else {
        lemma_statements(statements, 0, c);
        let body = compile_statements(statements, 0, c);
        if body.error is None && statements.last() is Let {
            lemma_emitted(body.state, Instruction::Null);
            let one = emitted(body.state, Instruction::Null);
            lemma_emitted(one, Instruction::Pop);
            lemma_extends_on(c, body.state, one);
            lemma_extends_on(c, one, emitted(one, Instruction::Pop));
        }
    }
}

/// Compiling expressions keeps the compiler orderly.
pub proof fn lemma_expressions(items: Seq<ExpressionView>, from: int, c: CompilerView)
    requires
        orderly(c),
    ensures
        passes(c, compile_expressions(items, from, c)),
    decreases items, items.len() - from,
{
    if from < 0 || from >= items.len() {
        lemma_extends_itself(c);
    } else {
        lemma_expression(items[from], c);
        let first = compile_expression(items[from], c);
        if first.error is None {
            lemma_expressions(items, from + 1, first.state);
            lemma_passes_on(c, first.state, compile_expressions(items, from + 1, first.state));
        }
    }
}

/// Compiling the entries of a hash literal keeps the compiler orderly.
pub proof fn lemma_pairs(pairs: Seq<(ExpressionView, ExpressionView)>, from: int, c: CompilerView)
    requires
        orderly(c),
    ensures
        passes(c, compile_pairs(pairs, from, c)),
    decreases pairs, pairs.len() - from,
{
    if from < 0 || from >= pairs.len() {
        lemma_extends_itself(c);
    } else {
        lemma_expression(pairs[from].0, c);
        let key = compile_expression(pairs[from].0, c);
        if key.error is None {
            lemma_expression(pairs[from].1, key.state);
            let value = compile_expression(pairs[from].1, key.state);
            lemma_passes_on(c, key.state, value);
            if value.error is None {
                lemma_pairs(pairs, from + 1, value.state);
                lemma_passes_on(c, value.state, compile_pairs(pairs, from + 1, value.state));
            }
        }
    }
}

/// Compiling an expression keeps the compiler orderly.
pub proof fn lemma_expression(expression: ExpressionView, c: CompilerView)
    requires
        orderly(c),
    ensures
        passes(c, compile_expression(expression, c)),
    decreases expression, 1int,
{
    match expression {
        ExpressionView::Identifier(name) => {
            let (symbols, found) = resolved(c.symbols, name);
            let state = CompilerView { symbols, ..c };
            lemma_table(c, symbols);
            match found {
                Some(symbol) => {
                    lemma_emitted(state, load(symbol));
                    lemma_extends_on(c, state, emitted(state, load(symbol)));
                },
                None => {},
            }
        },
        ExpressionView::IntegerLiteral(value) => {
            lemma_constant(c, Value::Integer(value));
        },
        ExpressionView::BooleanLiteral(value) => {
            lemma_emitted(
                c,
                if value {
                    Instruction::True
                } else {
                    Instruction::False
                },
            );
        },
        ExpressionView::StringLiteral(value) => {
            lemma_constant(c, Value::String(value));
        },
        ExpressionView::ArrayLiteral(items) => {
            lemma_expressions(items, 0, c);
            lemma_then_emitted(
                c,
                compile_expressions(items, 0, c),
                Instruction::Array((items.len() as usize) as u16),
            );
        },
        ExpressionView::HashLiteral(pairs) => {
            lemma_pairs(pairs, 0, c);
            lemma_then_emitted(
                c,
                compile_pairs(pairs, 0, c),
                Instruction::Hash((pairs.len() as usize).wrapping_mul(2) as u16),
            );
        },
        ExpressionView::PrefixOperator { operator, right } => {
            lemma_expression(*right, c);
            lemma_then_emitted(
                c,
                compile_expression(*right, c),
                match operator {
                    crate::ast::PrefixOperatorKind::Not => Instruction::Bang,
                    crate::ast::PrefixOperatorKind::Negative => Instruction::Minus,
                },
            );
        },
        ExpressionView::InfixOperator { .. } => {
            lemma_infix(expression, c);
        },
        ExpressionView::If { .. } => {
            lemma_conditional(expression, c);
        },
        ExpressionView::FunctionLiteral { .. } => {
            lemma_function(expression, None, c);
        },
        ExpressionView::FunctionCall { function, arguments } => {
            lemma_expression(*function, c);
            let callee = compile_expression(*function, c);
            if callee.error is None {
                lemma_expressions(arguments, 0, callee.state);
                let listed = compile_expressions(arguments, 0, callee.state);
                lemma_passes_on(c, callee.state, listed);
                lemma_then_emitted(c, listed, Instruction::Call((arguments.len() as usize) as u8));
            }
        },
        ExpressionView::Index { left, index } => {
            lemma_expression(*left, c);
            let container = compile_expression(*left, c);
            if container.error is None {
                lemma_expression(*index, container.state);
                let indexed = compile_expression(*index, container.state);
                lemma_passes_on(c, container.state, indexed);
                lemma_then_emitted(c, indexed, Instruction::Index);
            }
        },
    }
}

/// Compiling a binary operation keeps the compiler orderly.
proof fn lemma_infix(expression: ExpressionView, c: CompilerView)
    requires
        orderly(c),
        expression is InfixOperator,
    ensures
        passes(c, compile_expression(expression, c)),
    decreases expression, 0int,
{
    let operator = expression->InfixOperator_operator;
    let (first, second) = if operator is LessThan {
        (*expression->InfixOperator_right, *expression->InfixOperator_left)
    } else {
        (*expression->InfixOperator_left, *expression->InfixOperator_right)
    };
    assert(compile_expression(expression, c) == compile_infix_operator(expression, c));
    lemma_expression(first, c);
    let one = compile_expression(first, c);
    if one.error is None {
        lemma_expression(second, one.state);
        let two = compile_expression(second, one.state);
        lemma_passes_on(c, one.state, two);
        lemma_then_emitted(c, two, operation(operator));
    }
}

/// Compiling a conditional keeps the compiler orderly.
proof fn lemma_conditional(expression: ExpressionView, c: CompilerView)
    requires
        orderly(c),
        expression is If,
    ensures
        passes(c, compile_expression(expression, c)),
    decreases expression, 0int,
{
    let condition = *expression->If_condition;
    let consequence = expression->If_consequence;
    let alternative = expression->If_alternative;
    assert(compile_expression(expression, c) == compile_conditional(expression, c));
    lemma_expression(condition, c);
    let test = compile_expression(condition, c);
    if test.error is None {
        let skip_position = current(test.state).len() as int;
        lemma_emitted(test.state, Instruction::JumpNotTruthy(0));
        let skipping = emitted(test.state, Instruction::JumpNotTruthy(0));
        lemma_extends_on(c, test.state, skipping);
        lemma_block(consequence, skipping);
        let first = compile_block(consequence, skipping);
        lemma_passes_on(c, skipping, first);
        if first.error is None {
            lemma_stripped(first.state);
            let stripped = without_trailing_pop(first.state);
            let jump_position = current(stripped).len() as int;
            lemma_emitted(stripped, Instruction::Jump(0));
            let jumping = emitted(stripped, Instruction::Jump(0));
            let landing = Instruction::JumpNotTruthy((current(jumping).len() as usize) as u16);
            lemma_patched(jumping, skip_position, landing);
            let other = patched(jumping, skip_position, landing);
            lemma_extends_on(c, first.state, stripped);
            lemma_extends_on(c, stripped, jumping);
            lemma_extends_on(c, jumping, other);
            lemma_block(alternative, other);
            let second = compile_block(alternative, other);
            lemma_passes_on(c, other, second);
            if second.error is None {
                lemma_stripped(second.state);
                let end = without_trailing_pop(second.state);
                let leaving = Instruction::Jump((current(end).len() as usize) as u16);
                lemma_patched(end, jump_position, leaving);
                lemma_extends_on(c, second.state, end);
                lemma_extends_on(c, end, patched(end, jump_position, leaving));
            }
        }
    }
}

/// Compiling a function literal keeps the compiler orderly.
proof fn lemma_function(expression: ExpressionView, name: Option<Seq<char>>, c: CompilerView)
    requires
        orderly(c),
        expression is FunctionLiteral,
    ensures
        passes(c, compile_function_literal(expression, name, c)),
        name is None ==> passes(c, compile_expression(expression, c)),
    decreases expression, 0int,
{
    let parameters = expression->FunctionLiteral_parameters;
    let body = expression->FunctionLiteral_body;
    let start = inside(c, name, parameters);
    lemma_inside(c, name, parameters);
    lemma_block(body, start);
    let within = compile_block(body, start);
    lemma_extends_on(c, start, within.state);
    if within.error is None {
        lemma_returning(within.state);
        let returning = with_trailing_return(within.state);
        assert(c.scopes.len() >= 1) by {
            reveal(orderly);
        }
        lemma_closure(returning, parameters.len());
        lemma_extends_on(c, within.state, returning);
        lemma_extends_on(c, returning, closure_made(returning, parameters.len()));
        assert(compile_function_literal(expression, name, c).state == closure_made(
            returning,
            parameters.len(),
        ));
    }
}

/// The operands of compiled code that name a constant name one that is
/// there, and the operand of every `Closure` names a compiled function: in
/// the code of the program and in that of every function among the
/// constants, as long as the constants are so few that no such operand is
/// cut, and the same held of the functions among the constants before.
pub proof fn law_constants_are_in_range(
    program: Seq<StatementView>,
    constants: Seq<Value>,
    symbols: SymbolTableView,
)
    requires
        forall|k: int|
            0 <= k < constants.len() ==> ((#[trigger] constants[k]) matches Value::CompiledFunction(
                function,
            ) ==> ranged(function.instructions, constants)),
        compile_program(program, constants, symbols).state.constants.len() <= 0x8000,
    ensures
        ({
            let after = compile_program(program, constants, symbols).state;
            &&& ranged(current(after), after.constants)
            &&& forall|k: int|
                0 <= k < after.constants.len() ==> ((
                #[trigger] after.constants[k]) matches Value::CompiledFunction(function) ==> ranged(
                    function.instructions,
                    after.constants,
                ))
        }),
{
    let c = CompilerView { constants, symbols, scopes: seq![Seq::<Instruction>::empty()] };
    assert(orderly(c)) by {
        reveal(orderly);
        assert forall|s: int| 0 <= s < c.scopes.len() implies ranged(
            #[trigger] c.scopes[s],
            c.constants,
        ) by {
            assert(c.scopes[s].len() == 0);
        }
    }
    lemma_statements(program, 0, c);
    let after = compile_statements(program, 0, c).state;
    reveal(orderly);
    assert(tidy(after));
    assert(ranged(after.scopes[after.scopes.len() - 1], after.constants));
}

} // verus!
