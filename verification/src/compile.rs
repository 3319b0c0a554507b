//! The compiler: from the syntax tree to bytecode.

pub mod discipline;
pub mod error;
pub mod heights;
pub mod ranges;
pub mod recovery;
pub mod symbol_table;

use std::rc::Rc;
use vstd::prelude::*;
use vstd::string::*;
use crate::ast::{
    expressions_view, lemma_block_view, lemma_expression_view, names_view, pairs_view,
    statements_view, BlockStatement, Expression, ExpressionView, HashLiteralPair,
    InfixOperatorKind, PrefixOperatorKind, Program, Statement, StatementView,
};
use crate::code::{Bytecode, BytecodeView, Instruction};
use crate::compile::error::{Error, ErrorView};
use crate::compile::symbol_table::{
    defined, defined_builtin, defined_function_name, empty_table, enclosed, left, outermost,
    resolved, Symbol, SymbolScope, SymbolTable, SymbolTableView,
};
use crate::object::builtin::BuiltinFunction;
use crate::object::{
    copy_objects, values_view, CompiledFunction, CompiledFunctionView, Object, Value,
};

verus! {

/// The mathematical value of a [`Compiler`]: the constants, the symbol
/// table, and one instruction list for every function that is being
/// compiled, the innermost last.
pub struct CompilerView {
    pub constants: Seq<Value>,
    pub symbols: SymbolTableView,
    pub scopes: Seq<Seq<Instruction>>,
}

/// Where a compilation step leaves the compiler, and the error if it failed.
pub struct Outcome {
    pub state: CompilerView,
    pub error: Option<ErrorView>,
}

/// A step that succeeded.
pub open spec fn done(state: CompilerView) -> Outcome {
    Outcome { state, error: None }
}

/// A step that failed.
pub open spec fn failed(state: CompilerView, error: ErrorView) -> Outcome {
    Outcome { state, error: Some(error) }
}

/// The instructions of the innermost function.
pub open spec fn current(c: CompilerView) -> Seq<Instruction> {
    if c.scopes.len() > 0 {
        c.scopes.last()
    } else {
        Seq::empty()
    }
}

/// `c` with other instructions for the innermost function.
pub open spec fn with_current(c: CompilerView, instructions: Seq<Instruction>) -> CompilerView {
    if c.scopes.len() > 0 {
        CompilerView { scopes: c.scopes.update(c.scopes.len() - 1, instructions), ..c }
    } else {
        c
    }
}

/// `c` with one more instruction.
pub open spec fn emitted(c: CompilerView, instruction: Instruction) -> CompilerView {
    with_current(c, current(c).push(instruction))
}

/// A step followed by one more instruction.
pub open spec fn then_emitted(step: Outcome, instruction: Instruction) -> Outcome {
    if step.error is Some {
        step
    } else {
        done(emitted(step.state, instruction))
    }
}

/// `c` with one more constant.
pub open spec fn constant_added(c: CompilerView, constant: Value) -> CompilerView {
    CompilerView { constants: c.constants.push(constant), ..c }
}

/// `c` with a constant and the instruction that pushes it.
pub open spec fn constant_emitted(c: CompilerView, constant: Value) -> CompilerView {
    emitted(constant_added(c, constant), Instruction::Constant((c.constants.len() as usize) as i16))
}

/// `c` without the `Pop` that ends the instructions, if one does.
pub open spec fn without_trailing_pop(c: CompilerView) -> CompilerView {
    if current(c).len() > 0 && current(c).last() == Instruction::Pop {
        with_current(c, current(c).drop_last())
    } else {
        c
    }
}

/// `c` with `ReturnValue` in the place of the `Pop` that ends the
/// instructions, if one does.
pub open spec fn with_trailing_return(c: CompilerView) -> CompilerView {
    if current(c).len() > 0 && current(c).last() == Instruction::Pop {
        with_current(c, current(c).update(current(c).len() - 1, Instruction::ReturnValue))
    } else {
        c
    }
}

/// `c` with another instruction at `pos`.
pub open spec fn patched(c: CompilerView, pos: int, instruction: Instruction) -> CompilerView {
    if 0 <= pos < current(c).len() {
        with_current(c, current(c).update(pos, instruction))
    } else {
        c
    }
}

/// The instruction that pushes the value of a symbol.
pub open spec fn load(symbol: Symbol) -> Instruction {
    match symbol.scope {
        SymbolScope::Global => Instruction::GetGlobal(symbol.index),
        SymbolScope::Local => Instruction::GetLocal(symbol.index as u8),
        SymbolScope::Free => Instruction::GetFree(symbol.index as u8),
        SymbolScope::Builtin => Instruction::GetBuiltin(symbol.index as u8),
        SymbolScope::Function => Instruction::CurrentClosure,
    }
}

/// The instruction that pops a value into the slot of a newly defined
/// symbol.
pub open spec fn store(symbol: Symbol) -> Instruction {
    match symbol.scope {
        SymbolScope::Global => Instruction::SetGlobal(symbol.index),
        _ => Instruction::SetLocal(symbol.index as u8),
    }
}

/// The instruction of a binary operator other than `<`.
pub open spec fn operation(operator: InfixOperatorKind) -> Instruction {
    match operator {
        InfixOperatorKind::Add => Instruction::Add,
        InfixOperatorKind::Subtract => Instruction::Sub,
        InfixOperatorKind::Multiply => Instruction::Mul,
        InfixOperatorKind::Divide => Instruction::Div,
        InfixOperatorKind::Equal => Instruction::Equal,
        InfixOperatorKind::NotEqual => Instruction::NotEqual,
        InfixOperatorKind::GreaterThan => Instruction::GreaterThan,
        InfixOperatorKind::LessThan => Instruction::GreaterThan,
    }
}

/// `c` inside a new function: an empty instruction list and a new scope of
/// names.
pub open spec fn scope_entered(c: CompilerView) -> CompilerView {
    CompilerView { scopes: c.scopes.push(Seq::empty()), symbols: enclosed(c.symbols), ..c }
}

/// `c` back in the function around, with the instructions of the function
/// that was left and the symbols that it captured.
pub open spec fn scope_left(c: CompilerView) -> (CompilerView, Seq<Instruction>, Seq<Symbol>) {
    let (symbols, free) = left(c.symbols);
    (
        CompilerView {
            scopes: if c.scopes.len() > 0 {
                c.scopes.drop_last()
            } else {
                c.scopes
            },
            symbols,
            ..c
        },
        current(c),
        free,
    )
}

/// `c` with the parameters from `from` on defined, in their order.
pub open spec fn parameters_defined(c: CompilerView, parameters: Seq<Seq<char>>, from: int)
    -> CompilerView
    decreases parameters.len() - from,
{
    if from < 0 || from >= parameters.len() {
        c
    } else {
        parameters_defined(
            CompilerView { symbols: defined(c.symbols, parameters[from]).0, ..c },
            parameters,
            from + 1,
        )
    }
}

/// `c` with the instructions that push the values of the symbols from
/// `from` on.
pub open spec fn loads_emitted(c: CompilerView, symbols: Seq<Symbol>, from: int) -> CompilerView
    decreases symbols.len() - from,
{
    if from < 0 || from >= symbols.len() {
        c
    } else {
        loads_emitted(emitted(c, load(symbols[from])), symbols, from + 1)
    }
}

/// Compiles a statement. A `let` defines its name before its value is
/// compiled, so that the value can refer to the name; a function literal
/// that a `let` binds knows the name as its own.
pub open spec fn compile_statement(statement: StatementView, c: CompilerView) -> Outcome
    decreases statement, 2int,
{
    match statement {
        StatementView::Let { name, value } => {
            let (symbols, symbol) = defined(c.symbols, name);
            let start = CompilerView { symbols, ..c };
            then_emitted(
                if value is FunctionLiteral {
                    compile_function_literal(value, Some(name), start)
                } else {
                    compile_expression(value, start)
                },
                store(symbol),
            )
        },
        StatementView::Return(value) => then_emitted(
            compile_expression(value, c),
            Instruction::ReturnValue,
        ),
        StatementView::Expression(value) => then_emitted(
            compile_expression(value, c),
            Instruction::Pop,
        ),
    }
}

/// Compiles the statements from `from` on, in their order.
pub open spec fn compile_statements(statements: Seq<StatementView>, from: int, c: CompilerView)
    -> Outcome
    decreases statements, statements.len() - from,
{
    if from < 0 || from >= statements.len() {
        done(c)
    } else {
        let first = compile_statement(statements[from], c);
        if first.error is Some {
            first
        } else {
            compile_statements(statements, from + 1, first.state)
        }
    }
}

/// Compiles a block so that it ends in a value and the `Pop` that discards
/// it: an empty block, and one whose last statement is a `let`, yield
/// `null`.
pub open spec fn compile_block(statements: Seq<StatementView>, c: CompilerView) -> Outcome
    decreases statements, statements.len() + 1,
{
    if statements.len() == 0 {
        done(emitted(emitted(c, Instruction::Null), Instruction::Pop))
    } else {
        let body = compile_statements(statements, 0, c);
        if body.error is Some {
            body
        } else if statements.last() is Let {
            done(emitted(emitted(body.state, Instruction::Null), Instruction::Pop))
        } else {
            body
        }
    }
}

/// Compiles the expressions from `from` on, in their order.
pub open spec fn compile_expressions(items: Seq<ExpressionView>, from: int, c: CompilerView)
    -> Outcome
    decreases items, items.len() - from,
{
    if from < 0 || from >= items.len() {
        done(c)
    } else {
        let first = compile_expression(items[from], c);
        if first.error is Some {
            first
        } else {
            compile_expressions(items, from + 1, first.state)
        }
    }
}

/// Compiles the entries of a hash literal from `from` on: each key, then its
/// value.
pub open spec fn compile_pairs(
    pairs: Seq<(ExpressionView, ExpressionView)>,
    from: int,
    c: CompilerView,
) -> Outcome
    decreases pairs, pairs.len() - from,
{
    if from < 0 || from >= pairs.len() {
        done(c)
    } else {
        let key = compile_expression(pairs[from].0, c);
        if key.error is Some {
            key
        } else {
            let value = compile_expression(pairs[from].1, key.state);
            if value.error is Some {
                value
            } else {
                compile_pairs(pairs, from + 1, value.state)
            }
        }
    }
}

/// Compiles an expression: the instructions that leave its value on the
/// stack.
pub open spec fn compile_expression(expression: ExpressionView, c: CompilerView) -> Outcome
    decreases expression, 1int,
{
    match expression {
        ExpressionView::Identifier(name) => {
            let (symbols, found) = resolved(c.symbols, name);
            let state = CompilerView { symbols, ..c };
            match found {
                Some(symbol) => done(emitted(state, load(symbol))),
                None => failed(state, ErrorView::UndefinedSymbol(name)),
            }
        },
        ExpressionView::IntegerLiteral(value) => done(constant_emitted(c, Value::Integer(value))),
        ExpressionView::BooleanLiteral(value) => done(
            emitted(
                c,
                if value {
                    Instruction::True
                } else {
                    Instruction::False
                },
            ),
        ),
        ExpressionView::StringLiteral(value) => done(constant_emitted(c, Value::String(value))),
        ExpressionView::ArrayLiteral(items) => then_emitted(
            compile_expressions(items, 0, c),
            Instruction::Array((items.len() as usize) as u16),
        ),
        ExpressionView::HashLiteral(pairs) => then_emitted(
            compile_pairs(pairs, 0, c),
            Instruction::Hash((pairs.len() as usize).wrapping_mul(2) as u16),
        ),
        ExpressionView::PrefixOperator { operator, right } => then_emitted(
            compile_expression(*right, c),
            match operator {
                PrefixOperatorKind::Not => Instruction::Bang,
                PrefixOperatorKind::Negative => Instruction::Minus,
            },
        ),
        ExpressionView::InfixOperator { .. } => compile_infix_operator(expression, c),
        ExpressionView::If { .. } => compile_conditional(expression, c),
        ExpressionView::FunctionLiteral { .. } => compile_function_literal(expression, None, c),
        ExpressionView::FunctionCall { function, arguments } => {
            let callee = compile_expression(*function, c);
            if callee.error is Some {
                callee
            } else {
                then_emitted(
                    compile_expressions(arguments, 0, callee.state),
                    Instruction::Call((arguments.len() as usize) as u8),
                )
            }
        },
        ExpressionView::Index { left, index } => {
            let container = compile_expression(*left, c);
            if container.error is Some {
                container
            } else {
                then_emitted(compile_expression(*index, container.state), Instruction::Index)
            }
        },
    }
}

/// Compiles a binary operation: the operands in their order, then the
/// operator. The machine compares with `GreaterThan` only, so `a < b` is
/// compiled as `b > a`.
pub open spec fn compile_infix_operator(expression: ExpressionView, c: CompilerView) -> Outcome
    decreases expression, 0int,
{
    match expression {
        ExpressionView::InfixOperator { operator, left, right } => {
            let (first, second) = if operator is LessThan {
                (*right, *left)
            } else {
                (*left, *right)
            };
            let one = compile_expression(first, c);
            if one.error is Some {
                one
            } else {
                then_emitted(compile_expression(second, one.state), operation(operator))
            }
        },
        _ => done(c),
    }
}

/// Compiles a conditional: the condition, a jump over the consequence that
/// is taken when the condition does not hold, the consequence, a jump over
/// the alternative, the alternative. Both arms leave their value on the
/// stack; the jumps are emitted with address 0 and patched when their target
/// is known.
pub open spec fn compile_conditional(expression: ExpressionView, c: CompilerView) -> Outcome
    decreases expression, 0int,
{
    match expression {
        ExpressionView::If { condition, consequence, alternative } => {
            let test = compile_expression(*condition, c);
            if test.error is Some {
                test
            } else {
                let skip_position = current(test.state).len() as int;
                let first = compile_block(
                    consequence,
                    emitted(test.state, Instruction::JumpNotTruthy(0)),
                );
                if first.error is Some {
                    first
                } else {
                    let stripped = without_trailing_pop(first.state);
                    let jump_position = current(stripped).len() as int;
                    let jumping = emitted(stripped, Instruction::Jump(0));
                    let second = compile_block(
                        alternative,
                        patched(
                            jumping,
                            skip_position,
                            Instruction::JumpNotTruthy((current(jumping).len() as usize) as u16),
                        ),
                    );
                    if second.error is Some {
                        second
                    } else {
                        let end = without_trailing_pop(second.state);
                        done(
                            patched(
                                end,
                                jump_position,
                                Instruction::Jump((current(end).len() as usize) as u16),
                            ),
                        )
                    }
                }
            }
        },
        _ => done(c),
    }
}

/// `c` inside a new function that knows `name`, if there is one, as its
/// own.
pub open spec fn function_entered(c: CompilerView, name: Option<Seq<char>>) -> CompilerView {
    let inside = scope_entered(c);
    match name {
        Some(name) => CompilerView {
            symbols: defined_function_name(inside.symbols, name).0,
            ..inside
        },
        None => inside,
    }
}

/// Compiles a function literal: the body in a scope of its own, which ends
/// by returning its last value, becomes a constant; in the scope around, the
/// captured values are pushed and `Closure` bundles them with the constant.
/// Inside the body, `name` means the function itself, unless a parameter
/// has the same name.
pub open spec fn compile_function_literal(
    expression: ExpressionView,
    name: Option<Seq<char>>,
    c: CompilerView,
) -> Outcome
    decreases expression, 0int,
{
    match expression {
        ExpressionView::FunctionLiteral { parameters, body } => {
            let inside = compile_block(
                body,
                parameters_defined(function_entered(c, name), parameters, 0),
            );
            if inside.error is Some {
                inside
            } else {
                let returning = with_trailing_return(inside.state);
                let (outside, instructions, free) = scope_left(returning);
                let loaded = loads_emitted(outside, free, 0);
                let function = Value::CompiledFunction(
                    CompiledFunctionView {
                        instructions,
                        num_locals: returning.symbols.num_definitions as nat,
                        num_arguments: parameters.len(),
                    },
                );
                done(
                    emitted(
                        constant_added(loaded, function),
                        Instruction::Closure {
                            constant_index: (loaded.constants.len() as usize) as u16,
                            free_variables: (free.len() as usize) as u8,
                        },
                    ),
                )
            }
        },
        _ => done(c),
    }
}

/// The symbol table of a new compiler: the built-in functions under their
/// names and numbers.
pub open spec fn builtin_table() -> SymbolTableView {
    let one = defined_builtin(empty_table(), 0, "len"@).0;
    let two = defined_builtin(one, 1, "first"@).0;
    let three = defined_builtin(two, 2, "last"@).0;
    let four = defined_builtin(three, 3, "rest"@).0;
    let five = defined_builtin(four, 4, "push"@).0;
    defined_builtin(five, 5, "puts"@).0
}

/// Compiles a program with the constants and symbols of earlier programs.
pub open spec fn compile_program(
    program: Seq<StatementView>,
    constants: Seq<Value>,
    symbols: SymbolTableView,
) -> Outcome {
    compile_statements(
        program,
        0,
        CompilerView { constants, symbols, scopes: seq![Seq::<Instruction>::empty()] },
    )
}

/// What `compile` does: from the constants and symbols `before`, the
/// compiler gets to those of the outcome of [`compile_program`], back in
/// the outermost scope also where the compilation failed inside a function,
/// and returns the outcome's error or the instructions of the top level
/// with all the constants.
pub open spec fn compiles_to(
    before: CompilerView,
    program: Seq<StatementView>,
    after: CompilerView,
    result: Result<BytecodeView, ErrorView>,
) -> bool {
    let outcome = compile_program(program, before.constants, before.symbols);
    &&& after.constants == outcome.state.constants
    &&& after.symbols == outermost(outcome.state.symbols)
    &&& result == match outcome.error {
        Some(error) => Err::<BytecodeView, ErrorView>(error),
        None => Ok(
            BytecodeView {
                instructions: current(outcome.state),
                constants: outcome.state.constants,
            },
        ),
    }
}

/// The view of a compilation result.
pub open spec fn bytecode_result(r: Result<Bytecode, Error>) -> Result<BytecodeView, ErrorView> {
    match r {
        Ok(bytecode) => Ok(bytecode@),
        Err(error) => Err(error@),
    }
}

/// The view of the error of a step.
pub open spec fn step_error(r: Result<(), Error>) -> Option<ErrorView> {
    match r {
        Ok(_) => None,
        Err(error) => Some(error@),
    }
}

/// Compiles syntax trees to bytecode. Constants and global names stay from
/// one program to the next.
pub struct Compiler {
    constants: Vec<Object>,
    symbol_table: SymbolTable,
    scopes: Vec<Vec<Instruction>>,
}

impl Compiler {
    pub closed spec fn view(&self) -> CompilerView {
        CompilerView {
            constants: values_view(self.constants@),
            symbols: self.symbol_table@,
            scopes: Seq::new(self.scopes@.len(), |i: int| self.scopes@[i]@),
        }
    }

    /// A compiler without constants, which knows the built-in functions.
    pub fn new() -> (compiler: Self)
        ensures
            compiler@.constants == Seq::<Value>::empty(),
            compiler@.symbols == builtin_table(),
    {
        let mut symbol_table = SymbolTable::new();
        symbol_table.define_builtin(0, String::from_str("len"));
        symbol_table.define_builtin(1, String::from_str("first"));
        symbol_table.define_builtin(2, String::from_str("last"));
        symbol_table.define_builtin(3, String::from_str("rest"));
        symbol_table.define_builtin(4, String::from_str("push"));
        symbol_table.define_builtin(5, String::from_str("puts"));
        let mut scopes: Vec<Vec<Instruction>> = Vec::new();
        scopes.push(Vec::new());
        let compiler = Compiler { constants: Vec::new(), symbol_table, scopes };
        assert(compiler@.constants =~= Seq::<Value>::empty());
        compiler
    }

    /// Compiles a program. The instructions start afresh; the constants and
    /// the global names of earlier programs stay, also where the program
    /// fails to compile: the compiler is then back at the top level, ready
    /// for the next program.
    pub fn compile(&mut self, program: &Program) -> (r: Result<Bytecode, Error>)
        ensures
            compiles_to(old(self)@, program@, final(self)@, bytecode_result(r)),
            final(self)@.symbols.outer is None,
    {
        let mut scopes: Vec<Vec<Instruction>> = Vec::new();
        scopes.push(Vec::new());
        self.scopes = scopes;
        assert(self@.scopes =~= seq![Seq::<Instruction>::empty()]);
        let outcome = self.compile_statements(&program.statements);
        self.symbol_table.leave_all();
        match outcome {
            Ok(_) => {},
            Err(error) => {
                return Err(error);
            },
        }
        let instructions = self.current_instructions();
        let bytecode = Bytecode {
            instructions: Rc::new(instructions),
            constants: copy_objects(&self.constants, 0),
        };
        assert(bytecode@.constants =~= self@.constants);
        Ok(bytecode)
    }

    fn add_constant(&mut self, object: Object) -> (index: usize)
        ensures
            final(self)@ == constant_added(old(self)@, object.view()),
            index == old(self)@.constants.len(),
    {
        self.constants.push(object);
        assert(self@.constants =~= old(self)@.constants.push(object.view()));
        assert(self@.scopes =~= old(self)@.scopes);
        self.constants.len() - 1
    }

    fn emit_constant(&mut self, object: Object)
        ensures
            final(self)@ == constant_emitted(old(self)@, object.view()),
    {
        let index = self.add_constant(object);
        self.emit(Instruction::Constant(#[verifier::truncate] (index as i16)));
    }

    /// A copy of the instructions of the innermost function.
    fn current_instructions(&self) -> (instructions: Vec<Instruction>)
        ensures
            instructions@ == current(self@),
    {
        let mut copy: Vec<Instruction> = Vec::new();
        if self.scopes.len() == 0 {
            return copy;
        }
        let source = &self.scopes[self.scopes.len() - 1];
        let mut i: usize = 0;
        while i < source.len()
            invariant
                i <= source@.len(),
                copy@ == source@.subrange(0, i as int),
            decreases source@.len() - i,
        {
            copy.push(source[i]);
            assert(copy@ =~= source@.subrange(0, i as int + 1));
            i += 1;
        }
        assert(copy@ =~= source@);
        copy
    }

    fn current_len(&self) -> (length: usize)
        ensures
            length == current(self@).len(),
    {
        if self.scopes.len() == 0 {
            0
        } else {
            self.scopes[self.scopes.len() - 1].len()
        }
    }

    fn ends_with_pop(&self) -> (r: bool)
        ensures
            r == (current(self@).len() > 0 && current(self@).last() == Instruction::Pop),
    {
        if self.scopes.len() == 0 {
            return false;
        }
        let instructions = &self.scopes[self.scopes.len() - 1];
        instructions.len() > 0 && instructions[instructions.len() - 1] == Instruction::Pop
    }

    fn emit(&mut self, instruction: Instruction) -> (position: usize)
        ensures
            final(self)@ == emitted(old(self)@, instruction),
            position == current(old(self)@).len(),
    {
        if self.scopes.len() == 0 {
            return 0;
        }
        let last = self.scopes.len() - 1;
        let position = self.scopes[last].len();
        self.scopes[last].push(instruction);
        assert(self@.scopes =~= old(self)@.scopes.update(
            last as int,
            current(old(self)@).push(instruction),
        ));
        position
    }

    fn remove_trailing_pop(&mut self)
        ensures
            final(self)@ == without_trailing_pop(old(self)@),
    {
        if self.ends_with_pop() {
            let last = self.scopes.len() - 1;
            self.scopes[last].pop();
            assert(self@.scopes =~= old(self)@.scopes.update(
                last as int,
                current(old(self)@).drop_last(),
            ));
        }
    }

    fn patch(&mut self, position: usize, instruction: Instruction)
        ensures
            final(self)@ == patched(old(self)@, position as int, instruction),
    {
        if position < self.current_len() {
            let last = self.scopes.len() - 1;
            self.scopes[last][position] = instruction;
            assert(self@.scopes =~= old(self)@.scopes.update(
                last as int,
                current(old(self)@).update(position as int, instruction),
            ));
        }
    }

    fn return_trailing_value(&mut self)
        ensures
            final(self)@ == with_trailing_return(old(self)@),
    {
        if self.ends_with_pop() {
            let position = self.current_len() - 1;
            self.patch(position, Instruction::ReturnValue);
        }
    }

    fn enter_scope(&mut self)
        ensures
            final(self)@ == scope_entered(old(self)@),
    {
        self.scopes.push(Vec::new());
        self.symbol_table.enclose();
        assert(self@.scopes =~= old(self)@.scopes.push(Seq::empty()));
    }

    fn leave_scope(&mut self) -> (r: (Vec<Instruction>, Vec<Symbol>))
        ensures
            (final(self)@, r.0@, r.1@) == scope_left(old(self)@),
    {
        let instructions = match self.scopes.pop() {
            Some(instructions) => instructions,
            None => Vec::new(),
        };
        let free = self.symbol_table.leave();
        assert(self@.scopes =~= if old(self)@.scopes.len() > 0 {
            old(self)@.scopes.drop_last()
        } else {
            old(self)@.scopes
        });
        (instructions, free)
    }

    fn emit_load(&mut self, symbol: Symbol)
        ensures
            final(self)@ == emitted(old(self)@, load(symbol)),
    {
        match symbol.scope {
            SymbolScope::Global => self.emit(Instruction::GetGlobal(symbol.index)),
            SymbolScope::Local => self.emit(
                Instruction::GetLocal(#[verifier::truncate] (symbol.index as u8)),
            ),
            SymbolScope::Free => self.emit(
                Instruction::GetFree(#[verifier::truncate] (symbol.index as u8)),
            ),
            SymbolScope::Builtin => self.emit(
                Instruction::GetBuiltin(#[verifier::truncate] (symbol.index as u8)),
            ),
            SymbolScope::Function => self.emit(Instruction::CurrentClosure),
        };
    }

    fn compile_statements(&mut self, statements: &Vec<Statement>) -> (r: Result<(), Error>)
        ensures
            compile_statements(statements_view(statements@), 0, old(self)@) == (Outcome {
                state: final(self)@,
                error: step_error(r),
            }),
        decreases statements, statements@.len() + 1,
    {
        let mut i: usize = 0;
        while i < statements.len()
            invariant
                i <= statements@.len(),
                compile_statements(statements_view(statements@), 0, old(self)@)
                    == compile_statements(statements_view(statements@), i as int, self@),
            decreases statements@.len() - i,
        {
            match self.compile_statement(&statements[i]) {
                Ok(_) => {},
                Err(error) => {
                    return Err(error);
                },
            }
            i += 1;
        }
        Ok(())
    }

    fn compile_statement(&mut self, statement: &Statement) -> (r: Result<(), Error>)
        ensures
            compile_statement(statement@, old(self)@) == (Outcome {
                state: final(self)@,
                error: step_error(r),
            }),
        decreases statement, 2int,
    {
        match statement {
            Statement::Let { name, value } => {
                let symbol = self.symbol_table.define(name.clone());
                assert(self@.scopes =~= old(self)@.scopes);
                let compiled = match value {
                    Expression::FunctionLiteral { .. } => self.compile_function_literal(
                        value,
                        Some(name),
                    ),
                    _ => self.compile_expression(value),
                };
                match compiled {
                    Ok(_) => {},
                    Err(error) => {
                        return Err(error);
                    },
                }
                match symbol.scope {
                    SymbolScope::Global => self.emit(Instruction::SetGlobal(symbol.index)),
                    _ => self.emit(
                        Instruction::SetLocal(#[verifier::truncate] (symbol.index as u8)),
                    ),
                };
            },
            Statement::Return(value) => {
                match self.compile_expression(value) {
                    Ok(_) => {},
                    Err(error) => {
                        return Err(error);
                    },
                }
                self.emit(Instruction::ReturnValue);
            },
            Statement::Expression(value) => {
                match self.compile_expression(value) {
                    Ok(_) => {},
                    Err(error) => {
                        return Err(error);
                    },
                }
                self.emit(Instruction::Pop);
            },
        }
        Ok(())
    }

    fn compile_expressions(&mut self, items: &Vec<Expression>) -> (r: Result<(), Error>)
        ensures
            compile_expressions(expressions_view(items@), 0, old(self)@) == (Outcome {
                state: final(self)@,
                error: step_error(r),
            }),
        decreases items, items@.len() + 1,
    {
        let mut i: usize = 0;
        while i < items.len()
            invariant
                i <= items@.len(),
                compile_expressions(expressions_view(items@), 0, old(self)@)
                    == compile_expressions(expressions_view(items@), i as int, self@),
            decreases items@.len() - i,
        {
            match self.compile_expression(&items[i]) {
                Ok(_) => {},
                Err(error) => {
                    return Err(error);
                },
            }
            i += 1;
        }
        Ok(())
    }

    fn compile_pairs(&mut self, pairs: &Vec<HashLiteralPair>) -> (r: Result<(), Error>)
        ensures
            compile_pairs(pairs_view(pairs@), 0, old(self)@) == (Outcome {
                state: final(self)@,
                error: step_error(r),
            }),
        decreases pairs, pairs@.len() + 1,
    {
        let mut i: usize = 0;
        while i < pairs.len()
            invariant
                i <= pairs@.len(),
                compile_pairs(pairs_view(pairs@), 0, old(self)@) == compile_pairs(
                    pairs_view(pairs@),
                    i as int,
                    self@,
                ),
            decreases pairs@.len() - i,
        {
            match self.compile_expression(&pairs[i].key) {
                Ok(_) => {},
                Err(error) => {
                    return Err(error);
                },
            }
            match self.compile_expression(&pairs[i].value) {
                Ok(_) => {},
                Err(error) => {
                    return Err(error);
                },
            }
            i += 1;
        }
        Ok(())
    }

    fn compile_expression(&mut self, expression: &Expression) -> (r: Result<(), Error>)
        ensures
            compile_expression(expression@, old(self)@) == (Outcome {
                state: final(self)@,
                error: step_error(r),
            }),
        decreases expression, 1int,
    {
        proof {
            lemma_expression_view(*expression);
        }
        match expression {
            Expression::Identifier(name) => {
                let found = self.symbol_table.resolve(name.as_str());
                assert(self@.scopes =~= old(self)@.scopes);
                match found {
                    Some(symbol) => {
                        self.emit_load(symbol);
                    },
                    None => {
                        return Err(Error::UndefinedSymbol(name.clone()));
                    },
                }
            },
            Expression::IntegerLiteral(value) => {
                self.emit_constant(Object::Integer(*value));
            },
            Expression::BooleanLiteral(value) => {
                if *value {
                    self.emit(Instruction::True);
                } else {
                    self.emit(Instruction::False);
                }
            },
            Expression::StringLiteral(value) => {
                self.emit_constant(Object::String(Rc::new(value.clone())));
            },
            Expression::ArrayLiteral(items) => {
                match self.compile_expressions(items) {
                    Ok(_) => {},
                    Err(error) => {
                        return Err(error);
                    },
                }
                self.emit(Instruction::Array(#[verifier::truncate] (items.len() as u16)));
            },
            Expression::HashLiteral(pairs) => {
                match self.compile_pairs(pairs) {
                    Ok(_) => {},
                    Err(error) => {
                        return Err(error);
                    },
                }
                self.emit(
                    Instruction::Hash(#[verifier::truncate] (pairs.len().wrapping_mul(2) as u16)),
                );
            },
            Expression::PrefixOperator { operator, right } => {
                match self.compile_expression(right) {
                    Ok(_) => {},
                    Err(error) => {
                        return Err(error);
                    },
                }
                match operator {
                    PrefixOperatorKind::Not => self.emit(Instruction::Bang),
                    PrefixOperatorKind::Negative => self.emit(Instruction::Minus),
                };
            },
            Expression::InfixOperator { .. } => {
                return self.compile_infix_operator(expression);
            },
            Expression::If { .. } => {
                return self.compile_conditional(expression);
            },
            Expression::FunctionLiteral { .. } => {
                return self.compile_function_literal(expression, None);
            },
            Expression::FunctionCall { function, arguments } => {
                match self.compile_expression(function) {
                    Ok(_) => {},
                    Err(error) => {
                        return Err(error);
                    },
                }
                match self.compile_expressions(arguments) {
                    Ok(_) => {},
                    Err(error) => {
                        return Err(error);
                    },
                }
                self.emit(Instruction::Call(#[verifier::truncate] (arguments.len() as u8)));
            },
            Expression::Index { left, index } => {
                match self.compile_expression(left) {
                    Ok(_) => {},
                    Err(error) => {
                        return Err(error);
                    },
                }
                match self.compile_expression(index) {
                    Ok(_) => {},
                    Err(error) => {
                        return Err(error);
                    },
                }
                self.emit(Instruction::Index);
            },
        }
        Ok(())
    }

    fn compile_block_statement(&mut self, block: &BlockStatement) -> (r: Result<(), Error>)
        ensures
            compile_block(block@, old(self)@) == (Outcome {
                state: final(self)@,
                error: step_error(r),
            }),
        decreases block, 0int,
    {
        proof {
            lemma_block_view(*block);
        }
        if block.statements.len() == 0 {
            self.emit(Instruction::Null);
            self.emit(Instruction::Pop);
            return Ok(());
        }
        match self.compile_statements(&block.statements) {
            Ok(_) => {},
            Err(error) => {
                return Err(error);
            },
        }
        match &block.statements[block.statements.len() - 1] {
            Statement::Let { .. } => {
                self.emit(Instruction::Null);
                self.emit(Instruction::Pop);
            },
            _ => {},
        }
        Ok(())
    }

    fn compile_infix_operator(&mut self, expression: &Expression) -> (r: Result<(), Error>)
        ensures
            compile_infix_operator(expression@, old(self)@) == (Outcome {
                state: final(self)@,
                error: step_error(r),
            }),
        decreases expression, 0int,
    {
        let Expression::InfixOperator { operator, left, right } = expression else {
            return Ok(());
        };
        // The machine compares with `GreaterThan` only.
        if *operator == InfixOperatorKind::LessThan {
            match self.compile_expression(right) {
                Ok(_) => {},
                Err(error) => {
                    return Err(error);
                },
            }
            match self.compile_expression(left) {
                Ok(_) => {},
                Err(error) => {
                    return Err(error);
                },
            }
            self.emit(Instruction::GreaterThan);
            return Ok(());
        }
        match self.compile_expression(left) {
            Ok(_) => {},
            Err(error) => {
                return Err(error);
            },
        }
        match self.compile_expression(right) {
            Ok(_) => {},
            Err(error) => {
                return Err(error);
            },
        }
        match operator {
            InfixOperatorKind::Add => self.emit(Instruction::Add),
            InfixOperatorKind::Subtract => self.emit(Instruction::Sub),
            InfixOperatorKind::Multiply => self.emit(Instruction::Mul),
            InfixOperatorKind::Divide => self.emit(Instruction::Div),
            InfixOperatorKind::Equal => self.emit(Instruction::Equal),
            InfixOperatorKind::NotEqual => self.emit(Instruction::NotEqual),
            InfixOperatorKind::GreaterThan => self.emit(Instruction::GreaterThan),
            InfixOperatorKind::LessThan => self.emit(Instruction::GreaterThan),
        };
        Ok(())
    }

    fn compile_conditional(&mut self, expression: &Expression) -> (r: Result<(), Error>)
        ensures
            compile_conditional(expression@, old(self)@) == (Outcome {
                state: final(self)@,
                error: step_error(r),
            }),
        decreases expression, 0int,
    {
        let Expression::If { condition, consequence, alternative } = expression else {
            return Ok(());
        };
        match self.compile_expression(condition) {
            Ok(_) => {},
            Err(error) => {
                return Err(error);
            },
        }
        // The address is not known yet.
        let jump_not_truthy_pos = self.emit(Instruction::JumpNotTruthy(0));
        match self.compile_block_statement(consequence) {
            Ok(_) => {},
            Err(error) => {
                return Err(error);
            },
        }
        self.remove_trailing_pop();
        // The address is not known yet.
        let jump_pos = self.emit(Instruction::Jump(0));
        let after_consequence_pos = self.current_len();
        self.patch(
            jump_not_truthy_pos,
            Instruction::JumpNotTruthy(#[verifier::truncate] (after_consequence_pos as u16)),
        );
        match self.compile_block_statement(alternative) {
            Ok(_) => {},
            Err(error) => {
                return Err(error);
            },
        }
        self.remove_trailing_pop();
        let after_alternative_pos = self.current_len();
        self.patch(
            jump_pos,
            Instruction::Jump(#[verifier::truncate] (after_alternative_pos as u16)),
        );
        Ok(())
    }

    fn define_parameters(&mut self, parameters: &Vec<String>)
        ensures
            final(self)@ == parameters_defined(old(self)@, names_view(parameters@), 0),
    {
        let mut i: usize = 0;
        while i < parameters.len()
            invariant
                i <= parameters@.len(),
                parameters_defined(old(self)@, names_view(parameters@), 0) == parameters_defined(
                    self@,
                    names_view(parameters@),
                    i as int,
                ),
            decreases parameters@.len() - i,
        {
            let ghost before = self@;
            self.symbol_table.define(parameters[i].clone());
            assert(self@.scopes =~= before.scopes);
            i += 1;
        }
    }

    fn emit_loads(&mut self, symbols: &Vec<Symbol>)
        ensures
            final(self)@ == loads_emitted(old(self)@, symbols@, 0),
    {
        let mut i: usize = 0;
        while i < symbols.len()
            invariant
                i <= symbols@.len(),
                loads_emitted(old(self)@, symbols@, 0) == loads_emitted(self@, symbols@, i as int),
            decreases symbols@.len() - i,
        {
            self.emit_load(symbols[i]);
            i += 1;
        }
    }

    fn enter_function(&mut self, name: Option<&String>)
        ensures
            final(self)@ == function_entered(
                old(self)@,
                match name {
                    Some(name) => Some(name@),
                    None => None,
                },
            ),
    {
        self.enter_scope();
        match name {
            Some(name) => {
                let ghost before = self@;
                self.symbol_table.define_function_name(name.clone());
                assert(self@.scopes =~= before.scopes);
            },
            None => {},
        }
    }

    fn compile_function_literal(&mut self, expression: &Expression, name: Option<&String>) -> (r:
        Result<(), Error>)
        ensures
            compile_function_literal(
                expression@,
                match name {
                    Some(name) => Some(name@),
                    None => None,
                },
                old(self)@,
            ) == (Outcome {
                state: final(self)@,
                error: step_error(r),
            }),
        decreases expression, 0int,
    {
        let Expression::FunctionLiteral { parameters, body } = expression else {
            return Ok(());
        };
        self.enter_function(name);
        self.define_parameters(parameters);
        match self.compile_block_statement(body) {
            Ok(_) => {},
            Err(error) => {
                return Err(error);
            },
        }
        self.return_trailing_value();
        let num_locals = self.symbol_table.num_definitions();
        let (instructions, free) = self.leave_scope();
        self.emit_loads(&free);
        let function = Object::CompiledFunction(
            CompiledFunction {
                instructions: Rc::new(instructions),
                num_locals,
                num_arguments: parameters.len(),
            },
        );
        let index = self.add_constant(function);
        self.emit(
            Instruction::Closure {
                constant_index: #[verifier::truncate]
                (index as u16),
                free_variables: #[verifier::truncate]
                (free.len() as u8),
            },
        );
        Ok(())
    }
}

/// `a < b` compiles to the very instructions of `b > a`.
pub proof fn law_less_than_lowering(left: ExpressionView, right: ExpressionView, c: CompilerView)
    ensures
        compile_expression(
            ExpressionView::InfixOperator {
                operator: InfixOperatorKind::LessThan,
                left: Box::new(left),
                right: Box::new(right),
            },
            c,
        ) == compile_expression(
            ExpressionView::InfixOperator {
                operator: InfixOperatorKind::GreaterThan,
                left: Box::new(right),
                right: Box::new(left),
            },
            c,
        ),
{
    let less = ExpressionView::InfixOperator {
        operator: InfixOperatorKind::LessThan,
        left: Box::new(left),
        right: Box::new(right),
    };
    let greater = ExpressionView::InfixOperator {
        operator: InfixOperatorKind::GreaterThan,
        left: Box::new(right),
        right: Box::new(left),
    };
    assert(compile_expression(less, c) == compile_infix_operator(less, c));
    assert(compile_expression(greater, c) == compile_infix_operator(greater, c));
    assert(compile_infix_operator(less, c) == then_emitted(
        compile_expression(left, compile_expression(right, c).state),
        Instruction::GreaterThan,
    ) || compile_expression(right, c).error is Some);
}

/// Compiling is a function of the program and of the compiler's constants
/// and symbols: two runs that start alike return the same bytecode, or the
/// same error, and leave the same constants and symbols.
pub proof fn law_compiler_determinism(
    first: CompilerView,
    second: CompilerView,
    program: Seq<StatementView>,
    first_after: CompilerView,
    second_after: CompilerView,
    first_result: Result<BytecodeView, ErrorView>,
    second_result: Result<BytecodeView, ErrorView>,
)
    requires
        first.constants == second.constants,
        first.symbols == second.symbols,
        compiles_to(first, program, first_after, first_result),
        compiles_to(second, program, second_after, second_result),
    ensures
        first_result == second_result,
        first_after.constants == second_after.constants,
        first_after.symbols == second_after.symbols,
{
}

} // verus!
