use std::rc::Rc;

use monkey::code::{Bytecode, Instruction};
use monkey::compile::error::Error as CompileError;
use monkey::compile::Compiler;
use monkey::evaluate::error::Error as EvalError;
use monkey::evaluate::Evaluator;
use monkey::object::builtin::{BuiltinFunction, ExecutionError};
use monkey::object::{DataType, Object};
use monkey::parse::error::Error as ParseError;
use monkey::parse::parse;
use monkey::token::Token;
use monkey::vm::error::Error as MachineError;
use monkey::vm::VirtualMachine;

fn evaluated(input: &str) -> Result<Object, EvalError> {
    let program = parse(input).unwrap();
    Evaluator::new().evaluate(&program)
}

fn executed(input: &str) -> Result<Object, MachineError> {
    let program = parse(input).unwrap();
    let mut compiler = Compiler::new();
    let bytecode = compiler.compile(&program).unwrap();
    let mut machine = VirtualMachine::new();
    machine.run(&bytecode)?;
    Ok(machine.last_popped().clone())
}

fn run(instructions: Vec<Instruction>, constants: Vec<Object>) -> Result<Object, MachineError> {
    let bytecode = Bytecode { instructions: Rc::new(instructions), constants };
    let mut machine = VirtualMachine::new();
    machine.run(&bytecode)?;
    Ok(machine.last_popped().clone())
}

#[test]
fn parse_errors() {
    assert_eq!(parse("let x 5;"), Err(ParseError::UnexpectedToken(Token::Int("5".to_string()))));
    assert_eq!(parse("let = 10;"), Err(ParseError::UnexpectedToken(Token::Assign)));
    assert_eq!(parse("let"), Err(ParseError::UnexpectedEof));
    assert_eq!(parse("let x"), Err(ParseError::UnexpectedEof));
    assert_eq!(parse("(1 + 2"), Err(ParseError::UnexpectedEof));
    assert_eq!(parse("(1 + 2]"), Err(ParseError::UnexpectedToken(Token::RBracket)));
    assert_eq!(parse("[1, 2"), Err(ParseError::UnexpectedEof));
    assert_eq!(parse("a[1"), Err(ParseError::UnexpectedEof));
    assert_eq!(parse("f(1 2)"), Err(ParseError::UnexpectedToken(Token::Int("2".to_string()))));
    assert_eq!(parse("fn(1) {}"), Err(ParseError::UnexpectedToken(Token::Int("1".to_string()))));
    assert_eq!(parse("fn(a b) {}"), Err(ParseError::UnexpectedToken(Token::Ident("b".to_string()))));
    assert_eq!(parse("fn x"), Err(ParseError::UnexpectedToken(Token::Ident("x".to_string()))));
    assert_eq!(parse("fn(a)"), Err(ParseError::UnexpectedEof));
    assert_eq!(parse("if x"), Err(ParseError::UnexpectedToken(Token::Ident("x".to_string()))));
    assert_eq!(parse("if (x) y"), Err(ParseError::UnexpectedToken(Token::Ident("y".to_string()))));
    assert_eq!(parse("if (x) { y"), Err(ParseError::UnexpectedEof));
    assert_eq!(parse("if (x) { y } else z"), Err(ParseError::UnexpectedToken(Token::Ident("z".to_string()))));
    assert_eq!(parse("{1 2}"), Err(ParseError::UnexpectedToken(Token::Int("2".to_string()))));
    assert_eq!(parse("{1: 2 3}"), Err(ParseError::UnexpectedToken(Token::Int("3".to_string()))));
    assert_eq!(parse("1 +"), Err(ParseError::NotAnExpression(None)));
    assert_eq!(parse("-"), Err(ParseError::NotAnExpression(None)));
    assert_eq!(parse("return"), Err(ParseError::NotAnExpression(None)));
    assert_eq!(parse(")"), Err(ParseError::NotAnExpression(Some(Token::Rparen))));
    assert_eq!(parse("1 + *"), Err(ParseError::NotAnExpression(Some(Token::Asterisk))));
    assert_eq!(parse("@"), Err(ParseError::NotAnExpression(Some(Token::Illegal(b'@')))));
    assert_eq!(parse("let x = ;"), Err(ParseError::NotAnExpression(Some(Token::Semicolon))));
    assert_eq!(
        parse("9223372036854775808"),
        Err(ParseError::IntegerOverflow("9223372036854775808".to_string()))
    );
    assert_eq!(
        parse("123456789012345678901234567890"),
        Err(ParseError::IntegerOverflow("123456789012345678901234567890".to_string()))
    );
    assert_eq!(ParseError::unexpected_token(None), ParseError::UnexpectedEof);
    assert_eq!(
        ParseError::unexpected_token(Some(&Token::Comma)),
        ParseError::UnexpectedToken(Token::Comma)
    );
}

#[test]
fn integer_literals_up_to_the_greatest() {
    assert_eq!(evaluated("9223372036854775807"), Ok(Object::Integer(i64::MAX)));
    assert_eq!(evaluated("0000000000000000000000042"), Ok(Object::Integer(42)));
    assert_eq!(monkey::parse::parse_integer("0"), Some(0));
    assert_eq!(monkey::parse::parse_integer(""), None);
    assert_eq!(monkey::parse::parse_integer("12a"), None);
    assert_eq!(monkey::parse::parse_integer("-1"), None);
    assert_eq!(monkey::parse::parse_integer("9223372036854775807"), Some(i64::MAX));
    assert_eq!(monkey::parse::parse_integer("9223372036854775808"), None);
}

#[test]
fn compile_errors() {
    let program = parse("let a = 1; a + b").unwrap();
    assert_eq!(
        Compiler::new().compile(&program),
        Err(CompileError::UndefinedSymbol("b".to_string()))
    );
    let program = parse("fn(x) { y }").unwrap();
    assert_eq!(
        Compiler::new().compile(&program),
        Err(CompileError::UndefinedSymbol("y".to_string()))
    );
}

#[test]
fn evaluator_errors() {
    assert_eq!(evaluated("1 + true"), Err(EvalError::TypeMismatch("INTEGER + BOOLEAN".to_string())));
    assert_eq!(evaluated("\"a\" == 1"), Err(EvalError::TypeMismatch("STRING == INTEGER".to_string())));
    assert_eq!(evaluated("true > false"), Err(EvalError::UnknownOperator("BOOLEAN > BOOLEAN".to_string())));
    assert_eq!(evaluated("\"a\" == \"a\""), Err(EvalError::UnknownOperator("STRING == STRING".to_string())));
    assert_eq!(evaluated("[1] + [2]"), Err(EvalError::UnknownOperator("ARRAY + ARRAY".to_string())));
    assert_eq!(evaluated("-\"a\""), Err(EvalError::UnknownOperator("-STRING".to_string())));
    assert_eq!(evaluated("-fn() { 1 }"), Err(EvalError::UnknownOperator("-FUNCTION".to_string())));
    assert_eq!(evaluated("nothing"), Err(EvalError::UnknownIdentifier("nothing".to_string())));
    assert_eq!(evaluated("1(2)"), Err(EvalError::NotAFunction("INTEGER".to_string())));
    assert_eq!(evaluated("\"f\"()"), Err(EvalError::NotAFunction("STRING".to_string())));
    assert_eq!(
        evaluated("1[0]"),
        Err(EvalError::IndexOperatorNotSupported("INTEGER".to_string(), "INTEGER".to_string()))
    );
    assert_eq!(
        evaluated("[1][true]"),
        Err(EvalError::IndexOperatorNotSupported("ARRAY".to_string(), "BOOLEAN".to_string()))
    );
    assert_eq!(evaluated("{1: 2}[fn() { 1 }]"), Err(EvalError::NotHashable("FUNCTION".to_string())));
    assert_eq!(
        evaluated("fn(a, b) { a }(1)"),
        Err(EvalError::WrongNumberOfArguments { expected: 2, got: 1 })
    );
    assert_eq!(
        evaluated("push([1])"),
        Err(EvalError::WrongNumberOfArguments { expected: 2, got: 1 })
    );
    assert_eq!(evaluated("rest(\"a\")"), Err(EvalError::TypeMismatch("STRING".to_string())));
    assert_eq!(evaluated("1 / 0"), Err(EvalError::DivisionByZero));
    assert_eq!(evaluated("1 / (2 - 2)"), Err(EvalError::DivisionByZero));
}

#[test]
fn evaluator_limits_nested_calls() {
    let program = parse("let f = fn(n) { if (n == 0) { 0 } else { 1 + f(n - 1) } }; f(10)").unwrap();
    assert_eq!(Evaluator::with_call_depth(11).evaluate(&program), Ok(Object::Integer(10)));
    assert_eq!(Evaluator::with_call_depth(10).evaluate(&program), Err(EvalError::StackOverflow));
    assert_eq!(Evaluator::with_call_depth(0).evaluate(&program), Err(EvalError::StackOverflow));
    let program = parse("let f = fn() { f() }; f()").unwrap();
    assert_eq!(Evaluator::with_call_depth(50).evaluate(&program), Err(EvalError::StackOverflow));
    // An error leaves the evaluator usable.
    let mut evaluator = Evaluator::with_call_depth(5);
    assert_eq!(evaluator.evaluate(&program), Err(EvalError::StackOverflow));
    assert_eq!(evaluator.evaluate(&parse("let g = fn() { 3 }; g()").unwrap()), Ok(Object::Integer(3)));
}

#[test]
fn machine_errors_of_programs() {
    assert_eq!(
        executed("1 + true"),
        Err(MachineError::UnknownBinaryOperator(Instruction::Add, DataType::Integer, DataType::Boolean))
    );
    assert_eq!(
        executed("true > false"),
        Err(MachineError::UnknownBinaryOperator(
            Instruction::GreaterThan,
            DataType::Boolean,
            DataType::Boolean
        ))
    );
    assert_eq!(
        executed("\"a\" * \"b\""),
        Err(MachineError::UnknownBinaryOperator(Instruction::Mul, DataType::String, DataType::String))
    );
    assert_eq!(executed("-true"), Err(MachineError::UnsupportedNegationType(DataType::Boolean)));
    assert_eq!(executed("{[]: 1}"), Err(MachineError::UnhashableKey(DataType::Array)));
    assert_eq!(
        executed("1[0]"),
        Err(MachineError::IndexOperatorNotSupported(DataType::Integer, DataType::Integer))
    );
    assert_eq!(
        executed("[1][\"a\"]"),
        Err(MachineError::IndexOperatorNotSupported(DataType::Array, DataType::String))
    );
    assert_eq!(executed("1()"), Err(MachineError::NotCallable(DataType::Integer)));
    assert_eq!(
        executed("fn(a) { a }()"),
        Err(MachineError::WrongNumberOfArguments { want: 1, got: 0 })
    );
    assert_eq!(
        executed("fn() { 1 }(2)"),
        Err(MachineError::WrongNumberOfArguments { want: 0, got: 1 })
    );
    assert_eq!(
        executed("len(1)"),
        Err(MachineError::BuiltinFunction {
            source: ExecutionError::TypeMismatch("INTEGER".to_string())
        })
    );
    assert_eq!(
        executed("len()"),
        Err(MachineError::BuiltinFunction {
            source: ExecutionError::WrongNumberOfArguments { expected: 1, got: 0 }
        })
    );
    assert_eq!(executed("1 / 0"), Err(MachineError::DivisionByZero));
    assert_eq!(executed("let f = fn() { f() }; f()"), Err(MachineError::StackOverflow));
    assert_eq!(executed("let f = fn(n) { 1 + f(n + 1) }; f(0)"), Err(MachineError::StackOverflow));
}

#[test]
fn machine_equality_of_values() {
    assert_eq!(executed("\"a\" == \"a\""), Ok(Object::Boolean(true)));
    assert_eq!(executed("\"a\" != \"b\""), Ok(Object::Boolean(true)));
    assert_eq!(executed("[1, [2]] == [1, [2]]"), Ok(Object::Boolean(true)));
    assert_eq!(executed("[1, [2]] == [1, [3]]"), Ok(Object::Boolean(false)));
    assert_eq!(executed("[1] == [1, 2]"), Ok(Object::Boolean(false)));
    assert_eq!(executed("{1: 2, 3: 4} == {3: 4, 1: 2}"), Ok(Object::Boolean(true)));
    assert_eq!(executed("{1: 2, 3: 4} == {3: 4, 1: 5}"), Ok(Object::Boolean(false)));
    assert_eq!(executed("{1: 2} != {1: 2, 3: 4}"), Ok(Object::Boolean(true)));
    assert_eq!(executed("1 == true"), Ok(Object::Boolean(false)));
    assert_eq!(executed("len == len"), Ok(Object::Boolean(true)));
    assert_eq!(executed("len == first"), Ok(Object::Boolean(false)));
    assert_eq!(executed("(if (false) { 1 }) == (if (false) { 2 })"), Ok(Object::Boolean(true)));
    assert_eq!(executed("fn() { true } == fn() { true }"), Ok(Object::Boolean(true)));
    assert_eq!(executed("fn() { true } == fn() { false }"), Ok(Object::Boolean(false)));
}

#[test]
fn machine_errors_of_malformed_bytecode() {
    assert_eq!(run(vec![Instruction::Pop], vec![]), Err(MachineError::InvalidBytecode));
    assert_eq!(run(vec![Instruction::Add], vec![]), Err(MachineError::InvalidBytecode));
    assert_eq!(run(vec![Instruction::True, Instruction::Add], vec![]), Err(MachineError::InvalidBytecode));
    assert_eq!(run(vec![Instruction::Bang], vec![]), Err(MachineError::InvalidBytecode));
    assert_eq!(run(vec![Instruction::Constant(0)], vec![]), Err(MachineError::InvalidBytecode));
    assert_eq!(run(vec![Instruction::Constant(-1)], vec![Object::Null]), Err(MachineError::InvalidBytecode));
    assert_eq!(run(vec![Instruction::Array(1)], vec![]), Err(MachineError::InvalidBytecode));
    assert_eq!(run(vec![Instruction::True, Instruction::Hash(1)], vec![]), Err(MachineError::InvalidBytecode));
    assert_eq!(run(vec![Instruction::Call(0)], vec![]), Err(MachineError::InvalidBytecode));
    assert_eq!(run(vec![Instruction::GetBuiltin(6)], vec![]), Err(MachineError::InvalidBytecode));
    assert_eq!(run(vec![Instruction::GetFree(0)], vec![]), Err(MachineError::InvalidBytecode));
    assert_eq!(run(vec![Instruction::ReturnValue], vec![]), Err(MachineError::InvalidBytecode));
    assert_eq!(run(vec![Instruction::SetLocal(0)], vec![]), Err(MachineError::InvalidBytecode));
    assert_eq!(
        run(vec![Instruction::Closure { constant_index: 0, free_variables: 0 }], vec![]),
        Err(MachineError::InvalidBytecode)
    );
    assert_eq!(
        run(
            vec![Instruction::Closure { constant_index: 0, free_variables: 0 }],
            vec![Object::Integer(1)]
        ),
        Err(MachineError::NotAFunction(DataType::Integer))
    );
    // A loop that pushes for ever fills the stack.
    assert_eq!(run(vec![Instruction::True, Instruction::Jump(0)], vec![]), Err(MachineError::StackOverflow));
}

#[test]
fn machine_runs_malformed_but_harmless_bytecode() {
    assert_eq!(run(vec![], vec![]), Ok(Object::Null));
    assert_eq!(run(vec![Instruction::Jump(7)], vec![]), Ok(Object::Null));
    assert_eq!(
        run(vec![Instruction::True, Instruction::ReturnValue, Instruction::False], vec![]),
        Ok(Object::Boolean(true))
    );
    assert_eq!(
        run(vec![Instruction::GetBuiltin(BuiltinFunction::Last.id())], vec![]),
        Ok(Object::Null)
    );
    assert_eq!(
        run(vec![Instruction::GetLocal(5), Instruction::Pop], vec![]),
        Ok(Object::Null)
    );
    assert_eq!(
        run(vec![Instruction::CurrentClosure, Instruction::Pop], vec![]).map(|v| v.data_type()),
        Ok(DataType::Closure)
    );
    let mut machine = VirtualMachine::new();
    let bytecode = Bytecode {
        instructions: Rc::new(vec![Instruction::Constant(0), Instruction::Constant(1)]),
        constants: vec![Object::Integer(1), Object::Integer(2)],
    };
    machine.run(&bytecode).unwrap();
    assert_eq!(machine.stack_top(), Some(&Object::Integer(2)));
    assert_eq!(*machine.last_popped(), Object::Null);
}

#[test]
fn machine_limits_steps() {
    let endless = Bytecode { instructions: Rc::new(vec![Instruction::Jump(0)]), constants: vec![] };
    let mut machine = VirtualMachine::with_step_limit(1000);
    assert_eq!(machine.run(&endless), Err(MachineError::StepLimitExceeded));

    let program = parse("1 + 2").unwrap();
    let bytecode = Compiler::new().compile(&program).unwrap();
    assert_eq!(VirtualMachine::with_step_limit(4).run(&bytecode), Ok(()));
    assert_eq!(VirtualMachine::with_step_limit(3).run(&bytecode), Err(MachineError::StepLimitExceeded));
}

#[test]
fn builtin_functions_by_name_and_number() {
    let all = [
        (BuiltinFunction::Len, "len", 0),
        (BuiltinFunction::First, "first", 1),
        (BuiltinFunction::Last, "last", 2),
        (BuiltinFunction::Rest, "rest", 3),
        (BuiltinFunction::Push, "push", 4),
        (BuiltinFunction::Puts, "puts", 5),
    ];
    for (function, ident, id) in all {
        assert_eq!(function.ident(), ident);
        assert_eq!(function.id(), id);
        assert_eq!(BuiltinFunction::from_ident(ident), Some(function));
        assert_eq!(BuiltinFunction::from_id(id), Some(function));
    }
    assert_eq!(BuiltinFunction::from_ident("lens"), None);
    assert_eq!(BuiltinFunction::from_ident(""), None);
    assert_eq!(BuiltinFunction::from_id(6), None);

    let mut output = Vec::new();
    let two = vec![Object::Array(Rc::new(vec![Object::Integer(1)])), Object::Integer(2)];
    assert_eq!(
        BuiltinFunction::Push.execute(&two, &mut output),
        Ok(Object::Array(Rc::new(vec![Object::Integer(1), Object::Integer(2)])))
    );
    assert_eq!(two[0], Object::Array(Rc::new(vec![Object::Integer(1)])));
    assert_eq!(
        BuiltinFunction::Len.execute(&vec![Object::String(Rc::new("héllo".to_string()))], &mut output),
        Ok(Object::Integer(6))
    );
    assert!(output.is_empty());
    assert_eq!(BuiltinFunction::Puts.execute(&two, &mut output), Ok(Object::Null));
    assert_eq!(output, vec!["[1]", "2"]);
}
