use std::rc::Rc;

use monkey::ast::AST;
use monkey::code::Instruction;
use monkey::compile::Compiler;
use monkey::evaluate::error::Error as EvalError;
use monkey::evaluate::Evaluator;
use monkey::lexer::Lexer;
use monkey::object::{DataType, HashKey, Object};
use monkey::vm::error::Error as MachineError;
use monkey::parse::{parse, Parser};
use monkey::vm::VirtualMachine;

fn evaluated(input: &str) -> Result<Object, monkey::evaluate::error::Error> {
    let program = parse(input).unwrap();
    Evaluator::new().evaluate(&program)
}

fn executed(input: &str) -> Result<Object, monkey::vm::error::Error> {
    let program = parse(input).unwrap();
    let mut compiler = Compiler::new();
    let bytecode = compiler.compile(&program).unwrap();
    let mut machine = VirtualMachine::new();
    machine.run(&bytecode)?;
    Ok(machine.last_popped().clone())
}

fn integers(values: &[i64]) -> Object {
    Object::Array(Rc::new(values.iter().map(|v| Object::Integer(*v)).collect()))
}

#[test]
fn fibonacci_on_both_backends() {
    let input = "let fibonacci = fn(x) { if (x < 2) { 1 } else { fibonacci(x-1) + fibonacci(x-2) } }; fibonacci(10)";
    assert_eq!(evaluated(input), Ok(Object::Integer(89)));
    assert_eq!(executed(input), Ok(Object::Integer(89)));
}

#[test]
fn closures_capture_their_environment() {
    let input = "let makeAdder = fn(x) { fn(y) { x + y } }; let addTwo = makeAdder(2); addTwo(3) + addTwo(5)";
    assert_eq!(evaluated(input), Ok(Object::Integer(12)));
    assert_eq!(executed(input), Ok(Object::Integer(12)));

    let input = "let a = 1; let f = fn(b) { fn(c) { fn(d) { a + b + c + d } } }; f(2)(3)(4)";
    assert_eq!(evaluated(input), Ok(Object::Integer(10)));
    assert_eq!(executed(input), Ok(Object::Integer(10)));
}

#[test]
fn map_over_an_array() {
    let input = "let map = fn(a, f) { let iter = fn(a, acc) { if (len(a) == 0) { acc } else { iter(rest(a), push(acc, f(first(a)))) } }; iter(a, []) }; map([1,2,3,4], fn(x){ x*2 })";
    assert_eq!(evaluated(input), Ok(integers(&[2, 4, 6, 8])));
    assert_eq!(executed(input), Ok(integers(&[2, 4, 6, 8])));
}

#[test]
fn hash_values_by_keys_of_each_kind() {
    let input = r#"{"one": 1, "two": 2, true: 3, 4: "four"}["one"] + {"one": 1, "two": 2, true: 3, 4: "four"}[true]"#;
    assert_eq!(evaluated(input), Ok(Object::Integer(4)));
    assert_eq!(executed(input), Ok(Object::Integer(4)));
}

#[test]
fn nested_return_leaves_the_outer_block() {
    let input = "if (10 > 1) { if (10 > 1) { return 10; } return 1; }";
    assert_eq!(evaluated(input), Ok(Object::Integer(10)));
    assert_eq!(executed(input), Ok(Object::Integer(10)));
}

#[test]
fn a_return_at_the_top_level_ends_the_program() {
    assert_eq!(evaluated("return 5; 6"), Ok(Object::Integer(5)));
    assert_eq!(executed("return 5; 6"), Ok(Object::Integer(5)));
    // What the program had on the stack goes with it.
    assert_eq!(executed("1 + if (true) { return 10 }"), Ok(Object::Integer(10)));
    assert!(stack_after(&["1 + if (true) { return 10 }", "[1, 2, if (true) { return 3 }]"]));
    // A return inside a function is no return of the program.
    assert_eq!(executed("let f = fn() { return 1; 2 }; f() + 10"), Ok(Object::Integer(11)));
}

#[test]
fn a_program_that_fails_to_compile_leaves_the_compiler_at_the_top_level() {
    let mut compiler = Compiler::new();
    let mut machine = VirtualMachine::new();
    let failing = parse("let b = 1; fn(x) { fn() { x + y } }").unwrap();
    assert!(compiler.compile(&failing).is_err());
    let program = parse("let a = 5; a").unwrap();
    let bytecode = compiler.compile(&program).unwrap();
    assert_eq!(
        bytecode.instructions.to_vec(),
        vec![
            Instruction::Constant(1),
            Instruction::SetGlobal(1),
            Instruction::GetGlobal(1),
            Instruction::Pop,
        ]
    );
    machine.run(&bytecode).unwrap();
    assert_eq!(machine.last_popped(), &Object::Integer(5));
    // The next program still knows the name.
    let bytecode = compiler.compile(&parse("a + 1").unwrap()).unwrap();
    machine.run(&bytecode).unwrap();
    assert_eq!(machine.last_popped(), &Object::Integer(6));
}

#[test]
fn environments_are_released_after_a_program_that_failed() {
    let mut evaluator = Evaluator::new();
    let program = parse("let f = fn(x) { fn() { x } }; f(1); f(2)(); missing").unwrap();
    assert_eq!(
        evaluator.evaluate(&program),
        Err(EvalError::UnknownIdentifier("missing".to_string()))
    );
    assert_eq!(evaluator.environment_count(), 1);
    assert_eq!(evaluator.evaluate(&parse("f(3)()").unwrap()), Ok(Object::Integer(3)));
}

#[test]
fn functions_are_equal_by_their_structure() {
    let mut evaluator = Evaluator::new();
    let of_text = evaluator.evaluate(&parse("fn() { \"a\" }").unwrap()).unwrap();
    let of_name = evaluator.evaluate(&parse("fn() { a }").unwrap()).unwrap();
    let again = evaluator.evaluate(&parse("fn() { a }").unwrap()).unwrap();
    assert!(!of_text.same(&of_name));
    assert!(of_name.same(&again));
    assert!(of_name.same(&of_name.duplicate()));
    let other_parameter = evaluator.evaluate(&parse("fn(b) { a }").unwrap()).unwrap();
    assert!(!of_name.same(&other_parameter));
    // The syntax trees compare in the same way.
    let first = parse("let f = fn(x) { if (x) { [1, {2: \"a\"}] } else { -x[0] } };").unwrap();
    let second = parse("let f = fn(x) { if (x) { [1, {2: \"a\"}] } else { -x[0] } };").unwrap();
    let third = parse("let f = fn(x) { if (x) { [1, {2: a}] } else { -x[0] } };").unwrap();
    assert!(first.statements[0].same(&second.statements[0]));
    assert!(!first.statements[0].same(&third.statements[0]));
}

#[test]
fn strings_concatenate_and_do_not_subtract() {
    let input = r#""Hello" + " " + "World!""#;
    let expected = Object::String(Rc::new("Hello World!".to_string()));
    assert_eq!(evaluated(input), Ok(expected.clone()));
    assert_eq!(executed(input), Ok(expected));

    assert_eq!(
        evaluated(r#""a" - "b""#),
        Err(monkey::evaluate::error::Error::UnknownOperator("STRING - STRING".to_string()))
    );
    assert_eq!(
        executed(r#""a" - "b""#),
        Err(monkey::vm::error::Error::UnknownBinaryOperator(
            Instruction::Sub,
            monkey::object::DataType::String,
            monkey::object::DataType::String,
        ))
    );
}

#[test]
fn rendering_parses_back_to_the_same_rendering() {
    let inputs = [
        "let x = 1 + 2 * 3; x",
        "if (a < b) { a } else { b }",
        "fn(x, y) { return x + y; }(1, 2)",
        "[1, 2, 3][0] + -a * !b",
        "{1: 2, 3: 4}",
        "add(a, b)[c](d)",
    ];
    for input in inputs {
        let first = parse(input).unwrap().debug_str();
        let second = parse(&first).unwrap().debug_str();
        assert_eq!(first, second);
        assert_eq!(parse(&first).unwrap(), parse(&second).unwrap());
    }
}

#[test]
fn equal_operators_group_to_the_left() {
    assert_eq!(parse("a - b - c").unwrap().debug_str(), "((a - b) - c);");
    assert_eq!(parse("a / b * c").unwrap().debug_str(), "((a / b) * c);");
    assert_eq!(parse("a * b + c").unwrap().debug_str(), "((a * b) + c);");
    assert_eq!(parse("a + b * c").unwrap().debug_str(), "(a + (b * c));");
    assert_eq!(parse("a == b != c").unwrap().debug_str(), "((a == b) != c);");
}

#[test]
fn less_than_compiles_as_greater_than_with_swapped_operands() {
    let less = Compiler::new().compile(&parse("a < b").unwrap());
    assert!(less.is_err());

    let mut first = Compiler::new();
    let mut second = Compiler::new();
    let less = first.compile(&parse("1 < 2").unwrap()).unwrap();
    let greater = second.compile(&parse("2 > 1").unwrap()).unwrap();
    assert_eq!(less.instructions, greater.instructions);
    assert_eq!(less.constants, vec![Object::Integer(2), Object::Integer(1)]);
    assert_eq!(
        *less.instructions,
        vec![
            Instruction::Constant(0),
            Instruction::Constant(1),
            Instruction::GreaterThan,
            Instruction::Pop,
        ]
    );
}

#[test]
fn fresh_compilers_agree() {
    let input = "let f = fn(a) { let b = a + 1; fn(c) { a + b + c } }; f(1)(2); {\"k\": [1, 2]}";
    let program = parse(input).unwrap();
    let first = Compiler::new().compile(&program).unwrap();
    let second = Compiler::new().compile(&program).unwrap();
    assert_eq!(first, second);
}

#[test]
fn stack_is_empty_after_a_run() {
    let inputs = [
        "1 + 2",
        "let a = [1, 2, 3]; a[1]",
        "let f = fn(a, b) { let c = a + b; c * 2 }; f(1, 2); f(3, 4)",
        "if (true) { 10 }; if (false) { 1 } else { 2 }",
    ];
    for input in inputs {
        let program = parse(input).unwrap();
        let mut compiler = Compiler::new();
        let bytecode = compiler.compile(&program).unwrap();
        let mut machine = VirtualMachine::new();
        machine.run(&bytecode).unwrap();
        assert!(machine.stack_top().is_none(), "stack not empty after {}", input);
    }
}

#[test]
fn call_and_return_leave_the_result_in_place_of_the_call() {
    // The sum is computed from what lies below the call and from its result.
    assert_eq!(executed("let f = fn(a, b) { a + b }; 100 + f(1, 2)"), Ok(Object::Integer(103)));
    assert_eq!(
        executed("let f = fn(a) { let b = a; let c = b; c }; [1, f(2), 3]"),
        Ok(integers(&[1, 2, 3]))
    );
}

#[test]
fn only_false_and_null_are_not_truthy() {
    assert!(!Object::Boolean(false).is_truthy());
    assert!(!Object::Null.is_truthy());
    assert!(Object::Boolean(true).is_truthy());
    assert!(Object::Integer(0).is_truthy());
    assert!(Object::String(Rc::new(String::new())).is_truthy());
    assert!(Object::Array(Rc::new(vec![])).is_truthy());
    assert!(Object::HashMap(Rc::new(vec![])).is_truthy());
    assert!(Object::Return(Rc::new(Object::Null)).is_truthy());

    assert_eq!(evaluated("if (0) { 1 } else { 2 }"), Ok(Object::Integer(1)));
    assert_eq!(executed("if (0) { 1 } else { 2 }"), Ok(Object::Integer(1)));
    assert_eq!(evaluated("if (if (false) { 1 }) { 1 } else { 2 }"), Ok(Object::Integer(2)));
}

#[test]
fn free_names_resolve_in_the_defining_environment() {
    let input = "let x = 1; let f = fn() { x }; let g = fn(x) { f() }; g(2)";
    assert_eq!(evaluated(input), Ok(Object::Integer(1)));
    assert_eq!(executed(input), Ok(Object::Integer(1)));

    // A binding made after the function was created is seen: the
    // environment is captured, not copied.
    let input = "let f = fn() { y }; let y = 7; f()";
    assert_eq!(evaluated(input), Ok(Object::Integer(7)));
}

#[test]
fn functions_call_themselves_by_name() {
    let input = "let count = fn(n) { if (n == 0) { 0 } else { 1 + count(n - 1) } }; count(20)";
    assert_eq!(evaluated(input), Ok(Object::Integer(20)));
    assert_eq!(executed(input), Ok(Object::Integer(20)));

    let input = "let outer = fn() { let inner = fn(n) { if (n == 0) { 0 } else { inner(n - 1) } }; inner(3) }; outer()";
    assert_eq!(evaluated(input), Ok(Object::Integer(0)));
    assert_eq!(executed(input), Ok(Object::Integer(0)));

    // Inside its body the function's name means the running closure.
    let program = parse("let down = fn(n) { if (n == 0) { 0 } else { down(n - 1) } }; down(1)").unwrap();
    let bytecode = Compiler::new().compile(&program).unwrap();
    let Object::CompiledFunction(function) = &bytecode.constants[3] else {
        panic!("expected a compiled function, got: {:?}", bytecode.constants[3]);
    };
    assert!(function.instructions.contains(&Instruction::CurrentClosure));
    assert!(!function.instructions.contains(&Instruction::GetGlobal(0)));
    // A parameter of the same name wins over the function's name.
    assert_eq!(executed("let f = fn(f) { f }; f(5)"), Ok(Object::Integer(5)));
}

#[test]
fn unhashable_keys_are_errors() {
    assert_eq!(evaluated("{[1]: 2}"), Err(EvalError::NotHashable("ARRAY".to_string())));
    assert_eq!(evaluated("{1: 2}[[1]]"), Err(EvalError::NotHashable("ARRAY".to_string())));
    assert_eq!(evaluated("{1: 2}[{}]"), Err(EvalError::NotHashable("HASH_MAP".to_string())));
    assert_eq!(evaluated("{fn(x) { x }: 2}"), Err(EvalError::NotHashable("FUNCTION".to_string())));
    assert_eq!(evaluated("{len: 2}"), Err(EvalError::NotHashable("BUILTIN".to_string())));

    assert_eq!(executed("{[1]: 2}"), Err(MachineError::UnhashableKey(DataType::Array)));
    assert_eq!(executed("{1: 2}[[1]]"), Err(MachineError::UnhashableKey(DataType::Array)));
    assert_eq!(executed("{1: 2}[{}]"), Err(MachineError::UnhashableKey(DataType::HashMap)));
    assert_eq!(executed("{fn(x) { x }: 2}"), Err(MachineError::UnhashableKey(DataType::Closure)));

    assert!(HashKey::from_object(&Object::Integer(1)).is_ok());
    assert!(HashKey::from_object(&Object::Boolean(true)).is_ok());
    assert!(HashKey::from_object(&Object::String(Rc::new("a".to_string()))).is_ok());
    assert_eq!(HashKey::from_object(&Object::Null), Err(DataType::Null));
}

#[test]
fn rest_and_push_leave_their_argument_alone() {
    let input = "let a = [1, 2, 3]; let b = rest(a); let c = push(a, 4); [a, b, c]";
    let expected = Object::Array(Rc::new(vec![
        integers(&[1, 2, 3]),
        integers(&[2, 3]),
        integers(&[1, 2, 3, 4]),
    ]));
    assert_eq!(evaluated(input), Ok(expected.clone()));
    assert_eq!(executed(input), Ok(expected));
}

#[test]
fn later_duplicate_keys_replace_earlier_ones() {
    let expected = Object::HashMap(Rc::new(vec![
        (HashKey::Integer(1), Object::Integer(30)),
        (HashKey::Integer(2), Object::Integer(20)),
    ]));
    assert_eq!(evaluated("{1: 10, 2: 20, 1: 30}"), Ok(expected.clone()));
    assert_eq!(executed("{1: 10, 2: 20, 1: 30}"), Ok(expected));
}

#[test]
fn integers_wrap_around() {
    let max = "9223372036854775807";
    assert_eq!(evaluated(&format!("{} + 1", max)), Ok(Object::Integer(i64::MIN)));
    assert_eq!(executed(&format!("{} + 1", max)), Ok(Object::Integer(i64::MIN)));
    assert_eq!(evaluated(&format!("-{} - 2", max)), Ok(Object::Integer(i64::MAX)));
    assert_eq!(executed(&format!("{} * 2", max)), Ok(Object::Integer(-2)));
    assert_eq!(evaluated(&format!("(-{} - 1) / -1", max)), Ok(Object::Integer(i64::MIN)));
    assert_eq!(executed(&format!("(-{} - 1) / -1", max)), Ok(Object::Integer(i64::MIN)));
    assert_eq!(executed(&format!("-(-{} - 1)", max)), Ok(Object::Integer(i64::MIN)));
}

#[test]
fn division_rounds_towards_zero() {
    assert_eq!(evaluated("7 / 2"), Ok(Object::Integer(3)));
    assert_eq!(evaluated("-7 / 2"), Ok(Object::Integer(-3)));
    assert_eq!(executed("7 / -2"), Ok(Object::Integer(-3)));
    assert_eq!(executed("-7 / -2"), Ok(Object::Integer(3)));
}

#[test]
fn state_stays_between_programs() {
    let mut evaluator = Evaluator::new();
    assert_eq!(evaluator.evaluate(&parse("let a = 5;").unwrap()), Ok(Object::Null));
    assert_eq!(evaluator.evaluate(&parse("let f = fn(x) { x + a };").unwrap()), Ok(Object::Null));
    assert_eq!(evaluator.evaluate(&parse("f(1)").unwrap()), Ok(Object::Integer(6)));

    let mut compiler = Compiler::new();
    let mut machine = VirtualMachine::new();
    let first = compiler.compile(&parse("let a = 5; let s = \"x\";").unwrap()).unwrap();
    machine.run(&first).unwrap();
    let second = compiler.compile(&parse("let f = fn(x) { x + a };").unwrap()).unwrap();
    // The constants of the first program are still there.
    assert_eq!(second.constants.len(), first.constants.len() + 1);
    machine.run(&second).unwrap();
    let third = compiler.compile(&parse("f(1)").unwrap()).unwrap();
    machine.run(&third).unwrap();
    assert_eq!(*machine.last_popped(), Object::Integer(6));
}

#[test]
fn puts_collects_lines() {
    let input = r#"puts(1, "two", [3, true], {"k": null}); puts(); puts(fn(x) { x })"#;
    let program = parse("let null = if (false) { 1 };").unwrap();
    let mut evaluator = Evaluator::new();
    evaluator.evaluate(&program).unwrap();
    assert_eq!(evaluator.evaluate(&parse(input).unwrap()), Ok(Object::Null));
    assert_eq!(
        evaluator.take_output(),
        vec!["1", "two", "[3, true]", "{k: null}", "fn (x) {\nx;\n}"]
    );
    assert!(evaluator.take_output().is_empty());

    let mut compiler = Compiler::new();
    let mut machine = VirtualMachine::new();
    let bytecode = compiler.compile(&parse("puts(1 + 1, \"a\"); puts(puts)").unwrap()).unwrap();
    machine.run(&bytecode).unwrap();
    assert_eq!(*machine.last_popped(), Object::Null);
    assert_eq!(machine.take_output(), vec!["2", "a", "builtin function Puts"]);
    assert!(machine.take_output().is_empty());
}

#[test]
fn values_render_for_the_user() {
    assert_eq!(Object::Integer(-12).inspect(), "-12");
    assert_eq!(Object::Integer(0).inspect(), "0");
    assert_eq!(Object::Integer(i64::MIN).inspect(), "-9223372036854775808");
    assert_eq!(Object::Integer(i64::MAX).inspect(), "9223372036854775807");
    assert_eq!(Object::Boolean(true).inspect(), "true");
    assert_eq!(Object::Null.inspect(), "null");
    assert_eq!(Object::String(Rc::new("a b".to_string())).inspect(), "a b");
    assert_eq!(Object::Return(Rc::new(Object::Integer(3))).inspect(), "3");
    assert_eq!(integers(&[1, 2, 3]).inspect(), "[1, 2, 3]");
    assert_eq!(integers(&[]).inspect(), "[]");
    assert_eq!(evaluated(r#"{"a": 1, 2: [true], false: "x"}"#).unwrap().inspect(), "{a: 1, 2: [true], false: x}");
    assert_eq!(evaluated("fn(x, y) { x + y }").unwrap().inspect(), "fn (x, y) {\n(x + y);\n}");
    assert_eq!(evaluated("first").unwrap().inspect(), "builtin function First");
    assert_eq!(executed("fn() { 1 }").unwrap().inspect(), "closure");
    assert_eq!(HashKey::String(Rc::new("k".to_string())).inspect(), "k");
    assert_eq!(HashKey::Integer(-4).inspect(), "-4");
    assert_eq!(HashKey::Boolean(false).inspect(), "false");
}

#[test]
fn syntax_trees_render_canonically() {
    let input = r#"let a = [1, "two", {3: !x}]; return -f(a, b)[0]; if (c) { d } else { fn() { e } }"#;
    let program = parse(input).unwrap();
    assert_eq!(
        program.debug_str(),
        "let a = [1, two, {3: (!x)}];return (-(f(a, b)[0]));if (c) {d;} else {fn() {e;};};"
    );
    let compact = AST { statements: program.statements };
    assert_eq!(
        compact.debug_str(),
        "let a = [1, two, {3: (!x)}];return (-(f(a, b)[0]));if (c) {d;} else {fn() {e;};}"
    );
    assert_eq!(parse("if (x) { y }").unwrap().debug_str(), "if (x) {y;} else {};");
}

#[test]
fn arguments_beyond_the_parameters_are_ignored_by_the_evaluator() {
    assert_eq!(evaluated("fn(a) { a }(1, 2)"), Ok(Object::Integer(1)));
}

#[test]
fn parser_reads_the_tokens_that_the_lexer_still_has() {
    let mut lexer = Lexer::new("let skipped 1 + 2");
    lexer.next();
    lexer.next();
    let mut parser = Parser::new(lexer);
    assert!(parser.get_current_token().is_some());
    assert_eq!(parser.peek_precedence().map(|p| p.level()), Some(3));
    assert_eq!(parser.parse_program().unwrap().debug_str(), "(1 + 2);");
    assert!(parser.get_current_token().is_none());
    assert!(parser.get_peek_token().is_none());
    parser.step();
    assert!(parser.get_current_token().is_none());
}

#[test]
fn unreachable_environments_are_released() {
    let mut evaluator = Evaluator::new();
    assert_eq!(evaluator.environment_count(), 1);

    // The environments of finished calls go.
    let program = parse("let f = fn(x) { x + 1 }; f(1); f(2); f(3)").unwrap();
    assert_eq!(evaluator.evaluate(&program), Ok(Object::Integer(4)));
    assert_eq!(evaluator.environment_count(), 1);

    // The environment that a stored function captured stays.
    let program = parse("let makeAdder = fn(x) { fn(y) { x + y } }; let addTwo = makeAdder(2);").unwrap();
    assert_eq!(evaluator.evaluate(&program), Ok(Object::Null));
    assert_eq!(evaluator.environment_count(), 2);
    assert_eq!(evaluator.evaluate(&parse("addTwo(3)").unwrap()), Ok(Object::Integer(5)));
    assert_eq!(evaluator.environment_count(), 2);

    // So do those of functions inside arrays, hashes and other functions.
    let program = parse("let held = [makeAdder(1), {1: makeAdder(2)}, fn() { makeAdder(3) }()];").unwrap();
    assert_eq!(evaluator.evaluate(&program), Ok(Object::Null));
    assert_eq!(evaluator.environment_count(), 5);
    assert_eq!(
        evaluator.evaluate(&parse("held[0](1) + held[1][1](1) + held[2](1)").unwrap()),
        Ok(Object::Integer(9))
    );
    assert_eq!(evaluator.environment_count(), 5);

    // A function that captures the environment that holds it is no obstacle.
    let program = parse("let knot = fn() { let me = fn() { me }; me }();").unwrap();
    assert_eq!(evaluator.evaluate(&program), Ok(Object::Null));
    assert_eq!(evaluator.environment_count(), 6);

    // What is bound anew lets go of what it held.
    let program = parse("let held = 0; let knot = 0; let addTwo = 0;").unwrap();
    assert_eq!(evaluator.evaluate(&program), Ok(Object::Null));
    assert_eq!(evaluator.environment_count(), 1);
    assert_eq!(evaluator.evaluate(&parse("makeAdder(1)(2)").unwrap()), Ok(Object::Integer(3)));
    assert_eq!(evaluator.environment_count(), 1);
}

#[test]
fn a_returned_function_outlives_its_environment_only_while_reachable() {
    let mut evaluator = Evaluator::new();
    let program = parse("fn(x) { fn() { x } }(1)").unwrap();
    let function = evaluator.evaluate(&program).unwrap();
    assert_eq!(function.data_type(), DataType::Function);
    // Nothing in the evaluator refers to the environment of the call.
    assert_eq!(evaluator.environment_count(), 1);
}

fn stack_after(inputs: &[&str]) -> bool {
    let mut compiler = Compiler::new();
    let mut machine = VirtualMachine::new();
    for input in inputs {
        let program = parse(input).unwrap();
        let bytecode = compiler.compile(&program).unwrap();
        machine.run(&bytecode).unwrap();
    }
    machine.stack_top().is_none()
}

#[test]
fn the_stack_is_empty_after_programs_in_a_row() {
    assert!(stack_after(&[""]));
    assert!(stack_after(&["1; 2; 3", "let a = [1, 2, 3]; a[1] + len(a)"]));
    assert!(stack_after(&["let f = fn(a, b) { let c = a + b; if (c > 3) { return c; } c * 2 }; f(1, 2) + f(3, 4)"]));
    assert!(stack_after(&[
        "let fibonacci = fn(x) { if (x < 2) { 1 } else { fibonacci(x-1) + fibonacci(x-2) } }; fibonacci(12)",
    ]));
    assert!(stack_after(&[
        "let makeAdder = fn(x) { fn(y) { x + y } };",
        "let addTwo = makeAdder(2);",
        r#"{"sum": addTwo(3)}["sum"]"#,
    ]));
}

#[test]
fn the_stack_is_empty_after_a_block_that_ends_in_let() {
    assert!(stack_after(&["let f = fn() { let a = 1; }; f()"]));
    assert_eq!(executed("let f = fn() { let a = 1; }; f()"), Ok(Object::Null));
    assert_eq!(executed("if (true) { let a = 1; }"), Ok(Object::Null));
    assert_eq!(executed("let f = fn() { }; f()"), Ok(Object::Null));
}

#[test]
fn a_call_with_more_arguments_than_its_operand_counts_is_cut() {
    // The operand of `Call` is one byte: with 256 arguments it says 0, the
    // machine calls the last argument, and the others stay on the stack.
    let mut arguments: Vec<String> = (1..=255).map(|n| n.to_string()).collect();
    arguments.push("f".to_string());
    let input = format!("let f = fn() {{ 7 }}; f({})", arguments.join(", "));
    let program = parse(&input).unwrap();
    let mut compiler = Compiler::new();
    let bytecode = compiler.compile(&program).unwrap();
    assert!(bytecode.instructions.contains(&Instruction::Call(0)));
    let mut machine = VirtualMachine::new();
    assert_eq!(machine.run(&bytecode), Ok(()));
    assert_eq!(machine.last_popped(), &Object::Integer(7));
    assert!(machine.stack_top().is_some());
}

fn operands_in_range(instructions: &[Instruction], constants: &[Object]) -> bool {
    instructions.iter().all(|instruction| match instruction {
        Instruction::Constant(index) => *index >= 0 && (*index as usize) < constants.len(),
        Instruction::Closure { constant_index, .. } => {
            matches!(constants.get(*constant_index as usize), Some(Object::CompiledFunction(_)))
        }
        Instruction::Jump(target) | Instruction::JumpNotTruthy(target) => {
            (*target as usize) <= instructions.len()
        }
        _ => true,
    })
}

#[test]
fn operands_of_compiled_code_are_in_range() {
    let input = "let f = fn(a) { if (a > 1) { fn(b) { a + b + 1 } } else { \"no\" } }; if (f(2)(3) == 6) { [1, 2] } else { {1: 2} }";
    let program = parse(input).unwrap();
    let mut compiler = Compiler::new();
    let bytecode = compiler.compile(&program).unwrap();
    assert!(operands_in_range(&bytecode.instructions, &bytecode.constants));
    let mut functions = 0;
    for constant in bytecode.constants.iter() {
        if let Object::CompiledFunction(function) = constant {
            functions += 1;
            assert!(operands_in_range(&function.instructions, &bytecode.constants));
        }
    }
    assert_eq!(functions, 2);
}
