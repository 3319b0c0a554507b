use std::rc::Rc;

use monkey::code::{Bytecode, Instruction};
use monkey::compile::Compiler;
use monkey::object::builtin::BuiltinFunction;
use monkey::object::{CompiledFunction, HashKey, Object};
use monkey::parse::parse;
use monkey::vm::VirtualMachine;

type CompileResult = Result<(), monkey::compile::error::Error>;
type MachineResult = Result<(), monkey::vm::error::Error>;

struct TestCase {
    input: &'static str,
    expected_constants: Vec<Object>,
    expected_instructions: Vec<Instruction>,
}

fn run_compile_case(case: TestCase) -> CompileResult {
    let program = parse(case.input).unwrap();

    let mut compiler = Compiler::new();
    let bytecode = compiler.compile(&program)?;

    let expected_bytecode = Bytecode {
        instructions: Rc::new(case.expected_instructions),
        constants: case.expected_constants,
    };
    assert_eq!(bytecode, expected_bytecode);

    Ok(())
}

#[test]
fn test_integer_arithemtic() -> CompileResult {
    let tests = [
        TestCase {
            input: "1 + 2",
            expected_constants: vec![Object::Integer(1), Object::Integer(2)],
            expected_instructions: vec![
                Instruction::Constant(0),
                Instruction::Constant(1),
                Instruction::Add,
                Instruction::Pop,
            ],
        },
        TestCase {
            input: "1 - 2",
            expected_constants: vec![Object::Integer(1), Object::Integer(2)],
            expected_instructions: vec![
                Instruction::Constant(0),
                Instruction::Constant(1),
                Instruction::Sub,
                Instruction::Pop,
            ],
        },
        TestCase {
            input: "1 * 2",
            expected_constants: vec![Object::Integer(1), Object::Integer(2)],
            expected_instructions: vec![
                Instruction::Constant(0),
                Instruction::Constant(1),
                Instruction::Mul,
                Instruction::Pop,
            ],
        },
        TestCase {
            input: "2/1",
            expected_constants: vec![Object::Integer(2), Object::Integer(1)],
            expected_instructions: vec![
                Instruction::Constant(0),
                Instruction::Constant(1),
                Instruction::Div,
                Instruction::Pop,
            ],
        },
        TestCase {
            input: "-1",
            expected_constants: vec![Object::Integer(1)],
            expected_instructions: vec![
                Instruction::Constant(0),
                Instruction::Minus,
                Instruction::Pop,
            ],
        },
    ];

    for case in tests {
        run_compile_case(case)?;
    }

    Ok(())
}

#[test]
fn test_test_boolean_expression() -> CompileResult {
    let tests = [
        TestCase {
            input: "true",
            expected_constants: vec![],
            expected_instructions: vec![Instruction::True, Instruction::Pop],
        },
        TestCase {
            input: "false",
            expected_constants: vec![],
            expected_instructions: vec![Instruction::False, Instruction::Pop],
        },
        TestCase {
            input: "1 > 2",
            expected_constants: vec![Object::Integer(1), Object::Integer(2)],
            expected_instructions: vec![
                Instruction::Constant(0),
                Instruction::Constant(1),
                Instruction::GreaterThan,
                Instruction::Pop,
            ],
        },
        TestCase {
            input: "1 < 2",
            expected_constants: vec![Object::Integer(2), Object::Integer(1)],
            expected_instructions: vec![
                Instruction::Constant(0),
                Instruction::Constant(1),
                Instruction::GreaterThan,
                Instruction::Pop,
            ],
        },
        TestCase {
            input: "1 == 2",
            expected_constants: vec![Object::Integer(1), Object::Integer(2)],
            expected_instructions: vec![
                Instruction::Constant(0),
                Instruction::Constant(1),
                Instruction::Equal,
                Instruction::Pop,
            ],
        },
        TestCase {
            input: "1 != 2",
            expected_constants: vec![Object::Integer(1), Object::Integer(2)],
            expected_instructions: vec![
                Instruction::Constant(0),
                Instruction::Constant(1),
                Instruction::NotEqual,
                Instruction::Pop,
            ],
        },
        TestCase {
            input: "true == false",
            expected_constants: vec![],
            expected_instructions: vec![
                Instruction::True,
                Instruction::False,
                Instruction::Equal,
                Instruction::Pop,
            ],
        },
        TestCase {
            input: "true != false",
            expected_constants: vec![],
            expected_instructions: vec![
                Instruction::True,
                Instruction::False,
                Instruction::NotEqual,
                Instruction::Pop,
            ],
        },
        TestCase {
            input: "!true",
            expected_constants: vec![],
            expected_instructions: vec![Instruction::True, Instruction::Bang, Instruction::Pop],
        },
    ];

    for case in tests {
        run_compile_case(case)?;
    }

    Ok(())
}

#[test]
fn test_test_conditionals() -> CompileResult {
    let tests = [
        TestCase {
            input: "if (true) { 10 }; 3333;",
            expected_constants: vec![Object::Integer(10), Object::Integer(3333)],
            expected_instructions: vec![
                Instruction::True,
                Instruction::JumpNotTruthy(4),
                Instruction::Constant(0),
                Instruction::Jump(5),
                Instruction::Null,
                Instruction::Pop,
                Instruction::Constant(1),
                Instruction::Pop,
            ],
        },
        TestCase {
            input: "if (true) { 10 } else { 20 }; 3333;",
            expected_constants: vec![
                Object::Integer(10),
                Object::Integer(20),
                Object::Integer(3333),
            ],
            expected_instructions: vec![
                Instruction::True,
                Instruction::JumpNotTruthy(4),
                Instruction::Constant(0),
                Instruction::Jump(5),
                Instruction::Constant(1),
                Instruction::Pop,
                Instruction::Constant(2),
                Instruction::Pop,
            ],
        },
        TestCase {
            input: "if (true) { let a = 10; }",
            expected_constants: vec![Object::Integer(10)],
            expected_instructions: vec![
                Instruction::True,
                Instruction::JumpNotTruthy(6),
                Instruction::Constant(0),
                Instruction::SetGlobal(0),
                Instruction::Null,
                Instruction::Jump(7),
                Instruction::Null,
                Instruction::Pop,
            ],
        },
    ];

    for case in tests {
        run_compile_case(case)?;
    }

    Ok(())
}

#[test]
fn test_test_global_let_statements() -> CompileResult {
    let tests = [
        TestCase {
            input: "let one = 1; let two = 2;",
            expected_constants: vec![Object::Integer(1), Object::Integer(2)],
            expected_instructions: vec![
                Instruction::Constant(0),
                Instruction::SetGlobal(0),
                Instruction::Constant(1),
                Instruction::SetGlobal(1),
            ],
        },
        TestCase {
            input: "let one = 1; one",
            expected_constants: vec![Object::Integer(1)],
            expected_instructions: vec![
                Instruction::Constant(0),
                Instruction::SetGlobal(0),
                Instruction::GetGlobal(0),
                Instruction::Pop,
            ],
        },
        TestCase {
            input: "let one = 1; let two = 2; two;",
            expected_constants: vec![Object::Integer(1), Object::Integer(2)],
            expected_instructions: vec![
                Instruction::Constant(0),
                Instruction::SetGlobal(0),
                Instruction::Constant(1),
                Instruction::SetGlobal(1),
                Instruction::GetGlobal(1),
                Instruction::Pop,
            ],
        },
    ];

    for case in tests {
        run_compile_case(case)?;
    }

    Ok(())
}

#[test]
fn test_test_string_expressions() -> CompileResult {
    let tests = [
        TestCase {
            input: "\"monkey\"",
            expected_constants: vec![Object::String(Rc::new("monkey".to_string()))],
            expected_instructions: vec![Instruction::Constant(0), Instruction::Pop],
        },
        TestCase {
            input: "\"mon\" + \"key\"",
            expected_constants: vec![
                Object::String(Rc::new("mon".to_string())),
                Object::String(Rc::new("key".to_string())),
            ],
            expected_instructions: vec![
                Instruction::Constant(0),
                Instruction::Constant(1),
                Instruction::Add,
                Instruction::Pop,
            ],
        },
    ];

    for case in tests {
        run_compile_case(case)?;
    }

    Ok(())
}

#[test]
fn test_test_array_literals() -> CompileResult {
    let tests = [
        TestCase {
            input: "[]",
            expected_constants: vec![],
            expected_instructions: vec![Instruction::Array(0), Instruction::Pop],
        },
        TestCase {
            input: "[1, 2, 3]",
            expected_constants: vec![Object::Integer(1), Object::Integer(2), Object::Integer(3)],
            expected_instructions: vec![
                Instruction::Constant(0),
                Instruction::Constant(1),
                Instruction::Constant(2),
                Instruction::Array(3),
                Instruction::Pop,
            ],
        },
        TestCase {
            input: "[1 + 2, 3 - 4, 5 * 6]",
            expected_constants: vec![
                Object::Integer(1),
                Object::Integer(2),
                Object::Integer(3),
                Object::Integer(4),
                Object::Integer(5),
                Object::Integer(6),
            ],
            expected_instructions: vec![
                Instruction::Constant(0),
                Instruction::Constant(1),
                Instruction::Add,
                Instruction::Constant(2),
                Instruction::Constant(3),
                Instruction::Sub,
                Instruction::Constant(4),
                Instruction::Constant(5),
                Instruction::Mul,
                Instruction::Array(3),
                Instruction::Pop,
            ],
        },
    ];

    for case in tests {
        run_compile_case(case)?;
    }

    Ok(())
}

#[test]
fn test_test_hash_literals() -> CompileResult {
    let tests = [
        TestCase {
            input: "{}",
            expected_constants: vec![],
            expected_instructions: vec![Instruction::Hash(0), Instruction::Pop],
        },
        TestCase {
            input: "{1: 2, 3: 4, 5: 6}",
            expected_constants: vec![
                Object::Integer(1),
                Object::Integer(2),
                Object::Integer(3),
                Object::Integer(4),
                Object::Integer(5),
                Object::Integer(6),
            ],
            expected_instructions: vec![
                Instruction::Constant(0),
                Instruction::Constant(1),
                Instruction::Constant(2),
                Instruction::Constant(3),
                Instruction::Constant(4),
                Instruction::Constant(5),
                Instruction::Hash(6),
                Instruction::Pop,
            ],
        },
        TestCase {
            input: "{1: 2 + 3, 4: 5 * 6}",
            expected_constants: vec![
                Object::Integer(1),
                Object::Integer(2),
                Object::Integer(3),
                Object::Integer(4),
                Object::Integer(5),
                Object::Integer(6),
            ],
            expected_instructions: vec![
                Instruction::Constant(0),
                Instruction::Constant(1),
                Instruction::Constant(2),
                Instruction::Add,
                Instruction::Constant(3),
                Instruction::Constant(4),
                Instruction::Constant(5),
                Instruction::Mul,
                Instruction::Hash(4),
                Instruction::Pop,
            ],
        },
    ];

    for case in tests {
        run_compile_case(case)?;
    }

    Ok(())
}

#[test]
fn test_test_index_expressions() -> CompileResult {
    let tests = [
        TestCase {
            input: "[1, 2, 3][1 + 1]",
            expected_constants: vec![
                Object::Integer(1),
                Object::Integer(2),
                Object::Integer(3),
                Object::Integer(1),
                Object::Integer(1),
            ],
            expected_instructions: vec![
                Instruction::Constant(0),
                Instruction::Constant(1),
                Instruction::Constant(2),
                Instruction::Array(3),
                Instruction::Constant(3),
                Instruction::Constant(4),
                Instruction::Add,
                Instruction::Index,
                Instruction::Pop,
            ],
        },
        TestCase {
            input: "{1: 2}[2-1]",
            expected_constants: vec![
                Object::Integer(1),
                Object::Integer(2),
                Object::Integer(2),
                Object::Integer(1),
            ],
            expected_instructions: vec![
                Instruction::Constant(0),
                Instruction::Constant(1),
                Instruction::Hash(2),
                Instruction::Constant(2),
                Instruction::Constant(3),
                Instruction::Sub,
                Instruction::Index,
                Instruction::Pop,
            ],
        },
    ];

    for case in tests {
        run_compile_case(case)?;
    }

    Ok(())
}

#[test]
fn test_functions() -> CompileResult {
    let tests = [
        TestCase {
            input: "fn() { return 5 + 10 }",
            expected_constants: vec![
                Object::Integer(5),
                Object::Integer(10),
                Object::CompiledFunction(CompiledFunction {
                    instructions: Rc::new(vec![
                        Instruction::Constant(0),
                        Instruction::Constant(1),
                        Instruction::Add,
                        Instruction::ReturnValue,
                    ]),
                    num_locals: 0,
                    num_arguments: 0,
                }),
            ],
            expected_instructions: vec![
                Instruction::Closure {
                    constant_index: 2,
                    free_variables: 0,
                },
                Instruction::Pop,
            ],
        },
        TestCase {
            input: "fn() { 1; 2 }",
            expected_constants: vec![
                Object::Integer(1),
                Object::Integer(2),
                Object::CompiledFunction(CompiledFunction {
                    instructions: Rc::new(vec![
                        Instruction::Constant(0),
                        Instruction::Pop,
                        Instruction::Constant(1),
                        Instruction::ReturnValue,
                    ]),
                    num_locals: 0,
                    num_arguments: 0,
                }),
            ],
            expected_instructions: vec![
                Instruction::Closure {
                    constant_index: 2,
                    free_variables: 0,
                },
                Instruction::Pop,
            ],
        },
        TestCase {
            input: "fn() { }",
            expected_constants: vec![Object::CompiledFunction(CompiledFunction {
                instructions: Rc::new(vec![Instruction::Null, Instruction::ReturnValue]),
                num_locals: 0,
                num_arguments: 0,
            })],
            expected_instructions: vec![
                Instruction::Closure {
                    constant_index: 0,
                    free_variables: 0,
                },
                Instruction::Pop,
            ],
        },
        TestCase {
            input: "fn() { let a = 42; }",
            expected_constants: vec![
                Object::Integer(42),
                Object::CompiledFunction(CompiledFunction {
                    instructions: Rc::new(vec![
                        Instruction::Constant(0),
                        Instruction::SetLocal(0),
                        Instruction::Null,
                        Instruction::ReturnValue,
                    ]),
                    num_locals: 1,
                    num_arguments: 0,
                }),
            ],
            expected_instructions: vec![
                Instruction::Closure {
                    constant_index: 1,
                    free_variables: 0,
                },
                Instruction::Pop,
            ],
        },
    ];

    for case in tests {
        run_compile_case(case)?;
    }

    Ok(())
}

#[test]
fn test_function_calls() -> CompileResult {
    let tests = [
        TestCase {
            input: "fn() { 24 }();",
            expected_constants: vec![
                Object::Integer(24),
                Object::CompiledFunction(CompiledFunction {
                    instructions: Rc::new(vec![Instruction::Constant(0), Instruction::ReturnValue]),
                    num_locals: 0,
                    num_arguments: 0,
                }),
            ],
            expected_instructions: vec![
                Instruction::Closure {
                    constant_index: 1,
                    free_variables: 0,
                },
                Instruction::Call(0),
                Instruction::Pop,
            ],
        },
        TestCase {
            input: "let noArg = fn() { 24 }; noArg()",
            expected_constants: vec![
                Object::Integer(24),
                Object::CompiledFunction(CompiledFunction {
                    instructions: Rc::new(vec![Instruction::Constant(0), Instruction::ReturnValue]),
                    num_locals: 0,
                    num_arguments: 0,
                }),
            ],
            expected_instructions: vec![
                Instruction::Closure {
                    constant_index: 1,
                    free_variables: 0,
                },
                Instruction::SetGlobal(0),
                Instruction::GetGlobal(0),
                Instruction::Call(0),
                Instruction::Pop,
            ],
        },
        TestCase {
            input: "let oneArg = fn(a) { a }; oneArg(24)",
            expected_constants: vec![
                Object::CompiledFunction(CompiledFunction {
                    instructions: Rc::new(vec![Instruction::GetLocal(0), Instruction::ReturnValue]),
                    num_locals: 1,
                    num_arguments: 1,
                }),
                Object::Integer(24),
            ],
            expected_instructions: vec![
                Instruction::Closure {
                    constant_index: 0,
                    free_variables: 0,
                },
                Instruction::SetGlobal(0),
                Instruction::GetGlobal(0),
                Instruction::Constant(1),
                Instruction::Call(1),
                Instruction::Pop,
            ],
        },
        TestCase {
            input: "let manyArg = fn(a, b, c) { a; b; c }; manyArg(24, 25, 26)",
            expected_constants: vec![
                Object::CompiledFunction(CompiledFunction {
                    instructions: Rc::new(vec![
                        Instruction::GetLocal(0),
                        Instruction::Pop,
                        Instruction::GetLocal(1),
                        Instruction::Pop,
                        Instruction::GetLocal(2),
                        Instruction::ReturnValue,
                    ]),
                    num_locals: 3,
                    num_arguments: 3,
                }),
                Object::Integer(24),
                Object::Integer(25),
                Object::Integer(26),
            ],
            expected_instructions: vec![
                Instruction::Closure {
                    constant_index: 0,
                    free_variables: 0,
                },
                Instruction::SetGlobal(0),
                Instruction::GetGlobal(0),
                Instruction::Constant(1),
                Instruction::Constant(2),
                Instruction::Constant(3),
                Instruction::Call(3),
                Instruction::Pop,
            ],
        },
    ];

    for case in tests {
        run_compile_case(case)?;
    }

    Ok(())
}

#[test]
fn test_local_statement_scopes() -> CompileResult {
    let tests = [
        TestCase {
            input: "let num = 55; fn() {num}",
            expected_constants: vec![
                Object::Integer(55),
                Object::CompiledFunction(CompiledFunction {
                    instructions: Rc::new(vec![
                        Instruction::GetGlobal(0),
                        Instruction::ReturnValue,
                    ]),
                    num_locals: 0,
                    num_arguments: 0,
                }),
            ],
            expected_instructions: vec![
                Instruction::Constant(0),
                Instruction::SetGlobal(0),
                Instruction::Closure {
                    constant_index: 1,
                    free_variables: 0,
                },
                Instruction::Pop,
            ],
        },
        TestCase {
            input: "fn() {let num = 55; num}",
            expected_constants: vec![
                Object::Integer(55),
                Object::CompiledFunction(CompiledFunction {
                    instructions: Rc::new(vec![
                        Instruction::Constant(0),
                        Instruction::SetLocal(0),
                        Instruction::GetLocal(0),
                        Instruction::ReturnValue,
                    ]),
                    num_locals: 1,
                    num_arguments: 0,
                }),
            ],
            expected_instructions: vec![
                Instruction::Closure {
                    constant_index: 1,
                    free_variables: 0,
                },
                Instruction::Pop,
            ],
        },
        TestCase {
            input: r#"
                fn () {
                    let a = 55;
                    let b = 77
                    a + b
                }"#,
            expected_constants: vec![
                Object::Integer(55),
                Object::Integer(77),
                Object::CompiledFunction(CompiledFunction {
                    instructions: Rc::new(vec![
                        Instruction::Constant(0),
                        Instruction::SetLocal(0),
                        Instruction::Constant(1),
                        Instruction::SetLocal(1),
                        Instruction::GetLocal(0),
                        Instruction::GetLocal(1),
                        Instruction::Add,
                        Instruction::ReturnValue,
                    ]),
                    num_locals: 2,
                    num_arguments: 0,
                }),
            ],
            expected_instructions: vec![
                Instruction::Closure {
                    constant_index: 2,
                    free_variables: 0,
                },
                Instruction::Pop,
            ],
        },
    ];

    for case in tests {
        run_compile_case(case)?;
    }

    Ok(())
}

#[test]
fn test_builtin() -> CompileResult {
    let tests = [
        TestCase {
            input: "len([]); push([], 1);",
            expected_constants: vec![Object::Integer(1)],
            expected_instructions: vec![
                Instruction::GetBuiltin(BuiltinFunction::Len.id()),
                Instruction::Array(0),
                Instruction::Call(1),
                Instruction::Pop,
                Instruction::GetBuiltin(BuiltinFunction::Push.id()),
                Instruction::Array(0),
                Instruction::Constant(0),
                Instruction::Call(2),
                Instruction::Pop,
            ],
        },
        TestCase {
            input: "fn() { len([]) }",
            expected_constants: vec![Object::CompiledFunction(CompiledFunction {
                instructions: Rc::new(vec![
                    Instruction::GetBuiltin(BuiltinFunction::Len.id()),
                    Instruction::Array(0),
                    Instruction::Call(1),
                    Instruction::ReturnValue,
                ]),
                num_locals: 0,
                num_arguments: 0,
            })],
            expected_instructions: vec![
                Instruction::Closure {
                    constant_index: 0,
                    free_variables: 0,
                },
                Instruction::Pop,
            ],
        },
    ];

    for case in tests {
        run_compile_case(case)?;
    }

    Ok(())
}

fn run_machine_case(input: &str, expected: Object) -> MachineResult {
    let program = parse(input).unwrap();

    let mut compiler = Compiler::new();
    let bytecode = compiler.compile(&program).unwrap();

    let mut vm = VirtualMachine::new();
    vm.run(&bytecode)?;

    assert_eq!(*vm.last_popped(), expected);

    Ok(())
}

#[test]
fn test_integer_arithmetic() -> MachineResult {
    let tests = [
        ("1", Object::Integer(1)),
        ("2", Object::Integer(2)),
        ("1 + 2", Object::Integer(3)),
        ("1 - 2", Object::Integer(-1)),
        ("1 * 2", Object::Integer(2)),
        ("4 / 2", Object::Integer(2)),
        ("50 / 2 * 2 + 10 - 5", Object::Integer(55)),
        ("5 + 5 + 5 + 5 - 10", Object::Integer(10)),
        ("2 * 2 * 2 * 2 * 2", Object::Integer(32)),
        ("5 * 2 + 10", Object::Integer(20)),
        ("5 + 2 * 10", Object::Integer(25)),
        ("5 * (2 + 10)", Object::Integer(60)),
        ("-5", Object::Integer(-5)),
        ("-10", Object::Integer(-10)),
        ("-50 + 100 + -50", Object::Integer(0)),
        ("(5 + 10 * 2 + 15 / 3) * 2 + -10", Object::Integer(50)),
    ];

    for (input, expected) in tests {
        run_machine_case(input, expected)?;
    }

    Ok(())
}

#[test]
fn test_boolean_expression() -> MachineResult {
    let tests = [
        ("true", Object::Boolean(true)),
        ("false", Object::Boolean(false)),
        ("1 < 2", Object::Boolean(true)),
        ("1 > 2", Object::Boolean(false)),
        ("1 < 1", Object::Boolean(false)),
        ("1 > 1", Object::Boolean(false)),
        ("1 == 1", Object::Boolean(true)),
        ("1 != 1", Object::Boolean(false)),
        ("1 == 2", Object::Boolean(false)),
        ("1 != 2", Object::Boolean(true)),
        ("true == true", Object::Boolean(true)),
        ("false == false", Object::Boolean(true)),
        ("true == false", Object::Boolean(false)),
        ("true != false", Object::Boolean(true)),
        ("false != true", Object::Boolean(true)),
        ("(1 < 2) == true", Object::Boolean(true)),
        ("(1 < 2) == false", Object::Boolean(false)),
        ("(1 > 2) == true", Object::Boolean(false)),
        ("(1 > 2) == false", Object::Boolean(true)),
        ("!true", Object::Boolean(false)),
        ("!false", Object::Boolean(true)),
        ("!5", Object::Boolean(false)),
        ("!!true", Object::Boolean(true)),
        ("!!false", Object::Boolean(false)),
        ("!!5", Object::Boolean(true)),
        ("!(if (false) { 5; })", Object::Boolean(true)),
    ];

    for (input, expected) in tests {
        run_machine_case(input, expected)?;
    }

    Ok(())
}

#[test]
fn test_conditionals() -> MachineResult {
    let tests = [
        ("if (true) { 10 }", Object::Integer(10)),
        ("if (true) { 10 } else { 20 }", Object::Integer(10)),
        ("if (false) { 10 } else { 20 } ", Object::Integer(20)),
        ("if (1) { 10 }", Object::Integer(10)),
        ("if (1 < 2) { 10 }", Object::Integer(10)),
        ("if (1 < 2) { 10 } else { 20 }", Object::Integer(10)),
        ("if (1 > 2) { 10 } else { 20 }", Object::Integer(20)),
        ("if (1 > 2) { 10 }", Object::Null),
        ("if (false) { 10 }", Object::Null),
        (
            "if ((if (false) { 10 })) { 10 } else { 20 }",
            Object::Integer(20),
        ),
    ];

    for (input, expected) in tests {
        run_machine_case(input, expected)?;
    }

    Ok(())
}

#[test]
fn test_global_let_statements() -> MachineResult {
    let tests = [
        ("let one = 1; one", Object::Integer(1)),
        ("let one = 1; let two = 2; one + two", Object::Integer(3)),
        (
            "let one = 1; let two = one + one; one + two",
            Object::Integer(3),
        ),
    ];

    for (input, expected) in tests {
        run_machine_case(input, expected)?;
    }

    Ok(())
}

#[test]
fn test_string_expressions() -> MachineResult {
    let tests = [
        (r#""monkey""#, Object::String(Rc::new("monkey".to_string()))),
        (
            r#""mon" + "key""#,
            Object::String(Rc::new("monkey".to_string())),
        ),
        (
            r#""mon" + "key" + "banana""#,
            Object::String(Rc::new("monkeybanana".to_string())),
        ),
    ];

    for (input, expected) in tests {
        run_machine_case(input, expected)?;
    }

    Ok(())
}

#[test]
fn test_array_literals() -> MachineResult {
    let tests = [
        ("[]", Object::Array(Rc::new(vec![]))),
        (
            "[1, 2, 3]",
            Object::Array(Rc::new(vec![
                Object::Integer(1),
                Object::Integer(2),
                Object::Integer(3),
            ])),
        ),
        (
            "[1 + 2, 3 * 4, 5 + 6]",
            Object::Array(Rc::new(vec![
                Object::Integer(3),
                Object::Integer(12),
                Object::Integer(11),
            ])),
        ),
    ];

    for (input, expected) in tests {
        run_machine_case(input, expected)?;
    }

    Ok(())
}

#[test]
fn test_hash_literals() -> MachineResult {
    let tests = [
        ("{}", Object::HashMap(Rc::new(vec![]))),
        (
            "{1: 2, 2: 3}",
            Object::HashMap(Rc::new(vec![
                (HashKey::Integer(1), Object::Integer(2)),
                (HashKey::Integer(2), Object::Integer(3)),
            ])),
        ),
        (
            "{1 + 1: 2 * 2, 3 + 3: 4 * 4}",
            Object::HashMap(Rc::new(vec![
                (HashKey::Integer(2), Object::Integer(4)),
                (HashKey::Integer(6), Object::Integer(16)),
            ])),
        ),
    ];

    for (input, expected) in tests {
        run_machine_case(input, expected)?;
    }

    Ok(())
}

#[test]
fn test_index_expressions() -> MachineResult {
    let tests = [
        ("[1, 2, 3][1]", Object::Integer(2)),
        ("[1, 2, 3][0 + 2]", Object::Integer(3)),
        ("[[1, 1, 1]][0][0]", Object::Integer(1)),
        ("[][0]", Object::Null),
        ("[1, 2, 3][99]", Object::Null),
        ("[1][-1]", Object::Null),
        ("{1: 1, 2: 2}[1]", Object::Integer(1)),
        ("{1: 1, 2: 2}[2]", Object::Integer(2)),
        ("{1: 1}[0]", Object::Null),
        ("{}[0]", Object::Null),
    ];

    for (input, expected) in tests {
        run_machine_case(input, expected)?;
    }

    Ok(())
}

#[test]
fn calling_functions() -> MachineResult {
    let tests = [
        (
            "let fivePlusTen = fn() {5 + 10}; fivePlusTen()",
            Object::Integer(15),
        ),
        (
            r#"let one = fn() { 1; };
               let two = fn() { 2; };
               one() + two()"#,
            Object::Integer(3),
        ),
        (
            r#"let a = fn() { 1 };
                let b = fn() { a() + 1 };
                let c = fn() { b() + 1 };
                c();"#,
            Object::Integer(3),
        ),
        (
            "let earlyExit = fn() { return 99; 100; }; earlyExit();",
            Object::Integer(99),
        ),
        (
            "let earlyExit = fn() { return 99; return 100; }; earlyExit();",
            Object::Integer(99),
        ),
        ("let noReturn = fn() { }; noReturn();", Object::Null),
        (
            r#"
            let noReturn = fn() { };
            let noReturnTwo = fn() { noReturn(); };
            noReturn();
            noReturnTwo();"#,
            Object::Null,
        ),
        (
            r#"
            let returnsOne = fn() { 1; };
            let returnsOneReturner = fn() { returnsOne; };
            returnsOneReturner()();"#,
            Object::Integer(1),
        ),
    ];

    for (input, expected) in tests {
        run_machine_case(input, expected)?;
    }

    Ok(())
}

#[test]
fn test_calling_functions_with_bindings() -> MachineResult {
    let tests = [
        (
            r#"let one = fn() { let one = 1; one };
                one();"#,
            Object::Integer(1),
        ),
        (
            r#"let oneAndTwo = fn() { let one = 1; let two = 2; one + two; };
                oneAndTwo();"#,
            Object::Integer(3),
        ),
        (
            r#"let oneAndTwo = fn() { let one = 1; let two = 2; one + two; };
                let threeAndFour = fn() { let three = 3; let four = 4; three + four; };
                oneAndTwo() + threeAndFour();"#,
            Object::Integer(10),
        ),
        (
            r#"let firstFoobar = fn() { let foobar = 50; foobar; };
                let secondFoobar = fn() { let foobar = 100; foobar; };
                firstFoobar() + secondFoobar();"#,
            Object::Integer(150),
        ),
        (
            r#"let globalSeed = 50;
                let minusOne = fn() {
                    let num = 1;
                    globalSeed - num;
                }
                let minusTwo = fn() {
                    let num = 2;
                    globalSeed - num;
                }
                minusOne() + minusTwo();"#,
            Object::Integer(97),
        ),
    ];

    for (input, expected) in tests {
        run_machine_case(input, expected)?;
    }

    Ok(())
}
