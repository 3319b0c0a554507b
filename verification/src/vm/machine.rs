//! What the virtual machine does, as mathematical functions on its state.

use vstd::prelude::*;
use crate::code::{BytecodeView, Instruction};
use crate::object::builtin::{builtin_of_number, builtin_output, builtin_result};
use crate::object::hashing::hash_from;
use crate::object::{
    hash_insert, hash_key_of, hash_lookup, negative, quotient, truthy, type_of, values_equal, ClosureView,
    CompiledFunctionView, DataType, HashKeyView, Value,
};
use crate::vm::error::ErrorView;
use crate::vm::frame::FrameView;

verus! {

/// How many values the stack holds.
pub const STACK_SIZE: usize = 2048;

/// How many global slots there are.
pub const GLOBALS_SIZE: usize = 65536;

/// How many calls can be in progress at once.
pub const FRAME_STACK_SIZE: usize = 1024;

/// How many instructions one run may execute, unless the machine was made
/// with another limit.
pub const STEP_LIMIT: u64 = 0xffff_ffff_ffff_ffff;

/// The mathematical value of a virtual machine. The stack keeps what was
/// popped: `sp` is the index of the next free slot, and the slot at `sp`
/// holds the value popped last.
pub struct MachineView {
    pub stack: Seq<Value>,
    pub sp: nat,
    pub globals: Seq<Value>,
    pub frames: Seq<FrameView>,
    pub output: Seq<Seq<char>>,
}

/// The state after a step, or the error that stopped the machine.
pub type Stepped = Result<MachineView, ErrorView>;

/// The sizes of a machine are as they should be.
pub open spec fn well_formed(m: MachineView) -> bool {
    &&& m.stack.len() == STACK_SIZE
    &&& m.sp <= STACK_SIZE
    &&& m.globals.len() == GLOBALS_SIZE
    &&& m.frames.len() <= FRAME_STACK_SIZE
}

/// The frame of the call in progress.
pub open spec fn current_frame(m: MachineView) -> FrameView {
    m.frames.last()
}

/// The instructions of the call in progress.
pub open spec fn current_instructions(m: MachineView) -> Seq<Instruction> {
    current_frame(m).closure.function.instructions
}

/// Whether the machine has an instruction to execute.
pub open spec fn running(m: MachineView) -> bool {
    m.frames.len() > 0 && current_frame(m).ip < current_instructions(m).len()
}

/// The instruction to execute next.
pub open spec fn fetched(m: MachineView) -> Instruction {
    current_instructions(m)[current_frame(m).ip as int]
}

/// `m` with the call in progress at another instruction.
pub open spec fn with_ip(m: MachineView, ip: nat) -> MachineView {
    if m.frames.len() > 0 {
        MachineView {
            frames: m.frames.update(m.frames.len() - 1, FrameView { ip, ..current_frame(m) }),
            ..m
        }
    } else {
        m
    }
}

/// `m` with the call in progress at its next instruction.
pub open spec fn advanced(m: MachineView) -> MachineView {
    with_ip(m, current_frame(m).ip + 1)
}

/// A step that ends with the move to the next instruction.
pub open spec fn then_advanced(step: Stepped) -> Stepped {
    match step {
        Ok(m) => Ok(advanced(m)),
        Err(error) => Err(error),
    }
}

/// `m` with `value` pushed, or a stack overflow.
pub open spec fn pushed(m: MachineView, value: Value) -> Stepped {
    if m.sp >= STACK_SIZE {
        Err(ErrorView::StackOverflow)
    } else {
        Ok(MachineView { stack: m.stack.update(m.sp as int, value), sp: m.sp + 1, ..m })
    }
}

/// `m` with its top `count` values popped.
pub open spec fn dropped(m: MachineView, count: nat) -> MachineView {
    MachineView { sp: (m.sp - count) as nat, ..m }
}

/// The value `depth` places below the top of the stack.
pub open spec fn peeked(m: MachineView, depth: nat) -> Value {
    m.stack[m.sp - 1 - depth]
}

/// The top `count` values of the stack, the deepest first.
pub open spec fn top_values(m: MachineView, count: nat) -> Seq<Value> {
    m.stack.subrange(m.sp - count, m.sp as int)
}

/// Arithmetic on two integers wraps around.
pub open spec fn integer_operation(instruction: Instruction, a: i64, b: i64) -> Result<
    Value,
    ErrorView,
> {
    match instruction {
        Instruction::Add => Ok(Value::Integer(a.wrapping_add(b))),
        Instruction::Sub => Ok(Value::Integer(a.wrapping_sub(b))),
        Instruction::Mul => Ok(Value::Integer(a.wrapping_mul(b))),
        Instruction::Div => if b == 0 {
            Err(ErrorView::DivisionByZero)
        } else {
            Ok(Value::Integer(quotient(a, b)))
        },
        _ => Err(ErrorView::InvalidBytecode),
    }
}

/// `Add`, `Sub`, `Mul`, `Div`: arithmetic on two integers; `Add` also joins
/// two strings.
pub open spec fn binary_result(instruction: Instruction, left: Value, right: Value) -> Result<
    Value,
    ErrorView,
> {
    match (left, right) {
        (Value::Integer(a), Value::Integer(b)) => integer_operation(instruction, a, b),
        (Value::String(a), Value::String(b)) => if instruction is Add {
            Ok(Value::String(a + b))
        } else {
            Err(ErrorView::UnknownBinaryOperator(instruction, DataType::String, DataType::String))
        },
        _ => Err(ErrorView::UnknownBinaryOperator(instruction, type_of(left), type_of(right))),
    }
}

/// `Equal`, `NotEqual`, `GreaterThan`: integers compare by value; other
/// values are equal or not, and have no order.
pub open spec fn comparison_result(instruction: Instruction, left: Value, right: Value) -> Result<
    Value,
    ErrorView,
> {
    match (left, right) {
        (Value::Integer(a), Value::Integer(b)) => match instruction {
            Instruction::Equal => Ok(Value::Boolean(a == b)),
            Instruction::NotEqual => Ok(Value::Boolean(a != b)),
            Instruction::GreaterThan => Ok(Value::Boolean(a > b)),
            _ => Err(ErrorView::InvalidBytecode),
        },
        _ => match instruction {
            Instruction::Equal => Ok(Value::Boolean(values_equal(left, right))),
            Instruction::NotEqual => Ok(Value::Boolean(!values_equal(left, right))),
            _ => Err(ErrorView::UnknownBinaryOperator(instruction, type_of(left), type_of(right))),
        },
    }
}

/// `Minus`: only integers have a negative.
pub open spec fn negation_result(value: Value) -> Result<Value, ErrorView> {
    match value {
        Value::Integer(a) => Ok(Value::Integer(negative(a))),
        other => Err(ErrorView::UnsupportedNegationType(type_of(other))),
    }
}

/// `Index`: the item of an array at an integer index, or the value of a hash
/// under a key; `null` where there is none.
pub open spec fn index_result(container: Value, index: Value) -> Result<Value, ErrorView> {
    match container {
        Value::Array(items) => match index {
            Value::Integer(i) => Ok(
                if 0 <= i < items.len() {
                    items[i as int]
                } else {
                    Value::Null
                },
            ),
            other => Err(ErrorView::IndexOperatorNotSupported(DataType::Array, type_of(other))),
        },
        Value::HashMap(pairs) => match hash_key_of(index) {
            Ok(key) => Ok(hash_lookup(pairs, key)),
            Err(kind) => Err(ErrorView::UnhashableKey(kind)),
        },
        other => Err(ErrorView::IndexOperatorNotSupported(type_of(other), type_of(index))),
    }
}

/// The hash of the keys and values that alternate in `values` from `from`
/// on, put one after the other into `done`.
pub open spec fn hash_built(values: Seq<Value>, from: int, done: Seq<(HashKeyView, Value)>)
    -> Result<Seq<(HashKeyView, Value)>, ErrorView>
    decreases values.len() - from,
{
    if from < 0 || from + 1 >= values.len() {
        Ok(done)
    } else {
        match hash_key_of(values[from]) {
            Err(kind) => Err(ErrorView::UnhashableKey(kind)),
            Ok(key) => hash_built(values, from + 2, hash_insert(done, key, values[from + 1])),
        }
    }
}

/// A step that replaces the top `count` values by the outcome of an
/// operation on them.
pub open spec fn replaced(m: MachineView, count: nat, outcome: Result<Value, ErrorView>)
    -> Stepped {
    match outcome {
        Ok(value) => then_advanced(pushed(dropped(m, count), value)),
        Err(error) => Err(error),
    }
}

/// `Call`: a closure gets a new frame above its arguments, with room for
/// its local values; a built-in function is applied at once, and its result
/// replaces it and its arguments.
pub open spec fn called(m: MachineView, count: nat) -> Stepped {
    if count + 1 > m.sp {
        Err(ErrorView::InvalidBytecode)
    } else {
        match peeked(m, count) {
            Value::Closure(closure) => if count != closure.function.num_arguments {
                Err(
                    ErrorView::WrongNumberOfArguments {
                        want: closure.function.num_arguments,
                        got: count,
                    },
                )
            } else if m.frames.len() >= FRAME_STACK_SIZE || m.sp - count
                + closure.function.num_locals > STACK_SIZE {
                Err(ErrorView::StackOverflow)
            } else {
                Ok(
                    MachineView {
                        frames: m.frames.push(
                            FrameView { closure, ip: 0, base_pointer: (m.sp - count) as nat },
                        ),
                        sp: (m.sp - count + closure.function.num_locals) as nat,
                        ..m
                    },
                )
            },
            Value::Builtin(function) => match builtin_result(function, top_values(m, count)) {
                Err(source) => Err(ErrorView::BuiltinFunction { source }),
                Ok(value) => then_advanced(
                    pushed(
                        MachineView {
                            output: m.output + builtin_output(function, top_values(m, count)),
                            ..dropped(m, count + 1)
                        },
                        value,
                    ),
                ),
            },
            other => Err(ErrorView::NotCallable(type_of(other))),
        }
    }
}

/// `ReturnValue`: the frame of the call goes, the stack shrinks to below
/// the function that was called, and the value on top is pushed in its
/// place; the caller goes on after its `Call`. There must be a caller, at an
/// instruction, and a slot below the frame. At the top level, where no call
/// is in progress, the program itself returns: the run is at its end, with
/// an empty stack and the value as the one popped last.
pub open spec fn returned(m: MachineView) -> Stepped {
    if m.sp < 1 {
        Err(ErrorView::InvalidBytecode)
    } else if m.frames.len() < 2 {
        Ok(
            with_ip(
                MachineView { stack: m.stack.update(0, peeked(m, 0)), sp: 0, ..m },
                current_instructions(m).len(),
            ),
        )
    } else if current_frame(m).base_pointer < 1 || !running(
        MachineView { frames: m.frames.drop_last(), ..m },
    ) {
        Err(ErrorView::InvalidBytecode)
    } else {
        then_advanced(
            pushed(
                MachineView {
                    frames: m.frames.drop_last(),
                    sp: (current_frame(m).base_pointer - 1) as nat,
                    ..m
                },
                peeked(m, 0),
            ),
        )
    }
}

/// `Closure`: the compiled function among the constants, bundled with the
/// top values of the stack.
pub open spec fn closed(m: MachineView, constants: Seq<Value>, index: nat, count: nat) -> Stepped {
    if index >= constants.len() || count > m.sp {
        Err(ErrorView::InvalidBytecode)
    } else {
        match constants[index as int] {
            Value::CompiledFunction(function) => then_advanced(
                pushed(
                    dropped(m, count),
                    Value::Closure(ClosureView { function, free: top_values(m, count) }),
                ),
            ),
            other => Err(ErrorView::NotAFunction(type_of(other))),
        }
    }
}

/// One step of a running machine: the effect of the instruction at hand. A
/// failing step leaves the machine as it was.
pub open spec fn step(m: MachineView, constants: Seq<Value>) -> Stepped {
    match fetched(m) {
        Instruction::Constant(index) => if 0 <= index < constants.len() {
            then_advanced(pushed(m, constants[index as int]))
        } else {
            Err(ErrorView::InvalidBytecode)
        },
        Instruction::Add | Instruction::Sub | Instruction::Mul | Instruction::Div => if m.sp < 2 {
            Err(ErrorView::InvalidBytecode)
        } else {
            replaced(m, 2, binary_result(fetched(m), peeked(m, 1), peeked(m, 0)))
        },
        Instruction::Equal | Instruction::NotEqual | Instruction::GreaterThan => if m.sp < 2 {
            Err(ErrorView::InvalidBytecode)
        } else {
            replaced(m, 2, comparison_result(fetched(m), peeked(m, 1), peeked(m, 0)))
        },
        Instruction::True => then_advanced(pushed(m, Value::Boolean(true))),
        Instruction::False => then_advanced(pushed(m, Value::Boolean(false))),
        Instruction::Null => then_advanced(pushed(m, Value::Null)),
        Instruction::Pop => if m.sp < 1 {
            Err(ErrorView::InvalidBytecode)
        } else {
            Ok(advanced(dropped(m, 1)))
        },
        Instruction::Bang => if m.sp < 1 {
            Err(ErrorView::InvalidBytecode)
        } else {
            replaced(m, 1, Ok(Value::Boolean(!truthy(peeked(m, 0)))))
        },
        Instruction::Minus => if m.sp < 1 {
            Err(ErrorView::InvalidBytecode)
        } else {
            replaced(m, 1, negation_result(peeked(m, 0)))
        },
        Instruction::JumpNotTruthy(target) => if m.sp < 1 {
            Err(ErrorView::InvalidBytecode)
        } else if truthy(peeked(m, 0)) {
            Ok(advanced(dropped(m, 1)))
        } else {
            Ok(with_ip(dropped(m, 1), target as nat))
        },
        Instruction::Jump(target) => Ok(with_ip(m, target as nat)),
        Instruction::GetGlobal(index) => then_advanced(pushed(m, m.globals[index as int])),
        Instruction::SetGlobal(index) => if m.sp < 1 {
            Err(ErrorView::InvalidBytecode)
        } else {
            Ok(
                advanced(
                    MachineView {
                        globals: m.globals.update(index as int, peeked(m, 0)),
                        ..dropped(m, 1)
                    },
                ),
            )
        },
        Instruction::GetLocal(index) => if current_frame(m).base_pointer + index >= STACK_SIZE {
            Err(ErrorView::InvalidBytecode)
        } else {
            then_advanced(pushed(m, m.stack[current_frame(m).base_pointer + index]))
        },
        Instruction::SetLocal(index) => if m.sp < 1 || current_frame(m).base_pointer + index
            >= STACK_SIZE {
            Err(ErrorView::InvalidBytecode)
        } else {
            Ok(
                advanced(
                    MachineView {
                        stack: m.stack.update(
                            current_frame(m).base_pointer + index,
                            peeked(m, 0),
                        ),
                        ..dropped(m, 1)
                    },
                ),
            )
        },
        Instruction::GetBuiltin(number) => match builtin_of_number(number) {
            Some(function) => then_advanced(pushed(m, Value::Builtin(function))),
            None => Err(ErrorView::InvalidBytecode),
        },
        Instruction::GetFree(index) => if index < current_frame(m).closure.free.len() {
            then_advanced(pushed(m, current_frame(m).closure.free[index as int]))
        } else {
            Err(ErrorView::InvalidBytecode)
        },
        Instruction::Array(count) => if count > m.sp {
            Err(ErrorView::InvalidBytecode)
        } else {
            replaced(m, count as nat, Ok(Value::Array(top_values(m, count as nat))))
        },
        Instruction::Hash(count) => if count > m.sp || count % 2 != 0 {
            Err(ErrorView::InvalidBytecode)
        } else {
            replaced(
                m,
                count as nat,
                match hash_built(top_values(m, count as nat), 0, Seq::empty()) {
                    Ok(pairs) => Ok(Value::HashMap(pairs)),
                    Err(error) => Err(error),
                },
            )
        },
        Instruction::Index => if m.sp < 2 {
            Err(ErrorView::InvalidBytecode)
        } else {
            replaced(m, 2, index_result(peeked(m, 1), peeked(m, 0)))
        },
        Instruction::Call(count) => called(m, count as nat),
        Instruction::ReturnValue => returned(m),
        Instruction::Closure { constant_index, free_variables } => closed(
            m,
            constants,
            constant_index as nat,
            free_variables as nat,
        ),
        Instruction::CurrentClosure => then_advanced(
            pushed(m, Value::Closure(current_frame(m).closure)),
        ),
    }
}

/// Where a machine gets to from `m` within `fuel` steps, and the error, if
/// any, that stopped it. The machine stops by itself when the call in
/// progress has no instruction left.
pub open spec fn run_from(m: MachineView, constants: Seq<Value>, fuel: nat) -> (
    MachineView,
    Option<ErrorView>,
)
    decreases fuel,
{
    if !running(m) {
        (m, None)
    } else if fuel == 0 {
        (m, Some(ErrorView::StepLimitExceeded))
    } else {
        match step(m, constants) {
            Err(error) => (m, Some(error)),
            Ok(next) => run_from(next, constants, (fuel - 1) as nat),
        }
    }
}

/// A stack of `null`s.
pub open spec fn empty_stack() -> Seq<Value> {
    Seq::new(STACK_SIZE as nat, |i: int| Value::Null)
}

/// The closure that stands for the top level of a program.
pub open spec fn main_closure(instructions: Seq<Instruction>) -> ClosureView {
    ClosureView {
        function: CompiledFunctionView { instructions, num_locals: 0, num_arguments: 0 },
        free: Seq::empty(),
    }
}

/// The machine at the start of a run: an empty stack, the one frame of the
/// top level, and the globals and the output of earlier runs.
pub open spec fn started(before: MachineView, bytecode: BytecodeView) -> MachineView {
    MachineView {
        stack: empty_stack(),
        sp: 0,
        frames: seq![
            FrameView { closure: main_closure(bytecode.instructions), ip: 0, base_pointer: 0 },
        ],
        ..before
    }
}

/// What `run` does: from `before`, the machine gets to where [`run_from`]
/// leads within `limit` steps.
pub open spec fn runs_to(before: MachineView, bytecode: BytecodeView, limit: nat) -> (
    MachineView,
    Option<ErrorView>,
) {
    run_from(started(before, bytecode), bytecode.constants, limit)
}

/// A call with `count` arguments puts the new frame's base right below the
/// arguments, and the return from a frame leaves the stack one above the
/// slot below that base. So after the return the stack is `count` shorter
/// than before the call; the value that was on top at the return stands
/// where the called function stood, with nothing of the call above it; and
/// the frame of the caller is the call in progress again, at the
/// instruction behind its `Call`, as long as the frames below that of the
/// called function are as the call left them.
pub proof fn law_return_restores_stack(
    before: MachineView,
    count: nat,
    inside: MachineView,
    during: MachineView,
)
    requires
        called(before, count) == Ok::<MachineView, ErrorView>(inside),
        peeked(before, count) is Closure,
        current_frame(during).base_pointer == current_frame(inside).base_pointer,
        during.frames.len() >= 2,
        well_formed(during),
        returned(during) is Ok,
    ensures
        ({
            let after = returned(during)->Ok_0;
            &&& after.sp == before.sp - count
            &&& after.stack[before.sp - count - 1] == peeked(during, 0)
            &&& during.frames.drop_last() == inside.frames.drop_last() ==> after.frames
                == advanced(before).frames
            &&& after.globals == during.globals
            &&& after.output == during.output
        }),
{
    let after = returned(during)->Ok_0;
    if during.frames.drop_last() == inside.frames.drop_last() {
        assert(inside.frames.drop_last() =~= before.frames);
        assert(after.frames =~= advanced(before).frames);
    }
}

/// An index into a hash that is not hashable is an error.
pub proof fn law_hash_index_domain(pairs: Seq<(HashKeyView, Value)>, index: Value)
    requires
        !(index is Integer || index is Boolean || index is String),
    ensures
        index_result(Value::HashMap(pairs), index) == Err::<Value, ErrorView>(
            ErrorView::UnhashableKey(type_of(index)),
        ),
{
}

/// `Hash` builds the hash of its keys and values, in which the later entry
/// of a key wins, or fails with the kind of the first key that is not
/// hashable: what [`hash_from`] says, and the laws beside it.
pub proof fn law_hash_construction(
    values: Seq<Value>,
    from: int,
    done: Seq<(HashKeyView, Value)>,
)
    ensures
        hash_built(values, from, done) == (match hash_from(values, from, done) {
            Ok(pairs) => Ok::<Seq<(HashKeyView, Value)>, ErrorView>(pairs),
            Err(kind) => Err(ErrorView::UnhashableKey(kind)),
        }),
    decreases values.len() - from,
{
    if from < 0 || from + 1 >= values.len() {
    } else {
        match hash_key_of(values[from]) {
            Ok(key) => {
                law_hash_construction(values, from + 2, hash_insert(done, key, values[from + 1]));
            },
            Err(_) => {},
        }
    }
}

/// A key of a new hash that is not hashable is an error.
pub proof fn law_hash_construction_domain(
    values: Seq<Value>,
    from: int,
    done: Seq<(HashKeyView, Value)>,
)
    requires
        0 <= from,
        from + 1 < values.len(),
        !(values[from] is Integer || values[from] is Boolean || values[from] is String),
    ensures
        hash_built(values, from, done) == Err::<Seq<(HashKeyView, Value)>, ErrorView>(
            ErrorView::UnhashableKey(type_of(values[from])),
        ),
{
}

/// The call of a built-in function changes no global and no slot of the
/// stack below the function: whatever `rest` and `push` return, the array
/// that they were given is still what every other slot holds.
pub proof fn law_builtin_purity(m: MachineView, count: nat, slot: int)
    requires
        well_formed(m),
        count + 1 <= m.sp,
        peeked(m, count) is Builtin,
        called(m, count) is Ok,
        0 <= slot < m.sp - count - 1,
    ensures
        called(m, count)->Ok_0.globals == m.globals,
        called(m, count)->Ok_0.stack[slot] == m.stack[slot],
{
}

} // verus!
