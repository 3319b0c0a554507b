//! The stack discipline of the virtual machine: why a run of well-formed
//! bytecode that comes to its end leaves the stack empty.

use vstd::prelude::*;
use crate::code::{BytecodeView, Instruction};
use crate::object::builtin::{builtin_result, BuiltinFunction};
use crate::object::{hash_insert, hash_key_of, key_position, ClosureView, HashKeyView, Value};
use crate::vm::error::ErrorView;
use crate::vm::frame::FrameView;
use crate::vm::machine::{
    advanced, binary_result, called, comparison_result, current_frame, current_instructions,
    dropped, fetched, hash_built, index_result, main_closure, negation_result, peeked, pushed,
    replaced, returned, run_from, running, runs_to, started, step, then_advanced, top_values,
    with_ip, MachineView, GLOBALS_SIZE, STACK_SIZE,
};

verus! {

/// By how much an instruction that goes on to the next instruction changes
/// the height of the stack.
pub open spec fn delta(instruction: Instruction) -> int {
    match instruction {
        Instruction::Constant(_)
        | Instruction::True
        | Instruction::False
        | Instruction::Null
        | Instruction::GetGlobal(_)
        | Instruction::GetLocal(_)
        | Instruction::GetBuiltin(_)
        | Instruction::GetFree(_)
        | Instruction::CurrentClosure => 1,
        Instruction::Pop
        | Instruction::SetGlobal(_)
        | Instruction::SetLocal(_)
        | Instruction::Add
        | Instruction::Sub
        | Instruction::Mul
        | Instruction::Div
        | Instruction::Equal
        | Instruction::NotEqual
        | Instruction::GreaterThan
        | Instruction::Index
        | Instruction::JumpNotTruthy(_) => -1,
        Instruction::Bang | Instruction::Minus | Instruction::Jump(_) | Instruction::ReturnValue => 0,
        Instruction::Array(count) => 1 - count,
        Instruction::Hash(count) => 1 - count,
        Instruction::Call(count) => -count,
        Instruction::Closure { constant_index, free_variables } => 1 - free_variables,
    }
}

/// Whether the heights `h` fit the instruction at `i`: the height behind
/// the instruction is the height before it changed by the instruction's
/// effect, and the height at the target of a jump is the height with which
/// the jump is taken. Nothing is asked of the height behind a `Jump` or a
/// `ReturnValue`, which never go on to the next instruction.
pub open spec fn flows(code: Seq<Instruction>, h: Seq<int>, i: int) -> bool {
    match code[i] {
        Instruction::Jump(target) => target <= code.len() && h[target as int] == h[i],
        Instruction::JumpNotTruthy(target) => target <= code.len() && h[target as int] == h[i] - 1
            && h[i + 1] == h[i] - 1,
        Instruction::ReturnValue => true,
        other => h[i + 1] == h[i] + delta(other),
    }
}

/// Whether `h` gives every position of the code a height, beginning with 0,
/// that fits every instruction.
pub open spec fn typed(code: Seq<Instruction>, h: Seq<int>) -> bool {
    &&& h.len() == code.len() + 1
    &&& h[0] == 0
    &&& forall|i: int| 0 <= i < code.len() ==> flows(code, h, i)
}

/// Whether `h` types the code of a program: the height at the end is 0, and
/// the code does not refer to a running closure, for at the top level none
/// runs.
pub open spec fn main_typed(code: Seq<Instruction>, h: Seq<int>) -> bool {
    &&& typed(code, h)
    &&& h[code.len() as int] == 0
    &&& forall|i: int| 0 <= i < code.len() ==> !(#[trigger] code[i] is CurrentClosure)
}

/// Whether `h` types the code of a function: the code ends in a
/// `ReturnValue`, and no jump leads behind it.
pub open spec fn function_typed(code: Seq<Instruction>, h: Seq<int>) -> bool {
    &&& typed(code, h)
    &&& code.len() >= 1
    &&& code.last() is ReturnValue
    &&& forall|i: int|
        0 <= i < code.len() ==> (#[trigger] code[i] matches Instruction::Jump(target) ==> target
            < code.len()) && (code[i] matches Instruction::JumpNotTruthy(target) ==> target
            < code.len())
}

/// Whether code is the code of a function that keeps the discipline.
pub open spec fn is_function_code(code: Seq<Instruction>) -> bool {
    exists|h: Seq<int>| function_typed(code, h)
}

/// Heights that type the code of a function.
pub open spec fn function_heights(code: Seq<Instruction>) -> Seq<int> {
    choose|h: Seq<int>| function_typed(code, h)
}

/// Whether every function inside a value keeps the discipline.
pub open spec fn disciplined(value: Value) -> bool
    decreases value,
{
    match value {
        Value::CompiledFunction(function) => is_function_code(function.instructions),
        Value::Closure(closure) => is_function_code(closure.function.instructions) && forall|
            i: int,
        |
            0 <= i < closure.free.len() ==> disciplined(#[trigger] closure.free[i]),
        Value::Return(inner) => disciplined(*inner),
        Value::Array(items) => forall|i: int|
            0 <= i < items.len() ==> disciplined(#[trigger] items[i]),
        Value::HashMap(pairs) => forall|i: int|
            0 <= i < pairs.len() ==> disciplined((#[trigger] pairs[i]).1),
        _ => true,
    }
}

/// Whether every value of a list is disciplined.
pub open spec fn all_disciplined(values: Seq<Value>) -> bool {
    forall|i: int| 0 <= i < values.len() ==> disciplined(#[trigger] values[i])
}

/// Whether bytecode keeps the discipline: `h` types its instructions as the
/// code of a program, and its constants are disciplined.
pub open spec fn bytecode_typed(bytecode: BytecodeView, h: Seq<int>) -> bool {
    main_typed(bytecode.instructions, h) && all_disciplined(bytecode.constants)
}

/// The code of the `i`-th frame.
pub open spec fn frame_code(m: MachineView, i: int) -> Seq<Instruction> {
    m.frames[i].closure.function.instructions
}

/// The heights of the code of the `i`-th frame.
pub open spec fn frame_heights(m: MachineView, main_h: Seq<int>, i: int) -> Seq<int> {
    if i == 0 {
        main_h
    } else {
        function_heights(frame_code(m, i))
    }
}

/// The height of the stack that the `i`-th frame accounts for: its base,
/// its local values, and the height of its code at its instruction.
pub open spec fn frame_top(m: MachineView, main_h: Seq<int>, i: int) -> int {
    m.frames[i].base_pointer + m.frames[i].closure.function.num_locals + frame_heights(
        m,
        main_h,
        i,
    )[m.frames[i].ip as int]
}

/// Whether the `i`-th frame waits at a call for the frame above it, whose
/// base is where the arguments of the call begin.
pub open spec fn parked(m: MachineView, main_h: Seq<int>, i: int) -> bool {
    &&& m.frames[i].ip < frame_code(m, i).len()
    &&& frame_code(m, i)[m.frames[i].ip as int] matches Instruction::Call(count)
    &&& m.frames[i + 1].base_pointer == frame_top(m, main_h, i) - count
}

/// The discipline of a machine that runs a program: the lowest frame runs
/// the program, every other frame a disciplined function; every value of the
/// machine is disciplined; every frame but the topmost waits at a call; and
/// the stack is as high as the topmost frame accounts for.
pub open spec fn keeps_discipline(m: MachineView, main_code: Seq<Instruction>, main_h: Seq<int>)
    -> bool {
    &&& m.stack.len() == STACK_SIZE
    &&& m.sp <= STACK_SIZE
    &&& m.globals.len() == GLOBALS_SIZE
    &&& m.frames.len() >= 1
    &&& m.frames[0].closure == main_closure(main_code)
    &&& m.frames[0].base_pointer == 0
    &&& main_typed(main_code, main_h)
    &&& all_disciplined(m.stack)
    &&& all_disciplined(m.globals)
    &&& forall|i: int|
        1 <= i < m.frames.len() ==> disciplined(Value::Closure((#[trigger] m.frames[i]).closure))
            && m.frames[i].ip < frame_code(m, i).len()
    &&& m.frames[0].ip <= main_code.len()
    &&& m.sp == frame_top(m, main_h, m.frames.len() - 1)
    &&& forall|i: int| 0 <= i < m.frames.len() - 1 ==> #[trigger] parked(m, main_h, i)
}

/// The code of a disciplined function is typed by its heights.
pub proof fn lemma_function_heights(code: Seq<Instruction>)
    requires
        is_function_code(code),
    ensures
        function_typed(code, function_heights(code)),
{
}

/// The heights of the frame at the top type its code.
pub proof fn lemma_top_typed(m: MachineView, main_code: Seq<Instruction>, main_h: Seq<int>)
    requires
        keeps_discipline(m, main_code, main_h),
    ensures
        typed(current_instructions(m), frame_heights(m, main_h, m.frames.len() - 1)),
        m.frames.len() > 1 ==> function_typed(
            current_instructions(m),
            frame_heights(m, main_h, m.frames.len() - 1),
        ),
        m.frames.len() == 1 ==> current_instructions(m) == main_code,
{
    let top = m.frames.len() - 1;
    if top > 0 {
        assert(disciplined(Value::Closure(m.frames[top].closure)));
        lemma_function_heights(frame_code(m, top));
    }
}

/// A machine that keeps the discipline and has come to its end has an empty
/// stack.
pub proof fn lemma_end(m: MachineView, main_code: Seq<Instruction>, main_h: Seq<int>)
    requires
        keeps_discipline(m, main_code, main_h),
        !running(m),
    ensures
        m.sp == 0,
{
    let top = m.frames.len() - 1;
    if top > 0 {
        assert(m.frames[top].ip < frame_code(m, top).len());
    }
}

/// The machine at the start of a run keeps the discipline.
pub proof fn lemma_start(before: MachineView, bytecode: BytecodeView, main_h: Seq<int>)
    requires
        bytecode_typed(bytecode, main_h),
        before.globals.len() == GLOBALS_SIZE,
        all_disciplined(before.globals),
    ensures
        keeps_discipline(started(before, bytecode), bytecode.instructions, main_h),
{
    let m = started(before, bytecode);
    assert(m.frames.len() == 1);
    assert(m.frames[0].closure == main_closure(bytecode.instructions));
}

/// Where a key is found, there is an entry.
proof fn lemma_key_found(pairs: Seq<(HashKeyView, Value)>, key: HashKeyView, from: int)
    requires
        0 <= from,
    ensures
        key_position(pairs, key, from) matches Some(i) ==> from <= i < pairs.len(),
    decreases pairs.len() - from,
{
    if from < pairs.len() && pairs[from].0 != key {
        lemma_key_found(pairs, key, from + 1);
    }
}

/// A hash that is built of disciplined values has disciplined values.
proof fn lemma_hash_built(values: Seq<Value>, from: int, done: Seq<(HashKeyView, Value)>)
    requires
        all_disciplined(values),
        0 <= from,
        forall|i: int| 0 <= i < done.len() ==> disciplined((#[trigger] done[i]).1),
    ensures
        hash_built(values, from, done) matches Ok(pairs) ==> disciplined(Value::HashMap(pairs)),
    decreases values.len() - from,
{
    if from + 1 < values.len() {
        match hash_key_of(values[from]) {
            Ok(key) => {
                let next = hash_insert(done, key, values[from + 1]);
                lemma_key_found(done, key, 0);
                assert(disciplined(values[from + 1]));
                assert forall|i: int| 0 <= i < next.len() implies disciplined(
                    (#[trigger] next[i]).1,
                ) by {
                    if i < done.len() && next[i] == done[i] {
                        assert(disciplined(done[i].1));
                    }
                }
                lemma_hash_built(values, from + 2, next);
            },
            Err(_) => {},
        }
    }
}

/// What the operations of the machine yield is disciplined if their
/// operands are.
pub proof fn lemma_results(instruction: Instruction, left: Value, right: Value)
    requires
        disciplined(left),
        disciplined(right),
    ensures
        binary_result(instruction, left, right) matches Ok(value) ==> disciplined(value),
        comparison_result(instruction, left, right) matches Ok(value) ==> disciplined(value),
        negation_result(right) matches Ok(value) ==> disciplined(value),
        index_result(left, right) matches Ok(value) ==> disciplined(value),
{
    match left {
        Value::HashMap(pairs) => {
            match hash_key_of(right) {
                Ok(key) => {
                    lemma_key_found(pairs, key, 0);
                },
                Err(_) => {},
            }
        },
        _ => {},
    }
}

/// What a built-in function yields is disciplined if its arguments are.
pub proof fn lemma_builtin(function: BuiltinFunction, args: Seq<Value>)
    requires
        all_disciplined(args),
    ensures
        builtin_result(function, args) matches Ok(value) ==> disciplined(value),
{
    if args.len() >= 1 {
        assert(disciplined(args[0]));
        match args[0] {
            Value::Array(items) => {
                if items.len() > 0 {
                    assert(disciplined(items[0]));
                    assert(disciplined(items[items.len() - 1]));
                    let rest = items.subrange(1, items.len() as int);
                    assert forall|i: int| 0 <= i < rest.len() implies disciplined(
                        #[trigger] rest[i],
                    ) by {
                        assert(rest[i] == items[i + 1]);
                    }
                }
                if args.len() == 2 {
                    assert(disciplined(args[1]));
                    let longer = items.push(args[1]);
                    assert forall|i: int| 0 <= i < longer.len() implies disciplined(
                        #[trigger] longer[i],
                    ) by {
                        if i < items.len() {
                            assert(longer[i] == items[i]);
                        }
                    }
                }
            },
            _ => {},
        }
    }
}

/// The top values of a disciplined stack are disciplined.
proof fn lemma_top_values(m: MachineView, count: nat)
    requires
        all_disciplined(m.stack),
        count <= m.sp <= m.stack.len(),
    ensures
        all_disciplined(top_values(m, count)),
{
    let top = top_values(m, count);
    assert forall|i: int| 0 <= i < top.len() implies disciplined(#[trigger] top[i]) by {
        assert(top[i] == m.stack[m.sp - count + i]);
    }
}

/// Whether a machine has gone on to the next instruction of its topmost
/// frame, with the height of its stack changed by `change`, and otherwise
/// differs in disciplined values of its stack and its globals only.
pub open spec fn moved_on(m: MachineView, after: MachineView, change: int) -> bool {
    &&& after.frames == advanced(m).frames
    &&& after.sp == m.sp + change
    &&& after.sp <= STACK_SIZE
    &&& after.stack.len() == STACK_SIZE
    &&& after.globals.len() == GLOBALS_SIZE
    &&& all_disciplined(after.stack)
    &&& all_disciplined(after.globals)
}

/// A step to the next instruction that changes the height of the stack as
/// the instruction says keeps the discipline.
proof fn lemma_moved_on(
    m: MachineView,
    after: MachineView,
    main_code: Seq<Instruction>,
    main_h: Seq<int>,
)
    requires
        keeps_discipline(m, main_code, main_h),
        running(m),
        !(fetched(m) is Jump),
        !(fetched(m) is ReturnValue),
        moved_on(m, after, delta(fetched(m))),
    ensures
        keeps_discipline(after, main_code, main_h),
{
    let top = m.frames.len() - 1;
    let code = current_instructions(m);
    let ip = m.frames[top].ip as int;
    lemma_top_typed(m, main_code, main_h);
    let h = frame_heights(m, main_h, top);
    assert(flows(code, h, ip));
    assert(after.frames[top] == FrameView { ip: (ip + 1) as nat, ..m.frames[top] });
    assert(frame_code(after, top) == code);
    assert forall|i: int| 0 <= i < top implies after.frames[i] == m.frames[i] by {}
    assert forall|i: int| 0 <= i < after.frames.len() - 1 implies #[trigger] parked(
        after,
        main_h,
        i,
    ) by {
        assert(parked(m, main_h, i));
    }
    assert forall|i: int| 1 <= i < after.frames.len() implies disciplined(
        Value::Closure((#[trigger] after.frames[i]).closure),
    ) && after.frames[i].ip < frame_code(after, i).len() by {
        assert(disciplined(Value::Closure(m.frames[i].closure)));
        if i == top {
            assert(code[ip] != code.last());
        }
    }
}

/// A jump that is taken with the height of the stack changed by `change`
/// keeps the discipline.
proof fn lemma_jumped(
    m: MachineView,
    after: MachineView,
    main_code: Seq<Instruction>,
    main_h: Seq<int>,
    target: nat,
    change: int,
)
    requires
        keeps_discipline(m, main_code, main_h),
        running(m),
        (fetched(m) == Instruction::Jump(target as u16) && change == 0) || (fetched(m)
            == Instruction::JumpNotTruthy(target as u16) && change == -1),
        target <= 0xffff,
        after.frames == with_ip(m, target).frames,
        after.sp == m.sp + change,
        after.sp <= STACK_SIZE,
        after.stack.len() == STACK_SIZE,
        after.globals.len() == GLOBALS_SIZE,
        all_disciplined(after.stack),
        all_disciplined(after.globals),
    ensures
        keeps_discipline(after, main_code, main_h),
{
    let top = m.frames.len() - 1;
    let code = current_instructions(m);
    let ip = m.frames[top].ip as int;
    lemma_top_typed(m, main_code, main_h);
    let h = frame_heights(m, main_h, top);
    assert(flows(code, h, ip));
    assert(after.frames[top] == FrameView { ip: target, ..m.frames[top] });
    assert(frame_code(after, top) == code);
    assert forall|i: int| 0 <= i < top implies after.frames[i] == m.frames[i] by {}
    assert forall|i: int| 0 <= i < after.frames.len() - 1 implies #[trigger] parked(
        after,
        main_h,
        i,
    ) by {
        assert(parked(m, main_h, i));
    }
    assert forall|i: int| 1 <= i < after.frames.len() implies disciplined(
        Value::Closure((#[trigger] after.frames[i]).closure),
    ) && after.frames[i].ip < frame_code(after, i).len() by {
        assert(disciplined(Value::Closure(m.frames[i].closure)));
    }
}

/// A value that is put in the place of the top `count` values, with the
/// move to the next instruction, keeps the discipline if the instruction
/// changes the height of the stack by as much.
proof fn lemma_replaced(
    m: MachineView,
    main_code: Seq<Instruction>,
    main_h: Seq<int>,
    count: nat,
    outcome: Result<Value, ErrorView>,
)
    requires
        keeps_discipline(m, main_code, main_h),
        running(m),
        !(fetched(m) is Jump),
        !(fetched(m) is ReturnValue),
        delta(fetched(m)) == 1 - count,
        count <= m.sp,
        outcome matches Ok(value) ==> disciplined(value),
    ensures
        replaced(m, count, outcome) matches Ok(after) ==> keeps_discipline(
            after,
            main_code,
            main_h,
        ),
{
    match replaced(m, count, outcome) {
        Ok(after) => {
            let value = outcome->Ok_0;
            let lower = dropped(m, count);
            let higher = pushed(lower, value)->Ok_0;
            assert(after == advanced(higher));
            assert(higher.frames == m.frames);
            assert(after.frames == advanced(m).frames);
            assert forall|i: int| 0 <= i < after.stack.len() implies disciplined(
                #[trigger] after.stack[i],
            ) by {
                if i != lower.sp {
                    assert(after.stack[i] == m.stack[i]);
                }
            }
            lemma_moved_on(m, after, main_code, main_h);
        },
        Err(_) => {},
    }
}

/// The call of a closure or of a built-in function keeps the discipline.
proof fn lemma_called(m: MachineView, main_code: Seq<Instruction>, main_h: Seq<int>, count: nat)
    requires
        keeps_discipline(m, main_code, main_h),
        running(m),
        fetched(m) == Instruction::Call(count as u8),
        count <= 0xff,
    ensures
        called(m, count) matches Ok(after) ==> keeps_discipline(after, main_code, main_h),
{
    match called(m, count) {
        Ok(after) => {
            let top = m.frames.len() - 1;
            assert(disciplined(m.stack[m.sp - 1 - count]));
            match peeked(m, count) {
                Value::Closure(closure) => {
                    lemma_function_heights(closure.function.instructions);
                    let above = top + 1;
                    assert(after.frames[above].closure == closure);
                    assert forall|i: int| 0 <= i <= top implies after.frames[i]
                        == m.frames[i] by {}
                    assert(frame_top(after, main_h, top) == frame_top(m, main_h, top));
                    assert forall|i: int| 0 <= i < after.frames.len() - 1 implies #[trigger] parked(
                        after,
                        main_h,
                        i,
                    ) by {
                        if i < top {
                            assert(parked(m, main_h, i));
                        }
                    }
                    assert forall|i: int| 1 <= i < after.frames.len() implies disciplined(
                        Value::Closure((#[trigger] after.frames[i]).closure),
                    ) && after.frames[i].ip < frame_code(after, i).len() by {
                        if i <= top {
                            assert(disciplined(Value::Closure(m.frames[i].closure)));
                        }
                    }
                },
                Value::Builtin(function) => {
                    lemma_top_values(m, count);
                    lemma_builtin(function, top_values(m, count));
                    let value = builtin_result(function, top_values(m, count))->Ok_0;
                    let lower = MachineView {
                        output: m.output + crate::object::builtin::builtin_output(
                            function,
                            top_values(m, count),
                        ),
                        ..dropped(m, count + 1)
                    };
                    let higher = pushed(lower, value)->Ok_0;
                    assert(after == advanced(higher));
                    assert(after.frames == advanced(m).frames);
                    assert forall|i: int| 0 <= i < after.stack.len() implies disciplined(
                        #[trigger] after.stack[i],
                    ) by {
                        if i != lower.sp {
                            assert(after.stack[i] == m.stack[i]);
                        }
                    }
                    lemma_moved_on(m, after, main_code, main_h);
                },
                _ => {},
            }
        },
        Err(_) => {},
    }
}

/// The return from a call keeps the discipline.
proof fn lemma_returned(m: MachineView, main_code: Seq<Instruction>, main_h: Seq<int>)
    requires
        keeps_discipline(m, main_code, main_h),
        running(m),
        fetched(m) is ReturnValue,
    ensures
        returned(m) matches Ok(after) ==> keeps_discipline(after, main_code, main_h),
{
    if m.sp >= 1 && m.frames.len() < 2 {
        let after = returned(m)->Ok_0;
        assert(disciplined(m.stack[m.sp - 1]));
        assert(after.frames =~= seq![
            FrameView { ip: main_code.len(), ..m.frames[0] },
        ]);
        assert forall|i: int| 0 <= i < after.stack.len() implies disciplined(
            #[trigger] after.stack[i],
        ) by {
            if i != 0 {
                assert(after.stack[i] == m.stack[i]);
            }
        }
        return ;
    }
    match returned(m) {
        Ok(after) => {
            let top = m.frames.len() - 1;
            let below = top - 1;
            let value = peeked(m, 0);
            assert(disciplined(m.stack[m.sp - 1]));
            assert(parked(m, main_h, below));
            let lower = MachineView {
                frames: m.frames.drop_last(),
                sp: (current_frame(m).base_pointer - 1) as nat,
                ..m
            };
            let higher = pushed(lower, value)->Ok_0;
            assert(after == advanced(higher));
            let code = frame_code(m, below);
            let ip = m.frames[below].ip as int;
            if below > 0 {
                assert(disciplined(Value::Closure(m.frames[below].closure)));
                lemma_function_heights(code);
            }
            let h = frame_heights(m, main_h, below);
            assert(flows(code, h, ip));
            assert(after.frames[below] == FrameView { ip: (ip + 1) as nat, ..m.frames[below] });
            assert forall|i: int| 0 <= i < below implies after.frames[i] == m.frames[i] by {}
            assert forall|i: int| 0 <= i < after.frames.len() - 1 implies #[trigger] parked(
                after,
                main_h,
                i,
            ) by {
                assert(parked(m, main_h, i));
            }
            assert forall|i: int| 1 <= i < after.frames.len() implies disciplined(
                Value::Closure((#[trigger] after.frames[i]).closure),
            ) && after.frames[i].ip < frame_code(after, i).len() by {
                assert(disciplined(Value::Closure(m.frames[i].closure)));
                if i == below {
                    assert(code[ip] != code.last());
                }
            }
            assert forall|i: int| 0 <= i < after.stack.len() implies disciplined(
                #[trigger] after.stack[i],
            ) by {
                if i != lower.sp {
                    assert(after.stack[i] == m.stack[i]);
                }
            }
        },
        Err(_) => {},
    }
}

/// A step that pushes a disciplined value keeps the discipline.
proof fn lemma_pushed(
    m: MachineView,
    main_code: Seq<Instruction>,
    main_h: Seq<int>,
    value: Value,
)
    requires
        keeps_discipline(m, main_code, main_h),
        running(m),
        delta(fetched(m)) == 1,
        !(fetched(m) is Jump),
        !(fetched(m) is ReturnValue),
        disciplined(value),
    ensures
        then_advanced(pushed(m, value)) matches Ok(after) ==> keeps_discipline(
            after,
            main_code,
            main_h,
        ),
{
    assert(dropped(m, 0) == m);
    lemma_replaced(m, main_code, main_h, 0, Ok(value));
}

/// A step that pops a value, and puts it into a slot of the stack or of the
/// globals or nowhere, keeps the discipline.
proof fn lemma_popped(
    m: MachineView,
    after: MachineView,
    main_code: Seq<Instruction>,
    main_h: Seq<int>,
)
    requires
        keeps_discipline(m, main_code, main_h),
        running(m),
        delta(fetched(m)) == -1,
        !(fetched(m) is Jump),
        !(fetched(m) is ReturnValue),
        m.sp >= 1,
        after.frames == advanced(m).frames,
        after.sp == m.sp - 1,
        after.stack == m.stack || exists|slot: int|
            0 <= slot < m.stack.len() && after.stack == m.stack.update(slot, peeked(m, 0)),
        after.globals == m.globals || exists|slot: int|
            0 <= slot < m.globals.len() && after.globals == m.globals.update(
                slot,
                peeked(m, 0),
            ),
    ensures
        keeps_discipline(after, main_code, main_h),
{
    assert(disciplined(m.stack[m.sp - 1]));
    assert forall|i: int| 0 <= i < after.stack.len() implies disciplined(
        #[trigger] after.stack[i],
    ) by {
        if after.stack == m.stack {
        } else {
            let slot = choose|slot: int|
                0 <= slot < m.stack.len() && after.stack == m.stack.update(slot, peeked(m, 0));
            if i != slot {
                assert(after.stack[i] == m.stack[i]);
            }
        }
    }
    assert forall|i: int| 0 <= i < after.globals.len() implies disciplined(
        #[trigger] after.globals[i],
    ) by {
        if after.globals == m.globals {
        } else {
            let slot = choose|slot: int|
                0 <= slot < m.globals.len() && after.globals == m.globals.update(
                    slot,
                    peeked(m, 0),
                );
            if i != slot {
                assert(after.globals[i] == m.globals[i]);
            }
        }
    }
    lemma_moved_on(m, after, main_code, main_h);
}

/// Every step of a machine that runs disciplined bytecode keeps the
/// discipline.
#[verifier::rlimit(100)]
#[verifier::spinoff_prover]
pub proof fn lemma_step(
    m: MachineView,
    constants: Seq<Value>,
    main_code: Seq<Instruction>,
    main_h: Seq<int>,
)
    requires
        keeps_discipline(m, main_code, main_h),
        all_disciplined(constants),
        running(m),
    ensures
        step(m, constants) matches Ok(after) ==> keeps_discipline(after, main_code, main_h),
{
    let top = m.frames.len() - 1;
    let frame = current_frame(m);
    match fetched(m) {
        Instruction::Constant(index) => {
            if 0 <= index < constants.len() {
                assert(disciplined(constants[index as int]));
                lemma_pushed(m, main_code, main_h, constants[index as int]);
            }
        },
        Instruction::Add | Instruction::Sub | Instruction::Mul | Instruction::Div => {
            if m.sp >= 2 {
                assert(disciplined(m.stack[m.sp - 2]) && disciplined(m.stack[m.sp - 1]));
                lemma_results(fetched(m), peeked(m, 1), peeked(m, 0));
                lemma_replaced(
                    m,
                    main_code,
                    main_h,
                    2,
                    binary_result(fetched(m), peeked(m, 1), peeked(m, 0)),
                );
            }
        },
        Instruction::Equal | Instruction::NotEqual | Instruction::GreaterThan => {
            if m.sp >= 2 {
                assert(disciplined(m.stack[m.sp - 2]) && disciplined(m.stack[m.sp - 1]));
                lemma_results(fetched(m), peeked(m, 1), peeked(m, 0));
                lemma_replaced(
                    m,
                    main_code,
                    main_h,
                    2,
                    comparison_result(fetched(m), peeked(m, 1), peeked(m, 0)),
                );
            }
        },
        Instruction::True => {
            lemma_pushed(m, main_code, main_h, Value::Boolean(true));
        },
        Instruction::False => {
            lemma_pushed(m, main_code, main_h, Value::Boolean(false));
        },
        Instruction::Null => {
            lemma_pushed(m, main_code, main_h, Value::Null);
        },
        Instruction::Pop => {
            if m.sp >= 1 {
                lemma_popped(m, advanced(dropped(m, 1)), main_code, main_h);
            }
        },
        Instruction::Bang => {
            if m.sp >= 1 {
                lemma_replaced(
                    m,
                    main_code,
                    main_h,
                    1,
                    Ok(Value::Boolean(!crate::object::truthy(peeked(m, 0)))),
                );
            }
        },
        Instruction::Minus => {
            if m.sp >= 1 {
                assert(disciplined(m.stack[m.sp - 1]));
                lemma_results(fetched(m), peeked(m, 0), peeked(m, 0));
                lemma_replaced(m, main_code, main_h, 1, negation_result(peeked(m, 0)));
            }
        },
        Instruction::JumpNotTruthy(target) => {
            if m.sp >= 1 {
                if crate::object::truthy(peeked(m, 0)) {
                    lemma_popped(m, advanced(dropped(m, 1)), main_code, main_h);
                } else {
                    lemma_jumped(
                        m,
                        with_ip(dropped(m, 1), target as nat),
                        main_code,
                        main_h,
                        target as nat,
                        -1,
                    );
                }
            }
        },
        Instruction::Jump(target) => {
            lemma_jumped(m, with_ip(m, target as nat), main_code, main_h, target as nat, 0);
        },
        Instruction::GetGlobal(index) => {
            assert(disciplined(m.globals[index as int]));
            lemma_pushed(m, main_code, main_h, m.globals[index as int]);
        },
        Instruction::SetGlobal(index) => {
            if m.sp >= 1 {
                let after = advanced(
                    MachineView {
                        globals: m.globals.update(index as int, peeked(m, 0)),
                        ..dropped(m, 1)
                    },
                );
                lemma_popped(m, after, main_code, main_h);
            }
        },
        Instruction::GetLocal(index) => {
            if frame.base_pointer + index < STACK_SIZE {
                assert(disciplined(m.stack[frame.base_pointer + index]));
                lemma_pushed(m, main_code, main_h, m.stack[frame.base_pointer + index]);
            }
        },
        Instruction::SetLocal(index) => {
            if m.sp >= 1 && frame.base_pointer + index < STACK_SIZE {
                let after = advanced(
                    MachineView {
                        stack: m.stack.update(frame.base_pointer + index, peeked(m, 0)),
                        ..dropped(m, 1)
                    },
                );
                lemma_popped(m, after, main_code, main_h);
            }
        },
        Instruction::GetBuiltin(number) => {
            match crate::object::builtin::builtin_of_number(number) {
                Some(function) => {
                    lemma_pushed(m, main_code, main_h, Value::Builtin(function));
                },
                None => {},
            }
        },
        Instruction::GetFree(index) => {
            if index < frame.closure.free.len() {
                if top > 0 {
                    assert(disciplined(Value::Closure(m.frames[top].closure)));
                    assert(disciplined(frame.closure.free[index as int]));
                    lemma_pushed(m, main_code, main_h, frame.closure.free[index as int]);
                }
            }
        },
        Instruction::Array(count) => {
            if count <= m.sp {
                lemma_top_values(m, count as nat);
                lemma_replaced(
                    m,
                    main_code,
                    main_h,
                    count as nat,
                    Ok(Value::Array(top_values(m, count as nat))),
                );
            }
        },
        Instruction::Hash(count) => {
            if count <= m.sp && count % 2 == 0 {
                lemma_top_values(m, count as nat);
                lemma_hash_built(top_values(m, count as nat), 0, Seq::empty());
                lemma_replaced(
                    m,
                    main_code,
                    main_h,
                    count as nat,
                    match hash_built(top_values(m, count as nat), 0, Seq::empty()) {
                        Ok(pairs) => Ok(Value::HashMap(pairs)),
                        Err(error) => Err(error),
                    },
                );
            }
        },
        Instruction::Index => {
            if m.sp >= 2 {
                assert(disciplined(m.stack[m.sp - 2]) && disciplined(m.stack[m.sp - 1]));
                lemma_results(fetched(m), peeked(m, 1), peeked(m, 0));
                lemma_replaced(m, main_code, main_h, 2, index_result(peeked(m, 1), peeked(m, 0)));
            }
        },
        Instruction::Call(count) => {
            lemma_called(m, main_code, main_h, count as nat);
        },
        Instruction::ReturnValue => {
            lemma_returned(m, main_code, main_h);
        },
        Instruction::Closure { constant_index, free_variables } => {
            if constant_index < constants.len() && free_variables <= m.sp {
                assert(disciplined(constants[constant_index as int]));
                match constants[constant_index as int] {
                    Value::CompiledFunction(function) => {
                        lemma_top_values(m, free_variables as nat);
                        let closure = Value::Closure(
                            ClosureView { function, free: top_values(m, free_variables as nat) },
                        );
                        lemma_replaced(m, main_code, main_h, free_variables as nat, Ok(closure));
                    },
                    _ => {},
                }
            }
        },
        Instruction::CurrentClosure => {
            if top > 0 {
                assert(disciplined(Value::Closure(m.frames[top].closure)));
                lemma_pushed(m, main_code, main_h, Value::Closure(frame.closure));
            } else {
                assert(!(main_code[m.frames[0].ip as int] is CurrentClosure));
            }
        },
    }
}

/// However long a machine that keeps the discipline runs, it keeps the
/// discipline, also where an error stops it.
pub proof fn lemma_run(
    m: MachineView,
    constants: Seq<Value>,
    fuel: nat,
    main_code: Seq<Instruction>,
    main_h: Seq<int>,
)
    requires
        keeps_discipline(m, main_code, main_h),
        all_disciplined(constants),
    ensures
        keeps_discipline(run_from(m, constants, fuel).0, main_code, main_h),
        run_from(m, constants, fuel).1 is None ==> !running(run_from(m, constants, fuel).0),
    decreases fuel,
{
    if running(m) && fuel > 0 {
        lemma_step(m, constants, main_code, main_h);
        match step(m, constants) {
            Ok(next) => {
                lemma_run(next, constants, (fuel - 1) as nat, main_code, main_h);
            },
            Err(_) => {},
        }
    }
}

/// A run of disciplined bytecode that ends without an error ends with an
/// empty stack, whatever the step limit and whatever disciplined globals
/// earlier runs have left; and the globals it leaves are disciplined again,
/// so that the same holds of the next run.
pub proof fn law_run_empties_stack(
    before: MachineView,
    bytecode: BytecodeView,
    heights: Seq<int>,
    limit: nat,
)
    requires
        bytecode_typed(bytecode, heights),
        before.globals.len() == GLOBALS_SIZE,
        all_disciplined(before.globals),
    ensures
        runs_to(before, bytecode, limit).1 is None ==> runs_to(before, bytecode, limit).0.sp == 0,
        runs_to(before, bytecode, limit).0.globals.len() == GLOBALS_SIZE,
        all_disciplined(runs_to(before, bytecode, limit).0.globals),
{
    lemma_start(before, bytecode, heights);
    lemma_run(
        started(before, bytecode),
        bytecode.constants,
        limit,
        bytecode.instructions,
        heights,
    );
    if runs_to(before, bytecode, limit).1 is None {
        lemma_end(runs_to(before, bytecode, limit).0, bytecode.instructions, heights);
    }
}

/// A new machine is one on which a run of disciplined bytecode ends with
/// an empty stack: its globals are all `null`.
pub proof fn law_new_machine_is_disciplined()
    ensures
        crate::vm::VirtualMachine::new_view().globals.len() == GLOBALS_SIZE,
        all_disciplined(crate::vm::VirtualMachine::new_view().globals),
{
}

} // verus!
