//! The virtual machine: executes bytecode.

pub mod discipline;
pub mod error;
pub mod frame;
pub mod machine;

use std::rc::Rc;
use vstd::prelude::*;
use vstd::string::*;
use crate::code::{Bytecode, Instruction};
use crate::object::builtin::{builtin_output, lines_view, BuiltinFunction};
use crate::object::{
    copy_range, entries_view, hash_get, hash_put, lemma_object_view, values_view, Closure,
    CompiledFunction, HashKey, Object, Value,
};
use crate::vm::error::{Error, ErrorView};
use crate::vm::frame::{Frame, FrameView};
use crate::vm::machine::{
    advanced, binary_result, called, closed, comparison_result, current_frame, empty_stack, fetched,
    hash_built, index_result, integer_operation, negation_result, peeked, pushed, replaced,
    returned, run_from, running, runs_to, started, step, then_advanced, top_values, well_formed,
    with_ip, MachineView, Stepped, FRAME_STACK_SIZE, GLOBALS_SIZE, STACK_SIZE, STEP_LIMIT,
};

verus! {

/// The views of a stack of frames.
pub open spec fn frames_view(frames: Seq<Frame>) -> Seq<FrameView> {
    Seq::new(frames.len(), |i: int| frames[i]@)
}

/// The outcome of a step: the state that the machine is in after it, or the
/// error that the step returned.
pub open spec fn stepped(after: MachineView, r: Result<(), Error>) -> Stepped {
    match r {
        Ok(_) => Ok(after),
        Err(error) => Err(error@),
    }
}

/// The view of the error of a run.
pub open spec fn run_error(r: Result<(), Error>) -> Option<ErrorView> {
    match r {
        Ok(_) => None,
        Err(error) => Some(error@),
    }
}

/// The view of an operation's result.
pub open spec fn value_result(r: Result<Object, Error>) -> Result<Value, ErrorView> {
    match r {
        Ok(value) => Ok(value.view()),
        Err(error) => Err(error@),
    }
}

/// A list of `count` `null`s.
pub fn nulls(count: usize) -> (list: Vec<Object>)
    ensures
        list@.len() == count,
        forall|i: int| 0 <= i < count ==> list@[i] == Object::Null,
{
    let mut list: Vec<Object> = Vec::new();
    while list.len() < count
        invariant
            list@.len() <= count,
            forall|i: int| 0 <= i < list@.len() ==> list@[i] == Object::Null,
        decreases count - list@.len(),
    {
        list.push(Object::Null);
    }
    list
}

/// Arithmetic on two integers wraps around; division by zero is an error.
pub fn execute_binary_integer_operation(operation: Instruction, left: i64, right: i64) -> (r:
    Result<Object, Error>)
    ensures
        value_result(r) == integer_operation(operation, left, right),
{
    match operation {
        Instruction::Add => Ok(Object::Integer(left.wrapping_add(right))),
        Instruction::Sub => Ok(Object::Integer(left.wrapping_sub(right))),
        Instruction::Mul => Ok(Object::Integer(left.wrapping_mul(right))),
        Instruction::Div => {
            if right == 0 {
                Err(Error::DivisionByZero)
            } else {
                match left.checked_div(right) {
                    Some(q) => Ok(Object::Integer(q)),
                    None => Ok(Object::Integer(i64::MIN)),
                }
            }
        },
        _ => Err(Error::InvalidBytecode),
    }
}

/// `Add` joins two strings; no other operation takes strings.
pub fn execute_binary_string_operation(operation: Instruction, left: &str, right: &str) -> (r:
    Result<Object, Error>)
    ensures
        value_result(r) == binary_result(
            operation,
            Value::String(left@),
            Value::String(right@),
        ),
{
    match operation {
        Instruction::Add => {
            let mut joined = String::from_str(left);
            joined.append(right);
            Ok(Object::String(Rc::new(joined)))
        },
        _ => Err(
            Error::UnknownBinaryOperator(
                operation,
                crate::object::DataType::String,
                crate::object::DataType::String,
            ),
        ),
    }
}

/// `Add`, `Sub`, `Mul`, `Div` on two values.
pub fn execute_binary_operation(instruction: Instruction, left: &Object, right: &Object) -> (r:
    Result<Object, Error>)
    ensures
        value_result(r) == binary_result(instruction, left.view(), right.view()),
{
    match (left, right) {
        (Object::Integer(a), Object::Integer(b)) => execute_binary_integer_operation(
            instruction,
            *a,
            *b,
        ),
        (Object::String(a), Object::String(b)) => execute_binary_string_operation(
            instruction,
            a.as_str(),
            b.as_str(),
        ),
        _ => Err(Error::UnknownBinaryOperator(instruction, left.data_type(), right.data_type())),
    }
}

/// `Equal`, `NotEqual`, `GreaterThan` on two integers.
pub fn execute_integer_comparison(operation: Instruction, left: i64, right: i64) -> (r: Result<
    Object,
    Error,
>)
    ensures
        value_result(r) == comparison_result(
            operation,
            Value::Integer(left),
            Value::Integer(right),
        ),
{
    match operation {
        Instruction::Equal => Ok(Object::Boolean(left == right)),
        Instruction::NotEqual => Ok(Object::Boolean(left != right)),
        Instruction::GreaterThan => Ok(Object::Boolean(left > right)),
        _ => Err(Error::InvalidBytecode),
    }
}

/// `Equal`, `NotEqual`, `GreaterThan` on two values.
pub fn execute_comparison(instruction: Instruction, left: &Object, right: &Object) -> (r: Result<
    Object,
    Error,
>)
    ensures
        value_result(r) == comparison_result(instruction, left.view(), right.view()),
{
    match (left, right) {
        (Object::Integer(a), Object::Integer(b)) => execute_integer_comparison(
            instruction,
            *a,
            *b,
        ),
        _ => match instruction {
            Instruction::Equal => Ok(Object::Boolean(left.same(right))),
            Instruction::NotEqual => Ok(Object::Boolean(!left.same(right))),
            _ => Err(
                Error::UnknownBinaryOperator(instruction, left.data_type(), right.data_type()),
            ),
        },
    }
}

/// `Minus` on a value.
pub fn execute_minus_operator(operand: &Object) -> (r: Result<Object, Error>)
    ensures
        value_result(r) == negation_result(operand.view()),
{
    match operand {
        Object::Integer(value) => Ok(Object::Integer(0i64.wrapping_sub(*value))),
        other => Err(Error::UnsupportedNegationType(other.data_type())),
    }
}

/// The item of an array at an index.
pub fn execute_array_index(items: &Vec<Object>, index: &Object) -> (r: Result<Object, Error>)
    ensures
        value_result(r) == index_result(Value::Array(values_view(items@)), index.view()),
{
    match index {
        Object::Integer(position) => {
            if *position < 0 {
                return Ok(Object::Null);
            }
            if *position as u64 >= items.len() as u64 {
                return Ok(Object::Null);
            }
            Ok(items[*position as usize].duplicate())
        },
        other => Err(
            Error::IndexOperatorNotSupported(crate::object::DataType::Array, other.data_type()),
        ),
    }
}

/// The value of a hash under a key.
pub fn execute_hash_index(pairs: &Vec<(HashKey, Object)>, index: &Object) -> (r: Result<
    Object,
    Error,
>)
    ensures
        value_result(r) == index_result(Value::HashMap(entries_view(pairs@)), index.view()),
{
    match HashKey::from_object(index) {
        Ok(key) => Ok(hash_get(pairs, &key)),
        Err(kind) => Err(Error::UnhashableKey(kind)),
    }
}

/// `Index` on a container and an index.
pub fn execute_index_expression(container: &Object, index: &Object) -> (r: Result<Object, Error>)
    ensures
        value_result(r) == index_result(container.view(), index.view()),
{
    proof {
        lemma_object_view(*container);
    }
    match container {
        Object::Array(items) => execute_array_index(items, index),
        Object::HashMap(pairs) => execute_hash_index(pairs, index),
        other => Err(Error::IndexOperatorNotSupported(other.data_type(), index.data_type())),
    }
}

/// The hash of keys and values that alternate in `values`.
pub fn build_hash_map(values: &Vec<Object>) -> (r: Result<Object, Error>)
    ensures
        value_result(r) == (match hash_built(values_view(values@), 0, Seq::empty()) {
            Ok(pairs) => Ok::<Value, ErrorView>(Value::HashMap(pairs)),
            Err(error) => Err(error),
        }),
{
    let mut pairs: Vec<(HashKey, Object)> = Vec::new();
    assert(entries_view(pairs@) =~= Seq::empty());
    let mut i: usize = 0;
    while i < values.len() && i + 1 < values.len()
        invariant
            hash_built(values_view(values@), 0, Seq::empty()) == hash_built(
                values_view(values@),
                i as int,
                entries_view(pairs@),
            ),
        decreases values@.len() - i,
    {
        let key = match HashKey::from_object(&values[i]) {
            Ok(key) => key,
            Err(kind) => {
                return Err(Error::UnhashableKey(kind));
            },
        };
        hash_put(&mut pairs, key, values[i + 1].duplicate());
        i += 2;
    }
    let hash = Object::HashMap(Rc::new(pairs));
    proof {
        lemma_object_view(hash);
    }
    Ok(hash)
}

/// A virtual machine. Its globals, and what its programs printed, stay from
/// one run to the next.
#[derive(Debug)]
pub struct VirtualMachine {
    stack: Vec<Object>,
    // Points to the next free slot; the top of the stack is below it.
    sp: usize,
    globals: Vec<Object>,
    frames: Vec<Frame>,
    output: Vec<String>,
    nothing: Object,
    step_limit: u64,
}

impl VirtualMachine {
    /// The sizes of the machine are as they should be. Every machine that
    /// [`VirtualMachine::new`] made is so, and stays so.
    pub closed spec fn wf(&self) -> bool {
        &&& self.stack@.len() == STACK_SIZE
        &&& self.sp <= STACK_SIZE
        &&& self.globals@.len() == GLOBALS_SIZE
        &&& self.frames@.len() <= FRAME_STACK_SIZE
        &&& self.nothing == Object::Null
    }

    /// How many instructions one run of this machine may execute.
    pub closed spec fn step_limit(&self) -> nat {
        self.step_limit as nat
    }

    pub closed spec fn view(&self) -> MachineView {
        MachineView {
            stack: values_view(self.stack@),
            sp: self.sp as nat,
            globals: values_view(self.globals@),
            frames: frames_view(self.frames@),
            output: lines_view(self.output@),
        }
    }

    /// A machine that has run nothing: every slot holds `null`, no call is
    /// in progress, nothing was printed.
    pub fn new() -> (machine: Self)
        ensures
            machine.wf(),
            machine.step_limit() == STEP_LIMIT,
            well_formed(machine@),
            machine@ == VirtualMachine::new_view(),
    {
        let machine = VirtualMachine {
            stack: nulls(STACK_SIZE),
            sp: 0,
            globals: nulls(GLOBALS_SIZE),
            frames: Vec::new(),
            output: Vec::new(),
            nothing: Object::Null,
            step_limit: STEP_LIMIT,
        };
        assert(machine@.stack =~= empty_stack());
        assert(machine@.globals =~= Seq::new(GLOBALS_SIZE as nat, |i: int| Value::Null));
        assert(machine@.frames =~= Seq::<FrameView>::empty());
        assert(machine@.output =~= Seq::<Seq<char>>::empty());
        machine
    }

    /// A machine like a new one that gives up a run after `limit`
    /// instructions.
    pub fn with_step_limit(limit: u64) -> (machine: Self)
        ensures
            machine.wf(),
            machine.step_limit() == limit,
            machine@ == VirtualMachine::new_view(),
    {
        let mut machine = VirtualMachine::new();
        machine.step_limit = limit;
        machine
    }

    /// The state of a new machine.
    pub open spec fn new_view() -> MachineView {
        MachineView {
            stack: empty_stack(),
            sp: 0,
            globals: Seq::new(GLOBALS_SIZE as nat, |i: int| Value::Null),
            frames: Seq::empty(),
            output: Seq::empty(),
        }
    }

    /// The value on top of the stack, if the stack holds any.
    pub fn stack_top(&self) -> (top: Option<&Object>)
        requires
            self.wf(),
        ensures
            (match top {
                Some(value) => Some(value.view()),
                None => None,
            }) == (if self@.sp == 0 {
                None
            } else {
                Some(peeked(self@, 0))
            }),
    {
        if self.sp == 0 {
            None
        } else {
            Some(&self.stack[self.sp - 1])
        }
    }

    /// The value that was popped last: the one right above the top of the
    /// stack. Above a full stack there is nothing, which is `null`.
    pub fn last_popped(&self) -> (value: &Object)
        requires
            self.wf(),
        ensures
            value.view() == (if self@.sp < STACK_SIZE {
                self@.stack[self@.sp as int]
            } else {
                Value::Null
            }),
    {
        if self.sp < self.stack.len() {
            &self.stack[self.sp]
        } else {
            &self.nothing
        }
    }

    /// Hands over the lines that programs printed since the last call.
    pub fn take_output(&mut self) -> (lines: Vec<String>)
        requires
            old(self).wf(),
        ensures
            final(self).step_limit() == old(self).step_limit(),
            final(self).wf(),
            lines_view(lines@) == old(self)@.output,
            final(self)@ == (MachineView { output: Seq::empty(), ..old(self)@ }),
    {
        let mut lines: Vec<String> = Vec::new();
        std::mem::swap(&mut lines, &mut self.output);
        assert(self@.output =~= Seq::<Seq<char>>::empty());
        lines
    }

    fn set_stack(&mut self, index: usize, value: Object)
        requires
            old(self).wf(),
            index < STACK_SIZE,
        ensures
            final(self).step_limit() == old(self).step_limit(),
            final(self).wf(),
            final(self)@ == (MachineView {
                stack: old(self)@.stack.update(index as int, value.view()),
                ..old(self)@
            }),
    {
        self.stack[index] = value;
        assert(self@.stack =~= old(self)@.stack.update(index as int, value.view()));
    }

    fn set_sp(&mut self, sp: usize)
        requires
            old(self).wf(),
            sp <= STACK_SIZE,
        ensures
            final(self).step_limit() == old(self).step_limit(),
            final(self).wf(),
            final(self)@ == (MachineView { sp: sp as nat, ..old(self)@ }),
    {
        self.sp = sp;
    }

    fn set_ip(&mut self, ip: usize)
        requires
            old(self).wf(),
        ensures
            final(self).step_limit() == old(self).step_limit(),
            final(self).wf(),
            final(self)@ == with_ip(old(self)@, ip as nat),
    {
        if self.frames.len() > 0 {
            let last = self.frames.len() - 1;
            self.frames[last].ip = ip;
            assert(self@.frames =~= old(self)@.frames.update(
                last as int,
                FrameView { ip: ip as nat, ..current_frame(old(self)@) },
            ));
        }
    }

    fn set_global(&mut self, index: u16, value: Object)
        requires
            old(self).wf(),
        ensures
            final(self).step_limit() == old(self).step_limit(),
            final(self).wf(),
            final(self)@ == (MachineView {
                globals: old(self)@.globals.update(index as int, value.view()),
                ..old(self)@
            }),
    {
        self.globals[index as usize] = value;
        assert(self@.globals =~= old(self)@.globals.update(index as int, value.view()));
    }

    fn push_frame(&mut self, frame: Frame)
        requires
            old(self).wf(),
            old(self)@.frames.len() < FRAME_STACK_SIZE,
        ensures
            final(self).step_limit() == old(self).step_limit(),
            final(self).wf(),
            final(self)@ == (MachineView {
                frames: old(self)@.frames.push(frame@),
                ..old(self)@
            }),
    {
        self.frames.push(frame);
        assert(self@.frames =~= old(self)@.frames.push(frame@));
    }

    fn pop_frame(&mut self)
        requires
            old(self).wf(),
            old(self)@.frames.len() > 0,
        ensures
            final(self).step_limit() == old(self).step_limit(),
            final(self).wf(),
            final(self)@ == (MachineView {
                frames: old(self)@.frames.drop_last(),
                ..old(self)@
            }),
    {
        self.frames.pop();
        assert(self@.frames =~= old(self)@.frames.drop_last());
    }

    fn add_output(&mut self, lines: Vec<String>)
        requires
            old(self).wf(),
        ensures
            final(self).step_limit() == old(self).step_limit(),
            final(self).wf(),
            final(self)@ == (MachineView {
                output: old(self)@.output + lines_view(lines@),
                ..old(self)@
            }),
    {
        let ghost added = lines_view(lines@);
        let mut lines = lines;
        self.output.append(&mut lines);
        assert(self@.output =~= old(self)@.output + added);
    }

    /// The value `depth` places below the top of the stack.
    fn peek(&self, depth: usize) -> (value: &Object)
        requires
            self.wf(),
            depth < self@.sp,
        ensures
            value.view() == peeked(self@, depth as nat),
    {
        &self.stack[self.sp - 1 - depth]
    }

    /// Copies of the top `count` values of the stack, the deepest first.
    fn top(&self, count: usize) -> (values: Vec<Object>)
        requires
            self.wf(),
            count <= self@.sp,
        ensures
            values_view(values@) == top_values(self@, count as nat),
    {
        let values = copy_range(&self.stack, self.sp - count, self.sp);
        assert(values_view(values@) =~= top_values(self@, count as nat));
        values
    }

    fn current_base(&self) -> (base: usize)
        requires
            self.wf(),
            self@.frames.len() > 0,
        ensures
            base == current_frame(self@).base_pointer,
    {
        self.frames[self.frames.len() - 1].base_pointer
    }

    /// Whether the call in progress has an instruction left.
    fn is_running(&self) -> (r: bool)
        requires
            self.wf(),
        ensures
            r == running(self@),
    {
        if self.frames.len() == 0 {
            return false;
        }
        let frame = &self.frames[self.frames.len() - 1];
        frame.ip < frame.closure.function.instructions.len()
    }

    fn fetch(&self) -> (instruction: Instruction)
        requires
            self.wf(),
            running(self@),
        ensures
            instruction == fetched(self@),
    {
        let frame = &self.frames[self.frames.len() - 1];
        frame.closure.function.instructions[frame.ip]
    }

    fn advance(&mut self)
        requires
            old(self).wf(),
            running(old(self)@),
        ensures
            final(self).step_limit() == old(self).step_limit(),
            final(self).wf(),
            final(self)@ == advanced(old(self)@),
    {
        let frame = &self.frames[self.frames.len() - 1];
        let length = frame.closure.function.instructions.len();
        let ip = frame.ip;
        assert(ip < length);
        self.set_ip(ip + 1);
    }

    fn push(&mut self, value: Object) -> (r: Result<(), Error>)
        requires
            old(self).wf(),
        ensures
            final(self).step_limit() == old(self).step_limit(),
            final(self).wf(),
            stepped(final(self)@, r) == pushed(old(self)@, value.view()),
            r is Err ==> final(self)@ == old(self)@,
    {
        if self.sp >= STACK_SIZE {
            return Err(Error::StackOverflow);
        }
        let sp = self.sp;
        self.set_stack(sp, value);
        self.set_sp(sp + 1);
        Ok(())
    }

    /// Pushes a value and moves to the next instruction.
    fn push_next(&mut self, value: Object) -> (r: Result<(), Error>)
        requires
            old(self).wf(),
            running(old(self)@),
        ensures
            final(self).step_limit() == old(self).step_limit(),
            final(self).wf(),
            stepped(final(self)@, r) == then_advanced(pushed(old(self)@, value.view())),
            r is Err ==> final(self)@ == old(self)@,
    {
        match self.push(value) {
            Ok(_) => {
                self.advance();
                Ok(())
            },
            Err(error) => Err(error),
        }
    }

    /// Puts the outcome of an operation in the place of the top `count`
    /// values and moves to the next instruction.
    fn replace(&mut self, count: usize, outcome: Result<Object, Error>) -> (r: Result<(), Error>)
        requires
            old(self).wf(),
            running(old(self)@),
            count <= old(self)@.sp,
        ensures
            final(self).step_limit() == old(self).step_limit(),
            final(self).wf(),
            stepped(final(self)@, r) == replaced(old(self)@, count as nat, value_result(outcome)),
            r is Err ==> final(self)@ == old(self)@,
    {
        let value = match outcome {
            Ok(value) => value,
            Err(error) => {
                return Err(error);
            },
        };
        if count == 0 && self.sp >= STACK_SIZE {
            return Err(Error::StackOverflow);
        }
        let sp = self.sp - count;
        self.set_sp(sp);
        self.push_next(value)
    }

    fn execute_call(&mut self, num_args: usize) -> (r: Result<(), Error>)
        requires
            old(self).wf(),
            running(old(self)@),
        ensures
            final(self).step_limit() == old(self).step_limit(),
            final(self).wf(),
            stepped(final(self)@, r) == called(old(self)@, num_args as nat),
            r is Err ==> final(self)@ == old(self)@,
    {
        if num_args >= self.sp {
            return Err(Error::InvalidBytecode);
        }
        let callee = self.peek(num_args).duplicate();
        proof {
            lemma_object_view(callee);
        }
        match callee {
            Object::Closure(closure) => {
                if num_args != closure.function.num_arguments {
                    return Err(
                        Error::WrongNumberOfArguments {
                            want: closure.function.num_arguments,
                            got: num_args,
                        },
                    );
                }
                let base_pointer = self.sp - num_args;
                if self.frames.len() >= FRAME_STACK_SIZE || closure.function.num_locals > STACK_SIZE
                    - base_pointer {
                    return Err(Error::StackOverflow);
                }
                let num_locals = closure.function.num_locals;
                self.push_frame(Frame::new(closure, base_pointer));
                self.set_sp(base_pointer + num_locals);
                Ok(())
            },
            Object::Builtin(function) => {
                let args = self.top(num_args);
                let mut lines: Vec<String> = Vec::new();
                assert(lines_view(lines@) =~= Seq::<Seq<char>>::empty());
                let result = match function.execute(&args, &mut lines) {
                    Ok(result) => result,
                    Err(source) => {
                        return Err(Error::BuiltinFunction { source });
                    },
                };
                assert(lines_view(lines@) =~= builtin_output(function, values_view(args@)));
                let sp = self.sp - num_args - 1;
                self.add_output(lines);
                self.set_sp(sp);
                self.push_next(result)
            },
            other => Err(Error::NotCallable(other.data_type())),
        }
    }

    fn execute_return(&mut self) -> (r: Result<(), Error>)
        requires
            old(self).wf(),
            running(old(self)@),
        ensures
            final(self).step_limit() == old(self).step_limit(),
            final(self).wf(),
            stepped(final(self)@, r) == returned(old(self)@),
            r is Err ==> final(self)@ == old(self)@,
    {
        if self.sp < 1 {
            return Err(Error::InvalidBytecode);
        }
        if self.frames.len() < 2 {
            let value = self.peek(0).duplicate();
            let end = self.frames[self.frames.len() - 1].closure.function.instructions.len();
            self.set_stack(0, value);
            self.set_sp(0);
            self.set_ip(end);
            return Ok(());
        }
        if self.current_base() < 1 {
            return Err(Error::InvalidBytecode);
        }
        let caller = &self.frames[self.frames.len() - 2];
        if caller.ip >= caller.closure.function.instructions.len() {
            return Err(Error::InvalidBytecode);
        }
        assert(frames_view(self.frames@).drop_last().last() == caller@);
        let base_pointer = self.current_base();
        if base_pointer > STACK_SIZE {
            return Err(Error::StackOverflow);
        }
        let value = self.peek(0).duplicate();
        self.pop_frame();
        self.set_sp(base_pointer - 1);
        self.push_next(value)
    }

    fn execute_closure(&mut self, constants: &Vec<Object>, index: usize, count: usize) -> (r:
        Result<(), Error>)
        requires
            old(self).wf(),
            running(old(self)@),
        ensures
            final(self).step_limit() == old(self).step_limit(),
            final(self).wf(),
            stepped(final(self)@, r) == closed(
                old(self)@,
                values_view(constants@),
                index as nat,
                count as nat,
            ),
            r is Err ==> final(self)@ == old(self)@,
    {
        if index >= constants.len() || count > self.sp {
            return Err(Error::InvalidBytecode);
        }
        match &constants[index] {
            Object::CompiledFunction(function) => {
                let closure = Object::Closure(
                    Closure { function: function.duplicate(), free: Rc::new(self.top(count)) },
                );
                proof {
                    lemma_object_view(closure);
                }
                self.replace(count, Ok(closure))
            },
            other => Err(Error::NotAFunction(other.data_type())),
        }
    }

    /// Executes the instruction at hand.
    fn step(&mut self, constants: &Vec<Object>) -> (r: Result<(), Error>)
        requires
            old(self).wf(),
            running(old(self)@),
        ensures
            final(self).step_limit() == old(self).step_limit(),
            final(self).wf(),
            stepped(final(self)@, r) == step(old(self)@, values_view(constants@)),
            r is Err ==> final(self)@ == old(self)@,
    {
        let instruction = self.fetch();
        match instruction {
            Instruction::Constant(index) => {
                if index < 0 || index as usize >= constants.len() {
                    return Err(Error::InvalidBytecode);
                }
                self.push_next(constants[index as usize].duplicate())
            },
            Instruction::Add | Instruction::Sub | Instruction::Mul | Instruction::Div => {
                if self.sp < 2 {
                    return Err(Error::InvalidBytecode);
                }
                let outcome = execute_binary_operation(instruction, self.peek(1), self.peek(0));
                self.replace(2, outcome)
            },
            Instruction::Equal | Instruction::NotEqual | Instruction::GreaterThan => {
                if self.sp < 2 {
                    return Err(Error::InvalidBytecode);
                }
                let outcome = execute_comparison(instruction, self.peek(1), self.peek(0));
                self.replace(2, outcome)
            },
            Instruction::True => self.push_next(Object::Boolean(true)),
            Instruction::False => self.push_next(Object::Boolean(false)),
            Instruction::Null => self.push_next(Object::Null),
            Instruction::Pop => {
                if self.sp < 1 {
                    return Err(Error::InvalidBytecode);
                }
                let sp = self.sp - 1;
                self.set_sp(sp);
                self.advance();
                Ok(())
            },
            Instruction::Bang => {
                if self.sp < 1 {
                    return Err(Error::InvalidBytecode);
                }
                let outcome = Object::Boolean(!self.peek(0).is_truthy());
                self.replace(1, Ok(outcome))
            },
            Instruction::Minus => {
                if self.sp < 1 {
                    return Err(Error::InvalidBytecode);
                }
                let outcome = execute_minus_operator(self.peek(0));
                self.replace(1, outcome)
            },
            Instruction::JumpNotTruthy(target) => {
                if self.sp < 1 {
                    return Err(Error::InvalidBytecode);
                }
                let holds = self.peek(0).is_truthy();
                let sp = self.sp - 1;
                self.set_sp(sp);
                if holds {
                    self.advance();
                } else {
                    self.set_ip(target as usize);
                }
                Ok(())
            },
            Instruction::Jump(target) => {
                self.set_ip(target as usize);
                Ok(())
            },
            Instruction::GetGlobal(index) => {
                let value = self.globals[index as usize].duplicate();
                self.push_next(value)
            },
            Instruction::SetGlobal(index) => {
                if self.sp < 1 {
                    return Err(Error::InvalidBytecode);
                }
                let value = self.peek(0).duplicate();
                let sp = self.sp - 1;
                self.set_sp(sp);
                self.set_global(index, value);
                self.advance();
                Ok(())
            },
            Instruction::GetLocal(index) => {
                let base = self.current_base();
                if base >= STACK_SIZE || index as usize >= STACK_SIZE - base {
                    return Err(Error::InvalidBytecode);
                }
                let value = self.stack[base + index as usize].duplicate();
                self.push_next(value)
            },
            Instruction::SetLocal(index) => {
                let base = self.current_base();
                if self.sp < 1 || base >= STACK_SIZE || index as usize >= STACK_SIZE - base {
                    return Err(Error::InvalidBytecode);
                }
                let value = self.peek(0).duplicate();
                let sp = self.sp - 1;
                self.set_sp(sp);
                self.set_stack(base + index as usize, value);
                self.advance();
                Ok(())
            },
            Instruction::GetBuiltin(number) => match BuiltinFunction::from_id(number) {
                Some(function) => self.push_next(Object::Builtin(function)),
                None => Err(Error::InvalidBytecode),
            },
            Instruction::GetFree(index) => {
                let frame = &self.frames[self.frames.len() - 1];
                if index as usize >= frame.closure.free.len() {
                    return Err(Error::InvalidBytecode);
                }
                let value = frame.closure.free[index as usize].duplicate();
                self.push_next(value)
            },
            Instruction::Array(count) => {
                if count as usize > self.sp {
                    return Err(Error::InvalidBytecode);
                }
                let array = Object::Array(Rc::new(self.top(count as usize)));
                proof {
                    lemma_object_view(array);
                }
                self.replace(count as usize, Ok(array))
            },
            Instruction::Hash(count) => {
                if count as usize > self.sp || count % 2 != 0 {
                    return Err(Error::InvalidBytecode);
                }
                let values = self.top(count as usize);
                let outcome = build_hash_map(&values);
                self.replace(count as usize, outcome)
            },
            Instruction::Index => {
                if self.sp < 2 {
                    return Err(Error::InvalidBytecode);
                }
                let outcome = execute_index_expression(self.peek(1), self.peek(0));
                self.replace(2, outcome)
            },
            Instruction::Call(count) => self.execute_call(count as usize),
            Instruction::ReturnValue => self.execute_return(),
            Instruction::Closure { constant_index, free_variables } => self.execute_closure(
                constants,
                constant_index as usize,
                free_variables as usize,
            ),
            Instruction::CurrentClosure => {
                let closure = Object::Closure(
                    self.frames[self.frames.len() - 1].closure.duplicate(),
                );
                proof {
                    lemma_object_view(closure);
                }
                self.push_next(closure)
            },
        }
    }

    /// Runs a program. The stack starts empty; the globals and the output
    /// of earlier runs stay. The run ends when the call in progress has no
    /// instruction left, at the first error, or at the limit of steps.
    pub fn run(&mut self, bytecode: &Bytecode) -> (r: Result<(), Error>)
        requires
            old(self).wf(),
        ensures
            final(self).wf(),
            final(self).step_limit() == old(self).step_limit(),
            (final(self)@, run_error(r)) == runs_to(
                old(self)@,
                bytecode@,
                old(self).step_limit(),
            ),
    {
        self.stack = nulls(STACK_SIZE);
        self.sp = 0;
        let main = Closure {
            function: CompiledFunction {
                instructions: crate::object::share(&bytecode.instructions),
                num_locals: 0,
                num_arguments: 0,
            },
            free: Rc::new(Vec::new()),
        };
        assert(main@.free =~= Seq::<Value>::empty());
        let mut frames: Vec<Frame> = Vec::new();
        frames.push(Frame::new(main, 0));
        self.frames = frames;
        assert(self@.stack =~= empty_stack());
        assert(self@.frames =~= started(old(self)@, bytecode@).frames);
        let mut fuel: u64 = self.step_limit;
        loop
            invariant
                self.wf(),
                self.step_limit() == old(self).step_limit(),
                runs_to(old(self)@, bytecode@, old(self).step_limit()) == run_from(
                    self@,
                    values_view(bytecode.constants@),
                    fuel as nat,
                ),
            decreases fuel,
        {
            if !self.is_running() {
                return Ok(());
            }
            if fuel == 0 {
                return Err(Error::StepLimitExceeded);
            }
            match self.step(&bytecode.constants) {
                Ok(_) => {},
                Err(error) => {
                    return Err(error);
                },
            }
            fuel -= 1;
        }
    }
}

} // verus!
