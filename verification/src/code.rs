//! The bytecode: instructions with their operands, and compiled programs.

use std::rc::Rc;
use vstd::prelude::*;
use crate::object::{values_view, Object, Value};

verus! {

/// One instruction of the virtual machine. Operands are part of the
/// instruction.
#[derive(Debug, Clone, Copy, PartialEq, Eq, Structural)]
pub enum Instruction {
    /// Push the constant with this index.
    Constant(i16),
    /// Pop two integers and push their sum, or two strings and push their
    /// concatenation.
    Add,
    Sub,
    Mul,
    Div,
    /// Discard the top of the stack.
    Pop,
    Null,
    True,
    False,
    Equal,
    NotEqual,
    GreaterThan,
    Minus,
    Bang,
    /// Pop a value; if it is not truthy, continue at this address.
    JumpNotTruthy(u16),
    /// Continue at this address.
    Jump(u16),
    GetGlobal(u16),
    SetGlobal(u16),
    GetLocal(u8),
    SetLocal(u8),
    /// Push the built-in function with this number.
    GetBuiltin(u8),
    /// Push the captured value with this index of the running closure.
    GetFree(u8),
    /// Pop this many values and push them as an array.
    Array(u16),
    /// Pop this many values, alternately keys and values, and push them as a
    /// hash.
    Hash(u16),
    Index,
    /// Call the function below this many arguments.
    Call(u8),
    ReturnValue,
    /// Pop `free_variables` values and push a closure of them and the
    /// compiled function with index `constant_index` among the constants.
    Closure { constant_index: u16, free_variables: u8 },
    /// Push the running closure.
    CurrentClosure,
}

/// A compiled program: the instructions of its top level and the constants
/// they refer to.
#[derive(Debug, PartialEq)]
pub struct Bytecode {
    pub instructions: Rc<Vec<Instruction>>,
    pub constants: Vec<Object>,
}

/// The mathematical value of a [`Bytecode`].
pub struct BytecodeView {
    pub instructions: Seq<Instruction>,
    pub constants: Seq<Value>,
}

impl View for Bytecode {
    type V = BytecodeView;

    open spec fn view(&self) -> BytecodeView {
        BytecodeView { instructions: self.instructions@, constants: values_view(self.constants@) }
    }
}

} // verus!
