//! The built-in functions.

use std::rc::Rc;
use vstd::prelude::*;
use vstd::string::*;
use vstd::utf8::encode_utf8;
use crate::object::{
    copy_objects, inspect_text, lemma_object_view, kind_name, type_of, values_view, Object, Value,
};
use crate::text::str_eq;

verus! {

/// Why a built-in function failed.
#[derive(Debug, PartialEq, Clone)]
pub enum ExecutionError {
    /// An argument has a kind that the function does not take; the text
    /// names the kind.
    TypeMismatch(String),
    WrongNumberOfArguments { expected: usize, got: usize },
}

/// The mathematical value of an [`ExecutionError`].
pub enum ExecutionErrorView {
    TypeMismatch(Seq<char>),
    WrongNumberOfArguments { expected: nat, got: nat },
}

impl View for ExecutionError {
    type V = ExecutionErrorView;

    open spec fn view(&self) -> ExecutionErrorView {
        match self {
            ExecutionError::TypeMismatch(kind) => ExecutionErrorView::TypeMismatch(kind@),
            ExecutionError::WrongNumberOfArguments { expected, got } => {
                ExecutionErrorView::WrongNumberOfArguments {
                    expected: *expected as nat,
                    got: *got as nat,
                }
            },
        }
    }
}

/// A built-in function.
#[derive(Debug, PartialEq, Eq, Clone, Copy, Structural)]
pub enum BuiltinFunction {
    Len,
    First,
    Last,
    Rest,
    Push,
    Puts,
}

/// The name under which programs call a built-in function.
pub open spec fn builtin_ident(function: BuiltinFunction) -> Seq<char> {
    match function {
        BuiltinFunction::Len => "len"@,
        BuiltinFunction::First => "first"@,
        BuiltinFunction::Last => "last"@,
        BuiltinFunction::Rest => "rest"@,
        BuiltinFunction::Push => "push"@,
        BuiltinFunction::Puts => "puts"@,
    }
}

/// The name of a built-in function in renderings of values.
pub open spec fn builtin_name(function: BuiltinFunction) -> Seq<char> {
    match function {
        BuiltinFunction::Len => "Len"@,
        BuiltinFunction::First => "First"@,
        BuiltinFunction::Last => "Last"@,
        BuiltinFunction::Rest => "Rest"@,
        BuiltinFunction::Push => "Push"@,
        BuiltinFunction::Puts => "Puts"@,
    }
}

/// The built-in function that a name denotes.
pub open spec fn builtin_of_ident(ident: Seq<char>) -> Option<BuiltinFunction> {
    if ident == "len"@ {
        Some(BuiltinFunction::Len)
    } else if ident == "first"@ {
        Some(BuiltinFunction::First)
    } else if ident == "last"@ {
        Some(BuiltinFunction::Last)
    } else if ident == "rest"@ {
        Some(BuiltinFunction::Rest)
    } else if ident == "push"@ {
        Some(BuiltinFunction::Push)
    } else if ident == "puts"@ {
        Some(BuiltinFunction::Puts)
    } else {
        None
    }
}

/// The number of a built-in function in bytecode.
pub open spec fn builtin_number(function: BuiltinFunction) -> u8 {
    match function {
        BuiltinFunction::Len => 0,
        BuiltinFunction::First => 1,
        BuiltinFunction::Last => 2,
        BuiltinFunction::Rest => 3,
        BuiltinFunction::Push => 4,
        BuiltinFunction::Puts => 5,
    }
}

/// The built-in function with a number.
pub open spec fn builtin_of_number(number: u8) -> Option<BuiltinFunction> {
    if number == 0 {
        Some(BuiltinFunction::Len)
    } else if number == 1 {
        Some(BuiltinFunction::First)
    } else if number == 2 {
        Some(BuiltinFunction::Last)
    } else if number == 3 {
        Some(BuiltinFunction::Rest)
    } else if number == 4 {
        Some(BuiltinFunction::Push)
    } else if number == 5 {
        Some(BuiltinFunction::Puts)
    } else {
        None
    }
}

/// A count as an integer of the language; counts beyond the greatest integer
/// are given as the greatest integer.
pub open spec fn count_value(count: nat) -> i64 {
    if count <= i64::MAX {
        count as i64
    } else {
        i64::MAX
    }
}

/// The error for a call with `got` arguments of a function that takes
/// `expected`.
pub open spec fn arity_error(expected: nat, got: nat) -> ExecutionErrorView {
    ExecutionErrorView::WrongNumberOfArguments { expected, got }
}

/// The error for an argument of a kind that the function does not take.
pub open spec fn kind_error(value: Value) -> ExecutionErrorView {
    ExecutionErrorView::TypeMismatch(kind_name(type_of(value)))
}

/// `len`: the length of a string in bytes, or the number of items of an
/// array.
pub open spec fn len_result(args: Seq<Value>) -> Result<Value, ExecutionErrorView> {
    if args.len() != 1 {
        Err(arity_error(1, args.len()))
    } else {
        match args[0] {
            Value::String(text) => Ok(Value::Integer(count_value(encode_utf8(text).len()))),
            Value::Array(items) => Ok(Value::Integer(count_value(items.len()))),
            other => Err(kind_error(other)),
        }
    }
}

/// `first`: the first item of an array, or `null` for an empty array.
pub open spec fn first_result(args: Seq<Value>) -> Result<Value, ExecutionErrorView> {
    if args.len() != 1 {
        Err(arity_error(1, args.len()))
    } else {
        match args[0] {
            Value::Array(items) => if items.len() == 0 {
                Ok(Value::Null)
            } else {
                Ok(items[0])
            },
            other => Err(kind_error(other)),
        }
    }
}

/// `last`: the last item of an array, or `null` for an empty array.
pub open spec fn last_result(args: Seq<Value>) -> Result<Value, ExecutionErrorView> {
    if args.len() != 1 {
        Err(arity_error(1, args.len()))
    } else {
        match args[0] {
            Value::Array(items) => if items.len() == 0 {
                Ok(Value::Null)
            } else {
                Ok(items[items.len() - 1])
            },
            other => Err(kind_error(other)),
        }
    }
}

/// `rest`: a new array of all items but the first, or `null` for an empty
/// array.
pub open spec fn rest_result(args: Seq<Value>) -> Result<Value, ExecutionErrorView> {
    if args.len() != 1 {
        Err(arity_error(1, args.len()))
    } else {
        match args[0] {
            Value::Array(items) => if items.len() == 0 {
                Ok(Value::Null)
            } else {
                Ok(Value::Array(items.subrange(1, items.len() as int)))
            },
            other => Err(kind_error(other)),
        }
    }
}

/// `push`: a new array of the items of the first argument and then the
/// second argument.
pub open spec fn push_result(args: Seq<Value>) -> Result<Value, ExecutionErrorView> {
    if args.len() != 2 {
        Err(arity_error(2, args.len()))
    } else {
        match args[0] {
            Value::Array(items) => Ok(Value::Array(items.push(args[1]))),
            other => Err(kind_error(other)),
        }
    }
}

/// What a built-in function returns for its arguments.
pub open spec fn builtin_result(function: BuiltinFunction, args: Seq<Value>) -> Result<
    Value,
    ExecutionErrorView,
> {
    match function {
        BuiltinFunction::Len => len_result(args),
        BuiltinFunction::First => first_result(args),
        BuiltinFunction::Last => last_result(args),
        BuiltinFunction::Rest => rest_result(args),
        BuiltinFunction::Push => push_result(args),
        BuiltinFunction::Puts => Ok(Value::Null),
    }
}

/// The lines that a built-in function prints for its arguments: `puts`
/// prints the rendering of each argument, the others print nothing.
pub open spec fn builtin_output(function: BuiltinFunction, args: Seq<Value>) -> Seq<Seq<char>> {
    match function {
        BuiltinFunction::Puts => Seq::new(args.len(), |i: int| inspect_text(args[i])),
        _ => Seq::empty(),
    }
}

/// The texts of a list of lines.
pub open spec fn lines_view(lines: Seq<String>) -> Seq<Seq<char>> {
    Seq::new(lines.len(), |i: int| lines[i]@)
}

/// The view of what a built-in function returned.
pub open spec fn execution_result(r: Result<Object, ExecutionError>) -> Result<
    Value,
    ExecutionErrorView,
> {
    match r {
        Ok(value) => Ok(value.view()),
        Err(error) => Err(error@),
    }
}

fn count_object(count: usize) -> (value: Object)
    ensures
        value.view() == Value::Integer(count_value(count as nat)),
{
    if count as u64 > 0x7fff_ffff_ffff_ffff {
        Object::Integer(0x7fff_ffff_ffff_ffff)
    } else {
        Object::Integer(count as i64)
    }
}

fn wrong_kind(object: &Object) -> (error: ExecutionError)
    ensures
        error@ == kind_error(object.view()),
{
    ExecutionError::TypeMismatch(String::from_str(object.data_type().name()))
}

impl BuiltinFunction {
    /// The built-in function that `ident` names.
    pub fn from_ident(ident: &str) -> (function: Option<Self>)
        ensures
            function == builtin_of_ident(ident@),
    {
        if str_eq(ident, "len") {
            Some(BuiltinFunction::Len)
        } else if str_eq(ident, "first") {
            Some(BuiltinFunction::First)
        } else if str_eq(ident, "last") {
            Some(BuiltinFunction::Last)
        } else if str_eq(ident, "rest") {
            Some(BuiltinFunction::Rest)
        } else if str_eq(ident, "push") {
            Some(BuiltinFunction::Push)
        } else if str_eq(ident, "puts") {
            Some(BuiltinFunction::Puts)
        } else {
            None
        }
    }

    /// The name under which programs call the function.
    pub fn ident(&self) -> (ident: &'static str)
        ensures
            ident@ == builtin_ident(*self),
    {
        match self {
            BuiltinFunction::Len => "len",
            BuiltinFunction::First => "first",
            BuiltinFunction::Last => "last",
            BuiltinFunction::Rest => "rest",
            BuiltinFunction::Push => "push",
            BuiltinFunction::Puts => "puts",
        }
    }

    /// The name of the function in renderings of values.
    pub fn name(&self) -> (name: &'static str)
        ensures
            name@ == builtin_name(*self),
    {
        match self {
            BuiltinFunction::Len => "Len",
            BuiltinFunction::First => "First",
            BuiltinFunction::Last => "Last",
            BuiltinFunction::Rest => "Rest",
            BuiltinFunction::Push => "Push",
            BuiltinFunction::Puts => "Puts",
        }
    }

    /// The number of the function in bytecode.
    pub fn id(&self) -> (number: u8)
        ensures
            number == builtin_number(*self),
            builtin_of_number(number) == Some(*self),
    {
        match self {
            BuiltinFunction::Len => 0,
            BuiltinFunction::First => 1,
            BuiltinFunction::Last => 2,
            BuiltinFunction::Rest => 3,
            BuiltinFunction::Push => 4,
            BuiltinFunction::Puts => 5,
        }
    }

    /// The function with a number in bytecode.
    pub fn from_id(number: u8) -> (function: Option<Self>)
        ensures
            function == builtin_of_number(number),
    {
        if number == 0 {
            Some(BuiltinFunction::Len)
        } else if number == 1 {
            Some(BuiltinFunction::First)
        } else if number == 2 {
            Some(BuiltinFunction::Last)
        } else if number == 3 {
            Some(BuiltinFunction::Rest)
        } else if number == 4 {
            Some(BuiltinFunction::Push)
        } else if number == 5 {
            Some(BuiltinFunction::Puts)
        } else {
            None
        }
    }

    /// Applies the function to `args`. What the function prints is appended
    /// to `output`, one line per item; the arguments are left as they are.
    pub fn execute(&self, args: &Vec<Object>, output: &mut Vec<String>) -> (r: Result<
        Object,
        ExecutionError,
    >)
        ensures
            execution_result(r) == builtin_result(*self, values_view(args@)),
            lines_view(final(output)@) == lines_view(old(output)@) + builtin_output(
                *self,
                values_view(args@),
            ),
    {
        proof {
            assert(lines_view(output@) + Seq::<Seq<char>>::empty() =~= lines_view(output@));
        }
        match self {
            BuiltinFunction::Len => execute_len(args),
            BuiltinFunction::First => execute_first(args),
            BuiltinFunction::Last => execute_last(args),
            BuiltinFunction::Rest => execute_rest(args),
            BuiltinFunction::Push => execute_push(args),
            BuiltinFunction::Puts => execute_puts(args, output),
        }
    }
}

/// `len`: the length of a string in bytes, or the number of items of an
/// array.
pub fn execute_len(args: &Vec<Object>) -> (r: Result<Object, ExecutionError>)
    ensures
        execution_result(r) == len_result(values_view(args@)),
{
    if args.len() != 1 {
        return Err(ExecutionError::WrongNumberOfArguments { expected: 1, got: args.len() });
    }
    proof {
        lemma_object_view(args@[0]);
    }
    match &args[0] {
        Object::String(text) => {
            let length = text.as_str().as_bytes().len();
            Ok(count_object(length))
        },
        Object::Array(items) => Ok(count_object(items.len())),
        other => Err(wrong_kind(other)),
    }
}

/// `first`: the first item of an array, or `null` for an empty array.
pub fn execute_first(args: &Vec<Object>) -> (r: Result<Object, ExecutionError>)
    ensures
        execution_result(r) == first_result(values_view(args@)),
{
    if args.len() != 1 {
        return Err(ExecutionError::WrongNumberOfArguments { expected: 1, got: args.len() });
    }
    proof {
        lemma_object_view(args@[0]);
    }
    match &args[0] {
        Object::Array(items) => {
            if items.len() == 0 {
                Ok(Object::Null)
            } else {
                Ok(items[0].duplicate())
            }
        },
        other => Err(wrong_kind(other)),
    }
}

/// `last`: the last item of an array, or `null` for an empty array.
pub fn execute_last(args: &Vec<Object>) -> (r: Result<Object, ExecutionError>)
    ensures
        execution_result(r) == last_result(values_view(args@)),
{
    if args.len() != 1 {
        return Err(ExecutionError::WrongNumberOfArguments { expected: 1, got: args.len() });
    }
    proof {
        lemma_object_view(args@[0]);
    }
    match &args[0] {
        Object::Array(items) => {
            if items.len() == 0 {
                Ok(Object::Null)
            } else {
                Ok(items[items.len() - 1].duplicate())
            }
        },
        other => Err(wrong_kind(other)),
    }
}

/// `rest`: a new array of all items but the first, or `null` for an empty
/// array.
pub fn execute_rest(args: &Vec<Object>) -> (r: Result<Object, ExecutionError>)
    ensures
        execution_result(r) == rest_result(values_view(args@)),
{
    if args.len() != 1 {
        return Err(ExecutionError::WrongNumberOfArguments { expected: 1, got: args.len() });
    }
    proof {
        lemma_object_view(args@[0]);
    }
    match &args[0] {
        Object::Array(items) => {
            if items.len() == 0 {
                Ok(Object::Null)
            } else {
                let rest = Object::Array(Rc::new(copy_objects(items, 1)));
                proof {
                    lemma_object_view(rest);
                    assert(values_view(rest->Array_0@) =~= values_view(items@).subrange(
                        1,
                        items@.len() as int,
                    ));
                }
                Ok(rest)
            }
        },
        other => Err(wrong_kind(other)),
    }
}

/// `push`: a new array of the items of the first argument and then the
/// second argument.
pub fn execute_push(args: &Vec<Object>) -> (r: Result<Object, ExecutionError>)
    ensures
        execution_result(r) == push_result(values_view(args@)),
{
    if args.len() != 2 {
        return Err(ExecutionError::WrongNumberOfArguments { expected: 2, got: args.len() });
    }
    proof {
        lemma_object_view(args@[0]);
    }
    match &args[0] {
        Object::Array(items) => {
            let mut longer = copy_objects(items, 0);
            longer.push(args[1].duplicate());
            let pushed = Object::Array(Rc::new(longer));
            proof {
                lemma_object_view(pushed);
                assert(values_view(pushed->Array_0@) =~= values_view(items@).push(
                    args@[1].view(),
                ));
            }
            Ok(pushed)
        },
        other => Err(wrong_kind(other)),
    }
}

/// `puts`: appends the rendering of each argument to `output` and returns
/// `null`.
pub fn execute_puts(args: &Vec<Object>, output: &mut Vec<String>) -> (r: Result<
    Object,
    ExecutionError,
>)
    ensures
        execution_result(r) == Ok::<Value, ExecutionErrorView>(Value::Null),
        lines_view(final(output)@) == lines_view(old(output)@) + builtin_output(
            BuiltinFunction::Puts,
            values_view(args@),
        ),
{
    let mut i: usize = 0;
    assert(lines_view(output@) =~= lines_view(output@) + Seq::new(
        0nat,
        |j: int| inspect_text(values_view(args@)[j]),
    ));
    while i < args.len()
        invariant
            i <= args@.len(),
            lines_view(output@) == lines_view(old(output)@) + Seq::new(
                i as nat,
                |j: int| inspect_text(values_view(args@)[j]),
            ),
        decreases args@.len() - i,
    {
        let line = args[i].inspect();
        let ghost before = lines_view(output@);
        output.push(line);
        assert(lines_view(output@) =~= before.push(line@));
        assert(lines_view(output@) =~= lines_view(old(output)@) + Seq::new(
            (i + 1) as nat,
            |j: int| inspect_text(values_view(args@)[j]),
        ));
        i += 1;
    }
    Ok(Object::Null)
}

} // verus!
