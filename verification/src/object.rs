//! Runtime values.

pub mod builtin;
pub mod hashing;

use std::rc::Rc;
use vstd::prelude::*;
use vstd::string::*;
use crate::ast::{
    names_debug_str, names_same, names_text, names_view, statements_text, BlockStatement,
    StatementView,
};
use crate::code::Instruction;
use crate::environment::Environment;
use crate::object::builtin::{builtin_name, BuiltinFunction};
use crate::text::{integer_text, integer_to_text, str_eq};

verus! {

/// Makes another pointer to the same allocation, by `Rc::clone`. The
/// standard library documents that no value is copied: both pointers lead to
/// the one value.
#[verifier::external_body]
pub(crate) fn share<T>(pointer: &Rc<T>) -> (other: Rc<T>)
    ensures
        other == *pointer,
{
    Rc::clone(pointer)
}

/// A runtime value of either backend.
#[derive(Debug, PartialEq, Clone)]
pub enum Object {
    Integer(i64),
    String(Rc<String>),
    Boolean(bool),
    /// A value on its way out of the enclosing function.
    Return(Rc<Object>),
    /// A function of the evaluator.
    Function(FunctionObject),
    Builtin(BuiltinFunction),
    Array(Rc<Vec<Object>>),
    /// Keys with their values, in the order in which the keys first came.
    HashMap(Rc<Vec<(HashKey, Object)>>),
    Null,
    /// A function of the compiler, before any value is captured.
    CompiledFunction(CompiledFunction),
    /// A function of the virtual machine.
    Closure(Closure),
}

/// The kind of a value.
#[derive(Debug, PartialEq, Eq, Clone, Copy, Structural)]
pub enum DataType {
    Integer,
    String,
    Boolean,
    Return,
    Function,
    Builtin,
    Array,
    HashMap,
    Null,
    CompiledFunction,
    Closure,
}

/// Instructions of a function body with the sizes of its frame.
#[derive(Debug, PartialEq, Clone)]
pub struct CompiledFunction {
    pub instructions: Rc<Vec<Instruction>>,
    pub num_locals: usize,
    pub num_arguments: usize,
}

/// A compiled function together with the values it captured.
#[derive(Debug, PartialEq, Clone)]
pub struct Closure {
    pub function: CompiledFunction,
    pub free: Rc<Vec<Object>>,
}

/// A function of the evaluator: parameters, body, and the environment in
/// which the function literal was evaluated.
#[derive(Debug, PartialEq, Clone)]
pub struct FunctionObject {
    pub parameters: Rc<Vec<String>>,
    pub body: BlockStatement,
    pub environment: Environment,
}

/// A value that can be the key of a hash.
#[derive(Debug, Clone, PartialEq, Eq, Hash)]
pub enum HashKey {
    String(Rc<String>),
    Integer(i64),
    Boolean(bool),
}

/// The mathematical value of a [`HashKey`].
pub enum HashKeyView {
    String(Seq<char>),
    Integer(i64),
    Boolean(bool),
}

/// The mathematical value of a [`CompiledFunction`].
pub struct CompiledFunctionView {
    pub instructions: Seq<Instruction>,
    pub num_locals: nat,
    pub num_arguments: nat,
}

/// The mathematical value of a [`FunctionObject`].
pub struct FunctionView {
    pub parameters: Seq<Seq<char>>,
    pub body: Seq<StatementView>,
    pub environment: nat,
}

/// The mathematical value of an [`Object`].
pub enum Value {
    Integer(i64),
    String(Seq<char>),
    Boolean(bool),
    Return(Box<Value>),
    Function(FunctionView),
    Builtin(BuiltinFunction),
    Array(Seq<Value>),
    HashMap(Seq<(HashKeyView, Value)>),
    Null,
    CompiledFunction(CompiledFunctionView),
    Closure(ClosureView),
}

/// The mathematical value of a [`Closure`].
pub struct ClosureView {
    pub function: CompiledFunctionView,
    pub free: Seq<Value>,
}

impl View for HashKey {
    type V = HashKeyView;

    open spec fn view(&self) -> HashKeyView {
        match self {
            HashKey::String(text) => HashKeyView::String(text@),
            HashKey::Integer(value) => HashKeyView::Integer(*value),
            HashKey::Boolean(value) => HashKeyView::Boolean(*value),
        }
    }
}

impl View for CompiledFunction {
    type V = CompiledFunctionView;

    open spec fn view(&self) -> CompiledFunctionView {
        CompiledFunctionView {
            instructions: self.instructions@,
            num_locals: self.num_locals as nat,
            num_arguments: self.num_arguments as nat,
        }
    }
}

impl View for Closure {
    type V = ClosureView;

    open spec fn view(&self) -> ClosureView {
        ClosureView { function: self.function@, free: values_view(self.free@) }
    }
}

impl View for FunctionObject {
    type V = FunctionView;

    open spec fn view(&self) -> FunctionView {
        FunctionView {
            parameters: names_view(self.parameters@),
            body: self.body.view(),
            environment: self.environment.index as nat,
        }
    }
}

impl Object {
    pub open spec fn view(&self) -> Value
        decreases self,
    {
        match self {
            Object::Integer(value) => Value::Integer(*value),
            Object::String(text) => Value::String(text@),
            Object::Boolean(value) => Value::Boolean(*value),
            Object::Return(value) => Value::Return(Box::new(value.view())),
            Object::Function(function) => Value::Function(function@),
            Object::Builtin(function) => Value::Builtin(*function),
            Object::Array(items) => Value::Array(
                Seq::new(
                    items@.len(),
                    |i: int|
                        if 0 <= i < items@.len() {
                            items@[i].view()
                        } else {
                            arbitrary()
                        },
                ),
            ),
            Object::HashMap(pairs) => Value::HashMap(
                Seq::new(
                    pairs@.len(),
                    |i: int|
                        if 0 <= i < pairs@.len() {
                            (pairs@[i].0@, pairs@[i].1.view())
                        } else {
                            arbitrary()
                        },
                ),
            ),
            Object::Null => Value::Null,
            Object::CompiledFunction(function) => Value::CompiledFunction(function@),
            Object::Closure(closure) => Value::Closure(
                ClosureView {
                    function: closure.function@,
                    free: Seq::new(
                        closure.free@.len(),
                        |i: int|
                            if 0 <= i < closure.free@.len() {
                                closure.free@[i].view()
                            } else {
                                arbitrary()
                            },
                    ),
                },
            ),
        }
    }
}

/// The views of a list of values.
pub open spec fn values_view(objects: Seq<Object>) -> Seq<Value> {
    Seq::new(objects.len(), |i: int| objects[i].view())
}

/// The views of the entries of a hash.
pub open spec fn entries_view(pairs: Seq<(HashKey, Object)>) -> Seq<(HashKeyView, Value)> {
    Seq::new(pairs.len(), |i: int| (pairs[i].0@, pairs[i].1.view()))
}

/// The view of a value that holds a list is built from the views of the
/// list's items.
pub proof fn lemma_object_view(object: Object)
    ensures
        object matches Object::Array(items) ==> object.view() == Value::Array(
            values_view(items@),
        ),
        object matches Object::HashMap(pairs) ==> object.view() == Value::HashMap(
            entries_view(pairs@),
        ),
        object matches Object::Closure(closure) ==> object.view() == Value::Closure(closure@),
{
    match object {
        Object::Array(items) => {
            assert(object.view()->Array_0 =~= values_view(items@));
        },
        Object::HashMap(pairs) => {
            assert(object.view()->HashMap_0 =~= entries_view(pairs@));
        },
        Object::Closure(closure) => {
            assert(object.view()->Closure_0.free =~= values_view(closure.free@));
        },
        _ => {},
    }
}

/// The kind of a value.
pub open spec fn type_of(value: Value) -> DataType {
    match value {
        Value::Integer(_) => DataType::Integer,
        Value::String(_) => DataType::String,
        Value::Boolean(_) => DataType::Boolean,
        Value::Return(_) => DataType::Return,
        Value::Function(_) => DataType::Function,
        Value::Builtin(_) => DataType::Builtin,
        Value::Array(_) => DataType::Array,
        Value::HashMap(_) => DataType::HashMap,
        Value::Null => DataType::Null,
        Value::CompiledFunction(_) => DataType::CompiledFunction,
        Value::Closure(_) => DataType::Closure,
    }
}

/// The name of a kind of value, as error messages spell it.
pub open spec fn kind_name(data_type: DataType) -> Seq<char> {
    match data_type {
        DataType::Integer => "INTEGER"@,
        DataType::String => "STRING"@,
        DataType::Boolean => "BOOLEAN"@,
        DataType::Return => "RETURN"@,
        DataType::Function => "FUNCTION"@,
        DataType::Builtin => "BUILTIN"@,
        DataType::Array => "ARRAY"@,
        DataType::HashMap => "HASH_MAP"@,
        DataType::Null => "NULL"@,
        DataType::CompiledFunction => "COMPILED_FUNCTION"@,
        DataType::Closure => "CLOSURE"@,
    }
}

/// The quotient of two integers, rounded towards zero; the one quotient
/// that does not fit wraps around. The divisor is not zero.
pub open spec fn quotient(a: i64, b: i64) -> i64 {
    match a.checked_div(b) {
        Some(q) => q,
        None => i64::MIN,
    }
}

/// The negative of an integer; the one negative that does not fit wraps
/// around.
pub open spec fn negative(a: i64) -> i64 {
    0i64.wrapping_sub(a)
}

/// Every value is truthy but `false` and `null`.
pub open spec fn truthy(value: Value) -> bool {
    !(value == Value::Boolean(false) || value is Null)
}

/// The key that a value makes, or the kind of a value that makes none: only
/// strings, integers and booleans are keys.
pub open spec fn hash_key_of(value: Value) -> Result<HashKeyView, DataType> {
    match value {
        Value::String(text) => Ok(HashKeyView::String(text)),
        Value::Integer(value) => Ok(HashKeyView::Integer(value)),
        Value::Boolean(value) => Ok(HashKeyView::Boolean(value)),
        other => Err(type_of(other)),
    }
}

/// The rendering of a key.
pub open spec fn key_text(key: HashKeyView) -> Seq<char> {
    match key {
        HashKeyView::String(text) => text,
        HashKeyView::Integer(value) => integer_text(value as int),
        HashKeyView::Boolean(value) => if value {
            "true"@
        } else {
            "false"@
        },
    }
}

/// The rendering of a value for the user.
pub open spec fn inspect_text(value: Value) -> Seq<char>
    decreases value, 0int,
{
    match value {
        Value::Integer(value) => integer_text(value as int),
        Value::String(text) => text,
        Value::Boolean(value) => if value {
            "true"@
        } else {
            "false"@
        },
        Value::Return(value) => inspect_text(*value),
        Value::Function(function) => function_text(function),
        Value::Builtin(function) => "builtin function "@ + builtin_name(function),
        Value::Array(items) => "["@ + items_text(items, items.len() as int) + "]"@,
        Value::HashMap(pairs) => "{"@ + entries_text(pairs, pairs.len() as int) + "}"@,
        Value::Null => "null"@,
        Value::CompiledFunction(_) => "compiled function"@,
        Value::Closure(_) => "closure"@,
    }
}

/// The rendering of a function of the evaluator.
pub open spec fn function_text(function: FunctionView) -> Seq<char> {
    "fn ("@ + names_text(function.parameters, function.parameters.len() as int) + ") {\n"@
        + statements_text(function.body, function.body.len() as int) + "\n}"@
}

/// The renderings of the first `upto` values, separated by `, `.
pub open spec fn items_text(items: Seq<Value>, upto: int) -> Seq<char>
    decreases items, upto,
{
    if upto <= 0 || upto > items.len() {
        Seq::empty()
    } else if upto == 1 {
        inspect_text(items[0])
    } else {
        items_text(items, upto - 1) + ", "@ + inspect_text(items[upto - 1])
    }
}

/// The renderings of the first `upto` entries of a hash, each as
/// `key: value`, separated by `, `.
pub open spec fn entries_text(pairs: Seq<(HashKeyView, Value)>, upto: int) -> Seq<char>
    decreases pairs, upto,
{
    if upto <= 0 || upto > pairs.len() {
        Seq::empty()
    } else if upto == 1 {
        key_text(pairs[0].0) + ": "@ + inspect_text(pairs[0].1)
    } else {
        entries_text(pairs, upto - 1) + ", "@ + key_text(pairs[upto - 1].0) + ": "@ + inspect_text(
            pairs[upto - 1].1,
        )
    }
}

/// The position of the first entry from `from` on whose key is `key`.
pub open spec fn key_position(pairs: Seq<(HashKeyView, Value)>, key: HashKeyView, from: int)
    -> Option<int>
    decreases pairs.len() - from,
{
    if from < 0 || from >= pairs.len() {
        None
    } else if pairs[from].0 == key {
        Some(from)
    } else {
        key_position(pairs, key, from + 1)
    }
}

/// The value under `key`, or `null` where the hash has no such key.
pub open spec fn hash_lookup(pairs: Seq<(HashKeyView, Value)>, key: HashKeyView) -> Value {
    match key_position(pairs, key, 0) {
        Some(i) => pairs[i].1,
        None => Value::Null,
    }
}

/// The hash with `value` under `key`: in the place of the key's old value,
/// or, for a new key, behind the other entries.
pub open spec fn hash_insert(pairs: Seq<(HashKeyView, Value)>, key: HashKeyView, value: Value)
    -> Seq<(HashKeyView, Value)> {
    match key_position(pairs, key, 0) {
        Some(i) => pairs.update(i, (key, value)),
        None => pairs.push((key, value)),
    }
}

impl DataType {
    /// The name of the kind, as error messages spell it.
    pub fn name(&self) -> (name: &'static str)
        ensures
            name@ == kind_name(*self),
    {
        match self {
            DataType::Integer => "INTEGER",
            DataType::String => "STRING",
            DataType::Boolean => "BOOLEAN",
            DataType::Return => "RETURN",
            DataType::Function => "FUNCTION",
            DataType::Builtin => "BUILTIN",
            DataType::Array => "ARRAY",
            DataType::HashMap => "HASH_MAP",
            DataType::Null => "NULL",
            DataType::CompiledFunction => "COMPILED_FUNCTION",
            DataType::Closure => "CLOSURE",
        }
    }
}

impl HashKey {
    /// The key that `object` makes, or the kind of `object` if it makes none.
    pub fn from_object(object: &Object) -> (r: Result<HashKey, DataType>)
        ensures
            (match r {
                Ok(key) => Ok(key@),
                Err(data_type) => Err(data_type),
            }) == hash_key_of(object.view()),
    {
        match object {
            Object::String(text) => Ok(HashKey::String(share(text))),
            Object::Integer(value) => Ok(HashKey::Integer(*value)),
            Object::Boolean(value) => Ok(HashKey::Boolean(*value)),
            other => Err(other.data_type()),
        }
    }

    /// Whether two keys are equal.
    pub fn same(&self, other: &HashKey) -> (r: bool)
        ensures
            r == (self@ == other@),
    {
        match (self, other) {
            (HashKey::String(a), HashKey::String(b)) => str_eq(a.as_str(), b.as_str()),
            (HashKey::Integer(a), HashKey::Integer(b)) => *a == *b,
            (HashKey::Boolean(a), HashKey::Boolean(b)) => *a == *b,
            _ => false,
        }
    }

    /// A copy of the key.
    pub fn duplicate(&self) -> (copy: HashKey)
        ensures
            copy == *self,
    {
        match self {
            HashKey::String(text) => HashKey::String(share(text)),
            HashKey::Integer(value) => HashKey::Integer(*value),
            HashKey::Boolean(value) => HashKey::Boolean(*value),
        }
    }

    /// The rendering of the key.
    pub fn inspect(&self) -> (text: String)
        ensures
            text@ == key_text(self@),
    {
        match self {
            HashKey::String(text) => String::from_str(text.as_str()),
            HashKey::Integer(value) => integer_to_text(*value),
            HashKey::Boolean(value) => {
                if *value {
                    String::from_str("true")
                } else {
                    String::from_str("false")
                }
            },
        }
    }
}

impl CompiledFunction {
    /// A copy that shares the instructions.
    pub fn duplicate(&self) -> (copy: CompiledFunction)
        ensures
            copy == *self,
    {
        CompiledFunction {
            instructions: share(&self.instructions),
            num_locals: self.num_locals,
            num_arguments: self.num_arguments,
        }
    }
}

impl Closure {
    /// A copy that shares the instructions and the captured values.
    pub fn duplicate(&self) -> (copy: Closure)
        ensures
            copy == *self,
    {
        Closure { function: self.function.duplicate(), free: share(&self.free) }
    }
}

impl FunctionObject {
    /// A copy that shares parameters and body.
    pub fn duplicate(&self) -> (copy: FunctionObject)
        ensures
            copy == *self,
    {
        FunctionObject {
            parameters: share(&self.parameters),
            body: BlockStatement { statements: share(&self.body.statements) },
            environment: self.environment,
        }
    }

    /// The rendering of the function.
    pub fn inspect(&self) -> (text: String)
        ensures
            text@ == function_text(self@),
    {
        let mut text = String::from_str("fn (");
        let names = names_debug_str(&self.parameters);
        let body = self.body.debug_str();
        text.append(names.as_str());
        text.append(") {\n");
        text.append(body.as_str());
        text.append("\n}");
        text
    }
}

/// Renders values separated by `, `.
pub fn items_inspect(items: &Vec<Object>) -> (text: String)
    ensures
        text@ == items_text(values_view(items@), items@.len() as int),
    decreases items,
{
    let mut text = String::new();
    let mut i: usize = 0;
    while i < items.len()
        invariant
            i <= items@.len(),
            text@ == items_text(values_view(items@), i as int),
        decreases items@.len() - i,
    {
        if i > 0 {
            text.append(", ");
        }
        let item = items[i].inspect();
        text.append(item.as_str());
        i += 1;
    }
    text
}

/// Renders the entries of a hash, each as `key: value`, separated by `, `.
pub fn entries_inspect(pairs: &Vec<(HashKey, Object)>) -> (text: String)
    ensures
        text@ == entries_text(entries_view(pairs@), pairs@.len() as int),
    decreases pairs,
{
    let mut text = String::new();
    let mut i: usize = 0;
    while i < pairs.len()
        invariant
            i <= pairs@.len(),
            text@ == entries_text(entries_view(pairs@), i as int),
        decreases pairs@.len() - i,
    {
        if i > 0 {
            text.append(", ");
        }
        let key = pairs[i].0.inspect();
        let value = pairs[i].1.inspect();
        text.append(key.as_str());
        text.append(": ");
        text.append(value.as_str());
        i += 1;
    }
    text
}

impl Object {
    /// The kind of the value.
    pub fn data_type(&self) -> (data_type: DataType)
        ensures
            data_type == type_of(self.view()),
    {
        match self {
            Object::Integer(_) => DataType::Integer,
            Object::String(_) => DataType::String,
            Object::Boolean(_) => DataType::Boolean,
            Object::Return(_) => DataType::Return,
            Object::Function(_) => DataType::Function,
            Object::Builtin(_) => DataType::Builtin,
            Object::Array(_) => DataType::Array,
            Object::HashMap(_) => DataType::HashMap,
            Object::Null => DataType::Null,
            Object::CompiledFunction(_) => DataType::CompiledFunction,
            Object::Closure(_) => DataType::Closure,
        }
    }

    /// Whether the value counts as true in a condition.
    pub fn is_truthy(&self) -> (r: bool)
        ensures
            r == truthy(self.view()),
    {
        match self {
            Object::Boolean(false) => false,
            Object::Null => false,
            _ => true,
        }
    }

    /// A copy of the value that shares what the value points to.
    pub fn duplicate(&self) -> (copy: Object)
        ensures
            copy == *self,
    {
        match self {
            Object::Integer(value) => Object::Integer(*value),
            Object::String(text) => Object::String(share(text)),
            Object::Boolean(value) => Object::Boolean(*value),
            Object::Return(value) => Object::Return(share(value)),
            Object::Function(function) => Object::Function(function.duplicate()),
            Object::Builtin(function) => Object::Builtin(*function),
            Object::Array(items) => Object::Array(share(items)),
            Object::HashMap(pairs) => Object::HashMap(share(pairs)),
            Object::Null => Object::Null,
            Object::CompiledFunction(function) => Object::CompiledFunction(function.duplicate()),
            Object::Closure(closure) => Object::Closure(closure.duplicate()),
        }
    }

    /// The rendering of the value for the user.
    pub fn inspect(&self) -> (text: String)
        ensures
            text@ == inspect_text(self.view()),
        decreases self,
    {
        proof {
            lemma_object_view(*self);
        }
        match self {
            Object::Integer(value) => integer_to_text(*value),
            Object::String(text) => String::from_str(text.as_str()),
            Object::Boolean(value) => {
                if *value {
                    String::from_str("true")
                } else {
                    String::from_str("false")
                }
            },
            Object::Return(value) => value.inspect(),
            Object::Function(function) => function.inspect(),
            Object::Builtin(function) => {
                let mut text = String::from_str("builtin function ");
                text.append(function.name());
                text
            },
            Object::Array(items) => {
                let mut text = String::from_str("[");
                let inner = items_inspect(items);
                text.append(inner.as_str());
                text.append("]");
                text
            },
            Object::HashMap(pairs) => {
                let mut text = String::from_str("{");
                let inner = entries_inspect(pairs);
                text.append(inner.as_str());
                text.append("}");
                text
            },
            Object::Null => String::from_str("null"),
            Object::CompiledFunction(_) => String::from_str("compiled function"),
            Object::Closure(_) => String::from_str("closure"),
        }
    }
}

/// The position of the first entry whose key is `key`.
pub fn hash_find(pairs: &Vec<(HashKey, Object)>, key: &HashKey) -> (r: Option<usize>)
    ensures
        (match r {
            Some(i) => Some(i as int),
            None => None,
        }) == key_position(entries_view(pairs@), key@, 0),
        r matches Some(i) ==> i < pairs@.len(),
{
    let mut i: usize = 0;
    while i < pairs.len()
        invariant
            i <= pairs@.len(),
            key_position(entries_view(pairs@), key@, 0) == key_position(
                entries_view(pairs@),
                key@,
                i as int,
            ),
        decreases pairs@.len() - i,
    {
        if pairs[i].0.same(key) {
            return Some(i);
        }
        i += 1;
    }
    None
}

/// The value under `key`, or `null` where the hash has no such key.
pub fn hash_get(pairs: &Vec<(HashKey, Object)>, key: &HashKey) -> (value: Object)
    ensures
        value.view() == hash_lookup(entries_view(pairs@), key@),
{
    match hash_find(pairs, key) {
        Some(i) => pairs[i].1.duplicate(),
        None => Object::Null,
    }
}

/// Puts `value` under `key`: in the place of the key's old value, or, for a
/// new key, behind the other entries.
pub fn hash_put(pairs: &mut Vec<(HashKey, Object)>, key: HashKey, value: Object)
    ensures
        entries_view(final(pairs)@) == hash_insert(
            entries_view(old(pairs)@),
            key@,
            value.view(),
        ),
{
    let ghost before = entries_view(pairs@);
    match hash_find(pairs, &key) {
        Some(i) => {
            pairs[i] = (key, value);
            assert(entries_view(pairs@) =~= before.update(i as int, (key@, value.view())));
        },
        None => {
            pairs.push((key, value));
            assert(entries_view(pairs@) =~= before.push((key@, value.view())));
        },
    }
}

/// Copies of the items of `items` from `from` on.
pub fn copy_objects(items: &Vec<Object>, from: usize) -> (copy: Vec<Object>)
    requires
        from <= items@.len(),
    ensures
        copy@ == items@.subrange(from as int, items@.len() as int),
{
    let mut copy: Vec<Object> = Vec::new();
    let mut i: usize = from;
    while i < items.len()
        invariant
            from <= i <= items@.len(),
            copy@ == items@.subrange(from as int, i as int),
        decreases items@.len() - i,
    {
        copy.push(items[i].duplicate());
        assert(copy@ =~= items@.subrange(from as int, i as int + 1));
        i += 1;
    }
    copy
}

/// Whether two functions of the evaluator are equal: the same parameters,
/// the same body, statement by statement, and the same environment.
pub open spec fn functions_equal(a: FunctionView, b: FunctionView) -> bool {
    &&& a.parameters == b.parameters
    &&& a.body == b.body
    &&& a.environment == b.environment
}

/// Whether two values are equal: the same kind and equal contents. Arrays
/// are equal item by item. Hashes are equal if they have as many entries and
/// every key of the first has an equal value in the second; the hashes that
/// the language builds have no key twice (see `hashing::distinct_keys`), so
/// that this is the equality of what they hold.
pub open spec fn values_equal(a: Value, b: Value) -> bool
    decreases a, 0int,
{
    match (a, b) {
        (Value::Integer(x), Value::Integer(y)) => x == y,
        (Value::String(x), Value::String(y)) => x == y,
        (Value::Boolean(x), Value::Boolean(y)) => x == y,
        (Value::Return(x), Value::Return(y)) => values_equal(*x, *y),
        (Value::Function(x), Value::Function(y)) => functions_equal(x, y),
        (Value::Builtin(x), Value::Builtin(y)) => x == y,
        (Value::Array(x), Value::Array(y)) => x.len() == y.len() && items_equal(
            x,
            y,
            x.len() as int,
        ),
        (Value::HashMap(x), Value::HashMap(y)) => x.len() == y.len() && entries_equal(
            x,
            y,
            x.len() as int,
        ),
        (Value::Null, Value::Null) => true,
        (Value::CompiledFunction(x), Value::CompiledFunction(y)) => x == y,
        (Value::Closure(x), Value::Closure(y)) => x.function == y.function && x.free.len()
            == y.free.len() && items_equal(x.free, y.free, x.free.len() as int),
        _ => false,
    }
}

/// Whether the first `upto` items of two lists are equal, place by place.
pub open spec fn items_equal(a: Seq<Value>, b: Seq<Value>, upto: int) -> bool
    decreases a, upto,
{
    if upto <= 0 || upto > a.len() || upto > b.len() {
        true
    } else {
        items_equal(a, b, upto - 1) && values_equal(a[upto - 1], b[upto - 1])
    }
}

/// Whether each of the first `upto` entries of `a` has an equal value under
/// its key in `b`.
pub open spec fn entries_equal(
    a: Seq<(HashKeyView, Value)>,
    b: Seq<(HashKeyView, Value)>,
    upto: int,
) -> bool
    decreases a, upto,
{
    if upto <= 0 || upto > a.len() {
        true
    } else {
        entries_equal(a, b, upto - 1) && (match key_position(b, a[upto - 1].0, 0) {
            Some(j) => values_equal(a[upto - 1].1, b[j].1),
            None => false,
        })
    }
}

/// Whether the items of two lists are equal, place by place.
pub fn items_same(a: &Vec<Object>, b: &Vec<Object>) -> (r: bool)
    ensures
        r == (a@.len() == b@.len() && items_equal(
            values_view(a@),
            values_view(b@),
            a@.len() as int,
        )),
    decreases a,
{
    if a.len() != b.len() {
        return false;
    }
    let mut i: usize = 0;
    while i < a.len()
        invariant
            i <= a@.len(),
            a@.len() == b@.len(),
            items_equal(values_view(a@), values_view(b@), i as int),
        decreases a@.len() - i,
    {
        if !a[i].same(&b[i]) {
            proof {
                if items_equal(values_view(a@), values_view(b@), a@.len() as int) {
                    lemma_items_equal_prefix(
                        values_view(a@),
                        values_view(b@),
                        i as int + 1,
                        a@.len() as int,
                    );
                }
            }
            return false;
        }
        i += 1;
    }
    true
}

/// If the first `longer` items are equal, so are the first `shorter`.
pub proof fn lemma_items_equal_prefix(a: Seq<Value>, b: Seq<Value>, shorter: int, longer: int)
    requires
        0 <= shorter <= longer <= a.len(),
        longer <= b.len(),
        items_equal(a, b, longer),
    ensures
        items_equal(a, b, shorter),
    decreases longer - shorter,
{
    if shorter < longer {
        lemma_items_equal_prefix(a, b, shorter, longer - 1);
    }
}

/// If the first `longer` entries have equal values in `b`, so have the first
/// `shorter`.
pub proof fn lemma_entries_equal_prefix(
    a: Seq<(HashKeyView, Value)>,
    b: Seq<(HashKeyView, Value)>,
    shorter: int,
    longer: int,
)
    requires
        0 <= shorter <= longer <= a.len(),
        entries_equal(a, b, longer),
    ensures
        entries_equal(a, b, shorter),
    decreases longer - shorter,
{
    if shorter < longer {
        lemma_entries_equal_prefix(a, b, shorter, longer - 1);
    }
}

/// Whether two hashes have as many entries and every key of the first has an
/// equal value in the second.
pub fn entries_same(a: &Vec<(HashKey, Object)>, b: &Vec<(HashKey, Object)>) -> (r: bool)
    ensures
        r == (a@.len() == b@.len() && entries_equal(
            entries_view(a@),
            entries_view(b@),
            a@.len() as int,
        )),
    decreases a,
{
    if a.len() != b.len() {
        return false;
    }
    let mut i: usize = 0;
    while i < a.len()
        invariant
            i <= a@.len(),
            a@.len() == b@.len(),
            entries_equal(entries_view(a@), entries_view(b@), i as int),
        decreases a@.len() - i,
    {
        let matches = match hash_find(b, &a[i].0) {
            Some(j) => a[i].1.same(&b[j].1),
            None => false,
        };
        if !matches {
            proof {
                if entries_equal(entries_view(a@), entries_view(b@), a@.len() as int) {
                    lemma_entries_equal_prefix(
                        entries_view(a@),
                        entries_view(b@),
                        i as int + 1,
                        a@.len() as int,
                    );
                }
            }
            return false;
        }
        i += 1;
    }
    true
}

/// Whether two lists of instructions are the same.
pub fn instructions_same(a: &Vec<Instruction>, b: &Vec<Instruction>) -> (r: bool)
    ensures
        r == (a@ == b@),
{
    if a.len() != b.len() {
        return false;
    }
    let mut i: usize = 0;
    while i < a.len()
        invariant
            i <= a@.len(),
            a@.len() == b@.len(),
            forall|j: int| 0 <= j < i ==> a@[j] == b@[j],
        decreases a@.len() - i,
    {
        if a[i] != b[i] {
            return false;
        }
        i += 1;
    }
    assert(a@ =~= b@);
    true
}

impl CompiledFunction {
    /// Whether two compiled functions are equal.
    pub fn same(&self, other: &CompiledFunction) -> (r: bool)
        ensures
            r == (self@ == other@),
    {
        self.num_locals == other.num_locals && self.num_arguments == other.num_arguments
            && instructions_same(&self.instructions, &other.instructions)
    }
}

impl FunctionObject {
    /// Whether two functions of the evaluator are equal.
    pub fn same(&self, other: &FunctionObject) -> (r: bool)
        ensures
            r == functions_equal(self@, other@),
    {
        names_same(&self.parameters, &other.parameters) && self.body.same(&other.body)
            && self.environment.index == other.environment.index
    }
}

impl Object {
    /// Whether two values are equal.
    pub fn same(&self, other: &Object) -> (r: bool)
        ensures
            r == values_equal(self.view(), other.view()),
        decreases self,
    {
        proof {
            lemma_object_view(*self);
            lemma_object_view(*other);
        }
        match (self, other) {
            (Object::Integer(x), Object::Integer(y)) => *x == *y,
            (Object::String(x), Object::String(y)) => str_eq(x.as_str(), y.as_str()),
            (Object::Boolean(x), Object::Boolean(y)) => *x == *y,
            (Object::Return(x), Object::Return(y)) => x.same(y),
            (Object::Function(x), Object::Function(y)) => x.same(y),
            (Object::Builtin(x), Object::Builtin(y)) => *x == *y,
            (Object::Array(x), Object::Array(y)) => items_same(x, y),
            (Object::HashMap(x), Object::HashMap(y)) => entries_same(x, y),
            (Object::Null, Object::Null) => true,
            (Object::CompiledFunction(x), Object::CompiledFunction(y)) => x.same(y),
            (Object::Closure(x), Object::Closure(y)) => x.function.same(&y.function)
                && items_same(&x.free, &y.free),
            _ => false,
        }
    }
}

/// Copies of the items of `items` from `from` up to `to`.
pub fn copy_range(items: &Vec<Object>, from: usize, to: usize) -> (copy: Vec<Object>)
    requires
        from <= to <= items@.len(),
    ensures
        copy@ == items@.subrange(from as int, to as int),
{
    let mut copy: Vec<Object> = Vec::new();
    let mut i: usize = from;
    while i < to
        invariant
            from <= i <= to <= items@.len(),
            copy@ == items@.subrange(from as int, i as int),
        decreases to - i,
    {
        copy.push(items[i].duplicate());
        assert(copy@ =~= items@.subrange(from as int, i as int + 1));
        i += 1;
    }
    copy
}

} // verus!
