//! The abstract syntax tree and its canonical rendering.

use std::rc::Rc;
use vstd::prelude::*;
use vstd::string::*;
use crate::text::{integer_text, integer_to_text, str_eq};

verus! {

/// A prefix operator.
#[derive(Debug, PartialEq, Eq, Clone, Copy, Structural)]
pub enum PrefixOperatorKind {
    Not,
    Negative,
}

/// A binary operator.
#[derive(Debug, PartialEq, Eq, Clone, Copy, Structural)]
pub enum InfixOperatorKind {
    Add,
    Subtract,
    Multiply,
    Divide,
    Equal,
    NotEqual,
    GreaterThan,
    LessThan,
}

/// The symbol of a prefix operator.
pub open spec fn prefix_operator_text(operator: PrefixOperatorKind) -> Seq<char> {
    match operator {
        PrefixOperatorKind::Not => "!"@,
        PrefixOperatorKind::Negative => "-"@,
    }
}

/// The symbol of a binary operator.
pub open spec fn infix_operator_text(operator: InfixOperatorKind) -> Seq<char> {
    match operator {
        InfixOperatorKind::Add => "+"@,
        InfixOperatorKind::Subtract => "-"@,
        InfixOperatorKind::Multiply => "*"@,
        InfixOperatorKind::Divide => "/"@,
        InfixOperatorKind::Equal => "=="@,
        InfixOperatorKind::NotEqual => "!="@,
        InfixOperatorKind::GreaterThan => ">"@,
        InfixOperatorKind::LessThan => "<"@,
    }
}

impl PrefixOperatorKind {
    /// The symbol of the operator.
    pub fn debug_str(&self) -> (text: String)
        ensures
            text@ == prefix_operator_text(*self),
    {
        match self {
            PrefixOperatorKind::Not => String::from_str("!"),
            PrefixOperatorKind::Negative => String::from_str("-"),
        }
    }
}

impl InfixOperatorKind {
    /// The symbol of the operator.
    pub fn debug_str(&self) -> (text: String)
        ensures
            text@ == infix_operator_text(*self),
    {
        match self {
            InfixOperatorKind::Add => String::from_str("+"),
            InfixOperatorKind::Subtract => String::from_str("-"),
            InfixOperatorKind::Multiply => String::from_str("*"),
            InfixOperatorKind::Divide => String::from_str("/"),
            InfixOperatorKind::Equal => String::from_str("=="),
            InfixOperatorKind::NotEqual => String::from_str("!="),
            InfixOperatorKind::GreaterThan => String::from_str(">"),
            InfixOperatorKind::LessThan => String::from_str("<"),
        }
    }
}

/// A program: statements in source order.
#[derive(Debug, PartialEq)]
pub struct Program {
    pub statements: Vec<Statement>,
}

/// A statement.
#[derive(Debug, PartialEq)]
pub enum Statement {
    Let { name: String, value: Expression },
    Return(Expression),
    Expression(Expression),
}

/// The statements between braces. Function values and conditionals share
/// them by reference.
#[derive(Debug, PartialEq, Clone)]
pub struct BlockStatement {
    pub statements: Rc<Vec<Statement>>,
}

/// One `key: value` entry of a hash literal.
#[derive(Debug, PartialEq)]
pub struct HashLiteralPair {
    pub key: Expression,
    pub value: Expression,
}

/// An expression.
#[derive(Debug, PartialEq)]
pub enum Expression {
    Identifier(String),
    IntegerLiteral(i64),
    BooleanLiteral(bool),
    StringLiteral(String),
    ArrayLiteral(Vec<Expression>),
    HashLiteral(Vec<HashLiteralPair>),
    PrefixOperator { operator: PrefixOperatorKind, right: Box<Expression> },
    InfixOperator { operator: InfixOperatorKind, left: Box<Expression>, right: Box<Expression> },
    If { condition: Box<Expression>, consequence: BlockStatement, alternative: BlockStatement },
    FunctionLiteral { parameters: Vec<String>, body: BlockStatement },
    FunctionCall { function: Box<Expression>, arguments: Vec<Expression> },
    Index { left: Box<Expression>, index: Box<Expression> },
}

/// A statement list rendered back to back: every `let` and `return` is closed
/// by a semicolon, an expression statement by nothing.
#[derive(Debug, PartialEq)]
pub struct AST {
    pub statements: Vec<Statement>,
}

/// The mathematical value of an [`Expression`].
pub enum ExpressionView {
    Identifier(Seq<char>),
    IntegerLiteral(i64),
    BooleanLiteral(bool),
    StringLiteral(Seq<char>),
    ArrayLiteral(Seq<ExpressionView>),
    HashLiteral(Seq<(ExpressionView, ExpressionView)>),
    PrefixOperator { operator: PrefixOperatorKind, right: Box<ExpressionView> },
    InfixOperator {
        operator: InfixOperatorKind,
        left: Box<ExpressionView>,
        right: Box<ExpressionView>,
    },
    If {
        condition: Box<ExpressionView>,
        consequence: Seq<StatementView>,
        alternative: Seq<StatementView>,
    },
    FunctionLiteral { parameters: Seq<Seq<char>>, body: Seq<StatementView> },
    FunctionCall { function: Box<ExpressionView>, arguments: Seq<ExpressionView> },
    Index { left: Box<ExpressionView>, index: Box<ExpressionView> },
}

/// The mathematical value of a [`Statement`].
pub enum StatementView {
    Let { name: Seq<char>, value: ExpressionView },
    Return(ExpressionView),
    Expression(ExpressionView),
}

/// The texts of a list of names.
pub open spec fn names_view(names: Seq<String>) -> Seq<Seq<char>> {
    Seq::new(names.len(), |i: int| names[i]@)
}

impl Expression {
    pub open spec fn view(&self) -> ExpressionView
        decreases self,
    {
        match self {
            Expression::Identifier(name) => ExpressionView::Identifier(name@),
            Expression::IntegerLiteral(value) => ExpressionView::IntegerLiteral(*value),
            Expression::BooleanLiteral(value) => ExpressionView::BooleanLiteral(*value),
            Expression::StringLiteral(value) => ExpressionView::StringLiteral(value@),
            Expression::ArrayLiteral(items) => ExpressionView::ArrayLiteral(
                Seq::new(
                    items@.len(),
                    |i: int|
                        if 0 <= i < items@.len() {
                            items@[i].view()
                        } else {
                            arbitrary()
                        },
                ),
            ),
            Expression::HashLiteral(pairs) => ExpressionView::HashLiteral(
                Seq::new(
                    pairs@.len(),
                    |i: int|
                        if 0 <= i < pairs@.len() {
                            (pairs@[i].key.view(), pairs@[i].value.view())
                        } else {
                            arbitrary()
                        },
                ),
            ),
            Expression::PrefixOperator { operator, right } => ExpressionView::PrefixOperator {
                operator: *operator,
                right: Box::new(right.view()),
            },
            Expression::InfixOperator { operator, left, right } => ExpressionView::InfixOperator {
                operator: *operator,
                left: Box::new(left.view()),
                right: Box::new(right.view()),
            },
            Expression::If { condition, consequence, alternative } => ExpressionView::If {
                condition: Box::new(condition.view()),
                consequence: consequence.view(),
                alternative: alternative.view(),
            },
            Expression::FunctionLiteral { parameters, body } => ExpressionView::FunctionLiteral {
                parameters: names_view(parameters@),
                body: body.view(),
            },
            Expression::FunctionCall { function, arguments } => ExpressionView::FunctionCall {
                function: Box::new(function.view()),
                arguments: Seq::new(
                    arguments@.len(),
                    |i: int|
                        if 0 <= i < arguments@.len() {
                            arguments@[i].view()
                        } else {
                            arbitrary()
                        },
                ),
            },
            Expression::Index { left, index } => ExpressionView::Index {
                left: Box::new(left.view()),
                index: Box::new(index.view()),
            },
        }
    }
}

impl Statement {
    pub open spec fn view(&self) -> StatementView
        decreases self,
    {
        match self {
            Statement::Let { name, value } => StatementView::Let { name: name@, value: value.view() },
            Statement::Return(value) => StatementView::Return(value.view()),
            Statement::Expression(value) => StatementView::Expression(value.view()),
        }
    }
}

impl BlockStatement {
    pub open spec fn view(&self) -> Seq<StatementView>
        decreases self,
    {
        Seq::new(
            self.statements@.len(),
            |i: int|
                if 0 <= i < self.statements@.len() {
                    self.statements@[i].view()
                } else {
                    arbitrary()
                },
        )
    }
}

/// The views of a list of statements.
pub open spec fn statements_view(statements: Seq<Statement>) -> Seq<StatementView> {
    Seq::new(statements.len(), |i: int| statements[i].view())
}

/// The views of a list of expressions.
pub open spec fn expressions_view(expressions: Seq<Expression>) -> Seq<ExpressionView> {
    Seq::new(expressions.len(), |i: int| expressions[i].view())
}

impl View for Program {
    type V = Seq<StatementView>;

    open spec fn view(&self) -> Seq<StatementView> {
        statements_view(self.statements@)
    }
}

impl View for AST {
    type V = Seq<StatementView>;

    open spec fn view(&self) -> Seq<StatementView> {
        statements_view(self.statements@)
    }
}

/// The first `upto` names, separated by `, `.
pub open spec fn names_text(names: Seq<Seq<char>>, upto: int) -> Seq<char>
    decreases upto,
{
    if upto <= 0 {
        Seq::empty()
    } else if upto == 1 {
        names[0]
    } else {
        names_text(names, upto - 1) + ", "@ + names[upto - 1]
    }
}

/// The canonical rendering of an expression: operators fully parenthesised,
/// lists separated by `, `.
pub open spec fn expression_text(expression: ExpressionView) -> Seq<char>
    decreases expression, 0int,
{
    match expression {
        ExpressionView::Identifier(name) => name,
        ExpressionView::IntegerLiteral(value) => integer_text(value as int),
        ExpressionView::BooleanLiteral(value) => if value {
            "true"@
        } else {
            "false"@
        },
        ExpressionView::StringLiteral(value) => value,
        ExpressionView::ArrayLiteral(items) => "["@ + expressions_text(items, items.len() as int)
            + "]"@,
        ExpressionView::HashLiteral(pairs) => "{"@ + pairs_text(pairs, pairs.len() as int) + "}"@,
        ExpressionView::PrefixOperator { operator, right } => "("@ + prefix_operator_text(operator)
            + expression_text(*right) + ")"@,
        ExpressionView::InfixOperator { operator, left, right } => "("@ + expression_text(*left)
            + " "@ + infix_operator_text(operator) + " "@ + expression_text(*right) + ")"@,
        ExpressionView::If { condition, consequence, alternative } => "if ("@ + expression_text(
            *condition,
        ) + ") {"@ + statements_text(consequence, consequence.len() as int) + "} else {"@
            + statements_text(alternative, alternative.len() as int) + "}"@,
        ExpressionView::FunctionLiteral { parameters, body } => "fn("@ + names_text(
            parameters,
            parameters.len() as int,
        ) + ") {"@ + statements_text(body, body.len() as int) + "}"@,
        ExpressionView::FunctionCall { function, arguments } => expression_text(*function) + "("@
            + expressions_text(arguments, arguments.len() as int) + ")"@,
        ExpressionView::Index { left, index } => "("@ + expression_text(*left) + "["@
            + expression_text(*index) + "])"@,
    }
}

/// The first `upto` expressions, separated by `, `.
pub open spec fn expressions_text(items: Seq<ExpressionView>, upto: int) -> Seq<char>
    decreases items, upto,
{
    if upto <= 0 || upto > items.len() {
        Seq::empty()
    } else if upto == 1 {
        expression_text(items[0])
    } else {
        expressions_text(items, upto - 1) + ", "@ + expression_text(items[upto - 1])
    }
}

/// The first `upto` entries of a hash literal, each as `key: value`,
/// separated by `, `.
pub open spec fn pairs_text(pairs: Seq<(ExpressionView, ExpressionView)>, upto: int) -> Seq<char>
    decreases pairs, upto,
{
    if upto <= 0 || upto > pairs.len() {
        Seq::empty()
    } else if upto == 1 {
        expression_text(pairs[0].0) + ": "@ + expression_text(pairs[0].1)
    } else {
        pairs_text(pairs, upto - 1) + ", "@ + expression_text(pairs[upto - 1].0) + ": "@
            + expression_text(pairs[upto - 1].1)
    }
}

/// The rendering of a statement, without a terminator.
pub open spec fn statement_text(statement: StatementView) -> Seq<char>
    decreases statement, 0int,
{
    match statement {
        StatementView::Let { name, value } => "let "@ + name + " = "@ + expression_text(value),
        StatementView::Return(value) => "return "@ + expression_text(value),
        StatementView::Expression(value) => expression_text(value),
    }
}

/// The first `upto` statements, each followed by a semicolon.
pub open spec fn statements_text(statements: Seq<StatementView>, upto: int) -> Seq<char>
    decreases statements, upto,
{
    if upto <= 0 || upto > statements.len() {
        Seq::empty()
    } else {
        statements_text(statements, upto - 1) + statement_text(statements[upto - 1]) + ";"@
    }
}

/// The first `upto` statements back to back: a semicolon closes every `let`
/// and `return`, nothing closes an expression statement.
pub open spec fn compact_text(statements: Seq<StatementView>, upto: int) -> Seq<char>
    decreases upto,
{
    if upto <= 0 || upto > statements.len() {
        Seq::empty()
    } else {
        compact_text(statements, upto - 1) + statement_text(statements[upto - 1]) + (
        if statements[upto - 1] is Expression {
            Seq::empty()
        } else {
            ";"@
        })
    }
}


/// The views of the entries of a hash literal.
pub open spec fn pairs_view(pairs: Seq<HashLiteralPair>) -> Seq<(ExpressionView, ExpressionView)> {
    Seq::new(pairs.len(), |i: int| (pairs[i].key.view(), pairs[i].value.view()))
}

/// The view of a block is the list of the views of its statements.
pub proof fn lemma_block_view(block: BlockStatement)
    ensures
        block.view() == statements_view(block.statements@),
{
    assert(block.view() =~= statements_view(block.statements@));
}

/// The view of an expression that holds a list is built from the views of
/// the list's items.
pub proof fn lemma_expression_view(expression: Expression)
    ensures
        expression matches Expression::ArrayLiteral(items) ==> expression.view()
            == ExpressionView::ArrayLiteral(expressions_view(items@)),
        expression matches Expression::HashLiteral(pairs) ==> expression.view()
            == ExpressionView::HashLiteral(pairs_view(pairs@)),
        expression matches Expression::FunctionCall { function, arguments } ==> expression.view()
            == (ExpressionView::FunctionCall {
            function: Box::new(function.view()),
            arguments: expressions_view(arguments@),
        }),
{
    match expression {
        Expression::ArrayLiteral(items) => {
            assert(expression.view()->ArrayLiteral_0 =~= expressions_view(items@));
        },
        Expression::HashLiteral(pairs) => {
            assert(expression.view()->HashLiteral_0 =~= pairs_view(pairs@));
        },
        Expression::FunctionCall { function, arguments } => {
            assert(expression.view()->FunctionCall_arguments =~= expressions_view(arguments@));
        },
        _ => {},
    }
}

/// Renders names separated by `, `.
pub fn names_debug_str(names: &Vec<String>) -> (text: String)
    ensures
        text@ == names_text(names_view(names@), names@.len() as int),
{
    let mut text = String::new();
    let mut i: usize = 0;
    while i < names.len()
        invariant
            i <= names@.len(),
            text@ == names_text(names_view(names@), i as int),
        decreases names@.len() - i,
    {
        if i > 0 {
            text.append(", ");
        }
        text.append(names[i].as_str());
        i += 1;
    }
    text
}

/// Renders expressions separated by `, `.
pub fn expressions_debug_str(items: &Vec<Expression>) -> (text: String)
    ensures
        text@ == expressions_text(expressions_view(items@), items@.len() as int),
    decreases items,
{
    let mut text = String::new();
    let mut i: usize = 0;
    while i < items.len()
        invariant
            i <= items@.len(),
            text@ == expressions_text(expressions_view(items@), i as int),
        decreases items@.len() - i,
    {
        if i > 0 {
            text.append(", ");
        }
        let item = items[i].debug_str();
        text.append(item.as_str());
        i += 1;
    }
    text
}

/// Renders the entries of a hash literal separated by `, `.
pub fn pairs_debug_str(pairs: &Vec<HashLiteralPair>) -> (text: String)
    ensures
        text@ == pairs_text(pairs_view(pairs@), pairs@.len() as int),
    decreases pairs,
{
    let mut text = String::new();
    let mut i: usize = 0;
    while i < pairs.len()
        invariant
            i <= pairs@.len(),
            text@ == pairs_text(pairs_view(pairs@), i as int),
        decreases pairs@.len() - i,
    {
        if i > 0 {
            text.append(", ");
        }
        let key = pairs[i].key.debug_str();
        let value = pairs[i].value.debug_str();
        text.append(key.as_str());
        text.append(": ");
        text.append(value.as_str());
        i += 1;
    }
    text
}

/// Renders statements, each followed by a semicolon.
pub fn statements_debug_str(statements: &Vec<Statement>) -> (text: String)
    ensures
        text@ == statements_text(statements_view(statements@), statements@.len() as int),
    decreases statements,
{
    let mut text = String::new();
    let mut i: usize = 0;
    while i < statements.len()
        invariant
            i <= statements@.len(),
            text@ == statements_text(statements_view(statements@), i as int),
        decreases statements@.len() - i,
    {
        let statement = statements[i].debug_str();
        text.append(statement.as_str());
        text.append(";");
        i += 1;
    }
    text
}

impl Program {
    /// Renders the program: every statement followed by a semicolon.
    pub fn debug_str(&self) -> (text: String)
        ensures
            text@ == statements_text(self@, self@.len() as int),
    {
        statements_debug_str(&self.statements)
    }
}

impl Statement {
    /// Renders the statement, without a terminator.
    pub fn debug_str(&self) -> (text: String)
        ensures
            text@ == statement_text(self@),
        decreases self,
    {
        match self {
            Statement::Let { name, value } => {
                let mut text = String::from_str("let ");
                text.append(name.as_str());
                text.append(" = ");
                let value_text = value.debug_str();
                text.append(value_text.as_str());
                text
            },
            Statement::Return(value) => {
                let mut text = String::from_str("return ");
                let value_text = value.debug_str();
                text.append(value_text.as_str());
                text
            },
            Statement::Expression(value) => value.debug_str(),
        }
    }
}

impl BlockStatement {
    /// Renders the block's statements, each followed by a semicolon.
    pub fn debug_str(&self) -> (text: String)
        ensures
            text@ == statements_text(self@, self@.len() as int),
        decreases self,
    {
        proof {
            lemma_block_view(*self);
        }
        statements_debug_str(&self.statements)
    }
}

impl Expression {
    /// Renders the expression in its canonical, fully parenthesised form.
    pub fn debug_str(&self) -> (text: String)
        ensures
            text@ == expression_text(self@),
        decreases self,
    {
        proof {
            lemma_expression_view(*self);
        }
        match self {
            Expression::Identifier(name) => name.clone(),
            Expression::IntegerLiteral(value) => integer_to_text(*value),
            Expression::BooleanLiteral(value) => {
                if *value {
                    String::from_str("true")
                } else {
                    String::from_str("false")
                }
            },
            Expression::StringLiteral(value) => value.clone(),
            Expression::ArrayLiteral(items) => {
                let mut text = String::from_str("[");
                let inner = expressions_debug_str(items);
                text.append(inner.as_str());
                text.append("]");
                text
            },
            Expression::HashLiteral(pairs) => {
                let mut text = String::from_str("{");
                let inner = pairs_debug_str(pairs);
                text.append(inner.as_str());
                text.append("}");
                text
            },
            Expression::PrefixOperator { operator, right } => {
                let mut text = String::from_str("(");
                let symbol = operator.debug_str();
                let operand = right.debug_str();
                text.append(symbol.as_str());
                text.append(operand.as_str());
                text.append(")");
                text
            },
            Expression::InfixOperator { operator, left, right } => {
                let mut text = String::from_str("(");
                let first = left.debug_str();
                let symbol = operator.debug_str();
                let second = right.debug_str();
                text.append(first.as_str());
                text.append(" ");
                text.append(symbol.as_str());
                text.append(" ");
                text.append(second.as_str());
                text.append(")");
                text
            },
            Expression::If { condition, consequence, alternative } => {
                let mut text = String::from_str("if (");
                let test = condition.debug_str();
                let first = consequence.debug_str();
                let second = alternative.debug_str();
                text.append(test.as_str());
                text.append(") {");
                text.append(first.as_str());
                text.append("} else {");
                text.append(second.as_str());
                text.append("}");
                text
            },
            Expression::FunctionLiteral { parameters, body } => {
                let mut text = String::from_str("fn(");
                let names = names_debug_str(parameters);
                let inner = body.debug_str();
                text.append(names.as_str());
                text.append(") {");
                text.append(inner.as_str());
                text.append("}");
                text
            },
            Expression::FunctionCall { function, arguments } => {
                let mut text = function.debug_str();
                let inner = expressions_debug_str(arguments);
                text.append("(");
                text.append(inner.as_str());
                text.append(")");
                text
            },
            Expression::Index { left, index } => {
                let mut text = String::from_str("(");
                let container = left.debug_str();
                let position = index.debug_str();
                text.append(container.as_str());
                text.append("[");
                text.append(position.as_str());
                text.append("])");
                text
            },
        }
    }
}

impl AST {
    /// Renders the statements back to back: a semicolon closes every `let`
    /// and `return`, nothing closes an expression statement.
    pub fn debug_str(&self) -> (text: String)
        ensures
            text@ == compact_text(self@, self@.len() as int),
    {
        let mut text = String::new();
        let mut i: usize = 0;
        while i < self.statements.len()
            invariant
                i <= self.statements@.len(),
                text@ == compact_text(statements_view(self.statements@), i as int),
            decreases self.statements@.len() - i,
        {
            let statement = self.statements[i].debug_str();
            text.append(statement.as_str());
            match &self.statements[i] {
                Statement::Expression(_) => {},
                _ => {
                    text.append(";");
                },
            }
            i += 1;
        }
        text
    }
}

/// Whether two lists of names are the same.
pub fn names_same(a: &Vec<String>, b: &Vec<String>) -> (r: bool)
    ensures
        r == (names_view(a@) == names_view(b@)),
{
    if a.len() != b.len() {
        assert(names_view(a@).len() != names_view(b@).len());
        return false;
    }
    let mut i: usize = 0;
    while i < a.len()
        invariant
            i <= a@.len(),
            a@.len() == b@.len(),
            forall|j: int| 0 <= j < i ==> a@[j]@ == b@[j]@,
        decreases a@.len() - i,
    {
        if !str_eq(a[i].as_str(), b[i].as_str()) {
            assert(names_view(a@)[i as int] != names_view(b@)[i as int]);
            return false;
        }
        i += 1;
    }
    assert(names_view(a@) =~= names_view(b@));
    true
}

/// Whether two lists of expressions are the same, item by item.
pub fn expressions_same(a: &Vec<Expression>, b: &Vec<Expression>) -> (r: bool)
    ensures
        r == (expressions_view(a@) == expressions_view(b@)),
    decreases a,
{
    if a.len() != b.len() {
        assert(expressions_view(a@).len() != expressions_view(b@).len());
        return false;
    }
    let mut i: usize = 0;
    while i < a.len()
        invariant
            i <= a@.len(),
            a@.len() == b@.len(),
            forall|j: int| 0 <= j < i ==> a@[j].view() == b@[j].view(),
        decreases a@.len() - i,
    {
        if !a[i].same(&b[i]) {
            assert(expressions_view(a@)[i as int] != expressions_view(b@)[i as int]);
            return false;
        }
        i += 1;
    }
    assert(expressions_view(a@) =~= expressions_view(b@));
    true
}

/// Whether two lists of entries are the same, key by key and value by
/// value.
pub fn pairs_same(a: &Vec<HashLiteralPair>, b: &Vec<HashLiteralPair>) -> (r: bool)
    ensures
        r == (pairs_view(a@) == pairs_view(b@)),
    decreases a,
{
    if a.len() != b.len() {
        assert(pairs_view(a@).len() != pairs_view(b@).len());
        return false;
    }
    let mut i: usize = 0;
    while i < a.len()
        invariant
            i <= a@.len(),
            a@.len() == b@.len(),
            forall|j: int|
                0 <= j < i ==> a@[j].key.view() == b@[j].key.view() && a@[j].value.view()
                    == b@[j].value.view(),
        decreases a@.len() - i,
    {
        if !a[i].key.same(&b[i].key) || !a[i].value.same(&b[i].value) {
            assert(pairs_view(a@)[i as int] != pairs_view(b@)[i as int]);
            return false;
        }
        i += 1;
    }
    assert(pairs_view(a@) =~= pairs_view(b@));
    true
}

/// Whether two lists of statements are the same, statement by statement.
pub fn statements_same(a: &Vec<Statement>, b: &Vec<Statement>) -> (r: bool)
    ensures
        r == (statements_view(a@) == statements_view(b@)),
    decreases a,
{
    if a.len() != b.len() {
        assert(statements_view(a@).len() != statements_view(b@).len());
        return false;
    }
    let mut i: usize = 0;
    while i < a.len()
        invariant
            i <= a@.len(),
            a@.len() == b@.len(),
            forall|j: int| 0 <= j < i ==> a@[j].view() == b@[j].view(),
        decreases a@.len() - i,
    {
        if !a[i].same(&b[i]) {
            assert(statements_view(a@)[i as int] != statements_view(b@)[i as int]);
            return false;
        }
        i += 1;
    }
    assert(statements_view(a@) =~= statements_view(b@));
    true
}

impl Statement {
    /// Whether two statements are the same.
    pub fn same(&self, other: &Statement) -> (r: bool)
        ensures
            r == (self.view() == other.view()),
        decreases self,
    {
        match (self, other) {
            (Statement::Let { name: a, value: x }, Statement::Let { name: b, value: y }) => str_eq(
                a.as_str(),
                b.as_str(),
            ) && x.same(y),
            (Statement::Return(x), Statement::Return(y)) => x.same(y),
            (Statement::Expression(x), Statement::Expression(y)) => x.same(y),
            _ => false,
        }
    }
}

impl BlockStatement {
    /// Whether two blocks hold the same statements.
    pub fn same(&self, other: &BlockStatement) -> (r: bool)
        ensures
            r == (self.view() == other.view()),
        decreases self,
    {
        proof {
            lemma_block_view(*self);
            lemma_block_view(*other);
        }
        statements_same(&self.statements, &other.statements)
    }
}

impl Expression {
    /// Whether two expressions are the same.
    pub fn same(&self, other: &Expression) -> (r: bool)
        ensures
            r == (self.view() == other.view()),
        decreases self,
    {
        proof {
            lemma_expression_view(*self);
            lemma_expression_view(*other);
        }
        match (self, other) {
            (Expression::Identifier(a), Expression::Identifier(b)) => str_eq(
                a.as_str(),
                b.as_str(),
            ),
            (Expression::IntegerLiteral(a), Expression::IntegerLiteral(b)) => *a == *b,
            (Expression::BooleanLiteral(a), Expression::BooleanLiteral(b)) => *a == *b,
            (Expression::StringLiteral(a), Expression::StringLiteral(b)) => str_eq(
                a.as_str(),
                b.as_str(),
            ),
            (Expression::ArrayLiteral(a), Expression::ArrayLiteral(b)) => expressions_same(a, b),
            (Expression::HashLiteral(a), Expression::HashLiteral(b)) => pairs_same(a, b),
            (
                Expression::PrefixOperator { operator: o, right: x },
                Expression::PrefixOperator { operator: p, right: y },
            ) => *o == *p && x.same(y),
            (
                Expression::InfixOperator { operator: o, left: a, right: x },
                Expression::InfixOperator { operator: p, left: b, right: y },
            ) => *o == *p && a.same(b) && x.same(y),
            (
                Expression::If { condition: a, consequence: x, alternative: u },
                Expression::If { condition: b, consequence: y, alternative: v },
            ) => a.same(b) && x.same(y) && u.same(v),
            (
                Expression::FunctionLiteral { parameters: a, body: x },
                Expression::FunctionLiteral { parameters: b, body: y },
            ) => names_same(a, b) && x.same(y),
            (
                Expression::FunctionCall { function: a, arguments: x },
                Expression::FunctionCall { function: b, arguments: y },
            ) => a.same(b) && expressions_same(x, y),
            (
                Expression::Index { left: a, index: x },
                Expression::Index { left: b, index: y },
            ) => a.same(b) && x.same(y),
            _ => false,
        }
    }
}

} // verus!
