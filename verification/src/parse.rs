//! The parser: from tokens to the syntax tree.

pub mod error;
pub mod fixpoint;
pub mod grammar;
pub mod precedence;
pub mod rendering;
pub mod roundtrip;
pub mod spelling;

use std::rc::Rc;
use vstd::prelude::*;
use vstd::string::*;
use crate::ast::{
    expressions_view, lemma_block_view, lemma_expression_view, names_view, pairs_view,
    statements_view, BlockStatement, Expression, ExpressionView, HashLiteralPair,
    InfixOperatorKind, PrefixOperatorKind, Program, Statement, StatementView,
};
use crate::lexer::{scan_all, token_view, tokens_view, Lexer};
use crate::parse::error::Error;
use crate::parse::error::ErrorView;
use crate::parse::grammar::Parsed;
use crate::parse::precedence::Precedence;
use crate::token::{Token, TokenView};

verus! {

/// The outcome of parsing, as values of the grammar: on success the view of
/// what was parsed with the position where parsing stopped.
pub open spec fn parsed<T>(value: Result<T, ErrorView>, pos: int) -> Parsed<T> {
    match value {
        Ok(value) => Ok((value, pos)),
        Err(error) => Err(error),
    }
}

/// The view of an expression or of the error in its place.
pub open spec fn expression_result(r: Result<Expression, Error>) -> Result<
    ExpressionView,
    ErrorView,
> {
    match r {
        Ok(value) => Ok(value@),
        Err(error) => Err(error@),
    }
}

/// The view of a statement or of the error in its place.
pub open spec fn statement_result(r: Result<Statement, Error>) -> Result<StatementView, ErrorView> {
    match r {
        Ok(value) => Ok(value@),
        Err(error) => Err(error@),
    }
}

/// The view of a block or of the error in its place.
pub open spec fn block_result(r: Result<BlockStatement, Error>) -> Result<
    Seq<StatementView>,
    ErrorView,
> {
    match r {
        Ok(value) => Ok(value@),
        Err(error) => Err(error@),
    }
}

/// The view of a list of expressions or of the error in its place.
pub open spec fn expressions_result(r: Result<Vec<Expression>, Error>) -> Result<
    Seq<ExpressionView>,
    ErrorView,
> {
    match r {
        Ok(value) => Ok(expressions_view(value@)),
        Err(error) => Err(error@),
    }
}

/// The view of a list of names or of the error in its place.
pub open spec fn names_result(r: Result<Vec<String>, Error>) -> Result<Seq<Seq<char>>, ErrorView> {
    match r {
        Ok(value) => Ok(names_view(value@)),
        Err(error) => Err(error@),
    }
}

/// The view of a program or of the error in its place.
pub open spec fn program_result(r: Result<Program, Error>) -> Result<
    Seq<StatementView>,
    ErrorView,
> {
    match r {
        Ok(value) => Ok(value@),
        Err(error) => Err(error@),
    }
}

/// Reads a non-empty string of decimal digits as a signed 64-bit integer.
pub fn parse_integer(digits: &str) -> (value: Option<i64>)
    ensures
        value == grammar::decimal_value(digits.spec_bytes()),
{
    let bytes = digits.as_bytes();
    if bytes.len() == 0 {
        return None;
    }
    let mut total: i128 = 0;
    let mut i: usize = 0;
    while i < bytes.len()
        invariant
            i <= bytes@.len(),
            bytes@ == digits.spec_bytes(),
            forall|j: int| 0 <= j < i ==> 48 <= #[trigger] bytes@[j] <= 57,
            total == grammar::digits_value(bytes@, i as int),
            0 <= total <= i64::MAX,
        decreases bytes@.len() - i,
    {
        let digit = bytes[i];
        if digit < 48 || digit > 57 {
            return None;
        }
        total = total * 10 + (digit - 48) as i128;
        if total > i64::MAX as i128 {
            proof {
                lemma_digits_value_grows(bytes@, i as int + 1, bytes@.len() as int);
            }
            return None;
        }
        i += 1;
    }
    Some(total as i64)
}

/// Among decimal digits, the value of a longer prefix is at least that of a
/// shorter one.
pub proof fn lemma_digits_value_grows(digits: Seq<u8>, shorter: int, longer: int)
    requires
        0 <= shorter <= longer <= digits.len(),
        grammar::digits_value(digits, shorter) >= 0,
    ensures
        grammar::all_digits(digits) ==> grammar::digits_value(digits, shorter)
            <= grammar::digits_value(digits, longer),
    decreases longer - shorter,
{
    if shorter < longer && grammar::all_digits(digits) {
        lemma_digits_value_grows(digits, shorter, longer - 1);
        assert(48 <= digits[longer - 1] <= 57);
    }
}

/// A Pratt parser over the tokens of one source text.
pub struct Parser {
    tokens: Vec<Token>,
    position: usize,
}

impl Parser {
    #[verifier::type_invariant]
    spec fn in_bounds(self) -> bool {
        self.position <= self.tokens@.len()
    }

    /// The tokens of the source text.
    pub closed spec fn tokens(&self) -> Seq<TokenView> {
        tokens_view(self.tokens@)
    }

    /// The position of the current token.
    pub closed spec fn position(&self) -> int {
        self.position as int
    }

    /// A parser at the first of the tokens that `lexer` still has to yield.
    pub fn new(lexer: Lexer) -> (parser: Self)
        ensures
            parser.tokens() == scan_all(lexer.input(), lexer.position()),
            parser.position() == 0,
    {
        Parser { tokens: lexer.collect(), position: 0 }
    }

    /// Moves to the next token; at the end of the tokens the parser stays.
    pub fn step(&mut self)
        ensures
            final(self).tokens() == old(self).tokens(),
            final(self).position() == grammar::step(old(self).tokens(), old(self).position()),
    {
        proof {
            use_type_invariant(&*self);
        }
        if self.position < self.tokens.len() {
            self.position += 1;
        }
    }

    /// The current token, or `None` at the end of the tokens.
    pub fn get_current_token(&self) -> (token: Option<&Token>)
        ensures
            (match token {
                Some(token) => Some(token@),
                None => None,
            }) == grammar::token_at(self.tokens(), self.position()),
    {
        proof {
            use_type_invariant(self);
        }
        if self.position < self.tokens.len() {
            Some(&self.tokens[self.position])
        } else {
            None
        }
    }

    /// The token after the current one, or `None` if there is none.
    pub fn get_peek_token(&self) -> (token: Option<&Token>)
        ensures
            (match token {
                Some(token) => Some(token@),
                None => None,
            }) == grammar::token_at(self.tokens(), self.position() + 1),
    {
        proof {
            use_type_invariant(self);
        }
        if self.position < self.tokens.len() && self.position + 1 < self.tokens.len() {
            Some(&self.tokens[self.position + 1])
        } else {
            None
        }
    }

    /// The precedence of the token after the current one.
    pub fn peek_precedence(&self) -> (precedence: Option<Precedence>)
        ensures
            precedence == (match grammar::token_at(self.tokens(), self.position() + 1) {
                Some(token) => Some(crate::parse::precedence::precedence_of(token)),
                None => None,
            }),
    {
        match self.get_peek_token() {
            Some(token) => Some(Precedence::from_token(token)),
            None => None,
        }
    }

    fn current(&self) -> (token: Option<Token>)
        ensures
            token_view(token) == grammar::token_at(self.tokens(), self.position()),
    {
        match self.get_current_token() {
            Some(token) => Some(token.duplicate()),
            None => None,
        }
    }

    fn peek(&self) -> (token: Option<Token>)
        ensures
            token_view(token) == grammar::token_at(self.tokens(), self.position() + 1),
    {
        match self.get_peek_token() {
            Some(token) => Some(token.duplicate()),
            None => None,
        }
    }

    fn current_is(&self, expected: &Token) -> (r: bool)
        ensures
            r == (grammar::token_at(self.tokens(), self.position()) == Some(expected@)),
    {
        match self.get_current_token() {
            Some(token) => token.same(expected),
            None => false,
        }
    }

    fn peek_is(&self, expected: &Token) -> (r: bool)
        ensures
            r == (grammar::token_at(self.tokens(), self.position() + 1) == Some(expected@)),
    {
        match self.get_peek_token() {
            Some(token) => token.same(expected),
            None => false,
        }
    }

    fn unexpected_peek(&self) -> (error: Error)
        ensures
            error@ == crate::parse::error::unexpected(
                grammar::token_at(self.tokens(), self.position() + 1),
            ),
    {
        Error::unexpected_token(self.get_peek_token())
    }

    fn unexpected_current(&self) -> (error: Error)
        ensures
            error@ == crate::parse::error::unexpected(
                grammar::token_at(self.tokens(), self.position()),
            ),
    {
        Error::unexpected_token(self.get_current_token())
    }

    fn skip_semicolon(&mut self)
        ensures
            final(self).tokens() == old(self).tokens(),
            final(self).position() == grammar::skip_semicolon(
                old(self).tokens(),
                old(self).position(),
            ),
    {
        if self.peek_is(&Token::Semicolon) {
            self.step();
        }
    }

    /// Parses the tokens from the current one to the last as a program.
    pub fn parse_program(&mut self) -> (r: Result<Program, Error>)
        ensures
            final(self).tokens() == old(self).tokens(),
            program_result(r) == grammar::program(
                old(self).tokens(),
                old(self).position(),
                Seq::empty(),
            ),
    {
        let mut statements: Vec<Statement> = Vec::new();
        assert(statements_view(statements@) =~= Seq::empty());
        loop
            invariant
                self.tokens() == old(self).tokens(),
                grammar::program(old(self).tokens(), old(self).position(), Seq::empty())
                    == grammar::program(
                    self.tokens(),
                    self.position(),
                    statements_view(statements@),
                ),
            decreases self.tokens().len() - self.position(),
        {
            proof {
                use_type_invariant(&*self);
            }
            if self.get_current_token().is_none() {
                return Ok(Program { statements });
            }
            let ghost before = self.position();
            let ghost done = statements_view(statements@);
            let statement = match self.parse_statement() {
                Ok(statement) => statement,
                Err(error) => {
                    return Err(error);
                },
            };
            proof {
                use_type_invariant(&*self);
            }
            statements.push(statement);
            assert(statements_view(statements@) =~= done.push(statement@));
            self.step();
        }
    }

    fn parse_statement(&mut self) -> (r: Result<Statement, Error>)
        ensures
            final(self).tokens() == old(self).tokens(),
            parsed(statement_result(r), final(self).position()) == grammar::statement(
                old(self).tokens(),
                old(self).position(),
            ),
            r is Ok ==> final(self).position() >= old(self).position(),
        decreases old(self).tokens().len() - old(self).position(), 19int,
    {
        match self.current() {
            Some(Token::Let) => self.parse_let_statement(),
            Some(Token::Return) => self.parse_return_statement(),
            _ => {
                let expression = match self.parse_expression(Precedence::Lowest) {
                    Ok(expression) => expression,
                    Err(error) => {
                        return Err(error);
                    },
                };
                self.skip_semicolon();
                Ok(Statement::Expression(expression))
            },
        }
    }

    fn parse_let_statement(&mut self) -> (r: Result<Statement, Error>)
        ensures
            final(self).tokens() == old(self).tokens(),
            parsed(statement_result(r), final(self).position()) == grammar::let_statement(
                old(self).tokens(),
                old(self).position(),
            ),
            r is Ok ==> final(self).position() >= old(self).position(),
        decreases old(self).tokens().len() - old(self).position(), 18int,
    {
        proof {
            use_type_invariant(&*self);
        }
        self.step();
        let name = match self.current() {
            Some(Token::Ident(name)) => name,
            _ => {
                return Err(self.unexpected_current());
            },
        };
        if !self.peek_is(&Token::Assign) {
            return Err(self.unexpected_peek());
        }
        self.step();
        self.step();
        let value = match self.parse_expression(Precedence::Lowest) {
            Ok(value) => value,
            Err(error) => {
                return Err(error);
            },
        };
        self.skip_semicolon();
        Ok(Statement::Let { name, value })
    }

    fn parse_return_statement(&mut self) -> (r: Result<Statement, Error>)
        ensures
            final(self).tokens() == old(self).tokens(),
            parsed(statement_result(r), final(self).position()) == grammar::return_statement(
                old(self).tokens(),
                old(self).position(),
            ),
            r is Ok ==> final(self).position() >= old(self).position(),
        decreases old(self).tokens().len() - old(self).position(), 18int,
    {
        proof {
            use_type_invariant(&*self);
        }
        if self.get_current_token().is_none() {
            return Err(Error::NotAnExpression(None));
        }
        self.step();
        let value = match self.parse_expression(Precedence::Lowest) {
            Ok(value) => value,
            Err(error) => {
                return Err(error);
            },
        };
        self.skip_semicolon();
        Ok(Statement::Return(value))
    }

    fn parse_expression(&mut self, precedence: Precedence) -> (r: Result<Expression, Error>)
        ensures
            final(self).tokens() == old(self).tokens(),
            parsed(expression_result(r), final(self).position()) == grammar::expression(
                old(self).tokens(),
                old(self).position(),
                precedence,
            ),
            r is Ok ==> final(self).position() >= old(self).position(),
        decreases old(self).tokens().len() - old(self).position(), 17int,
    {
        let mut left = match self.parse_prefix() {
            Ok(left) => left,
            Err(error) => {
                return Err(error);
            },
        };
        loop
            invariant
                self.tokens() == old(self).tokens(),
                self.position() >= old(self).position(),
                grammar::expression(old(self).tokens(), old(self).position(), precedence)
                    == grammar::continuation(self.tokens(), self.position(), precedence, left@),
            decreases self.tokens().len() - self.position(),
        {
            proof {
                use_type_invariant(&*self);
            }
            if self.peek_is(&Token::Semicolon) {
                return Ok(left);
            }
            if precedence.level() >= Precedence::from_optional(self.get_peek_token()).level() {
                return Ok(left);
            }
            let continues = match self.get_peek_token() {
                Some(token) => token.is_infix(),
                None => false,
            };
            if !continues {
                return Ok(left);
            }
            self.step();
            left = match self.parse_infix(left) {
                Ok(grown) => grown,
                Err(error) => {
                    return Err(error);
                },
            };
            proof {
                use_type_invariant(&*self);
            }
        }
    }

    fn parse_prefix(&mut self) -> (r: Result<Expression, Error>)
        ensures
            final(self).tokens() == old(self).tokens(),
            parsed(expression_result(r), final(self).position()) == grammar::prefix(
                old(self).tokens(),
                old(self).position(),
            ),
            r is Ok ==> final(self).position() >= old(self).position(),
        decreases old(self).tokens().len() - old(self).position(), 15int,
    {
        match self.current() {
            Some(Token::Ident(name)) => Ok(Expression::Identifier(name)),
            Some(Token::String(value)) => Ok(Expression::StringLiteral(value)),
            Some(Token::Int(digits)) => match parse_integer(digits.as_str()) {
                Some(value) => Ok(Expression::IntegerLiteral(value)),
                None => Err(Error::IntegerOverflow(digits)),
            },
            Some(Token::Bang) | Some(Token::Minus) => self.parse_prefix_operator(),
            Some(Token::True) => Ok(Expression::BooleanLiteral(true)),
            Some(Token::False) => Ok(Expression::BooleanLiteral(false)),
            Some(Token::Lparen) => self.parse_grouped(),
            Some(Token::LBracket) => self.parse_array_literal(),
            Some(Token::Lsquigly) => self.parse_hash_literal(),
            Some(Token::If) => self.parse_if_expression(),
            Some(Token::Function) => self.parse_function_literal(),
            other => Err(Error::NotAnExpression(other)),
        }
    }

    fn parse_infix(&mut self, left: Expression) -> (r: Result<Expression, Error>)
        ensures
            final(self).tokens() == old(self).tokens(),
            parsed(expression_result(r), final(self).position()) == grammar::infix(
                old(self).tokens(),
                old(self).position(),
                left@,
            ),
            r is Ok ==> final(self).position() >= old(self).position(),
        decreases old(self).tokens().len() - old(self).position(), 15int,
    {
        match self.current() {
            Some(Token::Plus)
            | Some(Token::Minus)
            | Some(Token::Asterisk)
            | Some(Token::Slash)
            | Some(Token::Eq)
            | Some(Token::NotEq)
            | Some(Token::Lt)
            | Some(Token::Gt) => self.parse_infix_operator(left),
            Some(Token::Lparen) => self.parse_call_expression(left),
            Some(Token::LBracket) => self.parse_index_expression(left),
            _ => Ok(left),
        }
    }

    fn parse_prefix_operator(&mut self) -> (r: Result<Expression, Error>)
        ensures
            final(self).tokens() == old(self).tokens(),
            parsed(expression_result(r), final(self).position()) == grammar::prefix_operator(
                old(self).tokens(),
                old(self).position(),
            ),
            r is Ok ==> final(self).position() >= old(self).position(),
        decreases old(self).tokens().len() - old(self).position(), 14int,
    {
        proof {
            use_type_invariant(&*self);
        }
        let operator = match self.current() {
            Some(Token::Bang) => PrefixOperatorKind::Not,
            Some(Token::Minus) => PrefixOperatorKind::Negative,
            _ => {
                return Err(self.unexpected_current());
            },
        };
        self.step();
        match self.parse_expression(Precedence::Prefix) {
            Ok(right) => Ok(Expression::PrefixOperator { operator, right: Box::new(right) }),
            Err(error) => Err(error),
        }
    }

    fn parse_infix_operator(&mut self, left: Expression) -> (r: Result<Expression, Error>)
        ensures
            final(self).tokens() == old(self).tokens(),
            parsed(expression_result(r), final(self).position()) == grammar::infix_operator(
                old(self).tokens(),
                old(self).position(),
                left@,
            ),
            r is Ok ==> final(self).position() >= old(self).position(),
        decreases old(self).tokens().len() - old(self).position(), 14int,
    {
        proof {
            use_type_invariant(&*self);
        }
        let operator = match self.current() {
            Some(Token::Plus) => InfixOperatorKind::Add,
            Some(Token::Minus) => InfixOperatorKind::Subtract,
            Some(Token::Asterisk) => InfixOperatorKind::Multiply,
            Some(Token::Slash) => InfixOperatorKind::Divide,
            Some(Token::Eq) => InfixOperatorKind::Equal,
            Some(Token::NotEq) => InfixOperatorKind::NotEqual,
            Some(Token::Gt) => InfixOperatorKind::GreaterThan,
            Some(Token::Lt) => InfixOperatorKind::LessThan,
            _ => {
                return Err(self.unexpected_current());
            },
        };
        let precedence = Precedence::from_optional(self.get_current_token());
        self.step();
        match self.parse_expression(precedence) {
            Ok(right) => Ok(
                Expression::InfixOperator {
                    operator,
                    left: Box::new(left),
                    right: Box::new(right),
                },
            ),
            Err(error) => Err(error),
        }
    }

    fn parse_grouped(&mut self) -> (r: Result<Expression, Error>)
        ensures
            final(self).tokens() == old(self).tokens(),
            parsed(expression_result(r), final(self).position()) == grammar::grouped(
                old(self).tokens(),
                old(self).position(),
            ),
            r is Ok ==> final(self).position() >= old(self).position(),
        decreases old(self).tokens().len() - old(self).position(), 14int,
    {
        proof {
            use_type_invariant(&*self);
        }
        if self.get_current_token().is_none() {
            return Err(Error::NotAnExpression(None));
        }
        self.step();
        let expression = match self.parse_expression(Precedence::Lowest) {
            Ok(expression) => expression,
            Err(error) => {
                return Err(error);
            },
        };
        if self.peek_is(&Token::Rparen) {
            self.step();
            Ok(expression)
        } else {
            Err(self.unexpected_peek())
        }
    }

    #[verifier::rlimit(60)]
    fn parse_if_expression(&mut self) -> (r: Result<Expression, Error>)
        ensures
            final(self).tokens() == old(self).tokens(),
            parsed(expression_result(r), final(self).position()) == grammar::if_expression(
                old(self).tokens(),
                old(self).position(),
            ),
            r is Ok ==> final(self).position() >= old(self).position(),
        decreases old(self).tokens().len() - old(self).position(), 14int,
    {
        proof {
            use_type_invariant(&*self);
        }
        if !self.peek_is(&Token::Lparen) {
            return Err(self.unexpected_peek());
        }
        self.step();
        self.step();
        let condition = match self.parse_expression(Precedence::Lowest) {
            Ok(condition) => condition,
            Err(error) => {
                return Err(error);
            },
        };
        proof {
            use_type_invariant(&*self);
        }
        if !self.peek_is(&Token::Rparen) {
            return Err(self.unexpected_peek());
        }
        self.step();
        if !self.peek_is(&Token::Lsquigly) {
            return Err(self.unexpected_peek());
        }
        self.step();
        let consequence = match self.parse_block_statement() {
            Ok(block) => block,
            Err(error) => {
                return Err(error);
            },
        };
        proof {
            use_type_invariant(&*self);
        }
        if !self.current_is(&Token::Rsquigly) {
            return Err(self.unexpected_current());
        }
        if self.peek_is(&Token::Else) {
            self.step();
            if !self.peek_is(&Token::Lsquigly) {
                return Err(self.unexpected_peek());
            }
            self.step();
            let alternative = match self.parse_block_statement() {
                Ok(block) => block,
                Err(error) => {
                    return Err(error);
                },
            };
            if !self.current_is(&Token::Rsquigly) {
                return Err(self.unexpected_current());
            }
            Ok(Expression::If { condition: Box::new(condition), consequence, alternative })
        } else {
            let alternative = BlockStatement { statements: Rc::new(Vec::new()) };
            assert(alternative@ =~= Seq::empty());
            Ok(Expression::If { condition: Box::new(condition), consequence, alternative })
        }
    }

    fn parse_function_literal(&mut self) -> (r: Result<Expression, Error>)
        ensures
            final(self).tokens() == old(self).tokens(),
            parsed(expression_result(r), final(self).position()) == grammar::function_literal(
                old(self).tokens(),
                old(self).position(),
            ),
            r is Ok ==> final(self).position() >= old(self).position(),
        decreases old(self).tokens().len() - old(self).position(), 14int,
    {
        proof {
            use_type_invariant(&*self);
        }
        if !self.peek_is(&Token::Lparen) {
            return Err(self.unexpected_peek());
        }
        self.step();
        let parameters = match self.parse_function_parameters() {
            Ok(parameters) => parameters,
            Err(error) => {
                return Err(error);
            },
        };
        proof {
            use_type_invariant(&*self);
        }
        if !self.peek_is(&Token::Lsquigly) {
            return Err(self.unexpected_peek());
        }
        self.step();
        match self.parse_block_statement() {
            Ok(body) => Ok(Expression::FunctionLiteral { parameters, body }),
            Err(error) => Err(error),
        }
    }

    fn parse_ident(&self) -> (r: Result<String, Error>)
        ensures
            (match r {
                Ok(name) => Ok(name@),
                Err(error) => Err(error@),
            }) == grammar::identifier_of(grammar::token_at(self.tokens(), self.position())),
    {
        match self.current() {
            Some(Token::Ident(name)) => Ok(name),
            _ => Err(self.unexpected_current()),
        }
    }

    fn parse_function_parameters(&mut self) -> (r: Result<Vec<String>, Error>)
        ensures
            final(self).tokens() == old(self).tokens(),
            parsed(names_result(r), final(self).position()) == grammar::function_parameters(
                old(self).tokens(),
                old(self).position(),
            ),
            r is Ok ==> final(self).position() >= old(self).position(),
    {
        let mut identifiers: Vec<String> = Vec::new();
        self.step();
        if self.current_is(&Token::Rparen) {
            assert(names_view(identifiers@) =~= Seq::empty());
            return Ok(identifiers);
        }
        let first = match self.parse_ident() {
            Ok(name) => name,
            Err(error) => {
                return Err(error);
            },
        };
        identifiers.push(first);
        assert(names_view(identifiers@) =~= seq![first@]);
        while self.peek_is(&Token::Comma)
            invariant
                self.tokens() == old(self).tokens(),
                self.position() >= old(self).position(),
                grammar::function_parameters(old(self).tokens(), old(self).position())
                    == grammar::more_parameters(
                    self.tokens(),
                    self.position(),
                    names_view(identifiers@),
                ),
            decreases self.tokens().len() - self.position(),
        {
            proof {
                use_type_invariant(&*self);
            }
            self.step();
            self.step();
            let ghost done = names_view(identifiers@);
            let name = match self.parse_ident() {
                Ok(name) => name,
                Err(error) => {
                    return Err(error);
                },
            };
            identifiers.push(name);
            assert(names_view(identifiers@) =~= done.push(name@));
        }
        if !self.peek_is(&Token::Rparen) {
            return Err(self.unexpected_peek());
        }
        self.step();
        Ok(identifiers)
    }

    fn parse_block_statement(&mut self) -> (r: Result<BlockStatement, Error>)
        ensures
            final(self).tokens() == old(self).tokens(),
            parsed(block_result(r), final(self).position()) == grammar::block(
                old(self).tokens(),
                old(self).position(),
            ),
            r is Ok ==> final(self).position() >= old(self).position(),
        decreases old(self).tokens().len() - old(self).position(), 21int,
    {
        proof {
            use_type_invariant(&*self);
        }
        let mut statements: Vec<Statement> = Vec::new();
        assert(statements_view(statements@) =~= Seq::empty());
        if self.get_current_token().is_none() {
            let block = BlockStatement { statements: Rc::new(statements) };
            proof {
                lemma_block_view(block);
            }
            return Ok(block);
        }
        self.step();
        loop
            invariant
                self.tokens() == old(self).tokens(),
                old(self).position() < self.position(),
                grammar::block(old(self).tokens(), old(self).position())
                    == grammar::block_statements(
                    self.tokens(),
                    self.position(),
                    statements_view(statements@),
                ),
            decreases self.tokens().len() - self.position(),
        {
            proof {
                use_type_invariant(&*self);
            }
            if self.get_current_token().is_none() || self.current_is(&Token::Rsquigly) {
                let block = BlockStatement { statements: Rc::new(statements) };
                proof {
                    lemma_block_view(block);
                }
                return Ok(block);
            }
            let ghost done = statements_view(statements@);
            let statement = match self.parse_statement() {
                Ok(statement) => statement,
                Err(error) => {
                    return Err(error);
                },
            };
            proof {
                use_type_invariant(&*self);
            }
            statements.push(statement);
            assert(statements_view(statements@) =~= done.push(statement@));
            self.step();
        }
    }

    fn parse_call_expression(&mut self, left: Expression) -> (r: Result<Expression, Error>)
        ensures
            final(self).tokens() == old(self).tokens(),
            parsed(expression_result(r), final(self).position()) == grammar::call_expression(
                old(self).tokens(),
                old(self).position(),
                left@,
            ),
            r is Ok ==> final(self).position() >= old(self).position(),
        decreases old(self).tokens().len() - old(self).position(), 14int,
    {
        match self.parse_expression_list(Token::Rparen) {
            Ok(arguments) => {
                let call = Expression::FunctionCall { function: Box::new(left), arguments };
                proof {
                    lemma_expression_view(call);
                }
                Ok(call)
            },
            Err(error) => Err(error),
        }
    }

    fn parse_expression_list(&mut self, end: Token) -> (r: Result<Vec<Expression>, Error>)
        ensures
            final(self).tokens() == old(self).tokens(),
            parsed(expressions_result(r), final(self).position()) == grammar::expression_list(
                old(self).tokens(),
                old(self).position(),
                end@,
            ),
            r is Ok ==> final(self).position() >= old(self).position(),
        decreases old(self).tokens().len() - old(self).position(), 13int,
    {
        proof {
            use_type_invariant(&*self);
        }
        let mut list: Vec<Expression> = Vec::new();
        let at_end = self.get_current_token().is_none();
        self.step();
        if self.current_is(&end) {
            assert(expressions_view(list@) =~= Seq::empty());
            return Ok(list);
        }
        if at_end {
            return Err(Error::NotAnExpression(None));
        }
        let first = match self.parse_expression(Precedence::Lowest) {
            Ok(first) => first,
            Err(error) => {
                return Err(error);
            },
        };
        proof {
            use_type_invariant(&*self);
        }
        list.push(first);
        assert(expressions_view(list@) =~= seq![first@]);
        while self.peek_is(&Token::Comma)
            invariant
                self.tokens() == old(self).tokens(),
                self.position() > old(self).position(),
                grammar::expression_list(old(self).tokens(), old(self).position(), end@)
                    == grammar::more_expressions(
                    self.tokens(),
                    self.position(),
                    end@,
                    expressions_view(list@),
                ),
            decreases self.tokens().len() - self.position(),
        {
            proof {
                use_type_invariant(&*self);
            }
            self.step();
            self.step();
            let ghost done = expressions_view(list@);
            let next = match self.parse_expression(Precedence::Lowest) {
                Ok(next) => next,
                Err(error) => {
                    return Err(error);
                },
            };
            proof {
                use_type_invariant(&*self);
            }
            list.push(next);
            assert(expressions_view(list@) =~= done.push(next@));
        }
        if !self.peek_is(&end) {
            return Err(self.unexpected_peek());
        }
        self.step();
        Ok(list)
    }

    fn parse_array_literal(&mut self) -> (r: Result<Expression, Error>)
        ensures
            final(self).tokens() == old(self).tokens(),
            parsed(expression_result(r), final(self).position()) == grammar::array_literal(
                old(self).tokens(),
                old(self).position(),
            ),
            r is Ok ==> final(self).position() >= old(self).position(),
        decreases old(self).tokens().len() - old(self).position(), 14int,
    {
        match self.parse_expression_list(Token::RBracket) {
            Ok(elements) => {
                let array = Expression::ArrayLiteral(elements);
                proof {
                    lemma_expression_view(array);
                }
                Ok(array)
            },
            Err(error) => Err(error),
        }
    }

    fn parse_index_expression(&mut self, left: Expression) -> (r: Result<Expression, Error>)
        ensures
            final(self).tokens() == old(self).tokens(),
            parsed(expression_result(r), final(self).position()) == grammar::index_expression(
                old(self).tokens(),
                old(self).position(),
                left@,
            ),
            r is Ok ==> final(self).position() >= old(self).position(),
        decreases old(self).tokens().len() - old(self).position(), 14int,
    {
        proof {
            use_type_invariant(&*self);
        }
        if self.get_current_token().is_none() {
            return Err(Error::NotAnExpression(None));
        }
        self.step();
        let index = match self.parse_expression(Precedence::Lowest) {
            Ok(index) => index,
            Err(error) => {
                return Err(error);
            },
        };
        if !self.peek_is(&Token::RBracket) {
            return Err(self.unexpected_peek());
        }
        self.step();
        Ok(Expression::Index { left: Box::new(left), index: Box::new(index) })
    }

    fn parse_hash_literal(&mut self) -> (r: Result<Expression, Error>)
        ensures
            final(self).tokens() == old(self).tokens(),
            parsed(expression_result(r), final(self).position()) == grammar::hash_literal(
                old(self).tokens(),
                old(self).position(),
            ),
            r is Ok ==> final(self).position() >= old(self).position(),
        decreases old(self).tokens().len() - old(self).position(), 14int,
    {
        let mut pairs: Vec<HashLiteralPair> = Vec::new();
        assert(pairs_view(pairs@) =~= Seq::empty());
        loop
            invariant
                self.tokens() == old(self).tokens(),
                self.position() >= old(self).position(),
                grammar::hash_literal(old(self).tokens(), old(self).position()) == (
                match grammar::hash_pairs(self.tokens(), self.position(), pairs_view(pairs@)) {
                    Err(error) => Err(error),
                    Ok((entries, last)) => Ok((ExpressionView::HashLiteral(entries), last)),
                }),
            decreases self.tokens().len() - self.position(),
        {
            proof {
                use_type_invariant(&*self);
            }
            if self.peek_is(&Token::Rsquigly) {
                self.step();
                let hash = Expression::HashLiteral(pairs);
                proof {
                    lemma_expression_view(hash);
                }
                return Ok(hash);
            }
            if self.get_current_token().is_none() {
                return Err(Error::NotAnExpression(None));
            }
            self.step();
            let key = match self.parse_expression(Precedence::Lowest) {
                Ok(key) => key,
                Err(error) => {
                    return Err(error);
                },
            };
            proof {
                use_type_invariant(&*self);
            }
            if !self.peek_is(&Token::Colon) {
                return Err(self.unexpected_peek());
            }
            self.step();
            self.step();
            let value = match self.parse_expression(Precedence::Lowest) {
                Ok(value) => value,
                Err(error) => {
                    return Err(error);
                },
            };
            proof {
                use_type_invariant(&*self);
            }
            let ghost done = pairs_view(pairs@);
            let ghost entry = (key@, value@);
            pairs.push(HashLiteralPair { key, value });
            assert(pairs_view(pairs@) =~= done.push(entry));
            if self.peek_is(&Token::Rsquigly) {
                self.step();
                let hash = Expression::HashLiteral(pairs);
                proof {
                    lemma_expression_view(hash);
                }
                return Ok(hash);
            }
            if !self.peek_is(&Token::Comma) {
                return Err(self.unexpected_peek());
            }
            self.step();
        }
    }
}

/// Parses a source text.
pub fn parse(input: &str) -> (r: Result<Program, Error>)
    ensures
        program_result(r) == grammar::parse_tokens(scan_all(input.spec_bytes(), 0)),
{
    let mut parser = Parser::new(Lexer::new(input));
    parser.parse_program()
}

} // verus!
