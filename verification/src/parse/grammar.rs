//! The grammar, as mathematical functions from a token sequence and a
//! position to the syntax tree that starts there and the position of its last
//! token.

use vstd::prelude::*;
use vstd::utf8::encode_utf8;
use crate::ast::{ExpressionView, InfixOperatorKind, PrefixOperatorKind, StatementView};
use crate::parse::error::{unexpected, ErrorView};
use crate::parse::precedence::{precedence_level, precedence_of, precedence_of_optional, Precedence};
use crate::token::{is_infix_token, TokenView};

verus! {

/// What a parsing function returns: a value with the position where parsing
/// stopped, or an error.
pub type Parsed<T> = Result<(T, int), ErrorView>;

/// The token at `pos`, or `None` past the end.
pub open spec fn token_at(tokens: Seq<TokenView>, pos: int) -> Option<TokenView> {
    if 0 <= pos < tokens.len() {
        Some(tokens[pos])
    } else {
        None
    }
}

/// The position after `pos`; the end of the tokens is never left.
pub open spec fn step(tokens: Seq<TokenView>, pos: int) -> int {
    if pos < tokens.len() {
        pos + 1
    } else {
        pos
    }
}

/// The position after an optional semicolon that follows `pos`.
pub open spec fn skip_semicolon(tokens: Seq<TokenView>, pos: int) -> int {
    if token_at(tokens, pos + 1) == Some(TokenView::Semicolon) {
        step(tokens, pos)
    } else {
        pos
    }
}

/// The value of the first `upto` decimal digits.
pub open spec fn digits_value(digits: Seq<u8>, upto: int) -> int
    decreases upto,
{
    if upto <= 0 {
        0
    } else {
        digits_value(digits, upto - 1) * 10 + (digits[upto - 1] - 48)
    }
}

/// Every byte is an ASCII decimal digit.
pub open spec fn all_digits(digits: Seq<u8>) -> bool {
    forall|i: int| 0 <= i < digits.len() ==> 48 <= #[trigger] digits[i] <= 57
}

/// The number that a non-empty string of decimal digits denotes, if it fits
/// a signed 64-bit integer.
pub open spec fn decimal_value(digits: Seq<u8>) -> Option<i64> {
    if digits.len() > 0 && all_digits(digits) && digits_value(digits, digits.len() as int)
        <= i64::MAX {
        Some(digits_value(digits, digits.len() as int) as i64)
    } else {
        None
    }
}

/// The prefix operator that a token denotes.
pub open spec fn prefix_operator_of(token: Option<TokenView>) -> Option<PrefixOperatorKind> {
    match token {
        Some(TokenView::Bang) => Some(PrefixOperatorKind::Not),
        Some(TokenView::Minus) => Some(PrefixOperatorKind::Negative),
        _ => None,
    }
}

/// The binary operator that a token denotes.
pub open spec fn infix_operator_of(token: Option<TokenView>) -> Option<InfixOperatorKind> {
    match token {
        Some(TokenView::Plus) => Some(InfixOperatorKind::Add),
        Some(TokenView::Minus) => Some(InfixOperatorKind::Subtract),
        Some(TokenView::Asterisk) => Some(InfixOperatorKind::Multiply),
        Some(TokenView::Slash) => Some(InfixOperatorKind::Divide),
        Some(TokenView::Eq) => Some(InfixOperatorKind::Equal),
        Some(TokenView::NotEq) => Some(InfixOperatorKind::NotEqual),
        Some(TokenView::Gt) => Some(InfixOperatorKind::GreaterThan),
        Some(TokenView::Lt) => Some(InfixOperatorKind::LessThan),
        _ => None,
    }
}

/// The name of an identifier token.
pub open spec fn identifier_of(token: Option<TokenView>) -> Result<Seq<char>, ErrorView> {
    match token {
        Some(TokenView::Ident(name)) => Ok(name),
        other => Err(unexpected(other)),
    }
}

/// A program: statements up to the end of the tokens. `done` holds the
/// statements parsed before `pos`.
pub open spec fn program(tokens: Seq<TokenView>, pos: int, done: Seq<StatementView>) -> Result<
    Seq<StatementView>,
    ErrorView,
>
    decreases tokens.len() - pos, 20int,
{
    if token_at(tokens, pos) is None {
        Ok(done)
    } else {
        match statement(tokens, pos) {
            Err(error) => Err(error),
            Ok((parsed, last)) => if pos <= last <= tokens.len() {
                program(tokens, step(tokens, last), done.push(parsed))
            } else {
                Ok(done.push(parsed))
            },
        }
    }
}

/// The statements of a block, up to a closing brace or the end of the
/// tokens. `done` holds the statements parsed before `pos`.
pub open spec fn block_statements(
    tokens: Seq<TokenView>,
    pos: int,
    done: Seq<StatementView>,
) -> Parsed<Seq<StatementView>>
    decreases tokens.len() - pos, 20int,
{
    if token_at(tokens, pos) is None || token_at(tokens, pos) == Some(TokenView::Rsquigly) {
        Ok((done, pos))
    } else {
        match statement(tokens, pos) {
            Err(error) => Err(error),
            Ok((parsed, last)) => if pos <= last <= tokens.len() {
                block_statements(tokens, step(tokens, last), done.push(parsed))
            } else {
                Ok((done.push(parsed), last))
            },
        }
    }
}

/// A block, whose opening brace is at `pos`. Parsing stops at the closing
/// brace or at the end of the tokens.
pub open spec fn block(tokens: Seq<TokenView>, pos: int) -> Parsed<Seq<StatementView>>
    decreases tokens.len() - pos, 21int,
{
    if step(tokens, pos) > pos {
        block_statements(tokens, step(tokens, pos), Seq::empty())
    } else {
        Ok((Seq::empty(), pos))
    }
}

/// A statement that starts at `pos`, with the semicolon that may follow it.
pub open spec fn statement(tokens: Seq<TokenView>, pos: int) -> Parsed<StatementView>
    decreases tokens.len() - pos, 19int,
{
    match token_at(tokens, pos) {
        Some(TokenView::Let) => let_statement(tokens, pos),
        Some(TokenView::Return) => return_statement(tokens, pos),
        _ => match expression(tokens, pos, Precedence::Lowest) {
            Err(error) => Err(error),
            Ok((value, last)) => Ok(
                (StatementView::Expression(value), skip_semicolon(tokens, last)),
            ),
        },
    }
}

/// A `let` statement, whose keyword is at `pos`.
pub open spec fn let_statement(tokens: Seq<TokenView>, pos: int) -> Parsed<StatementView>
    decreases tokens.len() - pos, 18int,
{
    match identifier_of(token_at(tokens, step(tokens, pos))) {
        Err(error) => Err(error),
        Ok(name) => if token_at(tokens, step(tokens, pos) + 1) != Some(TokenView::Assign) {
            Err(unexpected(token_at(tokens, step(tokens, pos) + 1)))
        } else if step(tokens, pos) + 2 > pos {
            match expression(tokens, step(tokens, pos) + 2, Precedence::Lowest) {
                Err(error) => Err(error),
                Ok((value, last)) => Ok(
                    (StatementView::Let { name, value }, skip_semicolon(tokens, last)),
                ),
            }
        } else {
            Err(ErrorView::UnexpectedEof)
        },
    }
}

/// A `return` statement, whose keyword is at `pos`.
pub open spec fn return_statement(tokens: Seq<TokenView>, pos: int) -> Parsed<StatementView>
    decreases tokens.len() - pos, 18int,
{
    if step(tokens, pos) > pos {
        match expression(tokens, step(tokens, pos), Precedence::Lowest) {
            Err(error) => Err(error),
            Ok((value, last)) => Ok((StatementView::Return(value), skip_semicolon(tokens, last))),
        }
    } else {
        Err(ErrorView::NotAnExpression(None))
    }
}

/// An expression that starts at `pos` and takes in every operator to its
/// right that binds more strongly than `precedence`.
pub open spec fn expression(tokens: Seq<TokenView>, pos: int, precedence: Precedence) -> Parsed<
    ExpressionView,
>
    decreases tokens.len() - pos, 17int,
{
    match prefix(tokens, pos) {
        Err(error) => Err(error),
        Ok((left, last)) => if pos <= last <= tokens.len() {
            continuation(tokens, last, precedence, left)
        } else {
            Ok((left, last))
        },
    }
}

/// The expression that `left`, which ends at `pos`, grows into by the
/// operators, calls and index accesses that follow it and bind more strongly
/// than `precedence`.
pub open spec fn continuation(
    tokens: Seq<TokenView>,
    pos: int,
    precedence: Precedence,
    left: ExpressionView,
) -> Parsed<ExpressionView>
    decreases tokens.len() - pos, 16int,
{
    let peek = token_at(tokens, pos + 1);
    if peek != Some(TokenView::Semicolon) && precedence_level(precedence) < precedence_level(
        precedence_of_optional(peek),
    ) {
        if !(peek is Some && is_infix_token(peek->0)) {
            Ok((left, pos))
        } else {
            match infix(tokens, pos + 1, left) {
                Err(error) => Err(error),
                Ok((grown, last)) => if pos < last <= tokens.len() {
                    continuation(tokens, last, precedence, grown)
                } else {
                    Ok((grown, last))
                },
            }
        }
    } else {
        Ok((left, pos))
    }
}

/// An expression without a left operand, which starts at `pos`.
pub open spec fn prefix(tokens: Seq<TokenView>, pos: int) -> Parsed<ExpressionView>
    decreases tokens.len() - pos, 15int,
{
    match token_at(tokens, pos) {
        Some(TokenView::Ident(name)) => Ok((ExpressionView::Identifier(name), pos)),
        Some(TokenView::Str(value)) => Ok((ExpressionView::StringLiteral(value), pos)),
        Some(TokenView::Int(digits)) => match decimal_value(encode_utf8(digits)) {
            Some(value) => Ok((ExpressionView::IntegerLiteral(value), pos)),
            None => Err(ErrorView::IntegerOverflow(digits)),
        },
        Some(TokenView::Bang) | Some(TokenView::Minus) => prefix_operator(tokens, pos),
        Some(TokenView::True) => Ok((ExpressionView::BooleanLiteral(true), pos)),
        Some(TokenView::False) => Ok((ExpressionView::BooleanLiteral(false), pos)),
        Some(TokenView::Lparen) => grouped(tokens, pos),
        Some(TokenView::LBracket) => array_literal(tokens, pos),
        Some(TokenView::Lsquigly) => hash_literal(tokens, pos),
        Some(TokenView::If) => if_expression(tokens, pos),
        Some(TokenView::Function) => function_literal(tokens, pos),
        other => Err(ErrorView::NotAnExpression(other)),
    }
}

/// The expression that an operator, an opening parenthesis or an opening
/// bracket at `pos` makes of `left`.
pub open spec fn infix(tokens: Seq<TokenView>, pos: int, left: ExpressionView) -> Parsed<
    ExpressionView,
>
    decreases tokens.len() - pos, 15int,
{
    match token_at(tokens, pos) {
        Some(TokenView::Plus)
        | Some(TokenView::Minus)
        | Some(TokenView::Asterisk)
        | Some(TokenView::Slash)
        | Some(TokenView::Eq)
        | Some(TokenView::NotEq)
        | Some(TokenView::Lt)
        | Some(TokenView::Gt) => infix_operator(tokens, pos, left),
        Some(TokenView::Lparen) => call_expression(tokens, pos, left),
        Some(TokenView::LBracket) => index_expression(tokens, pos, left),
        _ => Ok((left, pos)),
    }
}

/// A prefix operator at `pos` with its operand.
pub open spec fn prefix_operator(tokens: Seq<TokenView>, pos: int) -> Parsed<ExpressionView>
    decreases tokens.len() - pos, 14int,
{
    match prefix_operator_of(token_at(tokens, pos)) {
        None => Err(unexpected(token_at(tokens, pos))),
        Some(operator) => match expression(tokens, pos + 1, Precedence::Prefix) {
            Err(error) => Err(error),
            Ok((right, last)) => Ok(
                (ExpressionView::PrefixOperator { operator, right: Box::new(right) }, last),
            ),
        },
    }
}

/// A binary operator at `pos` with its right operand; the operator's own
/// precedence bounds the operand, so that equal operators group to the left.
pub open spec fn infix_operator(tokens: Seq<TokenView>, pos: int, left: ExpressionView) -> Parsed<
    ExpressionView,
>
    decreases tokens.len() - pos, 14int,
{
    match infix_operator_of(token_at(tokens, pos)) {
        None => Err(unexpected(token_at(tokens, pos))),
        Some(operator) => match expression(
            tokens,
            pos + 1,
            precedence_of_optional(token_at(tokens, pos)),
        ) {
            Err(error) => Err(error),
            Ok((right, last)) => Ok(
                (
                    ExpressionView::InfixOperator {
                        operator,
                        left: Box::new(left),
                        right: Box::new(right),
                    },
                    last,
                ),
            ),
        },
    }
}

/// A parenthesised expression, whose opening parenthesis is at `pos`.
pub open spec fn grouped(tokens: Seq<TokenView>, pos: int) -> Parsed<ExpressionView>
    decreases tokens.len() - pos, 14int,
{
    if step(tokens, pos) > pos {
        match expression(tokens, step(tokens, pos), Precedence::Lowest) {
            Err(error) => Err(error),
            Ok((inner, last)) => if token_at(tokens, last + 1) == Some(TokenView::Rparen) {
                Ok((inner, step(tokens, last)))
            } else {
                Err(unexpected(token_at(tokens, last + 1)))
            },
        }
    } else {
        Err(ErrorView::NotAnExpression(None))
    }
}

/// A conditional, whose `if` is at `pos`. Without an `else` the alternative
/// is empty.
pub open spec fn if_expression(tokens: Seq<TokenView>, pos: int) -> Parsed<ExpressionView>
    decreases tokens.len() - pos, 14int,
{
    if token_at(tokens, pos + 1) != Some(TokenView::Lparen) {
        Err(unexpected(token_at(tokens, pos + 1)))
    } else {
        match expression(tokens, pos + 2, Precedence::Lowest) {
            Err(error) => Err(error),
            Ok((condition, test_end)) => if token_at(tokens, test_end + 1) != Some(
                TokenView::Rparen,
            ) {
                Err(unexpected(token_at(tokens, test_end + 1)))
            } else if token_at(tokens, test_end + 2) != Some(TokenView::Lsquigly) {
                Err(unexpected(token_at(tokens, test_end + 2)))
            } else if test_end < pos {
                Err(ErrorView::UnexpectedEof)
            } else {
                match block(tokens, test_end + 2) {
                    Err(error) => Err(error),
                    Ok((consequence, first_end)) => if token_at(tokens, first_end) != Some(
                        TokenView::Rsquigly,
                    ) {
                        Err(unexpected(token_at(tokens, first_end)))
                    } else if token_at(tokens, first_end + 1) == Some(TokenView::Else) {
                        if token_at(tokens, first_end + 2) != Some(TokenView::Lsquigly) {
                            Err(unexpected(token_at(tokens, first_end + 2)))
                        } else if first_end < pos {
                            Err(ErrorView::UnexpectedEof)
                        } else {
                            match block(tokens, first_end + 2) {
                                Err(error) => Err(error),
                                Ok((alternative, second_end)) => if token_at(tokens, second_end)
                                    != Some(TokenView::Rsquigly) {
                                    Err(unexpected(token_at(tokens, second_end)))
                                } else {
                                    Ok(
                                        (
                                            ExpressionView::If {
                                                condition: Box::new(condition),
                                                consequence,
                                                alternative,
                                            },
                                            second_end,
                                        ),
                                    )
                                },
                            }
                        }
                    } else {
                        Ok(
                            (
                                ExpressionView::If {
                                    condition: Box::new(condition),
                                    consequence,
                                    alternative: Seq::empty(),
                                },
                                first_end,
                            ),
                        )
                    },
                }
            },
        }
    }
}

/// A function literal, whose `fn` is at `pos`. Parsing stops where the
/// body's block stops.
pub open spec fn function_literal(tokens: Seq<TokenView>, pos: int) -> Parsed<ExpressionView>
    decreases tokens.len() - pos, 14int,
{
    if token_at(tokens, pos + 1) != Some(TokenView::Lparen) {
        Err(unexpected(token_at(tokens, pos + 1)))
    } else {
        match function_parameters(tokens, pos + 1) {
            Err(error) => Err(error),
            Ok((parameters, names_end)) => if token_at(tokens, names_end + 1) != Some(
                TokenView::Lsquigly,
            ) {
                Err(unexpected(token_at(tokens, names_end + 1)))
            } else if names_end < pos {
                Err(ErrorView::UnexpectedEof)
            } else {
                match block(tokens, names_end + 1) {
                    Err(error) => Err(error),
                    Ok((body, last)) => Ok(
                        (ExpressionView::FunctionLiteral { parameters, body }, last),
                    ),
                }
            },
        }
    }
}

/// The parameter names of a function literal, whose opening parenthesis is
/// at `pos`. Parsing stops at the closing parenthesis.
pub open spec fn function_parameters(tokens: Seq<TokenView>, pos: int) -> Parsed<Seq<Seq<char>>> {
    if token_at(tokens, step(tokens, pos)) == Some(TokenView::Rparen) {
        Ok((Seq::empty(), step(tokens, pos)))
    } else {
        match identifier_of(token_at(tokens, step(tokens, pos))) {
            Err(error) => Err(error),
            Ok(name) => more_parameters(tokens, step(tokens, pos), seq![name]),
        }
    }
}

/// The parameter names that follow the name at `pos`, each after a comma, up
/// to the closing parenthesis.
pub open spec fn more_parameters(tokens: Seq<TokenView>, pos: int, done: Seq<Seq<char>>) -> Parsed<
    Seq<Seq<char>>,
>
    decreases tokens.len() - pos,
{
    if token_at(tokens, pos + 1) == Some(TokenView::Comma) {
        match identifier_of(token_at(tokens, pos + 2)) {
            Err(error) => Err(error),
            Ok(name) => more_parameters(tokens, pos + 2, done.push(name)),
        }
    } else if token_at(tokens, pos + 1) != Some(TokenView::Rparen) {
        Err(unexpected(token_at(tokens, pos + 1)))
    } else {
        Ok((done, pos + 1))
    }
}

/// A call of `left`, whose opening parenthesis is at `pos`.
pub open spec fn call_expression(tokens: Seq<TokenView>, pos: int, left: ExpressionView) -> Parsed<
    ExpressionView,
>
    decreases tokens.len() - pos, 14int,
{
    match expression_list(tokens, pos, TokenView::Rparen) {
        Err(error) => Err(error),
        Ok((arguments, last)) => Ok(
            (ExpressionView::FunctionCall { function: Box::new(left), arguments }, last),
        ),
    }
}

/// An array literal, whose opening bracket is at `pos`.
pub open spec fn array_literal(tokens: Seq<TokenView>, pos: int) -> Parsed<ExpressionView>
    decreases tokens.len() - pos, 14int,
{
    match expression_list(tokens, pos, TokenView::RBracket) {
        Err(error) => Err(error),
        Ok((items, last)) => Ok((ExpressionView::ArrayLiteral(items), last)),
    }
}

/// Expressions separated by commas, between the opening token at `pos` and
/// the closing token `end`.
pub open spec fn expression_list(tokens: Seq<TokenView>, pos: int, end: TokenView) -> Parsed<
    Seq<ExpressionView>,
>
    decreases tokens.len() - pos, 13int,
{
    if token_at(tokens, step(tokens, pos)) == Some(end) {
        Ok((Seq::empty(), step(tokens, pos)))
    } else if step(tokens, pos) > pos {
        match expression(tokens, step(tokens, pos), Precedence::Lowest) {
            Err(error) => Err(error),
            Ok((first, last)) => if pos < last <= tokens.len() {
                more_expressions(tokens, last, end, seq![first])
            } else {
                Ok((seq![first], last))
            },
        }
    } else {
        Err(ErrorView::NotAnExpression(None))
    }
}

/// The expressions that follow the expression ending at `pos`, each after a
/// comma, up to the closing token `end`.
pub open spec fn more_expressions(
    tokens: Seq<TokenView>,
    pos: int,
    end: TokenView,
    done: Seq<ExpressionView>,
) -> Parsed<Seq<ExpressionView>>
    decreases tokens.len() - pos, 12int,
{
    if token_at(tokens, pos + 1) == Some(TokenView::Comma) {
        match expression(tokens, step(tokens, pos + 1), Precedence::Lowest) {
            Err(error) => Err(error),
            Ok((next, last)) => if pos < last <= tokens.len() {
                more_expressions(tokens, last, end, done.push(next))
            } else {
                Ok((done.push(next), last))
            },
        }
    } else if token_at(tokens, pos + 1) != Some(end) {
        Err(unexpected(token_at(tokens, pos + 1)))
    } else {
        Ok((done, pos + 1))
    }
}

/// An index access into `left`, whose opening bracket is at `pos`.
pub open spec fn index_expression(tokens: Seq<TokenView>, pos: int, left: ExpressionView) -> Parsed<
    ExpressionView,
>
    decreases tokens.len() - pos, 14int,
{
    if step(tokens, pos) > pos {
        match expression(tokens, step(tokens, pos), Precedence::Lowest) {
            Err(error) => Err(error),
            Ok((index, last)) => if token_at(tokens, last + 1) != Some(TokenView::RBracket) {
                Err(unexpected(token_at(tokens, last + 1)))
            } else {
                Ok(
                    (
                        ExpressionView::Index { left: Box::new(left), index: Box::new(index) },
                        last + 1,
                    ),
                )
            },
        }
    } else {
        Err(ErrorView::NotAnExpression(None))
    }
}

/// A hash literal, whose opening brace is at `pos`.
pub open spec fn hash_literal(tokens: Seq<TokenView>, pos: int) -> Parsed<ExpressionView>
    decreases tokens.len() - pos, 14int,
{
    match hash_pairs(tokens, pos, Seq::empty()) {
        Err(error) => Err(error),
        Ok((pairs, last)) => Ok((ExpressionView::HashLiteral(pairs), last)),
    }
}

/// The `key: value` entries of a hash literal that follow `pos`, which holds
/// the opening brace or the comma after an entry, up to the closing brace. A
/// comma may follow the last entry.
pub open spec fn hash_pairs(
    tokens: Seq<TokenView>,
    pos: int,
    done: Seq<(ExpressionView, ExpressionView)>,
) -> Parsed<Seq<(ExpressionView, ExpressionView)>>
    decreases tokens.len() - pos, 13int,
{
    if token_at(tokens, pos + 1) == Some(TokenView::Rsquigly) {
        Ok((done, pos + 1))
    } else if step(tokens, pos) > pos {
        match expression(tokens, step(tokens, pos), Precedence::Lowest) {
            Err(error) => Err(error),
            Ok((key, key_end)) => if token_at(tokens, key_end + 1) != Some(TokenView::Colon) {
                Err(unexpected(token_at(tokens, key_end + 1)))
            } else if key_end < pos {
                Err(ErrorView::UnexpectedEof)
            } else {
                match expression(tokens, step(tokens, key_end + 1), Precedence::Lowest) {
                    Err(error) => Err(error),
                    Ok((value, value_end)) => if token_at(tokens, value_end + 1) == Some(
                        TokenView::Rsquigly,
                    ) {
                        Ok((done.push((key, value)), value_end + 1))
                    } else if token_at(tokens, value_end + 1) != Some(TokenView::Comma) {
                        Err(unexpected(token_at(tokens, value_end + 1)))
                    } else if value_end < pos {
                        Err(ErrorView::UnexpectedEof)
                    } else {
                        hash_pairs(tokens, value_end + 1, done.push((key, value)))
                    },
                }
            },
        }
    } else {
        Err(ErrorView::NotAnExpression(None))
    }
}

/// The program that a token sequence spells.
pub open spec fn parse_tokens(tokens: Seq<TokenView>) -> Result<Seq<StatementView>, ErrorView> {
    program(tokens, 0, Seq::empty())
}

/// Operators of equal precedence group to the left, and so does a weaker
/// operator after a stronger one: where `left` is followed by a binary
/// operator, an identifier and a second binary operator that binds no more
/// strongly than the first, the first operator takes the identifier alone as
/// its right operand, and parsing goes on from there with the two grouped.
pub proof fn law_left_associative(
    tokens: Seq<TokenView>,
    pos: int,
    precedence: Precedence,
    left: ExpressionView,
)
    requires
        0 <= pos,
        pos + 3 < tokens.len(),
        infix_operator_of(token_at(tokens, pos + 1)) is Some,
        tokens[pos + 2] is Ident,
        infix_operator_of(token_at(tokens, pos + 3)) is Some,
        precedence_level(precedence_of(tokens[pos + 3])) <= precedence_level(
            precedence_of(tokens[pos + 1]),
        ),
        precedence_level(precedence) < precedence_level(precedence_of(tokens[pos + 1])),
    ensures
        continuation(tokens, pos, precedence, left) == continuation(
            tokens,
            pos + 2,
            precedence,
            ExpressionView::InfixOperator {
                operator: infix_operator_of(token_at(tokens, pos + 1))->0,
                left: Box::new(left),
                right: Box::new(ExpressionView::Identifier(tokens[pos + 2]->Ident_0)),
            },
        ),
{
    let first = tokens[pos + 1];
    let operand = ExpressionView::Identifier(tokens[pos + 2]->Ident_0);
    assert(token_at(tokens, pos + 1) == Some(first));
    assert(is_infix_token(first));
    assert(prefix(tokens, pos + 2) == Ok::<(ExpressionView, int), ErrorView>((operand, pos + 2)));
    assert(continuation(tokens, pos + 2, precedence_of(first), operand) == Ok::<
        (ExpressionView, int),
        ErrorView,
    >((operand, pos + 2)));
    assert(expression(tokens, pos + 2, precedence_of(first)) == Ok::<
        (ExpressionView, int),
        ErrorView,
    >((operand, pos + 2)));
    let grown = ExpressionView::InfixOperator {
        operator: infix_operator_of(token_at(tokens, pos + 1))->0,
        left: Box::new(left),
        right: Box::new(operand),
    };
    assert(infix_operator(tokens, pos + 1, left) == Ok::<(ExpressionView, int), ErrorView>(
        (grown, pos + 2),
    ));
    assert(infix(tokens, pos + 1, left) == infix_operator(tokens, pos + 1, left));
}

} // verus!
