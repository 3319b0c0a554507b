//! The canonical token rendering of syntax trees, and the proof that the
//! parser reads it back.

use vstd::prelude::*;
use vstd::utf8::encode_utf8;
use crate::ast::{ExpressionView, InfixOperatorKind, PrefixOperatorKind, StatementView};
use crate::parse::error::ErrorView;
use crate::parse::grammar::{
    all_digits, array_literal, block, block_statements, call_expression, continuation,
    decimal_value, digits_value, expression, expression_list, function_literal, function_parameters,
    grouped, hash_literal, hash_pairs, identifier_of, if_expression, index_expression, infix,
    infix_operator, infix_operator_of, let_statement, more_expressions, more_parameters,
    parse_tokens, prefix, prefix_operator, prefix_operator_of, program, return_statement, statement,
    token_at,
};
use crate::parse::precedence::{precedence_level, precedence_of, Precedence};
use crate::text::{
    integer_digits, integer_text, lemma_ascii_text, lemma_natural_digits_ascii, natural_digits,
};
use crate::token::{is_infix_token, TokenView};

verus! {

/// The token of a prefix operator.
pub open spec fn prefix_operator_token(operator: PrefixOperatorKind) -> TokenView {
    match operator {
        PrefixOperatorKind::Not => TokenView::Bang,
        PrefixOperatorKind::Negative => TokenView::Minus,
    }
}

/// The token of a binary operator.
pub open spec fn infix_operator_token(operator: InfixOperatorKind) -> TokenView {
    match operator {
        InfixOperatorKind::Add => TokenView::Plus,
        InfixOperatorKind::Subtract => TokenView::Minus,
        InfixOperatorKind::Multiply => TokenView::Asterisk,
        InfixOperatorKind::Divide => TokenView::Slash,
        InfixOperatorKind::Equal => TokenView::Eq,
        InfixOperatorKind::NotEqual => TokenView::NotEq,
        InfixOperatorKind::GreaterThan => TokenView::Gt,
        InfixOperatorKind::LessThan => TokenView::Lt,
    }
}

/// The first `upto` names, separated by commas.
pub open spec fn names_tokens(names: Seq<Seq<char>>, upto: int) -> Seq<TokenView>
    decreases upto,
{
    if upto <= 0 || upto > names.len() {
        Seq::empty()
    } else if upto == 1 {
        seq![TokenView::Ident(names[0])]
    } else {
        names_tokens(names, upto - 1) + seq![TokenView::Comma, TokenView::Ident(names[upto - 1])]
    }
}

/// The canonical tokens of an expression: those of its canonical rendering,
/// in which every operation and every index access stands in parentheses.
pub open spec fn expression_tokens(expression: ExpressionView) -> Seq<TokenView>
    decreases expression, 0int,
{
    match expression {
        ExpressionView::Identifier(name) => seq![TokenView::Ident(name)],
        ExpressionView::IntegerLiteral(value) => seq![TokenView::Int(integer_text(value as int))],
        ExpressionView::BooleanLiteral(value) => seq![
            if value {
                TokenView::True
            } else {
                TokenView::False
            },
        ],
        ExpressionView::StringLiteral(value) => seq![TokenView::Str(value)],
        ExpressionView::ArrayLiteral(items) => seq![TokenView::LBracket] + expressions_tokens(
            items,
            items.len() as int,
        ) + seq![TokenView::RBracket],
        ExpressionView::HashLiteral(pairs) => seq![TokenView::Lsquigly] + pairs_tokens(
            pairs,
            pairs.len() as int,
        ) + seq![TokenView::Rsquigly],
        ExpressionView::PrefixOperator { operator, right } => seq![
            TokenView::Lparen,
            prefix_operator_token(operator),
        ] + expression_tokens(*right) + seq![TokenView::Rparen],
        ExpressionView::InfixOperator { operator, left, right } => seq![TokenView::Lparen]
            + expression_tokens(*left) + seq![infix_operator_token(operator)] + expression_tokens(
            *right,
        ) + seq![TokenView::Rparen],
        ExpressionView::If { condition, consequence, alternative } => seq![
            TokenView::If,
            TokenView::Lparen,
        ] + expression_tokens(*condition) + seq![TokenView::Rparen, TokenView::Lsquigly]
            + statements_tokens(consequence, consequence.len() as int) + seq![
            TokenView::Rsquigly,
            TokenView::Else,
            TokenView::Lsquigly,
        ] + statements_tokens(alternative, alternative.len() as int) + seq![TokenView::Rsquigly],
        ExpressionView::FunctionLiteral { parameters, body } => seq![
            TokenView::Function,
            TokenView::Lparen,
        ] + names_tokens(parameters, parameters.len() as int) + seq![
            TokenView::Rparen,
            TokenView::Lsquigly,
        ] + statements_tokens(body, body.len() as int) + seq![TokenView::Rsquigly],
        ExpressionView::FunctionCall { function, arguments } => expression_tokens(*function)
            + seq![TokenView::Lparen] + expressions_tokens(arguments, arguments.len() as int)
            + seq![TokenView::Rparen],
        ExpressionView::Index { left, index } => seq![TokenView::Lparen] + expression_tokens(*left)
            + seq![TokenView::LBracket] + expression_tokens(*index) + seq![
            TokenView::RBracket,
            TokenView::Rparen,
        ],
    }
}

/// The canonical tokens of the first `upto` expressions, separated by
/// commas.
pub open spec fn expressions_tokens(items: Seq<ExpressionView>, upto: int) -> Seq<TokenView>
    decreases items, upto,
{
    if upto <= 0 || upto > items.len() {
        Seq::empty()
    } else if upto == 1 {
        expression_tokens(items[0])
    } else {
        expressions_tokens(items, upto - 1) + seq![TokenView::Comma] + expression_tokens(
            items[upto - 1],
        )
    }
}

/// The canonical tokens of the first `upto` entries of a hash literal, each
/// as key, colon, value, separated by commas.
pub open spec fn pairs_tokens(pairs: Seq<(ExpressionView, ExpressionView)>, upto: int) -> Seq<
    TokenView,
>
    decreases pairs, upto,
{
    if upto <= 0 || upto > pairs.len() {
        Seq::empty()
    } else if upto == 1 {
        expression_tokens(pairs[0].0) + seq![TokenView::Colon] + expression_tokens(pairs[0].1)
    } else {
        pairs_tokens(pairs, upto - 1) + seq![TokenView::Comma] + expression_tokens(
            pairs[upto - 1].0,
        ) + seq![TokenView::Colon] + expression_tokens(pairs[upto - 1].1)
    }
}

/// The canonical tokens of a statement, closed by a semicolon.
pub open spec fn statement_tokens(statement: StatementView) -> Seq<TokenView>
    decreases statement, 0int,
{
    match statement {
        StatementView::Let { name, value } => seq![
            TokenView::Let,
            TokenView::Ident(name),
            TokenView::Assign,
        ] + expression_tokens(value) + seq![TokenView::Semicolon],
        StatementView::Return(value) => seq![TokenView::Return] + expression_tokens(value) + seq![
            TokenView::Semicolon,
        ],
        StatementView::Expression(value) => expression_tokens(value) + seq![TokenView::Semicolon],
    }
}

/// The canonical tokens of the first `upto` statements.
pub open spec fn statements_tokens(statements: Seq<StatementView>, upto: int) -> Seq<TokenView>
    decreases statements, upto,
{
    if upto <= 0 || upto > statements.len() {
        Seq::empty()
    } else {
        statements_tokens(statements, upto - 1) + statement_tokens(statements[upto - 1])
    }
}

/// Whether an expression can be the outcome of parsing: no integer literal
/// in it is negative.
pub open spec fn canonical(expression: ExpressionView) -> bool
    decreases expression, 0int,
{
    match expression {
        ExpressionView::IntegerLiteral(value) => value >= 0,
        ExpressionView::ArrayLiteral(items) => forall|i: int|
            0 <= i < items.len() ==> canonical(#[trigger] items[i]),
        ExpressionView::HashLiteral(pairs) => forall|i: int|
            0 <= i < pairs.len() ==> canonical((#[trigger] pairs[i]).0) && canonical(pairs[i].1),
        ExpressionView::PrefixOperator { operator, right } => canonical(*right),
        ExpressionView::InfixOperator { operator, left, right } => canonical(*left) && canonical(
            *right,
        ),
        ExpressionView::If { condition, consequence, alternative } => canonical(*condition)
            && canonical_statements(consequence) && canonical_statements(alternative),
        ExpressionView::FunctionLiteral { parameters, body } => canonical_statements(body),
        ExpressionView::FunctionCall { function, arguments } => canonical(*function) && forall|
            i: int,
        |
            0 <= i < arguments.len() ==> canonical(#[trigger] arguments[i]),
        ExpressionView::Index { left, index } => canonical(*left) && canonical(*index),
        _ => true,
    }
}

/// Whether a statement can be the outcome of parsing.
pub open spec fn canonical_statement(statement: StatementView) -> bool
    decreases statement, 0int,
{
    match statement {
        StatementView::Let { name, value } => canonical(value),
        StatementView::Return(value) => canonical(value),
        StatementView::Expression(value) => canonical(value),
    }
}

/// Whether statements can be the outcome of parsing.
pub open spec fn canonical_statements(statements: Seq<StatementView>) -> bool
    decreases statements, 1int,
{
    forall|i: int| 0 <= i < statements.len() ==> canonical_statement(#[trigger] statements[i])
}

/// Whether `piece` stands in `tokens` from `pos` on.
#[verifier::opaque]
pub open spec fn stands(tokens: Seq<TokenView>, pos: int, piece: Seq<TokenView>) -> bool {
    &&& 0 <= pos
    &&& pos + piece.len() <= tokens.len()
    &&& forall|i: int| 0 <= i < piece.len() ==> tokens[pos + i] == #[trigger] piece[i]
}

/// Where two pieces stand one after the other, each of them stands.
pub proof fn lemma_stands_split(
    tokens: Seq<TokenView>,
    pos: int,
    first: Seq<TokenView>,
    second: Seq<TokenView>,
)
    requires
        stands(tokens, pos, first + second),
    ensures
        stands(tokens, pos, first),
        stands(tokens, pos + first.len(), second),
{
    reveal(stands);
    let both = first + second;
    assert forall|i: int| 0 <= i < first.len() implies tokens[pos + i] == #[trigger] first[i] by {
        assert(both[i] == first[i]);
    }
    assert forall|i: int| 0 <= i < second.len() implies tokens[pos + first.len() + i]
        == #[trigger] second[i] by {
        assert(both[first.len() + i] == second[i]);
    }
}

/// Whether a token can be the first of an expression's canonical tokens.
pub open spec fn starts_expression(token: TokenView) -> bool {
    token is Ident || token is Int || token is True || token is False || token is Str
        || token is LBracket || token is Lsquigly || token is Lparen || token is If
        || token is Function
}

/// The canonical tokens of an expression begin with a token that only an
/// expression begins with.
pub proof fn lemma_first_token(expression: ExpressionView)
    ensures
        expression_tokens(expression).len() >= 1,
        starts_expression(expression_tokens(expression)[0]),
    decreases expression,
{
    match expression {
        ExpressionView::FunctionCall { function, arguments } => {
            lemma_first_token(*function);
        },
        _ => {},
    }
}

/// The value of decimal digits depends on the digits that are counted only.
proof fn lemma_digits_value_prefix(first: Seq<u8>, second: Seq<u8>, upto: int)
    requires
        upto <= first.len(),
        upto <= second.len(),
        forall|i: int| 0 <= i < upto ==> first[i] == second[i],
    ensures
        digits_value(first, upto) == digits_value(second, upto),
    decreases upto,
{
    if upto > 0 {
        lemma_digits_value_prefix(first, second, upto - 1);
    }
}

/// The decimal digits of a natural number are digits, and denote it.
pub proof fn lemma_natural_digits_value(n: nat)
    ensures
        all_digits(natural_digits(n)),
        natural_digits(n).len() >= 1,
        digits_value(natural_digits(n), natural_digits(n).len() as int) == n,
    decreases n,
{
    if n >= 10 {
        lemma_natural_digits_value(n / 10);
        let shorter = natural_digits(n / 10);
        let longer = natural_digits(n);
        assert(longer == shorter.push((48 + n % 10) as u8));
        lemma_digits_value_prefix(longer, shorter, shorter.len() as int);
        assert forall|i: int| 0 <= i < longer.len() implies 48 <= #[trigger] longer[i] <= 57 by {
            if i < shorter.len() {
                assert(longer[i] == shorter[i]);
            }
        }
        let last = shorter.len() as int;
        assert(longer[last] == (48 + n % 10) as u8);
        assert(digits_value(longer, last + 1) == digits_value(longer, last) * 10 + (longer[last]
            - 48));
        assert(digits_value(longer, last) == n / 10);
        assert(n == (n / 10) * 10 + n % 10);
    } else {
        let digits = natural_digits(n);
        assert(digits[0] == (48 + n) as u8);
        assert(digits_value(digits, 1) == digits_value(digits, 0) * 10 + (digits[0] - 48));
    }
}

/// The canonical token of an integer literal that is not negative is read
/// back as the literal.
pub proof fn lemma_integer_token(value: i64)
    requires
        value >= 0,
    ensures
        decimal_value(encode_utf8(integer_text(value as int))) == Some(value),
{
    let digits = natural_digits(value as nat);
    lemma_natural_digits_value(value as nat);
    lemma_natural_digits_ascii(value as nat);
    lemma_ascii_text(digits);
    assert(integer_digits(value as int) == digits);
}

/// Each operator is the operator of its token, and its token continues an
/// expression with a precedence between that of `==` and that of `*`.
pub proof fn lemma_operator_tokens(prefix: PrefixOperatorKind, infix: InfixOperatorKind)
    ensures
        prefix_operator_of(Some(prefix_operator_token(prefix))) == Some(prefix),
        infix_operator_of(Some(infix_operator_token(infix))) == Some(infix),
        is_infix_token(infix_operator_token(infix)),
        1 <= precedence_level(precedence_of(infix_operator_token(infix))) <= 4,
        infix_operator_token(infix) != TokenView::Semicolon,
{
}

/// Whether a token ends an expression whatever the precedence: the end of
/// the tokens, or a token that continues no expression.
pub open spec fn closes(token: Option<TokenView>) -> bool {
    token is None || precedence_level(precedence_of(token->0)) == 0
}

/// An expression that is followed by a closing token is not continued.
pub proof fn lemma_continuation_stops(
    tokens: Seq<TokenView>,
    pos: int,
    precedence: Precedence,
    left: ExpressionView,
)
    requires
        closes(token_at(tokens, pos + 1)),
    ensures
        continuation(tokens, pos, precedence, left) == Ok::<(ExpressionView, int), ErrorView>(
            (left, pos),
        ),
{
}

/// Where the first `longer` expressions stand, the first `shorter` stand.
proof fn lemma_expressions_prefix(
    tokens: Seq<TokenView>,
    pos: int,
    items: Seq<ExpressionView>,
    shorter: int,
    longer: int,
)
    requires
        0 <= shorter <= longer <= items.len(),
        stands(tokens, pos, expressions_tokens(items, longer)),
    ensures
        stands(tokens, pos, expressions_tokens(items, shorter)),
    decreases longer - shorter,
{
    if shorter < longer {
        if longer == 1 {
            lemma_stands_split(tokens, pos, Seq::empty(), expression_tokens(items[0]));
        } else {
            lemma_stands_split(
                tokens,
                pos,
                expressions_tokens(items, longer - 1) + seq![TokenView::Comma],
                expression_tokens(items[longer - 1]),
            );
            lemma_stands_split(
                tokens,
                pos,
                expressions_tokens(items, longer - 1),
                seq![TokenView::Comma],
            );
            lemma_expressions_prefix(tokens, pos, items, shorter, longer - 1);
        }
    }
}

/// Where the first `longer` statements stand, the first `shorter` stand.
proof fn lemma_statements_prefix(
    tokens: Seq<TokenView>,
    pos: int,
    statements: Seq<StatementView>,
    shorter: int,
    longer: int,
)
    requires
        0 <= shorter <= longer <= statements.len(),
        stands(tokens, pos, statements_tokens(statements, longer)),
    ensures
        stands(tokens, pos, statements_tokens(statements, shorter)),
    decreases longer - shorter,
{
    if shorter < longer {
        lemma_stands_split(
            tokens,
            pos,
            statements_tokens(statements, longer - 1),
            statement_tokens(statements[longer - 1]),
        );
        lemma_statements_prefix(tokens, pos, statements, shorter, longer - 1);
    }
}

/// Where the first `longer` names stand, the first `shorter` stand.
proof fn lemma_names_prefix(
    tokens: Seq<TokenView>,
    pos: int,
    names: Seq<Seq<char>>,
    shorter: int,
    longer: int,
)
    requires
        0 <= shorter <= longer <= names.len(),
        stands(tokens, pos, names_tokens(names, longer)),
    ensures
        stands(tokens, pos, names_tokens(names, shorter)),
    decreases longer - shorter,
{
    if shorter < longer {
        if longer == 1 {
            lemma_stands_split(tokens, pos, Seq::empty(), seq![TokenView::Ident(names[0])]);
        } else {
            lemma_stands_split(
                tokens,
                pos,
                names_tokens(names, longer - 1),
                seq![TokenView::Comma, TokenView::Ident(names[longer - 1])],
            );
            lemma_names_prefix(tokens, pos, names, shorter, longer - 1);
        }
    }
}

/// Where the first `longer` entries stand, the first `shorter` stand.
proof fn lemma_pairs_prefix(
    tokens: Seq<TokenView>,
    pos: int,
    pairs: Seq<(ExpressionView, ExpressionView)>,
    shorter: int,
    longer: int,
)
    requires
        0 <= shorter <= longer <= pairs.len(),
        stands(tokens, pos, pairs_tokens(pairs, longer)),
    ensures
        stands(tokens, pos, pairs_tokens(pairs, shorter)),
    decreases longer - shorter,
{
    if shorter < longer {
        if longer == 1 {
            lemma_stands_split(tokens, pos, Seq::empty(), pairs_tokens(pairs, 1));
        } else {
            let before = pairs_tokens(pairs, longer - 1);
            let key = expression_tokens(pairs[longer - 1].0);
            let value = expression_tokens(pairs[longer - 1].1);
            lemma_stands_split(
                tokens,
                pos,
                before + seq![TokenView::Comma] + key + seq![TokenView::Colon],
                value,
            );
            lemma_stands_split(
                tokens,
                pos,
                before + seq![TokenView::Comma] + key,
                seq![TokenView::Colon],
            );
            lemma_stands_split(tokens, pos, before + seq![TokenView::Comma], key);
            lemma_stands_split(tokens, pos, before, seq![TokenView::Comma]);
            lemma_pairs_prefix(tokens, pos, pairs, shorter, longer - 1);
        }
    }
}

/// A token that stands alone is the token at its position.
proof fn lemma_stands_one(tokens: Seq<TokenView>, pos: int, token: TokenView)
    requires
        stands(tokens, pos, seq![token]),
    ensures
        token_at(tokens, pos) == Some(token),
{
    reveal(stands);
    assert(seq![token][0] == token);
}

/// Two pieces that stand one after the other stand together.
proof fn lemma_stands_join(
    tokens: Seq<TokenView>,
    pos: int,
    first: Seq<TokenView>,
    second: Seq<TokenView>,
)
    requires
        stands(tokens, pos, first),
        stands(tokens, pos + first.len(), second),
    ensures
        stands(tokens, pos, first + second),
{
    reveal(stands);
    let both = first + second;
    assert forall|i: int| 0 <= i < both.len() implies tokens[pos + i] == #[trigger] both[i] by {
        if i < first.len() {
            assert(both[i] == first[i]);
        } else {
            assert(both[i] == second[i - first.len()]);
            assert(tokens[pos + first.len() + (i - first.len())] == second[i - first.len()]);
        }
    }
}

/// Tokens stand where they are.
proof fn lemma_stands_whole(tokens: Seq<TokenView>)
    ensures
        stands(tokens, 0, tokens),
{
    reveal(stands);
}

/// What stands lies within the tokens.
proof fn lemma_stands_bounds(tokens: Seq<TokenView>, pos: int, piece: Seq<TokenView>)
    requires
        stands(tokens, pos, piece),
    ensures
        0 <= pos,
        pos + piece.len() <= tokens.len(),
{
    reveal(stands);
}

/// Two tokens that stand together are the tokens at their positions.
proof fn lemma_stands_two(tokens: Seq<TokenView>, pos: int, first: TokenView, second: TokenView)
    requires
        stands(tokens, pos, seq![first, second]),
    ensures
        token_at(tokens, pos) == Some(first),
        token_at(tokens, pos + 1) == Some(second),
{
    reveal(stands);
    assert(seq![first, second][0] == first);
    assert(seq![first, second][1] == second);
}

/// Three tokens that stand together are the tokens at their positions.
proof fn lemma_stands_three(
    tokens: Seq<TokenView>,
    pos: int,
    first: TokenView,
    second: TokenView,
    third: TokenView,
)
    requires
        stands(tokens, pos, seq![first, second, third]),
    ensures
        token_at(tokens, pos) == Some(first),
        token_at(tokens, pos + 1) == Some(second),
        token_at(tokens, pos + 2) == Some(third),
{
    reveal(stands);
    assert(seq![first, second, third][0] == first);
    assert(seq![first, second, third][1] == second);
    assert(seq![first, second, third][2] == third);
}

/// The first token of an expression that stands is at its position.
proof fn lemma_stands_first(tokens: Seq<TokenView>, pos: int, expression: ExpressionView)
    requires
        stands(tokens, pos, expression_tokens(expression)),
    ensures
        token_at(tokens, pos) == Some(expression_tokens(expression)[0]),
        starts_expression(tokens[pos]),
{
    reveal(stands);
    lemma_first_token(expression);
    assert(tokens[pos + 0] == expression_tokens(expression)[0]);
}

/// Parsing the canonical tokens of an expression comes to the same as
/// going on behind their last token with the expression at hand.
pub proof fn lemma_expression(
    e: ExpressionView,
    tokens: Seq<TokenView>,
    pos: int,
    precedence: Precedence,
)
    requires
        canonical(e),
        stands(tokens, pos, expression_tokens(e)),
        precedence_level(precedence) <= 5,
    ensures
        expression_tokens(e).len() >= 1,
        expression(tokens, pos, precedence) == continuation(
            tokens,
            pos + expression_tokens(e).len() - 1,
            precedence,
            e,
        ),
    decreases e, 2int,
{
    lemma_first_token(e);
    match e {
        ExpressionView::FunctionCall { function, arguments } => {
            let head = expression_tokens(*function);
            let list = expressions_tokens(arguments, arguments.len() as int);
            lemma_stands_split(
                tokens,
                pos,
                head + seq![TokenView::Lparen] + list,
                seq![TokenView::Rparen],
            );
            lemma_stands_split(tokens, pos, head + seq![TokenView::Lparen], list);
            lemma_stands_split(tokens, pos, head, seq![TokenView::Lparen]);
            lemma_first_token(*function);
            let open = pos + head.len();
            lemma_stands_one(tokens, open, TokenView::Lparen);
            lemma_expression(*function, tokens, pos, precedence);
            lemma_stands_join(tokens, open + 1, list, seq![TokenView::Rparen]);
            lemma_stands_bounds(tokens, pos, head);
            lemma_list(arguments, tokens, open, TokenView::Rparen);
            let close = open + 1 + list.len();
            assert(call_expression(tokens, open, *function) == Ok::<
                (ExpressionView, int),
                ErrorView,
            >((e, close)));
            assert(infix(tokens, open, *function) == call_expression(tokens, open, *function));
            assert(continuation(tokens, open - 1, precedence, *function) == continuation(
                tokens,
                close,
                precedence,
                e,
            ));
        },
        _ => {
            lemma_prefix(e, tokens, pos);
        },
    }
}

/// The canonical tokens of an expression that is no call are read as the
/// expression, up to their last token.
proof fn lemma_prefix(e: ExpressionView, tokens: Seq<TokenView>, pos: int)
    requires
        canonical(e),
        !(e is FunctionCall),
        stands(tokens, pos, expression_tokens(e)),
    ensures
        prefix(tokens, pos) == Ok::<(ExpressionView, int), ErrorView>(
            (e, pos + expression_tokens(e).len() - 1),
        ),
    decreases e, 1int,
{
    lemma_stands_first(tokens, pos, e);
    match e {
        ExpressionView::IntegerLiteral(value) => {
            lemma_integer_token(value);
        },
        ExpressionView::ArrayLiteral(items) => {
            lemma_array(e, tokens, pos);
        },
        ExpressionView::HashLiteral(pairs) => {
            lemma_hash(e, tokens, pos);
        },
        ExpressionView::PrefixOperator { operator, right } => {
            lemma_prefix_operator(e, tokens, pos);
        },
        ExpressionView::InfixOperator { operator, left, right } => {
            lemma_infix_operator(e, tokens, pos);
        },
        ExpressionView::Index { left, index } => {
            lemma_index(e, tokens, pos);
        },
        ExpressionView::If { condition, consequence, alternative } => {
            lemma_if(e, tokens, pos);
        },
        ExpressionView::FunctionLiteral { parameters, body } => {
            lemma_function(e, tokens, pos);
        },
        _ => {},
    }
}

/// The canonical tokens of an array literal are read as the literal.
proof fn lemma_array(e: ExpressionView, tokens: Seq<TokenView>, pos: int)
    requires
        canonical(e),
        e is ArrayLiteral,
        stands(tokens, pos, expression_tokens(e)),
    ensures
        array_literal(tokens, pos) == Ok::<(ExpressionView, int), ErrorView>(
            (e, pos + expression_tokens(e).len() - 1),
        ),
    decreases e, 0int,
{
    let items = e->ArrayLiteral_0;
    let list = expressions_tokens(items, items.len() as int);
    lemma_stands_split(tokens, pos, seq![TokenView::LBracket] + list, seq![TokenView::RBracket]);
    lemma_stands_split(tokens, pos, seq![TokenView::LBracket], list);
    lemma_stands_join(tokens, pos + 1, list, seq![TokenView::RBracket]);
    lemma_stands_one(tokens, pos, TokenView::LBracket);
    lemma_list(items, tokens, pos, TokenView::RBracket);
}

/// The canonical tokens of a hash literal are read as the literal.
proof fn lemma_hash(e: ExpressionView, tokens: Seq<TokenView>, pos: int)
    requires
        canonical(e),
        e is HashLiteral,
        stands(tokens, pos, expression_tokens(e)),
    ensures
        hash_literal(tokens, pos) == Ok::<(ExpressionView, int), ErrorView>(
            (e, pos + expression_tokens(e).len() - 1),
        ),
    decreases e, 0int,
{
    let pairs = e->HashLiteral_0;
    let list = pairs_tokens(pairs, pairs.len() as int);
    lemma_stands_split(tokens, pos, seq![TokenView::Lsquigly] + list, seq![TokenView::Rsquigly]);
    lemma_stands_split(tokens, pos, seq![TokenView::Lsquigly], list);
    lemma_stands_one(tokens, pos, TokenView::Lsquigly);
    lemma_stands_one(tokens, pos + 1 + list.len(), TokenView::Rsquigly);
    assert(pairs.take(0) =~= Seq::empty());
    if pairs.len() == 0 {
        assert(pairs =~= Seq::empty());
    } else {
        lemma_pairs(pairs, 0, tokens, pos + 1);
    }
}

/// The canonical tokens of a prefix operation are read as the operation.
proof fn lemma_prefix_operator(e: ExpressionView, tokens: Seq<TokenView>, pos: int)
    requires
        canonical(e),
        e is PrefixOperator,
        stands(tokens, pos, expression_tokens(e)),
    ensures
        grouped(tokens, pos) == Ok::<(ExpressionView, int), ErrorView>(
            (e, pos + expression_tokens(e).len() - 1),
        ),
    decreases e, 0int,
{
    let operator = e->PrefixOperator_operator;
    let right = e->PrefixOperator_right;
    let operand = expression_tokens(*right);
    let start = seq![TokenView::Lparen, prefix_operator_token(operator)];
    lemma_stands_split(tokens, pos, start + operand, seq![TokenView::Rparen]);
    lemma_stands_split(tokens, pos, start, operand);
    lemma_stands_two(tokens, pos, TokenView::Lparen, prefix_operator_token(operator));
    lemma_first_token(*right);
    let last = pos + 2 + operand.len() - 1;
    lemma_stands_one(tokens, last + 1, TokenView::Rparen);
    lemma_operator_tokens(operator, InfixOperatorKind::Add);
    lemma_expression(*right, tokens, pos + 2, Precedence::Prefix);
    lemma_continuation_stops(tokens, last, Precedence::Prefix, *right);
    assert(prefix_operator(tokens, pos + 1) == Ok::<(ExpressionView, int), ErrorView>((e, last)));
    assert(prefix(tokens, pos + 1) == prefix_operator(tokens, pos + 1));
    lemma_continuation_stops(tokens, last, Precedence::Lowest, e);
    assert(expression(tokens, pos + 1, Precedence::Lowest) == Ok::<
        (ExpressionView, int),
        ErrorView,
    >((e, last)));
}

/// The canonical tokens of a binary operation are read as the operation.
proof fn lemma_infix_operator(e: ExpressionView, tokens: Seq<TokenView>, pos: int)
    requires
        canonical(e),
        e is InfixOperator,
        stands(tokens, pos, expression_tokens(e)),
    ensures
        grouped(tokens, pos) == Ok::<(ExpressionView, int), ErrorView>(
            (e, pos + expression_tokens(e).len() - 1),
        ),
    decreases e, 0int,
{
    let operator = e->InfixOperator_operator;
    let left = e->InfixOperator_left;
    let right = e->InfixOperator_right;
    let first = expression_tokens(*left);
    let second = expression_tokens(*right);
    let open = seq![TokenView::Lparen];
    let sign = seq![infix_operator_token(operator)];
    lemma_stands_split(tokens, pos, open + first + sign + second, seq![TokenView::Rparen]);
    lemma_stands_split(tokens, pos, open + first + sign, second);
    lemma_stands_split(tokens, pos, open + first, sign);
    lemma_stands_split(tokens, pos, open, first);
    lemma_stands_one(tokens, pos, TokenView::Lparen);
    lemma_first_token(*left);
    lemma_first_token(*right);
    let left_end = pos + first.len();
    let right_end = left_end + 1 + second.len();
    lemma_stands_one(tokens, left_end + 1, infix_operator_token(operator));
    lemma_stands_one(tokens, right_end + 1, TokenView::Rparen);
    lemma_operator_tokens(PrefixOperatorKind::Not, operator);
    let strength = precedence_of(infix_operator_token(operator));
    lemma_expression(*left, tokens, pos + 1, Precedence::Lowest);
    lemma_expression(*right, tokens, left_end + 2, strength);
    lemma_continuation_stops(tokens, right_end, strength, *right);
    assert(infix_operator(tokens, left_end + 1, *left) == Ok::<(ExpressionView, int), ErrorView>(
        (e, right_end),
    ));
    assert(infix(tokens, left_end + 1, *left) == infix_operator(tokens, left_end + 1, *left));
    lemma_continuation_stops(tokens, right_end, Precedence::Lowest, e);
    assert(continuation(tokens, left_end, Precedence::Lowest, *left) == Ok::<
        (ExpressionView, int),
        ErrorView,
    >((e, right_end)));
}

/// The canonical tokens of an index access are read as the access.
proof fn lemma_index(e: ExpressionView, tokens: Seq<TokenView>, pos: int)
    requires
        canonical(e),
        e is Index,
        stands(tokens, pos, expression_tokens(e)),
    ensures
        grouped(tokens, pos) == Ok::<(ExpressionView, int), ErrorView>(
            (e, pos + expression_tokens(e).len() - 1),
        ),
    decreases e, 0int,
{
    let left = e->Index_left;
    let index = e->Index_index;
    let first = expression_tokens(*left);
    let second = expression_tokens(*index);
    let open = seq![TokenView::Lparen];
    let bracket = seq![TokenView::LBracket];
    lemma_stands_split(
        tokens,
        pos,
        open + first + bracket + second,
        seq![TokenView::RBracket, TokenView::Rparen],
    );
    lemma_stands_split(tokens, pos, open + first + bracket, second);
    lemma_stands_split(tokens, pos, open + first, bracket);
    lemma_stands_split(tokens, pos, open, first);
    lemma_stands_one(tokens, pos, TokenView::Lparen);
    lemma_first_token(*left);
    lemma_first_token(*index);
    let left_end = pos + first.len();
    let index_end = left_end + 1 + second.len();
    lemma_stands_one(tokens, left_end + 1, TokenView::LBracket);
    lemma_stands_two(tokens, index_end + 1, TokenView::RBracket, TokenView::Rparen);
    lemma_expression(*left, tokens, pos + 1, Precedence::Lowest);
    lemma_expression(*index, tokens, left_end + 2, Precedence::Lowest);
    lemma_continuation_stops(tokens, index_end, Precedence::Lowest, *index);
    assert(index_expression(tokens, left_end + 1, *left) == Ok::<(ExpressionView, int), ErrorView>(
        (e, index_end + 1),
    ));
    assert(infix(tokens, left_end + 1, *left) == index_expression(tokens, left_end + 1, *left));
    lemma_continuation_stops(tokens, index_end + 1, Precedence::Lowest, e);
    assert(continuation(tokens, left_end, Precedence::Lowest, *left) == Ok::<
        (ExpressionView, int),
        ErrorView,
    >((e, index_end + 1)));
}

/// The canonical tokens of a conditional are read as the conditional.
#[verifier::rlimit(100)]
proof fn lemma_if(e: ExpressionView, tokens: Seq<TokenView>, pos: int)
    requires
        canonical(e),
        e is If,
        stands(tokens, pos, expression_tokens(e)),
    ensures
        if_expression(tokens, pos) == Ok::<(ExpressionView, int), ErrorView>(
            (e, pos + expression_tokens(e).len() - 1),
        ),
    decreases e, 0int,
{
    let condition = e->If_condition;
    let consequence = e->If_consequence;
    let alternative = e->If_alternative;
    let start = seq![TokenView::If, TokenView::Lparen];
    let test = expression_tokens(*condition);
    let middle = seq![TokenView::Rparen, TokenView::Lsquigly];
    let first = statements_tokens(consequence, consequence.len() as int);
    let between = seq![TokenView::Rsquigly, TokenView::Else, TokenView::Lsquigly];
    let second = statements_tokens(alternative, alternative.len() as int);
    let close = seq![TokenView::Rsquigly];
    lemma_stands_split(tokens, pos, start + test + middle + first + between + second, close);
    lemma_stands_split(tokens, pos, start + test + middle + first + between, second);
    lemma_stands_split(tokens, pos, start + test + middle + first, between);
    lemma_stands_split(tokens, pos, start + test + middle, first);
    lemma_stands_split(tokens, pos, start + test, middle);
    lemma_stands_split(tokens, pos, start, test);
    lemma_first_token(*condition);
    lemma_stands_two(tokens, pos, TokenView::If, TokenView::Lparen);
    let test_end = pos + 2 + test.len() - 1;
    lemma_stands_two(tokens, test_end + 1, TokenView::Rparen, TokenView::Lsquigly);
    let first_end = test_end + 3 + first.len();
    lemma_stands_three(
        tokens,
        first_end,
        TokenView::Rsquigly,
        TokenView::Else,
        TokenView::Lsquigly,
    );
    let second_end = first_end + 3 + second.len();
    lemma_stands_one(tokens, second_end, TokenView::Rsquigly);
    lemma_expression(*condition, tokens, pos + 2, Precedence::Lowest);
    lemma_continuation_stops(tokens, test_end, Precedence::Lowest, *condition);
    assert(consequence.take(0) =~= Seq::empty());
    assert(alternative.take(0) =~= Seq::empty());
    lemma_block_statements(consequence, 0, tokens, test_end + 3);
    lemma_block_statements(alternative, 0, tokens, first_end + 3);
    assert(block(tokens, test_end + 2) == Ok::<(Seq<StatementView>, int), ErrorView>(
        (consequence, first_end),
    ));
    assert(block(tokens, first_end + 2) == Ok::<(Seq<StatementView>, int), ErrorView>(
        (alternative, second_end),
    ));
    assert(expression(tokens, pos + 2, Precedence::Lowest) == Ok::<
        (ExpressionView, int),
        ErrorView,
    >((*condition, test_end)));
    assert(token_at(tokens, pos + 1) == Some(TokenView::Lparen));
    assert(token_at(tokens, test_end + 1) == Some(TokenView::Rparen));
    assert(token_at(tokens, test_end + 2) == Some(TokenView::Lsquigly));
    assert(token_at(tokens, first_end) == Some(TokenView::Rsquigly));
    assert(token_at(tokens, first_end + 1) == Some(TokenView::Else));
    assert(token_at(tokens, first_end + 2) == Some(TokenView::Lsquigly));
    assert(token_at(tokens, second_end) == Some(TokenView::Rsquigly));
    assert(test_end >= pos);
    assert(first_end >= pos);
    assert(e == ExpressionView::If { condition, consequence, alternative });
}

/// The canonical tokens of a function literal are read as the literal.
proof fn lemma_function(e: ExpressionView, tokens: Seq<TokenView>, pos: int)
    requires
        canonical(e),
        e is FunctionLiteral,
        stands(tokens, pos, expression_tokens(e)),
    ensures
        function_literal(tokens, pos) == Ok::<(ExpressionView, int), ErrorView>(
            (e, pos + expression_tokens(e).len() - 1),
        ),
    decreases e, 0int,
{
    let parameters = e->FunctionLiteral_parameters;
    let body = e->FunctionLiteral_body;
    let start = seq![TokenView::Function, TokenView::Lparen];
    let names = names_tokens(parameters, parameters.len() as int);
    let middle = seq![TokenView::Rparen, TokenView::Lsquigly];
    let inside = statements_tokens(body, body.len() as int);
    let close = seq![TokenView::Rsquigly];
    lemma_stands_split(tokens, pos, start + names + middle + inside, close);
    lemma_stands_split(tokens, pos, start + names + middle, inside);
    lemma_stands_split(tokens, pos, start + names, middle);
    lemma_stands_split(tokens, pos, start, names);
    lemma_stands_two(tokens, pos, TokenView::Function, TokenView::Lparen);
    let names_end = pos + 2 + names.len();
    lemma_stands_two(tokens, names_end, TokenView::Rparen, TokenView::Lsquigly);
    let body_end = names_end + 2 + inside.len();
    lemma_stands_one(tokens, body_end, TokenView::Rsquigly);
    lemma_names(parameters, tokens, pos + 1);
    assert(body.take(0) =~= Seq::empty());
    lemma_block_statements(body, 0, tokens, names_end + 2);
    assert(block(tokens, names_end + 1) == Ok::<(Seq<StatementView>, int), ErrorView>(
        (body, body_end),
    ));
}

/// The canonical tokens of parameter names between parentheses are read as
/// the names. `open` is the position of the opening parenthesis.
proof fn lemma_names(names: Seq<Seq<char>>, tokens: Seq<TokenView>, open: int)
    requires
        0 <= open < tokens.len(),
        stands(tokens, open + 1, names_tokens(names, names.len() as int)),
        token_at(tokens, open + 1 + names_tokens(names, names.len() as int).len()) == Some(
            TokenView::Rparen,
        ),
    ensures
        function_parameters(tokens, open) == Ok::<(Seq<Seq<char>>, int), ErrorView>(
            (names, open + 1 + names_tokens(names, names.len() as int).len()),
        ),
{
    if names.len() == 0 {
        assert(names =~= Seq::empty());
    } else {
        lemma_names_prefix(tokens, open + 1, names, 1, names.len() as int);
        lemma_stands_one(tokens, open + 1, TokenView::Ident(names[0]));
        assert(names.take(1) =~= seq![names[0]]);
        lemma_more_names(names, 1, tokens, open + 1);
    }
}

/// The names from the `count`-th on are read behind the names before them.
/// `start` is the position of the first name.
proof fn lemma_more_names(names: Seq<Seq<char>>, count: int, tokens: Seq<TokenView>, start: int)
    requires
        1 <= count <= names.len(),
        stands(tokens, start, names_tokens(names, names.len() as int)),
        token_at(tokens, start + names_tokens(names, names.len() as int).len()) == Some(
            TokenView::Rparen,
        ),
    ensures
        more_parameters(tokens, start + names_tokens(names, count).len() - 1, names.take(count))
            == Ok::<(Seq<Seq<char>>, int), ErrorView>(
            (names, start + names_tokens(names, names.len() as int).len()),
        ),
    decreases names.len() - count,
{
    let here = start + names_tokens(names, count).len() - 1;
    lemma_names_prefix(tokens, start, names, count, names.len() as int);
    if count == names.len() {
        assert(names.take(count) =~= names);
    } else {
        lemma_names_prefix(tokens, start, names, count + 1, names.len() as int);
        lemma_stands_split(
            tokens,
            start,
            names_tokens(names, count),
            seq![TokenView::Comma, TokenView::Ident(names[count])],
        );
        lemma_stands_two(tokens, here + 1, TokenView::Comma, TokenView::Ident(names[count]));
        assert(names.take(count).push(names[count]) =~= names.take(count + 1));
        lemma_more_names(names, count + 1, tokens, start);
    }
}

/// The canonical tokens of expressions between an opening token and the
/// closing token `end` are read as the expressions. `open` is the position
/// of the opening token.
proof fn lemma_list(
    items: Seq<ExpressionView>,
    tokens: Seq<TokenView>,
    open: int,
    end: TokenView,
)
    requires
        forall|i: int| 0 <= i < items.len() ==> canonical(#[trigger] items[i]),
        0 <= open < tokens.len(),
        end is Rparen || end is RBracket,
        stands(tokens, open + 1, expressions_tokens(items, items.len() as int) + seq![end]),
    ensures
        expression_list(tokens, open, end) == Ok::<(Seq<ExpressionView>, int), ErrorView>(
            (items, open + 1 + expressions_tokens(items, items.len() as int).len()),
        ),
    decreases items, items.len() + 1,
{
    let list = expressions_tokens(items, items.len() as int);
    lemma_stands_split(tokens, open + 1, list, seq![end]);
    lemma_stands_one(tokens, open + 1 + list.len(), end);
    if items.len() == 0 {
        assert(items =~= Seq::empty());
    } else {
        lemma_expressions_prefix(tokens, open + 1, items, 1, items.len() as int);
        lemma_stands_first(tokens, open + 1, items[0]);
        lemma_expression(items[0], tokens, open + 1, Precedence::Lowest);
        let first_end = open + expression_tokens(items[0]).len();
        lemma_following(items, 1, tokens, open + 1, end);
        lemma_continuation_stops(tokens, first_end, Precedence::Lowest, items[0]);
        assert(items.take(1) =~= seq![items[0]]);
        lemma_more(items, 1, tokens, open + 1, end);
    }
}

/// Behind the first `count` expressions of a list stands a comma or, behind
/// the last, the closing token.
proof fn lemma_following(
    items: Seq<ExpressionView>,
    count: int,
    tokens: Seq<TokenView>,
    start: int,
    end: TokenView,
)
    requires
        1 <= count <= items.len(),
        end is Rparen || end is RBracket,
        stands(tokens, start, expressions_tokens(items, items.len() as int) + seq![end]),
    ensures
        token_at(tokens, start + expressions_tokens(items, count).len()) == Some(
            if count == items.len() {
                end
            } else {
                TokenView::Comma
            },
        ),
        closes(token_at(tokens, start + expressions_tokens(items, count).len())),
{
    let list = expressions_tokens(items, items.len() as int);
    lemma_stands_split(tokens, start, list, seq![end]);
    if count == items.len() {
        lemma_stands_one(tokens, start + list.len(), end);
    } else {
        lemma_expressions_prefix(tokens, start, items, count + 1, items.len() as int);
        lemma_stands_split(
            tokens,
            start,
            expressions_tokens(items, count) + seq![TokenView::Comma],
            expression_tokens(items[count]),
        );
        lemma_stands_split(tokens, start, expressions_tokens(items, count), seq![TokenView::Comma]);
        lemma_stands_one(tokens, start + expressions_tokens(items, count).len(), TokenView::Comma);
    }
}

/// The expressions from the `count`-th on are read behind the expressions
/// before them. `start` is the position of the first token of the list.
proof fn lemma_more(
    items: Seq<ExpressionView>,
    count: int,
    tokens: Seq<TokenView>,
    start: int,
    end: TokenView,
)
    requires
        forall|i: int| 0 <= i < items.len() ==> canonical(#[trigger] items[i]),
        1 <= count <= items.len(),
        end is Rparen || end is RBracket,
        stands(tokens, start, expressions_tokens(items, items.len() as int) + seq![end]),
        expressions_tokens(items, count).len() >= 1,
    ensures
        more_expressions(
            tokens,
            start + expressions_tokens(items, count).len() - 1,
            end,
            items.take(count),
        ) == Ok::<(Seq<ExpressionView>, int), ErrorView>(
            (items, start + expressions_tokens(items, items.len() as int).len()),
        ),
    decreases items, items.len() - count,
{
    let here = start + expressions_tokens(items, count).len() - 1;
    lemma_following(items, count, tokens, start, end);
    if count == items.len() {
        assert(items.take(count) =~= items);
    } else {
        let list = expressions_tokens(items, items.len() as int);
        lemma_stands_split(tokens, start, list, seq![end]);
        lemma_expressions_prefix(tokens, start, items, count + 1, items.len() as int);
        lemma_stands_split(
            tokens,
            start,
            expressions_tokens(items, count) + seq![TokenView::Comma],
            expression_tokens(items[count]),
        );
        lemma_first_token(items[count]);
        lemma_expression(items[count], tokens, here + 2, Precedence::Lowest);
        let next_end = here + 1 + expression_tokens(items[count]).len();
        lemma_following(items, count + 1, tokens, start, end);
        lemma_continuation_stops(tokens, next_end, Precedence::Lowest, items[count]);
        assert(items.take(count).push(items[count]) =~= items.take(count + 1));
        lemma_more(items, count + 1, tokens, start, end);
    }
}

/// The position from which the `count`-th entry of a hash literal is read:
/// that of the opening brace for the first entry, that of the comma behind
/// the entry before for the others. `start` is the position of the first
/// token behind the opening brace.
pub open spec fn entry_position(
    pairs: Seq<(ExpressionView, ExpressionView)>,
    count: int,
    start: int,
) -> int {
    if count == 0 {
        start - 1
    } else {
        start + pairs_tokens(pairs, count).len()
    }
}

/// How the `count`-th entry of a hash literal stands: the key behind the
/// position from which it is read, a colon, the value, and a comma or,
/// behind the last entry, the closing brace.
proof fn lemma_entry_layout(
    pairs: Seq<(ExpressionView, ExpressionView)>,
    count: int,
    tokens: Seq<TokenView>,
    start: int,
)
    requires
        0 <= count < pairs.len(),
        stands(tokens, start, pairs_tokens(pairs, pairs.len() as int)),
        token_at(tokens, start + pairs_tokens(pairs, pairs.len() as int).len()) == Some(
            TokenView::Rsquigly,
        ),
    ensures
        ({
            let from = entry_position(pairs, count, start);
            let key = expression_tokens(pairs[count].0);
            let value = expression_tokens(pairs[count].1);
            &&& key.len() >= 1
            &&& value.len() >= 1
            &&& stands(tokens, from + 1, key)
            &&& starts_expression(tokens[from + 1])
            &&& token_at(tokens, from + 1 + key.len()) == Some(TokenView::Colon)
            &&& stands(tokens, from + 2 + key.len(), value)
            &&& from + 2 + key.len() + value.len() == entry_position(pairs, count + 1, start)
            &&& token_at(tokens, from + 2 + key.len() + value.len()) == Some(
                if count + 1 == pairs.len() {
                    TokenView::Rsquigly
                } else {
                    TokenView::Comma
                },
            )
            &&& count > 0 ==> token_at(tokens, from) == Some(TokenView::Comma)
        }),
{
    let from = entry_position(pairs, count, start);
    let key = expression_tokens(pairs[count].0);
    let value = expression_tokens(pairs[count].1);
    lemma_first_token(pairs[count].0);
    lemma_first_token(pairs[count].1);
    lemma_pairs_prefix(tokens, start, pairs, count + 1, pairs.len() as int);
    if count == 0 {
        lemma_stands_split(tokens, start, key + seq![TokenView::Colon], value);
        lemma_stands_split(tokens, start, key, seq![TokenView::Colon]);
    } else {
        let before = pairs_tokens(pairs, count);
        lemma_stands_split(
            tokens,
            start,
            before + seq![TokenView::Comma] + key + seq![TokenView::Colon],
            value,
        );
        lemma_stands_split(
            tokens,
            start,
            before + seq![TokenView::Comma] + key,
            seq![TokenView::Colon],
        );
        lemma_stands_split(tokens, start, before + seq![TokenView::Comma], key);
        lemma_stands_split(tokens, start, before, seq![TokenView::Comma]);
        lemma_stands_one(tokens, from, TokenView::Comma);
    }
    lemma_stands_first(tokens, from + 1, pairs[count].0);
    lemma_stands_one(tokens, from + 1 + key.len(), TokenView::Colon);
    if count + 1 < pairs.len() {
        lemma_pairs_prefix(tokens, start, pairs, count + 2, pairs.len() as int);
        let next = expression_tokens(pairs[count + 1].0);
        let after = expression_tokens(pairs[count + 1].1);
        let so_far = pairs_tokens(pairs, count + 1);
        lemma_stands_split(
            tokens,
            start,
            so_far + seq![TokenView::Comma] + next + seq![TokenView::Colon],
            after,
        );
        lemma_stands_split(
            tokens,
            start,
            so_far + seq![TokenView::Comma] + next,
            seq![TokenView::Colon],
        );
        lemma_stands_split(tokens, start, so_far + seq![TokenView::Comma], next);
        lemma_stands_split(tokens, start, so_far, seq![TokenView::Comma]);
        lemma_stands_one(tokens, start + so_far.len(), TokenView::Comma);
    }
}

/// The entries of a hash literal from the `count`-th on are read behind the
/// entries before them. `start` is the position of the first token behind
/// the opening brace.
#[verifier::rlimit(100)]
proof fn lemma_pairs(
    pairs: Seq<(ExpressionView, ExpressionView)>,
    count: int,
    tokens: Seq<TokenView>,
    start: int,
)
    requires
        forall|i: int|
            0 <= i < pairs.len() ==> canonical((#[trigger] pairs[i]).0) && canonical(pairs[i].1),
        0 <= count < pairs.len(),
        1 <= start,
        stands(tokens, start, pairs_tokens(pairs, pairs.len() as int)),
        token_at(tokens, start + pairs_tokens(pairs, pairs.len() as int).len()) == Some(
            TokenView::Rsquigly,
        ),
        token_at(tokens, start - 1) is Some,
    ensures
        hash_pairs(tokens, entry_position(pairs, count, start), pairs.take(count)) == Ok::<
            (Seq<(ExpressionView, ExpressionView)>, int),
            ErrorView,
        >((pairs, start + pairs_tokens(pairs, pairs.len() as int).len())),
    decreases pairs, pairs.len() - count,
{
    let from = entry_position(pairs, count, start);
    let key = expression_tokens(pairs[count].0);
    let value = expression_tokens(pairs[count].1);
    lemma_entry_layout(pairs, count, tokens, start);
    let key_end = from + key.len();
    let value_end = key_end + 1 + value.len();
    assert(canonical(pairs[count].0) && canonical(pairs[count].1));
    lemma_expression(pairs[count].0, tokens, from + 1, Precedence::Lowest);
    lemma_continuation_stops(tokens, key_end, Precedence::Lowest, pairs[count].0);
    lemma_expression(pairs[count].1, tokens, key_end + 2, Precedence::Lowest);
    lemma_continuation_stops(tokens, value_end, Precedence::Lowest, pairs[count].1);
    assert(pairs.take(count).push(pairs[count]) =~= pairs.take(count + 1));
    assert(expression(tokens, from + 1, Precedence::Lowest) == Ok::<
        (ExpressionView, int),
        ErrorView,
    >((pairs[count].0, key_end)));
    assert(expression(tokens, key_end + 2, Precedence::Lowest) == Ok::<
        (ExpressionView, int),
        ErrorView,
    >((pairs[count].1, value_end)));
    if count + 1 == pairs.len() {
        assert(pairs.take(count + 1) =~= pairs);
    } else {
        lemma_pairs(pairs, count + 1, tokens, start);
    }
}

/// The canonical tokens of a statement are read as the statement, up to
/// its semicolon.
#[verifier::rlimit(100)]
#[verifier::spinoff_prover]
pub proof fn lemma_statement(s: StatementView, tokens: Seq<TokenView>, pos: int)
    requires
        canonical_statement(s),
        stands(tokens, pos, statement_tokens(s)),
    ensures
        statement_tokens(s).len() >= 2,
        statement(tokens, pos) == Ok::<(StatementView, int), ErrorView>(
            (s, pos + statement_tokens(s).len() - 1),
        ),
    decreases s, 1int,
{
    lemma_statement_stands_first(tokens, pos, s);
    match s {
        StatementView::Let { name, value } => {
            lemma_let(s, tokens, pos);
        },
        StatementView::Return(value) => {
            lemma_return(s, tokens, pos);
        },
        StatementView::Expression(value) => {
            lemma_expression_statement(s, tokens, pos);
        },
    }
}

/// The canonical tokens of an expression statement are read as the
/// expression, up to the semicolon.
proof fn lemma_expression_statement(s: StatementView, tokens: Seq<TokenView>, pos: int)
    requires
        canonical_statement(s),
        s is Expression,
        stands(tokens, pos, statement_tokens(s)),
    ensures
        statement_tokens(s).len() == expression_tokens(s->Expression_0).len() + 1,
        expression(tokens, pos, Precedence::Lowest) == Ok::<(ExpressionView, int), ErrorView>(
            (s->Expression_0, pos + statement_tokens(s).len() - 2),
        ),
        token_at(tokens, pos + statement_tokens(s).len() - 1) == Some(TokenView::Semicolon),
    decreases s, 0int,
{
    let value = s->Expression_0;
    let inner = expression_tokens(value);
    lemma_first_token(value);
    lemma_stands_split(tokens, pos, inner, seq![TokenView::Semicolon]);
    let last = pos + inner.len() - 1;
    lemma_stands_one(tokens, last + 1, TokenView::Semicolon);
    lemma_expression(value, tokens, pos, Precedence::Lowest);
    lemma_continuation_stops(tokens, last, Precedence::Lowest, value);
}

/// The canonical tokens of a `let` statement are read as the statement.
proof fn lemma_let(s: StatementView, tokens: Seq<TokenView>, pos: int)
    requires
        canonical_statement(s),
        s is Let,
        stands(tokens, pos, statement_tokens(s)),
    ensures
        let_statement(tokens, pos) == Ok::<(StatementView, int), ErrorView>(
            (s, pos + statement_tokens(s).len() - 1),
        ),
    decreases s, 0int,
{
    let name = s->Let_name;
    let value = s->Let_value;
    let start = seq![TokenView::Let, TokenView::Ident(name), TokenView::Assign];
    let inner = expression_tokens(value);
    lemma_first_token(value);
    lemma_stands_split(tokens, pos, start + inner, seq![TokenView::Semicolon]);
    lemma_stands_split(tokens, pos, start, inner);
    lemma_stands_three(tokens, pos, TokenView::Let, TokenView::Ident(name), TokenView::Assign);
    let last = pos + 3 + inner.len() - 1;
    lemma_stands_one(tokens, last + 1, TokenView::Semicolon);
    lemma_expression(value, tokens, pos + 3, Precedence::Lowest);
    lemma_continuation_stops(tokens, last, Precedence::Lowest, value);
    assert(expression(tokens, pos + 3, Precedence::Lowest) == Ok::<
        (ExpressionView, int),
        ErrorView,
    >((value, last)));
    assert(identifier_of(token_at(tokens, pos + 1)) == Ok::<Seq<char>, ErrorView>(name));
}

/// The canonical tokens of a `return` statement are read as the statement.
proof fn lemma_return(s: StatementView, tokens: Seq<TokenView>, pos: int)
    requires
        canonical_statement(s),
        s is Return,
        stands(tokens, pos, statement_tokens(s)),
    ensures
        return_statement(tokens, pos) == Ok::<(StatementView, int), ErrorView>(
            (s, pos + statement_tokens(s).len() - 1),
        ),
    decreases s, 0int,
{
    let value = s->Return_0;
    let inner = expression_tokens(value);
    lemma_first_token(value);
    lemma_stands_split(tokens, pos, seq![TokenView::Return] + inner, seq![TokenView::Semicolon]);
    lemma_stands_split(tokens, pos, seq![TokenView::Return], inner);
    lemma_stands_one(tokens, pos, TokenView::Return);
    let last = pos + 1 + inner.len() - 1;
    lemma_stands_one(tokens, last + 1, TokenView::Semicolon);
    lemma_expression(value, tokens, pos + 1, Precedence::Lowest);
    lemma_continuation_stops(tokens, last, Precedence::Lowest, value);
    assert(expression(tokens, pos + 1, Precedence::Lowest) == Ok::<
        (ExpressionView, int),
        ErrorView,
    >((value, last)));
}

/// The first token of a statement is that of a `let`, of a `return`, or of
/// an expression.
proof fn lemma_statement_first(s: StatementView)
    ensures
        statement_tokens(s).len() >= 2,
        statement_tokens(s)[0] is Let || statement_tokens(s)[0] is Return || starts_expression(
            statement_tokens(s)[0],
        ),
{
    match s {
        StatementView::Let { name, value } => {
            lemma_first_token(value);
        },
        StatementView::Return(value) => {
            lemma_first_token(value);
        },
        StatementView::Expression(value) => {
            lemma_first_token(value);
        },
    }
}

/// The first token of a statement that stands is at its position.
proof fn lemma_statement_stands_first(tokens: Seq<TokenView>, pos: int, s: StatementView)
    requires
        stands(tokens, pos, statement_tokens(s)),
    ensures
        token_at(tokens, pos) == Some(statement_tokens(s)[0]),
        tokens[pos] is Let || tokens[pos] is Return || starts_expression(tokens[pos]),
{
    reveal(stands);
    lemma_statement_first(s);
    assert(tokens[pos + 0] == statement_tokens(s)[0]);
}

/// The statements of a block from the `count`-th on are read behind the
/// statements before them, up to the closing brace. `start` is the position
/// of the first token behind the opening brace.
proof fn lemma_block_statements(
    statements: Seq<StatementView>,
    count: int,
    tokens: Seq<TokenView>,
    start: int,
)
    requires
        canonical_statements(statements),
        0 <= count <= statements.len(),
        stands(tokens, start, statements_tokens(statements, statements.len() as int)),
        token_at(tokens, start + statements_tokens(statements, statements.len() as int).len())
            == Some(TokenView::Rsquigly),
    ensures
        block_statements(
            tokens,
            start + statements_tokens(statements, count).len(),
            statements.take(count),
        ) == Ok::<(Seq<StatementView>, int), ErrorView>(
            (
                statements,
                start + statements_tokens(statements, statements.len() as int).len(),
            ),
        ),
    decreases statements, statements.len() - count,
{
    let here = start + statements_tokens(statements, count).len();
    if count == statements.len() {
        assert(statements.take(count) =~= statements);
    } else {
        lemma_statements_prefix(tokens, start, statements, count + 1, statements.len() as int);
        lemma_stands_split(
            tokens,
            start,
            statements_tokens(statements, count),
            statement_tokens(statements[count]),
        );
        lemma_statement_first(statements[count]);
        lemma_statement_stands_first(tokens, here, statements[count]);
        lemma_statement(statements[count], tokens, here);
        assert(statements.take(count).push(statements[count]) =~= statements.take(count + 1));
        lemma_block_statements(statements, count + 1, tokens, start);
    }
}

/// The statements of a program from the `count`-th on are read behind the
/// statements before them, up to the end of the tokens.
#[verifier::rlimit(100)]
#[verifier::spinoff_prover]
proof fn lemma_program(statements: Seq<StatementView>, count: int, tokens: Seq<TokenView>)
    requires
        canonical_statements(statements),
        0 <= count <= statements.len(),
        tokens == statements_tokens(statements, statements.len() as int),
    ensures
        program(tokens, statements_tokens(statements, count).len() as int, statements.take(count))
            == Ok::<Seq<StatementView>, ErrorView>(statements),
    decreases statements.len() - count,
{
    let here = statements_tokens(statements, count).len() as int;
    lemma_stands_whole(tokens);
    lemma_statements_prefix(tokens, 0, statements, count, statements.len() as int);
    if count == statements.len() {
        assert(statements.take(count) =~= statements);
    } else {
        lemma_statements_prefix(tokens, 0, statements, count + 1, statements.len() as int);
        lemma_stands_split(
            tokens,
            0,
            statements_tokens(statements, count),
            statement_tokens(statements[count]),
        );
        lemma_statement_first(statements[count]);
        lemma_statement_stands_first(tokens, here, statements[count]);
        lemma_statement(statements[count], tokens, here);
        assert(statements.take(count).push(statements[count]) =~= statements.take(count + 1));
        lemma_program(statements, count + 1, tokens);
    }
}

/// The parser reads the canonical tokens of a program back as the program:
/// whatever syntax tree it has built, it builds the same tree again from
/// the tokens of the tree's canonical rendering.
pub proof fn law_parser_inverts_rendering(statements: Seq<StatementView>)
    requires
        canonical_statements(statements),
    ensures
        parse_tokens(statements_tokens(statements, statements.len() as int)) == Ok::<
            Seq<StatementView>,
            ErrorView,
        >(statements),
{
    assert(statements.take(0) =~= Seq::empty());
    lemma_program(statements, 0, statements_tokens(statements, statements.len() as int));
}

} // verus!
