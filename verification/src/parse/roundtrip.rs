//! The proof that the canonical rendering of a syntax tree parses back to
//! the tree.

use vstd::prelude::*;
use vstd::utf8::encode_utf8;
use crate::ast::{
    expression_text, expressions_text, infix_operator_text, names_text, pairs_text,
    prefix_operator_text, statement_text, statements_text, ExpressionView, InfixOperatorKind,
    PrefixOperatorKind, StatementView,
};
use crate::lexer::scan_all;
use crate::parse::error::ErrorView;
use crate::parse::grammar::parse_tokens;
use crate::parse::rendering::{
    canonical, canonical_statement, canonical_statements, expression_tokens,
    expressions_tokens, infix_operator_token, law_parser_inverts_rendering, names_tokens,
    lemma_natural_digits_value, pairs_tokens, prefix_operator_token, statement_tokens,
    statements_tokens,
};
use crate::parse::grammar::all_digits;
use crate::parse::spelling::{
    composed, is_digit_char, is_letter_char, is_no_keyword, is_number, is_word, joinable,
    lemma_join, lemma_scan_composed, lemma_single, lemma_spelled, lemma_with_space, merges,
    spellable, spelled, with_space, Spaced,
};
use crate::text::{
    ascii_text, integer_digits, integer_text, is_ascii_bytes, lemma_ascii_text, natural_digits,
};
use crate::token::TokenView;

verus! {

/// A rendering: tokens with their spaces, the bytes and the text that they
/// make, and the tokens alone.
pub struct Rendering {
    pub list: Spaced,
    pub bytes: Seq<u8>,
    pub tokens: Seq<TokenView>,
    pub text: Seq<char>,
}

/// Whether the parts of a rendering belong together, and the lexer can
/// read the tokens back from the bytes.
pub open spec fn sound(r: Rendering) -> bool {
    &&& composed(r.list, r.tokens, r.bytes)
    &&& r.text == ascii_text(r.bytes)
    &&& is_ascii_bytes(r.bytes)
}

/// The text of a token.
pub open spec fn token_text(token: TokenView) -> Seq<char> {
    match token {
        TokenView::Ident(name) => name,
        TokenView::Int(digits) => digits,
        TokenView::Function => "fn"@,
        TokenView::Let => "let"@,
        TokenView::True => "true"@,
        TokenView::False => "false"@,
        TokenView::If => "if"@,
        TokenView::Else => "else"@,
        TokenView::Return => "return"@,
        TokenView::Assign => "="@,
        TokenView::Plus => "+"@,
        TokenView::Minus => "-"@,
        TokenView::Bang => "!"@,
        TokenView::Asterisk => "*"@,
        TokenView::Slash => "/"@,
        TokenView::Lt => "<"@,
        TokenView::Gt => ">"@,
        TokenView::Eq => "=="@,
        TokenView::NotEq => "!="@,
        TokenView::Comma => ","@,
        TokenView::Semicolon => ";"@,
        TokenView::Colon => ":"@,
        TokenView::Lparen => "("@,
        TokenView::Rparen => ")"@,
        TokenView::Lsquigly => "{"@,
        TokenView::Rsquigly => "}"@,
        TokenView::LBracket => "["@,
        TokenView::RBracket => "]"@,
        _ => Seq::empty(),
    }
}

/// The rendering of one token.
pub open spec fn one(token: TokenView) -> Rendering {
    Rendering {
        list: seq![(token, false)],
        bytes: spelled(token),
        tokens: seq![token],
        text: token_text(token),
    }
}

/// The rendering of one token with a space behind it.
pub open spec fn spaced(token: TokenView) -> Rendering {
    Rendering {
        list: seq![(token, true)],
        bytes: spelled(token) + seq![32u8],
        tokens: seq![token],
        text: token_text(token) + " "@,
    }
}

/// Two renderings one after the other.
pub open spec fn join(first: Rendering, second: Rendering) -> Rendering {
    Rendering {
        list: first.list + second.list,
        bytes: first.bytes + second.bytes,
        tokens: first.tokens + second.tokens,
        text: first.text + second.text,
    }
}

/// A rendering with a space behind it.
pub open spec fn then_space(r: Rendering) -> Rendering {
    Rendering {
        list: with_space(r.list),
        bytes: r.bytes + seq![32u8],
        tokens: r.tokens,
        text: r.text + " "@,
    }
}

/// The rendering of nothing.
pub open spec fn nothing() -> Rendering {
    Rendering { list: Seq::empty(), bytes: Seq::empty(), tokens: Seq::empty(), text: Seq::empty() }
}

/// Whether a name can be lexed as an identifier: a word that is no keyword.
pub open spec fn is_name(name: Seq<char>) -> bool {
    is_word(name) && is_no_keyword(name)
}

/// Whether the canonical text of an expression can be lexed back into its
/// canonical tokens: every identifier is a name, and there is no string
/// literal, whose text is rendered without its quotes.
pub open spec fn lexable(expression: ExpressionView) -> bool
    decreases expression, 0int,
{
    match expression {
        ExpressionView::Identifier(name) => is_name(name),
        ExpressionView::StringLiteral(_) => false,
        ExpressionView::ArrayLiteral(items) => forall|i: int|
            0 <= i < items.len() ==> lexable(#[trigger] items[i]),
        ExpressionView::HashLiteral(pairs) => forall|i: int|
            0 <= i < pairs.len() ==> lexable((#[trigger] pairs[i]).0) && lexable(pairs[i].1),
        ExpressionView::PrefixOperator { operator, right } => lexable(*right),
        ExpressionView::InfixOperator { operator, left, right } => lexable(*left) && lexable(
            *right,
        ),
        ExpressionView::If { condition, consequence, alternative } => lexable(*condition)
            && lexable_statements(consequence) && lexable_statements(alternative),
        ExpressionView::FunctionLiteral { parameters, body } => (forall|i: int|
            0 <= i < parameters.len() ==> is_name(#[trigger] parameters[i]))
            && lexable_statements(body),
        ExpressionView::FunctionCall { function, arguments } => lexable(*function) && forall|
            i: int,
        |
            0 <= i < arguments.len() ==> lexable(#[trigger] arguments[i]),
        ExpressionView::Index { left, index } => lexable(*left) && lexable(*index),
        _ => true,
    }
}

/// Whether the canonical text of a statement can be lexed back.
pub open spec fn lexable_statement(statement: StatementView) -> bool
    decreases statement, 0int,
{
    match statement {
        StatementView::Let { name, value } => is_name(name) && lexable(value),
        StatementView::Return(value) => lexable(value),
        StatementView::Expression(value) => lexable(value),
    }
}

/// Whether the canonical text of statements can be lexed back.
pub open spec fn lexable_statements(statements: Seq<StatementView>) -> bool
    decreases statements, 1int,
{
    forall|i: int| 0 <= i < statements.len() ==> lexable_statement(#[trigger] statements[i])
}

/// The text of ASCII bytes one after the other is the text of the ones and
/// then that of the others.
proof fn lemma_ascii_concat(first: Seq<u8>, second: Seq<u8>)
    ensures
        ascii_text(first + second) == ascii_text(first) + ascii_text(second),
        is_ascii_bytes(first) && is_ascii_bytes(second) ==> is_ascii_bytes(first + second),
{
    assert(ascii_text(first + second) =~= ascii_text(first) + ascii_text(second));
    if is_ascii_bytes(first) && is_ascii_bytes(second) {
        let both = first + second;
        assert forall|i: int| 0 <= i < both.len() implies #[trigger] both[i] < 128 by {
            if i < first.len() {
                assert(both[i] == first[i]);
            } else {
                assert(both[i] == second[i - first.len()]);
            }
        }
    }
}

/// The text of each token is the text of its spelling, which is ASCII.
pub proof fn lemma_token_text(token: TokenView)
    requires
        spellable(token),
    ensures
        token_text(token) == ascii_text(spelled(token)),
        is_ascii_bytes(spelled(token)),
        " "@ == ascii_text(seq![32u8]),
{
    reveal_strlit("fn");
    reveal_strlit("let");
    reveal_strlit("true");
    reveal_strlit("false");
    reveal_strlit("if");
    reveal_strlit("else");
    reveal_strlit("return");
    reveal_strlit("=");
    reveal_strlit("+");
    reveal_strlit("-");
    reveal_strlit("!");
    reveal_strlit("*");
    reveal_strlit("/");
    reveal_strlit("<");
    reveal_strlit(">");
    reveal_strlit("==");
    reveal_strlit("!=");
    reveal_strlit(",");
    reveal_strlit(";");
    reveal_strlit(":");
    reveal_strlit("(");
    reveal_strlit(")");
    reveal_strlit("{");
    reveal_strlit("}");
    reveal_strlit("[");
    reveal_strlit("]");
    reveal_strlit(" ");
    assert(" "@ =~= ascii_text(seq![32u8]));
    let bytes = spelled(token);
    match token {
        TokenView::Ident(name) => {
            assert forall|i: int| 0 <= i < name.len() implies (#[trigger] bytes[i]) < 128
                && ascii_text(bytes)[i] == name[i] by {
                assert(is_letter_char(name[i]));
            }
            assert(token_text(token) =~= ascii_text(bytes));
        },
        TokenView::Int(digits) => {
            assert forall|i: int| 0 <= i < digits.len() implies (#[trigger] bytes[i]) < 128
                && ascii_text(bytes)[i] == digits[i] by {
                assert(is_digit_char(digits[i]));
            }
            assert(token_text(token) =~= ascii_text(bytes));
        },
        _ => {
            assert(token_text(token) =~= ascii_text(bytes));
        },
    }
}

/// One spellable token is rendered soundly.
pub proof fn lemma_one(token: TokenView)
    requires
        spellable(token),
    ensures
        sound(one(token)),
        sound(spaced(token)),
{
    lemma_token_text(token);
    lemma_single(token, false);
    lemma_single(token, true);
    assert(spelled(token) + Seq::<u8>::empty() =~= spelled(token));
    lemma_ascii_concat(spelled(token), seq![32u8]);
}

/// Sound renderings that can be joined make a sound rendering.
pub proof fn lemma_joined(first: Rendering, second: Rendering)
    requires
        sound(first),
        sound(second),
        joinable(first.list, second.bytes),
    ensures
        sound(join(first, second)),
{
    lemma_join(first.list, first.tokens, first.bytes, second.list, second.tokens, second.bytes);
    lemma_ascii_concat(first.bytes, second.bytes);
}

/// A sound rendering with a space behind it is sound.
pub proof fn lemma_then_space(r: Rendering)
    requires
        sound(r),
        r.list.len() >= 1,
        !r.list.last().1,
    ensures
        sound(then_space(r)),
{
    lemma_with_space(r.list, r.tokens, r.bytes);
    lemma_ascii_concat(r.bytes, seq![32u8]);
    lemma_token_text(TokenView::Comma);
}

/// The rendering of nothing is sound.
pub proof fn lemma_nothing()
    ensures
        sound(nothing()),
{
    assert(crate::parse::spelling::tokens_of(nothing().list) =~= Seq::<TokenView>::empty());
    assert(ascii_text(Seq::<u8>::empty()) =~= Seq::<char>::empty());
}

/// A byte that is no letter, no digit and no `=` merges with no token.
pub proof fn lemma_never_merges(token: TokenView, next: u8)
    requires
        next == 40 || next == 41 || next == 44 || next == 58 || next == 59 || next == 91 || next
            == 93 || next == 123 || next == 125 || next == 32 || next == 33 || next == 45,
    ensures
        !merges(token, next),
{
}

/// The rendering of the first `upto` names, separated by a comma and a
/// space.
pub open spec fn render_names(names: Seq<Seq<char>>, upto: int) -> Rendering
    decreases upto,
{
    if upto <= 0 || upto > names.len() {
        nothing()
    } else if upto == 1 {
        one(TokenView::Ident(names[0]))
    } else {
        join(
            join(render_names(names, upto - 1), spaced(TokenView::Comma)),
            one(TokenView::Ident(names[upto - 1])),
        )
    }
}

/// The canonical rendering of an expression.
pub open spec fn render_expression(expression: ExpressionView) -> Rendering
    decreases expression, 0int,
{
    match expression {
        ExpressionView::Identifier(name) => one(TokenView::Ident(name)),
        ExpressionView::IntegerLiteral(value) => one(TokenView::Int(integer_text(value as int))),
        ExpressionView::BooleanLiteral(value) => one(
            if value {
                TokenView::True
            } else {
                TokenView::False
            },
        ),
        ExpressionView::StringLiteral(value) => nothing(),
        ExpressionView::ArrayLiteral(items) => join(
            join(one(TokenView::LBracket), render_expressions(items, items.len() as int)),
            one(TokenView::RBracket),
        ),
        ExpressionView::HashLiteral(pairs) => join(
            join(one(TokenView::Lsquigly), render_pairs(pairs, pairs.len() as int)),
            one(TokenView::Rsquigly),
        ),
        ExpressionView::PrefixOperator { operator, right } => join(
            join(
                join(one(TokenView::Lparen), one(prefix_operator_token(operator))),
                render_expression(*right),
            ),
            one(TokenView::Rparen),
        ),
        ExpressionView::InfixOperator { operator, left, right } => join(
            join(
                join(
                    join(one(TokenView::Lparen), then_space(render_expression(*left))),
                    spaced(infix_operator_token(operator)),
                ),
                render_expression(*right),
            ),
            one(TokenView::Rparen),
        ),
        ExpressionView::If { condition, consequence, alternative } => join(
            join(
                join(
                    join(
                        join(
                            join(
                                join(
                                    join(
                                        join(
                                            join(spaced(TokenView::If), one(TokenView::Lparen)),
                                            render_expression(*condition),
                                        ),
                                        spaced(TokenView::Rparen),
                                    ),
                                    one(TokenView::Lsquigly),
                                ),
                                render_statements(consequence, consequence.len() as int),
                            ),
                            spaced(TokenView::Rsquigly),
                        ),
                        spaced(TokenView::Else),
                    ),
                    one(TokenView::Lsquigly),
                ),
                render_statements(alternative, alternative.len() as int),
            ),
            one(TokenView::Rsquigly),
        ),
        ExpressionView::FunctionLiteral { parameters, body } => join(
            join(
                join(
                    join(
                        join(
                            join(one(TokenView::Function), one(TokenView::Lparen)),
                            render_names(parameters, parameters.len() as int),
                        ),
                        spaced(TokenView::Rparen),
                    ),
                    one(TokenView::Lsquigly),
                ),
                render_statements(body, body.len() as int),
            ),
            one(TokenView::Rsquigly),
        ),
        ExpressionView::FunctionCall { function, arguments } => join(
            join(
                join(render_expression(*function), one(TokenView::Lparen)),
                render_expressions(arguments, arguments.len() as int),
            ),
            one(TokenView::Rparen),
        ),
        ExpressionView::Index { left, index } => join(
            join(
                join(
                    join(
                        join(one(TokenView::Lparen), render_expression(*left)),
                        one(TokenView::LBracket),
                    ),
                    render_expression(*index),
                ),
                one(TokenView::RBracket),
            ),
            one(TokenView::Rparen),
        ),
    }
}

/// The rendering of the first `upto` expressions, separated by a comma and
/// a space.
pub open spec fn render_expressions(items: Seq<ExpressionView>, upto: int) -> Rendering
    decreases items, upto,
{
    if upto <= 0 || upto > items.len() {
        nothing()
    } else if upto == 1 {
        render_expression(items[0])
    } else {
        join(
            join(render_expressions(items, upto - 1), spaced(TokenView::Comma)),
            render_expression(items[upto - 1]),
        )
    }
}

/// The rendering of the first `upto` entries of a hash literal.
pub open spec fn render_pairs(pairs: Seq<(ExpressionView, ExpressionView)>, upto: int)
    -> Rendering
    decreases pairs, upto,
{
    if upto <= 0 || upto > pairs.len() {
        nothing()
    } else if upto == 1 {
        join(
            join(render_expression(pairs[0].0), spaced(TokenView::Colon)),
            render_expression(pairs[0].1),
        )
    } else {
        join(
            join(
                join(
                    join(render_pairs(pairs, upto - 1), spaced(TokenView::Comma)),
                    render_expression(pairs[upto - 1].0),
                ),
                spaced(TokenView::Colon),
            ),
            render_expression(pairs[upto - 1].1),
        )
    }
}

/// The canonical rendering of a statement, closed by a semicolon.
pub open spec fn render_statement(statement: StatementView) -> Rendering
    decreases statement, 0int,
{
    match statement {
        StatementView::Let { name, value } => join(
            join(
                join(
                    join(spaced(TokenView::Let), spaced(TokenView::Ident(name))),
                    spaced(TokenView::Assign),
                ),
                render_expression(value),
            ),
            one(TokenView::Semicolon),
        ),
        StatementView::Return(value) => join(
            join(spaced(TokenView::Return), render_expression(value)),
            one(TokenView::Semicolon),
        ),
        StatementView::Expression(value) => join(
            render_expression(value),
            one(TokenView::Semicolon),
        ),
    }
}

/// The canonical rendering of the first `upto` statements.
pub open spec fn render_statements(statements: Seq<StatementView>, upto: int) -> Rendering
    decreases statements, upto,
{
    if upto <= 0 || upto > statements.len() {
        nothing()
    } else {
        join(render_statements(statements, upto - 1), render_statement(statements[upto - 1]))
    }
}

/// What the rendering of an expression is: sound, of the canonical tokens
/// and the canonical text of the expression, without a space behind it, and
/// with a first byte that is no `=`.
pub open spec fn renders_expression(r: Rendering, expression: ExpressionView) -> bool {
    &&& sound(r)
    &&& r.tokens == expression_tokens(expression)
    &&& r.text == expression_text(expression)
    &&& r.list.len() >= 1
    &&& !r.list.last().1
    &&& r.bytes.len() >= 1
    &&& r.bytes[0] != 61
}

/// What the rendering of a list is: sound, of given tokens and a given
/// text, and, unless it is empty, without a space behind it and with a
/// first byte that is no `=`.
pub open spec fn renders_list(r: Rendering, tokens: Seq<TokenView>, text: Seq<char>) -> bool {
    &&& sound(r)
    &&& r.tokens == tokens
    &&& r.text == text
    &&& r.list.len() >= 1 ==> !r.list.last().1 && r.bytes.len() >= 1 && r.bytes[0] != 61
    &&& r.list.len() == 0 ==> r.bytes.len() == 0
}

/// What the rendering of statements is: sound, of their canonical tokens
/// and their canonical text, and, unless it is empty, ending in a
/// semicolon.
pub open spec fn renders_statements(r: Rendering, statements: Seq<StatementView>, upto: int)
    -> bool {
    &&& sound(r)
    &&& r.tokens == statements_tokens(statements, upto)
    &&& r.text == statements_text(statements, upto)
    &&& r.list.len() >= 1 ==> r.list.last() == (TokenView::Semicolon, false)
    &&& r.list.len() == 0 ==> r.bytes.len() == 0
}

/// The digits of an integer that is not negative are a number.
proof fn lemma_integer_is_number(value: i64)
    requires
        value >= 0,
    ensures
        is_number(integer_text(value as int)),
{
    let digits = natural_digits(value as nat);
    lemma_natural_digits_value(value as nat);
    assert(integer_digits(value as int) == digits);
    let text = integer_text(value as int);
    assert forall|i: int| 0 <= i < text.len() implies is_digit_char(#[trigger] text[i]) by {
        assert(48 <= digits[i] <= 57);
    }
}

/// The literal texts of the canonical rendering are made of the texts of
/// their tokens and of spaces.
proof fn lemma_literals()
    ensures
        "if ("@ == "if"@ + " "@ + "("@,
        ") {"@ == ")"@ + " "@ + "{"@,
        "} else {"@ == "}"@ + " "@ + "else"@ + " "@ + "{"@,
        "fn("@ == "fn"@ + "("@,
        "])"@ == "]"@ + ")"@,
        "let "@ == "let"@ + " "@,
        " = "@ == " "@ + "="@ + " "@,
        "return "@ == "return"@ + " "@,
        ", "@ == ","@ + " "@,
        ": "@ == ":"@ + " "@,
{
    reveal_strlit("if (");
    reveal_strlit(") {");
    reveal_strlit("} else {");
    reveal_strlit("fn(");
    reveal_strlit("])");
    reveal_strlit("let ");
    reveal_strlit(" = ");
    reveal_strlit("return ");
    reveal_strlit(", ");
    reveal_strlit(": ");
    reveal_strlit("if");
    reveal_strlit(" ");
    reveal_strlit("(");
    reveal_strlit(")");
    reveal_strlit("{");
    reveal_strlit("}");
    reveal_strlit("else");
    reveal_strlit("fn");
    reveal_strlit("]");
    reveal_strlit("let");
    reveal_strlit("=");
    reveal_strlit("return");
    reveal_strlit(",");
    reveal_strlit(":");
    assert("if ("@ =~= "if"@ + " "@ + "("@);
    assert(") {"@ =~= ")"@ + " "@ + "{"@);
    assert("} else {"@ =~= "}"@ + " "@ + "else"@ + " "@ + "{"@);
    assert("fn("@ =~= "fn"@ + "("@);
    assert("])"@ =~= "]"@ + ")"@);
    assert("let "@ =~= "let"@ + " "@);
    assert(" = "@ =~= " "@ + "="@ + " "@);
    assert("return "@ =~= "return"@ + " "@);
    assert(", "@ =~= ","@ + " "@);
    assert(": "@ =~= ":"@ + " "@);
}

/// The texts of the operators are the texts of their tokens.
proof fn lemma_operator_texts(prefix: PrefixOperatorKind, infix: InfixOperatorKind)
    ensures
        token_text(prefix_operator_token(prefix)) == prefix_operator_text(prefix),
        token_text(infix_operator_token(infix)) == infix_operator_text(infix),
        spellable(prefix_operator_token(prefix)),
        spellable(infix_operator_token(infix)),
{
}

/// Whether a token is a sign that opens or closes or separates: it merges
/// with nothing behind it, and its first byte with nothing before it.
pub open spec fn is_delimiter(token: TokenView) -> bool {
    token is Lparen || token is Rparen || token is Comma || token is Colon || token is Semicolon
        || token is LBracket || token is RBracket || token is Lsquigly || token is Rsquigly
}

/// A delimiter can follow anything.
proof fn lemma_append(r: Rendering, token: TokenView)
    requires
        sound(r),
        is_delimiter(token),
    ensures
        sound(join(r, one(token))),
        sound(join(r, spaced(token))),
{
    lemma_one(token);
    if r.list.len() > 0 {
        lemma_never_merges(r.list.last().0, one(token).bytes[0]);
        lemma_never_merges(r.list.last().0, spaced(token).bytes[0]);
    }
    lemma_joined(r, one(token));
    lemma_joined(r, spaced(token));
}

/// Anything can follow a rendering that ends in a delimiter without a
/// space, or in a space, or that is empty.
proof fn lemma_follow(first: Rendering, second: Rendering)
    requires
        sound(first),
        sound(second),
        first.list.len() >= 1 ==> first.list.last().1 || is_delimiter(first.list.last().0),
    ensures
        sound(join(first, second)),
{
    lemma_joined(first, second);
}

/// The rendering of names is sound, of their tokens and of their text.
proof fn lemma_render_names(names: Seq<Seq<char>>, upto: int)
    requires
        forall|i: int| 0 <= i < names.len() ==> is_name(#[trigger] names[i]),
        0 <= upto <= names.len(),
    ensures
        sound(render_names(names, upto)),
        render_names(names, upto).tokens == names_tokens(names, upto),
        render_names(names, upto).text == names_text(names, upto),
        upto >= 1 ==> render_names(names, upto).list.len() >= 1 && !render_names(
            names,
            upto,
        ).list.last().1,
    decreases upto,
{
    lemma_literals();
    if upto == 0 {
        lemma_nothing();
    } else if upto == 1 {
        assert(is_name(names[0]));
        lemma_one(TokenView::Ident(names[0]));
    } else {
        lemma_render_names(names, upto - 1);
        assert(is_name(names[upto - 1]));
        let before = render_names(names, upto - 1);
        lemma_append(before, TokenView::Comma);
        lemma_one(TokenView::Ident(names[upto - 1]));
        let separated = join(before, spaced(TokenView::Comma));
        lemma_follow(separated, one(TokenView::Ident(names[upto - 1])));
        let all = render_names(names, upto);
        assert(all.tokens =~= names_tokens(names, upto));
        assert(all.text =~= names_text(names, upto));
    }
}

/// The rendering of an expression is sound, of the canonical tokens and the
/// canonical text of the expression.
pub proof fn lemma_render_expression(e: ExpressionView)
    requires
        canonical(e),
        lexable(e),
    ensures
        renders_expression(render_expression(e), e),
    decreases e, 1int,
{
    match e {
        ExpressionView::Identifier(name) => {
            lemma_one(TokenView::Ident(name));
            lemma_spelled(TokenView::Ident(name));
            assert(is_letter_char(name[0]));
        },
        ExpressionView::IntegerLiteral(value) => {
            lemma_integer_is_number(value);
            let token = TokenView::Int(integer_text(value as int));
            lemma_one(token);
            lemma_spelled(token);
            assert(is_digit_char(integer_text(value as int)[0]));
        },
        ExpressionView::BooleanLiteral(value) => {
            lemma_one(TokenView::True);
            lemma_one(TokenView::False);
            reveal_strlit("true");
            reveal_strlit("false");
        },
        ExpressionView::StringLiteral(value) => {},
        ExpressionView::ArrayLiteral(items) => {
            lemma_render_array(e);
        },
        ExpressionView::HashLiteral(pairs) => {
            lemma_render_hash(e);
        },
        ExpressionView::PrefixOperator { operator, right } => {
            lemma_render_prefix(e);
        },
        ExpressionView::InfixOperator { operator, left, right } => {
            lemma_render_infix(e);
        },
        ExpressionView::If { condition, consequence, alternative } => {
            lemma_render_if(e);
        },
        ExpressionView::FunctionLiteral { parameters, body } => {
            lemma_render_function(e);
        },
        ExpressionView::FunctionCall { function, arguments } => {
            lemma_render_call(e);
        },
        ExpressionView::Index { left, index } => {
            lemma_render_index(e);
        },
    }
}

/// The rendering of the first `upto` expressions is sound, of their tokens
/// and of their text.
proof fn lemma_render_expressions(items: Seq<ExpressionView>, upto: int)
    requires
        forall|i: int| 0 <= i < items.len() ==> canonical(#[trigger] items[i]) && lexable(items[i]),
        0 <= upto <= items.len(),
    ensures
        renders_list(
            render_expressions(items, upto),
            expressions_tokens(items, upto),
            expressions_text(items, upto),
        ),
    decreases items, upto,
{
    lemma_literals();
    if upto == 0 {
        lemma_nothing();
    } else if upto == 1 {
        lemma_render_expression(items[0]);
    } else {
        lemma_render_expressions(items, upto - 1);
        lemma_render_expression(items[upto - 1]);
        let before = render_expressions(items, upto - 1);
        lemma_append(before, TokenView::Comma);
        let separated = join(before, spaced(TokenView::Comma));
        lemma_follow(separated, render_expression(items[upto - 1]));
        let all = render_expressions(items, upto);
        assert(all.tokens =~= expressions_tokens(items, upto));
        assert(all.text =~= expressions_text(items, upto));
    }
}

/// The rendering of the first `upto` entries of a hash literal is sound, of
/// their tokens and of their text.
proof fn lemma_render_pairs(pairs: Seq<(ExpressionView, ExpressionView)>, upto: int)
    requires
        forall|i: int|
            0 <= i < pairs.len() ==> canonical((#[trigger] pairs[i]).0) && canonical(pairs[i].1)
                && lexable(pairs[i].0) && lexable(pairs[i].1),
        0 <= upto <= pairs.len(),
    ensures
        renders_list(
            render_pairs(pairs, upto),
            pairs_tokens(pairs, upto),
            pairs_text(pairs, upto),
        ),
    decreases pairs, upto,
{
    lemma_literals();
    if upto == 0 {
        lemma_nothing();
    } else {
        let key = render_expression(pairs[upto - 1].0);
        let value = render_expression(pairs[upto - 1].1);
        assert(canonical(pairs[upto - 1].0) && lexable(pairs[upto - 1].1));
        lemma_render_expression(pairs[upto - 1].0);
        lemma_render_expression(pairs[upto - 1].1);
        if upto == 1 {
            lemma_append(key, TokenView::Colon);
            lemma_follow(join(key, spaced(TokenView::Colon)), value);
            let all = render_pairs(pairs, upto);
            assert(all.tokens =~= pairs_tokens(pairs, upto));
            assert(all.text =~= pairs_text(pairs, upto));
        } else {
            lemma_render_pairs(pairs, upto - 1);
            let before = render_pairs(pairs, upto - 1);
            lemma_append(before, TokenView::Comma);
            let separated = join(before, spaced(TokenView::Comma));
            lemma_follow(separated, key);
            let keyed = join(separated, key);
            lemma_append(keyed, TokenView::Colon);
            lemma_follow(join(keyed, spaced(TokenView::Colon)), value);
            let all = render_pairs(pairs, upto);
            assert(all.tokens =~= pairs_tokens(pairs, upto));
            assert(all.text =~= pairs_text(pairs, upto));
        }
    }
}

/// The rendering of an array literal.
proof fn lemma_render_array(e: ExpressionView)
    requires
        canonical(e),
        lexable(e),
        e is ArrayLiteral,
    ensures
        renders_expression(render_expression(e), e),
    decreases e, 0int,
{
    let items = e->ArrayLiteral_0;
    lemma_one(TokenView::LBracket);
    lemma_render_expressions(items, items.len() as int);
    let inner = render_expressions(items, items.len() as int);
    lemma_follow(one(TokenView::LBracket), inner);
    lemma_append(join(one(TokenView::LBracket), inner), TokenView::RBracket);
    let all = render_expression(e);
    assert(all.tokens =~= expression_tokens(e));
    assert(all.text =~= expression_text(e));
    lemma_spelled(TokenView::LBracket);
}

/// The rendering of a hash literal.
proof fn lemma_render_hash(e: ExpressionView)
    requires
        canonical(e),
        lexable(e),
        e is HashLiteral,
    ensures
        renders_expression(render_expression(e), e),
    decreases e, 0int,
{
    let pairs = e->HashLiteral_0;
    lemma_one(TokenView::Lsquigly);
    lemma_render_pairs(pairs, pairs.len() as int);
    let inner = render_pairs(pairs, pairs.len() as int);
    lemma_follow(one(TokenView::Lsquigly), inner);
    lemma_append(join(one(TokenView::Lsquigly), inner), TokenView::Rsquigly);
    let all = render_expression(e);
    assert(all.tokens =~= expression_tokens(e));
    assert(all.text =~= expression_text(e));
}

/// The rendering of a prefix operation.
proof fn lemma_render_prefix(e: ExpressionView)
    requires
        canonical(e),
        lexable(e),
        e is PrefixOperator,
    ensures
        renders_expression(render_expression(e), e),
    decreases e, 0int,
{
    let operator = e->PrefixOperator_operator;
    let right = e->PrefixOperator_right;
    let sign = prefix_operator_token(operator);
    lemma_operator_texts(operator, InfixOperatorKind::Add);
    lemma_one(TokenView::Lparen);
    lemma_one(sign);
    lemma_render_expression(*right);
    let operand = render_expression(*right);
    lemma_follow(one(TokenView::Lparen), one(sign));
    let opened = join(one(TokenView::Lparen), one(sign));
    assert(opened.list.last() == (sign, false));
    assert(!merges(sign, operand.bytes[0]));
    lemma_joined(opened, operand);
    lemma_append(join(opened, operand), TokenView::Rparen);
    let all = render_expression(e);
    assert(all.tokens =~= expression_tokens(e));
    assert(all.text =~= expression_text(e));
}

/// The rendering of a binary operation.
proof fn lemma_render_infix(e: ExpressionView)
    requires
        canonical(e),
        lexable(e),
        e is InfixOperator,
    ensures
        renders_expression(render_expression(e), e),
    decreases e, 0int,
{
    let operator = e->InfixOperator_operator;
    let left = e->InfixOperator_left;
    let right = e->InfixOperator_right;
    let sign = infix_operator_token(operator);
    lemma_operator_texts(PrefixOperatorKind::Not, operator);
    lemma_one(TokenView::Lparen);
    lemma_one(sign);
    lemma_render_expression(*left);
    lemma_render_expression(*right);
    let first = then_space(render_expression(*left));
    lemma_then_space(render_expression(*left));
    lemma_follow(one(TokenView::Lparen), first);
    let opened = join(one(TokenView::Lparen), first);
    assert(opened.list.last() == first.list.last());
    lemma_follow(opened, spaced(sign));
    let signed = join(opened, spaced(sign));
    assert(signed.list.last() == (sign, true));
    lemma_follow(signed, render_expression(*right));
    lemma_append(join(signed, render_expression(*right)), TokenView::Rparen);
    let all = render_expression(e);
    assert(all.tokens =~= expression_tokens(e));
    assert(all.text =~= expression_text(e));
}

/// The rendering of an index access.
#[verifier::rlimit(100)]
#[verifier::spinoff_prover]
proof fn lemma_render_index(e: ExpressionView)
    requires
        canonical(e),
        lexable(e),
        e is Index,
    ensures
        renders_expression(render_expression(e), e),
    decreases e, 0int,
{
    let left = e->Index_left;
    let index = e->Index_index;
    lemma_literals();
    lemma_one(TokenView::Lparen);
    lemma_render_expression(*left);
    lemma_render_expression(*index);
    lemma_follow(one(TokenView::Lparen), render_expression(*left));
    let opened = join(one(TokenView::Lparen), render_expression(*left));
    lemma_append(opened, TokenView::LBracket);
    let bracket = join(opened, one(TokenView::LBracket));
    assert(bracket.list.last() == (TokenView::LBracket, false));
    lemma_follow(bracket, render_expression(*index));
    let indexed = join(bracket, render_expression(*index));
    lemma_append(indexed, TokenView::RBracket);
    lemma_append(join(indexed, one(TokenView::RBracket)), TokenView::Rparen);
    let all = render_expression(e);
    assert(all.tokens =~= expression_tokens(e));
    assert(all.text =~= expression_text(e));
}

/// The rendering of a call.
proof fn lemma_render_call(e: ExpressionView)
    requires
        canonical(e),
        lexable(e),
        e is FunctionCall,
    ensures
        renders_expression(render_expression(e), e),
    decreases e, 0int,
{
    let function = e->FunctionCall_function;
    let arguments = e->FunctionCall_arguments;
    lemma_render_expression(*function);
    lemma_render_expressions(arguments, arguments.len() as int);
    let callee = render_expression(*function);
    let list = render_expressions(arguments, arguments.len() as int);
    lemma_append(callee, TokenView::Lparen);
    let opened = join(callee, one(TokenView::Lparen));
    assert(opened.list.last() == (TokenView::Lparen, false));
    lemma_follow(opened, list);
    lemma_append(join(opened, list), TokenView::Rparen);
    let all = render_expression(e);
    assert(all.tokens =~= expression_tokens(e));
    assert(all.text =~= expression_text(e));
}

/// The rendering of a function literal.
proof fn lemma_render_function(e: ExpressionView)
    requires
        canonical(e),
        lexable(e),
        e is FunctionLiteral,
    ensures
        renders_expression(render_expression(e), e),
    decreases e, 0int,
{
    let parameters = e->FunctionLiteral_parameters;
    let body = e->FunctionLiteral_body;
    lemma_literals();
    lemma_one(TokenView::Function);
    lemma_render_names(parameters, parameters.len() as int);
    lemma_render_statements(body, body.len() as int);
    let names = render_names(parameters, parameters.len() as int);
    let inside = render_statements(body, body.len() as int);
    lemma_append(one(TokenView::Function), TokenView::Lparen);
    let opened = join(one(TokenView::Function), one(TokenView::Lparen));
    assert(opened.list.last() == (TokenView::Lparen, false));
    lemma_follow(opened, names);
    let named = join(opened, names);
    lemma_append(named, TokenView::Rparen);
    let closed = join(named, spaced(TokenView::Rparen));
    lemma_append(closed, TokenView::Lsquigly);
    let braced = join(closed, one(TokenView::Lsquigly));
    assert(braced.list.last() == (TokenView::Lsquigly, false));
    lemma_follow(braced, inside);
    lemma_append(join(braced, inside), TokenView::Rsquigly);
    let all = render_expression(e);
    assert(all.tokens =~= expression_tokens(e));
    assert(all.text =~= expression_text(e));
    reveal_strlit("fn");
}

/// The rendering of a conditional.
#[verifier::rlimit(100)]
proof fn lemma_render_if(e: ExpressionView)
    requires
        canonical(e),
        lexable(e),
        e is If,
    ensures
        renders_expression(render_expression(e), e),
    decreases e, 0int,
{
    let condition = e->If_condition;
    let consequence = e->If_consequence;
    let alternative = e->If_alternative;
    lemma_literals();
    lemma_one(TokenView::If);
    lemma_one(TokenView::Else);
    lemma_render_expression(*condition);
    lemma_render_statements(consequence, consequence.len() as int);
    lemma_render_statements(alternative, alternative.len() as int);
    let test = render_expression(*condition);
    let first = render_statements(consequence, consequence.len() as int);
    let second = render_statements(alternative, alternative.len() as int);
    lemma_append(spaced(TokenView::If), TokenView::Lparen);
    let r1 = join(spaced(TokenView::If), one(TokenView::Lparen));
    assert(r1.list.last() == (TokenView::Lparen, false));
    lemma_follow(r1, test);
    let r2 = join(r1, test);
    lemma_append(r2, TokenView::Rparen);
    let r3 = join(r2, spaced(TokenView::Rparen));
    lemma_append(r3, TokenView::Lsquigly);
    let r4 = join(r3, one(TokenView::Lsquigly));
    assert(r4.list.last() == (TokenView::Lsquigly, false));
    lemma_follow(r4, first);
    let r5 = join(r4, first);
    lemma_append(r5, TokenView::Rsquigly);
    let r6 = join(r5, spaced(TokenView::Rsquigly));
    assert(r6.list.last() == (TokenView::Rsquigly, true));
    lemma_follow(r6, spaced(TokenView::Else));
    let r7 = join(r6, spaced(TokenView::Else));
    lemma_append(r7, TokenView::Lsquigly);
    let r8 = join(r7, one(TokenView::Lsquigly));
    assert(r8.list.last() == (TokenView::Lsquigly, false));
    lemma_follow(r8, second);
    let r9 = join(r8, second);
    lemma_append(r9, TokenView::Rsquigly);
    let all = render_expression(e);
    assert(all == join(r9, one(TokenView::Rsquigly)));
    assert(all.tokens =~= expression_tokens(e));
    assert(all.text =~= expression_text(e));
    reveal_strlit("if");
}

/// The rendering of a statement is sound, of the canonical tokens of the
/// statement and of its canonical text with the semicolon behind it.
proof fn lemma_render_statement(s: StatementView)
    requires
        canonical_statement(s),
        lexable_statement(s),
    ensures
        sound(render_statement(s)),
        render_statement(s).tokens == statement_tokens(s),
        render_statement(s).text == statement_text(s) + ";"@,
        render_statement(s).list.len() >= 1,
        render_statement(s).list.last() == (TokenView::Semicolon, false),
    decreases s, 0int,
{
    lemma_literals();
    match s {
        StatementView::Let { name, value } => {
            lemma_one(TokenView::Let);
            lemma_one(TokenView::Ident(name));
            lemma_one(TokenView::Assign);
            lemma_render_expression(value);
            let r1 = join(spaced(TokenView::Let), spaced(TokenView::Ident(name)));
            lemma_follow(spaced(TokenView::Let), spaced(TokenView::Ident(name)));
            assert(r1.list.last() == (TokenView::Ident(name), true));
            lemma_follow(r1, spaced(TokenView::Assign));
            let r2 = join(r1, spaced(TokenView::Assign));
            assert(r2.list.last() == (TokenView::Assign, true));
            lemma_follow(r2, render_expression(value));
            lemma_append(join(r2, render_expression(value)), TokenView::Semicolon);
            let all = render_statement(s);
            assert(all.tokens =~= statement_tokens(s));
            assert(all.text =~= statement_text(s) + ";"@);
        },
        StatementView::Return(value) => {
            lemma_one(TokenView::Return);
            lemma_render_expression(value);
            lemma_follow(spaced(TokenView::Return), render_expression(value));
            lemma_append(
                join(spaced(TokenView::Return), render_expression(value)),
                TokenView::Semicolon,
            );
            let all = render_statement(s);
            assert(all.tokens =~= statement_tokens(s));
            assert(all.text =~= statement_text(s) + ";"@);
        },
        StatementView::Expression(value) => {
            lemma_render_expression(value);
            lemma_append(render_expression(value), TokenView::Semicolon);
            let all = render_statement(s);
            assert(all.tokens =~= statement_tokens(s));
            assert(all.text =~= statement_text(s) + ";"@);
        },
    }
}

/// The rendering of the first `upto` statements is sound, of their
/// canonical tokens and of their canonical text.
proof fn lemma_render_statements(statements: Seq<StatementView>, upto: int)
    requires
        canonical_statements(statements),
        lexable_statements(statements),
        0 <= upto <= statements.len(),
    ensures
        renders_statements(render_statements(statements, upto), statements, upto),
    decreases statements, upto,
{
    if upto == 0 {
        lemma_nothing();
    } else {
        lemma_render_statements(statements, upto - 1);
        assert(canonical_statement(statements[upto - 1]));
        assert(lexable_statement(statements[upto - 1]));
        lemma_render_statement(statements[upto - 1]);
        let before = render_statements(statements, upto - 1);
        let last = render_statement(statements[upto - 1]);
        lemma_follow(before, last);
        let all = render_statements(statements, upto);
        assert(all.list.last() == last.list.last());
        assert(all.tokens =~= statements_tokens(statements, upto));
        assert(all.text =~= statements_text(statements, upto));
    }
}

/// The canonical text of a program parses back to the program: lexing the
/// rendering of a syntax tree and parsing the tokens yields the tree again,
/// for every tree that the parser can have built and whose text can be
/// lexed: its identifiers are names, and it holds no string literal.
pub proof fn law_rendering_parses_back(statements: Seq<StatementView>)
    requires
        canonical_statements(statements),
        lexable_statements(statements),
    ensures
        parse_tokens(
            scan_all(encode_utf8(statements_text(statements, statements.len() as int)), 0),
        ) == Ok::<Seq<StatementView>, ErrorView>(statements),
{
    let rendering = render_statements(statements, statements.len() as int);
    lemma_render_statements(statements, statements.len() as int);
    lemma_scan_composed(rendering.list, rendering.tokens, rendering.bytes);
    lemma_ascii_text(rendering.bytes);
    law_parser_inverts_rendering(statements);
}

} // verus!
