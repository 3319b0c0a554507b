//! What the parser builds is a tree whose rendering parses back to it: the
//! rendering of a parsed program is a fixed point of parsing and rendering.

use vstd::prelude::*;
use vstd::utf8::encode_utf8;
use crate::ast::{statements_text, ExpressionView, StatementView};
use crate::lexer::{
    is_letter_byte, lemma_scan_ends, letters_end, punctuation, scan, scan_all, whitespace_end,
};
use crate::parse::error::ErrorView;
use crate::parse::grammar::{
    all_digits, array_literal, block, block_statements, call_expression, continuation,
    digits_value, expression, expression_list, function_literal,
    function_parameters, grouped, hash_literal, hash_pairs, identifier_of, if_expression,
    index_expression, infix, infix_operator, infix_operator_of, more_expressions,
    more_parameters, parse_tokens, prefix, prefix_operator, prefix_operator_of, program,
    statement, step, token_at,
};
use crate::parse::precedence::{precedence_level, precedence_of_optional, Precedence};
use crate::parse::rendering::{canonical, canonical_statement, canonical_statements};
use crate::parse::roundtrip::{
    is_name, law_rendering_parses_back, lexable, lexable_statement, lexable_statements,
};
use crate::parse::spelling::{is_letter_char, is_no_keyword, is_word};
use crate::text::ascii_text;
use crate::token::{is_infix_token, keyword_or_ident, TokenView};

verus! {

/// Whether a token is no string literal, and a name if it is an identifier.
pub open spec fn plain(token: TokenView) -> bool {
    match token {
        TokenView::Ident(name) => is_name(name),
        TokenView::Str(_) => false,
        _ => true,
    }
}

/// Whether tokens hold no string literal and only names as identifiers.
pub open spec fn plain_tokens(tokens: Seq<TokenView>) -> bool {
    forall|i: int| 0 <= i < tokens.len() ==> plain(#[trigger] tokens[i])
}

/// Whether an expression is one whose rendering parses back to it.
pub open spec fn neat(expression: ExpressionView) -> bool {
    canonical(expression) && lexable(expression)
}

/// Whether every expression of a list is neat.
pub open spec fn neat_list(items: Seq<ExpressionView>) -> bool {
    forall|i: int| 0 <= i < items.len() ==> neat(#[trigger] items[i])
}

/// Whether every key and every value of the entries is neat.
pub open spec fn neat_pairs(pairs: Seq<(ExpressionView, ExpressionView)>) -> bool {
    forall|i: int| 0 <= i < pairs.len() ==> neat((#[trigger] pairs[i]).0) && neat(pairs[i].1)
}

/// Whether a statement is one whose rendering parses back to it.
pub open spec fn neat_statement(statement: StatementView) -> bool {
    canonical_statement(statement) && lexable_statement(statement)
}

/// Whether every statement is neat.
pub open spec fn neat_statements(statements: Seq<StatementView>) -> bool {
    forall|i: int| 0 <= i < statements.len() ==> neat_statement(#[trigger] statements[i])
}

/// Whether every text of a list is a name.
pub open spec fn all_names(list: Seq<Seq<char>>) -> bool {
    forall|i: int| 0 <= i < list.len() ==> is_name(#[trigger] list[i])
}

/// Decimal digits denote a number that is not negative.
proof fn lemma_digits_not_negative(digits: Seq<u8>, upto: int)
    requires
        all_digits(digits),
        upto <= digits.len(),
    ensures
        digits_value(digits, upto) >= 0,
    decreases upto,
{
    if upto > 0 {
        lemma_digits_not_negative(digits, upto - 1);
        assert(48 <= digits[upto - 1] <= 57);
    }
}

/// Statements parsed one after the other from plain tokens are neat.
proof fn lemma_program(tokens: Seq<TokenView>, pos: int, done: Seq<StatementView>)
    requires
        plain_tokens(tokens),
        neat_statements(done),
    ensures
        program(tokens, pos, done) matches Ok(statements) ==> neat_statements(statements),
    decreases tokens.len() - pos, 20int,
{
    if token_at(tokens, pos) is None {
    } else {
        lemma_statement(tokens, pos);
        match statement(tokens, pos) {
            Err(_) => {},
            Ok((parsed, last)) => {
                let all = done.push(parsed);
                assert forall|i: int| 0 <= i < all.len() implies neat_statement(
                    #[trigger] all[i],
                ) by {
                    if i < done.len() {
                        assert(all[i] == done[i]);
                    }
                }
                if pos <= last <= tokens.len() {
                    lemma_program(tokens, step(tokens, last), all);
                }
            },
        }
    }
}

/// The statements of a block of plain tokens are neat.
proof fn lemma_block_statements(tokens: Seq<TokenView>, pos: int, done: Seq<StatementView>)
    requires
        plain_tokens(tokens),
        neat_statements(done),
    ensures
        block_statements(tokens, pos, done) matches Ok((statements, _)) ==> neat_statements(
            statements,
        ),
    decreases tokens.len() - pos, 20int,
{
    if token_at(tokens, pos) is None || token_at(tokens, pos) == Some(TokenView::Rsquigly) {
    } else {
        lemma_statement(tokens, pos);
        match statement(tokens, pos) {
            Err(_) => {},
            Ok((parsed, last)) => {
                let all = done.push(parsed);
                assert forall|i: int| 0 <= i < all.len() implies neat_statement(
                    #[trigger] all[i],
                ) by {
                    if i < done.len() {
                        assert(all[i] == done[i]);
                    }
                }
                if pos <= last <= tokens.len() {
                    lemma_block_statements(tokens, step(tokens, last), all);
                }
            },
        }
    }
}

/// A block of plain tokens is neat.
proof fn lemma_block(tokens: Seq<TokenView>, pos: int)
    requires
        plain_tokens(tokens),
    ensures
        block(tokens, pos) matches Ok((statements, _)) ==> neat_statements(statements),
    decreases tokens.len() - pos, 21int,
{
    if step(tokens, pos) > pos {
        lemma_block_statements(tokens, step(tokens, pos), Seq::empty());
    }
}

/// A statement of plain tokens is neat.
proof fn lemma_statement(tokens: Seq<TokenView>, pos: int)
    requires
        plain_tokens(tokens),
    ensures
        statement(tokens, pos) matches Ok((parsed, _)) ==> neat_statement(parsed),
    decreases tokens.len() - pos, 19int,
{
    match token_at(tokens, pos) {
        Some(TokenView::Let) => {
            let name_at = step(tokens, pos);
            if 0 <= name_at < tokens.len() {
                assert(plain(tokens[name_at]));
            }
            if identifier_of(token_at(tokens, name_at)) is Ok && token_at(tokens, name_at + 1)
                == Some(TokenView::Assign) && name_at + 2 > pos {
                lemma_expression(tokens, name_at + 2, Precedence::Lowest);
            }
        },
        Some(TokenView::Return) => {
            if step(tokens, pos) > pos {
                lemma_expression(tokens, step(tokens, pos), Precedence::Lowest);
            }
        },
        _ => {
            lemma_expression(tokens, pos, Precedence::Lowest);
        },
    }
}

/// An expression of plain tokens is neat.
proof fn lemma_expression(tokens: Seq<TokenView>, pos: int, precedence: Precedence)
    requires
        plain_tokens(tokens),
    ensures
        expression(tokens, pos, precedence) matches Ok((parsed, _)) ==> neat(parsed),
    decreases tokens.len() - pos, 17int,
{
    lemma_prefix(tokens, pos);
    match prefix(tokens, pos) {
        Err(_) => {},
        Ok((left, last)) => {
            if pos <= last <= tokens.len() {
                lemma_continuation(tokens, last, precedence, left);
            }
        },
    }
}

/// A neat expression grows into a neat expression.
proof fn lemma_continuation(
    tokens: Seq<TokenView>,
    pos: int,
    precedence: Precedence,
    left: ExpressionView,
)
    requires
        plain_tokens(tokens),
        neat(left),
    ensures
        continuation(tokens, pos, precedence, left) matches Ok((parsed, _)) ==> neat(parsed),
    decreases tokens.len() - pos, 16int,
{
    let peek = token_at(tokens, pos + 1);
    if peek != Some(TokenView::Semicolon) && precedence_level(precedence) < precedence_level(
        precedence_of_optional(peek),
    ) {
        if peek is Some && is_infix_token(peek->0) {
            lemma_infix(tokens, pos + 1, left);
            match infix(tokens, pos + 1, left) {
                Err(_) => {},
                Ok((grown, last)) => {
                    if pos < last <= tokens.len() {
                        lemma_continuation(tokens, last, precedence, grown);
                    }
                },
            }
        }
    }
}

/// An expression without a left operand is neat.
proof fn lemma_prefix(tokens: Seq<TokenView>, pos: int)
    requires
        plain_tokens(tokens),
    ensures
        prefix(tokens, pos) matches Ok((parsed, _)) ==> neat(parsed),
    decreases tokens.len() - pos, 15int,
{
    if 0 <= pos < tokens.len() {
        assert(plain(tokens[pos]));
    }
    match token_at(tokens, pos) {
        Some(TokenView::Int(digits)) => {
            if all_digits(encode_utf8(digits)) {
                lemma_digits_not_negative(encode_utf8(digits), encode_utf8(digits).len() as int);
            }
        },
        Some(TokenView::Bang) | Some(TokenView::Minus) => {
            lemma_prefix_operator(tokens, pos);
        },
        Some(TokenView::Lparen) => {
            lemma_grouped(tokens, pos);
        },
        Some(TokenView::LBracket) => {
            lemma_array_literal(tokens, pos);
        },
        Some(TokenView::Lsquigly) => {
            lemma_hash_literal(tokens, pos);
        },
        Some(TokenView::If) => {
            lemma_if_expression(tokens, pos);
        },
        Some(TokenView::Function) => {
            lemma_function_literal(tokens, pos);
        },
        _ => {},
    }
}

/// What an operator, a call or an index access makes of a neat expression
/// is neat.
proof fn lemma_infix(tokens: Seq<TokenView>, pos: int, left: ExpressionView)
    requires
        plain_tokens(tokens),
        neat(left),
    ensures
        infix(tokens, pos, left) matches Ok((parsed, _)) ==> neat(parsed),
    decreases tokens.len() - pos, 15int,
{
    match token_at(tokens, pos) {
        Some(TokenView::Plus)
        | Some(TokenView::Minus)
        | Some(TokenView::Asterisk)
        | Some(TokenView::Slash)
        | Some(TokenView::Eq)
        | Some(TokenView::NotEq)
        | Some(TokenView::Lt)
        | Some(TokenView::Gt) => {
            lemma_infix_operator(tokens, pos, left);
        },
        Some(TokenView::Lparen) => {
            lemma_call_expression(tokens, pos, left);
        },
        Some(TokenView::LBracket) => {
            lemma_index_expression(tokens, pos, left);
        },
        _ => {},
    }
}

/// A prefix operation is neat.
proof fn lemma_prefix_operator(tokens: Seq<TokenView>, pos: int)
    requires
        plain_tokens(tokens),
    ensures
        prefix_operator(tokens, pos) matches Ok((parsed, _)) ==> neat(parsed),
    decreases tokens.len() - pos, 14int,
{
    if prefix_operator_of(token_at(tokens, pos)) is Some {
        lemma_expression(tokens, pos + 1, Precedence::Prefix);
    }
}

/// A binary operation on a neat expression is neat.
proof fn lemma_infix_operator(tokens: Seq<TokenView>, pos: int, left: ExpressionView)
    requires
        plain_tokens(tokens),
        neat(left),
    ensures
        infix_operator(tokens, pos, left) matches Ok((parsed, _)) ==> neat(parsed),
    decreases tokens.len() - pos, 14int,
{
    if infix_operator_of(token_at(tokens, pos)) is Some {
        lemma_expression(tokens, pos + 1, precedence_of_optional(token_at(tokens, pos)));
    }
}

/// A parenthesised expression is neat.
proof fn lemma_grouped(tokens: Seq<TokenView>, pos: int)
    requires
        plain_tokens(tokens),
    ensures
        grouped(tokens, pos) matches Ok((parsed, _)) ==> neat(parsed),
    decreases tokens.len() - pos, 14int,
{
    if step(tokens, pos) > pos {
        lemma_expression(tokens, step(tokens, pos), Precedence::Lowest);
    }
}

/// A conditional is neat.
proof fn lemma_if_expression(tokens: Seq<TokenView>, pos: int)
    requires
        plain_tokens(tokens),
    ensures
        if_expression(tokens, pos) matches Ok((parsed, _)) ==> neat(parsed),
    decreases tokens.len() - pos, 14int,
{
    if token_at(tokens, pos + 1) == Some(TokenView::Lparen) {
        lemma_expression(tokens, pos + 2, Precedence::Lowest);
        match expression(tokens, pos + 2, Precedence::Lowest) {
            Err(_) => {},
            Ok((condition, test_end)) => {
                if token_at(tokens, test_end + 1) == Some(TokenView::Rparen) && token_at(
                    tokens,
                    test_end + 2,
                ) == Some(TokenView::Lsquigly) && test_end >= pos {
                    lemma_block(tokens, test_end + 2);
                    match block(tokens, test_end + 2) {
                        Err(_) => {},
                        Ok((consequence, first_end)) => {
                            assert(canonical_statements(consequence));
                            assert(lexable_statements(consequence));
                            if token_at(tokens, first_end) == Some(TokenView::Rsquigly) && token_at(
                                tokens,
                                first_end + 1,
                            ) == Some(TokenView::Else) && token_at(tokens, first_end + 2) == Some(
                                TokenView::Lsquigly,
                            ) && first_end >= pos {
                                lemma_block(tokens, first_end + 2);
                                match block(tokens, first_end + 2) {
                                    Err(_) => {},
                                    Ok((alternative, _)) => {
                                        assert(canonical_statements(alternative));
                                        assert(lexable_statements(alternative));
                                    },
                                }
                            }
                            assert(canonical_statements(Seq::<StatementView>::empty()));
                            assert(lexable_statements(Seq::<StatementView>::empty()));
                        },
                    }
                }
            },
        }
    }
}

/// The names of parameters are names.
proof fn lemma_more_parameters(tokens: Seq<TokenView>, pos: int, done: Seq<Seq<char>>)
    requires
        plain_tokens(tokens),
        all_names(done),
    ensures
        more_parameters(tokens, pos, done) matches Ok((list, _)) ==> all_names(list),
    decreases tokens.len() - pos,
{
    if token_at(tokens, pos + 1) == Some(TokenView::Comma) {
        if 0 <= pos + 2 < tokens.len() {
            assert(plain(tokens[pos + 2]));
        }
        match identifier_of(token_at(tokens, pos + 2)) {
            Err(_) => {},
            Ok(name) => {
                let all = done.push(name);
                assert forall|i: int| 0 <= i < all.len() implies is_name(#[trigger] all[i]) by {
                    if i < done.len() {
                        assert(all[i] == done[i]);
                    }
                }
                lemma_more_parameters(tokens, pos + 2, all);
            },
        }
    }
}

/// The names of parameters are names.
proof fn lemma_function_parameters(tokens: Seq<TokenView>, pos: int)
    requires
        plain_tokens(tokens),
    ensures
        function_parameters(tokens, pos) matches Ok((list, _)) ==> all_names(list),
{
    let first = step(tokens, pos);
    if token_at(tokens, first) != Some(TokenView::Rparen) {
        if 0 <= first < tokens.len() {
            assert(plain(tokens[first]));
        }
        match identifier_of(token_at(tokens, first)) {
            Err(_) => {},
            Ok(name) => {
                assert(all_names(seq![name])) by {
                    assert(seq![name][0] == name);
                }
                lemma_more_parameters(tokens, first, seq![name]);
            },
        }
    }
}

/// A function literal is neat.
proof fn lemma_function_literal(tokens: Seq<TokenView>, pos: int)
    requires
        plain_tokens(tokens),
    ensures
        function_literal(tokens, pos) matches Ok((parsed, _)) ==> neat(parsed),
    decreases tokens.len() - pos, 14int,
{
    if token_at(tokens, pos + 1) == Some(TokenView::Lparen) {
        lemma_function_parameters(tokens, pos + 1);
        match function_parameters(tokens, pos + 1) {
            Err(_) => {},
            Ok((parameters, names_end)) => {
                if token_at(tokens, names_end + 1) == Some(TokenView::Lsquigly) && names_end
                    >= pos {
                    lemma_block(tokens, names_end + 1);
                    match block(tokens, names_end + 1) {
                        Err(_) => {},
                        Ok((body, _)) => {
                            assert(canonical_statements(body));
                            assert(lexable_statements(body));
                        },
                    }
                }
            },
        }
    }
}

/// A call of a neat expression is neat.
proof fn lemma_call_expression(tokens: Seq<TokenView>, pos: int, left: ExpressionView)
    requires
        plain_tokens(tokens),
        neat(left),
    ensures
        call_expression(tokens, pos, left) matches Ok((parsed, _)) ==> neat(parsed),
    decreases tokens.len() - pos, 14int,
{
    lemma_expression_list(tokens, pos, TokenView::Rparen);
}

/// An array literal is neat.
proof fn lemma_array_literal(tokens: Seq<TokenView>, pos: int)
    requires
        plain_tokens(tokens),
    ensures
        array_literal(tokens, pos) matches Ok((parsed, _)) ==> neat(parsed),
    decreases tokens.len() - pos, 14int,
{
    lemma_expression_list(tokens, pos, TokenView::RBracket);
}

/// The expressions of a list are neat.
proof fn lemma_expression_list(tokens: Seq<TokenView>, pos: int, end: TokenView)
    requires
        plain_tokens(tokens),
    ensures
        expression_list(tokens, pos, end) matches Ok((list, _)) ==> neat_list(list),
    decreases tokens.len() - pos, 13int,
{
    if token_at(tokens, step(tokens, pos)) == Some(end) {
    } else if step(tokens, pos) > pos {
        lemma_expression(tokens, step(tokens, pos), Precedence::Lowest);
        match expression(tokens, step(tokens, pos), Precedence::Lowest) {
            Err(_) => {},
            Ok((first, last)) => {
                assert(neat_list(seq![first])) by {
                    assert(seq![first][0] == first);
                }
                if pos < last <= tokens.len() {
                    lemma_more_expressions(tokens, last, end, seq![first]);
                }
            },
        }
    }
}

/// The further expressions of a list are neat.
proof fn lemma_more_expressions(
    tokens: Seq<TokenView>,
    pos: int,
    end: TokenView,
    done: Seq<ExpressionView>,
)
    requires
        plain_tokens(tokens),
        neat_list(done),
    ensures
        more_expressions(tokens, pos, end, done) matches Ok((list, _)) ==> neat_list(list),
    decreases tokens.len() - pos, 12int,
{
    if token_at(tokens, pos + 1) == Some(TokenView::Comma) {
        lemma_expression(tokens, step(tokens, pos + 1), Precedence::Lowest);
        match expression(tokens, step(tokens, pos + 1), Precedence::Lowest) {
            Err(_) => {},
            Ok((next, last)) => {
                let all = done.push(next);
                assert forall|i: int| 0 <= i < all.len() implies neat(#[trigger] all[i]) by {
                    if i < done.len() {
                        assert(all[i] == done[i]);
                    }
                }
                if pos < last <= tokens.len() {
                    lemma_more_expressions(tokens, last, end, all);
                }
            },
        }
    }
}

/// An index access into a neat expression is neat.
proof fn lemma_index_expression(tokens: Seq<TokenView>, pos: int, left: ExpressionView)
    requires
        plain_tokens(tokens),
        neat(left),
    ensures
        index_expression(tokens, pos, left) matches Ok((parsed, _)) ==> neat(parsed),
    decreases tokens.len() - pos, 14int,
{
    if step(tokens, pos) > pos {
        lemma_expression(tokens, step(tokens, pos), Precedence::Lowest);
    }
}

/// A hash literal is neat.
proof fn lemma_hash_literal(tokens: Seq<TokenView>, pos: int)
    requires
        plain_tokens(tokens),
    ensures
        hash_literal(tokens, pos) matches Ok((parsed, _)) ==> neat(parsed),
    decreases tokens.len() - pos, 14int,
{
    lemma_hash_pairs(tokens, pos, Seq::empty());
}

/// The entries of a hash literal are neat.
proof fn lemma_hash_pairs(
    tokens: Seq<TokenView>,
    pos: int,
    done: Seq<(ExpressionView, ExpressionView)>,
)
    requires
        plain_tokens(tokens),
        neat_pairs(done),
    ensures
        hash_pairs(tokens, pos, done) matches Ok((pairs, _)) ==> neat_pairs(pairs),
    decreases tokens.len() - pos, 13int,
{
    if token_at(tokens, pos + 1) == Some(TokenView::Rsquigly) {
    } else if step(tokens, pos) > pos {
        lemma_expression(tokens, step(tokens, pos), Precedence::Lowest);
        match expression(tokens, step(tokens, pos), Precedence::Lowest) {
            Err(_) => {},
            Ok((key, key_end)) => {
                if token_at(tokens, key_end + 1) == Some(TokenView::Colon) && key_end >= pos {
                    lemma_expression(tokens, step(tokens, key_end + 1), Precedence::Lowest);
                    match expression(tokens, step(tokens, key_end + 1), Precedence::Lowest) {
                        Err(_) => {},
                        Ok((value, value_end)) => {
                            let all = done.push((key, value));
                            assert forall|i: int| 0 <= i < all.len() implies neat(
                                (#[trigger] all[i]).0,
                            ) && neat(all[i].1) by {
                                if i < done.len() {
                                    assert(all[i] == done[i]);
                                }
                            }
                            if token_at(tokens, value_end + 1) != Some(TokenView::Rsquigly)
                                && token_at(tokens, value_end + 1) == Some(TokenView::Comma)
                                && value_end >= pos {
                                lemma_hash_pairs(tokens, value_end + 1, all);
                            }
                        },
                    }
                }
            },
        }
    }
}

/// The program that the parser builds from tokens without a string
/// literal, whose identifiers are names, is one whose rendering parses back
/// to it.
pub proof fn law_parsed_is_canonical(tokens: Seq<TokenView>)
    requires
        plain_tokens(tokens),
    ensures
        parse_tokens(tokens) matches Ok(statements) ==> canonical_statements(statements)
            && lexable_statements(statements),
{
    lemma_program(tokens, 0, Seq::empty());
}

/// The bytes from `pos` up to the end of the letters are letters.
proof fn lemma_letters(input: Seq<u8>, pos: int)
    requires
        0 <= pos <= input.len(),
    ensures
        forall|i: int| pos <= i < letters_end(input, pos) ==> is_letter_byte(#[trigger] input[i]),
        pos <= letters_end(input, pos) <= input.len(),
    decreases input.len() - pos,
{
    if pos < input.len() && is_letter_byte(input[pos]) {
        lemma_letters(input, pos + 1);
    }
}

/// The identifiers that the lexer reads are names.
pub proof fn lemma_scanned_names(input: Seq<u8>, pos: int)
    requires
        0 <= pos <= input.len(),
    ensures
        forall|i: int|
            0 <= i < scan_all(input, pos).len() ==> ((#[trigger] scan_all(
                input,
                pos,
            )[i]) matches TokenView::Ident(name) ==> is_name(name)),
    decreases input.len() - pos,
{
    let (token, next) = scan(input, pos);
    lemma_scan_ends(input, pos);
    match token {
        Some(first) if pos < next <= input.len() => {
            lemma_scanned_names(input, next);
            let p = whitespace_end(input, pos);
            if first is Ident {
                lemma_letters(input, p);
                let end = letters_end(input, p);
                let word = ascii_text(input.subrange(p, end));
                assert(first == keyword_or_ident(word));
                assert forall|i: int| 0 <= i < word.len() implies is_letter_char(
                    #[trigger] word[i],
                ) by {
                    assert(is_letter_byte(input[p + i]));
                    assert(input.subrange(p, end)[i] == input[p + i]);
                }
                let ch = input[p];
                assert(punctuation(ch) matches Some(sign) ==> !(sign is Ident));
                assert(is_letter_byte(ch));
                lemma_letters(input, p + 1);
                assert(p < end);
                assert(is_word(word));
                assert(is_no_keyword(word));
            }
            let all = scan_all(input, pos);
            let rest = scan_all(input, next);
            assert(all == seq![first] + rest);
            assert forall|i: int| 0 <= i < all.len() implies ((#[trigger] all[i]) matches TokenView::Ident(
                name,
            ) ==> is_name(name)) by {
                if i > 0 {
                    assert(all[i] == rest[i - 1]);
                }
            }
        },
        _ => {},
    }
}

/// The rendering of a parsed program is a fixed point of parsing and
/// rendering: where a text without a string literal parses to a program,
/// the rendering of the program parses to the same program, whose
/// rendering is therefore the same text again.
pub proof fn law_parse_then_render_is_fixed(input: Seq<u8>, statements: Seq<StatementView>)
    requires
        parse_tokens(scan_all(input, 0)) == Ok::<Seq<StatementView>, ErrorView>(statements),
        forall|i: int| 0 <= i < scan_all(input, 0).len() ==> !(#[trigger] scan_all(input, 0)[i] is Str),
    ensures
        parse_tokens(
            scan_all(encode_utf8(statements_text(statements, statements.len() as int)), 0),
        ) == Ok::<Seq<StatementView>, ErrorView>(statements),
{
    let tokens = scan_all(input, 0);
    lemma_scanned_names(input, 0);
    assert forall|i: int| 0 <= i < tokens.len() implies plain(#[trigger] tokens[i]) by {
        assert(!(tokens[i] is Str));
    }
    law_parsed_is_canonical(tokens);
    law_rendering_parses_back(statements);
}

} // verus!
