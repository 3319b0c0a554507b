use monkey::lexer::Lexer;
use monkey::token::Token;

fn tokens(input: &str) -> Vec<Token> {
    Lexer::new(input).collect()
}

fn ident(name: &str) -> Token {
    Token::Ident(name.to_string())
}

fn digits(text: &str) -> Token {
    Token::Int(text.to_string())
}

#[test]
fn identifiers_hold_no_digits() {
    assert_eq!(tokens("a1"), vec![ident("a"), digits("1")]);
    assert_eq!(tokens("1a"), vec![digits("1"), ident("a")]);
    assert_eq!(tokens("_a_B"), vec![ident("_a_B")]);
    assert_eq!(tokens("x_1y"), vec![ident("x_"), digits("1"), ident("y")]);
}

#[test]
fn keywords_are_whole_words() {
    assert_eq!(
        tokens("fn let true false if else return"),
        vec![
            Token::Function,
            Token::Let,
            Token::True,
            Token::False,
            Token::If,
            Token::Else,
            Token::Return
        ]
    );
    assert_eq!(tokens("fns lets iff"), vec![ident("fns"), ident("lets"), ident("iff")]);
    assert_eq!(tokens("Let IF"), vec![ident("Let"), ident("IF")]);
    assert_eq!(Token::lookup_ident("fn"), Token::Function);
    assert_eq!(Token::lookup_ident("fnn"), ident("fnn"));
    assert_eq!(Token::lookup_ident(""), ident(""));
}

#[test]
fn operators_of_one_and_two_characters() {
    assert_eq!(
        tokens("=+-!*/<>==!=,;:(){}[]"),
        vec![
            Token::Assign,
            Token::Plus,
            Token::Minus,
            Token::Bang,
            Token::Asterisk,
            Token::Slash,
            Token::Lt,
            Token::Gt,
            Token::Eq,
            Token::NotEq,
            Token::Comma,
            Token::Semicolon,
            Token::Colon,
            Token::Lparen,
            Token::Rparen,
            Token::Lsquigly,
            Token::Rsquigly,
            Token::LBracket,
            Token::RBracket
        ]
    );
    assert_eq!(tokens("==="), vec![Token::Eq, Token::Assign]);
    assert_eq!(tokens("!=="), vec![Token::NotEq, Token::Assign]);
    assert_eq!(tokens("= ="), vec![Token::Assign, Token::Assign]);
    assert_eq!(tokens("!"), vec![Token::Bang]);
    assert_eq!(tokens("="), vec![Token::Assign]);
}

#[test]
fn infix_tokens() {
    let infix = [
        Token::Plus,
        Token::Minus,
        Token::Slash,
        Token::Asterisk,
        Token::Eq,
        Token::NotEq,
        Token::Lt,
        Token::Gt,
        Token::Lparen,
        Token::LBracket,
    ];
    for token in infix {
        assert!(token.is_infix());
    }
    let others = [Token::Bang, Token::Assign, Token::Rparen, Token::Lsquigly, Token::Comma, ident("a")];
    for token in others {
        assert!(!token.is_infix());
    }
}

#[test]
fn unknown_bytes_are_illegal_tokens() {
    assert_eq!(tokens("a @ b"), vec![ident("a"), Token::Illegal(b'@'), ident("b")]);
    assert_eq!(tokens("#"), vec![Token::Illegal(b'#')]);
    // A character outside ASCII is no letter: each of its bytes is illegal.
    assert_eq!(tokens("é"), vec![Token::Illegal(0xc3), Token::Illegal(0xa9)]);
    assert_eq!(tokens("aé1"), vec![ident("a"), Token::Illegal(0xc3), Token::Illegal(0xa9), digits("1")]);
}

#[test]
fn strings_keep_their_bytes() {
    assert_eq!(tokens("\"\""), vec![Token::String(String::new())]);
    assert_eq!(tokens("\"a b\" c"), vec![Token::String("a b".to_string()), ident("c")]);
    assert_eq!(tokens("\"héllo→\""), vec![Token::String("héllo→".to_string())]);
    assert_eq!(tokens("\"1 + {}\""), vec![Token::String("1 + {}".to_string())]);
    // A string that is not closed ends with the input.
    assert_eq!(tokens("\"abc"), vec![Token::String("abc".to_string())]);
    assert_eq!(tokens("\""), vec![Token::String(String::new())]);
    // There are no escapes.
    assert_eq!(
        tokens("\"a\\\"b\""),
        vec![Token::String("a\\".to_string()), ident("b"), Token::String(String::new())]
    );
}

#[test]
fn whitespace_separates_and_is_skipped() {
    assert_eq!(tokens(""), vec![]);
    assert_eq!(tokens(" \t\r\n\x0c"), vec![]);
    assert_eq!(tokens("\n1\t+\r\n2 "), vec![digits("1"), Token::Plus, digits("2")]);
    assert_eq!(tokens("12 34"), vec![digits("12"), digits("34")]);
}

#[test]
fn a_zero_byte_is_an_illegal_token() {
    assert_eq!(tokens("a\0b"), vec![ident("a"), Token::Illegal(0), ident("b")]);
    assert_eq!(tokens("\0"), vec![Token::Illegal(0)]);
    // Inside a string literal it is a byte like any other.
    assert_eq!(tokens("\"a\0b\""), vec![Token::String("a\0b".to_string())]);
}

#[test]
fn the_end_of_the_input_is_final() {
    let mut lexer = Lexer::new("a \n");
    assert_eq!(lexer.next(), Some(ident("a")));
    assert_eq!(lexer.next(), None);
    assert_eq!(lexer.next(), None);
    assert_eq!(lexer.next_token(), Token::Eof);
    let mut lexer = Lexer::new("\0");
    assert_eq!(lexer.next(), Some(Token::Illegal(0)));
    assert_eq!(lexer.next(), None);
}

#[test]
fn tokens_compare_and_copy() {
    let all = [ident("a"), ident("b"), digits("1"), Token::String("a".to_string()), Token::Illegal(1), Token::Eof, Token::Let];
    for (i, first) in all.iter().enumerate() {
        assert_eq!(first.duplicate(), *first);
        for (j, second) in all.iter().enumerate() {
            assert_eq!(first.same(second), i == j);
        }
    }
}
