use enum_dict::attribute::parse_arguments;
use enum_dict::attribute::Argument;
use enum_dict::attribute::Expected;
use enum_dict::attribute::SyntaxError;
use enum_dict::attribute::Value;
use enum_dict::declaration::Token;

fn ident(text: &str) -> Token {
    Token::Ident(text.to_string())
}

fn literal(text: &str) -> Token {
    Token::Literal(text.to_string())
}

#[test]
fn empty_list_has_no_argument() {
    assert_eq!(parse_arguments(&vec![]), Ok(vec![]));
}

#[test]
fn bare_identifier() {
    assert_eq!(parse_arguments(&vec![ident("a")]), Ok(vec![Argument { name: 0, value: Value::Missing }]));
}

#[test]
fn identifier_with_string_literal() {
    let tokens = vec![ident("rename"), Token::Equals, literal("x")];
    assert_eq!(parse_arguments(&tokens), Ok(vec![Argument { name: 0, value: Value::Literal(2) }]));
}

#[test]
fn comma_after_the_last_argument() {
    let tokens = vec![ident("rename"), Token::Equals, literal("x"), Token::Comma];
    assert_eq!(parse_arguments(&tokens), Ok(vec![Argument { name: 0, value: Value::Literal(2) }]));
    let tokens = vec![ident("a"), Token::Comma];
    assert_eq!(parse_arguments(&tokens), Ok(vec![Argument { name: 0, value: Value::Missing }]));
}

#[test]
fn several_arguments() {
    let tokens = vec![
        ident("a"),
        Token::Comma,
        ident("b"),
        Token::Equals,
        literal("x"),
        Token::Comma,
        ident("c"),
        Token::Equals,
        Token::Other,
        Token::Comma,
        ident("d"),
    ];
    assert_eq!(
        parse_arguments(&tokens),
        Ok(vec![
            Argument { name: 0, value: Value::Missing },
            Argument { name: 2, value: Value::Literal(4) },
            Argument { name: 6, value: Value::Other },
            Argument { name: 10, value: Value::Missing },
        ])
    );
}

#[test]
fn value_of_several_tokens_is_no_literal() {
    let tokens = vec![ident("rename"), Token::Equals, literal("x"), Token::Other, ident("len")];
    assert_eq!(parse_arguments(&tokens), Ok(vec![Argument { name: 0, value: Value::Other }]));
    let tokens = vec![ident("rename"), Token::Equals, literal("x"), Token::Equals, literal("y")];
    assert_eq!(parse_arguments(&tokens), Ok(vec![Argument { name: 0, value: Value::Other }]));
}

#[test]
fn value_that_is_an_identifier() {
    let tokens = vec![ident("rename"), Token::Equals, ident("x")];
    assert_eq!(parse_arguments(&tokens), Ok(vec![Argument { name: 0, value: Value::Other }]));
}

#[test]
fn argument_must_start_with_an_identifier() {
    for first in [Token::Comma, Token::Equals, literal("x"), Token::Other] {
        assert_eq!(
            parse_arguments(&vec![first, ident("a")]),
            Err(SyntaxError { at: 0, expected: Expected::Identifier })
        );
    }
    assert_eq!(
        parse_arguments(&vec![ident("a"), Token::Comma, Token::Comma, ident("b")]),
        Err(SyntaxError { at: 2, expected: Expected::Identifier })
    );
}

#[test]
fn arguments_must_be_separated() {
    assert_eq!(
        parse_arguments(&vec![ident("a"), ident("b")]),
        Err(SyntaxError { at: 1, expected: Expected::Comma })
    );
    assert_eq!(
        parse_arguments(&vec![ident("a"), literal("x")]),
        Err(SyntaxError { at: 1, expected: Expected::Comma })
    );
    assert_eq!(
        parse_arguments(&vec![ident("a"), Token::Other]),
        Err(SyntaxError { at: 1, expected: Expected::Comma })
    );
}

#[test]
fn equals_needs_a_value() {
    assert_eq!(
        parse_arguments(&vec![ident("a"), Token::Equals]),
        Err(SyntaxError { at: 2, expected: Expected::Value })
    );
    assert_eq!(
        parse_arguments(&vec![ident("a"), Token::Equals, Token::Comma, ident("b")]),
        Err(SyntaxError { at: 2, expected: Expected::Value })
    );
}

#[test]
fn first_error_is_reported() {
    let tokens = vec![ident("a"), Token::Equals, literal("x"), Token::Comma, Token::Equals, Token::Comma, Token::Comma];
    assert_eq!(parse_arguments(&tokens), Err(SyntaxError { at: 4, expected: Expected::Identifier }));
}
