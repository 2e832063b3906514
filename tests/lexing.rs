use bitexpr::tokenizer::{tokenize, tokenize_classified, Operator, Token, TokenizerError};

fn ident(s: &str) -> Token {
    Token::Identifier(s.to_string())
}

fn func(s: &str) -> Token {
    Token::Function(s.to_string())
}

fn op(o: Operator) -> Token {
    Token::Operator(o)
}

#[test]
fn empty_input_gives_no_tokens() {
    assert_eq!(tokenize(""), Ok(vec![]));
}

#[test]
fn spaces_alone_give_no_tokens() {
    assert_eq!(tokenize("   "), Ok(vec![]));
}

#[test]
fn single_character_tokens() {
    let cases = vec![
        ("(", Token::OpenParenthesis),
        (")", Token::CloseParenthesis),
        (",", Token::Comma),
        ("+", op(Operator::Plus)),
        ("-", op(Operator::Minus)),
        ("*", op(Operator::Multiply)),
        ("/", op(Operator::Divide)),
        ("%", op(Operator::Modulo)),
        ("^", op(Operator::Power)),
    ];
    for (text, token) in cases {
        assert_eq!(tokenize(text), Ok(vec![token]), "input {:?}", text);
    }
}

#[test]
fn single_character_operators_never_combine() {
    assert_eq!(
        tokenize("+=-"),
        Err(TokenizerError::UnexpectedChar('='))
    );
    assert_eq!(
        tokenize("**"),
        Ok(vec![op(Operator::Multiply), op(Operator::Multiply)])
    );
}

#[test]
fn equal_needs_two_characters() {
    assert_eq!(tokenize("=="), Ok(vec![op(Operator::Equal)]));
    assert_eq!(tokenize("="), Err(TokenizerError::UnexpectedChar('=')));
    assert_eq!(tokenize("=x"), Err(TokenizerError::UnexpectedChar('=')));
}

#[test]
fn not_equal_needs_two_characters() {
    assert_eq!(tokenize("!="), Ok(vec![op(Operator::NotEqual)]));
    assert_eq!(tokenize("!"), Err(TokenizerError::UnexpectedChar('!')));
}

#[test]
fn less_and_greater_with_optional_equal() {
    assert_eq!(tokenize("<"), Ok(vec![op(Operator::Less)]));
    assert_eq!(tokenize("<="), Ok(vec![op(Operator::LessEqual)]));
    assert_eq!(tokenize(">"), Ok(vec![op(Operator::Greater)]));
    assert_eq!(tokenize(">="), Ok(vec![op(Operator::GreaterEqual)]));
    assert_eq!(
        tokenize("a<b"),
        Ok(vec![ident("a"), op(Operator::Less), ident("b")])
    );
}

#[test]
fn and_or_need_doubled_characters() {
    assert_eq!(tokenize("&&"), Ok(vec![op(Operator::And)]));
    assert_eq!(tokenize("&"), Err(TokenizerError::UnexpectedChar('&')));
    assert_eq!(tokenize("||"), Ok(vec![op(Operator::Or)]));
    assert_eq!(tokenize("|"), Err(TokenizerError::UnexpectedChar('|')));
    assert_eq!(tokenize("&|"), Err(TokenizerError::UnexpectedChar('&')));
}

#[test]
fn error_discards_earlier_tokens() {
    assert_eq!(tokenize("a + b = c"), Err(TokenizerError::UnexpectedChar('=')));
}

#[test]
fn function_call_with_arguments() {
    assert_eq!(
        tokenize("foo(1,2)"),
        Ok(vec![
            func("foo"),
            Token::OpenParenthesis,
            ident("1"),
            Token::Comma,
            ident("2"),
            Token::CloseParenthesis,
        ])
    );
}

#[test]
fn space_before_parenthesis_gives_identifier() {
    assert_eq!(
        tokenize("foo (x)"),
        Ok(vec![
            ident("foo"),
            Token::OpenParenthesis,
            ident("x"),
            Token::CloseParenthesis,
        ])
    );
}

#[test]
fn identifiers_take_underscore_dot_and_unicode() {
    assert_eq!(
        tokenize("a_b.c π2"),
        Ok(vec![ident("a_b.c"), ident("π2")])
    );
    assert_eq!(tokenize("ab+"), Ok(vec![ident("ab"), op(Operator::Plus)]));
}

#[test]
fn backslash_in_identifier_takes_next_character() {
    assert_eq!(tokenize("a\\+b"), Ok(vec![ident("a+b")]));
    assert_eq!(tokenize("\\(x"), Ok(vec![ident("(x")]));
}

#[test]
fn other_characters_start_an_identifier() {
    assert_eq!(tokenize("@"), Ok(vec![ident("@")]));
    assert_eq!(tokenize("@b+"), Ok(vec![ident("@b"), op(Operator::Plus)]));
    assert_eq!(tokenize("a\tb"), Ok(vec![ident("a"), ident("\tb")]));
    assert_eq!(tokenize("#(x)"), Ok(vec![func("#"), Token::OpenParenthesis, ident("x"), Token::CloseParenthesis]));
}

#[test]
fn string_literal_with_escaped_newline() {
    assert_eq!(
        tokenize("\"a\\nb\""),
        Ok(vec![Token::StringLiteral("a\nb".to_string())])
    );
}

#[test]
fn string_literal_escapes() {
    assert_eq!(
        tokenize("\"x\\ty\\\"z\\qw\""),
        Ok(vec![Token::StringLiteral("x\ty\"zqw".to_string())])
    );
    assert_eq!(
        tokenize("\"a b\"+c"),
        Ok(vec![
            Token::StringLiteral("a b".to_string()),
            op(Operator::Plus),
            ident("c"),
        ])
    );
    assert_eq!(tokenize("\"\""), Ok(vec![Token::StringLiteral(String::new())]));
}

#[test]
fn unterminated_string_literal_succeeds() {
    assert_eq!(
        tokenize("\"unterminated"),
        Ok(vec![Token::StringLiteral("unterminated".to_string())])
    );
}

#[test]
fn trailing_backslash_is_an_error() {
    assert_eq!(tokenize("x\\"), Err(TokenizerError::UnexpectedEndOfString));
    assert_eq!(tokenize("\"ab\\"), Err(TokenizerError::UnexpectedEndOfString));
    assert_eq!(tokenize("\\"), Err(TokenizerError::UnexpectedEndOfString));
}

#[test]
fn symbols_round_trip_through_lexemes() {
    let text = "( ) , + - * / % ^ == != > < >= <= && ||";
    let tokens = tokenize(text).unwrap();
    assert_eq!(tokens.len(), 17);
    let joined: Vec<String> = tokens.iter().map(|t| t.lexeme()).collect();
    assert_eq!(joined.join(" "), text);
}

#[test]
fn full_worked_example() {
    let tokens = tokenize("(2 + 3 * sin(π/4)) / (sqrt(9) + log(100, 10)) - 2^3").unwrap();
    let expected = vec![
        Token::OpenParenthesis,
        ident("2"),
        op(Operator::Plus),
        ident("3"),
        op(Operator::Multiply),
        func("sin"),
        Token::OpenParenthesis,
        ident("π"),
        op(Operator::Divide),
        ident("4"),
        Token::CloseParenthesis,
        Token::CloseParenthesis,
        op(Operator::Divide),
        Token::OpenParenthesis,
        func("sqrt"),
        Token::OpenParenthesis,
        ident("9"),
        Token::CloseParenthesis,
        op(Operator::Plus),
        func("log"),
        Token::OpenParenthesis,
        ident("100"),
        Token::Comma,
        ident("10"),
        Token::CloseParenthesis,
        Token::CloseParenthesis,
        op(Operator::Minus),
        ident("2"),
        op(Operator::Power),
        ident("3"),
    ];
    assert_eq!(tokens, expected);
}

#[test]
fn classified_characters_decide_identifiers() {
    let chars = vec!['a', 'b', 'c'];
    assert_eq!(
        tokenize_classified(&chars, &vec![true, true, true]),
        Ok(vec![ident("abc")])
    );
    assert_eq!(
        tokenize_classified(&chars, &vec![true, false, true]),
        Ok(vec![ident("a"), ident("bc")])
    );
}

#[test]
fn display_text_of_tokens() {
    assert_eq!(op(Operator::GreaterEqual).to_string(), "GreaterEqual");
    assert_eq!(op(Operator::Plus).to_string(), "Plus");
    assert_eq!(ident("x1").to_string(), "x1");
    assert_eq!(func("sin").to_string(), "sin");
    assert_eq!(Token::StringLiteral("hi".to_string()).to_string(), "\"hi\"");
    assert_eq!(Token::OpenParenthesis.to_string(), "(");
    assert_eq!(Token::CloseParenthesis.to_string(), ")");
    assert_eq!(Token::Comma.to_string(), ",");
}

#[test]
fn lexemes_of_tokens() {
    assert_eq!(op(Operator::NotEqual).lexeme(), "!=");
    assert_eq!(op(Operator::Or).lexeme(), "||");
    assert_eq!(Token::StringLiteral("a".to_string()).lexeme(), "\"a\"");
    assert_eq!(Operator::Modulo.symbol(), "%");
    assert_eq!(Operator::LessEqual.name(), "LessEqual");
}
