use mylang::lexer::{LexError, Lexer};
use mylang::number::Number;
use mylang::token::{Keyword, Token};

/// Makes sure that the tokens of a source code are the expected ones.
fn verify_tokens(contents: &str, expected_tokens: Vec<Token>) {
    let tokens = Lexer::tokenize(contents.to_owned()).unwrap();

    assert_eq!(tokens.len(), expected_tokens.len());

    tokens
        .iter()
        .map(|t| t.token.clone())
        .zip(expected_tokens)
        .for_each(|(actual, expected)| assert_eq!(actual, expected));
}

fn num(n: i32) -> Token {
    Token::NumberLiteral(Number::from_integer(n))
}

#[test]
fn lexer_string_literal_test() {
    verify_tokens(
        "\"hello world\"",
        vec![Token::StringLiteral("hello world".to_owned())],
    );
}

#[test]
fn lexer_identifier_test() {
    verify_tokens(
        "let name",
        vec![
            Token::Keyword(Keyword::Let),
            Token::Identifier("name".to_owned()),
        ],
    );
}

#[test]
fn lexer_comment_test() {
    verify_tokens(
        "# hello from the comment",
        vec![Token::Comment("# hello from the comment".to_owned())],
    );
}

#[test]
fn lexer_number_variable_assignment() {
    verify_tokens(
        "let age = 2",
        vec![
            Token::Keyword(Keyword::Let),
            Token::Identifier("age".to_owned()),
            Token::Equals,
            num(2),
        ],
    );
}

#[test]
fn lexer_string_variable_assignment() {
    verify_tokens(
        "let name = \"nick\"",
        vec![
            Token::Keyword(Keyword::Let),
            Token::Identifier("name".to_owned()),
            Token::Equals,
            Token::StringLiteral("nick".to_owned()),
        ],
    );
}

#[test]
fn lexer_function_call() {
    verify_tokens(
        "print(\"Hello world\")",
        vec![
            Token::Identifier("print".to_owned()),
            Token::OpenParens,
            Token::StringLiteral("Hello world".to_owned()),
            Token::CloseParens,
        ],
    );
}

#[test]
fn array_decleration() {
    verify_tokens(
        "[1,2,3]",
        vec![
            Token::OpenBracket,
            num(1),
            Token::Comma,
            num(2),
            Token::Comma,
            num(3),
            Token::CloseBracket,
        ],
    );
}

#[test]
fn addition() {
    verify_tokens(
        "1 + a",
        vec![num(1), Token::Plus, Token::Identifier("a".to_owned())],
    );
}

#[test]
fn double_equals_is_one_token() {
    verify_tokens("==", vec![Token::Eq]);
    verify_tokens("= =", vec![Token::Equals, Token::Equals]);
    verify_tokens("a >= 1", vec![Token::Identifier("a".to_owned()), Token::Gte, num(1)]);
    verify_tokens("<=<", vec![Token::Lte, Token::Lt]);
}

#[test]
fn booleans_and_keywords() {
    verify_tokens(
        "while true false end return fun if",
        vec![
            Token::Keyword(Keyword::While),
            Token::BooleanLiteral(true),
            Token::BooleanLiteral(false),
            Token::Keyword(Keyword::End),
            Token::Keyword(Keyword::Return),
            Token::Keyword(Keyword::Fun),
            Token::Keyword(Keyword::If),
        ],
    );
}

#[test]
fn identifier_takes_the_longest_run() {
    verify_tokens(
        "abc_1$x+y",
        vec![
            Token::Identifier("abc_1$x".to_owned()),
            Token::Plus,
            Token::Identifier("y".to_owned()),
        ],
    );
}

#[test]
fn keyword_prefix_wins_over_identifier() {
    verify_tokens(
        "letter",
        vec![Token::Keyword(Keyword::Let), Token::Identifier("ter".to_owned())],
    );
}

#[test]
fn number_literals_with_fractions() {
    verify_tokens(
        "12.50 3. 0.000001",
        vec![
            Token::NumberLiteral(Number::Finite { units: 12_500_000 }),
            Token::NumberLiteral(Number::Finite { units: 3_000_000 }),
            Token::NumberLiteral(Number::Finite { units: 1 }),
        ],
    );
}

#[test]
fn spans_record_line_and_offset() {
    let tokens = Lexer::tokenize("let x = 1\n  print(x) # done".to_owned()).unwrap();
    let places: Vec<(usize, usize, usize)> = tokens
        .iter()
        .map(|t| (t.span.line, t.span.start, t.span.len))
        .collect();
    assert_eq!(
        places,
        vec![
            (0, 0, 3),
            (0, 4, 1),
            (0, 6, 1),
            (0, 8, 1),
            (1, 2, 5),
            (1, 7, 1),
            (1, 8, 1),
            (1, 9, 1),
            (1, 11, 6),
        ]
    );
    assert_eq!(tokens[8].token, Token::Comment("# done".to_owned()));
}

#[test]
fn whitespace_of_every_kind_is_dropped() {
    verify_tokens("\t a \u{a0}\r\n\n b", vec![
        Token::Identifier("a".to_owned()),
        Token::Identifier("b".to_owned()),
    ]);
    verify_tokens("", vec![]);
}

#[test]
fn unrecognized_input_is_an_error() {
    match Lexer::tokenize("let a = 1\nb @ c".to_owned()) {
        Err(LexError::UnrecognizedInput { line, offset, remaining_text }) => {
            assert_eq!(line, 1);
            assert_eq!(offset, 2);
            assert_eq!(remaining_text, "@ c");
        }
        other => panic!("unexpected {:?}", other),
    }
}

#[test]
fn unterminated_string_is_an_error() {
    assert!(matches!(
        Lexer::tokenize("\"abc".to_owned()),
        Err(LexError::UnrecognizedInput { line: 0, offset: 0, .. })
    ));
}

#[test]
fn number_beyond_the_range_is_infinite() {
    verify_tokens(
        "x 99999999999999",
        vec![
            Token::Identifier("x".to_owned()),
            Token::NumberLiteral(Number::Infinite { negative: false }),
        ],
    );
}

#[test]
fn spans_cover_non_whitespace() {
    let source = "let s = \"a b\" # note\n\tfun f(x) return x * 2.5 end\n\nprint(f(s))";
    let tokens = Lexer::tokenize(source.to_owned()).unwrap();
    let lines: Vec<Vec<char>> = source.split('\n').map(|l| l.chars().collect()).collect();
    let mut covered = String::new();
    for t in &tokens {
        let line = &lines[t.span.line];
        covered.extend(&line[t.span.start..t.span.start + t.span.len]);
    }
    let strip = |s: &str| s.chars().filter(|c| !c.is_whitespace()).collect::<String>();
    assert_eq!(strip(&covered), strip(source));
}
