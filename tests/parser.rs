use mylang::expression::{BinaryExpression, Expression};
use mylang::lexer::Lexer;
use mylang::number::Number;
use mylang::parser::{ParseError, Parser};
use mylang::token::{Keyword, Token, TokenSpan, TokenWrapper};

fn wrap_tokens(tokens: Vec<Token>) -> Vec<TokenWrapper> {
    tokens
        .into_iter()
        .map(|token| TokenWrapper {
            token,
            span: TokenSpan {
                line: 0,
                start: 0,
                len: 10,
            },
        })
        .collect()
}

fn parse_source(source: &str) -> Result<Vec<Expression>, ParseError> {
    Parser::new(Lexer::tokenize(source.to_owned()).unwrap()).parse()
}

fn num(n: i32) -> Box<Expression> {
    Box::new(Expression::Number(Number::from_integer(n)))
}

#[test]
fn string_variable_decleration() {
    let tokens = wrap_tokens(vec![
        Token::Keyword(Keyword::Let),
        Token::Identifier("variable".to_owned()),
        Token::Equals,
        Token::StringLiteral(" ".to_owned()),
    ]);

    let expression = Parser::new(tokens).parse().unwrap().pop().unwrap();

    assert_eq!(
        expression,
        Expression::VariableDecleration {
            name: "variable".to_owned(),
            value: Box::new(Expression::String(" ".to_owned()))
        }
    );
}

#[test]
fn parser_string_variable_assignment() {
    let tokens = wrap_tokens(vec![
        Token::Identifier("variable".to_owned()),
        Token::Equals,
        Token::StringLiteral(" ".to_owned()),
    ]);

    let expression = Parser::new(tokens).parse().unwrap().pop().unwrap();

    assert_eq!(
        expression,
        Expression::VariableAssignment {
            name: "variable".to_owned(),
            value: Box::new(Expression::String(" ".to_owned()))
        },
    );
}

#[test]
fn function_definition() {
    let tokens = wrap_tokens(vec![
        Token::Keyword(Keyword::Fun),
        Token::Identifier("some_function".to_owned()),
        Token::OpenParens,
        Token::CloseParens,
        Token::Keyword(Keyword::End),
    ]);

    let expression = Parser::new(tokens).parse().unwrap().pop().unwrap();

    assert_eq!(
        expression,
        Expression::FunctionDefinition {
            name: "some_function".to_owned(),
            body: Vec::new(),
            arguments: Vec::new(),
        }
    )
}

#[test]
fn chains_nest_to_the_right() {
    let ast = parse_source("1 + 2 * 3").unwrap();
    assert_eq!(
        ast,
        vec![Expression::Addition(BinaryExpression {
            left: num(1),
            right: Box::new(Expression::Multiplication(BinaryExpression {
                left: num(2),
                right: num(3),
            })),
        })]
    );
    let ast = parse_source("10 - 2 - 3").unwrap();
    assert_eq!(
        ast,
        vec![Expression::Subtraction(BinaryExpression {
            left: num(10),
            right: Box::new(Expression::Subtraction(BinaryExpression {
                left: num(2),
                right: num(3),
            })),
        })]
    );
    let ast = parse_source("2 * 3 + 1").unwrap();
    assert_eq!(
        ast,
        vec![Expression::Multiplication(BinaryExpression {
            left: num(2),
            right: Box::new(Expression::Addition(BinaryExpression {
                left: num(3),
                right: num(1),
            })),
        })]
    );
}

#[test]
fn function_with_parameters_and_calls() {
    let ast = parse_source("fun add_one(x, y) return x + 1 end\nprint(add_one(4), [])").unwrap();
    assert_eq!(ast.len(), 2);
    assert_eq!(
        ast[0],
        Expression::FunctionDefinition {
            name: "add_one".to_owned(),
            arguments: vec!["x".to_owned(), "y".to_owned()],
            body: vec![Expression::Return(Box::new(Expression::Addition(BinaryExpression {
                left: Box::new(Expression::Variable("x".to_owned())),
                right: num(1),
            })))],
        }
    );
    assert_eq!(
        ast[1],
        Expression::FunctionCall {
            name: "print".to_owned(),
            arguments: vec![
                Expression::FunctionCall {
                    name: "add_one".to_owned(),
                    arguments: vec![*num(4)],
                },
                Expression::Array(vec![]),
            ],
        }
    );
}

#[test]
fn anonymous_function_and_indexing() {
    let ast = parse_source("fun () end\narr[1]\n!true").unwrap();
    assert_eq!(
        ast,
        vec![
            Expression::FunctionDefinition {
                name: String::new(),
                arguments: vec![],
                body: vec![],
            },
            Expression::ArrayIndexing {
                array: Box::new(Expression::Variable("arr".to_owned())),
                index: num(1),
            },
            Expression::BoolNegation(Box::new(Expression::Bool(true))),
        ]
    );
}

#[test]
fn blocks_and_comments() {
    let ast = parse_source("# counting\nwhile i < 3\n  i = i + 1 # step\nend").unwrap();
    assert_eq!(
        ast,
        vec![Expression::WhileLoop {
            condition: Box::new(Expression::LessThan(BinaryExpression {
                left: Box::new(Expression::Variable("i".to_owned())),
                right: num(3),
            })),
            body: vec![Expression::VariableAssignment {
                name: "i".to_owned(),
                value: Box::new(Expression::Addition(BinaryExpression {
                    left: Box::new(Expression::Variable("i".to_owned())),
                    right: num(1),
                })),
            }],
        }]
    );
}

#[test]
fn parse_errors() {
    assert!(matches!(parse_source("let x ="), Err(ParseError::EndOfInput)));
    assert!(matches!(parse_source("if true"), Err(ParseError::EndOfInput)));
    match parse_source("1 == 2") {
        Err(ParseError::InvalidToken { token, position }) => {
            assert_eq!(token, Token::Eq);
            assert_eq!(position, 1);
        }
        other => panic!("unexpected {:?}", other),
    }
    match parse_source("let 1 = 2") {
        Err(ParseError::InvalidToken { token, position }) => {
            assert_eq!(token, Token::NumberLiteral(Number::from_integer(1)));
            assert_eq!(position, 1);
        }
        other => panic!("unexpected {:?}", other),
    }
    assert!(matches!(
        parse_source("[1, 2,]"),
        Err(ParseError::InvalidToken { token: Token::CloseBracket, position: 5 })
    ));
    assert!(matches!(
        parse_source("f(1 2)"),
        Err(ParseError::InvalidToken { position: 3, .. })
    ));
    assert!(matches!(parse_source("end"), Err(ParseError::InvalidToken { position: 0, .. })));
}
