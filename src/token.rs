//! Tokens: the units that the tokenizer produces and the parser consumes.
use vstd::prelude::*;
use crate::expression::{Expression, SpecExpr};
use crate::number::Number;
use crate::text::str_eq;

verus! {

/// Where a token stands: its line, its first character within the line and
/// its length, all counted in characters from zero.
#[derive(Debug, Default, Clone, Copy, PartialEq, Eq)]
pub struct TokenSpan {
    pub line: usize,
    pub start: usize,
    pub len: usize,
}

impl TokenSpan {
    pub fn new(line: usize, start: usize, len: usize) -> (r: TokenSpan)
        ensures
            r.line == line,
            r.start == start,
            r.len == len,
    {
        TokenSpan { line, start, len }
    }
}

#[derive(Debug, Clone, Copy, PartialEq, Eq, Structural)]
pub enum Keyword {
    Let,
    If,
    Fun,
    End,
    While,
    True,
    False,
    Return,
}

/// The keywords, in the order in which the tokenizer tries them.
pub open spec fn keyword_texts() -> Seq<Seq<char>> {
    seq!["let"@, "if"@, "fun"@, "end"@, "while"@, "true"@, "false"@, "return"@]
}

/// The keyword that the text `s` names.
pub open spec fn keyword_of(s: Seq<char>) -> Keyword {
    if s == "let"@ {
        Keyword::Let
    } else if s == "if"@ {
        Keyword::If
    } else if s == "fun"@ {
        Keyword::Fun
    } else if s == "end"@ {
        Keyword::End
    } else if s == "while"@ {
        Keyword::While
    } else if s == "true"@ {
        Keyword::True
    } else if s == "false"@ {
        Keyword::False
    } else {
        Keyword::Return
    }
}

/// The views of a sequence of string slices.
pub open spec fn strs_view(s: Seq<&str>) -> Seq<Seq<char>> {
    s.map_values(|t: &str| t@)
}

impl Keyword {
    pub fn all() -> (r: Vec<&'static str>)
        ensures
            strs_view(r@) == keyword_texts(),
    {
        let r = vec!["let", "if", "fun", "end", "while", "true", "false", "return"];
        assert(strs_view(r@) =~= keyword_texts());
        r
    }

    pub fn from_string(string: &str) -> (r: Keyword)
        requires
            keyword_texts().contains(string@),
        ensures
            r == keyword_of(string@),
    {
        if str_eq(string, "let") {
            Keyword::Let
        } else if str_eq(string, "if") {
            Keyword::If
        } else if str_eq(string, "fun") {
            Keyword::Fun
        } else if str_eq(string, "end") {
            Keyword::End
        } else if str_eq(string, "while") {
            Keyword::While
        } else if str_eq(string, "true") {
            Keyword::True
        } else if str_eq(string, "false") {
            Keyword::False
        } else {
            Keyword::Return
        }
    }
}

#[derive(Debug, Clone, PartialEq)]
pub enum Token {
    Whitespace,
    Keyword(Keyword),
    Identifier(String),
    NumberLiteral(Number),
    StringLiteral(String),
    BooleanLiteral(bool),
    OpenBracket,
    CloseBracket,
    Plus,
    Minus,
    Star,
    Slash,
    OpenParens,
    CloseParens,
    Equals,
    Comma,
    Comment(String),
    Eq,
    Lte,
    Gte,
    Gt,
    Lt,
    Dot,
    And,
    Or,
    Exclamation,
}

/// The mathematical form of a token.
pub enum SpecToken {
    Whitespace,
    Keyword(Keyword),
    Identifier(Seq<char>),
    NumberLiteral(Number),
    StringLiteral(Seq<char>),
    BooleanLiteral(bool),
    OpenBracket,
    CloseBracket,
    Plus,
    Minus,
    Star,
    Slash,
    OpenParens,
    CloseParens,
    Equals,
    Comma,
    Comment(Seq<char>),
    Eq,
    Lte,
    Gte,
    Gt,
    Lt,
    Dot,
    And,
    Or,
    Exclamation,
}

impl View for Token {
    type V = SpecToken;

    open spec fn view(&self) -> SpecToken {
        match self {
            Token::Whitespace => SpecToken::Whitespace,
            Token::Keyword(k) => SpecToken::Keyword(*k),
            Token::Identifier(s) => SpecToken::Identifier(s@),
            Token::NumberLiteral(n) => SpecToken::NumberLiteral(n@),
            Token::StringLiteral(s) => SpecToken::StringLiteral(s@),
            Token::BooleanLiteral(b) => SpecToken::BooleanLiteral(*b),
            Token::OpenBracket => SpecToken::OpenBracket,
            Token::CloseBracket => SpecToken::CloseBracket,
            Token::Plus => SpecToken::Plus,
            Token::Minus => SpecToken::Minus,
            Token::Star => SpecToken::Star,
            Token::Slash => SpecToken::Slash,
            Token::OpenParens => SpecToken::OpenParens,
            Token::CloseParens => SpecToken::CloseParens,
            Token::Equals => SpecToken::Equals,
            Token::Comma => SpecToken::Comma,
            Token::Comment(s) => SpecToken::Comment(s@),
            Token::Eq => SpecToken::Eq,
            Token::Lte => SpecToken::Lte,
            Token::Gte => SpecToken::Gte,
            Token::Gt => SpecToken::Gt,
            Token::Lt => SpecToken::Lt,
            Token::Dot => SpecToken::Dot,
            Token::And => SpecToken::And,
            Token::Or => SpecToken::Or,
            Token::Exclamation => SpecToken::Exclamation,
        }
    }
}

/// The symbols, in the order in which the tokenizer tries them: each one that
/// starts with another stands before it.
pub open spec fn symbol_texts() -> Seq<Seq<char>> {
    seq![
        "=="@, ">="@, "<="@, "<"@, ">"@, "="@, "+"@, "-"@, "*"@, "/"@, "("@, ")"@, ","@, "["@,
        "]"@, "&&"@, "||"@, "!"@,
    ]
}

/// The token of the symbol `s`.
pub open spec fn symbol_token(s: Seq<char>) -> SpecToken {
    if s == "=="@ {
        SpecToken::Eq
    } else if s == ">="@ {
        SpecToken::Gte
    } else if s == "<="@ {
        SpecToken::Lte
    } else if s == "<"@ {
        SpecToken::Lt
    } else if s == ">"@ {
        SpecToken::Gt
    } else if s == "+"@ {
        SpecToken::Plus
    } else if s == "-"@ {
        SpecToken::Minus
    } else if s == "*"@ {
        SpecToken::Star
    } else if s == "/"@ {
        SpecToken::Slash
    } else if s == "("@ {
        SpecToken::OpenParens
    } else if s == ")"@ {
        SpecToken::CloseParens
    } else if s == "["@ {
        SpecToken::OpenBracket
    } else if s == "]"@ {
        SpecToken::CloseBracket
    } else if s == "="@ {
        SpecToken::Equals
    } else if s == ","@ {
        SpecToken::Comma
    } else if s == "."@ {
        SpecToken::Dot
    } else if s == "&&"@ {
        SpecToken::And
    } else if s == "||"@ {
        SpecToken::Or
    } else {
        SpecToken::Exclamation
    }
}

/// Whether a token is a literal.
pub open spec fn is_literal(t: SpecToken) -> bool {
    t is NumberLiteral || t is StringLiteral || t is BooleanLiteral
}

/// The expression that a literal token denotes.
pub open spec fn literal_expr(t: SpecToken) -> SpecExpr {
    match t {
        SpecToken::NumberLiteral(n) => SpecExpr::Num(n),
        SpecToken::StringLiteral(s) => SpecExpr::Str(s),
        SpecToken::BooleanLiteral(b) => SpecExpr::Bool(b),
        _ => SpecExpr::Bool(false),
    }
}

impl Token {
    pub fn symbols() -> (r: Vec<&'static str>)
        ensures
            strs_view(r@) == symbol_texts(),
    {
        let r = vec![
            "==", ">=", "<=", "<", ">", "=", "+", "-", "*", "/", "(", ")", ",", "[", "]", "&&",
            "||", "!",
        ];
        assert(strs_view(r@) =~= symbol_texts());
        r
    }

    pub fn from_symbol(symbol: &str) -> (r: Token)
        requires
            symbol_texts().contains(symbol@) || symbol@ == "."@,
        ensures
            r@ == symbol_token(symbol@),
    {
        if str_eq(symbol, "==") {
            Token::Eq
        } else if str_eq(symbol, ">=") {
            Token::Gte
        } else if str_eq(symbol, "<=") {
            Token::Lte
        } else if str_eq(symbol, "<") {
            Token::Lt
        } else if str_eq(symbol, ">") {
            Token::Gt
        } else if str_eq(symbol, "+") {
            Token::Plus
        } else if str_eq(symbol, "-") {
            Token::Minus
        } else if str_eq(symbol, "*") {
            Token::Star
        } else if str_eq(symbol, "/") {
            Token::Slash
        } else if str_eq(symbol, "(") {
            Token::OpenParens
        } else if str_eq(symbol, ")") {
            Token::CloseParens
        } else if str_eq(symbol, "[") {
            Token::OpenBracket
        } else if str_eq(symbol, "]") {
            Token::CloseBracket
        } else if str_eq(symbol, "=") {
            Token::Equals
        } else if str_eq(symbol, ",") {
            Token::Comma
        } else if str_eq(symbol, ".") {
            Token::Dot
        } else if str_eq(symbol, "&&") {
            Token::And
        } else if str_eq(symbol, "||") {
            Token::Or
        } else {
            Token::Exclamation
        }
    }

    /// The expression that a literal token denotes.
    pub fn value(self) -> (r: Expression)
        requires
            is_literal(self@),
        ensures
            r@ == literal_expr(self@),
    {
        match self {
            Token::NumberLiteral(v) => Expression::Number(v),
            Token::BooleanLiteral(v) => Expression::Bool(v),
            Token::StringLiteral(v) => Expression::String(v),
            _ => Expression::Bool(false),
        }
    }

    /// A copy of the token.
    pub fn duplicate(&self) -> (r: Token)
        ensures
            r@ == self@,
    {
        match self {
            Token::Whitespace => Token::Whitespace,
            Token::Keyword(k) => Token::Keyword(*k),
            Token::Identifier(s) => Token::Identifier(s.clone()),
            Token::NumberLiteral(n) => Token::NumberLiteral(*n),
            Token::StringLiteral(s) => Token::StringLiteral(s.clone()),
            Token::BooleanLiteral(b) => Token::BooleanLiteral(*b),
            Token::OpenBracket => Token::OpenBracket,
            Token::CloseBracket => Token::CloseBracket,
            Token::Plus => Token::Plus,
            Token::Minus => Token::Minus,
            Token::Star => Token::Star,
            Token::Slash => Token::Slash,
            Token::OpenParens => Token::OpenParens,
            Token::CloseParens => Token::CloseParens,
            Token::Equals => Token::Equals,
            Token::Comma => Token::Comma,
            Token::Comment(s) => Token::Comment(s.clone()),
            Token::Eq => Token::Eq,
            Token::Lte => Token::Lte,
            Token::Gte => Token::Gte,
            Token::Gt => Token::Gt,
            Token::Lt => Token::Lt,
            Token::Dot => Token::Dot,
            Token::And => Token::And,
            Token::Or => Token::Or,
            Token::Exclamation => Token::Exclamation,
        }
    }

    /// Whether two tokens are the same.
    pub fn equals(&self, o: &Token) -> (r: bool)
        ensures
            r == (self@ == o@),
    {
        match (self, o) {
            (Token::Whitespace, Token::Whitespace) => true,
            (Token::Keyword(a), Token::Keyword(b)) => *a == *b,
            (Token::Identifier(a), Token::Identifier(b)) => *a == *b,
            (Token::NumberLiteral(a), Token::NumberLiteral(b)) => *a == *b,
            (Token::StringLiteral(a), Token::StringLiteral(b)) => *a == *b,
            (Token::BooleanLiteral(a), Token::BooleanLiteral(b)) => *a == *b,
            (Token::OpenBracket, Token::OpenBracket) => true,
            (Token::CloseBracket, Token::CloseBracket) => true,
            (Token::Plus, Token::Plus) => true,
            (Token::Minus, Token::Minus) => true,
            (Token::Star, Token::Star) => true,
            (Token::Slash, Token::Slash) => true,
            (Token::OpenParens, Token::OpenParens) => true,
            (Token::CloseParens, Token::CloseParens) => true,
            (Token::Equals, Token::Equals) => true,
            (Token::Comma, Token::Comma) => true,
            (Token::Comment(a), Token::Comment(b)) => *a == *b,
            (Token::Eq, Token::Eq) => true,
            (Token::Lte, Token::Lte) => true,
            (Token::Gte, Token::Gte) => true,
            (Token::Gt, Token::Gt) => true,
            (Token::Lt, Token::Lt) => true,
            (Token::Dot, Token::Dot) => true,
            (Token::And, Token::And) => true,
            (Token::Or, Token::Or) => true,
            (Token::Exclamation, Token::Exclamation) => true,
            _ => false,
        }
    }
}

/// A token with the place where it stands.
#[derive(Debug, Clone, PartialEq)]
pub struct TokenWrapper {
    pub token: Token,
    pub span: TokenSpan,
}

impl TokenWrapper {
    pub fn len(&self) -> (r: usize)
        ensures
            r == self.span.len,
    {
        self.span.len
    }
}

} // verus!
