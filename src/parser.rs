//! The parser: a recursive descent over the tokens with one token of lookahead.
use vstd::prelude::*;
use crate::expression::{
    exprs_view, lemma_exprs_view_from, names_view, BinaryExpression, BinaryOp, Expression, SpecExpr,
    AST,
};
use crate::grammar::{
    binary_op_of, expect, parse_block, parse_expr, parse_list, parse_list_rest, parse_params,
    parse_params_rest, parse_primary, parse_program, parse_tokens, strip_comments, token_is, Parsed,
    SpecParseError,
};
use crate::token::{Keyword, SpecToken, Token, TokenWrapper};

verus! {

#[derive(Debug)]
pub enum ParseError {
    /// A token that the grammar does not allow where it stands; the position
    /// counts tokens from zero, comments left out.
    InvalidToken { token: Token, position: usize },
    EndOfInput,
}

impl View for ParseError {
    type V = SpecParseError;

    open spec fn view(&self) -> SpecParseError {
        match self {
            ParseError::InvalidToken { token, position } => SpecParseError::InvalidToken(
                token@,
                *position as int,
            ),
            ParseError::EndOfInput => SpecParseError::EndOfInput,
        }
    }
}

pub type ParseResult<T> = Result<T, ParseError>;

/// The tokens of a sequence of wrapped tokens.
pub open spec fn tokens_view(s: Seq<TokenWrapper>) -> Seq<SpecToken> {
    s.map_values(|w: TokenWrapper| w.token@)
}

pub open spec fn expr_result(r: ParseResult<Expression>, p: int) -> Parsed<SpecExpr> {
    match r {
        Ok(e) => Ok((e@, p)),
        Err(x) => Err(x@),
    }
}

pub open spec fn exprs_result(r: ParseResult<Vec<Expression>>, p: int) -> Parsed<Seq<SpecExpr>> {
    match r {
        Ok(v) => Ok((exprs_view(v@), p)),
        Err(x) => Err(x@),
    }
}

pub open spec fn names_result(r: ParseResult<Vec<String>>, p: int) -> Parsed<Seq<Seq<char>>> {
    match r {
        Ok(v) => Ok((names_view(v@), p)),
        Err(x) => Err(x@),
    }
}

proof fn lemma_exprs_view_push(s: Seq<Expression>, e: Expression)
    ensures
        exprs_view(s.push(e)) == exprs_view(s).push(e@),
{
    lemma_exprs_view_from(s, 0);
    lemma_exprs_view_from(s.push(e), 0);
    assert forall|j: int| 0 <= j < s.len() + 1 implies exprs_view(s.push(e))[j] == exprs_view(
        s,
    ).push(e@)[j] by {
        assert(exprs_view(s.push(e))[j - 0] == s.push(e)[j]@);
        if j < s.len() {
            assert(exprs_view(s)[j - 0] == s[j]@);
        }
    }
    assert(exprs_view(s.push(e)) =~= exprs_view(s).push(e@));
}

proof fn lemma_exprs_view_empty(s: Seq<Expression>)
    requires
        s.len() == 0,
    ensures
        exprs_view(s) == Seq::<SpecExpr>::empty(),
{
    lemma_exprs_view_from(s, 0);
    assert(exprs_view(s) =~= Seq::<SpecExpr>::empty());
}

/// Builds the node of a binary operator.
fn make_binary(op: BinaryOp, left: Expression, right: Expression) -> (r: Expression)
    ensures
        r@ == SpecExpr::Binary(op, Box::new(left@), Box::new(right@)),
{
    let b = BinaryExpression::new(left, right);
    match op {
        BinaryOp::Add => Expression::Addition(b),
        BinaryOp::Subtract => Expression::Subtraction(b),
        BinaryOp::Multiply => Expression::Multiplication(b),
        BinaryOp::Divide => Expression::Division(b),
        BinaryOp::Less => Expression::LessThan(b),
        BinaryOp::LessEqual => Expression::LessEquals(b),
        BinaryOp::Greater => Expression::GreaterThan(b),
        BinaryOp::GreaterEqual => Expression::GreaterEquals(b),
        BinaryOp::And => Expression::And(b),
        BinaryOp::Or => Expression::Or(b),
    }
}

/// The binary operator that a token stands for.
fn binary_op(tok: &Token) -> (r: Option<BinaryOp>)
    ensures
        r == binary_op_of(tok@),
{
    match tok {
        Token::Plus => Some(BinaryOp::Add),
        Token::Minus => Some(BinaryOp::Subtract),
        Token::Star => Some(BinaryOp::Multiply),
        Token::Slash => Some(BinaryOp::Divide),
        Token::Lte => Some(BinaryOp::LessEqual),
        Token::Lt => Some(BinaryOp::Less),
        Token::Gte => Some(BinaryOp::GreaterEqual),
        Token::Gt => Some(BinaryOp::Greater),
        Token::And => Some(BinaryOp::And),
        Token::Or => Some(BinaryOp::Or),
        _ => None,
    }
}

pub struct Parser {
    tokens: Vec<TokenWrapper>,
    current: usize,
}

impl Parser {
    /// The tokens that the parser holds.
    pub closed spec fn token_seq(&self) -> Seq<SpecToken> {
        tokens_view(self.tokens@)
    }

    pub fn new(tokens: Vec<TokenWrapper>) -> (r: Parser)
        ensures
            r.token_seq() == tokens_view(tokens@),
    {
        Parser { tokens, current: 0 }
    }

    /// The error for the token at `p`.
    fn error_at(&self, p: usize) -> (r: ParseError)
        requires
            p < self.tokens@.len(),
        ensures
            r@ == SpecParseError::InvalidToken(tokens_view(self.tokens@)[p as int], p as int),
    {
        ParseError::InvalidToken { token: self.tokens[p].token.duplicate(), position: p }
    }

    fn current_token(&self) -> (r: ParseResult<Token>)
        ensures
            self.current < self.tokens@.len() ==> (r matches Ok(t) && t@ == tokens_view(
                self.tokens@,
            )[self.current as int]),
            self.current >= self.tokens@.len() ==> (r matches Err(e) && e@ == SpecParseError::EndOfInput),
    {
        if self.current < self.tokens.len() {
            Ok(self.tokens[self.current].token.duplicate())
        } else {
            Err(ParseError::EndOfInput)
        }
    }

    fn peek(&self) -> (r: Option<Token>)
        ensures
            self.current + 1 < self.tokens@.len() ==> (r matches Some(t) && t@ == tokens_view(
                self.tokens@,
            )[self.current + 1]),
            self.current + 1 >= self.tokens@.len() ==> r is None,
    {
        if self.current < self.tokens.len() && self.current + 1 < self.tokens.len() {
            Some(self.tokens[self.current + 1].token.duplicate())
        } else {
            None
        }
    }

    /// Whether the current token is `want`.
    fn at(&self, want: &Token) -> (r: bool)
        ensures
            r == token_is(tokens_view(self.tokens@), self.current as int, want@),
    {
        self.current < self.tokens.len() && self.tokens[self.current].token.equals(want)
    }

    fn consume(&mut self)
        requires
            old(self).current < old(self).tokens.len(),
        ensures
            final(self).tokens == old(self).tokens,
            final(self).current == old(self).current + 1,
    {
        self.current = self.current + 1;
    }

    /// Consumes the current token, which must be `want`.
    fn try_consume(&mut self, want: Token) -> (r: ParseResult<()>)
        ensures
            final(self).tokens == old(self).tokens,
            match expect(tokens_view(old(self).tokens@), old(self).current as int, want@) {
                Ok(q) => r is Ok && final(self).current == q,
                Err(e) => r matches Err(x) && x@ == e && final(self).current == old(self).current,
            },
    {
        if self.current >= self.tokens.len() {
            return Err(ParseError::EndOfInput);
        }
        if self.tokens[self.current].token.equals(&want) {
            self.current = self.current + 1;
            Ok(())
        } else {
            Err(self.error_at(self.current))
        }
    }

    /// Parses one expression: a primary form, then a binary operator and its
    /// right operand if one follows.
    fn parse_expression(&mut self) -> (r: ParseResult<Expression>)
        requires
            old(self).current <= old(self).tokens@.len(),
        ensures
            final(self).tokens == old(self).tokens,
            final(self).current <= final(self).tokens@.len(),
            r is Ok ==> final(self).current > old(self).current,
            expr_result(r, final(self).current as int) == parse_expr(
                tokens_view(old(self).tokens@),
                old(self).current as int,
            ),
        decreases old(self).tokens@.len() - old(self).current, 2int,
    {
        if self.current >= self.tokens.len() {
            return Err(ParseError::EndOfInput);
        }
        let left = match self.parse_primary() {
            Ok(e) => e,
            Err(e) => return Err(e),
        };
        if self.current < self.tokens.len() {
            match binary_op(&self.tokens[self.current].token) {
                Some(op) => {
                    self.consume();
                    let right = match self.parse_expression() {
                        Ok(e) => e,
                        Err(e) => return Err(e),
                    };
                    return Ok(make_binary(op, left, right));
                },
                None => {},
            }
        }
        Ok(left)
    }

    /// Parses the primary form at the current token.
    fn parse_primary(&mut self) -> (r: ParseResult<Expression>)
        requires
            old(self).current < old(self).tokens@.len(),
        ensures
            final(self).tokens == old(self).tokens,
            final(self).current <= final(self).tokens@.len(),
            r is Ok ==> final(self).current > old(self).current,
            expr_result(r, final(self).current as int) == parse_primary(
                tokens_view(old(self).tokens@),
                old(self).current as int,
            ),
        decreases old(self).tokens@.len() - old(self).current, 1int,
    {
        let pos = self.current;
        let tok = self.tokens[pos].token.duplicate();
        match tok {
            Token::Exclamation => {
                self.consume();
                match self.parse_expression() {
                    Ok(e) => Ok(Expression::BoolNegation(Box::new(e))),
                    Err(e) => Err(e),
                }
            },
            Token::Keyword(Keyword::If) => self.parse_if_statement(),
            Token::Keyword(Keyword::While) => self.parse_while_loop(),
            Token::Keyword(Keyword::Return) => self.parse_return_statement(),
            Token::Keyword(Keyword::Let) => self.parse_variable_decleration(),
            Token::Keyword(Keyword::Fun) => self.parse_function_decleration(),
            Token::OpenBracket => self.parse_array(),
            Token::Identifier(name) => {
                let next = self.peek();
                match next {
                    Some(Token::Equals) => self.parse_variable_assignment(name),
                    Some(Token::OpenParens) => self.parse_function_call(name),
                    Some(Token::OpenBracket) => {
                        self.consume();
                        self.consume();
                        let index = match self.parse_expression() {
                            Ok(e) => e,
                            Err(e) => return Err(e),
                        };
                        let ghost nv = name@;
                        let var = Expression::Variable(name);
                        assert(var@ == SpecExpr::Var(nv));
                        match self.try_consume(Token::CloseBracket) {
                            Ok(()) => Ok(
                                Expression::ArrayIndexing { array: Box::new(var), index: Box::new(index) },
                            ),
                            Err(e) => Err(e),
                        }
                    },
                    _ => {
                        self.consume();
                        Ok(Expression::Variable(name))
                    },
                }
            },
            Token::NumberLiteral(_) | Token::StringLiteral(_) | Token::BooleanLiteral(_) => {
                self.consume();
                Ok(tok.value())
            },
            _ => Err(self.error_at(pos)),
        }
    }

    fn parse_if_statement(&mut self) -> (r: ParseResult<Expression>)
        requires
            old(self).current < old(self).tokens@.len(),
            tokens_view(old(self).tokens@)[old(self).current as int] == SpecToken::Keyword(Keyword::If),
        ensures
            final(self).tokens == old(self).tokens,
            final(self).current <= final(self).tokens@.len(),
            r is Ok ==> final(self).current > old(self).current,
            expr_result(r, final(self).current as int) == parse_primary(
                tokens_view(old(self).tokens@),
                old(self).current as int,
            ),
        decreases old(self).tokens@.len() - old(self).current, 0int,
    {
        self.consume();
        let condition = match self.parse_expression() {
            Ok(e) => e,
            Err(e) => return Err(e),
        };
        match self.parse_block() {
            Ok(body) => Ok(Expression::IfCondition { condition: Box::new(condition), body }),
            Err(e) => Err(e),
        }
    }

    fn parse_while_loop(&mut self) -> (r: ParseResult<Expression>)
        requires
            old(self).current < old(self).tokens@.len(),
            tokens_view(old(self).tokens@)[old(self).current as int] == SpecToken::Keyword(Keyword::While),
        ensures
            final(self).tokens == old(self).tokens,
            final(self).current <= final(self).tokens@.len(),
            r is Ok ==> final(self).current > old(self).current,
            expr_result(r, final(self).current as int) == parse_primary(
                tokens_view(old(self).tokens@),
                old(self).current as int,
            ),
        decreases old(self).tokens@.len() - old(self).current, 0int,
    {
        self.consume();
        let condition = match self.parse_expression() {
            Ok(e) => e,
            Err(e) => return Err(e),
        };
        match self.parse_block() {
            Ok(body) => Ok(Expression::WhileLoop { condition: Box::new(condition), body }),
            Err(e) => Err(e),
        }
    }

    fn parse_return_statement(&mut self) -> (r: ParseResult<Expression>)
        requires
            old(self).current < old(self).tokens@.len(),
            tokens_view(old(self).tokens@)[old(self).current as int] == SpecToken::Keyword(Keyword::Return),
        ensures
            final(self).tokens == old(self).tokens,
            final(self).current <= final(self).tokens@.len(),
            r is Ok ==> final(self).current > old(self).current,
            expr_result(r, final(self).current as int) == parse_primary(
                tokens_view(old(self).tokens@),
                old(self).current as int,
            ),
        decreases old(self).tokens@.len() - old(self).current, 0int,
    {
        self.consume();
        match self.parse_expression() {
            Ok(e) => Ok(Expression::Return(Box::new(e))),
            Err(e) => Err(e),
        }
    }

    fn parse_variable_decleration(&mut self) -> (r: ParseResult<Expression>)
        requires
            old(self).current < old(self).tokens@.len(),
            tokens_view(old(self).tokens@)[old(self).current as int] == SpecToken::Keyword(Keyword::Let),
        ensures
            final(self).tokens == old(self).tokens,
            final(self).current <= final(self).tokens@.len(),
            r is Ok ==> final(self).current > old(self).current,
            expr_result(r, final(self).current as int) == parse_primary(
                tokens_view(old(self).tokens@),
                old(self).current as int,
            ),
        decreases old(self).tokens@.len() - old(self).current, 0int,
    {
        self.consume();
        let name = match self.current_token() {
            Ok(Token::Identifier(n)) => n,
            Ok(_) => return Err(self.error_at(self.current)),
            Err(e) => return Err(e),
        };
        self.consume();
        match self.try_consume(Token::Equals) {
            Ok(()) => {},
            Err(e) => return Err(e),
        }
        match self.parse_expression() {
            Ok(v) => Ok(Expression::VariableDecleration { name, value: Box::new(v) }),
            Err(e) => Err(e),
        }
    }

    fn parse_variable_assignment(&mut self, name: String) -> (r: ParseResult<Expression>)
        requires
            old(self).current + 1 < old(self).tokens@.len(),
            tokens_view(old(self).tokens@)[old(self).current as int] == SpecToken::Identifier(name@),
            tokens_view(old(self).tokens@)[old(self).current + 1] == SpecToken::Equals,
        ensures
            final(self).tokens == old(self).tokens,
            final(self).current <= final(self).tokens@.len(),
            r is Ok ==> final(self).current > old(self).current,
            expr_result(r, final(self).current as int) == parse_primary(
                tokens_view(old(self).tokens@),
                old(self).current as int,
            ),
        decreases old(self).tokens@.len() - old(self).current, 0int,
    {
        self.consume();
        self.consume();
        match self.parse_expression() {
            Ok(v) => Ok(Expression::VariableAssignment { name, value: Box::new(v) }),
            Err(e) => Err(e),
        }
    }

    fn parse_function_call(&mut self, name: String) -> (r: ParseResult<Expression>)
        requires
            old(self).current + 1 < old(self).tokens@.len(),
            tokens_view(old(self).tokens@)[old(self).current as int] == SpecToken::Identifier(name@),
            tokens_view(old(self).tokens@)[old(self).current + 1] == SpecToken::OpenParens,
        ensures
            final(self).tokens == old(self).tokens,
            final(self).current <= final(self).tokens@.len(),
            r is Ok ==> final(self).current > old(self).current,
            expr_result(r, final(self).current as int) == parse_primary(
                tokens_view(old(self).tokens@),
                old(self).current as int,
            ),
        decreases old(self).tokens@.len() - old(self).current, 0int,
    {
        self.consume();
        self.consume();
        match self.parse_list(Token::CloseParens) {
            Ok(arguments) => Ok(Expression::FunctionCall { name, arguments }),
            Err(e) => Err(e),
        }
    }

    fn parse_array(&mut self) -> (r: ParseResult<Expression>)
        requires
            old(self).current < old(self).tokens@.len(),
            tokens_view(old(self).tokens@)[old(self).current as int] == SpecToken::OpenBracket,
        ensures
            final(self).tokens == old(self).tokens,
            final(self).current <= final(self).tokens@.len(),
            r is Ok ==> final(self).current > old(self).current,
            expr_result(r, final(self).current as int) == parse_primary(
                tokens_view(old(self).tokens@),
                old(self).current as int,
            ),
        decreases old(self).tokens@.len() - old(self).current, 0int,
    {
        self.consume();
        match self.parse_list(Token::CloseBracket) {
            Ok(items) => Ok(Expression::Array(items)),
            Err(e) => Err(e),
        }
    }

    fn parse_function_decleration(&mut self) -> (r: ParseResult<Expression>)
        requires
            old(self).current < old(self).tokens@.len(),
            tokens_view(old(self).tokens@)[old(self).current as int] == SpecToken::Keyword(Keyword::Fun),
        ensures
            final(self).tokens == old(self).tokens,
            final(self).current <= final(self).tokens@.len(),
            r is Ok ==> final(self).current > old(self).current,
            expr_result(r, final(self).current as int) == parse_primary(
                tokens_view(old(self).tokens@),
                old(self).current as int,
            ),
        decreases old(self).tokens@.len() - old(self).current, 0int,
    {
        self.consume();
        let name = match self.current_token() {
            Ok(Token::Identifier(n)) => {
                self.consume();
                n
            },
            Ok(Token::OpenParens) => String::new(),
            Ok(_) => return Err(self.error_at(self.current)),
            Err(e) => return Err(e),
        };
        match self.try_consume(Token::OpenParens) {
            Ok(()) => {},
            Err(e) => return Err(e),
        }
        let arguments = match self.parse_params() {
            Ok(a) => a,
            Err(e) => return Err(e),
        };
        match self.try_consume(Token::CloseParens) {
            Ok(()) => {},
            Err(e) => return Err(e),
        }
        match self.parse_block() {
            Ok(body) => Ok(Expression::FunctionDefinition { name, arguments, body }),
            Err(e) => Err(e),
        }
    }

    /// Parameter names separated by commas, possibly none.
    fn parse_params(&mut self) -> (r: ParseResult<Vec<String>>)
        requires
            old(self).current <= old(self).tokens@.len(),
        ensures
            final(self).tokens == old(self).tokens,
            final(self).current <= final(self).tokens@.len(),
            final(self).current >= old(self).current,
            names_result(r, final(self).current as int) == parse_params(
                tokens_view(old(self).tokens@),
                old(self).current as int,
            ),
    {
        let ghost t = tokens_view(self.tokens@);
        let mut names: Vec<String> = Vec::new();
        let first = match self.current_token() {
            Ok(Token::Identifier(n)) => n,
            _ => {
                assert(names_view(names@) =~= Seq::<Seq<char>>::empty());
                return Ok(names);
            },
        };
        self.consume();
        names.push(first);
        assert(names_view(names@) =~= seq![t[self.current - 1]->Identifier_0]);
        loop
            invariant
                self.tokens == old(self).tokens,
                t == tokens_view(self.tokens@),
                old(self).current < self.current <= self.tokens@.len(),
                parse_params(t, old(self).current as int) == parse_params_rest(
                    t,
                    self.current as int,
                    names_view(names@),
                ),
            decreases self.tokens@.len() - self.current,
        {
            if !self.at(&Token::Comma) {
                return Ok(names);
            }
            self.consume();
            let n = match self.current_token() {
                Ok(Token::Identifier(n)) => n,
                Ok(_) => return Err(self.error_at(self.current)),
                Err(e) => return Err(e),
            };
            self.consume();
            let ghost before = names@;
            names.push(n);
            assert(names_view(names@) =~= names_view(before).push(n@));
        }
    }

    /// Expressions up to and including the keyword `end`.
    fn parse_block(&mut self) -> (r: ParseResult<Vec<Expression>>)
        requires
            old(self).current <= old(self).tokens@.len(),
        ensures
            final(self).tokens == old(self).tokens,
            final(self).current <= final(self).tokens@.len(),
            r is Ok ==> final(self).current > old(self).current,
            exprs_result(r, final(self).current as int) == parse_block(
                tokens_view(old(self).tokens@),
                old(self).current as int,
                Seq::empty(),
            ),
        decreases old(self).tokens@.len() - old(self).current, 3int,
    {
        let ghost t = tokens_view(self.tokens@);
        let mut body: Vec<Expression> = Vec::new();
        proof {
            lemma_exprs_view_empty(body@);
        }
        loop
            invariant
                self.tokens == old(self).tokens,
                t == tokens_view(self.tokens@),
                old(self).current <= self.current <= self.tokens@.len(),
                parse_block(t, old(self).current as int, Seq::empty()) == parse_block(
                    t,
                    self.current as int,
                    exprs_view(body@),
                ),
            decreases self.tokens@.len() - self.current,
        {
            if self.at(&Token::Keyword(Keyword::End)) {
                self.consume();
                return Ok(body);
            }
            let e = match self.parse_expression() {
                Ok(e) => e,
                Err(e) => return Err(e),
            };
            proof {
                lemma_exprs_view_push(body@, e);
            }
            body.push(e);
        }
    }

    /// Expressions separated by commas, up to and including `closer`.
    fn parse_list(&mut self, closer: Token) -> (r: ParseResult<Vec<Expression>>)
        requires
            old(self).current <= old(self).tokens@.len(),
        ensures
            final(self).tokens == old(self).tokens,
            final(self).current <= final(self).tokens@.len(),
            r is Ok ==> final(self).current > old(self).current,
            exprs_result(r, final(self).current as int) == parse_list(
                tokens_view(old(self).tokens@),
                old(self).current as int,
                closer@,
            ),
        decreases old(self).tokens@.len() - old(self).current, 3int,
    {
        let ghost t = tokens_view(self.tokens@);
        let mut items: Vec<Expression> = Vec::new();
        proof {
            lemma_exprs_view_empty(items@);
        }
        if self.at(&closer) {
            self.consume();
            return Ok(items);
        }
        let first = match self.parse_expression() {
            Ok(e) => e,
            Err(e) => return Err(e),
        };
        proof {
            lemma_exprs_view_push(items@, first);
            assert(exprs_view(items@).push(first@) =~= seq![first@]);
        }
        items.push(first);
        loop
            invariant
                self.tokens == old(self).tokens,
                t == tokens_view(self.tokens@),
                old(self).current < self.current <= self.tokens@.len(),
                parse_list(t, old(self).current as int, closer@) == parse_list_rest(
                    t,
                    self.current as int,
                    closer@,
                    exprs_view(items@),
                ),
            decreases self.tokens@.len() - self.current,
        {
            if !self.at(&Token::Comma) {
                return match self.try_consume(closer) {
                    Ok(()) => Ok(items),
                    Err(e) => Err(e),
                };
            }
            self.consume();
            let e = match self.parse_expression() {
                Ok(e) => e,
                Err(e) => return Err(e),
            };
            proof {
                lemma_exprs_view_push(items@, e);
            }
            items.push(e);
        }
    }

    /// Parses the whole token sequence into a program. Comments are dropped
    /// first; then expressions are parsed one after another until the tokens
    /// run out. The first malformed construct ends the parse with its error.
    pub fn parse(&mut self) -> (r: ParseResult<AST>)
        ensures
            match r {
                Ok(ast) => parse_tokens(old(self).token_seq()) == Ok::<Seq<SpecExpr>, SpecParseError>(
                    exprs_view(ast@),
                ),
                Err(e) => parse_tokens(old(self).token_seq()) == Err::<Seq<SpecExpr>, SpecParseError>(e@),
            },
    {
        self.strip_comments();
        self.current = 0;
        let ghost t = tokens_view(self.tokens@);
        let mut ast: Vec<Expression> = Vec::new();
        proof {
            lemma_exprs_view_empty(ast@);
        }
        while self.current < self.tokens.len()
            invariant
                t == tokens_view(self.tokens@),
                t == strip_comments(tokens_view(old(self).tokens@)),
                self.current <= self.tokens@.len(),
                parse_program(t, 0, Seq::empty()) == parse_program(
                    t,
                    self.current as int,
                    exprs_view(ast@),
                ),
            decreases self.tokens@.len() - self.current,
        {
            let e = match self.parse_expression() {
                Ok(e) => e,
                Err(e) => return Err(e),
            };
            proof {
                lemma_exprs_view_push(ast@, e);
            }
            ast.push(e);
        }
        Ok(ast)
    }

    /// Drops the comment tokens.
    fn strip_comments(&mut self)
        ensures
            tokens_view(final(self).tokens@) == strip_comments(tokens_view(old(self).tokens@)),
    {
        let ghost t = tokens_view(self.tokens@);
        let mut kept: Vec<TokenWrapper> = Vec::new();
        let mut i: usize = 0;
        while i < self.tokens.len()
            invariant
                self.tokens == old(self).tokens,
                t == tokens_view(self.tokens@),
                i <= self.tokens@.len(),
                tokens_view(kept@) == strip_comments(t.take(i as int)),
            decreases self.tokens@.len() - i,
        {
            assert(t.take(i + 1).drop_last() =~= t.take(i as int));
            let w = &self.tokens[i];
            match &w.token {
                Token::Comment(_) => {},
                _ => {
                    let ghost before = kept@;
                    kept.push(TokenWrapper { token: w.token.duplicate(), span: w.span });
                    assert(tokens_view(kept@) =~= tokens_view(before).push(t[i as int]));
                },
            }
            i = i + 1;
        }
        assert(t.take(i as int) =~= t);
        self.tokens = kept;
    }
}

} // verus!
