//! What parsing means: the grammar as functions from a token sequence and a
//! position to an expression and the position after it.
//!
//! Binary operators take a whole expression as their right operand, so chains
//! nest to the right with no precedence among operators: `10 - 2 - 3` is
//! `10 - (2 - 3)`.
use vstd::prelude::*;
use crate::expression::{BinaryOp, SpecExpr};
use crate::token::{is_literal, literal_expr, Keyword, SpecToken};

verus! {

pub enum SpecParseError {
    InvalidToken(SpecToken, int),
    EndOfInput,
}

/// An expression and the position after it, or an error.
pub type Parsed<T> = Result<(T, int), SpecParseError>;

/// The token at `p`, which must be `want`; the position after it.
pub open spec fn expect(t: Seq<SpecToken>, p: int, want: SpecToken) -> Result<int, SpecParseError> {
    if p < 0 || p >= t.len() {
        Err(SpecParseError::EndOfInput)
    } else if t[p] == want {
        Ok(p + 1)
    } else {
        Err(SpecParseError::InvalidToken(t[p], p))
    }
}

/// Whether the token at `p` is `want`.
pub open spec fn token_is(t: Seq<SpecToken>, p: int, want: SpecToken) -> bool {
    0 <= p < t.len() && t[p] == want
}

/// The binary operator that a token stands for.
pub open spec fn binary_op_of(tok: SpecToken) -> Option<BinaryOp> {
    match tok {
        SpecToken::Plus => Some(BinaryOp::Add),
        SpecToken::Minus => Some(BinaryOp::Subtract),
        SpecToken::Star => Some(BinaryOp::Multiply),
        SpecToken::Slash => Some(BinaryOp::Divide),
        SpecToken::Lte => Some(BinaryOp::LessEqual),
        SpecToken::Lt => Some(BinaryOp::Less),
        SpecToken::Gte => Some(BinaryOp::GreaterEqual),
        SpecToken::Gt => Some(BinaryOp::Greater),
        SpecToken::And => Some(BinaryOp::And),
        SpecToken::Or => Some(BinaryOp::Or),
        _ => None,
    }
}

/// One expression at `pos`: a primary form, then, if a binary operator
/// follows, the operator and a whole expression as its right operand.
pub open spec fn parse_expr(t: Seq<SpecToken>, pos: int) -> Parsed<SpecExpr>
    decreases t.len() - pos, 2int,
{
    if pos < 0 || pos >= t.len() {
        Err(SpecParseError::EndOfInput)
    } else {
        match parse_primary(t, pos) {
            Err(e) => Err(e),
            Ok((left, p)) => if p <= pos || p > t.len() {
                Err(SpecParseError::EndOfInput)
            } else if p < t.len() && binary_op_of(t[p]) is Some {
                match parse_expr(t, p + 1) {
                    Ok((right, q)) => Ok(
                        (
                            SpecExpr::Binary(binary_op_of(t[p])->0, Box::new(left), Box::new(right)),
                            q,
                        ),
                    ),
                    Err(e) => Err(e),
                }
            } else {
                Ok((left, p))
            },
        }
    }
}

/// The primary form at `pos`, chosen by the token there (and, after a name,
/// by the token after it).
pub open spec fn parse_primary(t: Seq<SpecToken>, pos: int) -> Parsed<SpecExpr>
    decreases t.len() - pos, 1int,
{
    if pos < 0 || pos >= t.len() {
        Err(SpecParseError::EndOfInput)
    } else {
        match t[pos] {
            SpecToken::Exclamation => match parse_expr(t, pos + 1) {
                Ok((e, p)) => Ok((SpecExpr::Not(Box::new(e)), p)),
                Err(e) => Err(e),
            },
            SpecToken::Keyword(Keyword::If) => match parse_expr(t, pos + 1) {
                Ok((c, p)) => if p <= pos || p > t.len() {
                    Err(SpecParseError::EndOfInput)
                } else {
                    match parse_block(t, p, Seq::empty()) {
                        Ok((body, q)) => Ok((SpecExpr::If(Box::new(c), body), q)),
                        Err(e) => Err(e),
                    }
                },
                Err(e) => Err(e),
            },
            SpecToken::Keyword(Keyword::While) => match parse_expr(t, pos + 1) {
                Ok((c, p)) => if p <= pos || p > t.len() {
                    Err(SpecParseError::EndOfInput)
                } else {
                    match parse_block(t, p, Seq::empty()) {
                        Ok((body, q)) => Ok((SpecExpr::While(Box::new(c), body), q)),
                        Err(e) => Err(e),
                    }
                },
                Err(e) => Err(e),
            },
            SpecToken::Keyword(Keyword::Return) => match parse_expr(t, pos + 1) {
                Ok((e, p)) => Ok((SpecExpr::Return(Box::new(e)), p)),
                Err(e) => Err(e),
            },
            SpecToken::Keyword(Keyword::Let) => if pos + 1 >= t.len() {
                Err(SpecParseError::EndOfInput)
            } else {
                match t[pos + 1] {
                    SpecToken::Identifier(n) => match expect(t, pos + 2, SpecToken::Equals) {
                        Ok(p) => match parse_expr(t, p) {
                            Ok((v, q)) => Ok((SpecExpr::Declare(n, Box::new(v)), q)),
                            Err(e) => Err(e),
                        },
                        Err(e) => Err(e),
                    },
                    other => Err(SpecParseError::InvalidToken(other, pos + 1)),
                }
            },
            SpecToken::Keyword(Keyword::Fun) => if pos + 1 >= t.len() {
                Err(SpecParseError::EndOfInput)
            } else {
                let head: Result<(Seq<char>, int), SpecParseError> = match t[pos + 1] {
                    SpecToken::Identifier(n) => Ok((n, pos + 2)),
                    SpecToken::OpenParens => Ok((Seq::empty(), pos + 1)),
                    other => Err(SpecParseError::InvalidToken(other, pos + 1)),
                };
                match head {
                    Err(e) => Err(e),
                    Ok((name, p)) => match expect(t, p, SpecToken::OpenParens) {
                        Err(e) => Err(e),
                        Ok(p_open) => match parse_params(t, p_open) {
                            Err(e) => Err(e),
                            Ok((params, p_params)) => if p_params < p_open || p_params > t.len() {
                                Err(SpecParseError::EndOfInput)
                            } else {
                                match expect(t, p_params, SpecToken::CloseParens) {
                                Err(e) => Err(e),
                                Ok(p_close) => match parse_block(t, p_close, Seq::empty()) {
                                    Ok((body, q)) => Ok((SpecExpr::Function(name, params, body), q)),
                                    Err(e) => Err(e),
                                },
                            }
                            },
                        },
                    },
                }
            },
            SpecToken::OpenBracket => match parse_list(t, pos + 1, SpecToken::CloseBracket) {
                Ok((items, q)) => Ok((SpecExpr::Array(items), q)),
                Err(e) => Err(e),
            },
            SpecToken::Identifier(name) => if token_is(t, pos + 1, SpecToken::Equals) {
                match parse_expr(t, pos + 2) {
                    Ok((v, q)) => Ok((SpecExpr::Assign(name, Box::new(v)), q)),
                    Err(e) => Err(e),
                }
            } else if token_is(t, pos + 1, SpecToken::OpenParens) {
                match parse_list(t, pos + 2, SpecToken::CloseParens) {
                    Ok((args, q)) => Ok((SpecExpr::Call(name, args), q)),
                    Err(e) => Err(e),
                }
            } else if token_is(t, pos + 1, SpecToken::OpenBracket) {
                match parse_expr(t, pos + 2) {
                    Ok((i, p)) => match expect(t, p, SpecToken::CloseBracket) {
                        Ok(q) => Ok((SpecExpr::Index(Box::new(SpecExpr::Var(name)), Box::new(i)), q)),
                        Err(e) => Err(e),
                    },
                    Err(e) => Err(e),
                }
            } else {
                Ok((SpecExpr::Var(name), pos + 1))
            },
            tok => if is_literal(tok) {
                Ok((literal_expr(tok), pos + 1))
            } else {
                Err(SpecParseError::InvalidToken(tok, pos))
            },
        }
    }
}

/// Expressions from `p` up to and including the keyword `end`, after `acc`.
pub open spec fn parse_block(t: Seq<SpecToken>, p: int, acc: Seq<SpecExpr>) -> Parsed<Seq<SpecExpr>>
    decreases t.len() - p, 3int,
{
    if token_is(t, p, SpecToken::Keyword(Keyword::End)) {
        Ok((acc, p + 1))
    } else {
        match parse_expr(t, p) {
            Err(e) => Err(e),
            Ok((e, q)) => if q <= p || q > t.len() {
                Err(SpecParseError::EndOfInput)
            } else {
                parse_block(t, q, acc.push(e))
            },
        }
    }
}

/// A list of expressions separated by commas, from `p` up to and including
/// `closer`; the list may be empty.
pub open spec fn parse_list(t: Seq<SpecToken>, p: int, closer: SpecToken) -> Parsed<Seq<SpecExpr>>
    decreases t.len() - p, 3int,
{
    if token_is(t, p, closer) {
        Ok((Seq::empty(), p + 1))
    } else {
        match parse_expr(t, p) {
            Err(e) => Err(e),
            Ok((e, q)) => if q <= p || q > t.len() {
                Err(SpecParseError::EndOfInput)
            } else {
                parse_list_rest(t, q, closer, seq![e])
            },
        }
    }
}

/// The rest of a list after `acc`: a comma and an expression, again and
/// again, then `closer`.
pub open spec fn parse_list_rest(t: Seq<SpecToken>, p: int, closer: SpecToken, acc: Seq<SpecExpr>) -> Parsed<Seq<SpecExpr>>
    decreases t.len() - p, 3int,
{
    if token_is(t, p, SpecToken::Comma) {
        match parse_expr(t, p + 1) {
            Err(e) => Err(e),
            Ok((e, q)) => if q <= p || q > t.len() {
                Err(SpecParseError::EndOfInput)
            } else {
                parse_list_rest(t, q, closer, acc.push(e))
            },
        }
    } else {
        match expect(t, p, closer) {
            Ok(q) => Ok((acc, q)),
            Err(e) => Err(e),
        }
    }
}

/// The parameter names of a function, separated by commas; possibly none.
pub open spec fn parse_params(t: Seq<SpecToken>, p: int) -> Parsed<Seq<Seq<char>>> {
    if 0 <= p < t.len() && t[p] is Identifier {
        parse_params_rest(t, p + 1, seq![t[p]->Identifier_0])
    } else {
        Ok((Seq::empty(), p))
    }
}

pub open spec fn parse_params_rest(t: Seq<SpecToken>, p: int, acc: Seq<Seq<char>>) -> Parsed<Seq<Seq<char>>>
    decreases t.len() - p,
{
    if token_is(t, p, SpecToken::Comma) {
        if p + 1 >= t.len() {
            Err(SpecParseError::EndOfInput)
        } else {
            match t[p + 1] {
                SpecToken::Identifier(n) => parse_params_rest(t, p + 2, acc.push(n)),
                other => Err(SpecParseError::InvalidToken(other, p + 1)),
            }
        }
    } else {
        Ok((acc, p))
    }
}

/// A literal followed by a binary operator is the left operand of that
/// operator, whose right operand is the whole expression after it: chains of
/// operators nest to the right, whatever the operators.
pub proof fn lemma_chain_nests_right(t: Seq<SpecToken>, pos: int)
    requires
        0 <= pos,
        pos + 1 < t.len(),
        is_literal(t[pos]),
        binary_op_of(t[pos + 1]) is Some,
    ensures
        parse_expr(t, pos) == match parse_expr(t, pos + 2) {
            Ok((right, q)) => Ok::<(SpecExpr, int), SpecParseError>(
                (
                    SpecExpr::Binary(
                        binary_op_of(t[pos + 1])->0,
                        Box::new(literal_expr(t[pos])),
                        Box::new(right),
                    ),
                    q,
                ),
            ),
            Err(e) => Err(e),
        },
{
    assert(parse_primary(t, pos) == Ok::<(SpecExpr, int), SpecParseError>((literal_expr(t[pos]), pos + 1)));
}

/// Whether the token at `p` is a whole operand by itself: a literal, or a
/// name that no `=`, `(` or `[` follows.
pub open spec fn simple_operand(t: Seq<SpecToken>, p: int) -> bool {
    0 <= p < t.len() && (is_literal(t[p]) || (t[p] is Identifier && !token_is(
        t,
        p + 1,
        SpecToken::Equals,
    ) && !token_is(t, p + 1, SpecToken::OpenParens) && !token_is(t, p + 1, SpecToken::OpenBracket)))
}

/// The expression of a simple operand.
pub open spec fn operand_expr(tok: SpecToken) -> SpecExpr {
    match tok {
        SpecToken::Identifier(n) => SpecExpr::Var(n),
        _ => literal_expr(tok),
    }
}

/// The tree of the chain `e0 op1 e1 ... opn en` that starts at `pos`: each
/// operator takes the operand before it and the whole rest of the chain.
pub open spec fn chain_expr(t: Seq<SpecToken>, pos: int, n: nat) -> SpecExpr
    decreases n,
{
    if n == 0 {
        operand_expr(t[pos])
    } else {
        SpecExpr::Binary(
            binary_op_of(t[pos + 1])->0,
            Box::new(operand_expr(t[pos])),
            Box::new(chain_expr(t, pos + 2, (n - 1) as nat)),
        )
    }
}

/// A chain of simple operands joined by `n` binary operators parses as one
/// expression nested wholly to the right, with no precedence among the
/// operators: `2 * 3 + 4` is `2 * (3 + 4)`.
pub proof fn lemma_chain_parse(t: Seq<SpecToken>, pos: int, n: nat)
    requires
        0 <= pos,
        forall|i: int| 0 <= i <= n ==> #[trigger] simple_operand(t, pos + 2 * i),
        forall|i: int|
            1 <= i <= n ==> pos + 2 * i - 1 < t.len() && (#[trigger] binary_op_of(t[pos + 2 * i - 1])) is Some,
        pos + 2 * n + 1 >= t.len() || binary_op_of(t[pos + 2 * n + 1]) is None,
    ensures
        parse_expr(t, pos) == Ok::<(SpecExpr, int), SpecParseError>((chain_expr(t, pos, n), pos + 2 * n + 1)),
    decreases n,
{
    assert(simple_operand(t, pos + 2 * 0));
    assert(parse_primary(t, pos) == Ok::<(SpecExpr, int), SpecParseError>((operand_expr(t[pos]), pos + 1)));
    if n > 0 {
        assert(binary_op_of(t[pos + 2 * 1 - 1]) is Some);
        assert forall|i: int| 0 <= i <= n - 1 implies #[trigger] simple_operand(t, pos + 2 + 2 * i) by {
            assert(simple_operand(t, pos + 2 * (i + 1)));
        }
        assert forall|i: int| 1 <= i <= n - 1 implies pos + 2 + 2 * i - 1 < t.len() && (#[trigger] binary_op_of(
            t[pos + 2 + 2 * i - 1],
        )) is Some by {
            assert(binary_op_of(t[pos + 2 * (i + 1) - 1]) is Some);
        }
        lemma_chain_parse(t, pos + 2, (n - 1) as nat);
    }
}

/// Expressions from `p` to the end of the tokens, after `acc`.
pub open spec fn parse_program(t: Seq<SpecToken>, p: int, acc: Seq<SpecExpr>) -> Result<Seq<SpecExpr>, SpecParseError>
    decreases t.len() - p,
{
    if p < 0 || p >= t.len() {
        Ok(acc)
    } else {
        match parse_expr(t, p) {
            Err(e) => Err(e),
            Ok((e, q)) => if q <= p || q > t.len() {
                Err(SpecParseError::EndOfInput)
            } else {
                parse_program(t, q, acc.push(e))
            },
        }
    }
}

/// The tokens without comments.
pub open spec fn strip_comments(t: Seq<SpecToken>) -> Seq<SpecToken>
    decreases t.len(),
{
    if t.len() == 0 {
        t
    } else if t.last() is Comment {
        strip_comments(t.drop_last())
    } else {
        strip_comments(t.drop_last()).push(t.last())
    }
}

/// The program that a token sequence denotes: comments are dropped, then
/// expressions are parsed one after another until the tokens run out.
pub open spec fn parse_tokens(t: Seq<SpecToken>) -> Result<Seq<SpecExpr>, SpecParseError> {
    parse_program(strip_comments(t), 0, Seq::empty())
}

} // verus!
