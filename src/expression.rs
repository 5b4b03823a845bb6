//! The expression tree that the parser builds and the evaluator walks.
use vstd::prelude::*;
use crate::number::Number;

verus! {

/// A program, or the body of a block: expressions in order.
pub type AST = Vec<Expression>;

#[derive(Debug, PartialEq)]
pub enum Expression {
    VariableDecleration { name: String, value: Box<Expression> },
    VariableAssignment { name: String, value: Box<Expression> },
    /// An empty name denotes an anonymous function.
    FunctionDefinition { name: String, arguments: Vec<String>, body: AST },
    FunctionCall { name: String, arguments: AST },
    IfCondition { condition: Box<Expression>, body: AST },
    WhileLoop { condition: Box<Expression>, body: AST },
    String(String),
    Number(Number),
    Variable(String),
    Bool(bool),
    Array(AST),
    ArrayAssignment { identifier: String, index: Box<Expression>, value: Box<Expression> },
    ArrayIndexing { array: Box<Expression>, index: Box<Expression> },
    Return(Box<Expression>),
    Addition(BinaryExpression),
    Subtraction(BinaryExpression),
    Multiplication(BinaryExpression),
    LessEquals(BinaryExpression),
    LessThan(BinaryExpression),
    GreaterThan(BinaryExpression),
    GreaterEquals(BinaryExpression),
    Division(BinaryExpression),
    Or(BinaryExpression),
    And(BinaryExpression),
    BoolNegation(Box<Expression>),
}

#[derive(Debug, PartialEq)]
pub struct BinaryExpression {
    pub left: Box<Expression>,
    pub right: Box<Expression>,
}

/// The binary operators.
#[derive(Debug, Clone, Copy, PartialEq, Eq, Structural)]
pub enum BinaryOp {
    Add,
    Subtract,
    Multiply,
    Divide,
    Less,
    LessEqual,
    Greater,
    GreaterEqual,
    And,
    Or,
}

/// The mathematical form of an expression.
pub enum SpecExpr {
    Declare(Seq<char>, Box<SpecExpr>),
    Assign(Seq<char>, Box<SpecExpr>),
    Function(Seq<char>, Seq<Seq<char>>, Seq<SpecExpr>),
    Call(Seq<char>, Seq<SpecExpr>),
    If(Box<SpecExpr>, Seq<SpecExpr>),
    While(Box<SpecExpr>, Seq<SpecExpr>),
    Str(Seq<char>),
    Num(Number),
    Var(Seq<char>),
    Bool(bool),
    Array(Seq<SpecExpr>),
    AssignElement(Seq<char>, Box<SpecExpr>, Box<SpecExpr>),
    Index(Box<SpecExpr>, Box<SpecExpr>),
    Return(Box<SpecExpr>),
    Binary(BinaryOp, Box<SpecExpr>, Box<SpecExpr>),
    Not(Box<SpecExpr>),
}

/// The views of a sequence of strings.
pub open spec fn names_view(s: Seq<String>) -> Seq<Seq<char>> {
    s.map_values(|n: String| n@)
}

pub open spec fn expr_view(e: &Expression) -> SpecExpr
    decreases e, 0int,
{
    match e {
        Expression::VariableDecleration { name, value } => SpecExpr::Declare(
            name@,
            Box::new(expr_view(value)),
        ),
        Expression::VariableAssignment { name, value } => SpecExpr::Assign(
            name@,
            Box::new(expr_view(value)),
        ),
        Expression::FunctionDefinition { name, arguments, body } => SpecExpr::Function(
            name@,
            names_view(arguments@),
            exprs_view_from(body@, 0),
        ),
        Expression::FunctionCall { name, arguments } => SpecExpr::Call(
            name@,
            exprs_view_from(arguments@, 0),
        ),
        Expression::IfCondition { condition, body } => SpecExpr::If(
            Box::new(expr_view(condition)),
            exprs_view_from(body@, 0),
        ),
        Expression::WhileLoop { condition, body } => SpecExpr::While(
            Box::new(expr_view(condition)),
            exprs_view_from(body@, 0),
        ),
        Expression::String(s) => SpecExpr::Str(s@),
        Expression::Number(n) => SpecExpr::Num(n@),
        Expression::Variable(n) => SpecExpr::Var(n@),
        Expression::Bool(b) => SpecExpr::Bool(*b),
        Expression::Array(items) => SpecExpr::Array(exprs_view_from(items@, 0)),
        Expression::ArrayAssignment { identifier, index, value } => SpecExpr::AssignElement(
            identifier@,
            Box::new(expr_view(index)),
            Box::new(expr_view(value)),
        ),
        Expression::ArrayIndexing { array, index } => SpecExpr::Index(
            Box::new(expr_view(array)),
            Box::new(expr_view(index)),
        ),
        Expression::Return(v) => SpecExpr::Return(Box::new(expr_view(v))),
        Expression::Addition(b) => SpecExpr::Binary(
            BinaryOp::Add,
            Box::new(expr_view(&b.left)),
            Box::new(expr_view(&b.right)),
        ),
        Expression::Subtraction(b) => SpecExpr::Binary(
            BinaryOp::Subtract,
            Box::new(expr_view(&b.left)),
            Box::new(expr_view(&b.right)),
        ),
        Expression::Multiplication(b) => SpecExpr::Binary(
            BinaryOp::Multiply,
            Box::new(expr_view(&b.left)),
            Box::new(expr_view(&b.right)),
        ),
        Expression::LessEquals(b) => SpecExpr::Binary(
            BinaryOp::LessEqual,
            Box::new(expr_view(&b.left)),
            Box::new(expr_view(&b.right)),
        ),
        Expression::LessThan(b) => SpecExpr::Binary(
            BinaryOp::Less,
            Box::new(expr_view(&b.left)),
            Box::new(expr_view(&b.right)),
        ),
        Expression::GreaterThan(b) => SpecExpr::Binary(
            BinaryOp::Greater,
            Box::new(expr_view(&b.left)),
            Box::new(expr_view(&b.right)),
        ),
        Expression::GreaterEquals(b) => SpecExpr::Binary(
            BinaryOp::GreaterEqual,
            Box::new(expr_view(&b.left)),
            Box::new(expr_view(&b.right)),
        ),
        Expression::Division(b) => SpecExpr::Binary(
            BinaryOp::Divide,
            Box::new(expr_view(&b.left)),
            Box::new(expr_view(&b.right)),
        ),
        Expression::Or(b) => SpecExpr::Binary(
            BinaryOp::Or,
            Box::new(expr_view(&b.left)),
            Box::new(expr_view(&b.right)),
        ),
        Expression::And(b) => SpecExpr::Binary(
            BinaryOp::And,
            Box::new(expr_view(&b.left)),
            Box::new(expr_view(&b.right)),
        ),
        Expression::BoolNegation(v) => SpecExpr::Not(Box::new(expr_view(v))),
    }
}

/// The views of `s[i..]`.
pub open spec fn exprs_view_from(s: Seq<Expression>, i: int) -> Seq<SpecExpr>
    decreases s, s.len() - i,
{
    if 0 <= i < s.len() {
        seq![expr_view(&s[i])] + exprs_view_from(s, i + 1)
    } else {
        Seq::empty()
    }
}

/// The views of a sequence of expressions.
pub open spec fn exprs_view(s: Seq<Expression>) -> Seq<SpecExpr> {
    exprs_view_from(s, 0)
}

impl View for Expression {
    type V = SpecExpr;

    open spec fn view(&self) -> SpecExpr {
        expr_view(self)
    }
}

/// The views of `s[i..]`, element by element.
pub proof fn lemma_exprs_view_from(s: Seq<Expression>, i: int)
    requires
        0 <= i <= s.len(),
    ensures
        exprs_view_from(s, i).len() == s.len() - i,
        forall|j: int| i <= j < s.len() ==> #[trigger] exprs_view_from(s, i)[j - i] == expr_view(&s[j]),
    decreases s.len() - i,
{
    if i < s.len() {
        lemma_exprs_view_from(s, i + 1);
        assert forall|j: int| i <= j < s.len() implies #[trigger] exprs_view_from(s, i)[j - i]
            == expr_view(&s[j]) by {
            if j > i {
                assert(exprs_view_from(s, i)[j - i] == exprs_view_from(s, i + 1)[j - (i + 1)]);
            }
        }
    }
}

/// Two sequences of expressions with equal views element by element have equal views.
pub proof fn lemma_exprs_view_eq(a: Seq<Expression>, b: Seq<Expression>)
    requires
        a.len() == b.len(),
        forall|j: int| 0 <= j < a.len() ==> expr_view(&a[j]) == expr_view(&b[j]),
    ensures
        exprs_view(a) == exprs_view(b),
{
    lemma_exprs_view_from(a, 0);
    lemma_exprs_view_from(b, 0);
    assert forall|j: int| 0 <= j < a.len() implies exprs_view(a)[j] == exprs_view(b)[j] by {
        assert(exprs_view(a)[j - 0] == expr_view(&a[j]));
        assert(exprs_view(b)[j - 0] == expr_view(&b[j]));
    }
    assert(exprs_view(a) =~= exprs_view(b));
}

/// A copy of a list of names.
pub fn copy_names(v: &Vec<String>) -> (r: Vec<String>)
    ensures
        r@ == v@,
{
    let mut out: Vec<String> = Vec::new();
    let mut i: usize = 0;
    while i < v.len()
        invariant
            i <= v.len(),
            out@ == v@.take(i as int),
        decreases v.len() - i,
    {
        out.push(v[i].clone());
        assert(out@ =~= v@.take(i + 1));
        i = i + 1;
    }
    assert(out@ =~= v@);
    out
}

/// A copy of a list of expressions.
pub fn copy_exprs(v: &Vec<Expression>) -> (r: Vec<Expression>)
    ensures
        exprs_view(r@) == exprs_view(v@),
        r@.len() == v@.len(),
    decreases v,
{
    let mut out: Vec<Expression> = Vec::new();
    let mut i: usize = 0;
    while i < v.len()
        invariant
            i <= v.len(),
            out@.len() == i,
            forall|j: int| 0 <= j < i ==> expr_view(&out@[j]) == expr_view(&v@[j]),
        decreases v.len() - i,
    {
        let e = v[i].duplicate();
        out.push(e);
        i = i + 1;
    }
    proof {
        lemma_exprs_view_eq(out@, v@);
    }
    out
}

impl BinaryExpression {
    pub fn new(left: Expression, right: Expression) -> (r: BinaryExpression)
        ensures
            r.left@ == left@,
            r.right@ == right@,
    {
        BinaryExpression { left: Box::new(left), right: Box::new(right) }
    }

    pub fn duplicate(&self) -> (r: BinaryExpression)
        ensures
            expr_view(&r.left) == expr_view(&self.left),
            expr_view(&r.right) == expr_view(&self.right),
        decreases self,
    {
        BinaryExpression {
            left: Box::new(self.left.duplicate()),
            right: Box::new(self.right.duplicate()),
        }
    }
}

impl Expression {
    /// A deep copy.
    pub fn duplicate(&self) -> (r: Expression)
        ensures
            r@ == self@,
        decreases self,
    {
        match self {
            Expression::VariableDecleration { name, value } => Expression::VariableDecleration {
                name: name.clone(),
                value: Box::new(value.duplicate()),
            },
            Expression::VariableAssignment { name, value } => Expression::VariableAssignment {
                name: name.clone(),
                value: Box::new(value.duplicate()),
            },
            Expression::FunctionDefinition { name, arguments, body } => {
                let a = copy_names(arguments);
                let b = copy_exprs(body);
                Expression::FunctionDefinition { name: name.clone(), arguments: a, body: b }
            },
            Expression::FunctionCall { name, arguments } => {
                let a = copy_exprs(arguments);
                Expression::FunctionCall { name: name.clone(), arguments: a }
            },
            Expression::IfCondition { condition, body } => {
                let b = copy_exprs(body);
                Expression::IfCondition { condition: Box::new(condition.duplicate()), body: b }
            },
            Expression::WhileLoop { condition, body } => {
                let b = copy_exprs(body);
                Expression::WhileLoop { condition: Box::new(condition.duplicate()), body: b }
            },
            Expression::String(s) => Expression::String(s.clone()),
            Expression::Number(n) => Expression::Number(*n),
            Expression::Variable(n) => Expression::Variable(n.clone()),
            Expression::Bool(b) => Expression::Bool(*b),
            Expression::Array(items) => Expression::Array(copy_exprs(items)),
            Expression::ArrayAssignment { identifier, index, value } => {
                Expression::ArrayAssignment {
                    identifier: identifier.clone(),
                    index: Box::new(index.duplicate()),
                    value: Box::new(value.duplicate()),
                }
            },
            Expression::ArrayIndexing { array, index } => Expression::ArrayIndexing {
                array: Box::new(array.duplicate()),
                index: Box::new(index.duplicate()),
            },
            Expression::Return(v) => Expression::Return(Box::new(v.duplicate())),
            Expression::Addition(b) => Expression::Addition(b.duplicate()),
            Expression::Subtraction(b) => Expression::Subtraction(b.duplicate()),
            Expression::Multiplication(b) => Expression::Multiplication(b.duplicate()),
            Expression::LessEquals(b) => Expression::LessEquals(b.duplicate()),
            Expression::LessThan(b) => Expression::LessThan(b.duplicate()),
            Expression::GreaterThan(b) => Expression::GreaterThan(b.duplicate()),
            Expression::GreaterEquals(b) => Expression::GreaterEquals(b.duplicate()),
            Expression::Division(b) => Expression::Division(b.duplicate()),
            Expression::Or(b) => Expression::Or(b.duplicate()),
            Expression::And(b) => Expression::And(b.duplicate()),
            Expression::BoolNegation(v) => Expression::BoolNegation(Box::new(v.duplicate())),
        }
    }
}

} // verus!
