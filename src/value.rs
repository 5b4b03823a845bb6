//! Runtime values and the errors that evaluation can end with.
use vstd::prelude::*;
use crate::expression::{copy_exprs, copy_names, exprs_view, names_view, SpecExpr, AST};
use crate::number::{num_nonzero, num_text, Number};
use crate::text::push_str;

verus! {

#[derive(Debug, PartialEq)]
pub enum Value {
    Array(ArrayValue),
    Bool(bool),
    Function(FunctionValue),
    Number(Number),
    String(String),
    Void,
}

/// An array owns its elements; copying an array copies them.
#[derive(Debug, PartialEq)]
pub struct ArrayValue {
    pub contents: Vec<Value>,
}

/// A function holds its parameter names and its body, and nothing of the
/// place where it was defined.
#[derive(Debug, PartialEq)]
pub struct FunctionValue {
    pub arguments: Vec<String>,
    pub body: AST,
}

/// The kinds of values, as errors name them.
#[derive(Debug, Clone, Copy, PartialEq, Eq, Structural)]
pub enum ValueKind {
    Array,
    Bool,
    Function,
    Number,
    String,
    Void,
}

/// The operations that can meet operands of the wrong kind.
#[derive(Debug, Clone, Copy, PartialEq, Eq, Structural)]
pub enum Operation {
    Add,
    Subtract,
    Multiply,
    Divide,
    Compare,
    Index,
    AssignElement,
    Length,
    Print,
}

/// The mathematical form of a value.
pub enum SpecValue {
    Array(Seq<SpecValue>),
    Bool(bool),
    Function(Seq<Seq<char>>, Seq<SpecExpr>),
    Number(Number),
    Str(Seq<char>),
    Void,
}

pub open spec fn value_view(v: &Value) -> SpecValue
    decreases v, 0int,
{
    match v {
        Value::Array(a) => SpecValue::Array(values_view_from(a.contents@, 0)),
        Value::Bool(b) => SpecValue::Bool(*b),
        Value::Function(f) => SpecValue::Function(names_view(f.arguments@), exprs_view(f.body@)),
        Value::Number(n) => SpecValue::Number(n@),
        Value::String(s) => SpecValue::Str(s@),
        Value::Void => SpecValue::Void,
    }
}

/// The views of `s[i..]`.
pub open spec fn values_view_from(s: Seq<Value>, i: int) -> Seq<SpecValue>
    decreases s, s.len() - i,
{
    if 0 <= i < s.len() {
        seq![value_view(&s[i])] + values_view_from(s, i + 1)
    } else {
        Seq::empty()
    }
}

pub open spec fn values_view(s: Seq<Value>) -> Seq<SpecValue> {
    values_view_from(s, 0)
}

impl View for Value {
    type V = SpecValue;

    open spec fn view(&self) -> SpecValue {
        value_view(self)
    }
}

pub proof fn lemma_values_view_from(s: Seq<Value>, i: int)
    requires
        0 <= i <= s.len(),
    ensures
        values_view_from(s, i).len() == s.len() - i,
        forall|j: int| i <= j < s.len() ==> #[trigger] values_view_from(s, i)[j - i] == value_view(&s[j]),
    decreases s.len() - i,
{
    if i < s.len() {
        lemma_values_view_from(s, i + 1);
        assert forall|j: int| i <= j < s.len() implies #[trigger] values_view_from(s, i)[j - i]
            == value_view(&s[j]) by {
            if j > i {
                assert(values_view_from(s, i)[j - i] == values_view_from(s, i + 1)[j - (i + 1)]);
            }
        }
    }
}

/// The views of a sequence of values, element by element.
pub proof fn lemma_values_view(s: Seq<Value>)
    ensures
        values_view(s).len() == s.len(),
        forall|j: int| 0 <= j < s.len() ==> #[trigger] values_view(s)[j] == value_view(&s[j]),
{
    lemma_values_view_from(s, 0);
    assert forall|j: int| 0 <= j < s.len() implies #[trigger] values_view(s)[j] == value_view(
        &s[j],
    ) by {
        assert(values_view_from(s, 0)[j - 0] == value_view(&s[j]));
    }
}

/// A copy of a list of values.
pub fn copy_values(v: &Vec<Value>) -> (r: Vec<Value>)
    ensures
        values_view(r@) == values_view(v@),
    decreases v,
{
    let mut out: Vec<Value> = Vec::new();
    let mut i: usize = 0;
    while i < v.len()
        invariant
            i <= v.len(),
            out@.len() == i,
            forall|j: int| 0 <= j < i ==> value_view(&out@[j]) == value_view(&v@[j]),
        decreases v.len() - i,
    {
        let e = v[i].duplicate();
        out.push(e);
        i = i + 1;
    }
    proof {
        lemma_values_view(out@);
        lemma_values_view(v@);
        assert(values_view(out@) =~= values_view(v@));
    }
    out
}

/// The kind of a value.
pub open spec fn kind_of(v: SpecValue) -> ValueKind {
    match v {
        SpecValue::Array(_) => ValueKind::Array,
        SpecValue::Bool(_) => ValueKind::Bool,
        SpecValue::Function(_, _) => ValueKind::Function,
        SpecValue::Number(_) => ValueKind::Number,
        SpecValue::Str(_) => ValueKind::String,
        SpecValue::Void => ValueKind::Void,
    }
}

pub open spec fn kinds_of(s: Seq<SpecValue>) -> Seq<ValueKind> {
    s.map_values(|v: SpecValue| kind_of(v))
}

/// Whether a value counts as true in a condition; strings are true when empty.
pub open spec fn truthiness(v: SpecValue) -> Result<bool, SpecError> {
    match v {
        SpecValue::Number(n) => Ok(num_nonzero(n)),
        SpecValue::Str(s) => Ok(s.len() == 0),
        SpecValue::Bool(b) => Ok(b),
        _ => Err(SpecError::InvalidCondition(kind_of(v))),
    }
}

/// How a value is written, for the kinds that can be written.
pub open spec fn text_of(v: SpecValue) -> Option<Seq<char>> {
    match v {
        SpecValue::Bool(b) => Some(
            if b {
                "true"@
            } else {
                "false"@
            },
        ),
        SpecValue::Number(n) => Some(num_text(n)),
        SpecValue::Str(s) => Some(s),
        _ => None,
    }
}

#[derive(Debug, PartialEq)]
pub enum RuntimeError {
    UndefinedVariable { name: String },
    UndefinedFunction { name: String },
    TypeMismatch { operation: Operation, operand_kinds: Vec<ValueKind> },
    IndexOutOfBounds { index: i64, length: usize },
    InvalidCondition { value_kind: ValueKind },
    /// The evaluation budget ran out before the program finished.
    OutOfFuel,
}

pub enum SpecError {
    UndefinedVariable(Seq<char>),
    UndefinedFunction(Seq<char>),
    TypeMismatch(Operation, Seq<ValueKind>),
    IndexOutOfBounds(int, int),
    InvalidCondition(ValueKind),
    OutOfFuel,
}

impl View for RuntimeError {
    type V = SpecError;

    open spec fn view(&self) -> SpecError {
        match self {
            RuntimeError::UndefinedVariable { name } => SpecError::UndefinedVariable(name@),
            RuntimeError::UndefinedFunction { name } => SpecError::UndefinedFunction(name@),
            RuntimeError::TypeMismatch { operation, operand_kinds } => SpecError::TypeMismatch(
                *operation,
                operand_kinds@,
            ),
            RuntimeError::IndexOutOfBounds { index, length } => SpecError::IndexOutOfBounds(
                *index as int,
                *length as int,
            ),
            RuntimeError::InvalidCondition { value_kind } => SpecError::InvalidCondition(
                *value_kind,
            ),
            RuntimeError::OutOfFuel => SpecError::OutOfFuel,
        }
    }
}

impl Value {
    /// A deep copy.
    pub fn duplicate(&self) -> (r: Value)
        ensures
            r@ == self@,
        decreases self,
    {
        match self {
            Value::Array(a) => Value::Array(ArrayValue { contents: copy_values(&a.contents) }),
            Value::Bool(b) => Value::Bool(*b),
            Value::Function(f) => {
                let a = copy_names(&f.arguments);
                let b = copy_exprs(&f.body);
                Value::Function(FunctionValue { arguments: a, body: b })
            },
            Value::Number(n) => Value::Number(*n),
            Value::String(s) => Value::String(s.clone()),
            Value::Void => Value::Void,
        }
    }

    pub fn kind(&self) -> (r: ValueKind)
        ensures
            r == kind_of(self@),
    {
        match self {
            Value::Array(_) => ValueKind::Array,
            Value::Bool(_) => ValueKind::Bool,
            Value::Function(_) => ValueKind::Function,
            Value::Number(_) => ValueKind::Number,
            Value::String(_) => ValueKind::String,
            Value::Void => ValueKind::Void,
        }
    }

    /// Whether the value counts as true in a condition: a number when it is not
    /// zero, a boolean by itself, a string when it is empty. Other kinds are no
    /// condition.
    pub fn is_truthy(&self) -> (r: Result<bool, RuntimeError>)
        ensures
            match r {
                Ok(b) => truthiness(self@) == Ok::<bool, SpecError>(b),
                Err(e) => truthiness(self@) == Err::<bool, SpecError>(e@),
            },
    {
        match self {
            Value::Number(n) => Ok(n.is_nonzero()),
            Value::String(s) => Ok(s.as_str().unicode_len() == 0),
            Value::Bool(b) => Ok(*b),
            _ => Err(RuntimeError::InvalidCondition { value_kind: self.kind() }),
        }
    }

    /// How the value is written; arrays, functions and void cannot be written.
    pub fn to_string(&self) -> (r: Option<String>)
        ensures
            match r {
                Some(s) => text_of(self@) == Some(s@),
                None => text_of(self@) is None,
            },
    {
        match self {
            Value::Bool(true) => Some(String::from_str("true")),
            Value::Bool(false) => Some(String::from_str("false")),
            Value::Number(n) => Some(n.to_text()),
            Value::String(s) => Some(s.clone()),
            _ => None,
        }
    }
}

/// Appends how `v` is written to `s`, if it can be written.
pub fn push_text(s: &mut String, v: &Value) -> (ok: bool)
    ensures
        ok == (text_of(v@) is Some),
        ok ==> final(s)@ == old(s)@ + text_of(v@)->0,
        !ok ==> final(s)@ == old(s)@,
{
    match v.to_string() {
        Some(t) => {
            push_str(s, t.as_str());
            true
        },
        None => false,
    }
}

} // verus!
