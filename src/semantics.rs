//! What evaluation means: the state of an interpreter and how each expression
//! changes it, stated over the mathematical forms of expressions and values.
//!
//! Evaluation carries a budget (`fuel`): each step into a sub-expression and
//! each turn of a loop spends one unit, and evaluation ends with `OutOfFuel`
//! when none is left.
use vstd::prelude::*;
use crate::expression::{BinaryOp, SpecExpr};
use crate::number::{
    from_exact, num_add, num_div, num_index, num_le, num_lt, num_mul, num_sub, scale, Number,
};
use crate::value::{kind_of, kinds_of, text_of, truthiness, SpecError, SpecValue, Operation};

verus! {

/// The state of an interpreter: the global scope, the stack of local frames
/// (the last one is the active one) and the lines printed so far.
pub struct SpecState {
    pub globals: Map<Seq<char>, SpecValue>,
    pub frames: Seq<Map<Seq<char>, SpecValue>>,
    pub output: Seq<Seq<char>>,
}

/// A state after a step, and the value or error that the step ended with.
pub type Outcome = (SpecState, Result<SpecValue, SpecError>);

/// The value of a variable: the active frame first, then the global scope.
pub open spec fn lookup(st: SpecState, name: Seq<char>) -> Option<SpecValue> {
    if st.frames.len() > 0 && st.frames.last().contains_key(name) {
        Some(st.frames.last()[name])
    } else if st.globals.contains_key(name) {
        Some(st.globals[name])
    } else {
        None
    }
}

/// Binds a variable in the active frame, or in the global scope when no frame is active.
pub open spec fn assign(st: SpecState, name: Seq<char>, v: SpecValue) -> SpecState {
    if st.frames.len() > 0 {
        SpecState {
            frames: st.frames.update(st.frames.len() - 1, st.frames.last().insert(name, v)),
            ..st
        }
    } else {
        SpecState { globals: st.globals.insert(name, v), ..st }
    }
}

pub open spec fn mismatch(op: Operation, a: SpecValue, b: SpecValue) -> Result<SpecValue, SpecError> {
    Err(SpecError::TypeMismatch(op, seq![kind_of(a), kind_of(b)]))
}

/// `a + b`: numbers add; when either side is a string, the other side is
/// written out and the two are joined.
pub open spec fn add_values(a: SpecValue, b: SpecValue) -> Result<SpecValue, SpecError> {
    match (a, b) {
        (SpecValue::Number(x), SpecValue::Number(y)) => Ok(SpecValue::Number(num_add(x, y))),
        (SpecValue::Str(x), SpecValue::Str(y)) => Ok(SpecValue::Str(x + y)),
        (SpecValue::Str(x), _) => match text_of(b) {
            Some(t) => Ok(SpecValue::Str(x + t)),
            None => mismatch(Operation::Add, a, b),
        },
        (_, SpecValue::Str(y)) => match text_of(a) {
            Some(t) => Ok(SpecValue::Str(t + y)),
            None => mismatch(Operation::Add, a, b),
        },
        _ => mismatch(Operation::Add, a, b),
    }
}

/// The value of a binary operator on evaluated operands.
pub open spec fn binary_result(op: BinaryOp, a: SpecValue, b: SpecValue) -> Result<SpecValue, SpecError> {
    match op {
        BinaryOp::Add => add_values(a, b),
        BinaryOp::Subtract => match (a, b) {
            (SpecValue::Number(x), SpecValue::Number(y)) => Ok(SpecValue::Number(num_sub(x, y))),
            _ => mismatch(Operation::Subtract, a, b),
        },
        BinaryOp::Multiply => match (a, b) {
            (SpecValue::Number(x), SpecValue::Number(y)) => Ok(SpecValue::Number(num_mul(x, y))),
            _ => mismatch(Operation::Multiply, a, b),
        },
        BinaryOp::Divide => match (a, b) {
            (SpecValue::Number(x), SpecValue::Number(y)) => Ok(SpecValue::Number(num_div(x, y))),
            _ => mismatch(Operation::Divide, a, b),
        },
        BinaryOp::Less | BinaryOp::LessEqual | BinaryOp::Greater | BinaryOp::GreaterEqual => match (a, b) {
            (SpecValue::Number(x), SpecValue::Number(y)) => Ok(SpecValue::Bool(
                match op {
                    BinaryOp::Less => num_lt(x, y),
                    BinaryOp::LessEqual => num_le(x, y),
                    BinaryOp::Greater => num_lt(y, x),
                    _ => num_le(y, x),
                },
            )),
            _ => mismatch(Operation::Compare, a, b),
        },
        BinaryOp::Or => match truthiness(a) {
            Ok(true) => Ok(SpecValue::Bool(true)),
            Ok(false) => match truthiness(b) {
                Ok(t) => Ok(SpecValue::Bool(t)),
                Err(e) => Err(e),
            },
            Err(e) => Err(e),
        },
        BinaryOp::And => match truthiness(a) {
            Ok(false) => Ok(SpecValue::Bool(false)),
            Ok(true) => match truthiness(b) {
                Ok(t) => Ok(SpecValue::Bool(t)),
                Err(e) => Err(e),
            },
            Err(e) => Err(e),
        },
    }
}

/// The position that a number denotes as an index: truncated toward zero.
pub open spec fn index_position(n: Number) -> int {
    num_index(n)
}

/// The element of an array at an index.
pub open spec fn index_result(a: SpecValue, i: SpecValue) -> Result<SpecValue, SpecError> {
    match (a, i) {
        (SpecValue::Array(items), SpecValue::Number(n)) => {
            let p = index_position(n);
            if 0 <= p < items.len() {
                Ok(items[p])
            } else {
                Err(SpecError::IndexOutOfBounds(p, items.len() as int))
            }
        },
        _ => mismatch(Operation::Index, a, i),
    }
}

/// The names of the builtin functions.
pub open spec fn is_builtin_name(name: Seq<char>) -> bool {
    name == "print"@ || name == "add"@ || name == "subtract"@ || name == "print_version"@ || name
        == "len"@
}

/// The line that `print_version` prints.
pub open spec fn version_text() -> Seq<char> {
    "mylang version 0.0.1"@
}

pub open spec fn with_output(st: SpecState, line: Seq<char>) -> SpecState {
    SpecState { output: st.output.push(line), ..st }
}

/// A call of a builtin function on evaluated arguments.
pub open spec fn builtin_result(st: SpecState, name: Seq<char>, args: Seq<SpecValue>) -> Outcome {
    if name == "len"@ {
        if args.len() >= 1 {
            (st, match args[0] {
                SpecValue::Array(items) => Ok(SpecValue::Number(from_exact(items.len() * scale()))),
                SpecValue::Str(s) => Ok(SpecValue::Number(from_exact(s.len() * scale()))),
                _ => Err(SpecError::TypeMismatch(Operation::Length, kinds_of(args))),
            })
        } else {
            (st, Err(SpecError::TypeMismatch(Operation::Length, kinds_of(args))))
        }
    } else if name == "print"@ {
        if args.len() >= 1 {
            match text_of(args[0]) {
                Some(t) => (with_output(st, t), Ok(SpecValue::Void)),
                None => (st, Err(SpecError::TypeMismatch(Operation::Print, seq![kind_of(args[0])]))),
            }
        } else {
            (st, Ok(SpecValue::Void))
        }
    } else if name == "add"@ {
        if args.len() >= 2 {
            (st, add_values(args[0], args[1]))
        } else {
            (st, Err(SpecError::TypeMismatch(Operation::Add, kinds_of(args))))
        }
    } else if name == "subtract"@ {
        if args.len() >= 2 {
            (st, match (args[0], args[1]) {
                (SpecValue::Number(x), SpecValue::Number(y)) => Ok(SpecValue::Number(num_sub(x, y))),
                _ => Ok(SpecValue::Void),
            })
        } else {
            (st, Err(SpecError::TypeMismatch(Operation::Subtract, kinds_of(args))))
        }
    } else {
        (with_output(st, version_text()), Ok(SpecValue::Void))
    }
}

/// The frame of a call: each parameter bound to the argument at its place;
/// a later parameter of the same name wins, and extra arguments or parameters
/// are left out.
pub open spec fn bind_params(params: Seq<Seq<char>>, args: Seq<SpecValue>, n: int) -> Map<Seq<char>, SpecValue>
    decreases n,
{
    if n <= 0 {
        Map::empty()
    } else {
        bind_params(params, args, n - 1).insert(params[n - 1], args[n - 1])
    }
}

pub open spec fn call_frame(params: Seq<Seq<char>>, args: Seq<SpecValue>) -> Map<Seq<char>, SpecValue> {
    bind_params(params, args, if params.len() < args.len() { params.len() as int } else { args.len() as int })
}

pub open spec fn push_frame(st: SpecState, frame: Map<Seq<char>, SpecValue>) -> SpecState {
    SpecState { frames: st.frames.push(frame), ..st }
}

pub open spec fn pop_frame(st: SpecState) -> SpecState {
    SpecState { frames: st.frames.drop_last(), ..st }
}

/// Evaluates one expression.
pub open spec fn eval(st: SpecState, e: SpecExpr, fuel: nat) -> Outcome
    decreases fuel, 0int,
{
    if fuel == 0 {
        (st, Err(SpecError::OutOfFuel))
    } else {
        let f = (fuel - 1) as nat;
        match e {
            SpecExpr::Var(n) => match lookup(st, n) {
                Some(v) => (st, Ok(v)),
                None => (st, Err(SpecError::UndefinedVariable(n))),
            },
            SpecExpr::Declare(n, x) => {
                let (s1, r) = eval(st, *x, f);
                match r {
                    Ok(v) => (assign(s1, n, v), Ok(v)),
                    Err(err) => (s1, Err(err)),
                }
            },
            SpecExpr::Assign(n, x) => {
                let (s1, r) = eval(st, *x, f);
                match r {
                    Ok(v) => if lookup(s1, n) is None {
                        (s1, Err(SpecError::UndefinedVariable(n)))
                    } else {
                        (assign(s1, n, v), Ok(v))
                    },
                    Err(err) => (s1, Err(err)),
                }
            },
            SpecExpr::Binary(op, l, r) => {
                let (s1, a) = eval(st, *l, f);
                match a {
                    Ok(a) => {
                        let (s2, b) = eval(s1, *r, f);
                        match b {
                            Ok(b) => (s2, binary_result(op, a, b)),
                            Err(err) => (s2, Err(err)),
                        }
                    },
                    Err(err) => (s1, Err(err)),
                }
            },
            SpecExpr::Not(x) => {
                let (s1, r) = eval(st, *x, f);
                match r {
                    Ok(v) => match truthiness(v) {
                        Ok(t) => (s1, Ok(SpecValue::Bool(!t))),
                        Err(err) => (s1, Err(err)),
                    },
                    Err(err) => (s1, Err(err)),
                }
            },
            SpecExpr::Str(s) => (st, Ok(SpecValue::Str(s))),
            SpecExpr::Num(n) => (st, Ok(SpecValue::Number(n))),
            SpecExpr::Bool(b) => (st, Ok(SpecValue::Bool(b))),
            SpecExpr::AssignElement(id, idx, x) => {
                let (s1, r) = eval(st, *x, f);
                match r {
                    Ok(v) => {
                        let (s2, ri) = eval(s1, *idx, f);
                        match ri {
                            Ok(i) => match lookup(s2, id) {
                                None => (s2, Err(SpecError::UndefinedVariable(id))),
                                Some(arr) => match (arr, i) {
                                    (SpecValue::Array(items), SpecValue::Number(n)) => {
                                        let p = index_position(n);
                                        if 0 <= p < items.len() {
                                            (assign(s2, id, SpecValue::Array(items.update(p, v))), Ok(v))
                                        } else {
                                            (s2, Err(SpecError::IndexOutOfBounds(p, items.len() as int)))
                                        }
                                    },
                                    _ => (s2, mismatch(Operation::AssignElement, arr, i)),
                                },
                            },
                            Err(err) => (s2, Err(err)),
                        }
                    },
                    Err(err) => (s1, Err(err)),
                }
            },
            SpecExpr::Index(a, i) => {
                let (s1, ra) = eval(st, *a, f);
                match ra {
                    Ok(av) => {
                        let (s2, ri) = eval(s1, *i, f);
                        match ri {
                            Ok(iv) => (s2, index_result(av, iv)),
                            Err(err) => (s2, Err(err)),
                        }
                    },
                    Err(err) => (s1, Err(err)),
                }
            },
            SpecExpr::Array(items) => {
                let (s1, r) = eval_list(st, items, 0, f);
                match r {
                    Ok(vs) => (s1, Ok(SpecValue::Array(vs))),
                    Err(err) => (s1, Err(err)),
                }
            },
            SpecExpr::If(c, body) => {
                let (s1, r) = eval(st, *c, f);
                match r {
                    Ok(v) => match truthiness(v) {
                        Ok(true) => run_block(s1, body, 0, SpecValue::Void, f),
                        Ok(false) => (s1, Ok(SpecValue::Void)),
                        Err(err) => (s1, Err(err)),
                    },
                    Err(err) => (s1, Err(err)),
                }
            },
            SpecExpr::While(c, body) => eval_while(st, *c, body, f),
            SpecExpr::Function(name, params, body) => {
                let v = SpecValue::Function(params, body);
                if name.len() > 0 {
                    (assign(st, name, v), Ok(v))
                } else {
                    (st, Ok(v))
                }
            },
            SpecExpr::Call(name, args) => {
                let (s1, r) = eval_list(st, args, 0, f);
                match r {
                    Ok(vs) => if is_builtin_name(name) {
                        builtin_result(s1, name, vs)
                    } else {
                        match lookup(s1, name) {
                            Some(SpecValue::Function(params, body)) => {
                                let (s2, rv) = run_block(
                                    push_frame(s1, call_frame(params, vs)),
                                    body,
                                    0,
                                    SpecValue::Void,
                                    f,
                                );
                                (pop_frame(s2), rv)
                            },
                            _ => (s1, Err(SpecError::UndefinedFunction(name))),
                        }
                    },
                    Err(err) => (s1, Err(err)),
                }
            },
            SpecExpr::Return(x) => eval(st, *x, f),
        }
    }
}

/// Evaluates `es[i..]` in order, to their values.
pub open spec fn eval_list(st: SpecState, es: Seq<SpecExpr>, i: int, fuel: nat) -> (SpecState, Result<Seq<SpecValue>, SpecError>)
    decreases fuel, es.len() - i + 1,
{
    if i < 0 || i >= es.len() {
        (st, Ok(Seq::empty()))
    } else {
        let (s1, r) = eval(st, es[i], fuel);
        match r {
            Ok(v) => {
                let (s2, rest) = eval_list(s1, es, i + 1, fuel);
                match rest {
                    Ok(vs) => (s2, Ok(seq![v] + vs)),
                    Err(err) => (s2, Err(err)),
                }
            },
            Err(err) => (s1, Err(err)),
        }
    }
}

/// Runs `body[i..]` after a statement that gave `last`: a `return` ends the
/// block with the value of its operand, and otherwise the block ends with the
/// value of its last statement.
pub open spec fn run_block(st: SpecState, body: Seq<SpecExpr>, i: int, last: SpecValue, fuel: nat) -> Outcome
    decreases fuel, body.len() - i + 1,
{
    if i < 0 || i >= body.len() {
        (st, Ok(last))
    } else {
        match body[i] {
            SpecExpr::Return(x) => eval(st, *x, fuel),
            e => {
                let (s1, r) = eval(st, e, fuel);
                match r {
                    Ok(v) => run_block(s1, body, i + 1, v, fuel),
                    Err(err) => (s1, Err(err)),
                }
            },
        }
    }
}

/// Runs a loop: while the condition holds, the body runs.
pub open spec fn eval_while(st: SpecState, c: SpecExpr, body: Seq<SpecExpr>, fuel: nat) -> Outcome
    decreases fuel, 0int,
{
    if fuel == 0 {
        (st, Err(SpecError::OutOfFuel))
    } else {
        let f = (fuel - 1) as nat;
        let (s1, r) = eval(st, c, f);
        match r {
            Ok(v) => match truthiness(v) {
                Ok(true) => {
                    let (s2, rb) = run_block(s1, body, 0, SpecValue::Void, f);
                    match rb {
                        Ok(_) => eval_while(s2, c, body, f),
                        Err(err) => (s2, Err(err)),
                    }
                },
                Ok(false) => (s1, Ok(SpecValue::Void)),
                Err(err) => (s1, Err(err)),
            },
            Err(err) => (s1, Err(err)),
        }
    }
}

/// Binding one variable leaves every other variable as it was.
pub proof fn lemma_assign_other(st: SpecState, b: Seq<char>, v: SpecValue, a: Seq<char>)
    requires
        a != b,
    ensures
        lookup(assign(st, b, v), a) == lookup(st, a),
{
}

/// Arrays are copied: writing an element of the array in `b` changes the
/// value of `b` alone, so another variable that held the same array, such as
/// one assigned from `b` earlier, keeps its elements.
pub proof fn lemma_element_write_copies(
    st: SpecState,
    b: Seq<char>,
    i: Number,
    n: Number,
    a: Seq<char>,
    fuel: nat,
)
    requires
        a != b,
    ensures
        ({
            let (s2, r) = eval(
                st,
                SpecExpr::AssignElement(b, Box::new(SpecExpr::Num(i)), Box::new(SpecExpr::Num(n))),
                fuel,
            );
            &&& lookup(s2, a) == lookup(st, a)
            &&& r is Ok ==> lookup(s2, b) == Some(
                SpecValue::Array(lookup(st, b)->0->Array_0.update(index_position(i), SpecValue::Number(n))),
            )
        }),
{
    if fuel > 0 {
        let f = (fuel - 1) as nat;
        assert(eval(st, SpecExpr::Num(n), f).0 == st);
        assert(eval(st, SpecExpr::Num(i), f).0 == st);
        match lookup(st, b) {
            Some(SpecValue::Array(items)) => {
                let p = index_position(i);
                if f > 0 && 0 <= p < items.len() {
                    lemma_assign_other(st, b, SpecValue::Array(items.update(p, SpecValue::Number(n))), a);
                }
            },
            _ => {},
        }
    }
}

/// A string as the condition of an `if`: the body runs when the string is
/// empty, and not otherwise.
pub proof fn lemma_string_condition(st: SpecState, s: Seq<char>, body: Seq<SpecExpr>, fuel: nat)
    requires
        fuel >= 2,
    ensures
        eval(st, SpecExpr::If(Box::new(SpecExpr::Str(s)), body), fuel) == if s.len() == 0 {
            run_block(st, body, 0, SpecValue::Void, (fuel - 1) as nat)
        } else {
            (st, Ok::<SpecValue, SpecError>(SpecValue::Void))
        },
{
    assert(eval(st, SpecExpr::Str(s), (fuel - 1) as nat) == (st, Ok::<SpecValue, SpecError>(SpecValue::Str(s))));
}

/// `t` has the globals of `s`, as many frames, and the same frames below the
/// active one.
pub open spec fn keeps_outer(s: SpecState, t: SpecState) -> bool {
    &&& t.globals == s.globals
    &&& t.frames.len() == s.frames.len()
    &&& t.frames.drop_last() == s.frames.drop_last()
}

proof fn lemma_assign_keeps_outer(s: SpecState, n: Seq<char>, v: SpecValue)
    requires
        s.frames.len() > 0,
    ensures
        keeps_outer(s, assign(s, n, v)),
{
    assert(assign(s, n, v).frames.drop_last() =~= s.frames.drop_last());
}

proof fn lemma_call_frame_keeps_outer(s1: SpecState, frame: Map<Seq<char>, SpecValue>, s2: SpecState)
    requires
        keeps_outer(push_frame(s1, frame), s2),
    ensures
        pop_frame(s2).globals == s1.globals,
        pop_frame(s2).frames == s1.frames,
{
    assert(push_frame(s1, frame).frames.drop_last() =~= s1.frames);
}

/// While a function runs, evaluation changes neither the global scope nor the
/// frames of its callers: a variable that a function binds lives in its own
/// frame only.
pub proof fn lemma_eval_keeps_outer(st: SpecState, e: SpecExpr, fuel: nat)
    requires
        st.frames.len() > 0,
    ensures
        keeps_outer(st, eval(st, e, fuel).0),
    decreases fuel, 0int,
{
    if fuel > 0 {
        let f = (fuel - 1) as nat;
        match e {
            SpecExpr::Declare(n, x) => {
                lemma_eval_keeps_outer(st, *x, f);
                let (s1, r) = eval(st, *x, f);
                if r is Ok {
                    lemma_assign_keeps_outer(s1, n, r->Ok_0);
                }
            },
            SpecExpr::Assign(n, x) => {
                lemma_eval_keeps_outer(st, *x, f);
                let (s1, r) = eval(st, *x, f);
                if r is Ok {
                    lemma_assign_keeps_outer(s1, n, r->Ok_0);
                }
            },
            SpecExpr::Binary(op, l, r) => {
                lemma_eval_keeps_outer(st, *l, f);
                let (s1, a) = eval(st, *l, f);
                lemma_eval_keeps_outer(s1, *r, f);
            },
            SpecExpr::Not(x) => {
                lemma_eval_keeps_outer(st, *x, f);
            },
            SpecExpr::AssignElement(id, idx, x) => {
                lemma_eval_keeps_outer(st, *x, f);
                let (s1, r) = eval(st, *x, f);
                lemma_eval_keeps_outer(s1, *idx, f);
                let (s2, ri) = eval(s1, *idx, f);
                if r is Ok && ri is Ok {
                    match (lookup(s2, id), ri->Ok_0) {
                        (Some(SpecValue::Array(items)), SpecValue::Number(n)) => {
                            lemma_assign_keeps_outer(
                                s2,
                                id,
                                SpecValue::Array(items.update(index_position(n), r->Ok_0)),
                            );
                        },
                        _ => {},
                    }
                }
            },
            SpecExpr::Index(a, i) => {
                lemma_eval_keeps_outer(st, *a, f);
                let (s1, ra) = eval(st, *a, f);
                lemma_eval_keeps_outer(s1, *i, f);
            },
            SpecExpr::Array(items) => {
                lemma_list_keeps_outer(st, items, 0, f);
            },
            SpecExpr::If(c, body) => {
                lemma_eval_keeps_outer(st, *c, f);
                let (s1, r) = eval(st, *c, f);
                lemma_block_keeps_outer(s1, body, 0, SpecValue::Void, f);
            },
            SpecExpr::While(c, body) => {
                lemma_while_keeps_outer(st, *c, body, f);
            },
            SpecExpr::Function(name, params, body) => {
                if name.len() > 0 {
                    lemma_assign_keeps_outer(st, name, SpecValue::Function(params, body));
                }
            },
            SpecExpr::Call(name, args) => {
                lemma_list_keeps_outer(st, args, 0, f);
                let (s1, r) = eval_list(st, args, 0, f);
                if r is Ok && !is_builtin_name(name) {
                    match lookup(s1, name) {
                        Some(SpecValue::Function(params, body)) => {
                            let frame = call_frame(params, r->Ok_0);
                            let sp = push_frame(s1, frame);
                            lemma_block_keeps_outer(sp, body, 0, SpecValue::Void, f);
                            let (s2, rv) = run_block(sp, body, 0, SpecValue::Void, f);
                            lemma_call_frame_keeps_outer(s1, frame, s2);
                        },
                        _ => {},
                    }
                }
            },
            SpecExpr::Return(x) => {
                lemma_eval_keeps_outer(st, *x, f);
            },
            _ => {},
        }
    }
}

proof fn lemma_list_keeps_outer(st: SpecState, es: Seq<SpecExpr>, i: int, fuel: nat)
    requires
        st.frames.len() > 0,
    ensures
        keeps_outer(st, eval_list(st, es, i, fuel).0),
    decreases fuel, es.len() - i + 1,
{
    if 0 <= i < es.len() {
        lemma_eval_keeps_outer(st, es[i], fuel);
        let (s1, r) = eval(st, es[i], fuel);
        if r is Ok {
            lemma_list_keeps_outer(s1, es, i + 1, fuel);
        }
    }
}

proof fn lemma_block_keeps_outer(st: SpecState, body: Seq<SpecExpr>, i: int, last: SpecValue, fuel: nat)
    requires
        st.frames.len() > 0,
    ensures
        keeps_outer(st, run_block(st, body, i, last, fuel).0),
    decreases fuel, body.len() - i + 1,
{
    if 0 <= i < body.len() {
        match body[i] {
            SpecExpr::Return(x) => {
                lemma_eval_keeps_outer(st, *x, fuel);
            },
            e => {
                lemma_eval_keeps_outer(st, e, fuel);
                let (s1, r) = eval(st, e, fuel);
                if r is Ok {
                    lemma_block_keeps_outer(s1, body, i + 1, r->Ok_0, fuel);
                }
            },
        }
    }
}

proof fn lemma_while_keeps_outer(st: SpecState, c: SpecExpr, body: Seq<SpecExpr>, fuel: nat)
    requires
        st.frames.len() > 0,
    ensures
        keeps_outer(st, eval_while(st, c, body, fuel).0),
    decreases fuel, 0int,
{
    if fuel > 0 {
        let f = (fuel - 1) as nat;
        lemma_eval_keeps_outer(st, c, f);
        let (s1, r) = eval(st, c, f);
        if r is Ok && truthiness(r->Ok_0) == Ok::<bool, SpecError>(true) {
            lemma_block_keeps_outer(s1, body, 0, SpecValue::Void, f);
            let (s2, rb) = run_block(s1, body, 0, SpecValue::Void, f);
            if rb is Ok {
                lemma_while_keeps_outer(s2, c, body, f);
            }
        }
    }
}

/// A call of a function of the program returns with the global scope and the
/// frames as the evaluation of its arguments left them: what the function
/// binds is gone when it returns, and a function that it calls starts from a
/// frame that holds its own parameters only.
pub proof fn lemma_call_isolation(st: SpecState, name: Seq<char>, args: Seq<SpecExpr>, fuel: nat)
    requires
        fuel > 0,
        !is_builtin_name(name),
    ensures
        ({
            let (s1, r1) = eval_list(st, args, 0, (fuel - 1) as nat);
            let s3 = eval(st, SpecExpr::Call(name, args), fuel).0;
            (r1 is Ok && lookup(s1, name) matches Some(SpecValue::Function(_, _))) ==> (s3.globals
                == s1.globals && s3.frames == s1.frames)
        }),
{
    let f = (fuel - 1) as nat;
    let (s1, r1) = eval_list(st, args, 0, f);
    if r1 is Ok {
        match lookup(s1, name) {
            Some(SpecValue::Function(params, body)) => {
                let frame = call_frame(params, r1->Ok_0);
                let sp = push_frame(s1, frame);
                lemma_block_keeps_outer(sp, body, 0, SpecValue::Void, f);
                let (s2, rv) = run_block(sp, body, 0, SpecValue::Void, f);
                lemma_call_frame_keeps_outer(s1, frame, s2);
            },
            _ => {},
        }
    }
}

} // verus!
