//! The operators and the builtin functions, on evaluated values.
use vstd::prelude::*;
use crate::expression::BinaryOp;
use crate::number::Number;
use crate::semantics::{
    add_values, binary_result, builtin_result, index_result, is_builtin_name, mismatch,
    version_text, with_output, SpecState,
};
use crate::text::{push_str, str_eq};
use crate::value::{
    kinds_of, lemma_values_view, text_of, values_view, Operation, RuntimeError, SpecError,
    SpecValue, Value, ValueKind, push_text,
};

verus! {

/// The value or error of an evaluation step.
pub open spec fn result_view(r: Result<Value, RuntimeError>) -> Result<SpecValue, SpecError> {
    match r {
        Ok(v) => Ok(v@),
        Err(e) => Err(e@),
    }
}

/// The views of a sequence of strings.
pub open spec fn strings_view(s: Seq<String>) -> Seq<Seq<char>> {
    s.map_values(|t: String| t@)
}

fn type_mismatch(op: Operation, a: &Value, b: &Value) -> (r: RuntimeError)
    ensures
        Err::<SpecValue, SpecError>(r@) == mismatch(op, a@, b@),
{
    let mut kinds: Vec<ValueKind> = Vec::new();
    kinds.push(a.kind());
    kinds.push(b.kind());
    assert(kinds@ =~= seq![crate::value::kind_of(a@), crate::value::kind_of(b@)]);
    RuntimeError::TypeMismatch { operation: op, operand_kinds: kinds }
}

/// The kinds of a list of values.
fn kinds(args: &Vec<Value>) -> (r: Vec<ValueKind>)
    ensures
        r@ == kinds_of(values_view(args@)),
{
    let mut out: Vec<ValueKind> = Vec::new();
    let mut i: usize = 0;
    proof {
        lemma_values_view(args@);
    }
    while i < args.len()
        invariant
            i <= args@.len(),
            values_view(args@).len() == args@.len(),
            forall|j: int| 0 <= j < args@.len() ==> #[trigger] values_view(args@)[j] == args@[j]@,
            out@ == kinds_of(values_view(args@)).take(i as int),
        decreases args.len() - i,
    {
        out.push(args[i].kind());
        assert(out@ =~= kinds_of(values_view(args@)).take(i + 1));
        i = i + 1;
    }
    assert(out@ =~= kinds_of(values_view(args@)));
    out
}

fn add_operands(a: &Value, b: &Value) -> (r: Result<Value, RuntimeError>)
    ensures
        result_view(r) == add_values(a@, b@),
{
    match (a, b) {
        (Value::Number(x), Value::Number(y)) => Ok(Value::Number(x.plus(y))),
        (Value::String(x), Value::String(y)) => {
            let mut s = x.clone();
            push_str(&mut s, y.as_str());
            Ok(Value::String(s))
        },
        (Value::String(x), _) => {
            let mut s = x.clone();
            if push_text(&mut s, b) {
                Ok(Value::String(s))
            } else {
                Err(type_mismatch(Operation::Add, a, b))
            }
        },
        (_, Value::String(y)) => {
            let mut s = String::new();
            if push_text(&mut s, a) {
                push_str(&mut s, y.as_str());
                Ok(Value::String(s))
            } else {
                Err(type_mismatch(Operation::Add, a, b))
            }
        },
        _ => Err(type_mismatch(Operation::Add, a, b)),
    }
}

/// The arithmetic operators `+ - * /`.
pub fn execute_math_operation(op: BinaryOp, a: &Value, b: &Value) -> (r: Result<Value, RuntimeError>)
    requires
        op == BinaryOp::Add || op == BinaryOp::Subtract || op == BinaryOp::Multiply || op
            == BinaryOp::Divide,
    ensures
        result_view(r) == binary_result(op, a@, b@),
{
    match op {
        BinaryOp::Add => add_operands(a, b),
        BinaryOp::Subtract => match (a, b) {
            (Value::Number(x), Value::Number(y)) => Ok(Value::Number(x.minus(y))),
            _ => Err(type_mismatch(Operation::Subtract, a, b)),
        },
        BinaryOp::Multiply => match (a, b) {
            (Value::Number(x), Value::Number(y)) => Ok(Value::Number(x.times(y))),
            _ => Err(type_mismatch(Operation::Multiply, a, b)),
        },
        _ => match (a, b) {
            (Value::Number(x), Value::Number(y)) => Ok(Value::Number(x.divided_by(y))),
            _ => Err(type_mismatch(Operation::Divide, a, b)),
        },
    }
}

/// The comparison operators `< <= > >=` and the logical `&&`, `||`.
pub fn execute_boolean_comparison(op: BinaryOp, a: &Value, b: &Value) -> (r: Result<Value, RuntimeError>)
    requires
        !(op == BinaryOp::Add || op == BinaryOp::Subtract || op == BinaryOp::Multiply || op
            == BinaryOp::Divide),
    ensures
        result_view(r) == binary_result(op, a@, b@),
{
    match op {
        BinaryOp::Or => match a.is_truthy() {
            Ok(true) => Ok(Value::Bool(true)),
            Ok(false) => match b.is_truthy() {
                Ok(t) => Ok(Value::Bool(t)),
                Err(e) => Err(e),
            },
            Err(e) => Err(e),
        },
        BinaryOp::And => match a.is_truthy() {
            Ok(false) => Ok(Value::Bool(false)),
            Ok(true) => match b.is_truthy() {
                Ok(t) => Ok(Value::Bool(t)),
                Err(e) => Err(e),
            },
            Err(e) => Err(e),
        },
        _ => match (a, b) {
            (Value::Number(x), Value::Number(y)) => Ok(Value::Bool(
                match op {
                    BinaryOp::Less => x.lt(y),
                    BinaryOp::LessEqual => x.le(y),
                    BinaryOp::Greater => y.lt(x),
                    _ => y.le(x),
                },
            )),
            _ => Err(type_mismatch(Operation::Compare, a, b)),
        },
    }
}

/// The element of an array at an index.
pub fn index_value(a: &Value, i: &Value) -> (r: Result<Value, RuntimeError>)
    ensures
        result_view(r) == index_result(a@, i@),
{
    match (a, i) {
        (Value::Array(arr), Value::Number(n)) => {
            let p = n.truncated();
            proof {
                lemma_values_view(arr.contents@);
            }
            if p < 0 || p as i128 >= arr.contents.len() as i128 {
                Err(RuntimeError::IndexOutOfBounds { index: p, length: arr.contents.len() })
            } else {
                Ok(arr.contents[p as usize].duplicate())
            }
        },
        _ => Err(type_mismatch(Operation::Index, a, i)),
    }
}

/// Whether `name` names a builtin function.
pub fn is_builtin(name: &str) -> (r: bool)
    ensures
        r == is_builtin_name(name@),
{
    str_eq(name, "print") || str_eq(name, "add") || str_eq(name, "subtract") || str_eq(
        name,
        "print_version",
    ) || str_eq(name, "len")
}

/// Calls a builtin function on evaluated arguments; what it prints is added
/// to `output`, one line per call.
pub fn execute_builtin(name: &str, args: Vec<Value>, output: &mut Vec<String>) -> (r: Result<Value, RuntimeError>)
    requires
        is_builtin_name(name@),
    ensures
        ({
            let st = SpecState {
                globals: Map::empty(),
                frames: Seq::empty(),
                output: strings_view(old(output)@),
            };
            let (s2, res) = builtin_result(st, name@, values_view(args@));
            s2.output == strings_view(final(output)@) && res == result_view(r)
        }),
{
    let ghost st = SpecState {
        globals: Map::empty(),
        frames: Seq::empty(),
        output: strings_view(output@),
    };
    proof {
        lemma_values_view(args@);
    }
    if str_eq(name, "len") {
        if args.len() >= 1 {
            match &args[0] {
                Value::Array(items) => {
                    proof {
                        lemma_values_view(items.contents@);
                    }
                    Ok(Value::Number(Number::from_count(items.contents.len())))
                },
                Value::String(s) => Ok(Value::Number(Number::from_count(s.as_str().unicode_len()))),
                _ => Err(RuntimeError::TypeMismatch { operation: Operation::Length, operand_kinds: kinds(&args) }),
            }
        } else {
            Err(RuntimeError::TypeMismatch { operation: Operation::Length, operand_kinds: kinds(&args) })
        }
    } else if str_eq(name, "print") {
        if args.len() >= 1 {
            let mut line = String::new();
            if push_text(&mut line, &args[0]) {
                output.push(line);
                assert(strings_view(output@) =~= with_output(st, text_of(args@[0]@)->0).output);
                Ok(Value::Void)
            } else {
                let mut k: Vec<ValueKind> = Vec::new();
                k.push(args[0].kind());
                assert(k@ =~= seq![crate::value::kind_of(values_view(args@)[0])]);
                Err(RuntimeError::TypeMismatch { operation: Operation::Print, operand_kinds: k })
            }
        } else {
            Ok(Value::Void)
        }
    } else if str_eq(name, "add") {
        if args.len() >= 2 {
            add_operands(&args[0], &args[1])
        } else {
            Err(RuntimeError::TypeMismatch { operation: Operation::Add, operand_kinds: kinds(&args) })
        }
    } else if str_eq(name, "subtract") {
        if args.len() >= 2 {
            match (&args[0], &args[1]) {
                (Value::Number(x), Value::Number(y)) => Ok(Value::Number(x.minus(y))),
                _ => Ok(Value::Void),
            }
        } else {
            Err(RuntimeError::TypeMismatch { operation: Operation::Subtract, operand_kinds: kinds(&args) })
        }
    } else {
        let line = String::from_str("mylang version 0.0.1");
        output.push(line);
        assert(strings_view(output@) =~= with_output(st, version_text()).output);
        Ok(Value::Void)
    }
}

} // verus!
