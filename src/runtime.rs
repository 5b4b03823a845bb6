//! The evaluator: walks the expression tree and keeps the variable scopes.
use vstd::prelude::*;
use crate::expression::{
    copy_exprs, copy_names, exprs_view, lemma_exprs_view_from, names_view, BinaryExpression,
    BinaryOp, Expression, SpecExpr, AST,
};
use crate::operations::{
    execute_boolean_comparison, execute_builtin, execute_math_operation, index_value, is_builtin,
    result_view, strings_view,
};
use crate::scope::Scope;
use crate::semantics::{
    assign, bind_params, builtin_result, call_frame, eval, eval_list, eval_while, lookup, pop_frame,
    push_frame, run_block, SpecState,
};
use crate::value::{
    lemma_values_view, values_view, ArrayValue, FunctionValue, Operation, RuntimeError, SpecError,
    SpecValue, Value, ValueKind,
};

verus! {

/// The budget that `run` gives a program.
pub const DEFAULT_FUEL: u64 = 0xffff_ffff_ffff_ffff;

/// The values or error of evaluating a list of expressions.
pub open spec fn list_view(r: Result<Vec<Value>, RuntimeError>) -> Result<Seq<SpecValue>, SpecError> {
    match r {
        Ok(v) => Ok(values_view(v@)),
        Err(e) => Err(e@),
    }
}

pub open spec fn scopes_view(s: Seq<Scope>) -> Seq<Map<Seq<char>, SpecValue>> {
    s.map_values(|x: Scope| x@)
}

/// The interpreter: one global scope, a stack of local frames of which only
/// the last one is visible, and the lines printed so far.
#[derive(Debug)]
pub struct Runtime {
    global_scope: Scope,
    /// The frames as a stack: the last one is the active one.
    local_scope: Vec<Scope>,
    output: Vec<String>,
}

impl View for Runtime {
    type V = SpecState;

    closed spec fn view(&self) -> SpecState {
        SpecState {
            globals: self.global_scope@,
            frames: scopes_view(self.local_scope@),
            output: strings_view(self.output@),
        }
    }
}

impl Runtime {
    pub closed spec fn wf(&self) -> bool {
        &&& self.global_scope.wf()
        &&& forall|i: int| 0 <= i < self.local_scope@.len() ==> #[trigger] self.local_scope@[i].wf()
    }

    pub fn new() -> (r: Runtime)
        ensures
            r.wf(),
            r@ == (SpecState {
                globals: Map::empty(),
                frames: Seq::empty(),
                output: Seq::empty(),
            }),
    {
        let r = Runtime { global_scope: Scope::new(), local_scope: Vec::new(), output: Vec::new() };
        assert(r@.frames =~= Seq::<Map<Seq<char>, SpecValue>>::empty());
        assert(r@.output =~= Seq::<Seq<char>>::empty());
        r
    }

    /// The lines printed so far, in order.
    pub fn output(&self) -> (r: &Vec<String>)
        ensures
            strings_view(r@) == self@.output,
    {
        &self.output
    }

    /// The value of a variable, if it is bound.
    pub fn try_get_variable(&self, name: &str) -> (r: Option<Value>)
        requires
            self.wf(),
        ensures
            match r {
                Some(v) => lookup(self@, name@) == Some(v@),
                None => lookup(self@, name@) is None,
            },
    {
        let n = self.local_scope.len();
        if n > 0 {
            assert(self.local_scope@[n - 1].wf());
            assert(self@.frames.last() == self.local_scope@[n - 1]@);
            match self.local_scope[n - 1].get(name) {
                Some(v) => {
                    return Some(v.duplicate());
                },
                None => {},
            }
        }
        match self.global_scope.get(name) {
            Some(v) => Some(v.duplicate()),
            None => None,
        }
    }

    /// The value of a variable, or the error for an unbound one.
    pub fn get_variable(&self, name: &str) -> (r: Result<Value, RuntimeError>)
        requires
            self.wf(),
        ensures
            match lookup(self@, name@) {
                Some(v) => result_view(r) == Ok::<SpecValue, SpecError>(v),
                None => result_view(r) == Err::<SpecValue, SpecError>(
                    SpecError::UndefinedVariable(name@),
                ),
            },
    {
        match self.try_get_variable(name) {
            Some(v) => Ok(v),
            None => Err(RuntimeError::UndefinedVariable { name: String::from_str(name) }),
        }
    }

    /// Binds a variable in the active frame, or globally when no frame is active.
    pub fn set_variable(&mut self, name: &str, value: Value)
        requires
            old(self).wf(),
        ensures
            final(self).wf(),
            final(self)@ == assign(old(self)@, name@, value@),
    {
        let nm = String::from_str(name);
        match self.local_scope.pop() {
            Some(mut s) => {
                proof {
                    assert(old(self).local_scope@.last().wf());
                }
                s.set(nm, value);
                self.local_scope.push(s);
                proof {
                    assert(self.local_scope@ =~= old(self).local_scope@.update(
                        old(self).local_scope@.len() - 1,
                        s,
                    ));
                    assert(self@.frames =~= assign(old(self)@, name@, value@).frames);
                    assert forall|i: int| 0 <= i < self.local_scope@.len() implies #[trigger] self.local_scope@[i].wf() by {
                        if i < self.local_scope@.len() - 1 {
                            assert(self.local_scope@[i] == old(self).local_scope@[i]);
                        }
                    }
                }
            },
            None => {
                self.global_scope.set(nm, value);
            },
        }
    }

    /// Evaluates one expression with a budget of `fuel` steps.
    pub fn execute(&mut self, expr: &Expression, fuel: u64) -> (r: Result<Value, RuntimeError>)
        requires
            old(self).wf(),
        ensures
            final(self).wf(),
            final(self)@.frames.len() == old(self)@.frames.len(),
            (final(self)@, result_view(r)) == eval(old(self)@, expr@, fuel as nat),
        decreases fuel, 1int,
    {
        if fuel == 0 {
            return Err(RuntimeError::OutOfFuel);
        }
        let f = fuel - 1;
        match expr {
            Expression::Variable(name) => self.get_variable(name.as_str()),
            Expression::VariableDecleration { name, value } => {
                match self.execute(value, f) {
                    Ok(v) => {
                        self.set_variable(name.as_str(), v.duplicate());
                        Ok(v)
                    },
                    Err(e) => Err(e),
                }
            },
            Expression::VariableAssignment { name, value } => {
                match self.execute(value, f) {
                    Ok(v) => {
                        if self.try_get_variable(name.as_str()).is_none() {
                            Err(RuntimeError::UndefinedVariable { name: name.clone() })
                        } else {
                            self.set_variable(name.as_str(), v.duplicate());
                            Ok(v)
                        }
                    },
                    Err(e) => Err(e),
                }
            },
            Expression::Addition(b) => self.execute_binary(BinaryOp::Add, b, fuel),
            Expression::Subtraction(b) => self.execute_binary(BinaryOp::Subtract, b, fuel),
            Expression::Multiplication(b) => self.execute_binary(BinaryOp::Multiply, b, fuel),
            Expression::Division(b) => self.execute_binary(BinaryOp::Divide, b, fuel),
            Expression::LessThan(b) => self.execute_binary(BinaryOp::Less, b, fuel),
            Expression::LessEquals(b) => self.execute_binary(BinaryOp::LessEqual, b, fuel),
            Expression::GreaterThan(b) => self.execute_binary(BinaryOp::Greater, b, fuel),
            Expression::GreaterEquals(b) => self.execute_binary(BinaryOp::GreaterEqual, b, fuel),
            Expression::And(b) => self.execute_binary(BinaryOp::And, b, fuel),
            Expression::Or(b) => self.execute_binary(BinaryOp::Or, b, fuel),
            Expression::BoolNegation(x) => {
                match self.execute(x, f) {
                    Ok(v) => match v.is_truthy() {
                        Ok(t) => Ok(Value::Bool(!t)),
                        Err(e) => Err(e),
                    },
                    Err(e) => Err(e),
                }
            },
            Expression::String(s) => Ok(Value::String(s.clone())),
            Expression::Number(n) => Ok(Value::Number(*n)),
            Expression::Bool(b) => Ok(Value::Bool(*b)),
            Expression::ArrayAssignment { identifier, index, value } => {
                self.execute_array_assignment(identifier, index, value, fuel)
            },
            Expression::ArrayIndexing { array, index } => {
                match self.execute(array, f) {
                    Ok(a) => match self.execute(index, f) {
                        Ok(i) => index_value(&a, &i),
                        Err(e) => Err(e),
                    },
                    Err(e) => Err(e),
                }
            },
            Expression::Array(items) => {
                match self.execute_list(items, 0, f) {
                    Ok(vs) => Ok(Value::Array(ArrayValue { contents: vs })),
                    Err(e) => Err(e),
                }
            },
            Expression::IfCondition { condition, body } => {
                match self.execute(condition, f) {
                    Ok(c) => match c.is_truthy() {
                        Ok(true) => self.run_block(body, 0, Value::Void, f),
                        Ok(false) => Ok(Value::Void),
                        Err(e) => Err(e),
                    },
                    Err(e) => Err(e),
                }
            },
            Expression::WhileLoop { condition, body } => self.execute_while(condition, body, f),
            Expression::FunctionDefinition { name, arguments, body } => {
                let v = Value::Function(
                    FunctionValue { arguments: copy_names(arguments), body: copy_exprs(body) },
                );
                if name.as_str().unicode_len() > 0 {
                    self.set_variable(name.as_str(), v.duplicate());
                }
                Ok(v)
            },
            Expression::FunctionCall { name, arguments } => self.execute_call(name, arguments, fuel),
            Expression::Return(x) => self.execute(x, f),
        }
    }

    fn execute_binary(&mut self, op: BinaryOp, b: &BinaryExpression, fuel: u64) -> (r: Result<Value, RuntimeError>)
        requires
            old(self).wf(),
            fuel > 0,
        ensures
            final(self).wf(),
            final(self)@.frames.len() == old(self)@.frames.len(),
            (final(self)@, result_view(r)) == eval(
                old(self)@,
                SpecExpr::Binary(op, Box::new(b.left@), Box::new(b.right@)),
                fuel as nat,
            ),
        decreases fuel, 0int,
    {
        let f = fuel - 1;
        match self.execute(&b.left, f) {
            Ok(x) => match self.execute(&b.right, f) {
                Ok(y) => {
                    if op == BinaryOp::Add || op == BinaryOp::Subtract || op == BinaryOp::Multiply
                        || op == BinaryOp::Divide {
                        execute_math_operation(op, &x, &y)
                    } else {
                        execute_boolean_comparison(op, &x, &y)
                    }
                },
                Err(e) => Err(e),
            },
            Err(e) => Err(e),
        }
    }

    fn execute_array_assignment(
        &mut self,
        identifier: &String,
        index: &Expression,
        value: &Expression,
        fuel: u64,
    ) -> (r: Result<Value, RuntimeError>)
        requires
            old(self).wf(),
            fuel > 0,
        ensures
            final(self).wf(),
            final(self)@.frames.len() == old(self)@.frames.len(),
            (final(self)@, result_view(r)) == eval(
                old(self)@,
                SpecExpr::AssignElement(identifier@, Box::new(index@), Box::new(value@)),
                fuel as nat,
            ),
        decreases fuel, 0int,
    {
        let f = fuel - 1;
        let v = match self.execute(value, f) {
            Ok(v) => v,
            Err(e) => return Err(e),
        };
        let i = match self.execute(index, f) {
            Ok(i) => i,
            Err(e) => return Err(e),
        };
        match self.try_get_variable(identifier.as_str()) {
            None => Err(RuntimeError::UndefinedVariable { name: identifier.clone() }),
            Some(arr) => match (arr, &i) {
                (Value::Array(mut a), Value::Number(n)) => {
                    let p = n.truncated();
                    let ghost before = a.contents@;
                    proof {
                        lemma_values_view(before);
                    }
                    if p < 0 || p as i128 >= a.contents.len() as i128 {
                        Err(RuntimeError::IndexOutOfBounds { index: p, length: a.contents.len() })
                    } else {
                        a.contents.set(p as usize, v.duplicate());
                        proof {
                            lemma_values_view(a.contents@);
                            assert(values_view(a.contents@) =~= values_view(before).update(
                                p as int,
                                v@,
                            ));
                        }
                        self.set_variable(identifier.as_str(), Value::Array(a));
                        Ok(v)
                    }
                },
                (arr, _) => {
                    let mut kinds: Vec<ValueKind> = Vec::new();
                    kinds.push(arr.kind());
                    kinds.push(i.kind());
                    assert(kinds@ =~= seq![crate::value::kind_of(arr@), crate::value::kind_of(i@)]);
                    Err(RuntimeError::TypeMismatch { operation: Operation::AssignElement, operand_kinds: kinds })
                },
            },
        }
    }

    fn execute_call(&mut self, name: &String, arguments: &Vec<Expression>, fuel: u64) -> (r: Result<Value, RuntimeError>)
        requires
            old(self).wf(),
            fuel > 0,
        ensures
            final(self).wf(),
            final(self)@.frames.len() == old(self)@.frames.len(),
            (final(self)@, result_view(r)) == eval(
                old(self)@,
                SpecExpr::Call(name@, exprs_view(arguments@)),
                fuel as nat,
            ),
        decreases fuel, 0int,
    {
        let f = fuel - 1;
        let vs = match self.execute_list(arguments, 0, f) {
            Ok(vs) => vs,
            Err(e) => return Err(e),
        };
        if is_builtin(name.as_str()) {
            let ghost s1 = self@;
            let r = execute_builtin(name.as_str(), vs, &mut self.output);
            assert(self@ == builtin_result(s1, name@, values_view(vs@)).0);
            return r;
        }
        match self.try_get_variable(name.as_str()) {
            Some(Value::Function(fv)) => {
                let frame = Self::bind_arguments(&fv.arguments, &vs);
                let ghost s1 = self@;
                let ghost ls = self.local_scope@;
                self.local_scope.push(frame);
                proof {
                    assert(self@.frames =~= push_frame(s1, call_frame(names_view(fv.arguments@), values_view(vs@))).frames);
                    assert forall|i: int| 0 <= i < self.local_scope@.len() implies #[trigger] self.local_scope@[i].wf() by {
                        if i < self.local_scope@.len() - 1 {
                            assert(self.local_scope@[i] == ls[i]);
                        }
                    }
                }
                let r = self.run_block(&fv.body, 0, Value::Void, f);
                let ghost s2 = self@;
                let ghost before = self.local_scope@;
                let _ = self.local_scope.pop();
                proof {
                    assert(self.local_scope@ =~= before.drop_last());
                    assert(self@.frames =~= pop_frame(s2).frames);
                    assert forall|i: int| 0 <= i < self.local_scope@.len() implies #[trigger] self.local_scope@[i].wf() by {
                        assert(self.local_scope@[i] == before[i]);
                    }
                }
                r
            },
            _ => Err(RuntimeError::UndefinedFunction { name: name.clone() }),
        }
    }

    /// The frame of a call: parameters bound to arguments, place by place.
    fn bind_arguments(params: &Vec<String>, args: &Vec<Value>) -> (r: Scope)
        ensures
            r.wf(),
            r@ == call_frame(names_view(params@), values_view(args@)),
    {
        let n = if params.len() < args.len() {
            params.len()
        } else {
            args.len()
        };
        let mut frame = Scope::new();
        let mut i: usize = 0;
        proof {
            lemma_values_view(args@);
        }
        while i < n
            invariant
                i <= n,
                n <= params@.len(),
                n <= args@.len(),
                n == (if params@.len() < args@.len() { params@.len() } else { args@.len() }),
                values_view(args@).len() == args@.len(),
                forall|j: int| 0 <= j < args@.len() ==> #[trigger] values_view(args@)[j] == args@[j]@,
                frame.wf(),
                frame@ == bind_params(names_view(params@), values_view(args@), i as int),
            decreases n - i,
        {
            frame.set(params[i].clone(), args[i].duplicate());
            i = i + 1;
        }
        frame
    }

    fn execute_list(&mut self, es: &Vec<Expression>, i: usize, fuel: u64) -> (r: Result<Vec<Value>, RuntimeError>)
        requires
            old(self).wf(),
            i <= es@.len(),
        ensures
            final(self).wf(),
            final(self)@.frames.len() == old(self)@.frames.len(),
            (final(self)@, list_view(r)) == eval_list(old(self)@, exprs_view(es@), i as int, fuel as nat),
        decreases fuel, es@.len() - i + 2,
    {
        proof {
            lemma_exprs_view_from(es@, 0);
        }
        if i >= es.len() {
            let r: Vec<Value> = Vec::new();
            proof {
                lemma_values_view(r@);
                assert(values_view(r@) =~= Seq::<SpecValue>::empty());
            }
            return Ok(r);
        }
        assert(exprs_view(es@)[i as int - 0] == es@[i as int]@);
        let v = match self.execute(&es[i], fuel) {
            Ok(v) => v,
            Err(e) => return Err(e),
        };
        let mut rest = match self.execute_list(es, i + 1, fuel) {
            Ok(rest) => rest,
            Err(e) => return Err(e),
        };
        let ghost tail = rest@;
        rest.insert(0, v);
        proof {
            lemma_values_view(tail);
            lemma_values_view(rest@);
            assert(values_view(rest@) =~= seq![v@] + values_view(tail));
        }
        Ok(rest)
    }

    /// Runs `body[i..]` after a statement that gave `last`.
    fn run_block(&mut self, body: &Vec<Expression>, i: usize, last: Value, fuel: u64) -> (r: Result<Value, RuntimeError>)
        requires
            old(self).wf(),
            i <= body@.len(),
        ensures
            final(self).wf(),
            final(self)@.frames.len() == old(self)@.frames.len(),
            (final(self)@, result_view(r)) == run_block(old(self)@, exprs_view(body@), i as int, last@, fuel as nat),
        decreases fuel, body@.len() - i + 2,
    {
        proof {
            lemma_exprs_view_from(body@, 0);
        }
        let ghost last0 = last@;
        let mut k = i;
        let mut last = last;
        while k < body.len()
            invariant
                self.wf(),
                k <= body@.len(),
                i <= k,
                self@.frames.len() == old(self)@.frames.len(),
                exprs_view(body@).len() == body@.len(),
                forall|j: int| 0 <= j < body@.len() ==> #[trigger] exprs_view(body@)[j - 0] == body@[j]@,
                run_block(old(self)@, exprs_view(body@), i as int, last0, fuel as nat)
                    == run_block(self@, exprs_view(body@), k as int, last@, fuel as nat),
            decreases body@.len() - k,
        {
            assert(exprs_view(body@)[k as int - 0] == body@[k as int]@);
            match &body[k] {
                Expression::Return(x) => {
                    return self.execute(x, fuel);
                },
                e => {
                    match self.execute(e, fuel) {
                        Ok(v) => {
                            last = v;
                        },
                        Err(err) => {
                            return Err(err);
                        },
                    }
                },
            }
            k = k + 1;
        }
        Ok(last)
    }

    fn execute_while(&mut self, condition: &Expression, body: &Vec<Expression>, fuel: u64) -> (r: Result<Value, RuntimeError>)
        requires
            old(self).wf(),
        ensures
            final(self).wf(),
            final(self)@.frames.len() == old(self)@.frames.len(),
            (final(self)@, result_view(r)) == eval_while(old(self)@, condition@, exprs_view(body@), fuel as nat),
        decreases fuel, 2int,
    {
        let mut w = fuel;
        while w > 0
            invariant
                self.wf(),
                w <= fuel,
                self@.frames.len() == old(self)@.frames.len(),
                eval_while(old(self)@, condition@, exprs_view(body@), fuel as nat)
                    == eval_while(self@, condition@, exprs_view(body@), w as nat),
            decreases w,
        {
            let f = w - 1;
            match self.execute(condition, f) {
                Ok(c) => match c.is_truthy() {
                    Ok(true) => {
                        match self.run_block(body, 0, Value::Void, f) {
                            Ok(_) => {},
                            Err(e) => {
                                return Err(e);
                            },
                        }
                    },
                    Ok(false) => {
                        return Ok(Value::Void);
                    },
                    Err(e) => {
                        return Err(e);
                    },
                },
                Err(e) => {
                    return Err(e);
                },
            }
            w = f;
        }
        Err(RuntimeError::OutOfFuel)
    }

    /// Runs a program with a budget of `fuel` steps: the top-level expressions
    /// in order, up to the first `return`.
    pub fn run_with_fuel(&mut self, ast: &AST, fuel: u64) -> (r: Result<Value, RuntimeError>)
        requires
            old(self).wf(),
        ensures
            final(self).wf(),
            (final(self)@, result_view(r)) == run_block(old(self)@, exprs_view(ast@), 0, SpecValue::Void, fuel as nat),
    {
        self.run_block(ast, 0, Value::Void, fuel)
    }

    /// Runs a program: the top-level expressions in order, up to the first
    /// `return`. The value is that of the `return`, or else of the last
    /// expression, or void for an empty program.
    pub fn run(&mut self, ast: &AST) -> (r: Result<Value, RuntimeError>)
        requires
            old(self).wf(),
        ensures
            final(self).wf(),
            (final(self)@, result_view(r)) == run_block(old(self)@, exprs_view(ast@), 0, SpecValue::Void, DEFAULT_FUEL as nat),
    {
        self.run_block(ast, 0, Value::Void, DEFAULT_FUEL)
    }
}

} // verus!
