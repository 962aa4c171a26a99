//! The evaluator: eager, call by value, environments passed by value.
use vstd::prelude::*;
use crate::ast::{BinMathOp, Term, TermModel};
use crate::value::{EvalEnv, Value, ValueModel};

verus! {

/// Why a term has no value.
#[derive(PartialEq, Eq, Structural, Clone, Copy, Debug)]
pub enum EvalError {
    /// A variable that the environment does not bind.
    UnboundVariable,
    /// An application of something that is not a closure.
    NotCallable,
    /// An arithmetic operand that is not a number.
    InvalidMathOperands,
    /// A division whose divisor is zero.
    DivisionByZero,
    /// A comparison of values that are not both numbers or both booleans.
    UnsupportedEquality,
    /// A condition that is not a boolean.
    IfConditionNotBool,
    /// More than `u64::MAX` nested applications; no run gets near it before
    /// the call stack runs out.
    DepthExceeded,
}

impl EvalError {
    /// The text of the diagnostic for the error.
    pub open spec fn text(self) -> Seq<char> {
        match self {
            EvalError::UnboundVariable => "Variable name missing in environment"@,
            EvalError::NotCallable => "terms need to be applied to function types"@,
            EvalError::InvalidMathOperands => "Invalid math operation. Both sides must evaluate to numbers"@,
            EvalError::DivisionByZero => "Division by zero"@,
            EvalError::UnsupportedEquality => "Both terms in equality must be of the same type. Equality on functions are not supported"@,
            EvalError::IfConditionNotBool => "test condition must be a boolean"@,
            EvalError::DepthExceeded => "Function applications nested too deeply"@,
        }
    }

    /// A diagnostic for the error.
    pub fn message(&self) -> (r: &'static str)
        ensures
            r@ == self.text(),
    {
        match self {
            EvalError::UnboundVariable => "Variable name missing in environment",
            EvalError::NotCallable => "terms need to be applied to function types",
            EvalError::InvalidMathOperands => "Invalid math operation. Both sides must evaluate to numbers",
            EvalError::DivisionByZero => "Division by zero",
            EvalError::UnsupportedEquality => "Both terms in equality must be of the same type. Equality on functions are not supported",
            EvalError::IfConditionNotBool => "test condition must be a boolean",
            EvalError::DepthExceeded => "Function applications nested too deeply",
        }
    }
}

/// The number of values of a `u64`.
pub open spec fn u64_range() -> int {
    0x1_0000_0000_0000_0000
}

/// The result of `op` on values `a` and `b`: unsigned 64-bit arithmetic,
/// modulo 2^64, and an error on division by zero.
pub open spec fn math_value(op: BinMathOp, a: ValueModel, b: ValueModel) -> Result<ValueModel, EvalError> {
    match (a, b) {
        (ValueModel::Num(x), ValueModel::Num(y)) => match op {
            BinMathOp::Add => Ok(ValueModel::Num(((x + y) % u64_range()) as u64)),
            BinMathOp::Minus => Ok(ValueModel::Num(((x - y) % u64_range()) as u64)),
            BinMathOp::Multiply => Ok(ValueModel::Num(((x * y) % u64_range()) as u64)),
            BinMathOp::Divide => if y == 0 {
                Err(EvalError::DivisionByZero)
            } else {
                Ok(ValueModel::Num((x / y) as u64))
            },
        },
        _ => Err(EvalError::InvalidMathOperands),
    }
}

/// The result of comparing `a` and `b`, negated when `negate` holds.
pub open spec fn compare_values(a: ValueModel, b: ValueModel, negate: bool) -> Result<ValueModel, EvalError> {
    match (a, b) {
        (ValueModel::Num(x), ValueModel::Num(y)) => Ok(ValueModel::Bool((x == y) != negate)),
        (ValueModel::Bool(x), ValueModel::Bool(y)) => Ok(ValueModel::Bool((x == y) != negate)),
        _ => Err(EvalError::UnsupportedEquality),
    }
}

/// The value of `t` in `env`, with at most `depth` nested applications.
/// Operands are evaluated left to right and the first failure is the result;
/// a conditional evaluates only the branch it selects.
pub open spec fn evaluate(t: TermModel, env: Map<Seq<char>, ValueModel>, depth: nat) -> Result<ValueModel, EvalError>
    decreases depth, t,
{
    match t {
        TermModel::Var(n) => if env.contains_key(n) {
            Ok(env[n])
        } else {
            Err(EvalError::UnboundVariable)
        },
        TermModel::Lambda(p, body) => Ok(ValueModel::Closure(env, p, *body)),
        TermModel::Apply(arg, func) => match evaluate(*func, env, depth) {
            Err(e) => Err(e),
            Ok(ValueModel::Closure(captured, p, body)) => match evaluate(*arg, env, depth) {
                Err(e) => Err(e),
                Ok(a) => if depth == 0 {
                    Err(EvalError::DepthExceeded)
                } else {
                    evaluate(body, env.union_prefer_right(captured).insert(p, a), (depth - 1) as nat)
                },
            },
            Ok(_) => Err(EvalError::NotCallable),
        },
        TermModel::NumConst(n) => Ok(ValueModel::Num(n)),
        TermModel::BoolConst(b) => Ok(ValueModel::Bool(b)),
        TermModel::MathOp(op, x, y) => match evaluate(*x, env, depth) {
            Err(e) => Err(e),
            Ok(a) => match evaluate(*y, env, depth) {
                Err(e) => Err(e),
                Ok(b) => math_value(op, a, b),
            },
        },
        TermModel::Equals(x, y) => match evaluate(*x, env, depth) {
            Err(e) => Err(e),
            Ok(a) => match evaluate(*y, env, depth) {
                Err(e) => Err(e),
                Ok(b) => compare_values(a, b, false),
            },
        },
        TermModel::NotEquals(x, y) => match evaluate(*x, env, depth) {
            Err(e) => Err(e),
            Ok(a) => match evaluate(*y, env, depth) {
                Err(e) => Err(e),
                Ok(b) => compare_values(a, b, true),
            },
        },
        TermModel::IfStmt(c, x, y) => match evaluate(*c, env, depth) {
            Err(e) => Err(e),
            Ok(ValueModel::Bool(true)) => evaluate(*x, env, depth),
            Ok(ValueModel::Bool(false)) => evaluate(*y, env, depth),
            Ok(_) => Err(EvalError::IfConditionNotBool),
        },
        TermModel::Assignm(n, e) => match evaluate(*e, env, depth) {
            Err(e) => Err(e),
            Ok(v) => Ok(ValueModel::Assignm(n, Box::new(v))),
        },
    }
}

/// Evaluating `t` in `env` needs only finitely many nested applications.
pub open spec fn evaluation_ends(t: TermModel, env: Map<Seq<char>, ValueModel>) -> bool {
    exists|d: nat| evaluate(t, env, d) != Err::<ValueModel, EvalError>(EvalError::DepthExceeded)
}

/// The result of evaluating `t` in `env` with no bound on nesting; it is
/// meaningful where `evaluation_ends(t, env)`.
pub open spec fn eval_outcome(t: TermModel, env: Map<Seq<char>, ValueModel>) -> Result<ValueModel, EvalError> {
    evaluate(t, env, choose|d: nat| evaluate(t, env, d) != Err::<ValueModel, EvalError>(EvalError::DepthExceeded))
}

/// Once the depth suffices, more depth changes nothing: running out of depth
/// is the only way that a smaller depth can differ.
pub proof fn lemma_evaluate_depth(t: TermModel, env: Map<Seq<char>, ValueModel>, d1: nat, d2: nat)
    requires
        d1 <= d2,
        evaluate(t, env, d1) != Err::<ValueModel, EvalError>(EvalError::DepthExceeded),
    ensures
        evaluate(t, env, d2) == evaluate(t, env, d1),
    decreases d1, t,
{
    match t {
        TermModel::Apply(arg, func) => {
            lemma_evaluate_depth(*func, env, d1, d2);
            if let Ok(ValueModel::Closure(captured, p, body)) = evaluate(*func, env, d1) {
                lemma_evaluate_depth(*arg, env, d1, d2);
                if let Ok(a) = evaluate(*arg, env, d1) {
                    lemma_evaluate_depth(body, env.union_prefer_right(captured).insert(p, a), (d1 - 1) as nat, (d2 - 1) as nat);
                }
            }
        },
        TermModel::MathOp(_, x, y) | TermModel::Equals(x, y) | TermModel::NotEquals(x, y) => {
            lemma_evaluate_depth(*x, env, d1, d2);
            if evaluate(*x, env, d1) is Ok {
                lemma_evaluate_depth(*y, env, d1, d2);
            }
        },
        TermModel::IfStmt(c, x, y) => {
            lemma_evaluate_depth(*c, env, d1, d2);
            match evaluate(*c, env, d1) {
                Ok(ValueModel::Bool(true)) => lemma_evaluate_depth(*x, env, d1, d2),
                Ok(ValueModel::Bool(false)) => lemma_evaluate_depth(*y, env, d1, d2),
                _ => {},
            }
        },
        TermModel::Assignm(_, e) => lemma_evaluate_depth(*e, env, d1, d2),
        _ => {},
    }
}

/// Any depth that suffices gives the unbounded outcome.
pub proof fn lemma_eval_outcome(t: TermModel, env: Map<Seq<char>, ValueModel>, d: nat)
    requires
        evaluate(t, env, d) != Err::<ValueModel, EvalError>(EvalError::DepthExceeded),
    ensures
        evaluation_ends(t, env),
        eval_outcome(t, env) == evaluate(t, env, d),
{
    let c = choose|d: nat| evaluate(t, env, d) != Err::<ValueModel, EvalError>(EvalError::DepthExceeded);
    if c <= d {
        lemma_evaluate_depth(t, env, c, d);
    } else {
        lemma_evaluate_depth(t, env, d, c);
    }
}

/// An application evaluates as the closure body does, in the caller's
/// environment overlaid by the captured one and then by the parameter bound
/// to the argument; applying anything else fails with `NotCallable`.
pub proof fn lemma_eval_apply(arg: TermModel, func: TermModel, env: Map<Seq<char>, ValueModel>)
    requires
        evaluation_ends(func, env),
        eval_outcome(func, env) is Ok,
    ensures
        ({
            let t = TermModel::Apply(Box::new(arg), Box::new(func));
            match eval_outcome(func, env) {
                Ok(ValueModel::Closure(captured, p, body)) => evaluation_ends(arg, env) ==> match eval_outcome(arg, env) {
                    Ok(a) => {
                        let inner = env.union_prefer_right(captured).insert(p, a);
                        &&& evaluation_ends(t, env) == evaluation_ends(body, inner)
                        &&& evaluation_ends(body, inner) ==> eval_outcome(t, env) == eval_outcome(body, inner)
                    },
                    Err(x) => evaluation_ends(t, env) && eval_outcome(t, env) == Err::<ValueModel, EvalError>(x),
                },
                _ => evaluation_ends(t, env) && eval_outcome(t, env) == Err::<ValueModel, EvalError>(EvalError::NotCallable),
            }
        }),
{
    let t = TermModel::Apply(Box::new(arg), Box::new(func));
    let df = choose|d: nat| evaluate(func, env, d) != Err::<ValueModel, EvalError>(EvalError::DepthExceeded);
    lemma_eval_outcome(func, env, df);
    match eval_outcome(func, env) {
        Ok(ValueModel::Closure(captured, p, body)) => {
            if evaluation_ends(arg, env) {
                let da = choose|d: nat| evaluate(arg, env, d) != Err::<ValueModel, EvalError>(EvalError::DepthExceeded);
                lemma_eval_outcome(arg, env, da);
                let m = if df <= da { da } else { df };
                lemma_evaluate_depth(func, env, df, m);
                lemma_evaluate_depth(arg, env, da, m);
                match eval_outcome(arg, env) {
                    Ok(a) => {
                        let inner = env.union_prefer_right(captured).insert(p, a);
                        if evaluation_ends(body, inner) {
                            let db = choose|d: nat| evaluate(body, inner, d) != Err::<ValueModel, EvalError>(EvalError::DepthExceeded);
                            let big = if m <= db { db + 1 } else { m + 1 };
                            lemma_evaluate_depth(func, env, df, big as nat);
                            lemma_evaluate_depth(arg, env, da, big as nat);
                            lemma_evaluate_depth(body, inner, db, (big - 1) as nat);
                            lemma_eval_outcome(body, inner, db);
                            lemma_eval_outcome(t, env, big as nat);
                        }
                        if evaluation_ends(t, env) {
                            let dt = choose|d: nat| evaluate(t, env, d) != Err::<ValueModel, EvalError>(EvalError::DepthExceeded);
                            lemma_eval_outcome(t, env, dt);
                            if evaluate(func, env, dt) != Err::<ValueModel, EvalError>(EvalError::DepthExceeded) {
                                lemma_eval_outcome(func, env, dt);
                            }
                            if evaluate(arg, env, dt) != Err::<ValueModel, EvalError>(EvalError::DepthExceeded) {
                                lemma_eval_outcome(arg, env, dt);
                            }
                            lemma_eval_outcome(body, inner, (dt - 1) as nat);
                        }
                    },
                    Err(x) => {
                        lemma_eval_outcome(t, env, m);
                    },
                }
            }
        },
        _ => {
            lemma_eval_outcome(t, env, df);
        },
    }
}

/// The view of an evaluation result.
pub open spec fn value_result(r: Result<Value, EvalError>) -> Result<ValueModel, EvalError> {
    match r {
        Ok(v) => Ok(v@),
        Err(e) => Err(e),
    }
}

/// The value of `node` in `env`. A lambda evaluates to a closure holding a
/// copy of `env`; an application evaluates its body in `env` overlaid by the
/// closure's captured bindings and then by the parameter. `env` itself is
/// never changed. An assignment evaluates to `Value::Assignm`.
///
/// The result is the unbounded outcome of the evaluation, unless that needs
/// more than `u64::MAX` nested applications, where `DepthExceeded` is
/// returned; the call stack runs out long before.
pub fn eval(node: &Term, env: &EvalEnv) -> (r: Result<Value, EvalError>)
    ensures
        value_result(r) != Err::<ValueModel, EvalError>(EvalError::DepthExceeded) ==> evaluation_ends(node@, env@)
            && value_result(r) == eval_outcome(node@, env@),
        value_result(r) == Err::<ValueModel, EvalError>(EvalError::DepthExceeded) ==> forall|d: nat|
            d <= u64::MAX ==> evaluate(node@, env@, d) == Err::<ValueModel, EvalError>(EvalError::DepthExceeded),
        value_result(r) == evaluate(node@, env@, u64::MAX as nat),
{
    let r = eval_within(node, env, u64::MAX);
    proof {
        if value_result(r) != Err::<ValueModel, EvalError>(EvalError::DepthExceeded) {
            lemma_eval_outcome(node@, env@, u64::MAX as nat);
        } else {
            assert forall|d: nat| d <= u64::MAX implies evaluate(node@, env@, d) == Err::<ValueModel, EvalError>(
                EvalError::DepthExceeded,
            ) by {
                if evaluate(node@, env@, d) != Err::<ValueModel, EvalError>(EvalError::DepthExceeded) {
                    lemma_evaluate_depth(node@, env@, d, u64::MAX as nat);
                }
            }
        }
    }
    r
}

fn eval_within(node: &Term, env: &EvalEnv, depth: u64) -> (r: Result<Value, EvalError>)
    ensures
        value_result(r) == evaluate(node@, env@, depth as nat),
    decreases depth, node, 1nat,
{
    match node {
        Term::Var(n) => match env.get(n) {
            Some(v) => Ok(v.clone()),
            None => Err(EvalError::UnboundVariable),
        },
        Term::Lambda { var_name, expr } => Ok(
            Value::Closure { env: env.clone(), name: var_name.clone(), func_term: Box::new((**expr).clone()) },
        ),
        Term::Apply { var_term, function } => match eval_within(function, env, depth)? {
            Value::Closure { env: captured, name, func_term } => {
                let arg = eval_within(var_term, env, depth)?;
                if depth == 0 {
                    return Err(EvalError::DepthExceeded);
                }
                let inner = env.application_env(&captured, &name, arg);
                eval_within(&func_term, &inner, depth - 1)
            },
            _ => Err(EvalError::NotCallable),
        },
        Term::NumConst(n) => Ok(Value::Num(*n)),
        Term::BoolConst(b) => Ok(Value::Bool(*b)),
        Term::MathOp { opr, t1, t2 } => {
            let a = eval_within(t1, env, depth)?;
            let b = eval_within(t2, env, depth)?;
            eval_bin_math_op(opr, a, b)
        },
        Term::Equals { left_side, right_side } => {
            let a = eval_within(left_side, env, depth)?;
            let b = eval_within(right_side, env, depth)?;
            eval_equals(a, b)
        },
        Term::NotEquals { left_side, right_side } => {
            let a = eval_within(left_side, env, depth)?;
            let b = eval_within(right_side, env, depth)?;
            eval_not_equals(a, b)
        },
        Term::IfStmt { test, then_body, else_body } => {
            let c = eval_within(test, env, depth)?;
            eval_if(c, then_body, else_body, env, depth, Ghost(*node))
        },
        Term::Assignm { var_name, expr } => {
            let v = eval_within(expr, env, depth)?;
            Ok(Value::Assignm { name: var_name.clone(), val: Box::new(v) })
        },
    }
}

fn eval_bin_math_op(opr: &BinMathOp, t1: Value, t2: Value) -> (r: Result<Value, EvalError>)
    ensures
        value_result(r) == math_value(*opr, t1@, t2@),
{
    match (t1, t2) {
        (Value::Num(v1), Value::Num(v2)) => match opr {
            BinMathOp::Add => {
                assert(v1.wrapping_add(v2) == ((v1 + v2) % u64_range()) as u64);
                Ok(Value::Num(v1.wrapping_add(v2)))
            },
            BinMathOp::Minus => {
                assert(v1.wrapping_sub(v2) == ((v1 - v2) % u64_range()) as u64);
                Ok(Value::Num(v1.wrapping_sub(v2)))
            },
            BinMathOp::Multiply => Ok(Value::Num(v1.wrapping_mul(v2))),
            BinMathOp::Divide => if v2 == 0 {
                Err(EvalError::DivisionByZero)
            } else {
                Ok(Value::Num(v1 / v2))
            },
        },
        _ => Err(EvalError::InvalidMathOperands),
    }
}

fn eval_equals(t1: Value, t2: Value) -> (r: Result<Value, EvalError>)
    ensures
        value_result(r) == compare_values(t1@, t2@, false),
{
    match (t1, t2) {
        (Value::Num(num1), Value::Num(num2)) => Ok(Value::Bool(num1 == num2)),
        (Value::Bool(bool1), Value::Bool(bool2)) => Ok(Value::Bool(bool1 == bool2)),
        _ => Err(EvalError::UnsupportedEquality),
    }
}

fn eval_not_equals(t1: Value, t2: Value) -> (r: Result<Value, EvalError>)
    ensures
        value_result(r) == compare_values(t1@, t2@, true),
{
    match (t1, t2) {
        (Value::Num(num1), Value::Num(num2)) => Ok(Value::Bool(num1 != num2)),
        (Value::Bool(bool1), Value::Bool(bool2)) => Ok(Value::Bool(bool1 != bool2)),
        _ => Err(EvalError::UnsupportedEquality),
    }
}

/// Evaluates the branch that `test` selects; `whole` is the conditional.
fn eval_if(
    test: Value,
    then_body: &Term,
    else_body: &Term,
    env: &EvalEnv,
    depth: u64,
    Ghost(whole): Ghost<Term>,
) -> (r: Result<Value, EvalError>)
    requires
        decreases_to!(whole => *then_body),
        decreases_to!(whole => *else_body),
    ensures
        value_result(r) == match test@ {
            ValueModel::Bool(true) => evaluate(then_body@, env@, depth as nat),
            ValueModel::Bool(false) => evaluate(else_body@, env@, depth as nat),
            _ => Err(EvalError::IfConditionNotBool),
        },
    decreases depth, whole, 0nat,
{
    match test {
        Value::Bool(true) => eval_within(then_body, env, depth),
        Value::Bool(false) => eval_within(else_body, env, depth),
        _ => Err(EvalError::IfConditionNotBool),
    }
}

} // verus!
