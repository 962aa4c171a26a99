use lamcalc::ast::{BinMathOp, Term};
use lamcalc::eval::{eval, EvalError};
use lamcalc::value::{EvalEnv, Value};

const EVAL_MATH_ERROR: &str = "Invalid math operation. Both sides must evaluate to numbers";
const EVAL_BOOL_ERROR: &str =
    "Both terms in equality must be of the same type. Equality on functions are not supported";
const EVAL_IF_COND_REQUIRES_BOOL: &str = "test condition must be a boolean";

fn run(t: &Term, env: &EvalEnv) -> Result<Value, String> {
    eval(t, env).map_err(|e| e.message().to_string())
}

fn num(n: u64) -> Box<Term> {
    Box::new(Term::NumConst(n))
}

fn math(opr: BinMathOp, a: u64, b: u64) -> Term {
    Term::MathOp { opr, t1: num(a), t2: num(b) }
}

#[test]
fn test_ev_const_vals() {
    let ast_num = Term::NumConst(1);
    let env = EvalEnv::new();
    assert_eq!(Ok(Value::Num(1)), run(&ast_num, &env));

    let ast_bool = Term::BoolConst(true);
    assert_eq!(Ok(Value::Bool(true)), run(&ast_bool, &env));
}

#[test]
fn test_mathops() {
    let add_expr = math(BinMathOp::Add, 4, 6);
    let sub_expr = math(BinMathOp::Minus, 6, 4);
    let mul_expr = math(BinMathOp::Multiply, 6, 4);
    let div_expr = math(BinMathOp::Divide, 6, 3);
    let incorrect_1 = Term::MathOp {
        opr: BinMathOp::Divide,
        t1: Box::new(Term::BoolConst(true)),
        t2: num(3),
    };
    let incorrect_2 = Term::MathOp {
        opr: BinMathOp::Divide,
        t1: num(3),
        t2: Box::new(Term::BoolConst(true)),
    };

    let env = EvalEnv::new();
    assert_eq!(Ok(Value::Num(2)), run(&sub_expr, &env));
    assert_eq!(Ok(Value::Num(10)), run(&add_expr, &env));
    assert_eq!(Ok(Value::Num(24)), run(&mul_expr, &env));
    assert_eq!(Ok(Value::Num(2)), run(&div_expr, &env));
    assert_eq!(Err(EVAL_MATH_ERROR.to_string()), run(&incorrect_1, &env));
    assert_eq!(Err(EVAL_MATH_ERROR.to_string()), run(&incorrect_2, &env));
    assert_eq!(Err(EvalError::InvalidMathOperands), eval(&incorrect_1, &env));
}

#[test]
fn test_boolops() {
    let eq_expr_1 = Term::Equals { left_side: num(4), right_side: num(6) };
    let eq_expr_2 = Term::Equals { left_side: num(6), right_side: num(6) };
    let eq_expr_3 = Term::NotEquals {
        left_side: Box::new(Term::BoolConst(false)),
        right_side: Box::new(Term::BoolConst(false)),
    };
    let eq_expr_4 = Term::NotEquals {
        left_side: Box::new(Term::BoolConst(true)),
        right_side: Box::new(Term::BoolConst(false)),
    };
    let eq_expr_5 = Term::NotEquals {
        left_side: num(1),
        right_side: Box::new(Term::BoolConst(false)),
    };
    let env = EvalEnv::new();
    assert_eq!(Ok(Value::Bool(false)), run(&eq_expr_1, &env));
    assert_eq!(Ok(Value::Bool(true)), run(&eq_expr_2, &env));
    assert_eq!(Ok(Value::Bool(false)), run(&eq_expr_3, &env));
    assert_eq!(Ok(Value::Bool(true)), run(&eq_expr_4, &env));
    assert_eq!(Err(EVAL_BOOL_ERROR.to_string()), run(&eq_expr_5, &env));
    assert_eq!(Err(EvalError::UnsupportedEquality), eval(&eq_expr_5, &env));
}

#[test]
fn test_if() {
    let if_1 = Term::IfStmt {
        test: Box::new(Term::BoolConst(true)),
        then_body: num(6),
        else_body: num(7),
    };
    let if_2 = Term::IfStmt { test: num(1), then_body: num(6), else_body: num(7) };
    let if_3 = Term::IfStmt {
        test: Box::new(Term::BoolConst(false)),
        then_body: num(6),
        else_body: num(7),
    };
    let env = EvalEnv::new();
    assert_eq!(Ok(Value::Num(6)), run(&if_1, &env));
    assert_eq!(Err(EVAL_IF_COND_REQUIRES_BOOL.to_string()), run(&if_2, &env));
    assert_eq!(Ok(Value::Num(7)), run(&if_3, &env));
}

#[test]
fn eval_wraps_on_overflow() {
    let env = EvalEnv::new();
    assert_eq!(Ok(Value::Num(0)), eval(&math(BinMathOp::Add, u64::MAX, 1), &env));
    assert_eq!(Ok(Value::Num(u64::MAX)), eval(&math(BinMathOp::Minus, 1, 2), &env));
    assert_eq!(Ok(Value::Num(u64::MAX - 1)), eval(&math(BinMathOp::Multiply, u64::MAX, 2), &env));
}

#[test]
fn eval_division_by_zero_fails() {
    let env = EvalEnv::new();
    assert_eq!(Err(EvalError::DivisionByZero), eval(&math(BinMathOp::Divide, 5, 0), &env));
    assert_eq!(Ok(Value::Num(3)), eval(&math(BinMathOp::Divide, 7, 2), &env));
}

#[test]
fn eval_unbound_variable_fails() {
    let env = EvalEnv::new();
    assert_eq!(Err(EvalError::UnboundVariable), eval(&Term::Var("v1".to_string()), &env));
}

#[test]
fn eval_applying_a_number_fails() {
    let env = EvalEnv::new();
    let t = Term::Apply { var_term: num(1), function: num(2) };
    assert_eq!(Err(EvalError::NotCallable), eval(&t, &env));
}

#[test]
fn eval_lambda_captures_environment() {
    let mut env = EvalEnv::new();
    env.insert("x".to_string(), Value::Num(5));
    let body = Term::Var("x".to_string());
    let lam = Term::Lambda { var_name: "y".to_string(), expr: Box::new(body.clone()) };
    match eval(&lam, &env) {
        Ok(Value::Closure { env: captured, name, func_term }) => {
            assert_eq!(name, "y");
            assert_eq!(*func_term, body);
            assert_eq!(captured.get(&"x".to_string()), Some(&Value::Num(5)));
        }
        other => panic!("not a closure: {:?}", other),
    }
}

#[test]
fn eval_parameter_hides_captured_binding() {
    // (\x . x) applied to 3 in an environment where x is 9
    let mut env = EvalEnv::new();
    env.insert("x".to_string(), Value::Num(9));
    let lam = Term::Lambda { var_name: "x".to_string(), expr: Box::new(Term::Var("x".to_string())) };
    let t = Term::Apply { var_term: num(3), function: Box::new(lam) };
    assert_eq!(Ok(Value::Num(3)), eval(&t, &env));
}

#[test]
fn eval_assignment_wraps_value() {
    let env = EvalEnv::new();
    let t = Term::Assignm { var_name: "a".to_string(), expr: Box::new(math(BinMathOp::Add, 1, 1)) };
    assert_eq!(
        Ok(Value::Assignm { name: "a".to_string(), val: Box::new(Value::Num(2)) }),
        eval(&t, &env)
    );
}

#[test]
fn env_insert_replaces_binding() {
    let mut env = EvalEnv::new();
    env.insert("x".to_string(), Value::Num(1));
    env.insert("x".to_string(), Value::Num(2));
    assert_eq!(env.bindings.len(), 1);
    assert_eq!(env.get(&"x".to_string()), Some(&Value::Num(2)));
    assert_eq!(env.get(&"y".to_string()), None);
}
