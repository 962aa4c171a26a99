use lamcalc::ast::{BinMathOp, Term};
use lamcalc::eval::{eval, EvalError};
use lamcalc::grammar::ErrorKind;
use lamcalc::parse::{statement, term};
use lamcalc::program::{eval_program, exec, type_check_program, Failure};
use lamcalc::type_check::{type_check, TermType, TyEnv, TypeError};
use lamcalc::value::{EvalEnv, Value};

fn parsed(text: &str) -> Term {
    let (rest, t) = term(text).expect("parses");
    assert_eq!(rest, "");
    t
}

fn statements(lines: &[&str]) -> Vec<Term> {
    lines
        .iter()
        .map(|l| {
            let (rest, t) = statement(l).expect("parses");
            assert_eq!(rest, "");
            t
        })
        .collect()
}

#[test]
fn precedence_of_operators() {
    let t = parsed("1 + 2 * 3 - 4");
    let expected = Term::MathOp {
        opr: BinMathOp::Minus,
        t1: Box::new(Term::MathOp {
            opr: BinMathOp::Add,
            t1: Box::new(Term::NumConst(1)),
            t2: Box::new(Term::MathOp {
                opr: BinMathOp::Multiply,
                t1: Box::new(Term::NumConst(2)),
                t2: Box::new(Term::NumConst(3)),
            }),
        }),
        t2: Box::new(Term::NumConst(4)),
    };
    assert_eq!(t, expected);
    assert_eq!(eval(&t, &EvalEnv::new()), Ok(Value::Num(3)));
}

#[test]
fn application_is_left_associative() {
    let lam = |p: &str| Term::Lambda { var_name: p.to_string(), expr: Box::new(Term::Var(p.to_string())) };
    let t = parsed("a b c");
    let expected = Term::Apply {
        var_term: Box::new(Term::Var("c".to_string())),
        function: Box::new(Term::Apply {
            var_term: Box::new(Term::Var("b".to_string())),
            function: Box::new(Term::Var("a".to_string())),
        }),
    };
    assert_eq!(t, expected);
    // with a, b and c bound to lambdas, (a b) c is the identity applied twice
    let mut env = EvalEnv::new();
    for name in ["a", "b", "c"] {
        let v = eval(&lam(name), &EvalEnv::new()).unwrap();
        env.insert(name.to_string(), v);
    }
    let r = eval(&t, &env).unwrap();
    match r {
        Value::Closure { name, .. } => assert_eq!(name, "c"),
        other => panic!("not a closure: {:?}", other),
    }
}

#[test]
fn arithmetic_division() {
    assert_eq!(eval(&parsed("6 / 3"), &EvalEnv::new()), Ok(Value::Num(2)));
    assert_eq!(eval(&parsed("5 / 0"), &EvalEnv::new()), Err(EvalError::DivisionByZero));
}

#[test]
fn equality_typing() {
    assert_eq!(type_check(&parsed("true == 1"), &TyEnv::new()), Err(TypeError::EqualityTypeError));
    assert_eq!(eval(&parsed("1 != true"), &EvalEnv::new()), Err(EvalError::UnsupportedEquality));
}

#[test]
fn conditionals() {
    let t = parsed("if 1 == 1 then 10 else 20 endif");
    assert_eq!(eval(&t, &EvalEnv::new()), Ok(Value::Num(10)));
    let bad = parsed("if 3 then 1 else 2 endif");
    assert_eq!(type_check(&bad, &TyEnv::new()), Err(TypeError::IfConditionNotBool));
    assert_eq!(eval(&bad, &EvalEnv::new()), Err(EvalError::IfConditionNotBool));
}

#[test]
fn closure_captures_by_value() {
    let terms = statements(&["x := 5", "f := (\\y . y + x)", "x := 100", "f 1"]);
    assert!(type_check_program(&terms).is_ok());
    let (out, failure) = eval_program(&terms);
    assert_eq!(out, vec![Value::Num(6)]);
    assert_eq!(failure, None);
}

#[test]
fn evaluation_is_repeatable() {
    let mut env = EvalEnv::new();
    env.insert("k".to_string(), Value::Num(7));
    let t = parsed("(\\y . y * k) 3 + k");
    let first = eval(&t, &env);
    let second = eval(&t, &env);
    assert_eq!(first, Ok(Value::Num(28)));
    assert_eq!(first, second);
    let terms = vec![Term::Assignm { var_name: "k".to_string(), expr: Box::new(Term::NumConst(7)) }, t.clone(), t];
    let (out, failure) = eval_program(&terms);
    assert_eq!(out, vec![Value::Num(28), Value::Num(28)]);
    assert_eq!(failure, None);
}

#[test]
fn variable_scoping() {
    let v1 = parsed("v1");
    assert_eq!(type_check(&v1, &TyEnv::new()), Err(TypeError::VarNotBound));
    assert_eq!(eval(&v1, &EvalEnv::new()), Err(EvalError::UnboundVariable));
    let terms = statements(&["v1 := 1", "v1"]);
    let env = type_check_program(&terms).unwrap();
    assert_eq!(type_check(&v1, &env), Ok(TermType::Int));
    let (out, failure) = eval_program(&terms);
    assert_eq!(out, vec![Value::Num(1)]);
    assert_eq!(failure, None);
}

#[test]
fn exec_reports_each_stage() {
    let r = exec("1 + 1");
    assert_eq!(r.printed, vec![Value::Num(2)]);
    assert!(r.failure.is_none());
    let r = exec("1 + true");
    assert!(r.printed.is_empty());
    assert_eq!(r.failure, Some(Failure::Type(TypeError::MathTypeError)));
    let r = exec("1 / 0");
    assert!(r.printed.is_empty());
    assert_eq!(r.failure, Some(Failure::Eval(EvalError::DivisionByZero)));
    let r = exec("1 + )");
    assert!(r.printed.is_empty());
    assert!(matches!(r.failure, Some(Failure::Syntax(_))));
    let r = exec("x := 3 if x == 3 then 1 else 2 endif");
    assert!(r.printed.is_empty());
    assert!(matches!(r.failure, Some(Failure::Syntax(ref e)) if e.expected == ErrorKind::LineEnd));
    let r = exec("1\n2 / 0\n3\n");
    assert_eq!(r.printed, vec![Value::Num(1)]);
    assert_eq!(r.failure, Some(Failure::Eval(EvalError::DivisionByZero)));
}

#[test]
fn program_one_binding_per_line() {
    let r = exec("v1 := 1\nv1\n");
    assert_eq!(r.printed, vec![Value::Num(1)]);
    assert!(r.failure.is_none());
}

#[test]
fn program_closure_captures_by_value() {
    let r = exec("x := 5\nf := (\\y . y + x)\nx := 100\nf 1\n");
    assert_eq!(r.printed, vec![Value::Num(6)]);
    assert!(r.failure.is_none());
}

#[test]
fn program_application_is_left_associative() {
    let r = exec("a := (\\f . (\\x . 10))\nb := (\\g . 20)\nc := (\\h . 30)\na b c\n");
    assert_eq!(r.printed, vec![Value::Num(10)]);
    assert!(r.failure.is_none());
}

#[test]
fn program_identifier_starting_with_reserved_word() {
    let r = exec("iffy := 1\niffy\n");
    assert_eq!(r.printed, vec![Value::Num(1)]);
    assert!(r.failure.is_none());
}

#[test]
fn closures_compare_environments_as_mappings() {
    let lam = Term::Lambda { var_name: "y".to_string(), expr: Box::new(Term::Var("a".to_string())) };
    let mut e1 = EvalEnv::new();
    e1.insert("a".to_string(), Value::Num(1));
    e1.insert("b".to_string(), Value::Bool(true));
    let mut e2 = EvalEnv::new();
    e2.insert("b".to_string(), Value::Bool(true));
    e2.insert("a".to_string(), Value::Num(1));
    assert_eq!(eval(&lam, &e1), eval(&lam, &e2));
    assert_eq!(e1, e2);
    e2.insert("a".to_string(), Value::Num(2));
    assert_ne!(eval(&lam, &e1), eval(&lam, &e2));
}
