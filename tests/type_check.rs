use lamcalc::ast::{BinMathOp, Term};
use lamcalc::type_check::{type_check, TermType, TyEnv, TypeError};

fn check(t: &Term, te: &TyEnv) -> Result<TermType, String> {
    type_check(t, te).map_err(|e| e.message().to_string())
}

#[test]
fn test_num_const() {
    let te = TyEnv::new();
    let ast = Term::NumConst(4);
    assert_eq!(Ok(TermType::Int), check(&ast, &te));
}

#[test]
fn test_bool_const() {
    let te = TyEnv::new();
    let ast = Term::BoolConst(false);
    assert_eq!(Ok(TermType::Bool), check(&ast, &te));
}

#[test]
fn test_bool_bin() {
    let te = TyEnv::new();
    let ast = Term::Equals {
        left_side: Box::new(Term::BoolConst(false)),
        right_side: Box::new(Term::BoolConst(false)),
    };
    assert_eq!(Ok(TermType::Bool), check(&ast, &te));
}

#[test]
fn test_bool_bin_int() {
    let te = TyEnv::new();
    let ast = Term::Equals {
        left_side: Box::new(Term::NumConst(5)),
        right_side: Box::new(Term::NumConst(6)),
    };
    assert_eq!(Ok(TermType::Bool), check(&ast, &te));
}

#[test]
fn test_int_bin_int() {
    let te = TyEnv::new();
    let ast = Term::MathOp {
        opr: BinMathOp::Add,
        t1: Box::new(Term::NumConst(5)),
        t2: Box::new(Term::NumConst(6)),
    };
    assert_eq!(Ok(TermType::Int), check(&ast, &te));
}

#[test]
fn test_int_bin_int_nested() {
    let te = TyEnv::new();
    let ast = Term::MathOp {
        opr: BinMathOp::Minus,
        t1: Box::new(Term::NumConst(5)),
        t2: Box::new(Term::MathOp {
            opr: BinMathOp::Multiply,
            t1: Box::new(Term::MathOp {
                opr: BinMathOp::Divide,
                t1: Box::new(Term::NumConst(24)),
                t2: Box::new(Term::NumConst(8)),
            }),
            t2: Box::new(Term::NumConst(8)),
        }),
    };
    assert_eq!(Ok(TermType::Int), check(&ast, &te));
}

#[test]
fn test_bool_bin_nested() {
    let te = TyEnv::new();
    let ast = Term::NotEquals {
        left_side: Box::new(Term::BoolConst(false)),
        right_side: Box::new(Term::Equals {
            left_side: Box::new(Term::NumConst(4)),
            right_side: Box::new(Term::NumConst(1000)),
        }),
    };
    assert_eq!(Ok(TermType::Bool), check(&ast, &te));
}

#[test]
fn test_var_does_not_exist() {
    let te = TyEnv::new();
    let ast = Term::Var("v1".to_string());
    assert_eq!(
        Err("Variable name missing in environment".to_string()),
        check(&ast, &te)
    );
    assert_eq!(Err(TypeError::VarNotBound), type_check(&ast, &te));
}

#[test]
fn if_test_1() {
    let te = TyEnv::new();
    let ast = Term::IfStmt {
        test: Box::new(Term::BoolConst(true)),
        then_body: Box::new(Term::NumConst(1)),
        else_body: Box::new(Term::NumConst(8)),
    };
    assert_eq!(Ok(TermType::Int), check(&ast, &te));
}

#[test]
fn if_test_2() {
    let te = TyEnv::new();
    let ast = Term::IfStmt {
        test: Box::new(Term::NumConst(9)),
        then_body: Box::new(Term::NumConst(1)),
        else_body: Box::new(Term::NumConst(8)),
    };
    assert_eq!(
        Err("Condition to if must be a boolean".to_string()),
        check(&ast, &te)
    );
}

#[test]
fn test_var_exists() {
    let mut te = TyEnv::new();
    te.insert("v1".to_string(), TermType::Int);
    let ast = Term::Var("v1".to_string());
    assert_eq!(Ok(TermType::Int), check(&ast, &te));
}

#[test]
fn test_simple_lambda_1() {
    let math_func = Term::MathOp {
        opr: BinMathOp::Add,
        t1: Box::new(Term::Var("v1".to_string())),
        t2: Box::new(Term::NumConst(6)),
    };
    let math_func2 = math_func.clone();

    let te = TyEnv::new();
    let ast = Term::Lambda { var_name: "v1".to_string(), expr: Box::new(math_func) };

    assert_eq!(
        Ok(TermType::Func {
            env: TyEnv::new(),
            name: "v1".to_string(),
            func_term: Box::new(math_func2),
        }),
        check(&ast, &te)
    );
}

#[test]
fn test_apply_1() {
    let math_expr = Term::MathOp {
        opr: BinMathOp::Add,
        t1: Box::new(Term::Var("v1".to_string())),
        t2: Box::new(Term::NumConst(6)),
    };
    let math_func = Term::Lambda { var_name: "v1".to_string(), expr: Box::new(math_expr) };

    let te = TyEnv::new();
    let ast = Term::Apply { var_term: Box::new(Term::NumConst(1)), function: Box::new(math_func) };

    assert_eq!(Ok(TermType::Int), check(&ast, &te));
}

/// Overrides existing v1
#[test]
fn test_apply_2() {
    let math_expr = Term::MathOp {
        opr: BinMathOp::Add,
        t1: Box::new(Term::Var("v1".to_string())),
        t2: Box::new(Term::NumConst(6)),
    };
    let math_func = Term::Lambda { var_name: "v1".to_string(), expr: Box::new(math_expr) };

    let mut te = TyEnv::new();
    te.insert("v1".to_string(), TermType::Bool);

    let ast = Term::Apply { var_term: Box::new(Term::NumConst(1)), function: Box::new(math_func) };

    assert_eq!(Ok(TermType::Int), check(&ast, &te));
}

#[test]
fn type_errors_each_kind() {
    let te = TyEnv::new();
    let apply_num = Term::Apply { var_term: Box::new(Term::NumConst(1)), function: Box::new(Term::NumConst(2)) };
    assert_eq!(Err(TypeError::NotAFunction), type_check(&apply_num, &te));
    let add_bool = Term::MathOp {
        opr: BinMathOp::Add,
        t1: Box::new(Term::BoolConst(true)),
        t2: Box::new(Term::NumConst(2)),
    };
    assert_eq!(Err(TypeError::MathTypeError), type_check(&add_bool, &te));
    let branches = Term::IfStmt {
        test: Box::new(Term::BoolConst(true)),
        then_body: Box::new(Term::NumConst(1)),
        else_body: Box::new(Term::BoolConst(false)),
    };
    assert_eq!(Err(TypeError::BranchTypeMismatch), type_check(&branches, &te));
    let lam = Term::Lambda { var_name: "x".to_string(), expr: Box::new(Term::Var("x".to_string())) };
    let cmp_funcs = Term::Equals { left_side: Box::new(lam.clone()), right_side: Box::new(lam) };
    assert_eq!(Err(TypeError::EqualityTypeError), type_check(&cmp_funcs, &te));
}

#[test]
fn func_types_compare_environments_as_mappings() {
    let body = Term::Var("a".to_string());
    let mut e1 = TyEnv::new();
    e1.insert("a".to_string(), TermType::Int);
    e1.insert("b".to_string(), TermType::Bool);
    let mut e2 = TyEnv::new();
    e2.insert("b".to_string(), TermType::Bool);
    e2.insert("a".to_string(), TermType::Int);
    let f1 = TermType::Func { env: e1, name: "p".to_string(), func_term: Box::new(body.clone()) };
    let f2 = TermType::Func { env: e2, name: "p".to_string(), func_term: Box::new(body.clone()) };
    assert_eq!(f1, f2);
    let f3 = TermType::Func { env: TyEnv::new(), name: "p".to_string(), func_term: Box::new(body) };
    assert_ne!(f1, f3);
}

#[test]
fn lambda_body_checked_per_call_site() {
    // if true then (\x . x) 1 else (\x . x) 2 endif : the same lambda body at two calls
    let id = Term::Lambda { var_name: "x".to_string(), expr: Box::new(Term::Var("x".to_string())) };
    let t = Term::Apply { var_term: Box::new(Term::BoolConst(true)), function: Box::new(id.clone()) };
    assert_eq!(Ok(TermType::Bool), type_check(&t, &TyEnv::new()));
    let u = Term::Apply { var_term: Box::new(Term::NumConst(4)), function: Box::new(id) };
    assert_eq!(Ok(TermType::Int), type_check(&u, &TyEnv::new()));
}
