use lamcalc::ast::BinMathOp::{Add, Minus, Multiply};
use lamcalc::ast::Term::{self, Apply, Assignm, BoolConst, Equals, IfStmt, Lambda, MathOp, NumConst, Var};
use lamcalc::grammar::ErrorKind;
use lamcalc::parse::{
    addend, application, assignment, boolean, lambda, number, parse_file, statement, term, terminal, variable,
    SyntaxError,
};

fn ok(rest: &str, t: Term) -> Result<(String, Term), SyntaxError> {
    Ok((rest.to_string(), t))
}

fn err(remaining: &str, expected: ErrorKind) -> Result<(String, Term), SyntaxError> {
    Err(SyntaxError { remaining: remaining.to_string(), expected })
}

#[test]
fn test_variable() {
    assert_eq!(variable("_things{}"), ok("{}", Var("_things".to_string())));
    assert_eq!(variable("_things _stuff"), ok(" _stuff", Var("_things".to_string())));
    assert_eq!(variable("1_things::/"), err("1_things::/", ErrorKind::Identifier));
    assert_eq!(variable("endif"), err("endif", ErrorKind::Reserved));
}

#[test]
fn test_number() {
    assert_eq!(number("13potato"), ok("potato", NumConst(13)));
    assert_eq!(number("potato13"), err("potato13", ErrorKind::Digit));
}

#[test]
fn test_boolean() {
    assert_eq!(boolean("truefalse"), ok("false", BoolConst(true)));
    assert_eq!(boolean("falsefalse"), ok("false", BoolConst(false)));
    assert_eq!(boolean("falsfalse"), err("falsfalse", ErrorKind::Alt));
}

#[test]
fn test_lambda() {
    assert_eq!(
        lambda(r"\ x . x + 1"),
        ok(
            "",
            Lambda {
                var_name: "x".to_string(),
                expr: Box::new(MathOp {
                    opr: Add,
                    t1: Box::new(Var("x".to_string())),
                    t2: Box::new(NumConst(1))
                })
            }
        )
    );
}

#[test]
fn test_term() {
    assert_eq!(
        term(" 1 + 2 - 3  "),
        ok(
            "",
            MathOp {
                opr: Minus,
                t1: Box::new(MathOp { opr: Add, t1: Box::new(NumConst(1)), t2: Box::new(NumConst(2)) }),
                t2: Box::new(NumConst(3))
            }
        )
    );

    assert_eq!(
        term("1 + 2 * 3 - 4  "),
        ok(
            "",
            MathOp {
                opr: Minus,
                t1: Box::new(MathOp {
                    opr: Add,
                    t1: Box::new(NumConst(1)),
                    t2: Box::new(MathOp { opr: Multiply, t1: Box::new(NumConst(2)), t2: Box::new(NumConst(3)) })
                }),
                t2: Box::new(NumConst(4))
            }
        )
    );

    assert_eq!(
        term("1 + 2 == 3 - 4  "),
        ok(
            "",
            Equals {
                left_side: Box::new(MathOp { opr: Add, t1: Box::new(NumConst(1)), t2: Box::new(NumConst(2)) }),
                right_side: Box::new(MathOp { opr: Minus, t1: Box::new(NumConst(3)), t2: Box::new(NumConst(4)) })
            }
        )
    );

    assert_eq!(
        term("if 1 == 2 then false else true endif  "),
        ok(
            "",
            IfStmt {
                test: Box::new(Equals { left_side: Box::new(NumConst(1)), right_side: Box::new(NumConst(2)) }),
                then_body: Box::new(BoolConst(false)),
                else_body: Box::new(BoolConst(true))
            }
        )
    );
}

#[test]
fn test_apply() {
    assert_eq!(
        term("a b c + 5"),
        ok(
            "",
            MathOp {
                opr: Add,
                t1: Box::new(Apply {
                    var_term: Box::new(Var("c".to_string())),
                    function: Box::new(Apply {
                        var_term: Box::new(Var("b".to_string())),
                        function: Box::new(Var("a".to_string()))
                    })
                }),
                t2: Box::new(NumConst(5))
            }
        )
    );
}

#[test]
fn test_assignment() {
    assert_eq!(
        assignment("_a := 1 + 1"),
        ok(
            "",
            Assignm {
                var_name: "_a".to_string(),
                expr: Box::new(MathOp { opr: Add, t1: Box::new(NumConst(1)), t2: Box::new(NumConst(1)) })
            }
        )
    );
}

#[test]
fn number_too_large_fails() {
    assert_eq!(number("18446744073709551615"), ok("", NumConst(u64::MAX)));
    assert_eq!(number("18446744073709551616 x"), err("18446744073709551616 x", ErrorKind::Overflow));
}

#[test]
fn reserved_word_only_when_whole() {
    assert_eq!(variable("iffy"), ok("", Var("iffy".to_string())));
    assert_eq!(variable("if x"), err("if x", ErrorKind::Reserved));
}

#[test]
fn identifiers_are_ascii() {
    assert_eq!(variable("Abc9_ é"), ok(" é", Var("Abc9_".to_string())));
    assert_eq!(variable("é"), err("é", ErrorKind::Identifier));
}

#[test]
fn parenthesised_lambda_is_a_terminal() {
    assert_eq!(
        terminal("( \\y . y ) z"),
        ok(" z", Lambda { var_name: "y".to_string(), expr: Box::new(Var("y".to_string())) })
    );
    assert_eq!(terminal("\\y . y"), err("\\y . y", ErrorKind::Alt));
    assert_eq!(terminal("(1 + 2"), err("(1 + 2", ErrorKind::Alt));
}

#[test]
fn application_folds_left() {
    assert_eq!(
        application("f 1 2"),
        ok(
            "",
            Apply {
                var_term: Box::new(NumConst(2)),
                function: Box::new(Apply { var_term: Box::new(NumConst(1)), function: Box::new(Var("f".to_string())) })
            }
        )
    );
}

#[test]
fn dangling_operator_is_left_over() {
    assert_eq!(
        addend("2 * 3 * )"),
        ok("* )", MathOp { opr: Multiply, t1: Box::new(NumConst(2)), t2: Box::new(NumConst(3)) })
    );
    assert_eq!(term("1 == )"), ok("== )", NumConst(1)));
}

#[test]
fn statement_prefers_assignment() {
    assert_eq!(
        statement("x := 1"),
        ok("", Assignm { var_name: "x".to_string(), expr: Box::new(NumConst(1)) })
    );
    assert_eq!(statement("x == 1"), ok("", Equals { left_side: Box::new(Var("x".to_string())), right_side: Box::new(NumConst(1)) }));
    assert_eq!(statement(")"), err(")", ErrorKind::Alt));
}

#[test]
fn assignment_without_operator_fails() {
    assert_eq!(assignment("x = 1"), err("= 1", ErrorKind::Tag));
}

#[test]
fn parse_file_reads_one_statement_per_line() {
    assert_eq!(parse_file("  "), Ok(vec![]));
    assert_eq!(
        parse_file("x := 1 (x)"),
        Ok(vec![Assignm {
            var_name: "x".to_string(),
            expr: Box::new(Apply { var_term: Box::new(Var("x".to_string())), function: Box::new(NumConst(1)) })
        }])
    );
    assert_eq!(
        parse_file("x := 1\n\n  x  \r\n"),
        Ok(vec![
            Assignm { var_name: "x".to_string(), expr: Box::new(NumConst(1)) },
            Var("x".to_string())
        ])
    );
    assert_eq!(
        parse_file("1 + 2 )\n3"),
        Err(SyntaxError { remaining: ")\n3".to_string(), expected: ErrorKind::LineEnd })
    );
    assert_eq!(
        parse_file("1\n)\n"),
        Err(SyntaxError { remaining: ")\n".to_string(), expected: ErrorKind::Alt })
    );
}
