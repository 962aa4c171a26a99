//! The syntax tree shared by the parser, the type checker and the evaluator.
use vstd::prelude::*;

verus! {

/// The four arithmetic operators.
#[derive(PartialEq, Eq, Structural, Clone, Copy, Debug)]
pub enum BinMathOp {
    Add,
    Minus,
    Multiply,
    Divide,
}

/// A term of the language. Every composite node owns its children.
#[derive(Debug)]
pub enum Term {
    Var(String),
    Lambda { var_name: String, expr: Box<Term> },
    /// `function` applied to `var_term`.
    Apply { var_term: Box<Term>, function: Box<Term> },
    NumConst(u64),
    BoolConst(bool),
    MathOp { opr: BinMathOp, t1: Box<Term>, t2: Box<Term> },
    IfStmt { test: Box<Term>, then_body: Box<Term>, else_body: Box<Term> },
    Equals { left_side: Box<Term>, right_side: Box<Term> },
    NotEquals { left_side: Box<Term>, right_side: Box<Term> },
    /// A top-level binding statement.
    Assignm { var_name: String, expr: Box<Term> },
}

/// The mathematical reading of a `Term`: names are character sequences.
pub enum TermModel {
    Var(Seq<char>),
    Lambda(Seq<char>, Box<TermModel>),
    /// `Apply(argument, function)`.
    Apply(Box<TermModel>, Box<TermModel>),
    NumConst(u64),
    BoolConst(bool),
    MathOp(BinMathOp, Box<TermModel>, Box<TermModel>),
    IfStmt(Box<TermModel>, Box<TermModel>, Box<TermModel>),
    Equals(Box<TermModel>, Box<TermModel>),
    NotEquals(Box<TermModel>, Box<TermModel>),
    Assignm(Seq<char>, Box<TermModel>),
}

impl View for Term {
    type V = TermModel;

    open spec fn view(&self) -> TermModel
        decreases self,
    {
        match self {
            Term::Var(n) => TermModel::Var(n@),
            Term::Lambda { var_name, expr } => TermModel::Lambda(var_name@, Box::new((**expr)@)),
            Term::Apply { var_term, function } => TermModel::Apply(
                Box::new((**var_term)@),
                Box::new((**function)@),
            ),
            Term::NumConst(n) => TermModel::NumConst(*n),
            Term::BoolConst(b) => TermModel::BoolConst(*b),
            Term::MathOp { opr, t1, t2 } => TermModel::MathOp(
                *opr,
                Box::new((**t1)@),
                Box::new((**t2)@),
            ),
            Term::IfStmt { test, then_body, else_body } => TermModel::IfStmt(
                Box::new((**test)@),
                Box::new((**then_body)@),
                Box::new((**else_body)@),
            ),
            Term::Equals { left_side, right_side } => TermModel::Equals(
                Box::new((**left_side)@),
                Box::new((**right_side)@),
            ),
            Term::NotEquals { left_side, right_side } => TermModel::NotEquals(
                Box::new((**left_side)@),
                Box::new((**right_side)@),
            ),
            Term::Assignm { var_name, expr } => TermModel::Assignm(var_name@, Box::new((**expr)@)),
        }
    }
}

impl Clone for Term {
    fn clone(&self) -> (r: Self)
        ensures
            r@ == self@,
        decreases self,
    {
        match self {
            Term::Var(n) => Term::Var(n.clone()),
            Term::Lambda { var_name, expr } => Term::Lambda {
                var_name: var_name.clone(),
                expr: Box::new((**expr).clone()),
            },
            Term::Apply { var_term, function } => Term::Apply {
                var_term: Box::new((**var_term).clone()),
                function: Box::new((**function).clone()),
            },
            Term::NumConst(n) => Term::NumConst(*n),
            Term::BoolConst(b) => Term::BoolConst(*b),
            Term::MathOp { opr, t1, t2 } => Term::MathOp {
                opr: *opr,
                t1: Box::new((**t1).clone()),
                t2: Box::new((**t2).clone()),
            },
            Term::IfStmt { test, then_body, else_body } => Term::IfStmt {
                test: Box::new((**test).clone()),
                then_body: Box::new((**then_body).clone()),
                else_body: Box::new((**else_body).clone()),
            },
            Term::Equals { left_side, right_side } => Term::Equals {
                left_side: Box::new((**left_side).clone()),
                right_side: Box::new((**right_side).clone()),
            },
            Term::NotEquals { left_side, right_side } => Term::NotEquals {
                left_side: Box::new((**left_side).clone()),
                right_side: Box::new((**right_side).clone()),
            },
            Term::Assignm { var_name, expr } => Term::Assignm {
                var_name: var_name.clone(),
                expr: Box::new((**expr).clone()),
            },
        }
    }
}


/// Structural equality of terms, names compared by their characters.
pub fn terms_equal(a: &Term, b: &Term) -> (r: bool)
    ensures
        r == (a@ == b@),
    decreases a,
{
    match (a, b) {
        (Term::Var(x), Term::Var(y)) => *x == *y,
        (Term::Lambda { var_name: x, expr: e }, Term::Lambda { var_name: y, expr: f }) => {
            *x == *y && terms_equal(e, f)
        },
        (Term::Apply { var_term: x1, function: x2 }, Term::Apply { var_term: y1, function: y2 }) => {
            terms_equal(x1, y1) && terms_equal(x2, y2)
        },
        (Term::NumConst(x), Term::NumConst(y)) => *x == *y,
        (Term::BoolConst(x), Term::BoolConst(y)) => *x == *y,
        (Term::MathOp { opr: o1, t1: x1, t2: x2 }, Term::MathOp { opr: o2, t1: y1, t2: y2 }) => {
            *o1 == *o2 && terms_equal(x1, y1) && terms_equal(x2, y2)
        },
        (
            Term::IfStmt { test: x1, then_body: x2, else_body: x3 },
            Term::IfStmt { test: y1, then_body: y2, else_body: y3 },
        ) => terms_equal(x1, y1) && terms_equal(x2, y2) && terms_equal(x3, y3),
        (
            Term::Equals { left_side: x1, right_side: x2 },
            Term::Equals { left_side: y1, right_side: y2 },
        ) => terms_equal(x1, y1) && terms_equal(x2, y2),
        (
            Term::NotEquals { left_side: x1, right_side: x2 },
            Term::NotEquals { left_side: y1, right_side: y2 },
        ) => terms_equal(x1, y1) && terms_equal(x2, y2),
        (Term::Assignm { var_name: x, expr: e }, Term::Assignm { var_name: y, expr: f }) => {
            *x == *y && terms_equal(e, f)
        },
        _ => false,
    }
}

impl PartialEq for Term {
    fn eq(&self, other: &Term) -> (r: bool)
        ensures
            r == (self@ == other@),
    {
        terms_equal(self, other)
    }
}

impl vstd::std_specs::cmp::PartialEqSpecImpl for Term {
    open spec fn obeys_eq_spec() -> bool {
        true
    }

    open spec fn eq_spec(&self, other: &Term) -> bool {
        self@ == other@
    }
}

} // verus!
