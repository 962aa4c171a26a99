//! Running a program: its statements are parsed, then all type-checked in
//! order, then all evaluated in order. Assignments extend the environment
//! that later statements see; the value of every other statement is output.
use vstd::prelude::*;
use crate::ast::{Term, TermModel};
use crate::eval::{eval, evaluate, EvalError, value_result};
use crate::grammar;
use crate::parse::{parse_file, terms_view, SyntaxError};
use crate::type_check::{check, type_check, type_result, TyEnv, TypeError, TypeModel};
use crate::value::{EvalEnv, Value, ValueModel};

verus! {

broadcast use vstd::std_specs::vec::group_vec_axioms, vstd::seq::group_seq_axioms;

/// The type environment after checking statements `ts` in order from `env`,
/// or the first type error.
pub open spec fn check_statements(ts: Seq<TermModel>, env: Map<Seq<char>, TypeModel>) -> Result<Map<Seq<char>, TypeModel>, TypeError>
    decreases ts.len(),
{
    if ts.len() == 0 {
        Ok(env)
    } else {
        let rest = ts.drop_first();
        match ts[0] {
            TermModel::Assignm(n, e) => match check(*e, env, u64::MAX as nat) {
                Ok(t) => check_statements(rest, env.insert(n, t)),
                Err(x) => Err(x),
            },
            t => match check(t, env, u64::MAX as nat) {
                Ok(_) => check_statements(rest, env),
                Err(x) => Err(x),
            },
        }
    }
}

/// The values output by evaluating statements `ts` in order from `env`, and
/// the error that stopped the evaluation, if any.
pub open spec fn run_statements(ts: Seq<TermModel>, env: Map<Seq<char>, ValueModel>) -> (Seq<ValueModel>, Option<EvalError>)
    decreases ts.len(),
{
    if ts.len() == 0 {
        (Seq::empty(), None)
    } else {
        let rest = ts.drop_first();
        match evaluate(ts[0], env, u64::MAX as nat) {
            Err(x) => (Seq::empty(), Some(x)),
            Ok(ValueModel::Assignm(n, v)) => run_statements(rest, env.insert(n, *v)),
            Ok(v) => {
                let (out, failure) = run_statements(rest, env);
                (seq![v] + out, failure)
            },
        }
    }
}

/// The views of a sequence of values.
pub open spec fn values_view(vs: Seq<Value>) -> Seq<ValueModel> {
    vs.map_values(|v: Value| v@)
}

/// Type-checks `terms` in order, each in the environment that the assignments
/// before it built, and returns that environment after the last one.
pub fn type_check_program(terms: &Vec<Term>) -> (r: Result<TyEnv, TypeError>)
    ensures
        match r {
            Ok(env) => check_statements(terms_view(terms@), Map::empty()) == Ok::<Map<Seq<char>, TypeModel>, TypeError>(env@),
            Err(x) => check_statements(terms_view(terms@), Map::empty()) == Err::<Map<Seq<char>, TypeModel>, TypeError>(x),
        },
{
    let mut env = TyEnv::new();
    let mut i: usize = 0;
    assert(terms_view(terms@).skip(0) =~= terms_view(terms@));
    while i < terms.len()
        invariant
            i <= terms.len(),
            check_statements(terms_view(terms@), Map::empty()) == check_statements(
                terms_view(terms@).skip(i as int),
                env@,
            ),
        decreases terms.len() - i,
    {
        let ghost ts = terms_view(terms@).skip(i as int);
        assert(ts.drop_first() =~= terms_view(terms@).skip(i + 1));
        assert(ts[0] == terms@[i as int]@);
        match &terms[i] {
            Term::Assignm { var_name, expr } => {
                let t = type_check(expr, &env)?;
                env.insert(var_name.clone(), t);
            },
            term => {
                type_check(term, &env)?;
            },
        }
        i = i + 1;
    }
    assert(terms_view(terms@).skip(i as int) =~= Seq::<TermModel>::empty());
    Ok(env)
}

/// Evaluates `terms` in order. An assignment binds its name for the
/// statements after it; the value of every other statement is returned, in
/// order, up to the first error, which is returned beside them.
pub fn eval_program(terms: &Vec<Term>) -> (r: (Vec<Value>, Option<EvalError>))
    ensures
        (values_view(r.0@), r.1) == run_statements(terms_view(terms@), Map::empty()),
{
    let mut env = EvalEnv::new();
    let mut out: Vec<Value> = Vec::new();
    let mut i: usize = 0;
    assert(terms_view(terms@).skip(0) =~= terms_view(terms@));
    assert(values_view(out@) =~= Seq::<ValueModel>::empty());
    assert forall|o: Seq<ValueModel>| Seq::<ValueModel>::empty() + o == o by {
        assert(Seq::<ValueModel>::empty() + o =~= o);
    }
    while i < terms.len()
        invariant
            i <= terms.len(),
            run_statements(terms_view(terms@), Map::empty()) == ({
                let (o, f) = run_statements(terms_view(terms@).skip(i as int), env@);
                (values_view(out@) + o, f)
            }),
        decreases terms.len() - i,
    {
        let ghost ts = terms_view(terms@).skip(i as int);
        assert(ts.drop_first() =~= terms_view(terms@).skip(i + 1));
        assert(ts[0] == terms@[i as int]@);
        match eval(&terms[i], &env) {
            Err(x) => {
                assert(values_view(out@) + Seq::<ValueModel>::empty() =~= values_view(out@));
                return (out, Some(x));
            },
            Ok(Value::Assignm { name, val }) => {
                env.insert(name, *val);
            },
            Ok(v) => {
                proof {
                    let ghost before = values_view(out@);
                    assert(values_view(out@.push(v)) =~= before.push(v@));
                    assert forall|o: Seq<ValueModel>| before + (seq![v@] + o) == before.push(v@) + o by {
                        assert(before + (seq![v@] + o) =~= before.push(v@) + o);
                    }
                }
                out.push(v);
            },
        }
        i = i + 1;
    }
    assert(terms_view(terms@).skip(i as int) =~= Seq::<TermModel>::empty());
    assert(values_view(out@) + Seq::<ValueModel>::empty() =~= values_view(out@));
    (out, None)
}

/// `t` holds no assignment at any depth.
pub open spec fn assignment_free(t: TermModel) -> bool
    decreases t,
{
    match t {
        TermModel::Var(_) | TermModel::NumConst(_) | TermModel::BoolConst(_) => true,
        TermModel::Lambda(_, b) => assignment_free(*b),
        TermModel::Apply(x, y) | TermModel::Equals(x, y) | TermModel::NotEquals(x, y) => assignment_free(*x)
            && assignment_free(*y),
        TermModel::MathOp(_, x, y) => assignment_free(*x) && assignment_free(*y),
        TermModel::IfStmt(c, x, y) => assignment_free(*c) && assignment_free(*x) && assignment_free(*y),
        TermModel::Assignm(_, _) => false,
    }
}

/// Evaluating an assignment-free statement twice in a row, in the same
/// environment, gives the same outcome both times: the first evaluation
/// leaves the environment as it found it, so a value is output twice and an
/// error stops the run at the first of the two.
pub proof fn lemma_evaluation_repeats(t: TermModel, env: Map<Seq<char>, ValueModel>)
    requires
        assignment_free(t),
    ensures
        match evaluate(t, env, u64::MAX as nat) {
            Ok(v) => !(v is Assignm) ==> run_statements(seq![t, t], env) == (seq![v, v], None::<EvalError>),
            Err(x) => run_statements(seq![t, t], env) == (Seq::<ValueModel>::empty(), Some(x)),
        },
{
    let ts = seq![t, t];
    assert(ts.drop_first() =~= seq![t]);
    assert(seq![t].drop_first() =~= Seq::<TermModel>::empty());
    if let Ok(v) = evaluate(t, env, u64::MAX as nat) {
        if !(v is Assignm) {
            assert(seq![t][0] == t);
            assert(run_statements(Seq::<TermModel>::empty(), env) == (Seq::<ValueModel>::empty(), None::<EvalError>));
            assert(seq![v] + Seq::<ValueModel>::empty() =~= seq![v]);
            assert(run_statements(seq![t], env) == (seq![v], None::<EvalError>));
            assert(seq![v] + seq![v] =~= seq![v, v]);
        }
    }
}

/// Why a program stopped.
#[derive(PartialEq, Eq, Debug)]
pub enum Failure {
    Syntax(SyntaxError),
    Type(TypeError),
    Eval(EvalError),
}

/// What running a program gave: the values output, in order, and the failure
/// that stopped it, if any.
#[derive(Debug)]
pub struct Run {
    pub printed: Vec<Value>,
    pub failure: Option<Failure>,
}

/// Runs the program `contents`: it is parsed whole, then type-checked whole,
/// then evaluated statement by statement. A syntax or type error stops it
/// before any output; an evaluation error stops it after the values of the
/// statements before it.
pub fn exec(contents: &str) -> (r: Run)
    ensures
        match grammar::program(contents@, 0) {
            Err((a, k)) => r.printed@.len() == 0 && (r.failure matches Some(Failure::Syntax(e))
                && e.remaining@ == contents@.subrange(a, contents@.len() as int) && e.expected == k),
            Ok(ts) => match check_statements(ts, Map::empty()) {
                Err(x) => r.printed@.len() == 0 && r.failure == Some(Failure::Type(x)),
                Ok(_) => values_view(r.printed@) == run_statements(ts, Map::empty()).0 && match run_statements(
                    ts,
                    Map::empty(),
                ).1 {
                    Some(x) => r.failure == Some(Failure::Eval(x)),
                    None => r.failure is None,
                },
            },
        },
{
    let terms = match parse_file(contents) {
        Ok(terms) => terms,
        Err(e) => {
            return Run { printed: Vec::new(), failure: Some(Failure::Syntax(e)) };
        },
    };
    if let Err(x) = type_check_program(&terms) {
        return Run { printed: Vec::new(), failure: Some(Failure::Type(x)) };
    }
    let (printed, err) = eval_program(&terms);
    let failure = match err {
        Some(x) => Some(Failure::Eval(x)),
        None => None,
    };
    Run { printed, failure }
}

} // verus!
