//! Static types, type environments and the type checker.
use vstd::prelude::*;
use vstd::pervasive::VecAdditionalExecFns;
use crate::ast::{Term, TermModel, terms_equal};

verus! {

broadcast use vstd::std_specs::vec::group_vec_axioms, vstd::seq::group_seq_axioms;

/// The mathematical reading of a `TermType`.
pub enum TypeModel {
    Int,
    Bool,
    /// A function type: the environment in force where the lambda was checked,
    /// the parameter name, and the unchecked body.
    Func(Map<Seq<char>, TypeModel>, Seq<char>, TermModel),
}

/// The static type of a term. A function type is not an arrow: it keeps a
/// snapshot of the environment and the body, which is re-checked at each call.
#[derive(Debug)]
pub enum TermType {
    Int,
    Bool,
    Func { env: TyEnv, name: String, func_term: Box<Term> },
}

/// A binding of names to types. The mapping it stands for gives each name its
/// last binding in `bindings`; `insert` keeps names unique.
#[derive(Debug)]
pub struct TyEnv {
    pub bindings: Vec<(String, TermType)>,
}

/// The mapping that a sequence of bindings stands for: a later binding of a
/// name hides an earlier one.
pub open spec fn type_bindings(s: Seq<(String, TermType)>) -> Map<Seq<char>, TypeModel>
    decreases s,
{
    if s.len() == 0 {
        Map::empty()
    } else {
        let last = s[s.len() - 1];
        type_bindings(s.drop_last()).insert(last.0@, last.1@)
    }
}

impl View for TermType {
    type V = TypeModel;

    open spec fn view(&self) -> TypeModel
        decreases self,
    {
        match self {
            TermType::Int => TypeModel::Int,
            TermType::Bool => TypeModel::Bool,
            TermType::Func { env, name, func_term } => TypeModel::Func(
                type_bindings(env.bindings@),
                name@,
                (**func_term)@,
            ),
        }
    }
}

impl View for TyEnv {
    type V = Map<Seq<char>, TypeModel>;

    open spec fn view(&self) -> Map<Seq<char>, TypeModel> {
        type_bindings(self.bindings@)
    }
}


/// Pushing a binding extends the mapping by it.
pub proof fn lemma_type_bindings_push(s: Seq<(String, TermType)>, e: (String, TermType))
    ensures
        type_bindings(s.push(e)) == type_bindings(s).insert(e.0@, e.1@),
{
    assert(s.push(e).drop_last() =~= s);
}

/// The first `i + 1` bindings stand for the first `i` extended by binding `i`.
pub proof fn lemma_type_bindings_take(s: Seq<(String, TermType)>, i: int)
    requires
        0 <= i < s.len(),
    ensures
        type_bindings(s.take(i + 1)) == type_bindings(s.take(i)).insert(s[i].0@, s[i].1@),
{
    assert(s.take(i + 1).drop_last() =~= s.take(i));
}

/// Bindings of other names after position `i` do not change what `k` maps to.
pub proof fn lemma_type_bindings_tail(s: Seq<(String, TermType)>, i: int, k: Seq<char>)
    requires
        0 <= i <= s.len(),
        forall|j: int| i <= j < s.len() ==> s[j].0@ != k,
    ensures
        type_bindings(s).contains_key(k) == type_bindings(s.take(i)).contains_key(k),
        type_bindings(s).contains_key(k) ==> type_bindings(s)[k] == type_bindings(s.take(i))[k],
    decreases s.len() - i,
{
    if i < s.len() {
        lemma_type_bindings_tail(s, i + 1, k);
        lemma_type_bindings_take(s, i);
    } else {
        assert(s.take(i) =~= s);
    }
}

/// Every name bound at some position is in the mapping.
pub proof fn lemma_type_bindings_has(s: Seq<(String, TermType)>, j: int)
    requires
        0 <= j < s.len(),
    ensures
        type_bindings(s).contains_key(s[j].0@),
    decreases s.len(),
{
    assert(type_bindings(s) == type_bindings(s.drop_last()).insert(s[s.len() - 1].0@, s[s.len() - 1].1@));
    if j < s.len() - 1 {
        lemma_type_bindings_has(s.drop_last(), j);
    }
}

/// Every name of the mapping is bound at some position.
pub proof fn lemma_type_bindings_dom(s: Seq<(String, TermType)>, k: Seq<char>)
    requires
        type_bindings(s).contains_key(k),
    ensures
        exists|j: int| 0 <= j < s.len() && s[j].0@ == k,
    decreases s.len(),
{
    assert(s.len() > 0);
    if s[s.len() - 1].0@ != k {
        assert(type_bindings(s) == type_bindings(s.drop_last()).insert(s[s.len() - 1].0@, s[s.len() - 1].1@));
        lemma_type_bindings_dom(s.drop_last(), k);
        let j = choose|j: int| 0 <= j < s.drop_last().len() && s.drop_last()[j].0@ == k;
        assert(s[j].0@ == k);
    }
}

/// Replacing the last binding of a name rebinds that name.
pub proof fn lemma_type_bindings_update(s: Seq<(String, TermType)>, j: int, e: (String, TermType))
    requires
        0 <= j < s.len(),
        s[j].0@ == e.0@,
        forall|i: int| j < i < s.len() ==> s[i].0@ != e.0@,
    ensures
        type_bindings(s.update(j, e)) == type_bindings(s).insert(e.0@, e.1@),
    decreases s.len(),
{
    let u = s.update(j, e);
    assert(u.len() == s.len() && u[j] == e);
    assert(type_bindings(u) == type_bindings(u.drop_last()).insert(u[u.len() - 1].0@, u[u.len() - 1].1@));
    assert(type_bindings(s) == type_bindings(s.drop_last()).insert(s[s.len() - 1].0@, s[s.len() - 1].1@));
    if j == s.len() - 1 {
        assert(u.drop_last() =~= s.drop_last());
        assert(type_bindings(u) =~= type_bindings(s).insert(e.0@, e.1@));
    } else {
        assert(u.drop_last() =~= s.drop_last().update(j, e));
        lemma_type_bindings_update(s.drop_last(), j, e);
        assert(type_bindings(u) =~= type_bindings(s).insert(e.0@, e.1@));
    }
}

impl TyEnv {
    /// The empty environment.
    pub fn new() -> (r: TyEnv)
        ensures
            r@ == Map::<Seq<char>, TypeModel>::empty(),
    {
        TyEnv { bindings: Vec::new() }
    }

    /// The position of the binding in force for `name`, if any.
    pub fn find(&self, name: &String) -> (r: Option<usize>)
        ensures
            r is None <==> !self@.contains_key(name@),
            r matches Some(i) ==> i < self.bindings.len() && self.bindings@[i as int].0@ == name@
                && self@[name@] == self.bindings@[i as int].1@
                && forall|j: int| i < j < self.bindings.len() ==> self.bindings@[j].0@ != name@,
    {
        let mut i: usize = self.bindings.len();
        while i > 0
            invariant
                i <= self.bindings.len(),
                forall|j: int| i <= j < self.bindings.len() ==> self.bindings@[j].0@ != name@,
            decreases i,
        {
            if self.bindings[i - 1].0 == *name {
                proof {
                    lemma_type_bindings_tail(self.bindings@, i as int, name@);
                    lemma_type_bindings_take(self.bindings@, i - 1);
                }
                return Some(i - 1);
            }
            i = i - 1;
        }
        proof {
            lemma_type_bindings_tail(self.bindings@, 0, name@);
        }
        None
    }

    /// The type bound to `name`, if any.
    pub fn get(&self, name: &String) -> (r: Option<&TermType>)
        ensures
            r is None <==> !self@.contains_key(name@),
            r matches Some(t) ==> t@ == self@[name@],
    {
        match self.find(name) {
            Some(i) => Some(&self.bindings[i].1),
            None => None,
        }
    }

    /// Binds `name` to `t`, replacing an earlier binding of the name.
    pub fn insert(&mut self, name: String, t: TermType)
        ensures
            final(self)@ == old(self)@.insert(name@, t@),
    {
        match self.find(&name) {
            Some(i) => {
                proof {
                    lemma_type_bindings_update(self.bindings@, i as int, (name, t));
                }
                self.bindings.set(i, (name, t));
            },
            None => {
                proof {
                    lemma_type_bindings_push(self.bindings@, (name, t));
                }
                self.bindings.push((name, t));
            },
        }
    }
}


impl Clone for TermType {
    fn clone(&self) -> (r: Self)
        ensures
            r@ == self@,
        decreases self,
    {
        match self {
            TermType::Int => TermType::Int,
            TermType::Bool => TermType::Bool,
            TermType::Func { env, name, func_term } => TermType::Func {
                env: env.clone(),
                name: name.clone(),
                func_term: Box::new((**func_term).clone()),
            },
        }
    }
}

impl Clone for TyEnv {
    /// A copy with the same bindings in the same order.
    fn clone(&self) -> (r: Self)
        ensures
            r@ == self@,
        decreases self,
    {
        let mut bindings: Vec<(String, TermType)> = Vec::new();
        let mut i: usize = 0;
        while i < self.bindings.len()
            invariant
                i <= self.bindings.len(),
                type_bindings(bindings@) == type_bindings(self.bindings@.take(i as int)),
            decreases self.bindings.len() - i,
        {
            let entry = (self.bindings[i].0.clone(), self.bindings[i].1.clone());
            proof {
                lemma_type_bindings_push(bindings@, entry);
                lemma_type_bindings_take(self.bindings@, i as int);
            }
            bindings.push(entry);
            i = i + 1;
        }
        assert(self.bindings@.take(i as int) =~= self.bindings@);
        TyEnv { bindings }
    }
}

/// Structural equality of types; the environments of function types are
/// compared as mappings.
pub fn types_equal(a: &TermType, b: &TermType) -> (r: bool)
    ensures
        r == (a@ == b@),
    decreases a,
{
    match (a, b) {
        (TermType::Int, TermType::Int) => true,
        (TermType::Bool, TermType::Bool) => true,
        (
            TermType::Func { env: e1, name: n1, func_term: t1 },
            TermType::Func { env: e2, name: n2, func_term: t2 },
        ) => *n1 == *n2 && terms_equal(t1, t2) && envs_equal(e1, e2),
        _ => false,
    }
}

/// Both mappings bind `k`, to the same type.
pub open spec fn same_at(a: Map<Seq<char>, TypeModel>, b: Map<Seq<char>, TypeModel>, k: Seq<char>) -> bool {
    a.contains_key(k) && b.contains_key(k) && a[k] == b[k]
}

/// Whether two environments stand for the same mapping.
pub fn envs_equal(a: &TyEnv, b: &TyEnv) -> (r: bool)
    ensures
        r == (a@ == b@),
    decreases a,
{
    let mut i: usize = 0;
    while i < a.bindings.len()
        invariant
            i <= a.bindings.len(),
            forall|j: int| 0 <= j < i ==> #[trigger] same_at(a@, b@, a.bindings@[j].0@),
        decreases a.bindings.len() - i,
    {
        let name = &a.bindings[i].0;
        let ia = match a.find(name) {
            Some(ia) => ia,
            None => {
                proof {
                    lemma_type_bindings_has(a.bindings@, i as int);
                }
                return false;
            },
        };
        match b.find(name) {
            None => {
                return false;
            },
            Some(ib) => {
                assert(decreases_to!(a => a.bindings@[ia as int].1));
                if !types_equal(&a.bindings[ia].1, &b.bindings[ib].1) {
                    return false;
                }
                assert(same_at(a@, b@, a.bindings@[i as int].0@));
            },
        }
        i = i + 1;
    }
    let mut j: usize = 0;
    while j < b.bindings.len()
        invariant
            j <= b.bindings.len(),
            forall|k: int| 0 <= k < j ==> #[trigger] a@.contains_key(b.bindings@[k].0@),
        decreases b.bindings.len() - j,
    {
        if a.find(&b.bindings[j].0).is_none() {
            proof {
                lemma_type_bindings_has(b.bindings@, j as int);
            }
            return false;
        }
        j = j + 1;
    }
    proof {
        assert forall|k: Seq<char>| #[trigger] a@.contains_key(k) implies b@.contains_key(k) && b@[k] == a@[k] by {
            lemma_type_bindings_dom(a.bindings@, k);
            let j = choose|j: int| 0 <= j < a.bindings@.len() && a.bindings@[j].0@ == k;
            assert(same_at(a@, b@, a.bindings@[j].0@));
        }
        assert forall|k: Seq<char>| #[trigger] b@.contains_key(k) implies a@.contains_key(k) by {
            lemma_type_bindings_dom(b.bindings@, k);
        }
        assert(a@ =~= b@);
    }
    true
}

impl PartialEq for TermType {
    fn eq(&self, other: &TermType) -> (r: bool)
        ensures
            r == (self@ == other@),
    {
        types_equal(self, other)
    }
}

impl vstd::std_specs::cmp::PartialEqSpecImpl for TermType {
    open spec fn obeys_eq_spec() -> bool {
        true
    }

    open spec fn eq_spec(&self, other: &TermType) -> bool {
        self@ == other@
    }
}


impl TyEnv {
    /// The environment in which a function body is checked: this one, overlaid
    /// by the function's captured bindings, overlaid by the parameter.
    pub fn application_env(&self, captured: &TyEnv, param: &String, arg: TermType) -> (r: TyEnv)
        ensures
            r@ == self@.union_prefer_right(captured@).insert(param@, arg@),
    {
        let mut r = self.clone();
        let mut i: usize = 0;
        while i < captured.bindings.len()
            invariant
                i <= captured.bindings.len(),
                r@ == self@.union_prefer_right(type_bindings(captured.bindings@.take(i as int))),
            decreases captured.bindings.len() - i,
        {
            let name = captured.bindings[i].0.clone();
            let t = captured.bindings[i].1.clone();
            proof {
                lemma_type_bindings_take(captured.bindings@, i as int);
                assert(self@.union_prefer_right(type_bindings(captured.bindings@.take(i + 1)))
                    =~= self@.union_prefer_right(type_bindings(captured.bindings@.take(i as int))).insert(name@, t@));
            }
            r.insert(name, t);
            i = i + 1;
        }
        assert(captured.bindings@.take(i as int) =~= captured.bindings@);
        r.insert(param.clone(), arg);
        r
    }
}

/// Why a term has no type.
#[derive(PartialEq, Eq, Structural, Clone, Copy, Debug)]
pub enum TypeError {
    /// A variable that the environment does not bind.
    VarNotBound,
    /// An application of something that is not a function.
    NotAFunction,
    /// An arithmetic operand that is not an integer.
    MathTypeError,
    /// A comparison of operands that are not both integers or both booleans.
    EqualityTypeError,
    /// A condition that is not a boolean.
    IfConditionNotBool,
    /// Branches of a conditional whose types differ.
    BranchTypeMismatch,
    /// More than `u64::MAX` nested applications; no run gets near it before
    /// the call stack runs out.
    DepthExceeded,
}

impl TypeError {
    /// The text of the diagnostic for the error.
    pub open spec fn text(self) -> Seq<char> {
        match self {
            TypeError::VarNotBound => "Variable name missing in environment"@,
            TypeError::NotAFunction => "terms need to be applied to function types"@,
            TypeError::MathTypeError => "Mathematical binary operators require both parameters to be integers"@,
            TypeError::EqualityTypeError => "Logical binary operators require both parameters to be integers or booleans"@,
            TypeError::IfConditionNotBool => "Condition to if must be a boolean"@,
            TypeError::BranchTypeMismatch => "Types do not match"@,
            TypeError::DepthExceeded => "Function applications nested too deeply"@,
        }
    }

    /// A diagnostic for the error.
    pub fn message(&self) -> (r: &'static str)
        ensures
            r@ == self.text(),
    {
        match self {
            TypeError::VarNotBound => "Variable name missing in environment",
            TypeError::NotAFunction => "terms need to be applied to function types",
            TypeError::MathTypeError => "Mathematical binary operators require both parameters to be integers",
            TypeError::EqualityTypeError => "Logical binary operators require both parameters to be integers or booleans",
            TypeError::IfConditionNotBool => "Condition to if must be a boolean",
            TypeError::BranchTypeMismatch => "Types do not match",
            TypeError::DepthExceeded => "Function applications nested too deeply",
        }
    }
}

/// The type of an arithmetic operation on operands of types `a` and `b`.
pub open spec fn math_type(a: TypeModel, b: TypeModel) -> Result<TypeModel, TypeError> {
    if a == TypeModel::Int && b == TypeModel::Int {
        Ok(TypeModel::Int)
    } else {
        Err(TypeError::MathTypeError)
    }
}

/// The type of a comparison of operands of types `a` and `b`.
pub open spec fn equality_type(a: TypeModel, b: TypeModel) -> Result<TypeModel, TypeError> {
    if (a == TypeModel::Int && b == TypeModel::Int) || (a == TypeModel::Bool && b == TypeModel::Bool) {
        Ok(TypeModel::Bool)
    } else {
        Err(TypeError::EqualityTypeError)
    }
}

/// The type of a conditional whose condition and branches have types `c`, `t`
/// and `e`.
pub open spec fn if_type(c: TypeModel, t: TypeModel, e: TypeModel) -> Result<TypeModel, TypeError> {
    if c != TypeModel::Bool {
        Err(TypeError::IfConditionNotBool)
    } else if t != e {
        Err(TypeError::BranchTypeMismatch)
    } else {
        Ok(t)
    }
}

/// The type of `t` in `env`, with at most `depth` nested applications.
/// Operands are checked left to right and the first failure is the result.
pub open spec fn check(t: TermModel, env: Map<Seq<char>, TypeModel>, depth: nat) -> Result<TypeModel, TypeError>
    decreases depth, t,
{
    match t {
        TermModel::Var(n) => if env.contains_key(n) {
            Ok(env[n])
        } else {
            Err(TypeError::VarNotBound)
        },
        TermModel::Lambda(p, body) => Ok(TypeModel::Func(env, p, *body)),
        TermModel::Apply(arg, func) => match check(*func, env, depth) {
            Err(e) => Err(e),
            Ok(TypeModel::Func(captured, p, body)) => match check(*arg, env, depth) {
                Err(e) => Err(e),
                Ok(a) => if depth == 0 {
                    Err(TypeError::DepthExceeded)
                } else {
                    check(body, env.union_prefer_right(captured).insert(p, a), (depth - 1) as nat)
                },
            },
            Ok(_) => Err(TypeError::NotAFunction),
        },
        TermModel::NumConst(_) => Ok(TypeModel::Int),
        TermModel::BoolConst(_) => Ok(TypeModel::Bool),
        TermModel::MathOp(_, x, y) => match check(*x, env, depth) {
            Err(e) => Err(e),
            Ok(a) => match check(*y, env, depth) {
                Err(e) => Err(e),
                Ok(b) => math_type(a, b),
            },
        },
        TermModel::Equals(x, y) | TermModel::NotEquals(x, y) => match check(*x, env, depth) {
            Err(e) => Err(e),
            Ok(a) => match check(*y, env, depth) {
                Err(e) => Err(e),
                Ok(b) => equality_type(a, b),
            },
        },
        TermModel::IfStmt(c, x, y) => match check(*c, env, depth) {
            Err(e) => Err(e),
            Ok(tc) => match check(*x, env, depth) {
                Err(e) => Err(e),
                Ok(tx) => match check(*y, env, depth) {
                    Err(e) => Err(e),
                    Ok(ty) => if_type(tc, tx, ty),
                },
            },
        },
        TermModel::Assignm(_, e) => check(*e, env, depth),
    }
}

/// Checking `t` in `env` needs only finitely many nested applications.
pub open spec fn checking_ends(t: TermModel, env: Map<Seq<char>, TypeModel>) -> bool {
    exists|d: nat| check(t, env, d) != Err::<TypeModel, TypeError>(TypeError::DepthExceeded)
}

/// The type of `t` in `env` with no bound on nesting; it is
/// meaningful where `checking_ends(t, env)`.
pub open spec fn type_outcome(t: TermModel, env: Map<Seq<char>, TypeModel>) -> Result<TypeModel, TypeError> {
    check(t, env, choose|d: nat| check(t, env, d) != Err::<TypeModel, TypeError>(TypeError::DepthExceeded))
}

/// Once the depth suffices, more depth changes nothing: running out of depth
/// is the only way that a smaller depth can differ.
pub proof fn lemma_check_depth(t: TermModel, env: Map<Seq<char>, TypeModel>, d1: nat, d2: nat)
    requires
        d1 <= d2,
        check(t, env, d1) != Err::<TypeModel, TypeError>(TypeError::DepthExceeded),
    ensures
        check(t, env, d2) == check(t, env, d1),
    decreases d1, t,
{
    match t {
        TermModel::Apply(arg, func) => {
            lemma_check_depth(*func, env, d1, d2);
            if let Ok(TypeModel::Func(captured, p, body)) = check(*func, env, d1) {
                lemma_check_depth(*arg, env, d1, d2);
                if let Ok(a) = check(*arg, env, d1) {
                    lemma_check_depth(body, env.union_prefer_right(captured).insert(p, a), (d1 - 1) as nat, (d2 - 1) as nat);
                }
            }
        },
        TermModel::MathOp(_, x, y) | TermModel::Equals(x, y) | TermModel::NotEquals(x, y) => {
            lemma_check_depth(*x, env, d1, d2);
            if check(*x, env, d1) is Ok {
                lemma_check_depth(*y, env, d1, d2);
            }
        },
        TermModel::IfStmt(c, x, y) => {
            lemma_check_depth(*c, env, d1, d2);
            if check(*c, env, d1) is Ok {
                lemma_check_depth(*x, env, d1, d2);
                if check(*x, env, d1) is Ok {
                    lemma_check_depth(*y, env, d1, d2);
                }
            }
        },
        TermModel::Assignm(_, e) => lemma_check_depth(*e, env, d1, d2),
        _ => {},
    }
}

/// Any depth that suffices gives the unbounded outcome.
pub proof fn lemma_type_outcome(t: TermModel, env: Map<Seq<char>, TypeModel>, d: nat)
    requires
        check(t, env, d) != Err::<TypeModel, TypeError>(TypeError::DepthExceeded),
    ensures
        checking_ends(t, env),
        type_outcome(t, env) == check(t, env, d),
{
    let c = choose|d: nat| check(t, env, d) != Err::<TypeModel, TypeError>(TypeError::DepthExceeded);
    if c <= d {
        lemma_check_depth(t, env, c, d);
    } else {
        lemma_check_depth(t, env, d, c);
    }
}

/// An application has the type of the function body, checked in the caller's
/// environment overlaid by the captured one and then by the parameter bound
/// to the argument's type; applying anything else fails with `NotAFunction`.
pub proof fn lemma_check_apply(arg: TermModel, func: TermModel, env: Map<Seq<char>, TypeModel>)
    requires
        checking_ends(func, env),
        type_outcome(func, env) is Ok,
    ensures
        ({
            let t = TermModel::Apply(Box::new(arg), Box::new(func));
            match type_outcome(func, env) {
                Ok(TypeModel::Func(captured, p, body)) => checking_ends(arg, env) ==> match type_outcome(arg, env) {
                    Ok(a) => {
                        let inner = env.union_prefer_right(captured).insert(p, a);
                        &&& checking_ends(t, env) == checking_ends(body, inner)
                        &&& checking_ends(body, inner) ==> type_outcome(t, env) == type_outcome(body, inner)
                    },
                    Err(x) => checking_ends(t, env) && type_outcome(t, env) == Err::<TypeModel, TypeError>(x),
                },
                _ => checking_ends(t, env) && type_outcome(t, env) == Err::<TypeModel, TypeError>(TypeError::NotAFunction),
            }
        }),
{
    let t = TermModel::Apply(Box::new(arg), Box::new(func));
    let df = choose|d: nat| check(func, env, d) != Err::<TypeModel, TypeError>(TypeError::DepthExceeded);
    lemma_type_outcome(func, env, df);
    match type_outcome(func, env) {
        Ok(TypeModel::Func(captured, p, body)) => {
            if checking_ends(arg, env) {
                let da = choose|d: nat| check(arg, env, d) != Err::<TypeModel, TypeError>(TypeError::DepthExceeded);
                lemma_type_outcome(arg, env, da);
                let m = if df <= da { da } else { df };
                lemma_check_depth(func, env, df, m);
                lemma_check_depth(arg, env, da, m);
                match type_outcome(arg, env) {
                    Ok(a) => {
                        let inner = env.union_prefer_right(captured).insert(p, a);
                        if checking_ends(body, inner) {
                            let db = choose|d: nat| check(body, inner, d) != Err::<TypeModel, TypeError>(TypeError::DepthExceeded);
                            let big = if m <= db { db + 1 } else { m + 1 };
                            lemma_check_depth(func, env, df, big as nat);
                            lemma_check_depth(arg, env, da, big as nat);
                            lemma_check_depth(body, inner, db, (big - 1) as nat);
                            lemma_type_outcome(body, inner, db);
                            lemma_type_outcome(t, env, big as nat);
                        }
                        if checking_ends(t, env) {
                            let dt = choose|d: nat| check(t, env, d) != Err::<TypeModel, TypeError>(TypeError::DepthExceeded);
                            lemma_type_outcome(t, env, dt);
                            if check(func, env, dt) != Err::<TypeModel, TypeError>(TypeError::DepthExceeded) {
                                lemma_type_outcome(func, env, dt);
                            }
                            if check(arg, env, dt) != Err::<TypeModel, TypeError>(TypeError::DepthExceeded) {
                                lemma_type_outcome(arg, env, dt);
                            }
                            lemma_type_outcome(body, inner, (dt - 1) as nat);
                        }
                    },
                    Err(x) => {
                        lemma_type_outcome(t, env, m);
                    },
                }
            }
        },
        _ => {
            lemma_type_outcome(t, env, df);
        },
    }
}

/// The view of a checking result.
pub open spec fn type_result(r: Result<TermType, TypeError>) -> Result<TypeModel, TypeError> {
    match r {
        Ok(t) => Ok(t@),
        Err(e) => Err(e),
    }
}

/// The type of `term` in `env`. A lambda is given a function type at once;
/// its body is checked at each application, in the caller's environment
/// overlaid by the captured one and the parameter. An assignment has the type
/// of its right-hand side; binding the name is up to the caller.
///
/// The result is the unbounded outcome of the check, unless that needs more
/// than `u64::MAX` nested applications, where `DepthExceeded` is returned;
/// the call stack runs out long before.
pub fn type_check(term: &Term, env: &TyEnv) -> (r: Result<TermType, TypeError>)
    ensures
        type_result(r) != Err::<TypeModel, TypeError>(TypeError::DepthExceeded) ==> checking_ends(term@, env@)
            && type_result(r) == type_outcome(term@, env@),
        type_result(r) == Err::<TypeModel, TypeError>(TypeError::DepthExceeded) ==> forall|d: nat|
            d <= u64::MAX ==> check(term@, env@, d) == Err::<TypeModel, TypeError>(TypeError::DepthExceeded),
        type_result(r) == check(term@, env@, u64::MAX as nat),
{
    let r = check_within(term, env, u64::MAX);
    proof {
        if type_result(r) != Err::<TypeModel, TypeError>(TypeError::DepthExceeded) {
            lemma_type_outcome(term@, env@, u64::MAX as nat);
        } else {
            assert forall|d: nat| d <= u64::MAX implies check(term@, env@, d) == Err::<TypeModel, TypeError>(
                TypeError::DepthExceeded,
            ) by {
                if check(term@, env@, d) != Err::<TypeModel, TypeError>(TypeError::DepthExceeded) {
                    lemma_check_depth(term@, env@, d, u64::MAX as nat);
                }
            }
        }
    }
    r
}

fn check_within(term: &Term, env: &TyEnv, depth: u64) -> (r: Result<TermType, TypeError>)
    ensures
        type_result(r) == check(term@, env@, depth as nat),
    decreases depth, term,
{
    match term {
        Term::Var(n) => match env.get(n) {
            Some(t) => Ok(t.clone()),
            None => Err(TypeError::VarNotBound),
        },
        Term::Lambda { var_name, expr } => Ok(
            TermType::Func { env: env.clone(), name: var_name.clone(), func_term: Box::new((**expr).clone()) },
        ),
        Term::Apply { var_term, function } => match check_within(function, env, depth)? {
            TermType::Func { env: captured, name, func_term } => {
                let arg = check_within(var_term, env, depth)?;
                if depth == 0 {
                    return Err(TypeError::DepthExceeded);
                }
                let inner = env.application_env(&captured, &name, arg);
                check_within(&func_term, &inner, depth - 1)
            },
            _ => Err(TypeError::NotAFunction),
        },
        Term::NumConst(_) => Ok(TermType::Int),
        Term::BoolConst(_) => Ok(TermType::Bool),
        Term::MathOp { t1, t2, .. } => {
            let a = check_within(t1, env, depth)?;
            let b = check_within(t2, env, depth)?;
            type_check_bin_math_op(&a, &b)
        },
        Term::Equals { left_side, right_side } | Term::NotEquals { left_side, right_side } => {
            let a = check_within(left_side, env, depth)?;
            let b = check_within(right_side, env, depth)?;
            type_check_bin_logic_op(&a, &b)
        },
        Term::IfStmt { test, then_body, else_body } => {
            let c = check_within(test, env, depth)?;
            let x = check_within(then_body, env, depth)?;
            let y = check_within(else_body, env, depth)?;
            type_check_if(&c, &x, &y)
        },
        Term::Assignm { expr, .. } => check_within(expr, env, depth),
    }
}

fn type_check_bin_math_op(t1: &TermType, t2: &TermType) -> (r: Result<TermType, TypeError>)
    ensures
        type_result(r) == math_type(t1@, t2@),
{
    match (t1, t2) {
        (TermType::Int, TermType::Int) => Ok(TermType::Int),
        _ => Err(TypeError::MathTypeError),
    }
}

fn type_check_bin_logic_op(t1: &TermType, t2: &TermType) -> (r: Result<TermType, TypeError>)
    ensures
        type_result(r) == equality_type(t1@, t2@),
{
    match (t1, t2) {
        (TermType::Int, TermType::Int) => Ok(TermType::Bool),
        (TermType::Bool, TermType::Bool) => Ok(TermType::Bool),
        _ => Err(TypeError::EqualityTypeError),
    }
}

fn type_check_if(c: &TermType, tb: &TermType, eb: &TermType) -> (r: Result<TermType, TypeError>)
    ensures
        type_result(r) == if_type(c@, tb@, eb@),
{
    match c {
        TermType::Bool => match_type(tb, eb),
        _ => Err(TypeError::IfConditionNotBool),
    }
}

fn match_type(t1: &TermType, t2: &TermType) -> (r: Result<TermType, TypeError>)
    ensures
        type_result(r) == if t1@ == t2@ {
            Ok(t1@)
        } else {
            Err(TypeError::BranchTypeMismatch)
        },
{
    if types_equal(t1, t2) {
        Ok(t1.clone())
    } else {
        Err(TypeError::BranchTypeMismatch)
    }
}

} // verus!
