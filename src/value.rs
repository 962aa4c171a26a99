//! Runtime values and value environments.
use vstd::prelude::*;
use vstd::pervasive::VecAdditionalExecFns;
use crate::ast::{Term, TermModel, terms_equal};

verus! {

broadcast use vstd::std_specs::vec::group_vec_axioms, vstd::seq::group_seq_axioms;

/// The mathematical reading of a `Value`.
pub enum ValueModel {
    Num(u64),
    Bool(bool),
    /// A function value: the environment captured where the lambda was
    /// evaluated, the parameter name, and the body.
    Closure(Map<Seq<char>, ValueModel>, Seq<char>, TermModel),
    /// The result of a binding statement.
    Assignm(Seq<char>, Box<ValueModel>),
}

/// What a term evaluates to.
#[derive(Debug)]
pub enum Value {
    Num(u64),
    Bool(bool),
    /// A function value with the environment it captured, by value.
    Closure { env: EvalEnv, name: String, func_term: Box<Term> },
    /// The result of a binding statement: the name and its value. It is never
    /// printed; the driver adds the binding to its environment instead.
    Assignm { name: String, val: Box<Value> },
}

/// A binding of names to values. The mapping it stands for gives each name
/// its last binding in `bindings`; `insert` keeps names unique.
#[derive(Debug)]
pub struct EvalEnv {
    pub bindings: Vec<(String, Value)>,
}

/// The mapping that a sequence of bindings stands for: a later binding of a
/// name hides an earlier one.
pub open spec fn value_bindings(s: Seq<(String, Value)>) -> Map<Seq<char>, ValueModel>
    decreases s,
{
    if s.len() == 0 {
        Map::empty()
    } else {
        let last = s[s.len() - 1];
        value_bindings(s.drop_last()).insert(last.0@, last.1@)
    }
}

impl View for Value {
    type V = ValueModel;

    open spec fn view(&self) -> ValueModel
        decreases self,
    {
        match self {
            Value::Num(n) => ValueModel::Num(*n),
            Value::Bool(b) => ValueModel::Bool(*b),
            Value::Closure { env, name, func_term } => ValueModel::Closure(
                value_bindings(env.bindings@),
                name@,
                (**func_term)@,
            ),
            Value::Assignm { name, val } => ValueModel::Assignm(name@, Box::new((**val)@)),
        }
    }
}

impl View for EvalEnv {
    type V = Map<Seq<char>, ValueModel>;

    open spec fn view(&self) -> Map<Seq<char>, ValueModel> {
        value_bindings(self.bindings@)
    }
}

/// Pushing a binding extends the mapping by it.
pub proof fn lemma_value_bindings_push(s: Seq<(String, Value)>, e: (String, Value))
    ensures
        value_bindings(s.push(e)) == value_bindings(s).insert(e.0@, e.1@),
{
    assert(s.push(e).drop_last() =~= s);
}

/// The first `i + 1` bindings stand for the first `i` extended by binding `i`.
pub proof fn lemma_value_bindings_take(s: Seq<(String, Value)>, i: int)
    requires
        0 <= i < s.len(),
    ensures
        value_bindings(s.take(i + 1)) == value_bindings(s.take(i)).insert(s[i].0@, s[i].1@),
{
    assert(s.take(i + 1).drop_last() =~= s.take(i));
}

/// Bindings of other names after position `i` do not change what `k` maps to.
pub proof fn lemma_value_bindings_tail(s: Seq<(String, Value)>, i: int, k: Seq<char>)
    requires
        0 <= i <= s.len(),
        forall|j: int| i <= j < s.len() ==> s[j].0@ != k,
    ensures
        value_bindings(s).contains_key(k) == value_bindings(s.take(i)).contains_key(k),
        value_bindings(s).contains_key(k) ==> value_bindings(s)[k] == value_bindings(s.take(i))[k],
    decreases s.len() - i,
{
    if i < s.len() {
        lemma_value_bindings_tail(s, i + 1, k);
        lemma_value_bindings_take(s, i);
    } else {
        assert(s.take(i) =~= s);
    }
}

/// Every name bound at some position is in the mapping.
pub proof fn lemma_value_bindings_has(s: Seq<(String, Value)>, j: int)
    requires
        0 <= j < s.len(),
    ensures
        value_bindings(s).contains_key(s[j].0@),
    decreases s.len(),
{
    assert(value_bindings(s) == value_bindings(s.drop_last()).insert(s[s.len() - 1].0@, s[s.len() - 1].1@));
    if j < s.len() - 1 {
        lemma_value_bindings_has(s.drop_last(), j);
    }
}

/// Every name of the mapping is bound at some position.
pub proof fn lemma_value_bindings_dom(s: Seq<(String, Value)>, k: Seq<char>)
    requires
        value_bindings(s).contains_key(k),
    ensures
        exists|j: int| 0 <= j < s.len() && s[j].0@ == k,
    decreases s.len(),
{
    assert(s.len() > 0);
    if s[s.len() - 1].0@ != k {
        assert(value_bindings(s) == value_bindings(s.drop_last()).insert(s[s.len() - 1].0@, s[s.len() - 1].1@));
        lemma_value_bindings_dom(s.drop_last(), k);
        let j = choose|j: int| 0 <= j < s.drop_last().len() && s.drop_last()[j].0@ == k;
        assert(s[j].0@ == k);
    }
}

/// Replacing the last binding of a name rebinds that name.
pub proof fn lemma_value_bindings_update(s: Seq<(String, Value)>, j: int, e: (String, Value))
    requires
        0 <= j < s.len(),
        s[j].0@ == e.0@,
        forall|i: int| j < i < s.len() ==> s[i].0@ != e.0@,
    ensures
        value_bindings(s.update(j, e)) == value_bindings(s).insert(e.0@, e.1@),
    decreases s.len(),
{
    let u = s.update(j, e);
    assert(u.len() == s.len() && u[j] == e);
    assert(value_bindings(u) == value_bindings(u.drop_last()).insert(u[u.len() - 1].0@, u[u.len() - 1].1@));
    assert(value_bindings(s) == value_bindings(s.drop_last()).insert(s[s.len() - 1].0@, s[s.len() - 1].1@));
    if j == s.len() - 1 {
        assert(u.drop_last() =~= s.drop_last());
        assert(value_bindings(u) =~= value_bindings(s).insert(e.0@, e.1@));
    } else {
        assert(u.drop_last() =~= s.drop_last().update(j, e));
        lemma_value_bindings_update(s.drop_last(), j, e);
        assert(value_bindings(u) =~= value_bindings(s).insert(e.0@, e.1@));
    }
}

impl EvalEnv {
    /// The empty environment.
    pub fn new() -> (r: EvalEnv)
        ensures
            r@ == Map::<Seq<char>, ValueModel>::empty(),
    {
        EvalEnv { bindings: Vec::new() }
    }

    /// The position of the binding in force for `name`, if any.
    pub fn find(&self, name: &String) -> (r: Option<usize>)
        ensures
            r is None <==> !self@.contains_key(name@),
            r matches Some(i) ==> i < self.bindings.len() && self.bindings@[i as int].0@ == name@
                && self@[name@] == self.bindings@[i as int].1@
                && forall|j: int| i < j < self.bindings.len() ==> self.bindings@[j].0@ != name@,
    {
        let mut i: usize = self.bindings.len();
        while i > 0
            invariant
                i <= self.bindings.len(),
                forall|j: int| i <= j < self.bindings.len() ==> self.bindings@[j].0@ != name@,
            decreases i,
        {
            if self.bindings[i - 1].0 == *name {
                proof {
                    lemma_value_bindings_tail(self.bindings@, i as int, name@);
                    lemma_value_bindings_take(self.bindings@, i - 1);
                }
                return Some(i - 1);
            }
            i = i - 1;
        }
        proof {
            lemma_value_bindings_tail(self.bindings@, 0, name@);
        }
        None
    }

    /// The value bound to `name`, if any.
    pub fn get(&self, name: &String) -> (r: Option<&Value>)
        ensures
            r is None <==> !self@.contains_key(name@),
            r matches Some(t) ==> t@ == self@[name@],
    {
        match self.find(name) {
            Some(i) => Some(&self.bindings[i].1),
            None => None,
        }
    }

    /// Binds `name` to `v`, replacing an earlier binding of the name.
    pub fn insert(&mut self, name: String, v: Value)
        ensures
            final(self)@ == old(self)@.insert(name@, v@),
    {
        match self.find(&name) {
            Some(i) => {
                proof {
                    lemma_value_bindings_update(self.bindings@, i as int, (name, v));
                }
                self.bindings.set(i, (name, v));
            },
            None => {
                proof {
                    lemma_value_bindings_push(self.bindings@, (name, v));
                }
                self.bindings.push((name, v));
            },
        }
    }
}

impl Clone for Value {
    fn clone(&self) -> (r: Self)
        ensures
            r@ == self@,
        decreases self,
    {
        match self {
            Value::Num(n) => Value::Num(*n),
            Value::Bool(b) => Value::Bool(*b),
            Value::Closure { env, name, func_term } => Value::Closure {
                env: env.clone(),
                name: name.clone(),
                func_term: Box::new((**func_term).clone()),
            },
            Value::Assignm { name, val } => Value::Assignm { name: name.clone(), val: Box::new((**val).clone()) },
        }
    }
}

impl Clone for EvalEnv {
    /// A copy with the same bindings in the same order.
    fn clone(&self) -> (r: Self)
        ensures
            r@ == self@,
        decreases self,
    {
        let mut bindings: Vec<(String, Value)> = Vec::new();
        let mut i: usize = 0;
        while i < self.bindings.len()
            invariant
                i <= self.bindings.len(),
                value_bindings(bindings@) == value_bindings(self.bindings@.take(i as int)),
            decreases self.bindings.len() - i,
        {
            let entry = (self.bindings[i].0.clone(), self.bindings[i].1.clone());
            proof {
                lemma_value_bindings_push(bindings@, entry);
                lemma_value_bindings_take(self.bindings@, i as int);
            }
            bindings.push(entry);
            i = i + 1;
        }
        assert(self.bindings@.take(i as int) =~= self.bindings@);
        EvalEnv { bindings }
    }
}

impl EvalEnv {
    /// The environment in which a closure body is evaluated: this one, overlaid
    /// by the closure's captured bindings, overlaid by the parameter.
    pub fn application_env(&self, captured: &EvalEnv, param: &String, arg: Value) -> (r: EvalEnv)
        ensures
            r@ == self@.union_prefer_right(captured@).insert(param@, arg@),
    {
        let mut r = self.clone();
        let mut i: usize = 0;
        while i < captured.bindings.len()
            invariant
                i <= captured.bindings.len(),
                r@ == self@.union_prefer_right(value_bindings(captured.bindings@.take(i as int))),
            decreases captured.bindings.len() - i,
        {
            let name = captured.bindings[i].0.clone();
            let t = captured.bindings[i].1.clone();
            proof {
                lemma_value_bindings_take(captured.bindings@, i as int);
                assert(self@.union_prefer_right(value_bindings(captured.bindings@.take(i + 1)))
                    =~= self@.union_prefer_right(value_bindings(captured.bindings@.take(i as int))).insert(name@, t@));
            }
            r.insert(name, t);
            i = i + 1;
        }
        assert(captured.bindings@.take(i as int) =~= captured.bindings@);
        r.insert(param.clone(), arg);
        r
    }
}

/// Structural equality of values; the environments of closures are compared
/// as mappings.
pub fn values_equal(a: &Value, b: &Value) -> (r: bool)
    ensures
        r == (a@ == b@),
    decreases a,
{
    match (a, b) {
        (Value::Num(x), Value::Num(y)) => *x == *y,
        (Value::Bool(x), Value::Bool(y)) => *x == *y,
        (
            Value::Closure { env: e1, name: n1, func_term: t1 },
            Value::Closure { env: e2, name: n2, func_term: t2 },
        ) => *n1 == *n2 && terms_equal(t1, t2) && eval_envs_equal(e1, e2),
        (Value::Assignm { name: n1, val: v1 }, Value::Assignm { name: n2, val: v2 }) => {
            *n1 == *n2 && values_equal(v1, v2)
        },
        _ => false,
    }
}

/// Both mappings bind `k`, to the same value.
pub open spec fn same_value_at(a: Map<Seq<char>, ValueModel>, b: Map<Seq<char>, ValueModel>, k: Seq<char>) -> bool {
    a.contains_key(k) && b.contains_key(k) && a[k] == b[k]
}

/// Whether two environments stand for the same mapping.
pub fn eval_envs_equal(a: &EvalEnv, b: &EvalEnv) -> (r: bool)
    ensures
        r == (a@ == b@),
    decreases a,
{
    let mut i: usize = 0;
    while i < a.bindings.len()
        invariant
            i <= a.bindings.len(),
            forall|j: int| 0 <= j < i ==> #[trigger] same_value_at(a@, b@, a.bindings@[j].0@),
        decreases a.bindings.len() - i,
    {
        let name = &a.bindings[i].0;
        let ia = match a.find(name) {
            Some(ia) => ia,
            None => {
                proof {
                    lemma_value_bindings_has(a.bindings@, i as int);
                }
                return false;
            },
        };
        match b.find(name) {
            None => {
                return false;
            },
            Some(ib) => {
                assert(decreases_to!(a => a.bindings@[ia as int].1));
                if !values_equal(&a.bindings[ia].1, &b.bindings[ib].1) {
                    return false;
                }
                assert(same_value_at(a@, b@, a.bindings@[i as int].0@));
            },
        }
        i = i + 1;
    }
    let mut j: usize = 0;
    while j < b.bindings.len()
        invariant
            j <= b.bindings.len(),
            forall|k: int| 0 <= k < j ==> #[trigger] a@.contains_key(b.bindings@[k].0@),
        decreases b.bindings.len() - j,
    {
        if a.find(&b.bindings[j].0).is_none() {
            proof {
                lemma_value_bindings_has(b.bindings@, j as int);
            }
            return false;
        }
        j = j + 1;
    }
    proof {
        assert forall|k: Seq<char>| #[trigger] a@.contains_key(k) implies b@.contains_key(k) && b@[k] == a@[k] by {
            lemma_value_bindings_dom(a.bindings@, k);
            let j = choose|j: int| 0 <= j < a.bindings@.len() && a.bindings@[j].0@ == k;
            assert(same_value_at(a@, b@, a.bindings@[j].0@));
        }
        assert forall|k: Seq<char>| #[trigger] b@.contains_key(k) implies a@.contains_key(k) by {
            lemma_value_bindings_dom(b.bindings@, k);
        }
        assert(a@ =~= b@);
    }
    true
}

impl PartialEq for Value {
    fn eq(&self, other: &Value) -> (r: bool)
        ensures
            r == (self@ == other@),
    {
        values_equal(self, other)
    }
}

impl vstd::std_specs::cmp::PartialEqSpecImpl for Value {
    open spec fn obeys_eq_spec() -> bool {
        true
    }

    open spec fn eq_spec(&self, other: &Value) -> bool {
        self@ == other@
    }
}

impl PartialEq for EvalEnv {
    fn eq(&self, other: &EvalEnv) -> (r: bool)
        ensures
            r == (self@ == other@),
    {
        eval_envs_equal(self, other)
    }
}

impl vstd::std_specs::cmp::PartialEqSpecImpl for EvalEnv {
    open spec fn obeys_eq_spec() -> bool {
        true
    }

    open spec fn eq_spec(&self, other: &EvalEnv) -> bool {
        self@ == other@
    }
}

} // verus!
