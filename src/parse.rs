//! The parser: each function here computes the grammar rule of the same name.
use vstd::prelude::*;
use crate::ast::{BinMathOp, Term, TermModel};
use crate::grammar;
use crate::grammar::{ErrorKind, Parsed};

verus! {

broadcast use vstd::std_specs::vec::group_vec_axioms, vstd::seq::group_seq_axioms;

/// A syntax error: the input left where parsing failed, and what was expected
/// there.
#[derive(PartialEq, Eq, Debug)]
pub struct SyntaxError {
    pub remaining: String,
    pub expected: ErrorKind,
}

/// The outcome of a parser at a position of the text.
type Step = Result<(usize, Term), (usize, ErrorKind)>;

spec fn step_view(r: Step) -> Parsed {
    match r {
        Ok((e, t)) => Ok((e as int, t@)),
        Err((a, k)) => Err((a as int, k)),
    }
}

/// A success read at least one character; every position stays within the text.
spec fn advances(r: Step, p: int, n: int) -> bool {
    match r {
        Ok((e, _)) => p < e <= n,
        Err((a, _)) => a <= n,
    }
}

/// The view of a parser's public outcome.
pub open spec fn outcome_view(r: Result<(String, Term), SyntaxError>) -> Result<(Seq<char>, TermModel), (Seq<char>, ErrorKind)> {
    match r {
        Ok((rest, t)) => Ok((rest@, t@)),
        Err(e) => Err((e.remaining@, e.expected)),
    }
}

fn is_ident_start(c: char) -> (r: bool)
    ensures
        r == grammar::is_ident_start(c),
{
    ('a' <= c && c <= 'z') || ('A' <= c && c <= 'Z') || c == '_'
}

fn is_ident_char(c: char) -> (r: bool)
    ensures
        r == grammar::is_ident_char(c),
{
    is_ident_start(c) || ('0' <= c && c <= '9')
}

/// The text being parsed, with its characters at hand by position.
struct Source<'a> {
    text: &'a str,
    chars: Vec<char>,
}

impl<'a> Source<'a> {
    spec fn s(&self) -> Seq<char> {
        self.chars@
    }

    spec fn wf(&self) -> bool {
        self.chars@ == self.text@ && self.chars@.len() <= usize::MAX
    }

    fn new(text: &'a str) -> (r: Source<'a>)
        ensures
            r.wf(),
            r.s() == text@,
    {
        let mut chars: Vec<char> = Vec::new();
        for c in it: text.chars()
            invariant
                it.seq() == text@,
                chars@ == text@.take(it.index() as int),
        {
            chars.push(c);
            assert(chars@ =~= text@.take(it.index() as int + 1));
        }
        assert(chars@ =~= text@);
        // the length of a vector fits in a usize
        let len = chars.len();
        assert(len == chars@.len());
        Source { text, chars }
    }

    /// The text from `p` on.
    fn rest(&self, p: usize) -> (r: String)
        requires
            self.wf(),
            p <= self.s().len(),
        ensures
            r@ == self.s().subrange(p as int, self.s().len() as int),
    {
        String::from_str(self.text.substring_char(p, self.chars.len()))
    }

    fn finish(&self, r: Step) -> (o: Result<(String, Term), SyntaxError>)
        requires
            self.wf(),
            advances(r, 0, self.s().len() as int),
        ensures
            outcome_view(o) == grammar::outcome(self.s(), step_view(r)),
    {
        match r {
            Ok((e, t)) => Ok((self.rest(e), t)),
            Err((a, k)) => Err(SyntaxError { remaining: self.rest(a), expected: k }),
        }
    }

    fn char_is(&self, p: usize, c: char) -> (r: bool)
        requires
            self.wf(),
        ensures
            r == grammar::char_at(self.s(), p as int, c),
    {
        p < self.chars.len() && self.chars[p] == c
    }

    /// Whether the text at `p` starts with `w`.
    fn text_is(&self, p: usize, w: &str) -> (r: bool)
        requires
            self.wf(),
            p <= self.s().len(),
        ensures
            r == grammar::text_at(self.s(), p as int, w@),
    {
        let n = w.unicode_len();
        if n > self.chars.len() - p {
            return false;
        }
        let mut i: usize = 0;
        while i < n
            invariant
                i <= n,
                n == w@.len(),
                self.wf(),
                p + n <= self.s().len(),
                forall|j: int| 0 <= j < i ==> self.s()[p + j] == w@[j],
            decreases n - i,
        {
            if self.chars[p + i] != w.get_char(i) {
                assert(self.s().subrange(p as int, p + n)[i as int] != w@[i as int]);
                return false;
            }
            i = i + 1;
        }
        assert(self.s().subrange(p as int, p + n) =~= w@);
        true
    }

    /// Whether the text from `p` up to `e` is `w`.
    fn word_is(&self, p: usize, e: usize, w: &str) -> (r: bool)
        requires
            self.wf(),
            p <= e <= self.s().len(),
        ensures
            r == (self.s().subrange(p as int, e as int) == w@),
    {
        if e - p != w.unicode_len() {
            return false;
        }
        self.text_is(p, w)
    }

    fn skip_ws_at(&self, p: usize) -> (q: usize)
        requires
            self.wf(),
            p <= self.s().len(),
        ensures
            q == grammar::skip_ws(self.s(), p as int),
            p <= q <= self.s().len(),
    {
        let mut i = p;
        while i < self.chars.len() && (self.chars[i] == ' ' || self.chars[i] == '\t' || self.chars[i] == '\r'
            || self.chars[i] == '\n')
            invariant
                p <= i <= self.s().len(),
                grammar::skip_ws(self.s(), i as int) == grammar::skip_ws(self.s(), p as int),
            decreases self.s().len() - i,
        {
            i = i + 1;
        }
        i
    }

    fn line_end_at(&self, p: usize) -> (q: usize)
        requires
            self.wf(),
            p <= self.s().len(),
        ensures
            q == grammar::line_end(self.s(), p as int),
            p <= q <= self.s().len(),
    {
        let mut i = p;
        while i < self.chars.len() && self.chars[i] != '\n'
            invariant
                p <= i <= self.s().len(),
                grammar::line_end(self.s(), i as int) == grammar::line_end(self.s(), p as int),
            decreases self.s().len() - i,
        {
            i = i + 1;
        }
        i
    }

    fn ident_end_at(&self, p: usize) -> (q: usize)
        requires
            self.wf(),
            p <= self.s().len(),
        ensures
            q == grammar::ident_end(self.s(), p as int),
            p <= q <= self.s().len(),
    {
        let mut i = p;
        while i < self.chars.len() && is_ident_char(self.chars[i])
            invariant
                p <= i <= self.s().len(),
                grammar::ident_end(self.s(), i as int) == grammar::ident_end(self.s(), p as int),
            decreases self.s().len() - i,
        {
            i = i + 1;
        }
        i
    }

    fn digits_end_at(&self, p: usize) -> (q: usize)
        requires
            self.wf(),
            p <= self.s().len(),
        ensures
            q == grammar::digits_end(self.s(), p as int),
            p <= q <= self.s().len(),
    {
        let mut i = p;
        while i < self.chars.len() && '0' <= self.chars[i] && self.chars[i] <= '9'
            invariant
                p <= i <= self.s().len(),
                grammar::digits_end(self.s(), i as int) == grammar::digits_end(self.s(), p as int),
            decreases self.s().len() - i,
        {
            i = i + 1;
        }
        i
    }

    fn is_reserved(&self, p: usize, e: usize) -> (r: bool)
        requires
            self.wf(),
            p <= e <= self.s().len(),
        ensures
            r == grammar::is_reserved(self.s().subrange(p as int, e as int)),
    {
        self.word_is(p, e, "if") || self.word_is(p, e, "then") || self.word_is(p, e, "else")
            || self.word_is(p, e, "endif") || self.word_is(p, e, "true") || self.word_is(p, e, "false")
    }

    fn name_at(&self, p: usize) -> (r: Result<(usize, String), (usize, ErrorKind)>)
        requires
            self.wf(),
            p <= self.s().len(),
        ensures
            match r {
                Ok((e, n)) => grammar::name(self.s(), p as int) == Ok::<(int, Seq<char>), (int, ErrorKind)>((e as int, n@))
                    && p < e <= self.s().len(),
                Err((a, k)) => grammar::name(self.s(), p as int) == Err::<(int, Seq<char>), (int, ErrorKind)>((a as int, k))
                    && a <= self.s().len(),
            },
    {
        if p < self.chars.len() && is_ident_start(self.chars[p]) {
            let e = self.ident_end_at(p + 1);
            if self.is_reserved(p, e) {
                Err((p, ErrorKind::Reserved))
            } else {
                Ok((e, String::from_str(self.text.substring_char(p, e))))
            }
        } else {
            Err((p, ErrorKind::Identifier))
        }
    }

    fn variable_at(&self, p: usize) -> (r: Step)
        requires
            self.wf(),
            p <= self.s().len(),
        ensures
            step_view(r) == grammar::variable(self.s(), p as int),
            advances(r, p as int, self.s().len() as int),
    {
        match self.name_at(p) {
            Ok((e, n)) => Ok((e, Term::Var(n))),
            Err(x) => Err(x),
        }
    }

    fn number_at(&self, p: usize) -> (r: Step)
        requires
            self.wf(),
            p <= self.s().len(),
        ensures
            step_view(r) == grammar::number(self.s(), p as int),
            advances(r, p as int, self.s().len() as int),
    {
        let e = self.digits_end_at(p);
        if e == p {
            return Err((p, ErrorKind::Digit));
        }
        proof {
            grammar::lemma_digits_end(self.s(), p as int);
        }
        let mut v: u64 = 0;
        let mut i = p;
        while i < e
            invariant
                p <= i <= e <= self.s().len(),
                e == grammar::digits_end(self.s(), p as int),
                forall|j: int| p <= j < e ==> grammar::is_digit(#[trigger] self.s()[j]),
                v as nat == grammar::decimal(self.s(), p as int, i as int),
            decreases e - i,
        {
            let c = self.chars[i];
            let d = (c as u32 - '0' as u32) as u64;
            assert(self.s()[i as int] == c);
            assert(d == (c as int - '0' as int));
            proof {
                lemma_decimal_grows(self.s(), p as int, i as int + 1, e as int);
            }
            match v.checked_mul(10) {
                None => {
                    return Err((p, ErrorKind::Overflow));
                },
                Some(m) => match m.checked_add(d) {
                    None => {
                        return Err((p, ErrorKind::Overflow));
                    },
                    Some(x) => {
                        v = x;
                    },
                },
            }
            i = i + 1;
        }
        Ok((e, Term::NumConst(v)))
    }

    fn boolean_at(&self, p: usize) -> (r: Step)
        requires
            self.wf(),
            p <= self.s().len(),
        ensures
            step_view(r) == grammar::boolean(self.s(), p as int),
            advances(r, p as int, self.s().len() as int),
    {
        proof {
            reveal_strlit("true");
            reveal_strlit("false");
        }
        if self.text_is(p, "true") {
            Ok((p + 4, Term::BoolConst(true)))
        } else if self.text_is(p, "false") {
            Ok((p + 5, Term::BoolConst(false)))
        } else {
            Err((p, ErrorKind::Alt))
        }
    }
}

impl<'a> Source<'a> {
    fn terminal_at(&self, p: usize) -> (r: Step)
        requires
            self.wf(),
            p <= self.s().len(),
        ensures
            step_view(r) == grammar::terminal(self.s(), p as int),
            advances(r, p as int, self.s().len() as int),
        decreases self.s().len() - p, 1int,
    {
        if let Ok(x) = self.variable_at(p) {
            return Ok(x);
        }
        if let Ok(x) = self.number_at(p) {
            return Ok(x);
        }
        if let Ok(x) = self.boolean_at(p) {
            return Ok(x);
        }
        if !self.char_is(p, '(') {
            return Err((p, ErrorKind::Alt));
        }
        let inner = match self.lambda_at(p + 1) {
            Ok(x) => Ok(x),
            Err(_) => self.term_at(p + 1),
        };
        match inner {
            Ok((e, t)) => if self.char_is(e, ')') {
                Ok((e + 1, t))
            } else {
                Err((p, ErrorKind::Alt))
            },
            Err(_) => Err((p, ErrorKind::Alt)),
        }
    }

    fn lambda_at(&self, p: usize) -> (r: Step)
        requires
            self.wf(),
            p <= self.s().len(),
        ensures
            step_view(r) == grammar::lambda(self.s(), p as int),
            advances(r, p as int, self.s().len() as int),
        decreases self.s().len() - p, 10int,
    {
        let p0 = self.skip_ws_at(p);
        if !self.char_is(p0, '\\') {
            return Err((p0, ErrorKind::Tag));
        }
        let p1 = self.skip_ws_at(p0 + 1);
        let (p2, v) = match self.name_at(p1) {
            Ok(x) => x,
            Err(x) => {
                return Err(x);
            },
        };
        let p3 = self.skip_ws_at(p2);
        if !self.char_is(p3, '.') {
            return Err((p3, ErrorKind::Tag));
        }
        let p4 = self.skip_ws_at(p3 + 1);
        match self.term_at(p4) {
            Err(x) => Err(x),
            Ok((e, body)) => Ok((self.skip_ws_at(e), Term::Lambda { var_name: v, expr: Box::new(body) })),
        }
    }

    fn application_at(&self, p: usize) -> (r: Step)
        requires
            self.wf(),
            p <= self.s().len(),
        ensures
            step_view(r) == grammar::application(self.s(), p as int),
            advances(r, p as int, self.s().len() as int),
        decreases self.s().len() - p, 3int,
    {
        let p0 = self.skip_ws_at(p);
        let (e, t) = match self.terminal_at(p0) {
            Ok(x) => x,
            Err(x) => {
                return Err(x);
            },
        };
        let ghost target = grammar::application_rest(self.s(), e as int, t@);
        let mut acc = t;
        let mut cur = e;
        loop
            invariant
                self.wf(),
                p < cur <= self.s().len(),
                grammar::application_rest(self.s(), cur as int, acc@) == target,
                target == grammar::application(self.s(), p as int),
            decreases self.s().len() - cur,
        {
            let q = self.skip_ws_at(cur);
            match self.terminal_at(q) {
                Ok((e2, t2)) => {
                    acc = Term::Apply { var_term: Box::new(t2), function: Box::new(acc) };
                    cur = e2;
                },
                Err(_) => {
                    return Ok((q, acc));
                },
            }
        }
    }

    fn multiplicand_at(&self, p: usize) -> (r: Step)
        requires
            self.wf(),
            p <= self.s().len(),
        ensures
            step_view(r) == grammar::multiplicand(self.s(), p as int),
            advances(r, p as int, self.s().len() as int),
        decreases self.s().len() - p, 4int,
    {
        if self.text_is(p, "if") {
            proof {
                reveal_strlit("if");
            }
            if let Ok(x) = self.if_rest_at(p + 2) {
                return Ok(x);
            }
        }
        match self.application_at(p) {
            Ok(x) => Ok(x),
            Err(_) => Err((p, ErrorKind::Alt)),
        }
    }

    fn if_rest_at(&self, p: usize) -> (r: Step)
        requires
            self.wf(),
            p <= self.s().len(),
        ensures
            step_view(r) == grammar::if_rest(self.s(), p as int),
            advances(r, p as int, self.s().len() as int),
        decreases self.s().len() - p, 10int,
    {
        proof {
            reveal_strlit("then");
            reveal_strlit("else");
            reveal_strlit("endif");
        }
        let (e1, c) = match self.term_at(p) {
            Ok(x) => x,
            Err(x) => {
                return Err(x);
            },
        };
        if !self.text_is(e1, "then") {
            return Err((e1, ErrorKind::Tag));
        }
        let (e2, t) = match self.term_at(e1 + 4) {
            Ok(x) => x,
            Err(x) => {
                return Err(x);
            },
        };
        if !self.text_is(e2, "else") {
            return Err((e2, ErrorKind::Tag));
        }
        let (e3, f) = match self.term_at(e2 + 4) {
            Ok(x) => x,
            Err(x) => {
                return Err(x);
            },
        };
        if !self.text_is(e3, "endif") {
            return Err((e3, ErrorKind::Tag));
        }
        Ok((e3 + 5, Term::IfStmt { test: Box::new(c), then_body: Box::new(t), else_body: Box::new(f) }))
    }

    fn mul_op_at(&self, p: usize) -> (r: Option<BinMathOp>)
        requires
            self.wf(),
        ensures
            r == grammar::mul_op(self.s(), p as int),
    {
        if self.char_is(p, '*') {
            Some(BinMathOp::Multiply)
        } else if self.char_is(p, '/') {
            Some(BinMathOp::Divide)
        } else {
            None
        }
    }

    fn add_op_at(&self, p: usize) -> (r: Option<BinMathOp>)
        requires
            self.wf(),
        ensures
            r == grammar::add_op(self.s(), p as int),
    {
        if self.char_is(p, '+') {
            Some(BinMathOp::Add)
        } else if self.char_is(p, '-') {
            Some(BinMathOp::Minus)
        } else {
            None
        }
    }

    fn addend_at(&self, p: usize) -> (r: Step)
        requires
            self.wf(),
            p <= self.s().len(),
        ensures
            step_view(r) == grammar::addend(self.s(), p as int),
            advances(r, p as int, self.s().len() as int),
        decreases self.s().len() - p, 6int,
    {
        let p0 = self.skip_ws_at(p);
        let (e, m) = match self.multiplicand_at(p0) {
            Ok(x) => x,
            Err(x) => {
                return Err(x);
            },
        };
        let ghost target = grammar::addend_rest(self.s(), e as int, m@);
        let mut acc = m;
        let mut cur = e;
        loop
            invariant
                self.wf(),
                p < cur <= self.s().len(),
                grammar::addend_rest(self.s(), cur as int, acc@) == target,
                target == grammar::addend(self.s(), p as int),
            decreases self.s().len() - cur,
        {
            let q = self.skip_ws_at(cur);
            let op = match self.mul_op_at(q) {
                Some(op) => op,
                None => {
                    return Ok((q, acc));
                },
            };
            let q1 = self.skip_ws_at(q + 1);
            match self.multiplicand_at(q1) {
                Ok((e2, m2)) => {
                    acc = Term::MathOp { opr: op, t1: Box::new(acc), t2: Box::new(m2) };
                    cur = e2;
                },
                Err(_) => {
                    return Ok((q, acc));
                },
            }
        }
    }

    fn equalend_at(&self, p: usize) -> (r: Step)
        requires
            self.wf(),
            p <= self.s().len(),
        ensures
            step_view(r) == grammar::equalend(self.s(), p as int),
            advances(r, p as int, self.s().len() as int),
        decreases self.s().len() - p, 8int,
    {
        let p0 = self.skip_ws_at(p);
        let (e, a) = match self.addend_at(p0) {
            Ok(x) => x,
            Err(x) => {
                return Err(x);
            },
        };
        let ghost target = grammar::equalend_rest(self.s(), e as int, a@);
        let mut acc = a;
        let mut cur = e;
        loop
            invariant
                self.wf(),
                p < cur <= self.s().len(),
                grammar::equalend_rest(self.s(), cur as int, acc@) == target,
                target == grammar::equalend(self.s(), p as int),
            decreases self.s().len() - cur,
        {
            let q = self.skip_ws_at(cur);
            let op = match self.add_op_at(q) {
                Some(op) => op,
                None => {
                    return Ok((q, acc));
                },
            };
            let q1 = self.skip_ws_at(q + 1);
            match self.addend_at(q1) {
                Ok((e2, a2)) => {
                    acc = Term::MathOp { opr: op, t1: Box::new(acc), t2: Box::new(a2) };
                    cur = e2;
                },
                Err(_) => {
                    return Ok((q, acc));
                },
            }
        }
    }

    fn term_at(&self, p: usize) -> (r: Step)
        requires
            self.wf(),
            p <= self.s().len(),
        ensures
            step_view(r) == grammar::term(self.s(), p as int),
            advances(r, p as int, self.s().len() as int),
        decreases self.s().len() - p, 9int,
    {
        let p0 = self.skip_ws_at(p);
        let (e1, l) = match self.equalend_at(p0) {
            Ok(x) => x,
            Err(x) => {
                return Err(x);
            },
        };
        let p1 = self.skip_ws_at(e1);
        proof {
            reveal_strlit("==");
            reveal_strlit("!=");
        }
        let negated = if self.text_is(p1, "==") {
            false
        } else if self.text_is(p1, "!=") {
            true
        } else {
            return Ok((p1, l));
        };
        let p2 = self.skip_ws_at(p1 + 2);
        match self.equalend_at(p2) {
            Ok((e2, r)) => {
                let t = if negated {
                    Term::NotEquals { left_side: Box::new(l), right_side: Box::new(r) }
                } else {
                    Term::Equals { left_side: Box::new(l), right_side: Box::new(r) }
                };
                Ok((self.skip_ws_at(e2), t))
            },
            Err(_) => Ok((p1, l)),
        }
    }
}

impl<'a> Source<'a> {
    fn assignment_at(&self, p: usize) -> (r: Step)
        requires
            self.wf(),
            p <= self.s().len(),
        ensures
            step_view(r) == grammar::assignment(self.s(), p as int),
            advances(r, p as int, self.s().len() as int),
    {
        let p0 = self.skip_ws_at(p);
        let (p1, v) = match self.name_at(p0) {
            Ok(x) => x,
            Err(x) => {
                return Err(x);
            },
        };
        let p2 = self.skip_ws_at(p1);
        proof {
            reveal_strlit(":=");
        }
        if !self.text_is(p2, ":=") {
            return Err((p2, ErrorKind::Tag));
        }
        let p3 = self.skip_ws_at(p2 + 2);
        match self.term_at(p3) {
            Err(x) => Err(x),
            Ok((e, t)) => Ok((self.skip_ws_at(e), Term::Assignm { var_name: v, expr: Box::new(t) })),
        }
    }

    fn statement_at(&self, p: usize) -> (r: Step)
        requires
            self.wf(),
            p <= self.s().len(),
        ensures
            step_view(r) == grammar::statement(self.s(), p as int),
            advances(r, p as int, self.s().len() as int),
    {
        if let Ok(x) = self.assignment_at(p) {
            return Ok(x);
        }
        match self.term_at(p) {
            Ok(x) => Ok(x),
            Err(_) => Err((p, ErrorKind::Alt)),
        }
    }
}

/// The views of a sequence of terms.
pub open spec fn terms_view(ts: Seq<Term>) -> Seq<TermModel> {
    ts.map_values(|t: Term| t@)
}

/// `variable := identifier`, not a reserved word. The result holds the rest of
/// the input.
pub fn variable(input: &str) -> (r: Result<(String, Term), SyntaxError>)
    ensures
        outcome_view(r) == grammar::outcome(input@, grammar::variable(input@, 0)),
{
    let src = Source::new(input);
    let r = src.variable_at(0);
    src.finish(r)
}

/// `number := digit+`, in base 10, within `u64`.
pub fn number(input: &str) -> (r: Result<(String, Term), SyntaxError>)
    ensures
        outcome_view(r) == grammar::outcome(input@, grammar::number(input@, 0)),
{
    let src = Source::new(input);
    let r = src.number_at(0);
    src.finish(r)
}

/// `boolean := "true" | "false"`.
pub fn boolean(input: &str) -> (r: Result<(String, Term), SyntaxError>)
    ensures
        outcome_view(r) == grammar::outcome(input@, grammar::boolean(input@, 0)),
{
    let src = Source::new(input);
    let r = src.boolean_at(0);
    src.finish(r)
}

/// `lambda := "\" variable "." term`.
pub fn lambda(input: &str) -> (r: Result<(String, Term), SyntaxError>)
    ensures
        outcome_view(r) == grammar::outcome(input@, grammar::lambda(input@, 0)),
{
    let src = Source::new(input);
    let r = src.lambda_at(0);
    src.finish(r)
}

/// `terminal := variable | number | boolean | "(" (lambda | term) ")"`.
pub fn terminal(input: &str) -> (r: Result<(String, Term), SyntaxError>)
    ensures
        outcome_view(r) == grammar::outcome(input@, grammar::terminal(input@, 0)),
{
    let src = Source::new(input);
    let r = src.terminal_at(0);
    src.finish(r)
}

/// `application := terminal { terminal }`, applied from the left.
pub fn application(input: &str) -> (r: Result<(String, Term), SyntaxError>)
    ensures
        outcome_view(r) == grammar::outcome(input@, grammar::application(input@, 0)),
{
    let src = Source::new(input);
    let r = src.application_at(0);
    src.finish(r)
}

/// `multiplicand := "if" term "then" term "else" term "endif" | application`.
pub fn multiplicand(input: &str) -> (r: Result<(String, Term), SyntaxError>)
    ensures
        outcome_view(r) == grammar::outcome(input@, grammar::multiplicand(input@, 0)),
{
    let src = Source::new(input);
    let r = src.multiplicand_at(0);
    src.finish(r)
}

/// `addend := multiplicand { ("*" | "/") multiplicand }`, grouped to the left.
pub fn addend(input: &str) -> (r: Result<(String, Term), SyntaxError>)
    ensures
        outcome_view(r) == grammar::outcome(input@, grammar::addend(input@, 0)),
{
    let src = Source::new(input);
    let r = src.addend_at(0);
    src.finish(r)
}

/// `equalend := addend { ("+" | "-") addend }`, grouped to the left.
pub fn equalend(input: &str) -> (r: Result<(String, Term), SyntaxError>)
    ensures
        outcome_view(r) == grammar::outcome(input@, grammar::equalend(input@, 0)),
{
    let src = Source::new(input);
    let r = src.equalend_at(0);
    src.finish(r)
}

/// `term := equalend [ ("==" | "!=") equalend ]`.
pub fn term(input: &str) -> (r: Result<(String, Term), SyntaxError>)
    ensures
        outcome_view(r) == grammar::outcome(input@, grammar::term(input@, 0)),
{
    let src = Source::new(input);
    let r = src.term_at(0);
    src.finish(r)
}

/// `assignment := variable ":=" term`.
pub fn assignment(input: &str) -> (r: Result<(String, Term), SyntaxError>)
    ensures
        outcome_view(r) == grammar::outcome(input@, grammar::assignment(input@, 0)),
{
    let src = Source::new(input);
    let r = src.assignment_at(0);
    src.finish(r)
}

/// `statement := assignment | term`.
pub fn statement(input: &str) -> (r: Result<(String, Term), SyntaxError>)
    ensures
        outcome_view(r) == grammar::outcome(input@, grammar::statement(input@, 0)),
{
    let src = Source::new(input);
    let r = src.statement_at(0);
    src.finish(r)
}

/// The statement on the line of `input` from `p` up to `e`, if any.
fn line_at(input: &str, src: &Source, p: usize, e: usize) -> (r: Result<Option<Term>, SyntaxError>)
    requires
        src.wf(),
        src.s() == input@,
        p <= e <= src.s().len(),
    ensures
        match grammar::line_statement(input@, p as int, e as int) {
            Ok(o) => r matches Ok(x) && match (o, x) {
                (Some(t), Some(u)) => u@ == t,
                (None, None) => true,
                _ => false,
            },
            Err((a, k)) => r matches Err(err) && err.remaining@ == input@.subrange(a, input@.len() as int)
                && err.expected == k,
        },
{
    let line = Source::new(input.substring_char(p, e));
    assert(line.s() == input@.subrange(p as int, e as int));
    if line.skip_ws_at(0) >= line.chars.len() {
        return Ok(None);
    }
    match line.statement_at(0) {
        Err((a, k)) => Err(SyntaxError { remaining: src.rest(p + a), expected: k }),
        Ok((q, t)) => if q < line.chars.len() {
            Err(SyntaxError { remaining: src.rest(p + q), expected: ErrorKind::LineEnd })
        } else {
            Ok(Some(t))
        },
    }
}

/// `r` with the statements `done` in front of it.
spec fn after(done: Seq<TermModel>, r: Result<Seq<TermModel>, (int, ErrorKind)>) -> Result<Seq<TermModel>, (int, ErrorKind)> {
    match r {
        Ok(ts) => Ok(done + ts),
        Err(x) => Err(x),
    }
}

proof fn lemma_after_push(done: Seq<TermModel>, t: TermModel, r: Result<Seq<TermModel>, (int, ErrorKind)>)
    ensures
        after(done, after(seq![t], r)) == after(done.push(t), r),
{
    if let Ok(ts) = r {
        assert(done + (seq![t] + ts) =~= done.push(t) + ts);
    }
}

/// The statements of a program, one per line, in order. Blank lines are
/// skipped; a failure gives the rest of the whole input from where it
/// happened.
pub fn parse_file(input: &str) -> (r: Result<Vec<Term>, SyntaxError>)
    ensures
        match grammar::program(input@, 0) {
            Ok(ts) => r matches Ok(v) && terms_view(v@) == ts,
            Err((a, k)) => r matches Err(e) && e.remaining@ == input@.subrange(a, input@.len() as int)
                && e.expected == k,
        },
{
    let src = Source::new(input);
    let n = src.chars.len();
    let mut out: Vec<Term> = Vec::new();
    let mut p: usize = 0;
    assert(after(terms_view(out@), grammar::program(input@, 0)) == grammar::program(input@, 0)) by {
        if let Ok(ts) = grammar::program(input@, 0) {
            assert(terms_view(out@) + ts =~= ts);
        }
    }
    loop
        invariant
            src.wf(),
            src.s() == input@,
            n == input@.len(),
            p <= n,
            grammar::program(input@, 0) == after(terms_view(out@), grammar::program(input@, p as int)),
        decreases n - p,
    {
        if p >= n {
            assert(terms_view(out@) + Seq::<TermModel>::empty() =~= terms_view(out@));
            return Ok(out);
        }
        let e = src.line_end_at(p);
        proof {
            grammar::lemma_program_step(input@, p as int);
        }
        let found = match line_at(input, &src, p, e) {
            Ok(x) => x,
            Err(err) => {
                return Err(err);
            },
        };
        if let Some(t) = found {
            proof {
                lemma_after_push(terms_view(out@), t@, grammar::program(input@, e + 1));
                assert(terms_view(out@.push(t)) =~= terms_view(out@).push(t@));
            }
            out.push(t);
        }
        if e >= n {
            p = n;
        } else {
            p = e + 1;
        }
    }
}

/// Digits only add to a decimal value.
proof fn lemma_decimal_grows(s: Seq<char>, p: int, i: int, e: int)
    requires
        p <= i <= e,
    ensures
        grammar::decimal(s, p, i) <= grammar::decimal(s, p, e),
    decreases e - i,
{
    if i < e {
        lemma_decimal_grows(s, p, i, e - 1);
    }
}

} // verus!
