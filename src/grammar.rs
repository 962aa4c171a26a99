//! The grammar of the language, as spec functions over a text `s` and a
//! position `p`. Each rule gives the position after what it read and the term
//! read, or the position where it failed and what it expected there.
//! Whitespace between tokens is skipped. On a failed alternative the next one
//! is tried from the same position.
use vstd::prelude::*;
use crate::ast::{BinMathOp, Term, TermModel};

verus! {

broadcast use vstd::std_specs::vec::group_vec_axioms, vstd::seq::group_seq_axioms;

/// What a parser expected where it failed.
#[derive(PartialEq, Eq, Structural, Clone, Copy, Debug)]
pub enum ErrorKind {
    /// An identifier.
    Identifier,
    /// An identifier that is not a reserved word.
    Reserved,
    /// A decimal digit.
    Digit,
    /// A number that fits in 64 bits.
    Overflow,
    /// One of several alternatives.
    Alt,
    /// A fixed token such as `:=` or `then`.
    Tag,
    /// The end of the line, after a whole statement.
    LineEnd,
}

/// The outcome of a grammar rule at the spec level.
pub type Parsed = Result<(int, TermModel), (int, ErrorKind)>;

pub open spec fn is_ws(c: char) -> bool {
    c == ' ' || c == '\t' || c == '\r' || c == '\n'
}

pub open spec fn is_ident_start(c: char) -> bool {
    ('a' <= c && c <= 'z') || ('A' <= c && c <= 'Z') || c == '_'
}

pub open spec fn is_ident_char(c: char) -> bool {
    is_ident_start(c) || ('0' <= c && c <= '9')
}

pub open spec fn is_digit(c: char) -> bool {
    '0' <= c && c <= '9'
}

/// The character at `p` is `c`.
pub open spec fn char_at(s: Seq<char>, p: int, c: char) -> bool {
    0 <= p < s.len() && s[p] == c
}

/// The text at `p` starts with `w`.
pub open spec fn text_at(s: Seq<char>, p: int, w: Seq<char>) -> bool {
    0 <= p && p + w.len() <= s.len() && s.subrange(p, p + w.len()) == w
}

/// The first position from `p` on that is not whitespace.
pub open spec fn skip_ws(s: Seq<char>, p: int) -> int
    decreases s.len() - p,
{
    if 0 <= p < s.len() && is_ws(s[p]) {
        skip_ws(s, p + 1)
    } else {
        p
    }
}

/// The first position from `p` on that does not hold an identifier character.
pub open spec fn ident_end(s: Seq<char>, p: int) -> int
    decreases s.len() - p,
{
    if 0 <= p < s.len() && is_ident_char(s[p]) {
        ident_end(s, p + 1)
    } else {
        p
    }
}

/// The first position from `p` on that does not hold a digit.
pub open spec fn digits_end(s: Seq<char>, p: int) -> int
    decreases s.len() - p,
{
    if 0 <= p < s.len() && is_digit(s[p]) {
        digits_end(s, p + 1)
    } else {
        p
    }
}

/// The decimal value of the digits from `p` up to `e`.
pub open spec fn decimal(s: Seq<char>, p: int, e: int) -> nat
    decreases e - p,
{
    if e <= p {
        0
    } else {
        decimal(s, p, e - 1) * 10 + ((s[e - 1] as int - '0' as int) as nat)
    }
}

pub open spec fn is_reserved(w: Seq<char>) -> bool {
    w == "if"@ || w == "then"@ || w == "else"@ || w == "endif"@ || w == "true"@ || w == "false"@
}

/// An identifier that is not a reserved word: `[A-Za-z_][A-Za-z0-9_]*`.
pub open spec fn name(s: Seq<char>, p: int) -> Result<(int, Seq<char>), (int, ErrorKind)> {
    if 0 <= p < s.len() && is_ident_start(s[p]) {
        let e = ident_end(s, p + 1);
        if is_reserved(s.subrange(p, e)) {
            Err((p, ErrorKind::Reserved))
        } else {
            Ok((e, s.subrange(p, e)))
        }
    } else {
        Err((p, ErrorKind::Identifier))
    }
}

/// `variable := identifier`, not a reserved word.
pub open spec fn variable(s: Seq<char>, p: int) -> Parsed {
    match name(s, p) {
        Ok((e, n)) => Ok((e, TermModel::Var(n))),
        Err(x) => Err(x),
    }
}

/// `number := digit+`, read in base 10; a value beyond `u64::MAX` fails.
pub open spec fn number(s: Seq<char>, p: int) -> Parsed {
    let e = digits_end(s, p);
    if e == p {
        Err((p, ErrorKind::Digit))
    } else if decimal(s, p, e) > u64::MAX {
        Err((p, ErrorKind::Overflow))
    } else {
        Ok((e, TermModel::NumConst(decimal(s, p, e) as u64)))
    }
}

/// `boolean := "true" | "false"`.
pub open spec fn boolean(s: Seq<char>, p: int) -> Parsed {
    if text_at(s, p, "true"@) {
        Ok((p + 4, TermModel::BoolConst(true)))
    } else if text_at(s, p, "false"@) {
        Ok((p + 5, TermModel::BoolConst(false)))
    } else {
        Err((p, ErrorKind::Alt))
    }
}

/// A success of a rule that read at least one character and stayed within
/// the text. Every rule below reads something when it succeeds; saying so
/// here lets the recursion through its result be seen to end.
pub open spec fn forward(s: Seq<char>, p: int, r: Parsed) -> Parsed {
    match r {
        Ok((e, t)) => if p < e <= s.len() {
            r
        } else {
            Err((p, ErrorKind::Alt))
        },
        Err(x) => Err(x),
    }
}

pub proof fn lemma_skip_ws(s: Seq<char>, p: int)
    ensures
        p <= skip_ws(s, p),
        p <= s.len() ==> skip_ws(s, p) <= s.len(),
        skip_ws(s, p) < s.len() && 0 <= p ==> !is_ws(s[skip_ws(s, p)]),
    decreases s.len() - p,
{
    if 0 <= p < s.len() && is_ws(s[p]) {
        lemma_skip_ws(s, p + 1);
    }
}

pub proof fn lemma_ident_end(s: Seq<char>, p: int)
    ensures
        p <= ident_end(s, p),
        p <= s.len() ==> ident_end(s, p) <= s.len(),
    decreases s.len() - p,
{
    if 0 <= p < s.len() && is_ident_char(s[p]) {
        lemma_ident_end(s, p + 1);
    }
}

pub proof fn lemma_digits_end(s: Seq<char>, p: int)
    ensures
        p <= digits_end(s, p),
        p <= s.len() ==> digits_end(s, p) <= s.len(),
        forall|i: int| p <= i < digits_end(s, p) ==> is_digit(#[trigger] s[i]),
    decreases s.len() - p,
{
    if 0 <= p < s.len() && is_digit(s[p]) {
        lemma_digits_end(s, p + 1);
    }
}

/// `terminal := variable | number | boolean | "(" (lambda | term) ")"`.
pub open spec fn terminal(s: Seq<char>, p: int) -> Parsed
    decreases s.len() - p, 1int,
{
    match variable(s, p) {
        Ok(x) => Ok(x),
        Err(_) => match number(s, p) {
            Ok(x) => Ok(x),
            Err(_) => match boolean(s, p) {
                Ok(x) => Ok(x),
                Err(_) => if char_at(s, p, '(') {
                    let inner = match lambda(s, p + 1) {
                        Ok(x) => Ok(x),
                        Err(_) => term(s, p + 1),
                    };
                    match inner {
                        Ok((e, t)) => if char_at(s, e, ')') {
                            Ok((e + 1, t))
                        } else {
                            Err((p, ErrorKind::Alt))
                        },
                        Err(_) => Err((p, ErrorKind::Alt)),
                    }
                } else {
                    Err((p, ErrorKind::Alt))
                },
            },
        },
    }
}

/// `lambda := "\" variable "." term`.
pub open spec fn lambda(s: Seq<char>, p: int) -> Parsed
    decreases s.len() - p, 10int,
{
    let p0 = skip_ws(s, p);
    if !char_at(s, p0, '\\') {
        Err((p0, ErrorKind::Tag))
    } else {
        let p1 = skip_ws(s, p0 + 1);
        match name(s, p1) {
            Err(x) => Err(x),
            Ok((p2, v)) => {
                let p3 = skip_ws(s, p2);
                if !char_at(s, p3, '.') {
                    Err((p3, ErrorKind::Tag))
                } else {
                    let p4 = skip_ws(s, p3 + 1);
                    proof {
                        lemma_skip_ws(s, p);
                        lemma_skip_ws(s, p0 + 1);
                        lemma_ident_end(s, p1 + 1);
                        lemma_skip_ws(s, p2);
                        lemma_skip_ws(s, p3 + 1);
                    }
                    match term(s, p4) {
                        Err(x) => Err(x),
                        Ok((e, body)) => Ok((skip_ws(s, e), TermModel::Lambda(v, Box::new(body)))),
                    }
                }
            },
        }
    }
}

/// `application := terminal { terminal }`, applied from the left.
pub open spec fn application(s: Seq<char>, p: int) -> Parsed
    decreases s.len() - p, 3int,
{
    let p0 = skip_ws(s, p);
    proof {
        lemma_skip_ws(s, p);
    }
    match forward(s, p0, terminal(s, p0)) {
        Err(x) => Err(x),
        Ok((e, t)) => application_rest(s, e, t),
    }
}

/// The arguments after the function of an application, applied in turn to
/// `acc`.
pub open spec fn application_rest(s: Seq<char>, p: int, acc: TermModel) -> Parsed
    decreases s.len() - p, 2int,
{
    let p0 = skip_ws(s, p);
    proof {
        lemma_skip_ws(s, p);
    }
    match forward(s, p0, terminal(s, p0)) {
        Ok((e, t)) => application_rest(s, e, TermModel::Apply(Box::new(t), Box::new(acc))),
        Err(_) => Ok((p0, acc)),
    }
}

/// `multiplicand := "if" term "then" term "else" term "endif" | application`.
pub open spec fn multiplicand(s: Seq<char>, p: int) -> Parsed
    decreases s.len() - p, 4int,
{
    let conditional = if text_at(s, p, "if"@) {
        proof {
            reveal_strlit("if");
        }
        if_rest(s, p + 2)
    } else {
        Err((p, ErrorKind::Alt))
    };
    match conditional {
        Ok(x) => Ok(x),
        Err(_) => match application(s, p) {
            Ok(x) => Ok(x),
            Err(_) => Err((p, ErrorKind::Alt)),
        },
    }
}

/// What follows `if` in a conditional.
pub open spec fn if_rest(s: Seq<char>, p: int) -> Parsed
    decreases s.len() - p, 10int,
{
    match forward(s, p, term(s, p)) {
        Err(x) => Err(x),
        Ok((e1, c)) => if !text_at(s, e1, "then"@) {
            Err((e1, ErrorKind::Tag))
        } else {
            proof {
                reveal_strlit("then");
            }
            match forward(s, e1 + 4, term(s, e1 + 4)) {
                Err(x) => Err(x),
                Ok((e2, t)) => if !text_at(s, e2, "else"@) {
                    Err((e2, ErrorKind::Tag))
                } else {
                    proof {
                        reveal_strlit("else");
                    }
                    match term(s, e2 + 4) {
                        Err(x) => Err(x),
                        Ok((e3, f)) => if !text_at(s, e3, "endif"@) {
                            Err((e3, ErrorKind::Tag))
                        } else {
                            Ok((e3 + 5, TermModel::IfStmt(Box::new(c), Box::new(t), Box::new(f))))
                        },
                    }
                },
            }
        },
    }
}

/// The operator at `p` among `*` and `/`.
pub open spec fn mul_op(s: Seq<char>, p: int) -> Option<BinMathOp> {
    if char_at(s, p, '*') {
        Some(BinMathOp::Multiply)
    } else if char_at(s, p, '/') {
        Some(BinMathOp::Divide)
    } else {
        None
    }
}

/// The operator at `p` among `+` and `-`.
pub open spec fn add_op(s: Seq<char>, p: int) -> Option<BinMathOp> {
    if char_at(s, p, '+') {
        Some(BinMathOp::Add)
    } else if char_at(s, p, '-') {
        Some(BinMathOp::Minus)
    } else {
        None
    }
}

/// `addend := multiplicand { ("*" | "/") multiplicand }`, grouped to the left.
pub open spec fn addend(s: Seq<char>, p: int) -> Parsed
    decreases s.len() - p, 6int,
{
    let p0 = skip_ws(s, p);
    proof {
        lemma_skip_ws(s, p);
    }
    match forward(s, p0, multiplicand(s, p0)) {
        Err(x) => Err(x),
        Ok((e, m)) => addend_rest(s, e, m),
    }
}

/// The operations after the first multiplicand, applied in turn to `acc`.
pub open spec fn addend_rest(s: Seq<char>, p: int, acc: TermModel) -> Parsed
    decreases s.len() - p, 5int,
{
    let p0 = skip_ws(s, p);
    proof {
        lemma_skip_ws(s, p);
    }
    match mul_op(s, p0) {
        None => Ok((p0, acc)),
        Some(op) => {
            let p1 = skip_ws(s, p0 + 1);
            proof {
                lemma_skip_ws(s, p0 + 1);
            }
            match forward(s, p1, multiplicand(s, p1)) {
                Ok((e, m)) => addend_rest(s, e, TermModel::MathOp(op, Box::new(acc), Box::new(m))),
                Err(_) => Ok((p0, acc)),
            }
        },
    }
}

/// `equalend := addend { ("+" | "-") addend }`, grouped to the left.
pub open spec fn equalend(s: Seq<char>, p: int) -> Parsed
    decreases s.len() - p, 8int,
{
    let p0 = skip_ws(s, p);
    proof {
        lemma_skip_ws(s, p);
    }
    match forward(s, p0, addend(s, p0)) {
        Err(x) => Err(x),
        Ok((e, a)) => equalend_rest(s, e, a),
    }
}

/// The operations after the first addend, applied in turn to `acc`.
pub open spec fn equalend_rest(s: Seq<char>, p: int, acc: TermModel) -> Parsed
    decreases s.len() - p, 7int,
{
    let p0 = skip_ws(s, p);
    proof {
        lemma_skip_ws(s, p);
    }
    match add_op(s, p0) {
        None => Ok((p0, acc)),
        Some(op) => {
            let p1 = skip_ws(s, p0 + 1);
            proof {
                lemma_skip_ws(s, p0 + 1);
            }
            match forward(s, p1, addend(s, p1)) {
                Ok((e, a)) => equalend_rest(s, e, TermModel::MathOp(op, Box::new(acc), Box::new(a))),
                Err(_) => Ok((p0, acc)),
            }
        },
    }
}

/// `term := equalend [ ("==" | "!=") equalend ]`.
pub open spec fn term(s: Seq<char>, p: int) -> Parsed
    decreases s.len() - p, 9int,
{
    let p0 = skip_ws(s, p);
    proof {
        lemma_skip_ws(s, p);
    }
    match forward(s, p0, equalend(s, p0)) {
        Err(x) => Err(x),
        Ok((e1, l)) => {
            let p1 = skip_ws(s, e1);
            let negated = if text_at(s, p1, "=="@) {
                Some(false)
            } else if text_at(s, p1, "!="@) {
                Some(true)
            } else {
                None
            };
            match negated {
                None => Ok((p1, l)),
                Some(neg) => {
                    proof {
                        reveal_strlit("==");
                        reveal_strlit("!=");
                        lemma_skip_ws(s, e1);
                    }
                    let p2 = skip_ws(s, p1 + 2);
                    proof {
                        lemma_skip_ws(s, p1 + 2);
                    }
                    match equalend(s, p2) {
                        Ok((e2, r)) => Ok((
                            skip_ws(s, e2),
                            if neg {
                                TermModel::NotEquals(Box::new(l), Box::new(r))
                            } else {
                                TermModel::Equals(Box::new(l), Box::new(r))
                            },
                        )),
                        Err(_) => Ok((p1, l)),
                    }
                },
            }
        },
    }
}


/// `assignment := variable ":=" term`.
pub open spec fn assignment(s: Seq<char>, p: int) -> Parsed {
    let p0 = skip_ws(s, p);
    match name(s, p0) {
        Err(x) => Err(x),
        Ok((p1, v)) => {
            let p2 = skip_ws(s, p1);
            if !text_at(s, p2, ":="@) {
                Err((p2, ErrorKind::Tag))
            } else {
                match term(s, skip_ws(s, p2 + 2)) {
                    Err(x) => Err(x),
                    Ok((e, t)) => Ok((skip_ws(s, e), TermModel::Assignm(v, Box::new(t)))),
                }
            }
        },
    }
}

/// `statement := assignment | term`.
pub open spec fn statement(s: Seq<char>, p: int) -> Parsed {
    match assignment(s, p) {
        Ok(x) => Ok(x),
        Err(_) => match term(s, p) {
            Ok(x) => Ok(x),
            Err(_) => Err((p, ErrorKind::Alt)),
        },
    }
}

/// The end of the line that holds `p`: the next line break, or the end of
/// the text.
pub open spec fn line_end(s: Seq<char>, p: int) -> int
    decreases s.len() - p,
{
    if 0 <= p < s.len() && s[p] != '\n' {
        line_end(s, p + 1)
    } else {
        p
    }
}

pub proof fn lemma_line_end(s: Seq<char>, p: int)
    ensures
        p <= line_end(s, p),
        p <= s.len() ==> line_end(s, p) <= s.len(),
    decreases s.len() - p,
{
    if 0 <= p < s.len() && s[p] != '\n' {
        lemma_line_end(s, p + 1);
    }
}

/// The statement on the line from `p` up to `e`: none if the line holds only
/// whitespace, else one statement that nothing but whitespace may follow.
/// Positions in a failure are positions in `s`.
pub open spec fn line_statement(s: Seq<char>, p: int, e: int) -> Result<Option<TermModel>, (int, ErrorKind)> {
    let line = s.subrange(p, e);
    if skip_ws(line, 0) >= line.len() {
        Ok(None)
    } else {
        match statement(line, 0) {
            Err((a, k)) => Err((p + a, k)),
            Ok((q, t)) => if q < line.len() {
                Err((p + q, ErrorKind::LineEnd))
            } else {
                Ok(Some(t))
            },
        }
    }
}

/// A program: one statement per line, from position `p` on; blank lines are
/// skipped.
pub open spec fn program(s: Seq<char>, p: int) -> Result<Seq<TermModel>, (int, ErrorKind)>
    decreases s.len() + 1 - p,
{
    if p < 0 || p >= s.len() {
        Ok(Seq::empty())
    } else {
        let e = line_end(s, p);
        proof {
            lemma_line_end(s, p);
        }
        match line_statement(s, p, e) {
            Err(x) => Err(x),
            Ok(None) => program(s, e + 1),
            Ok(Some(t)) => match program(s, e + 1) {
                Ok(ts) => Ok(seq![t] + ts),
                Err(x) => Err(x),
            },
        }
    }
}

/// One step of `program`: the line from `p`, then the lines after it.
pub proof fn lemma_program_step(s: Seq<char>, p: int)
    requires
        0 <= p < s.len(),
    ensures
        line_end(s, p) <= s.len(),
        p <= line_end(s, p),
        program(s, p) == match line_statement(s, p, line_end(s, p)) {
            Err(x) => Err(x),
            Ok(None) => program(s, line_end(s, p) + 1),
            Ok(Some(t)) => match program(s, line_end(s, p) + 1) {
                Ok(ts) => Ok(seq![t] + ts),
                Err(x) => Err(x),
            },
        },
        line_end(s, p) == s.len() ==> program(s, line_end(s, p) + 1) == Ok::<Seq<TermModel>, (int, ErrorKind)>(Seq::empty()),
{
    lemma_line_end(s, p);
}

/// A rule's outcome read as the text left over: after the success, or from
/// the failure on.
pub open spec fn outcome(s: Seq<char>, r: Parsed) -> Result<(Seq<char>, TermModel), (Seq<char>, ErrorKind)> {
    match r {
        Ok((e, t)) => Ok((s.subrange(e, s.len() as int), t)),
        Err((a, k)) => Err((s.subrange(a, s.len() as int), k)),
    }
}

} // verus!
