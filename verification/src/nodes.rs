use vstd::prelude::*;
use vstd::string::StrSliceExecFns;

use crate::lexer::is_digit_char;

verus! {

// ---------------------------------------------------------------------------
// The abstract syntax tree.
// ---------------------------------------------------------------------------

/// A program: the ordered sequence of top-level expressions.
pub type Program = Vec<Expression>;

/// A top-level expression: a variable binding or an arithmetic expression.
#[derive(Debug)]
pub enum Expression {
    Let(LetExpr),
    Add(AddExpr),
}

/// `let name = expr`: binds the value of `expr` to a fresh local slot.
#[derive(Debug)]
pub struct LetExpr {
    pub name: String,
    pub expr: Box<Expression>,
}

/// A left-associative chain of `+`/`-` over terms.
#[derive(Debug)]
pub struct AddExpr {
    pub term: Box<Term>,
    pub following: Vec<(TermOperator, Term)>,
}

/// An additive operator, also used as a unary sign.
#[derive(Clone, Copy, PartialEq, Eq, Structural, Debug)]
pub enum TermOperator {
    Plus,
    Minus,
}

/// A left-associative chain of `*`/`/` over factors.
#[derive(Debug)]
pub struct Term {
    pub factor: Factor,
    pub following: Vec<(FactorOperator, Factor)>,
}

/// A multiplicative operator.
#[derive(Clone, Copy, PartialEq, Eq, Structural, Debug)]
pub enum FactorOperator {
    Multiply,
    Divide,
}

/// Zero or more prefix signs applied to an atom, in encounter order.
#[derive(Debug)]
pub struct Factor {
    pub ops: Vec<TermOperator>,
    pub atom: Atom,
}

/// The smallest expression unit.
#[derive(Debug)]
pub enum Atom {
    Number(NumberLiteral),
    Ident(String),
    Expression(AddExpr),
}

/// A numeric literal: its text as collected by the lexer, and the 64-bit
/// encoding of its value in the binary module's value format, carried
/// through from the token it was made from.
#[derive(Debug)]
pub struct NumberLiteral {
    pub text: String,
    pub num_bits: u64,
}

// ---------------------------------------------------------------------------
// The mathematical mirror of the tree.
// ---------------------------------------------------------------------------

pub enum SpecExpression {
    Let(SpecLetExpr),
    Add(SpecAddExpr),
}

pub struct SpecLetExpr {
    pub name: Seq<char>,
    pub expr: Box<SpecExpression>,
}

pub struct SpecAddExpr {
    pub term: Box<SpecTerm>,
    pub following: Seq<(TermOperator, SpecTerm)>,
}

pub struct SpecTerm {
    pub factor: SpecFactor,
    pub following: Seq<(FactorOperator, SpecFactor)>,
}

pub struct SpecFactor {
    pub ops: Seq<TermOperator>,
    pub atom: SpecAtom,
}

pub enum SpecAtom {
    Number(SpecNumber),
    Ident(Seq<char>),
    Expression(SpecAddExpr),
}

pub struct SpecNumber {
    pub text: Seq<char>,
    pub num_bits: u64,
}

// ---------------------------------------------------------------------------
// Views from the executable tree to the mirror.
// ---------------------------------------------------------------------------

pub open spec fn view_expr(e: Expression) -> SpecExpression
    decreases e,
{
    match e {
        Expression::Let(l) => SpecExpression::Let(
            SpecLetExpr { name: l.name@, expr: Box::new(view_expr(*l.expr)) },
        ),
        Expression::Add(a) => SpecExpression::Add(view_add(a)),
    }
}

pub open spec fn view_add(a: AddExpr) -> SpecAddExpr
    decreases a,
{
    SpecAddExpr { term: Box::new(view_term(*a.term)), following: view_term_pairs(a.following@) }
}

pub open spec fn view_term_pairs(s: Seq<(TermOperator, Term)>) -> Seq<(TermOperator, SpecTerm)>
    decreases s,
{
    if s.len() == 0 {
        Seq::<(TermOperator, SpecTerm)>::empty()
    } else {
        seq![(s[0].0, view_term(s[0].1))] + view_term_pairs(s.drop_first())
    }
}

pub open spec fn view_term(t: Term) -> SpecTerm
    decreases t,
{
    SpecTerm { factor: view_factor(t.factor), following: view_factor_pairs(t.following@) }
}

pub open spec fn view_factor_pairs(s: Seq<(FactorOperator, Factor)>) -> Seq<
    (FactorOperator, SpecFactor),
>
    decreases s,
{
    if s.len() == 0 {
        Seq::<(FactorOperator, SpecFactor)>::empty()
    } else {
        seq![(s[0].0, view_factor(s[0].1))] + view_factor_pairs(s.drop_first())
    }
}

pub open spec fn view_factor(f: Factor) -> SpecFactor
    decreases f,
{
    SpecFactor { ops: f.ops@, atom: view_atom(f.atom) }
}

pub open spec fn view_atom(a: Atom) -> SpecAtom
    decreases a,
{
    match a {
        Atom::Number(n) => SpecAtom::Number(SpecNumber { text: n.text@, num_bits: n.num_bits }),
        Atom::Ident(name) => SpecAtom::Ident(name@),
        Atom::Expression(e) => SpecAtom::Expression(view_add(e)),
    }
}

pub open spec fn view_program(p: Seq<Expression>) -> Seq<SpecExpression> {
    p.map_values(|e: Expression| view_expr(e))
}

// ---------------------------------------------------------------------------
// Well-formed numeric literals.
// ---------------------------------------------------------------------------

pub open spec fn all_digits(t: Seq<char>, lo: int, hi: int) -> bool {
    forall|k: int| lo <= k < hi ==> is_digit_char(#[trigger] t[k])
}

/// The shape the lexer gives a number token's text: one or more digits,
/// optionally followed by `.` and one or more digits.
pub open spec fn is_number_literal(t: Seq<char>) -> bool {
    (t.len() >= 1 && all_digits(t, 0, t.len() as int)) || (exists|d: int|
        1 <= d <= t.len() - 2 && t[d] == '.' && all_digits(t, 0, d) && all_digits(
            t,
            d + 1,
            t.len() as int,
        ))
}

/// Every numeric literal in the tree has the shape the lexer guarantees.
pub open spec fn wf_atom(a: Atom) -> bool
    decreases a,
{
    match a {
        Atom::Number(n) => is_number_literal(n.text@),
        Atom::Ident(_) => true,
        Atom::Expression(e) => wf_add(e),
    }
}

pub open spec fn wf_factor(f: Factor) -> bool
    decreases f,
{
    wf_atom(f.atom)
}

pub open spec fn wf_term(t: Term) -> bool
    decreases t,
{
    wf_factor(t.factor) && (forall|k: int|
        0 <= k < t.following@.len() ==> wf_factor((#[trigger] t.following@[k]).1))
}

pub open spec fn wf_add(a: AddExpr) -> bool
    decreases a,
{
    wf_term(*a.term) && (forall|k: int|
        0 <= k < a.following@.len() ==> wf_term((#[trigger] a.following@[k]).1))
}

pub open spec fn wf_expr(e: Expression) -> bool
    decreases e,
{
    match e {
        Expression::Let(l) => wf_expr(*l.expr),
        Expression::Add(a) => wf_add(a),
    }
}

pub open spec fn wf_program(p: Seq<Expression>) -> bool {
    forall|k: int| 0 <= k < p.len() ==> wf_expr(#[trigger] p[k])
}

// ---------------------------------------------------------------------------
// Well-formedness on the mirror, and its agreement with the view.
// ---------------------------------------------------------------------------

pub open spec fn swf_atom(a: SpecAtom) -> bool
    decreases a,
{
    match a {
        SpecAtom::Number(n) => is_number_literal(n.text),
        SpecAtom::Ident(_) => true,
        SpecAtom::Expression(e) => swf_add(e),
    }
}

pub open spec fn swf_factor(f: SpecFactor) -> bool
    decreases f,
{
    swf_atom(f.atom)
}

pub open spec fn swf_term(t: SpecTerm) -> bool
    decreases t,
{
    swf_factor(t.factor) && (forall|k: int|
        0 <= k < t.following.len() ==> swf_factor((#[trigger] t.following[k]).1))
}

pub open spec fn swf_add(a: SpecAddExpr) -> bool
    decreases a,
{
    swf_term(*a.term) && (forall|k: int|
        0 <= k < a.following.len() ==> swf_term((#[trigger] a.following[k]).1))
}

pub open spec fn swf_expr(e: SpecExpression) -> bool
    decreases e,
{
    match e {
        SpecExpression::Let(l) => swf_expr(*l.expr),
        SpecExpression::Add(a) => swf_add(a),
    }
}

pub open spec fn swf_program(p: Seq<SpecExpression>) -> bool {
    forall|k: int| 0 <= k < p.len() ==> swf_expr(#[trigger] p[k])
}

pub proof fn lemma_view_term_pairs(s: Seq<(TermOperator, Term)>)
    ensures
        view_term_pairs(s).len() == s.len(),
        forall|k: int|
            0 <= k < s.len() ==> view_term_pairs(s)[k] == ((#[trigger] s[k]).0, view_term(s[k].1)),
    decreases s.len(),
{
    if s.len() > 0 {
        lemma_view_term_pairs(s.drop_first());
        assert forall|k: int|
            0 <= k < s.len() implies view_term_pairs(s)[k] == ((#[trigger] s[k]).0, view_term(
            s[k].1,
        )) by {
            if k > 0 {
                assert(view_term_pairs(s)[k] == view_term_pairs(s.drop_first())[k - 1]);
                assert(s.drop_first()[k - 1] == s[k]);
            }
        }
    }
}

pub proof fn lemma_view_factor_pairs(s: Seq<(FactorOperator, Factor)>)
    ensures
        view_factor_pairs(s).len() == s.len(),
        forall|k: int|
            0 <= k < s.len() ==> view_factor_pairs(s)[k] == ((#[trigger] s[k]).0, view_factor(
                s[k].1,
            )),
    decreases s.len(),
{
    if s.len() > 0 {
        lemma_view_factor_pairs(s.drop_first());
        assert forall|k: int|
            0 <= k < s.len() implies view_factor_pairs(s)[k] == ((#[trigger] s[k]).0, view_factor(
            s[k].1,
        )) by {
            if k > 0 {
                assert(view_factor_pairs(s)[k] == view_factor_pairs(s.drop_first())[k - 1]);
                assert(s.drop_first()[k - 1] == s[k]);
            }
        }
    }
}

pub proof fn lemma_wf_view_atom(a: Atom)
    ensures
        wf_atom(a) == swf_atom(view_atom(a)),
    decreases a,
{
    match a {
        Atom::Expression(e) => lemma_wf_view_add(e),
        _ => {},
    }
}

pub proof fn lemma_wf_view_factor(f: Factor)
    ensures
        wf_factor(f) == swf_factor(view_factor(f)),
    decreases f,
{
    lemma_wf_view_atom(f.atom)
}

pub proof fn lemma_wf_view_term(t: Term)
    ensures
        wf_term(t) == swf_term(view_term(t)),
    decreases t,
{
    lemma_wf_view_factor(t.factor);
    lemma_view_factor_pairs(t.following@);
    let v = view_term(t);
    if wf_term(t) {
        assert forall|k: int| 0 <= k < v.following.len() implies swf_factor(
            (#[trigger] v.following[k]).1,
        ) by {
            assert(v.following[k] == (t.following@[k].0, view_factor(t.following@[k].1)));
            assert(wf_factor(t.following@[k].1));
            lemma_wf_view_factor(t.following@[k].1);
        }
        assert(swf_term(v));
    }
    if swf_term(v) {
        assert forall|k: int| 0 <= k < t.following@.len() implies wf_factor(
            (#[trigger] t.following@[k]).1,
        ) by {
            assert(v.following[k] == (t.following@[k].0, view_factor(t.following@[k].1)));
            assert(swf_factor(v.following[k].1));
            lemma_wf_view_factor(t.following@[k].1);
        }
        assert(wf_term(t));
    }
}

pub proof fn lemma_wf_view_add(a: AddExpr)
    ensures
        wf_add(a) == swf_add(view_add(a)),
    decreases a,
{
    lemma_wf_view_term(*a.term);
    lemma_view_term_pairs(a.following@);
    let v = view_add(a);
    if wf_add(a) {
        assert forall|k: int| 0 <= k < v.following.len() implies swf_term(
            (#[trigger] v.following[k]).1,
        ) by {
            assert(v.following[k] == (a.following@[k].0, view_term(a.following@[k].1)));
            assert(wf_term(a.following@[k].1));
            lemma_wf_view_term(a.following@[k].1);
        }
        assert(swf_add(v));
    }
    if swf_add(v) {
        assert forall|k: int| 0 <= k < a.following@.len() implies wf_term(
            (#[trigger] a.following@[k]).1,
        ) by {
            assert(v.following[k] == (a.following@[k].0, view_term(a.following@[k].1)));
            assert(swf_term(v.following[k].1));
            lemma_wf_view_term(a.following@[k].1);
        }
        assert(wf_add(a));
    }
}

pub proof fn lemma_wf_view_expr(e: Expression)
    ensures
        wf_expr(e) == swf_expr(view_expr(e)),
    decreases e,
{
    match e {
        Expression::Let(l) => lemma_wf_view_expr(*l.expr),
        Expression::Add(a) => lemma_wf_view_add(a),
    }
}

/// Well-formedness of a tree and of its mathematical view agree.
pub proof fn lemma_wf_view_program(p: Seq<Expression>)
    ensures
        wf_program(p) == swf_program(view_program(p)),
{
    assert forall|k: int| 0 <= k < p.len() implies wf_expr(#[trigger] p[k]) == swf_expr(
        view_program(p)[k],
    ) by {
        lemma_wf_view_expr(p[k]);
    }
}

// ---------------------------------------------------------------------------
// Deciding well-formedness, for callers that assemble trees themselves.
// ---------------------------------------------------------------------------

fn literal_text_ok(t: &String) -> (b: bool)
    ensures
        b == is_number_literal(t@),
{
    let s = t.as_str();
    let n = s.unicode_len();
    if n == 0 {
        return false;
    }
    let mut i: usize = 0;
    loop
        invariant
            0 <= i <= n,
            n == s@.len() <= usize::MAX,
            all_digits(s@, 0, i as int),
        ensures
            0 <= i <= n,
            all_digits(s@, 0, i as int),
            i < n ==> !is_digit_char(s@[i as int]),
        decreases n - i,
    {
        if i >= n {
            break ;
        }
        let c = s.get_char(i);
        let u = c as u32;
        if !(('0' as u32) <= u && u <= ('9' as u32)) {
            break ;
        }
        i = i + 1;
    }
    if i == 0 {
        proof {
            assert(!is_number_literal(t@)) by {
                assert(forall|d: int|
                    1 <= d <= t@.len() - 2 && all_digits(t@, 0, d) ==> is_digit_char(t@[0]));
            }
        }
        return false;
    }
    if i == n {
        return true;
    }
    let dot = s.get_char(i);
    if dot != '.' {
        proof {
            assert(!is_number_literal(t@)) by {
                let k = i as int;
                assert(forall|d: int|
                    1 <= d <= t@.len() - 2 && t@[d] == '.' && all_digits(t@, 0, d) && all_digits(
                        t@,
                        d + 1,
                        t@.len() as int,
                    ) ==> (k < d ==> is_digit_char(t@[k])) && (k > d ==> is_digit_char(t@[k])) && k
                        != d);
            }
        }
        return false;
    }
    let d = i;
    i = i + 1;
    if i == n {
        proof {
            assert(!is_number_literal(t@));
        }
        return false;
    }
    loop
        invariant
            d + 1 <= i <= n,
            d < n,
            n == s@.len() <= usize::MAX,
            s@[d as int] == '.',
            all_digits(s@, 0, d as int),
            all_digits(s@, d as int + 1, i as int),
            1 <= d <= n - 2,
        ensures
            d + 1 <= i <= n,
            all_digits(s@, d as int + 1, i as int),
            i < n ==> !is_digit_char(s@[i as int]),
        decreases n - i,
    {
        if i >= n {
            break ;
        }
        let c = s.get_char(i);
        let u = c as u32;
        if !(('0' as u32) <= u && u <= ('9' as u32)) {
            break ;
        }
        i = i + 1;
    }
    if i == n {
        proof {
            assert(is_number_literal(t@)) by {
                assert(1 <= d as int <= t@.len() - 2 && t@[d as int] == '.' && all_digits(
                    t@,
                    0,
                    d as int,
                ) && all_digits(t@, d as int + 1, t@.len() as int));
            }
        }
        true
    } else {
        proof {
            assert(!is_number_literal(t@)) by {
                let k = i as int;
                assert(forall|dd: int|
                    1 <= dd <= t@.len() - 2 && t@[dd] == '.' && all_digits(t@, 0, dd)
                        && all_digits(t@, dd + 1, t@.len() as int) ==> (dd == d as int && (k > dd
                        ==> is_digit_char(t@[k]))));
            }
        }
        false
    }
}

fn literals_ok_atom(a: &Atom) -> (b: bool)
    ensures
        b == wf_atom(*a),
    decreases *a,
{
    match a {
        Atom::Number(n) => literal_text_ok(&n.text),
        Atom::Ident(_) => true,
        Atom::Expression(e) => literals_ok_add(e),
    }
}

fn literals_ok_factor(f: &Factor) -> (b: bool)
    ensures
        b == wf_factor(*f),
    decreases *f,
{
    literals_ok_atom(&f.atom)
}

fn literals_ok_term(t: &Term) -> (b: bool)
    ensures
        b == wf_term(*t),
    decreases *t,
{
    if !literals_ok_factor(&t.factor) {
        return false;
    }
    let mut i: usize = 0;
    loop
        invariant
            0 <= i <= t.following@.len(),
            wf_factor(t.factor),
            forall|k: int| 0 <= k < i ==> wf_factor((#[trigger] t.following@[k]).1),
        ensures
            i == t.following@.len(),
            forall|k: int| 0 <= k < i ==> wf_factor((#[trigger] t.following@[k]).1),
        decreases t.following@.len() - i,
    {
        if i >= t.following.len() {
            break ;
        }
        if !literals_ok_factor(&t.following[i].1) {
            return false;
        }
        i = i + 1;
    }
    true
}

fn literals_ok_add(a: &AddExpr) -> (b: bool)
    ensures
        b == wf_add(*a),
    decreases *a,
{
    if !literals_ok_term(&*a.term) {
        return false;
    }
    let mut i: usize = 0;
    loop
        invariant
            0 <= i <= a.following@.len(),
            wf_term(*a.term),
            forall|k: int| 0 <= k < i ==> wf_term((#[trigger] a.following@[k]).1),
        ensures
            i == a.following@.len(),
            forall|k: int| 0 <= k < i ==> wf_term((#[trigger] a.following@[k]).1),
        decreases a.following@.len() - i,
    {
        if i >= a.following.len() {
            break ;
        }
        if !literals_ok_term(&a.following[i].1) {
            return false;
        }
        i = i + 1;
    }
    true
}

fn literals_ok_expr(e: &Expression) -> (b: bool)
    ensures
        b == wf_expr(*e),
    decreases *e,
{
    match e {
        Expression::Let(l) => literals_ok_expr(&*l.expr),
        Expression::Add(a) => literals_ok_add(a),
    }
}

/// Whether every numeric literal in the program has the shape the lexer
/// guarantees; parsing lexer output always yields a program for which
/// this holds.
pub fn literals_ok(p: &Program) -> (b: bool)
    ensures
        b == wf_program(p@),
{
    let mut i: usize = 0;
    loop
        invariant
            0 <= i <= p@.len(),
            forall|k: int| 0 <= k < i ==> wf_expr(#[trigger] p@[k]),
        ensures
            i == p@.len(),
            forall|k: int| 0 <= k < i ==> wf_expr(#[trigger] p@[k]),
        decreases p@.len() - i,
    {
        if i >= p.len() {
            break ;
        }
        if !literals_ok_expr(&p[i]) {
            return false;
        }
        i = i + 1;
    }
    true
}

} // verus!
