use vstd::prelude::*;

use bigdecimal::BigDecimal;
use bigdecimal::Zero;
use std::str::FromStr;

use crate::errors::EvalError;
use crate::nodes::{
    AddExpr, Atom, Expression, Factor, FactorOperator, Program, Term, TermOperator, wf_add,
    wf_atom, wf_expr, wf_factor, wf_program, wf_term, is_number_literal,
};

verus! {

// ---------------------------------------------------------------------------
// Decimal values, carried as their text rendering. The arithmetic itself
// is done by an arbitrary-precision decimal library; what each operation
// returns is a function of the operand texts alone, named here.
// ---------------------------------------------------------------------------

/// Whether the text parses as a decimal value.
pub uninterp spec fn dec_parses(s: Seq<char>) -> bool;

/// Whether the text denotes the value zero.
pub uninterp spec fn dec_is_zero(s: Seq<char>) -> bool;

/// The rendering of the value a numeric literal denotes.
pub uninterp spec fn dec_norm(s: Seq<char>) -> Seq<char>;

/// The rendering of the sum of the two values.
pub uninterp spec fn dec_add_str(a: Seq<char>, b: Seq<char>) -> Seq<char>;

/// The rendering of the difference of the two values.
pub uninterp spec fn dec_sub_str(a: Seq<char>, b: Seq<char>) -> Seq<char>;

/// The rendering of the product of the two values.
pub uninterp spec fn dec_mul_str(a: Seq<char>, b: Seq<char>) -> Seq<char>;

/// The rendering of the quotient of the two values, at the library's
/// default division precision.
pub uninterp spec fn dec_div_str(a: Seq<char>, b: Seq<char>) -> Seq<char>;

/// The rendering of the negated value.
pub uninterp spec fn dec_neg_str(a: Seq<char>) -> Seq<char>;

/// Relies on `BigDecimal::from_str` and `Display`: a literal of the shape
/// digits, optionally `.` and digits, parses, and the rendering of the
/// parsed value parses again.
#[verifier::external_body]
fn dec_from_literal(s: &str) -> (r: String)
    requires
        is_number_literal(s@),
    ensures
        r@ == dec_norm(s@),
        dec_parses(r@),
{
    BigDecimal::from_str(s).unwrap().to_string()
}

/// Relies on `BigDecimal::is_zero` (after `from_str`).
#[verifier::external_body]
fn dec_zero(s: &str) -> (r: bool)
    requires
        dec_parses(s@),
    ensures
        r == dec_is_zero(s@),
{
    BigDecimal::from_str(s).unwrap().is_zero()
}

/// Relies on `BigDecimal` addition; its `Display` rendering parses again.
#[verifier::external_body]
fn dec_add(a: &str, b: &str) -> (r: String)
    requires
        dec_parses(a@),
        dec_parses(b@),
    ensures
        r@ == dec_add_str(a@, b@),
        dec_parses(r@),
{
    (BigDecimal::from_str(a).unwrap() + BigDecimal::from_str(b).unwrap()).to_string()
}

/// Relies on `BigDecimal` subtraction; its rendering parses again.
#[verifier::external_body]
fn dec_sub(a: &str, b: &str) -> (r: String)
    requires
        dec_parses(a@),
        dec_parses(b@),
    ensures
        r@ == dec_sub_str(a@, b@),
        dec_parses(r@),
{
    (BigDecimal::from_str(a).unwrap() - BigDecimal::from_str(b).unwrap()).to_string()
}

/// Relies on `BigDecimal` multiplication; its rendering parses again.
#[verifier::external_body]
fn dec_mul(a: &str, b: &str) -> (r: String)
    requires
        dec_parses(a@),
        dec_parses(b@),
    ensures
        r@ == dec_mul_str(a@, b@),
        dec_parses(r@),
{
    (BigDecimal::from_str(a).unwrap() * BigDecimal::from_str(b).unwrap()).to_string()
}

/// Relies on `BigDecimal` division, which requires a nonzero divisor;
/// its rendering parses again.
#[verifier::external_body]
fn dec_div(a: &str, b: &str) -> (r: String)
    requires
        dec_parses(a@),
        dec_parses(b@),
        !dec_is_zero(b@),
    ensures
        r@ == dec_div_str(a@, b@),
        dec_parses(r@),
{
    (BigDecimal::from_str(a).unwrap() / BigDecimal::from_str(b).unwrap()).to_string()
}

/// Relies on `BigDecimal` negation; its rendering parses again.
#[verifier::external_body]
fn dec_neg(a: &str) -> (r: String)
    requires
        dec_parses(a@),
    ensures
        r@ == dec_neg_str(a@),
        dec_parses(r@),
{
    (-BigDecimal::from_str(a).unwrap()).to_string()
}

// ---------------------------------------------------------------------------
// The environment: insertion-ordered name/value pairs; a rebound name is
// appended again, and a lookup takes the latest pair.
// ---------------------------------------------------------------------------

pub open spec fn view_env(v: Seq<(String, String)>) -> Seq<(Seq<char>, Seq<char>)> {
    v.map_values(|p: (String, String)| (p.0@, p.1@))
}

/// Every stored value parses as a decimal.
pub open spec fn env_ok(env: Seq<(Seq<char>, Seq<char>)>) -> bool {
    forall|k: int| 0 <= k < env.len() ==> dec_parses((#[trigger] env[k]).1)
}

/// The latest value bound to `name`, if any.
pub open spec fn env_lookup(env: Seq<(Seq<char>, Seq<char>)>, name: Seq<char>) -> Option<Seq<char>>
    decreases env.len(),
{
    if env.len() == 0 {
        None
    } else if env.last().0 == name {
        Some(env.last().1)
    } else {
        env_lookup(env.drop_last(), name)
    }
}

fn lookup(env: &Vec<(String, String)>, name: &String) -> (r: Option<String>)
    ensures
        (match env_lookup(view_env(env@), name@) {
            Some(v) => r matches Some(s) && s@ == v,
            None => r is None,
        }),
{
    let ghost ev = view_env(env@);
    let mut i = env.len();
    proof {
        assert(ev.take(i as int) =~= ev);
    }
    loop
        invariant
            i <= env.len(),
            ev == view_env(env@),
            env_lookup(ev, name@) == env_lookup(ev.take(i as int), name@),
        ensures
            i == 0,
            env_lookup(ev, name@) == env_lookup(ev.take(0), name@),
        decreases i,
    {
        if i == 0 {
            break ;
        }
        i = i - 1;
        let hit = env[i].0 == *name;
        proof {
            assert(ev.take(i + 1).last() == (env@[i as int].0@, env@[i as int].1@));
            assert(ev.take(i + 1).drop_last() =~= ev.take(i as int));
        }
        if hit {
            return Some(env[i].1.clone());
        }
    }
    proof {
        assert(ev.take(0) =~= Seq::<(Seq<char>, Seq<char>)>::empty());
    }
    None
}

// ---------------------------------------------------------------------------
// Evaluation, specified: a left fold over each operator chain.
// ---------------------------------------------------------------------------

/// Why an evaluation stopped.
pub enum SpecEvalError {
    Unbound(Seq<char>),
    DivZero,
}

/// The executable error that stands for a specified one.
pub open spec fn eval_err_matches(re: EvalError, e: SpecEvalError) -> bool {
    match e {
        SpecEvalError::Unbound(n) => re matches EvalError::UnboundVariable(nm) && nm@ == n,
        SpecEvalError::DivZero => re is DivisionByZero,
    }
}

pub open spec fn sp_eval_atom(a: Atom, env: Seq<(Seq<char>, Seq<char>)>) -> Result<
    Seq<char>,
    SpecEvalError,
>
    decreases a,
{
    match a {
        Atom::Number(n) => Ok(dec_norm(n.text@)),
        Atom::Ident(name) => match env_lookup(env, name@) {
            Some(v) => Ok(v),
            None => Err(SpecEvalError::Unbound(name@)),
        },
        Atom::Expression(e) => sp_eval_add(e, env),
    }
}

/// Apply the prefix signs in encounter order: each `-` negates.
pub open spec fn sp_eval_signs(ops: Seq<TermOperator>, v: Seq<char>) -> Seq<char>
    decreases ops.len(),
{
    if ops.len() == 0 {
        v
    } else {
        sp_eval_signs(
            ops.drop_first(),
            if ops[0] is Minus {
                dec_neg_str(v)
            } else {
                v
            },
        )
    }
}

pub open spec fn sp_eval_factor(f: Factor, env: Seq<(Seq<char>, Seq<char>)>) -> Result<
    Seq<char>,
    SpecEvalError,
>
    decreases f,
{
    match sp_eval_atom(f.atom, env) {
        Err(e) => Err(e),
        Ok(v) => Ok(sp_eval_signs(f.ops@, v)),
    }
}

pub open spec fn sp_eval_factor_list(
    s: Seq<(FactorOperator, Factor)>,
    env: Seq<(Seq<char>, Seq<char>)>,
    acc: Seq<char>,
) -> Result<Seq<char>, SpecEvalError>
    decreases s,
{
    if s.len() == 0 {
        Ok(acc)
    } else {
        match sp_eval_factor(s[0].1, env) {
            Err(e) => Err(e),
            Ok(v) => match s[0].0 {
                FactorOperator::Multiply => sp_eval_factor_list(
                    s.drop_first(),
                    env,
                    dec_mul_str(acc, v),
                ),
                FactorOperator::Divide => {
                    if dec_is_zero(v) {
                        Err(SpecEvalError::DivZero)
                    } else {
                        sp_eval_factor_list(s.drop_first(), env, dec_div_str(acc, v))
                    }
                },
            },
        }
    }
}

pub open spec fn sp_eval_term(t: Term, env: Seq<(Seq<char>, Seq<char>)>) -> Result<
    Seq<char>,
    SpecEvalError,
>
    decreases t,
{
    match sp_eval_factor(t.factor, env) {
        Err(e) => Err(e),
        Ok(v) => sp_eval_factor_list(t.following@, env, v),
    }
}

pub open spec fn sp_eval_term_list(
    s: Seq<(TermOperator, Term)>,
    env: Seq<(Seq<char>, Seq<char>)>,
    acc: Seq<char>,
) -> Result<Seq<char>, SpecEvalError>
    decreases s,
{
    if s.len() == 0 {
        Ok(acc)
    } else {
        match sp_eval_term(s[0].1, env) {
            Err(e) => Err(e),
            Ok(v) => match s[0].0 {
                TermOperator::Plus => sp_eval_term_list(s.drop_first(), env, dec_add_str(acc, v)),
                TermOperator::Minus => sp_eval_term_list(s.drop_first(), env, dec_sub_str(acc, v)),
            },
        }
    }
}

pub open spec fn sp_eval_add(a: AddExpr, env: Seq<(Seq<char>, Seq<char>)>) -> Result<
    Seq<char>,
    SpecEvalError,
>
    decreases a,
{
    match sp_eval_term(*a.term, env) {
        Err(e) => Err(e),
        Ok(v) => sp_eval_term_list(a.following@, env, v),
    }
}

/// One top-level expression: a binding evaluates its value and records
/// it, and is itself worth that value.
pub open spec fn sp_eval_expr(e: Expression, env: Seq<(Seq<char>, Seq<char>)>) -> Result<
    (Seq<char>, Seq<(Seq<char>, Seq<char>)>),
    SpecEvalError,
>
    decreases e,
{
    match e {
        Expression::Add(a) => match sp_eval_add(a, env) {
            Err(er) => Err(er),
            Ok(v) => Ok((v, env)),
        },
        Expression::Let(l) => match sp_eval_expr(*l.expr, env) {
            Err(er) => Err(er),
            Ok((v, env1)) => Ok((v, env1.push((l.name@, v)))),
        },
    }
}

/// A program evaluates its expressions in order; its value is the last
/// expression's value, or nothing for an empty program.
pub open spec fn sp_eval_program(
    p: Seq<Expression>,
    env: Seq<(Seq<char>, Seq<char>)>,
    last: Option<Seq<char>>,
) -> Result<Option<Seq<char>>, SpecEvalError>
    decreases p,
{
    if p.len() == 0 {
        Ok(last)
    } else {
        match sp_eval_expr(p[0], env) {
            Err(er) => Err(er),
            Ok((v, env1)) => sp_eval_program(p.drop_first(), env1, Some(v)),
        }
    }
}

/// What running a whole program yields.
pub open spec fn sp_run(p: Seq<Expression>) -> Result<Option<Seq<char>>, SpecEvalError> {
    sp_eval_program(p, Seq::<(Seq<char>, Seq<char>)>::empty(), None)
}

// ---------------------------------------------------------------------------
// Evaluation, executed.
// ---------------------------------------------------------------------------

fn eval_atom(env: &Vec<(String, String)>, node: &Atom) -> (r: Result<String, EvalError>)
    requires
        wf_atom(*node),
        env_ok(view_env(env@)),
    ensures
        (match sp_eval_atom(*node, view_env(env@)) {
            Ok(v) => r matches Ok(s) && s@ == v && dec_parses(v),
            Err(e) => r matches Err(re) && eval_err_matches(re, e),
        }),
    decreases *node,
{
    match node {
        Atom::Number(n) => Ok(dec_from_literal(n.text.as_str())),
        Atom::Ident(name) => match lookup(env, name) {
            Some(v) => {
                proof {
                    lemma_env_lookup_parses(view_env(env@), name@);
                }
                Ok(v)
            },
            None => Err(EvalError::UnboundVariable(name.clone())),
        },
        Atom::Expression(e) => eval_add(env, e),
    }
}

/// A value looked up in a well-formed environment parses.
proof fn lemma_env_lookup_parses(env: Seq<(Seq<char>, Seq<char>)>, name: Seq<char>)
    requires
        env_ok(env),
    ensures
        env_lookup(env, name) matches Some(v) ==> dec_parses(v),
    decreases env.len(),
{
    if env.len() > 0 && env.last().0 != name {
        assert(env_ok(env.drop_last()));
        lemma_env_lookup_parses(env.drop_last(), name);
    }
}

fn eval_factor(env: &Vec<(String, String)>, node: &Factor) -> (r: Result<String, EvalError>)
    requires
        wf_factor(*node),
        env_ok(view_env(env@)),
    ensures
        (match sp_eval_factor(*node, view_env(env@)) {
            Ok(v) => r matches Ok(s) && s@ == v && dec_parses(v),
            Err(e) => r matches Err(re) && eval_err_matches(re, e),
        }),
    decreases *node,
{
    let ghost ev = view_env(env@);
    match eval_atom(env, &node.atom) {
        Err(e) => Err(e),
        Ok(mut v) => {
            let ghost v0 = v@;
            let ghost ops = node.ops@;
            let mut i: usize = 0;
            proof {
                assert(ops.skip(0) =~= ops);
            }
            loop
                invariant
                    0 <= i <= node.ops@.len(),
                    ops == node.ops@,
                    dec_parses(v@),
                    sp_eval_signs(ops, v0) == sp_eval_signs(ops.skip(i as int), v@),
                ensures
                    v@ == sp_eval_signs(ops, v0),
                    dec_parses(v@),
                decreases node.ops@.len() - i,
            {
                if i >= node.ops.len() {
                    proof {
                        assert(ops.skip(i as int) =~= Seq::<TermOperator>::empty());
                    }
                    break ;
                }
                proof {
                    assert(ops.skip(i as int)[0] == ops[i as int]);
                    assert(ops.skip(i as int).drop_first() =~= ops.skip(i as int + 1));
                }
                let op = node.ops[i];
                if op == TermOperator::Minus {
                    v = dec_neg(v.as_str());
                }
                i = i + 1;
            }
            Ok(v)
        },
    }
}

fn eval_term(env: &Vec<(String, String)>, node: &Term) -> (r: Result<String, EvalError>)
    requires
        wf_term(*node),
        env_ok(view_env(env@)),
    ensures
        (match sp_eval_term(*node, view_env(env@)) {
            Ok(v) => r matches Ok(s) && s@ == v && dec_parses(v),
            Err(e) => r matches Err(re) && eval_err_matches(re, e),
        }),
    decreases *node,
{
    let ghost ev = view_env(env@);
    match eval_factor(env, &node.factor) {
        Err(e) => Err(e),
        Ok(mut acc) => {
            let ghost f = node.following@;
            let ghost a0 = acc@;
            let ghost full = sp_eval_factor_list(f, ev, a0);
            let mut i: usize = 0;
            proof {
                assert(f.skip(0) =~= f);
            }
            loop
                invariant
                    0 <= i <= node.following@.len(),
                    f == node.following@,
                    ev == view_env(env@),
                    env_ok(ev),
                    wf_term(*node),
                    dec_parses(acc@),
                    sp_eval_factor(node.factor, ev) is Ok,
                    a0 == sp_eval_factor(node.factor, ev)->Ok_0,
                    full == sp_eval_factor_list(f, ev, a0),
                    full == sp_eval_factor_list(f.skip(i as int), ev, acc@),
                ensures
                    full matches Ok(v) && acc@ == v,
                    dec_parses(acc@),
                decreases node.following@.len() - i,
            {
                if i >= node.following.len() {
                    proof {
                        assert(f.skip(i as int) =~= Seq::<(FactorOperator, Factor)>::empty());
                    }
                    break ;
                }
                proof {
                    assert(f.skip(i as int)[0] == f[i as int]);
                    assert(f.skip(i as int).drop_first() =~= f.skip(i as int + 1));
                }
                match eval_factor(env, &node.following[i].1) {
                    Err(e) => {
                        return Err(e);
                    },
                    Ok(v) => {
                        let op = node.following[i].0;
                        if op == FactorOperator::Multiply {
                            acc = dec_mul(acc.as_str(), v.as_str());
                        } else {
                            if dec_zero(v.as_str()) {
                                return Err(EvalError::DivisionByZero);
                            }
                            acc = dec_div(acc.as_str(), v.as_str());
                        }
                    },
                }
                i = i + 1;
            }
            Ok(acc)
        },
    }
}

fn eval_add(env: &Vec<(String, String)>, node: &AddExpr) -> (r: Result<String, EvalError>)
    requires
        wf_add(*node),
        env_ok(view_env(env@)),
    ensures
        (match sp_eval_add(*node, view_env(env@)) {
            Ok(v) => r matches Ok(s) && s@ == v && dec_parses(v),
            Err(e) => r matches Err(re) && eval_err_matches(re, e),
        }),
    decreases *node,
{
    let ghost ev = view_env(env@);
    match eval_term(env, &*node.term) {
        Err(e) => Err(e),
        Ok(mut acc) => {
            let ghost f = node.following@;
            let ghost a0 = acc@;
            let ghost full = sp_eval_term_list(f, ev, a0);
            let mut i: usize = 0;
            proof {
                assert(f.skip(0) =~= f);
            }
            loop
                invariant
                    0 <= i <= node.following@.len(),
                    f == node.following@,
                    ev == view_env(env@),
                    env_ok(ev),
                    wf_add(*node),
                    dec_parses(acc@),
                    sp_eval_term(*node.term, ev) is Ok,
                    a0 == sp_eval_term(*node.term, ev)->Ok_0,
                    full == sp_eval_term_list(f, ev, a0),
                    full == sp_eval_term_list(f.skip(i as int), ev, acc@),
                ensures
                    full matches Ok(v) && acc@ == v,
                    dec_parses(acc@),
                decreases node.following@.len() - i,
            {
                if i >= node.following.len() {
                    proof {
                        assert(f.skip(i as int) =~= Seq::<(TermOperator, Term)>::empty());
                    }
                    break ;
                }
                proof {
                    assert(f.skip(i as int)[0] == f[i as int]);
                    assert(f.skip(i as int).drop_first() =~= f.skip(i as int + 1));
                }
                match eval_term(env, &node.following[i].1) {
                    Err(e) => {
                        return Err(e);
                    },
                    Ok(v) => {
                        let op = node.following[i].0;
                        if op == TermOperator::Plus {
                            acc = dec_add(acc.as_str(), v.as_str());
                        } else {
                            acc = dec_sub(acc.as_str(), v.as_str());
                        }
                    },
                }
                i = i + 1;
            }
            Ok(acc)
        },
    }
}

fn eval_expr(env: &mut Vec<(String, String)>, node: &Expression) -> (r: Result<String, EvalError>)
    requires
        wf_expr(*node),
        env_ok(view_env(old(env)@)),
    ensures
        (match sp_eval_expr(*node, view_env(old(env)@)) {
            Ok(res) => r matches Ok(s) && s@ == res.0 && dec_parses(res.0) && view_env(
                final(env)@,
            ) == res.1 && env_ok(view_env(final(env)@)),
            Err(e) => r matches Err(re) && eval_err_matches(re, e),
        }),
    decreases *node,
{
    match node {
        Expression::Add(a) => eval_add(env, a),
        Expression::Let(l) => match eval_expr(env, &*l.expr) {
            Err(e) => Err(e),
            Ok(v) => {
                let ghost env1 = view_env(env@);
                env.push((l.name.clone(), v.clone()));
                proof {
                    assert(view_env(env@) =~= env1.push((l.name@, v@)));
                }
                Ok(v)
            },
        },
    }
}

/// The tree-walking backend: reduces a program to one decimal value.
pub struct Interpreter {}

impl Interpreter {
    /// Evaluate the program's expressions in order and render the last
    /// one's value; an empty program has no value. A variable referenced
    /// before its binding, or a division by zero, is a typed error.
    pub fn run(program: &Program) -> (r: Result<Option<String>, EvalError>)
        requires
            wf_program(program@),
        ensures
            (match sp_run(program@) {
                Ok(Some(v)) => r matches Ok(o) && o matches Some(s) && s@ == v,
                Ok(None) => r matches Ok(o) && o is None,
                Err(e) => r matches Err(re) && eval_err_matches(re, e),
            }),
    {
        let ghost p = program@;
        let ghost full = sp_run(p);
        let mut env: Vec<(String, String)> = Vec::new();
        let mut last: Option<String> = None;
        let mut i: usize = 0;
        proof {
            assert(p.skip(0) =~= p);
            assert(view_env(env@) =~= Seq::<(Seq<char>, Seq<char>)>::empty());
        }
        loop
            invariant
                0 <= i <= program@.len(),
                p == program@,
                wf_program(p),
                full == sp_run(p),
                env_ok(view_env(env@)),
                (match last {
                    Some(s) => full == sp_eval_program(
                        p.skip(i as int),
                        view_env(env@),
                        Some(s@),
                    ),
                    None => full == sp_eval_program(
                        p.skip(i as int),
                        view_env(env@),
                        None,
                    ),
                }),
            ensures
                (match last {
                    Some(s) => full == Ok::<Option<Seq<char>>, SpecEvalError>(Some(s@)),
                    None => full == Ok::<Option<Seq<char>>, SpecEvalError>(None),
                }),
            decreases program@.len() - i,
        {
            if i >= program.len() {
                proof {
                    assert(p.skip(i as int) =~= Seq::<Expression>::empty());
                }
                break ;
            }
            proof {
                assert(p.skip(i as int)[0] == p[i as int]);
                assert(p.skip(i as int).drop_first() =~= p.skip(i as int + 1));
            }
            match eval_expr(&mut env, &program[i]) {
                Err(e) => {
                    return Err(e);
                },
                Ok(v) => {
                    last = Some(v);
                },
            }
            i = i + 1;
        }
        Ok(last)
    }
}

} // verus!
