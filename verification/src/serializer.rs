use vstd::prelude::*;
use vstd::string::StringExecFns;

use crate::nodes::{AddExpr, Atom, Expression, Factor, FactorOperator, Program, Term, TermOperator};

verus! {

// ---------------------------------------------------------------------------
// Rendering a program back to source text. Numeric literals keep the text
// the lexer collected, prefix signs are written sign by sign, binary
// operators are spaced, and parenthesized groups keep their parentheses,
// so the rendering lexes and parses back to the same tree.
// ---------------------------------------------------------------------------

pub open spec fn sign_char(op: TermOperator) -> char {
    match op {
        TermOperator::Plus => '+',
        TermOperator::Minus => '-',
    }
}

pub open spec fn mul_char(op: FactorOperator) -> char {
    match op {
        FactorOperator::Multiply => '*',
        FactorOperator::Divide => '/',
    }
}

pub open spec fn sp_ser_atom(a: Atom) -> Seq<char>
    decreases a,
{
    match a {
        Atom::Number(n) => n.text@,
        Atom::Ident(name) => name@,
        Atom::Expression(e) => seq!['('] + sp_ser_add(e) + seq![')'],
    }
}

pub open spec fn sp_ser_signs(ops: Seq<TermOperator>) -> Seq<char>
    decreases ops.len(),
{
    if ops.len() == 0 {
        Seq::<char>::empty()
    } else {
        seq![sign_char(ops[0])] + sp_ser_signs(ops.drop_first())
    }
}

pub open spec fn sp_ser_factor(f: Factor) -> Seq<char>
    decreases f,
{
    sp_ser_signs(f.ops@) + sp_ser_atom(f.atom)
}

pub open spec fn sp_ser_factor_list(s: Seq<(FactorOperator, Factor)>) -> Seq<char>
    decreases s,
{
    if s.len() == 0 {
        Seq::<char>::empty()
    } else {
        seq![' ', mul_char(s[0].0), ' '] + sp_ser_factor(s[0].1) + sp_ser_factor_list(
            s.drop_first(),
        )
    }
}

pub open spec fn sp_ser_term(t: Term) -> Seq<char>
    decreases t,
{
    sp_ser_factor(t.factor) + sp_ser_factor_list(t.following@)
}

pub open spec fn sp_ser_term_list(s: Seq<(TermOperator, Term)>) -> Seq<char>
    decreases s,
{
    if s.len() == 0 {
        Seq::<char>::empty()
    } else {
        seq![' ', sign_char(s[0].0), ' '] + sp_ser_term(s[0].1) + sp_ser_term_list(s.drop_first())
    }
}

pub open spec fn sp_ser_add(a: AddExpr) -> Seq<char>
    decreases a,
{
    sp_ser_term(*a.term) + sp_ser_term_list(a.following@)
}

pub open spec fn sp_ser_expr(e: Expression) -> Seq<char>
    decreases e,
{
    match e {
        Expression::Let(l) => seq!['l', 'e', 't', ' '] + l.name@ + seq![' ', '=', ' ']
            + sp_ser_expr(*l.expr),
        Expression::Add(a) => sp_ser_add(a),
    }
}

pub open spec fn sp_ser_program_rest(p: Seq<Expression>) -> Seq<char>
    decreases p,
{
    if p.len() == 0 {
        Seq::<char>::empty()
    } else {
        seq![';', ' '] + sp_ser_expr(p[0]) + sp_ser_program_rest(p.drop_first())
    }
}

pub open spec fn sp_serialize(p: Seq<Expression>) -> Seq<char> {
    if p.len() == 0 {
        Seq::<char>::empty()
    } else {
        sp_ser_expr(p[0]) + sp_ser_program_rest(p.drop_first())
    }
}

// ---------------------------------------------------------------------------
// The renderer, executed.
// ---------------------------------------------------------------------------

fn push_lit(out: &mut String, lit: &str)
    ensures
        final(out)@ == old(out)@ + lit@,
{
    out.append(lit);
}

fn ser_atom(out: &mut String, node: &Atom)
    ensures
        final(out)@ == old(out)@ + sp_ser_atom(*node),
    decreases *node,
{
    match node {
        Atom::Number(n) => {
            out.append(n.text.as_str());
        },
        Atom::Ident(name) => {
            out.append(name.as_str());
        },
        Atom::Expression(e) => {
            let ghost o0 = out@;
            push_lit(out, "(");
            ser_add(out, e);
            push_lit(out, ")");
            proof {
                reveal_strlit("(");
                reveal_strlit(")");
                assert("("@ =~= seq!['(']);
                assert(")"@ =~= seq![')']);
                assert(out@ =~= o0 + (seq!['('] + sp_ser_add(*e) + seq![')']));
            }
        },
    }
}

fn ser_factor(out: &mut String, node: &Factor)
    ensures
        final(out)@ == old(out)@ + sp_ser_factor(*node),
    decreases *node,
{
    let ghost o0 = out@;
    let ghost ops = node.ops@;
    let mut i: usize = 0;
    proof {
        assert(ops.skip(0) =~= ops);
        assert(out@.skip(o0.len() as int) =~= Seq::<char>::empty());
    }
    loop
        invariant
            0 <= i <= node.ops@.len(),
            ops == node.ops@,
            o0.len() <= out@.len(),
            out@.subrange(0, o0.len() as int) == o0,
            sp_ser_signs(ops) == out@.skip(o0.len() as int) + sp_ser_signs(ops.skip(i as int)),
        ensures
            out@ == o0 + sp_ser_signs(ops),
        decreases node.ops@.len() - i,
    {
        if i >= node.ops.len() {
            proof {
                assert(ops.skip(i as int) =~= Seq::<TermOperator>::empty());
                assert(sp_ser_signs(ops.skip(i as int)) =~= Seq::<char>::empty());
                assert(out@ =~= o0 + out@.skip(o0.len() as int));
            }
            break ;
        }
        let ghost pre = out@;
        proof {
            assert(ops.skip(i as int)[0] == ops[i as int]);
            assert(ops.skip(i as int).drop_first() =~= ops.skip(i as int + 1));
        }
        let op = node.ops[i];
        if op == TermOperator::Plus {
            push_lit(out, "+");
        } else {
            push_lit(out, "-");
        }
        proof {
            reveal_strlit("+");
            reveal_strlit("-");
            assert(out@.subrange(0, o0.len() as int) =~= o0);
            assert(out@.skip(o0.len() as int) =~= pre.skip(o0.len() as int) + seq![
                sign_char(ops[i as int]),
            ]);
            assert((pre.skip(o0.len() as int) + seq![sign_char(ops[i as int])]) + sp_ser_signs(
                ops.skip(i as int + 1),
            ) =~= pre.skip(o0.len() as int) + (seq![sign_char(ops[i as int])] + sp_ser_signs(
                ops.skip(i as int + 1),
            )));
        }
        i = i + 1;
    }
    ser_atom(out, &node.atom);
    proof {
        assert(out@ =~= o0 + (sp_ser_signs(ops) + sp_ser_atom(node.atom)));
    }
}

fn ser_term(out: &mut String, node: &Term)
    ensures
        final(out)@ == old(out)@ + sp_ser_term(*node),
    decreases *node,
{
    let ghost o0 = out@;
    ser_factor(out, &node.factor);
    let ghost base = out@;
    let ghost f = node.following@;
    let mut i: usize = 0;
    proof {
        assert(f.skip(0) =~= f);
        assert(out@.skip(base.len() as int) =~= Seq::<char>::empty());
    }
    loop
        invariant
            0 <= i <= node.following@.len(),
            f == node.following@,
            base.len() <= out@.len(),
            out@.subrange(0, base.len() as int) == base,
            sp_ser_factor_list(f) == out@.skip(base.len() as int) + sp_ser_factor_list(
                f.skip(i as int),
            ),
        ensures
            out@ == base + sp_ser_factor_list(f),
        decreases node.following@.len() - i,
    {
        if i >= node.following.len() {
            proof {
                assert(f.skip(i as int) =~= Seq::<(FactorOperator, Factor)>::empty());
                assert(sp_ser_factor_list(f.skip(i as int)) =~= Seq::<char>::empty());
                assert(out@ =~= base + out@.skip(base.len() as int));
            }
            break ;
        }
        let ghost pre = out@;
        proof {
            assert(f.skip(i as int)[0] == f[i as int]);
            assert(f.skip(i as int).drop_first() =~= f.skip(i as int + 1));
        }
        let op = node.following[i].0;
        if op == FactorOperator::Multiply {
            push_lit(out, " * ");
        } else {
            push_lit(out, " / ");
        }
        proof {
            reveal_strlit(" * ");
            reveal_strlit(" / ");
            assert(" * "@ =~= seq![' ', '*', ' ']);
            assert(" / "@ =~= seq![' ', '/', ' ']);
        }
        ser_factor(out, &node.following[i].1);
        proof {
            let piece = seq![' ', mul_char(f[i as int].0), ' '] + sp_ser_factor(f[i as int].1);
            assert(out@.subrange(0, base.len() as int) =~= base);
            assert(out@.skip(base.len() as int) =~= pre.skip(base.len() as int) + piece);
            assert((pre.skip(base.len() as int) + piece) + sp_ser_factor_list(f.skip(i as int + 1))
                =~= pre.skip(base.len() as int) + (piece + sp_ser_factor_list(
                f.skip(i as int + 1),
            )));
        }
        i = i + 1;
    }
    proof {
        assert(out@ =~= o0 + (sp_ser_factor(node.factor) + sp_ser_factor_list(f)));
    }
}

fn ser_add(out: &mut String, node: &AddExpr)
    ensures
        final(out)@ == old(out)@ + sp_ser_add(*node),
    decreases *node,
{
    let ghost o0 = out@;
    ser_term(out, &*node.term);
    let ghost base = out@;
    let ghost f = node.following@;
    let mut i: usize = 0;
    proof {
        assert(f.skip(0) =~= f);
        assert(out@.skip(base.len() as int) =~= Seq::<char>::empty());
    }
    loop
        invariant
            0 <= i <= node.following@.len(),
            f == node.following@,
            base.len() <= out@.len(),
            out@.subrange(0, base.len() as int) == base,
            sp_ser_term_list(f) == out@.skip(base.len() as int) + sp_ser_term_list(
                f.skip(i as int),
            ),
        ensures
            out@ == base + sp_ser_term_list(f),
        decreases node.following@.len() - i,
    {
        if i >= node.following.len() {
            proof {
                assert(f.skip(i as int) =~= Seq::<(TermOperator, Term)>::empty());
                assert(sp_ser_term_list(f.skip(i as int)) =~= Seq::<char>::empty());
                assert(out@ =~= base + out@.skip(base.len() as int));
            }
            break ;
        }
        let ghost pre = out@;
        proof {
            assert(f.skip(i as int)[0] == f[i as int]);
            assert(f.skip(i as int).drop_first() =~= f.skip(i as int + 1));
        }
        let op = node.following[i].0;
        if op == TermOperator::Plus {
            push_lit(out, " + ");
        } else {
            push_lit(out, " - ");
        }
        proof {
            reveal_strlit(" + ");
            reveal_strlit(" - ");
            assert(" + "@ =~= seq![' ', '+', ' ']);
            assert(" - "@ =~= seq![' ', '-', ' ']);
        }
        ser_term(out, &node.following[i].1);
        proof {
            let piece = seq![' ', sign_char(f[i as int].0), ' '] + sp_ser_term(f[i as int].1);
            assert(out@.subrange(0, base.len() as int) =~= base);
            assert(out@.skip(base.len() as int) =~= pre.skip(base.len() as int) + piece);
            assert((pre.skip(base.len() as int) + piece) + sp_ser_term_list(f.skip(i as int + 1))
                =~= pre.skip(base.len() as int) + (piece + sp_ser_term_list(f.skip(i as int + 1))));
        }
        i = i + 1;
    }
    proof {
        assert(out@ =~= o0 + (sp_ser_term(*node.term) + sp_ser_term_list(f)));
    }
}

fn ser_expr(out: &mut String, node: &Expression)
    ensures
        final(out)@ == old(out)@ + sp_ser_expr(*node),
    decreases *node,
{
    match node {
        Expression::Let(l) => {
            let ghost o0 = out@;
            push_lit(out, "let ");
            out.append(l.name.as_str());
            push_lit(out, " = ");
            ser_expr(out, &*l.expr);
            proof {
                reveal_strlit("let ");
                reveal_strlit(" = ");
                assert("let "@ =~= seq!['l', 'e', 't', ' ']);
                assert(" = "@ =~= seq![' ', '=', ' ']);
                assert(out@ =~= o0 + (seq!['l', 'e', 't', ' '] + l.name@ + seq![' ', '=', ' ']
                    + sp_ser_expr(*l.expr)));
            }
        },
        Expression::Add(a) => {
            ser_add(out, a);
        },
    }
}

/// Render the program as source text: statements joined by `; `, every
/// binary operator spaced, prefix signs written sign by sign, and
/// numeric literals as the lexer collected them.
pub fn serialize(program: &Program) -> (s: String)
    ensures
        s@ == sp_serialize(program@),
{
    let mut out = String::new();
    if program.len() == 0 {
        proof {
            assert(out@ =~= sp_serialize(program@));
        }
        return out;
    }
    ser_expr(&mut out, &program[0]);
    let ghost p = program@;
    let ghost base = out@;
    let mut i: usize = 1;
    proof {
        assert(p.skip(1) =~= p.drop_first());
        assert(out@.skip(base.len() as int) =~= Seq::<char>::empty());
    }
    loop
        invariant
            1 <= i <= p.len(),
            p == program@,
            base.len() <= out@.len(),
            out@.subrange(0, base.len() as int) == base,
            sp_ser_program_rest(p.skip(1)) == out@.skip(base.len() as int) + sp_ser_program_rest(
                p.skip(i as int),
            ),
        ensures
            out@ == base + sp_ser_program_rest(p.skip(1)),
        decreases p.len() - i,
    {
        if i >= program.len() {
            proof {
                assert(p.skip(i as int) =~= Seq::<Expression>::empty());
                assert(sp_ser_program_rest(p.skip(i as int)) =~= Seq::<char>::empty());
                assert(out@ =~= base + out@.skip(base.len() as int));
            }
            break ;
        }
        let ghost pre = out@;
        proof {
            assert(p.skip(i as int)[0] == p[i as int]);
            assert(p.skip(i as int).drop_first() =~= p.skip(i as int + 1));
        }
        push_lit(&mut out, "; ");
        proof {
            reveal_strlit("; ");
            assert("; "@ =~= seq![';', ' ']);
        }
        ser_expr(&mut out, &program[i]);
        proof {
            let piece = seq![';', ' '] + sp_ser_expr(p[i as int]);
            assert(out@.subrange(0, base.len() as int) =~= base);
            assert(out@.skip(base.len() as int) =~= pre.skip(base.len() as int) + piece);
            assert((pre.skip(base.len() as int) + piece) + sp_ser_program_rest(
                p.skip(i as int + 1),
            ) =~= pre.skip(base.len() as int) + (piece + sp_ser_program_rest(
                p.skip(i as int + 1),
            )));
        }
        i = i + 1;
    }
    proof {
        assert(base =~= sp_ser_expr(p[0]));
        assert(p.skip(1) =~= p.drop_first());
        assert(out@ =~= sp_serialize(p));
    }
    out
}

} // verus!
