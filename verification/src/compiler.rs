use vstd::prelude::*;

use crate::errors::CompileError;
use crate::nodes::{AddExpr, Atom, Expression, Factor, FactorOperator, Program, Term, TermOperator};

verus! {

// ---------------------------------------------------------------------------
// Instruction and type bytes of the emitted module format.
// ---------------------------------------------------------------------------

/// Terminates a function body.
pub const OP_END: u8 = 0x0b;

/// Stores the top of the stack into a local slot.
pub const OP_LOCAL_SET: u8 = 0x21;

/// Pushes a local slot onto the stack.
pub const OP_LOCAL_GET: u8 = 0x20;

/// Pushes a numeric constant (followed by its 8-byte encoding).
pub const OP_CONST: u8 = 0x44;

/// Negates the top of the stack.
pub const OP_NEG: u8 = 0x9a;

pub const OP_ADD: u8 = 0xa0;

pub const OP_SUB: u8 = 0xa1;

pub const OP_MUL: u8 = 0xa2;

pub const OP_DIV: u8 = 0xa3;

/// Marks a function type in the type section.
pub const TYPE_FUNC: u8 = 0x60;

/// The numeric value type used for locals, constants and results.
pub const TYPE_NUM: u8 = 0x7c;

// ---------------------------------------------------------------------------
// The variable-length unsigned integer encoding.
// ---------------------------------------------------------------------------

/// Base-128 encoding with continuation bit: seven payload bits per byte,
/// low bits first, high bit set on every byte but the last.
pub open spec fn sp_uleb(n: nat) -> Seq<u8>
    decreases n,
{
    if n < 128 {
        seq![n as u8]
    } else {
        seq![((n % 128) + 128) as u8] + sp_uleb(n / 128)
    }
}

/// Relies on `leb128::write::unsigned`: writes the base-128 varint
/// encoding of `num` (seven payload bits per byte, low bits first, the
/// high bit set on every byte but the last) into the vector, which for a
/// vector sink cannot fail.
#[verifier::external_body]
fn as_uleb128(num: u64) -> (r: Vec<u8>)
    ensures
        r@ == sp_uleb(num as nat),
{
    let mut buf = vec![];
    leb128::write::unsigned(&mut buf, num).expect("a vector sink accepts all writes");
    buf
}

// ---------------------------------------------------------------------------
// The symbol table: insertion-ordered name/slot pairs. A rebound name is
// appended again, so a lookup takes the latest pair; the slot index handed
// out is the count of distinct names seen so far.
// ---------------------------------------------------------------------------

pub open spec fn view_syms(v: Seq<(String, u64)>) -> Seq<(Seq<char>, u64)> {
    v.map_values(|p: (String, u64)| (p.0@, p.1))
}

/// The slot of the latest binding of `name`, if any.
pub open spec fn sym_lookup(syms: Seq<(Seq<char>, u64)>, name: Seq<char>) -> Option<u64>
    decreases syms.len(),
{
    if syms.len() == 0 {
        None
    } else if syms.last().0 == name {
        Some(syms.last().1)
    } else {
        sym_lookup(syms.drop_last(), name)
    }
}

/// Record a binding of `name`: it receives slot `distinct`, and the
/// distinct-name count grows only if the name is new.
pub open spec fn sym_insert(syms: Seq<(Seq<char>, u64)>, distinct: u64, name: Seq<char>) -> (Seq<
    (Seq<char>, u64),
>, u64) {
    (
        syms.push((name, distinct)),
        if sym_lookup(syms, name) is Some {
            distinct
        } else {
            ((distinct + 1) as u64)
        },
    )
}

fn lookup(symbols: &Vec<(String, u64)>, name: &String) -> (r: Option<u64>)
    ensures
        r == sym_lookup(view_syms(symbols@), name@),
{
    let ghost sv = view_syms(symbols@);
    let mut i = symbols.len();
    proof {
        assert(sv.take(i as int) =~= sv);
    }
    loop
        invariant
            i <= symbols.len(),
            sv == view_syms(symbols@),
            sym_lookup(sv, name@) == sym_lookup(sv.take(i as int), name@),
        ensures
            i == 0,
            sym_lookup(sv, name@) == sym_lookup(sv.take(0), name@),
        decreases i,
    {
        if i == 0 {
            break ;
        }
        i = i - 1;
        let hit = symbols[i].0 == *name;
        proof {
            assert(sv.take(i + 1).last() == (symbols@[i as int].0@, symbols@[i as int].1));
            assert(sv.take(i + 1).drop_last() =~= sv.take(i as int));
        }
        if hit {
            return Some(symbols[i].1);
        }
    }
    proof {
        assert(sv.take(0) =~= Seq::<(Seq<char>, u64)>::empty());
    }
    None
}

// ---------------------------------------------------------------------------
// Code emission, specified: each node's instruction bytes. Only `let`
// bindings change the symbol state, and they can nest only through the
// value of another `let`, so the arithmetic emitters take the table
// read-only.
// ---------------------------------------------------------------------------

pub open spec fn add_op_byte(op: TermOperator) -> u8 {
    match op {
        TermOperator::Plus => OP_ADD,
        TermOperator::Minus => OP_SUB,
    }
}

pub open spec fn mul_op_byte(op: FactorOperator) -> u8 {
    match op {
        FactorOperator::Multiply => OP_MUL,
        FactorOperator::Divide => OP_DIV,
    }
}

/// The 8 bytes of a numeric constant: its 64-bit encoding, low byte first.
pub open spec fn le_bytes64(b: u64) -> Seq<u8> {
    seq![
        (b & 0xff) as u8,
        ((b >> 8) & 0xff) as u8,
        ((b >> 16) & 0xff) as u8,
        ((b >> 24) & 0xff) as u8,
        ((b >> 32) & 0xff) as u8,
        ((b >> 40) & 0xff) as u8,
        ((b >> 48) & 0xff) as u8,
        ((b >> 56) & 0xff) as u8,
    ]
}

/// Bytes of an atom; an identifier must already be bound, else its name
/// is the error.
pub open spec fn sp_emit_atom(a: Atom, syms: Seq<(Seq<char>, u64)>) -> Result<Seq<u8>, Seq<char>>
    decreases a,
{
    match a {
        Atom::Number(n) => Ok(seq![OP_CONST] + le_bytes64(n.num_bits)),
        Atom::Ident(name) => match sym_lookup(syms, name@) {
            Some(idx) => Ok(seq![OP_LOCAL_GET] + sp_uleb(idx as nat)),
            None => Err(name@),
        },
        Atom::Expression(e) => sp_emit_add(e, syms),
    }
}

/// One negate instruction per `-` sign, in encounter order; `+` is a no-op.
pub open spec fn sp_emit_signs(ops: Seq<TermOperator>) -> Seq<u8>
    decreases ops.len(),
{
    if ops.len() == 0 {
        Seq::<u8>::empty()
    } else {
        (if ops[0] is Minus {
            seq![OP_NEG]
        } else {
            Seq::<u8>::empty()
        }) + sp_emit_signs(ops.drop_first())
    }
}

pub open spec fn sp_emit_factor(f: Factor, syms: Seq<(Seq<char>, u64)>) -> Result<
    Seq<u8>,
    Seq<char>,
>
    decreases f,
{
    match sp_emit_atom(f.atom, syms) {
        Err(e) => Err(e),
        Ok(b) => Ok(b + sp_emit_signs(f.ops@)),
    }
}

pub open spec fn sp_emit_factor_list(
    s: Seq<(FactorOperator, Factor)>,
    syms: Seq<(Seq<char>, u64)>,
) -> Result<Seq<u8>, Seq<char>>
    decreases s,
{
    if s.len() == 0 {
        Ok(Seq::<u8>::empty())
    } else {
        match sp_emit_factor(s[0].1, syms) {
            Err(e) => Err(e),
            Ok(fb) => match sp_emit_factor_list(s.drop_first(), syms) {
                Err(e) => Err(e),
                Ok(rb) => Ok(fb + seq![mul_op_byte(s[0].0)] + rb),
            },
        }
    }
}

pub open spec fn sp_emit_term(t: Term, syms: Seq<(Seq<char>, u64)>) -> Result<Seq<u8>, Seq<char>>
    decreases t,
{
    match sp_emit_factor(t.factor, syms) {
        Err(e) => Err(e),
        Ok(fb) => match sp_emit_factor_list(t.following@, syms) {
            Err(e) => Err(e),
            Ok(rb) => Ok(fb + rb),
        },
    }
}

pub open spec fn sp_emit_term_list(s: Seq<(TermOperator, Term)>, syms: Seq<(Seq<char>, u64)>) -> Result<
    Seq<u8>,
    Seq<char>,
>
    decreases s,
{
    if s.len() == 0 {
        Ok(Seq::<u8>::empty())
    } else {
        match sp_emit_term(s[0].1, syms) {
            Err(e) => Err(e),
            Ok(tb) => match sp_emit_term_list(s.drop_first(), syms) {
                Err(e) => Err(e),
                Ok(rb) => Ok(tb + seq![add_op_byte(s[0].0)] + rb),
            },
        }
    }
}

pub open spec fn sp_emit_add(a: AddExpr, syms: Seq<(Seq<char>, u64)>) -> Result<Seq<u8>, Seq<char>>
    decreases a,
{
    match sp_emit_term(*a.term, syms) {
        Err(e) => Err(e),
        Ok(tb) => match sp_emit_term_list(a.following@, syms) {
            Err(e) => Err(e),
            Ok(rb) => Ok(tb + rb),
        },
    }
}

/// Bytes and symbol state after one top-level expression: a binding emits
/// its value, stores it into the next slot, and records the name.
pub open spec fn sp_emit_expr(e: Expression, syms: Seq<(Seq<char>, u64)>, distinct: u64) -> Result<
    (Seq<u8>, Seq<(Seq<char>, u64)>, u64),
    Seq<char>,
>
    decreases e,
{
    match e {
        Expression::Add(a) => match sp_emit_add(a, syms) {
            Err(er) => Err(er),
            Ok(b) => Ok((b, syms, distinct)),
        },
        Expression::Let(l) => match sp_emit_expr(*l.expr, syms, distinct) {
            Err(er) => Err(er),
            Ok((b, syms1, d1)) => {
                let (syms2, d2) = sym_insert(syms1, d1, l.name@);
                Ok((b + seq![OP_LOCAL_SET] + sp_uleb(d1 as nat), syms2, d2))
            },
        },
    }
}

pub open spec fn sp_emit_program(
    p: Seq<Expression>,
    syms: Seq<(Seq<char>, u64)>,
    distinct: u64,
) -> Result<(Seq<u8>, Seq<(Seq<char>, u64)>, u64), Seq<char>>
    decreases p,
{
    if p.len() == 0 {
        Ok((Seq::<u8>::empty(), syms, distinct))
    } else {
        match sp_emit_expr(p[0], syms, distinct) {
            Err(er) => Err(er),
            Ok((b, s1, d1)) => match sp_emit_program(p.drop_first(), s1, d1) {
                Err(er) => Err(er),
                Ok((rb, s2, d2)) => Ok((b + rb, s2, d2)),
            },
        }
    }
}

/// The number of top-level `let` bindings: the size of the one local group.
pub open spec fn sp_let_count(p: Seq<Expression>) -> nat
    decreases p.len(),
{
    if p.len() == 0 {
        0
    } else {
        (if p[0] is Let {
            1nat
        } else {
            0nat
        }) + sp_let_count(p.drop_first())
    }
}

// ---------------------------------------------------------------------------
// The whole module image, specified.
// ---------------------------------------------------------------------------

/// Type section content: one function type, no parameters, one numeric
/// result.
pub open spec fn type_section() -> Seq<u8> {
    seq![1u8, TYPE_FUNC, 0u8, 1u8, TYPE_NUM]
}

/// Function section content: one function, of type index 0.
pub open spec fn function_section() -> Seq<u8> {
    seq![1u8, 0u8]
}

/// Export section content: one export, the 4-byte name `main`, kind
/// function, index 0.
pub open spec fn export_section() -> Seq<u8> {
    seq![1u8, 4u8, 0x6du8, 0x61u8, 0x69u8, 0x6eu8, 0u8, 0u8]
}

/// The function body: one local group holding the `let`-count of numeric
/// locals, the instruction stream, and the terminator.
pub open spec fn sp_body(p: Seq<Expression>, instrs: Seq<u8>) -> Seq<u8> {
    seq![1u8] + sp_uleb(sp_let_count(p)) + seq![TYPE_NUM] + instrs + seq![OP_END]
}

/// The complete module: magic tag, version 1, then the four sections,
/// each as id, length, content.
pub open spec fn sp_module(p: Seq<Expression>, instrs: Seq<u8>) -> Seq<u8> {
    let body = sp_body(p, instrs);
    let code = seq![1u8] + sp_uleb(body.len()) + body;
    seq![0u8, 0x61u8, 0x73u8, 0x6du8] + seq![1u8, 0u8, 0u8, 0u8] + seq![1u8] + sp_uleb(
        type_section().len(),
    ) + type_section() + seq![3u8] + sp_uleb(function_section().len()) + function_section()
        + seq![7u8] + sp_uleb(export_section().len()) + export_section() + seq![10u8] + sp_uleb(
        code.len(),
    ) + code
}

/// What compiling a program yields: the module image, or the name of the
/// first identifier referenced without a previous binding.
pub open spec fn sp_compile(p: Seq<Expression>) -> Result<Seq<u8>, Seq<char>> {
    match sp_emit_program(p, Seq::<(Seq<char>, u64)>::empty(), 0) {
        Err(name) => Err(name),
        Ok((instrs, _s, _d)) => Ok(sp_module(p, instrs)),
    }
}

// ---------------------------------------------------------------------------
// Code emission, executed.
// ---------------------------------------------------------------------------

fn emit_atom(symbols: &Vec<(String, u64)>, buf: &mut Vec<u8>, node: &Atom) -> (r: Result<
    (),
    CompileError,
>)
    ensures
        (match sp_emit_atom(*node, view_syms(symbols@)) {
            Ok(bytes) => r is Ok && final(buf)@ == old(buf)@ + bytes,
            Err(name) => (r matches Err(ce) && ce matches CompileError::UnresolvedVariable(n)
                && n@ == name),
        }),
    decreases *node,
{
    let ghost b0 = buf@;
    match node {
        Atom::Number(n) => {
            let bits = n.num_bits;
            buf.push(OP_CONST);
            buf.push((bits & 0xff) as u8);
            buf.push(((bits >> 8) & 0xff) as u8);
            buf.push(((bits >> 16) & 0xff) as u8);
            buf.push(((bits >> 24) & 0xff) as u8);
            buf.push(((bits >> 32) & 0xff) as u8);
            buf.push(((bits >> 40) & 0xff) as u8);
            buf.push(((bits >> 48) & 0xff) as u8);
            buf.push(((bits >> 56) & 0xff) as u8);
            proof {
                assert(buf@ =~= b0 + seq![OP_CONST] + le_bytes64(bits));
                assert(b0 + seq![OP_CONST] + le_bytes64(bits) =~= b0 + (seq![OP_CONST]
                    + le_bytes64(bits)));
            }
            Ok(())
        },
        Atom::Ident(name) => match lookup(symbols, name) {
            Some(idx) => {
                buf.push(OP_LOCAL_GET);
                let mut enc = as_uleb128(idx);
                buf.append(&mut enc);
                proof {
                    assert(buf@ =~= b0 + (seq![OP_LOCAL_GET] + sp_uleb(idx as nat)));
                }
                Ok(())
            },
            None => Err(CompileError::UnresolvedVariable(name.clone())),
        },
        Atom::Expression(e) => emit_add(symbols, buf, e),
    }
}

fn emit_factor(symbols: &Vec<(String, u64)>, buf: &mut Vec<u8>, node: &Factor) -> (r: Result<
    (),
    CompileError,
>)
    ensures
        (match sp_emit_factor(*node, view_syms(symbols@)) {
            Ok(bytes) => r is Ok && final(buf)@ == old(buf)@ + bytes,
            Err(name) => (r matches Err(ce) && ce matches CompileError::UnresolvedVariable(n)
                && n@ == name),
        }),
    decreases *node,
{
    let ghost sv = view_syms(symbols@);
    let ghost b0 = buf@;
    match emit_atom(symbols, buf, &node.atom) {
        Err(e) => Err(e),
        Ok(()) => {
            let ghost base = buf@;
            let ghost ops = node.ops@;
            let mut i: usize = 0;
            proof {
                assert(ops.skip(0) =~= ops);
                assert(buf@.skip(base.len() as int) =~= Seq::<u8>::empty());
            }
            loop
                invariant
                    0 <= i <= node.ops@.len(),
                    ops == node.ops@,
                    base.len() <= buf@.len(),
                    buf@.subrange(0, base.len() as int) == base,
                    sp_emit_signs(ops) == buf@.skip(base.len() as int) + sp_emit_signs(
                        ops.skip(i as int),
                    ),
                ensures
                    buf@ == base + sp_emit_signs(ops),
                decreases node.ops@.len() - i,
            {
                if i >= node.ops.len() {
                    proof {
                        assert(ops.skip(i as int) =~= Seq::<TermOperator>::empty());
                        assert(sp_emit_signs(ops.skip(i as int)) =~= Seq::<u8>::empty());
                        assert(buf@ =~= base + buf@.skip(base.len() as int));
                    }
                    break ;
                }
                let ghost pre = buf@;
                let op = node.ops[i];
                if op == TermOperator::Minus {
                    buf.push(OP_NEG);
                }
                proof {
                    assert(ops.skip(i as int)[0] == ops[i as int]);
                    assert(ops.skip(i as int).drop_first() =~= ops.skip(i as int + 1));
                    assert(buf@.subrange(0, base.len() as int) =~= base);
                    if op == TermOperator::Minus {
                        assert(buf@.skip(base.len() as int) =~= pre.skip(base.len() as int)
                            + seq![OP_NEG]);
                        assert((pre.skip(base.len() as int) + seq![OP_NEG]) + sp_emit_signs(
                            ops.skip(i as int + 1),
                        ) =~= pre.skip(base.len() as int) + (seq![OP_NEG] + sp_emit_signs(
                            ops.skip(i as int + 1),
                        )));
                    }
                }
                i = i + 1;
            }
            proof {
                let ab = sp_emit_atom(node.atom, sv)->Ok_0;
                assert(buf@ =~= b0 + (ab + sp_emit_signs(ops)));
            }
            Ok(())
        },
    }
}

fn emit_term(symbols: &Vec<(String, u64)>, buf: &mut Vec<u8>, node: &Term) -> (r: Result<
    (),
    CompileError,
>)
    ensures
        (match sp_emit_term(*node, view_syms(symbols@)) {
            Ok(bytes) => r is Ok && final(buf)@ == old(buf)@ + bytes,
            Err(name) => (r matches Err(ce) && ce matches CompileError::UnresolvedVariable(n)
                && n@ == name),
        }),
    decreases *node,
{
    let ghost sv = view_syms(symbols@);
    let ghost b0 = buf@;
    match emit_factor(symbols, buf, &node.factor) {
        Err(e) => Err(e),
        Ok(()) => {
            let ghost base = buf@;
            let ghost f = node.following@;
            let ghost full = sp_emit_factor_list(f, sv);
            let mut i: usize = 0;
            proof {
                assert(f.skip(0) =~= f);
                assert(buf@.skip(base.len() as int) =~= Seq::<u8>::empty());
            }
            loop
                invariant
                    0 <= i <= node.following@.len(),
                    f == node.following@,
                    sv == view_syms(symbols@),
                    full == sp_emit_factor_list(f, sv),
                    b0 == old(buf)@,
                    sp_emit_factor(node.factor, sv) is Ok,
                    base == b0 + sp_emit_factor(node.factor, sv)->Ok_0,
                    base.len() <= buf@.len(),
                    buf@.subrange(0, base.len() as int) == base,
                    (match sp_emit_factor_list(f.skip(i as int), sv) {
                        Ok(rb) => full matches Ok(fb) && fb == buf@.skip(base.len() as int) + rb,
                        Err(e) => full == Err::<Seq<u8>, Seq<char>>(e),
                    }),
                ensures
                    full matches Ok(fb) && buf@ == base + fb,
                decreases node.following@.len() - i,
            {
                if i >= node.following.len() {
                    proof {
                        assert(f.skip(i as int) =~= Seq::<(FactorOperator, Factor)>::empty());
                        assert(buf@ =~= base + buf@.skip(base.len() as int));
                    }
                    break ;
                }
                let ghost pre = buf@;
                proof {
                    assert(f.skip(i as int)[0] == f[i as int]);
                    assert(f.skip(i as int).drop_first() =~= f.skip(i as int + 1));
                }
                match emit_factor(symbols, buf, &node.following[i].1) {
                    Err(e) => {
                        return Err(e);
                    },
                    Ok(()) => {
                        let op = node.following[i].0;
                        let ob = if op == FactorOperator::Multiply {
                            OP_MUL
                        } else {
                            OP_DIV
                        };
                        buf.push(ob);
                        proof {
                            let fb1 = sp_emit_factor(f[i as int].1, sv)->Ok_0;
                            assert(buf@.subrange(0, base.len() as int) =~= base);
                            assert(buf@.skip(base.len() as int) =~= pre.skip(base.len() as int)
                                + fb1 + seq![ob]);
                            if sp_emit_factor_list(f.skip(i as int + 1), sv) is Ok {
                                let rb2 = sp_emit_factor_list(f.skip(i as int + 1), sv)->Ok_0;
                                assert(pre.skip(base.len() as int) + (fb1 + seq![ob] + rb2)
                                    =~= (pre.skip(base.len() as int) + fb1 + seq![ob]) + rb2);
                            }
                        }
                        i = i + 1;
                    },
                }
            }
            proof {
                let fb0 = sp_emit_factor(node.factor, sv)->Ok_0;
                let rb = full->Ok_0;
                assert(buf@ =~= b0 + (fb0 + rb));
            }
            Ok(())
        },
    }
}

fn emit_add(symbols: &Vec<(String, u64)>, buf: &mut Vec<u8>, node: &AddExpr) -> (r: Result<
    (),
    CompileError,
>)
    ensures
        (match sp_emit_add(*node, view_syms(symbols@)) {
            Ok(bytes) => r is Ok && final(buf)@ == old(buf)@ + bytes,
            Err(name) => (r matches Err(ce) && ce matches CompileError::UnresolvedVariable(n)
                && n@ == name),
        }),
    decreases *node,
{
    let ghost sv = view_syms(symbols@);
    let ghost b0 = buf@;
    match emit_term(symbols, buf, &*node.term) {
        Err(e) => Err(e),
        Ok(()) => {
            let ghost base = buf@;
            let ghost f = node.following@;
            let ghost full = sp_emit_term_list(f, sv);
            let mut i: usize = 0;
            proof {
                assert(f.skip(0) =~= f);
                assert(buf@.skip(base.len() as int) =~= Seq::<u8>::empty());
            }
            loop
                invariant
                    0 <= i <= node.following@.len(),
                    f == node.following@,
                    sv == view_syms(symbols@),
                    full == sp_emit_term_list(f, sv),
                    b0 == old(buf)@,
                    sp_emit_term(*node.term, sv) is Ok,
                    base == b0 + sp_emit_term(*node.term, sv)->Ok_0,
                    base.len() <= buf@.len(),
                    buf@.subrange(0, base.len() as int) == base,
                    (match sp_emit_term_list(f.skip(i as int), sv) {
                        Ok(rb) => full matches Ok(fb) && fb == buf@.skip(base.len() as int) + rb,
                        Err(e) => full == Err::<Seq<u8>, Seq<char>>(e),
                    }),
                ensures
                    full matches Ok(fb) && buf@ == base + fb,
                decreases node.following@.len() - i,
            {
                if i >= node.following.len() {
                    proof {
                        assert(f.skip(i as int) =~= Seq::<(TermOperator, Term)>::empty());
                        assert(buf@ =~= base + buf@.skip(base.len() as int));
                    }
                    break ;
                }
                let ghost pre = buf@;
                proof {
                    assert(f.skip(i as int)[0] == f[i as int]);
                    assert(f.skip(i as int).drop_first() =~= f.skip(i as int + 1));
                }
                match emit_term(symbols, buf, &node.following[i].1) {
                    Err(e) => {
                        return Err(e);
                    },
                    Ok(()) => {
                        let op = node.following[i].0;
                        let ob = if op == TermOperator::Plus {
                            OP_ADD
                        } else {
                            OP_SUB
                        };
                        buf.push(ob);
                        proof {
                            let tb1 = sp_emit_term(f[i as int].1, sv)->Ok_0;
                            assert(buf@.subrange(0, base.len() as int) =~= base);
                            assert(buf@.skip(base.len() as int) =~= pre.skip(base.len() as int)
                                + tb1 + seq![ob]);
                            if sp_emit_term_list(f.skip(i as int + 1), sv) is Ok {
                                let rb2 = sp_emit_term_list(f.skip(i as int + 1), sv)->Ok_0;
                                assert(pre.skip(base.len() as int) + (tb1 + seq![ob] + rb2)
                                    =~= (pre.skip(base.len() as int) + tb1 + seq![ob]) + rb2);
                            }
                        }
                        i = i + 1;
                    },
                }
            }
            proof {
                let tb0 = sp_emit_term(*node.term, sv)->Ok_0;
                let rb = full->Ok_0;
                assert(buf@ =~= b0 + (tb0 + rb));
            }
            Ok(())
        },
    }
}

fn emit_expr(
    symbols: &mut Vec<(String, u64)>,
    distinct: &mut u64,
    buf: &mut Vec<u8>,
    node: &Expression,
) -> (r: Result<(), CompileError>)
    requires
        *old(distinct) <= old(symbols)@.len(),
    ensures
        (match sp_emit_expr(*node, view_syms(old(symbols)@), *old(distinct)) {
            Ok((bytes, s2, d2)) => r is Ok && final(buf)@ == old(buf)@ + bytes && view_syms(
                final(symbols)@,
            ) == s2 && *final(distinct) == d2 && *final(distinct) <= final(symbols)@.len(),
            Err(name) => (r matches Err(ce) && ce matches CompileError::UnresolvedVariable(n)
                && n@ == name),
        }),
    decreases *node,
{
    match node {
        Expression::Add(a) => emit_add(symbols, buf, a),
        Expression::Let(l) => {
            let ghost b0 = buf@;
            match emit_expr(symbols, distinct, buf, &*l.expr) {
                Err(e) => Err(e),
                Ok(()) => {
                    let idx = *distinct;
                    buf.push(OP_LOCAL_SET);
                    let mut enc = as_uleb128(idx);
                    buf.append(&mut enc);
                    let existed = lookup(symbols, &l.name).is_some();
                    let ghost syms1v = view_syms(symbols@);
                    symbols.push((l.name.clone(), idx));
                    let n2 = symbols.len();
                    proof {
                        assert(*distinct < n2 <= usize::MAX);
                    }
                    if !existed {
                        *distinct = *distinct + 1;
                    }
                    proof {
                        let inner = sp_emit_expr(*l.expr, view_syms(old(symbols)@), *old(distinct));
                        let b1 = inner->Ok_0.0;
                        assert(buf@ =~= b0 + (b1 + seq![OP_LOCAL_SET] + sp_uleb(idx as nat)));
                        assert(view_syms(symbols@) =~= syms1v.push((l.name@, idx)));
                    }
                    Ok(())
                },
            }
        },
    }
}

fn emit_program(
    symbols: &mut Vec<(String, u64)>,
    distinct: &mut u64,
    buf: &mut Vec<u8>,
    p: &Vec<Expression>,
) -> (r: Result<(), CompileError>)
    requires
        *old(distinct) <= old(symbols)@.len(),
    ensures
        (match sp_emit_program(p@, view_syms(old(symbols)@), *old(distinct)) {
            Ok((bytes, s2, d2)) => r is Ok && final(buf)@ == old(buf)@ + bytes && view_syms(
                final(symbols)@,
            ) == s2 && *final(distinct) == d2 && *final(distinct) <= final(symbols)@.len(),
            Err(name) => (r matches Err(ce) && ce matches CompileError::UnresolvedVariable(n)
                && n@ == name),
        }),
{
    let ghost b0 = buf@;
    let ghost pv = p@;
    let ghost full = sp_emit_program(pv, view_syms(symbols@), *distinct);
    let mut i: usize = 0;
    proof {
        assert(pv.skip(0) =~= pv);
        assert(buf@.skip(b0.len() as int) =~= Seq::<u8>::empty());
    }
    loop
        invariant
            0 <= i <= p@.len(),
            pv == p@,
            *distinct <= symbols@.len(),
            full == sp_emit_program(pv, view_syms(old(symbols)@), *old(distinct)),
            b0 == old(buf)@,
            b0.len() <= buf@.len(),
            buf@.subrange(0, b0.len() as int) == b0,
            (match sp_emit_program(pv.skip(i as int), view_syms(symbols@), *distinct) {
                Ok((rb, s2, d2)) => full matches Ok(fr) && fr.0 == buf@.skip(b0.len() as int) + rb
                    && fr.1 == s2 && fr.2 == d2,
                Err(e) => full == Err::<(Seq<u8>, Seq<(Seq<char>, u64)>, u64), Seq<char>>(e),
            }),
        ensures
            full matches Ok(fr) && buf@ == b0 + fr.0 && view_syms(symbols@) == fr.1 && *distinct
                == fr.2 && *distinct <= symbols@.len(),
        decreases p@.len() - i,
    {
        if i >= p.len() {
            proof {
                assert(pv.skip(i as int) =~= Seq::<Expression>::empty());
                assert(buf@ =~= b0 + buf@.skip(b0.len() as int));
            }
            break ;
        }
        let ghost pre = buf@;
        let ghost syms_pre = view_syms(symbols@);
        let ghost d_pre = *distinct;
        proof {
            assert(pv.skip(i as int)[0] == pv[i as int]);
            assert(pv.skip(i as int).drop_first() =~= pv.skip(i as int + 1));
        }
        match emit_expr(symbols, distinct, buf, &p[i]) {
            Err(e) => {
                return Err(e);
            },
            Ok(()) => {
                proof {
                    let step = sp_emit_expr(pv[i as int], syms_pre, d_pre);
                    let eb = step->Ok_0.0;
                    assert(buf@.subrange(0, b0.len() as int) =~= b0);
                    assert(buf@.skip(b0.len() as int) =~= pre.skip(b0.len() as int) + eb);
                    if sp_emit_program(pv.skip(i as int + 1), view_syms(symbols@), *distinct) is Ok {
                        let rb2 = sp_emit_program(
                            pv.skip(i as int + 1),
                            view_syms(symbols@),
                            *distinct,
                        )->Ok_0.0;
                        assert(pre.skip(b0.len() as int) + (eb + rb2) =~= (pre.skip(
                            b0.len() as int,
                        ) + eb) + rb2);
                    }
                }
                i = i + 1;
            },
        }
    }
    Ok(())
}

fn count_lets(p: &Vec<Expression>) -> (n: u64)
    ensures
        n as nat == sp_let_count(p@),
{
    let ghost pv = p@;
    let mut n: u64 = 0;
    let mut i: usize = 0;
    proof {
        assert(pv.skip(0) =~= pv);
    }
    loop
        invariant
            0 <= i <= p@.len(),
            pv == p@,
            n as nat <= i as nat,
            sp_let_count(pv) == n as nat + sp_let_count(pv.skip(i as int)),
        ensures
            n as nat == sp_let_count(pv),
        decreases p@.len() - i,
    {
        if i >= p.len() {
            proof {
                assert(pv.skip(i as int) =~= Seq::<Expression>::empty());
            }
            break ;
        }
        proof {
            assert(pv.skip(i as int)[0] == pv[i as int]);
            assert(pv.skip(i as int).drop_first() =~= pv.skip(i as int + 1));
        }
        let is_let = matches!(p[i], Expression::Let(_));
        if is_let {
            n = n + 1;
        }
        i = i + 1;
    }
    n
}

// ---------------------------------------------------------------------------
// The compiler.
// ---------------------------------------------------------------------------

/// Walks a program and assembles the complete binary module image.
pub struct Compiler {
    tree: Program,
}

impl Compiler {
    /// The program to be emitted.
    pub closed spec fn spec_tree(&self) -> Seq<Expression> {
        self.tree@
    }

    /// A compiler holding the given program.
    pub fn new(nodes: Program) -> (c: Compiler)
        ensures
            c.spec_tree() == nodes@,
    {
        Compiler { tree: nodes }
    }

    /// Emit the binary module: magic tag and version, then the type,
    /// function, export and code sections; or name the first identifier
    /// that was referenced before any binding introduced it.
    #[verifier::rlimit(50)]
    pub fn compile(self) -> (r: Result<Vec<u8>, CompileError>)
        ensures
            (match sp_compile(self.spec_tree()) {
                Ok(bytes) => r matches Ok(v) && v@ == bytes,
                Err(name) => (r matches Err(ce) && ce matches CompileError::UnresolvedVariable(n)
                    && n@ == name),
            }),
    {
        let Compiler { tree } = self;
        let mut symbols: Vec<(String, u64)> = Vec::new();
        let mut distinct: u64 = 0;
        let mut instrs: Vec<u8> = Vec::new();
        proof {
            assert(view_syms(symbols@) =~= Seq::<(Seq<char>, u64)>::empty());
        }
        match emit_program(&mut symbols, &mut distinct, &mut instrs, &tree) {
            Err(e) => Err(e),
            Ok(()) => {
                let ghost ib = instrs@;
                let lets = count_lets(&tree);
                let mut body: Vec<u8> = Vec::new();
                body.push(1);
                let mut enc = as_uleb128(lets);
                body.append(&mut enc);
                body.push(TYPE_NUM);
                body.append(&mut instrs);
                body.push(OP_END);
                proof {
                    assert(body@ =~= sp_body(tree@, ib));
                }
                let ghost bodyv = body@;
                let mut code: Vec<u8> = Vec::new();
                code.push(1);
                let mut bl = as_uleb128(body.len() as u64);
                code.append(&mut bl);
                code.append(&mut body);
                proof {
                    assert(code@ =~= seq![1u8] + sp_uleb(bodyv.len()) + bodyv);
                }
                let ghost codev = code@;
                let mut out: Vec<u8> = Vec::new();
                out.push(0);
                out.push(0x61);
                out.push(0x73);
                out.push(0x6d);
                out.push(1);
                out.push(0);
                out.push(0);
                out.push(0);
                out.push(1);
                let mut tl = as_uleb128(5);
                out.append(&mut tl);
                out.push(1);
                out.push(TYPE_FUNC);
                out.push(0);
                out.push(1);
                out.push(TYPE_NUM);
                out.push(3);
                let mut fl = as_uleb128(2);
                out.append(&mut fl);
                out.push(1);
                out.push(0);
                out.push(7);
                let mut el = as_uleb128(8);
                out.append(&mut el);
                out.push(1);
                out.push(4);
                out.push(0x6d);
                out.push(0x61);
                out.push(0x69);
                out.push(0x6e);
                out.push(0);
                out.push(0);
                out.push(10);
                let mut cl = as_uleb128(code.len() as u64);
                out.append(&mut cl);
                out.append(&mut code);
                proof {
                    assert(type_section().len() == 5);
                    assert(function_section().len() == 2);
                    assert(export_section().len() == 8);
                    assert(out@ =~= sp_module(tree@, ib));
                }
                Ok(out)
            },
        }
    }
}

} // verus!
