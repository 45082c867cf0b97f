use vstd::prelude::*;

use crate::errors::ParseError;
use crate::lexer::{eof_token, spec_scan, view_tokens};
use crate::nodes::{
    AddExpr, Atom, Expression, Factor, FactorOperator, LetExpr, NumberLiteral, Program,
    SpecAddExpr, SpecAtom, SpecExpression, SpecFactor, SpecLetExpr, SpecNumber, SpecTerm, Term,
    TermOperator, view_add, view_atom, view_expr, view_factor, view_factor_pairs, view_program,
    view_term, view_term_pairs,
};
use crate::tokens::{SpecToken, Token, TokenType};

verus! {

// ---------------------------------------------------------------------------
// The grammar, as functions from a token sequence and a position to the
// parsed node and the position just past it. The token after the end of
// the sequence is the sentinel, so every position has a current token.
// ---------------------------------------------------------------------------

/// The current token at position `i`, with the sentinel past the end.
pub open spec fn tok_at(toks: Seq<SpecToken>, i: int) -> SpecToken {
    if 0 <= i < toks.len() {
        toks[i]
    } else {
        eof_token()
    }
}

/// Clamp `j` to at least `lo`; used only to make termination of the
/// grammar functions evident, and always the identity at the positions
/// the parser actually reaches.
pub open spec fn at_least(lo: int, j: int) -> int {
    if j < lo {
        lo
    } else {
        j
    }
}

/// How many tokens remain before the sentinel region: the termination
/// measure of the grammar functions.
pub open spec fn tokens_left(toks: Seq<SpecToken>, i: int) -> int {
    if i <= toks.len() {
        toks.len() - i
    } else {
        0
    }
}

/// program := (expression (';' expression)*)?
pub open spec fn sp_program(toks: Seq<SpecToken>, i: int) -> (Result<
    Seq<SpecExpression>,
    ParseError,
>, int)
    decreases tokens_left(toks, i), 9int,
{
    if tok_at(toks, i).token_type == TokenType::Eof {
        (Ok(Seq::<SpecExpression>::empty()), i)
    } else {
        let (r, i2) = sp_expression(toks, i);
        match r {
            Err(e) => (Err(e), i2),
            Ok(e1) => {
                let (r2, i3) = sp_program_rest(toks, at_least(i, i2));
                match r2 {
                    Err(e) => (Err(e), i3),
                    Ok(rest) => (Ok(seq![e1] + rest), i3),
                }
            },
        }
    }
}

/// The `(';' expression)*` tail of a program.
pub open spec fn sp_program_rest(toks: Seq<SpecToken>, i: int) -> (Result<
    Seq<SpecExpression>,
    ParseError,
>, int)
    decreases tokens_left(toks, i), 8int,
{
    if tok_at(toks, i).token_type == TokenType::Semicolon {
        let (r, i2) = sp_expression(toks, i + 1);
        match r {
            Err(e) => (Err(e), i2),
            Ok(e1) => {
                let (r2, i3) = sp_program_rest(toks, at_least(i + 1, i2));
                match r2 {
                    Err(e) => (Err(e), i3),
                    Ok(rest) => (Ok(seq![e1] + rest), i3),
                }
            },
        }
    } else {
        (Ok(Seq::<SpecExpression>::empty()), i)
    }
}

/// expression := let_expr | add_expr
pub open spec fn sp_expression(toks: Seq<SpecToken>, i: int) -> (Result<
    SpecExpression,
    ParseError,
>, int)
    decreases tokens_left(toks, i), 7int,
{
    if tok_at(toks, i).token_type == TokenType::Let {
        let (r, i2) = sp_let_expr(toks, i);
        match r {
            Err(e) => (Err(e), i2),
            Ok(l) => (Ok(SpecExpression::Let(l)), i2),
        }
    } else {
        let (r, i2) = sp_add_expr(toks, i);
        match r {
            Err(e) => (Err(e), i2),
            Ok(a) => (Ok(SpecExpression::Add(a)), i2),
        }
    }
}

/// let_expr := 'let' IDENT '=' expression, with `i` at the keyword.
pub open spec fn sp_let_expr(toks: Seq<SpecToken>, i: int) -> (Result<SpecLetExpr, ParseError>, int)
    decreases tokens_left(toks, i), 6int,
{
    if tok_at(toks, i + 1).token_type != TokenType::Ident {
        (Err(ParseError::ExpectedIdentifier), i + 1)
    } else if tok_at(toks, i + 2).token_type != TokenType::Assign {
        (Err(ParseError::ExpectedToken('=')), i + 2)
    } else {
        let (r, i3) = sp_expression(toks, i + 3);
        match r {
            Err(e) => (Err(e), i3),
            Ok(e1) => (
                Ok(SpecLetExpr { name: tok_at(toks, i + 1).value, expr: Box::new(e1) }),
                i3,
            ),
        }
    }
}

/// add_expr := term (('+' | '-') term)*
pub open spec fn sp_add_expr(toks: Seq<SpecToken>, i: int) -> (Result<SpecAddExpr, ParseError>, int)
    decreases tokens_left(toks, i), 5int,
{
    let (r, i2) = sp_term(toks, i);
    match r {
        Err(e) => (Err(e), i2),
        Ok(t1) => {
            let (r2, i3) = sp_add_rest(toks, at_least(i, i2));
            match r2 {
                Err(e) => (Err(e), i3),
                Ok(rest) => (Ok(SpecAddExpr { term: Box::new(t1), following: rest }), i3),
            }
        },
    }
}

/// The `(('+' | '-') term)*` tail of an additive chain.
pub open spec fn sp_add_rest(toks: Seq<SpecToken>, i: int) -> (Result<
    Seq<(TermOperator, SpecTerm)>,
    ParseError,
>, int)
    decreases tokens_left(toks, i), 4int,
{
    let tt = tok_at(toks, i).token_type;
    if tt == TokenType::Plus || tt == TokenType::Minus {
        let op = if tt == TokenType::Plus {
            TermOperator::Plus
        } else {
            TermOperator::Minus
        };
        let (r, i2) = sp_term(toks, i + 1);
        match r {
            Err(e) => (Err(e), i2),
            Ok(t) => {
                let (r2, i3) = sp_add_rest(toks, at_least(i + 1, i2));
                match r2 {
                    Err(e) => (Err(e), i3),
                    Ok(rest) => (Ok(seq![(op, t)] + rest), i3),
                }
            },
        }
    } else {
        (Ok(Seq::<(TermOperator, SpecTerm)>::empty()), i)
    }
}

/// term := factor (('*' | '/') factor)*
pub open spec fn sp_term(toks: Seq<SpecToken>, i: int) -> (Result<SpecTerm, ParseError>, int)
    decreases tokens_left(toks, i), 3int,
{
    let (r, i2) = sp_factor(toks, i);
    match r {
        Err(e) => (Err(e), i2),
        Ok(f1) => {
            let (r2, i3) = sp_mul_rest(toks, at_least(i, i2));
            match r2 {
                Err(e) => (Err(e), i3),
                Ok(rest) => (Ok(SpecTerm { factor: f1, following: rest }), i3),
            }
        },
    }
}

/// The `(('*' | '/') factor)*` tail of a multiplicative chain.
pub open spec fn sp_mul_rest(toks: Seq<SpecToken>, i: int) -> (Result<
    Seq<(FactorOperator, SpecFactor)>,
    ParseError,
>, int)
    decreases tokens_left(toks, i), 2int,
{
    let tt = tok_at(toks, i).token_type;
    if tt == TokenType::Multiply || tt == TokenType::Divide {
        let op = if tt == TokenType::Multiply {
            FactorOperator::Multiply
        } else {
            FactorOperator::Divide
        };
        let (r, i2) = sp_factor(toks, i + 1);
        match r {
            Err(e) => (Err(e), i2),
            Ok(f) => {
                let (r2, i3) = sp_mul_rest(toks, at_least(i + 1, i2));
                match r2 {
                    Err(e) => (Err(e), i3),
                    Ok(rest) => (Ok(seq![(op, f)] + rest), i3),
                }
            },
        }
    } else {
        (Ok(Seq::<(FactorOperator, SpecFactor)>::empty()), i)
    }
}

/// factor := ('+' | '-')* atom
pub open spec fn sp_factor(toks: Seq<SpecToken>, i: int) -> (Result<SpecFactor, ParseError>, int)
    decreases tokens_left(toks, i), 1int,
{
    let tt = tok_at(toks, i).token_type;
    if tt == TokenType::Plus || tt == TokenType::Minus {
        let op = if tt == TokenType::Plus {
            TermOperator::Plus
        } else {
            TermOperator::Minus
        };
        let (r, i2) = sp_factor(toks, i + 1);
        match r {
            Err(e) => (Err(e), i2),
            Ok(f) => (Ok(SpecFactor { ops: seq![op] + f.ops, atom: f.atom }), i2),
        }
    } else {
        let (r, i2) = sp_atom(toks, i);
        match r {
            Err(e) => (Err(e), i2),
            Ok(a) => (Ok(SpecFactor { ops: Seq::<TermOperator>::empty(), atom: a }), i2),
        }
    }
}

/// atom := '(' add_expr ')' | IDENT | NUMBER
pub open spec fn sp_atom(toks: Seq<SpecToken>, i: int) -> (Result<SpecAtom, ParseError>, int)
    decreases tokens_left(toks, i), 0int,
{
    let t = tok_at(toks, i);
    if t.token_type == TokenType::LParen {
        let (r, i2) = sp_add_expr(toks, i + 1);
        match r {
            Err(e) => (Err(e), i2),
            Ok(a) => {
                if tok_at(toks, at_least(i + 1, i2)).token_type == TokenType::RParen {
                    (Ok(SpecAtom::Expression(a)), at_least(i + 1, i2) + 1)
                } else {
                    (Err(ParseError::ExpectedToken(')')), i2)
                }
            },
        }
    } else if t.token_type == TokenType::Ident {
        (Ok(SpecAtom::Ident(t.value)), i + 1)
    } else if t.token_type == TokenType::Number {
        (Ok(SpecAtom::Number(SpecNumber { text: t.value, num_bits: t.num_bits })), i + 1)
    } else {
        (Err(ParseError::ExpectedExpression), i)
    }
}

/// What parsing a whole token sequence yields: the program, provided the
/// sentinel is reached exactly when the top-level expressions end.
pub open spec fn sp_parse(toks: Seq<SpecToken>) -> Result<Seq<SpecExpression>, ParseError> {
    let (r, i) = sp_program(toks, 0);
    match r {
        Err(e) => Err(e),
        Ok(p) => {
            if tok_at(toks, i).token_type == TokenType::Eof {
                Ok(p)
            } else {
                Err(ParseError::ExpectedEof)
            }
        },
    }
}

// ---------------------------------------------------------------------------
// Laws of the grammar: parsing tokens whose number texts have the shape
// the lexer guarantees yields a program whose literals all have it.
// ---------------------------------------------------------------------------

/// Every `Number` token carries text of the literal shape.
pub open spec fn tokens_literals_ok(toks: Seq<SpecToken>) -> bool {
    forall|k: int|
        0 <= k < toks.len() && (#[trigger] toks[k]).token_type == TokenType::Number
            ==> crate::nodes::is_number_literal(toks[k].value)
}

proof fn lemma_swf_atom(toks: Seq<SpecToken>, i: int)
    requires
        tokens_literals_ok(toks),
    ensures
        sp_atom(toks, i).0 matches Ok(a) ==> crate::nodes::swf_atom(a),
    decreases tokens_left(toks, i), 0int,
{
    let t = tok_at(toks, i);
    if t.token_type == TokenType::LParen {
        lemma_swf_add(toks, i + 1);
    }
}

proof fn lemma_swf_factor(toks: Seq<SpecToken>, i: int)
    requires
        tokens_literals_ok(toks),
    ensures
        sp_factor(toks, i).0 matches Ok(f) ==> crate::nodes::swf_factor(f),
    decreases tokens_left(toks, i), 1int,
{
    let tt = tok_at(toks, i).token_type;
    if tt == TokenType::Plus || tt == TokenType::Minus {
        lemma_swf_factor(toks, i + 1);
    } else {
        lemma_swf_atom(toks, i);
    }
}

proof fn lemma_swf_mul_rest(toks: Seq<SpecToken>, i: int)
    requires
        tokens_literals_ok(toks),
    ensures
        sp_mul_rest(toks, i).0 matches Ok(s) ==> (forall|k: int|
            0 <= k < s.len() ==> crate::nodes::swf_factor((#[trigger] s[k]).1)),
    decreases tokens_left(toks, i), 2int,
{
    let tt = tok_at(toks, i).token_type;
    if tt == TokenType::Multiply || tt == TokenType::Divide {
        lemma_swf_factor(toks, i + 1);
        let (r, i2) = sp_factor(toks, i + 1);
        if r is Ok {
            lemma_swf_mul_rest(toks, at_least(i + 1, i2));
            let (r2, _i3) = sp_mul_rest(toks, at_least(i + 1, i2));
            if r2 is Ok {
                let rest = r2->Ok_0;
                let s = sp_mul_rest(toks, i).0->Ok_0;
                assert forall|k: int| 0 <= k < s.len() implies crate::nodes::swf_factor(
                    (#[trigger] s[k]).1,
                ) by {
                    if k > 0 {
                        assert(s[k] == rest[k - 1]);
                    }
                }
            }
        }
    }
}

proof fn lemma_swf_term(toks: Seq<SpecToken>, i: int)
    requires
        tokens_literals_ok(toks),
    ensures
        sp_term(toks, i).0 matches Ok(t) ==> crate::nodes::swf_term(t),
    decreases tokens_left(toks, i), 3int,
{
    lemma_swf_factor(toks, i);
    let (r, i2) = sp_factor(toks, i);
    if r is Ok {
        lemma_swf_mul_rest(toks, at_least(i, i2));
    }
}

proof fn lemma_swf_add_rest(toks: Seq<SpecToken>, i: int)
    requires
        tokens_literals_ok(toks),
    ensures
        sp_add_rest(toks, i).0 matches Ok(s) ==> (forall|k: int|
            0 <= k < s.len() ==> crate::nodes::swf_term((#[trigger] s[k]).1)),
    decreases tokens_left(toks, i), 4int,
{
    let tt = tok_at(toks, i).token_type;
    if tt == TokenType::Plus || tt == TokenType::Minus {
        lemma_swf_term(toks, i + 1);
        let (r, i2) = sp_term(toks, i + 1);
        if r is Ok {
            lemma_swf_add_rest(toks, at_least(i + 1, i2));
            let (r2, _i3) = sp_add_rest(toks, at_least(i + 1, i2));
            if r2 is Ok {
                let rest = r2->Ok_0;
                let s = sp_add_rest(toks, i).0->Ok_0;
                assert forall|k: int| 0 <= k < s.len() implies crate::nodes::swf_term(
                    (#[trigger] s[k]).1,
                ) by {
                    if k > 0 {
                        assert(s[k] == rest[k - 1]);
                    }
                }
            }
        }
    }
}

proof fn lemma_swf_add(toks: Seq<SpecToken>, i: int)
    requires
        tokens_literals_ok(toks),
    ensures
        sp_add_expr(toks, i).0 matches Ok(a) ==> crate::nodes::swf_add(a),
    decreases tokens_left(toks, i), 5int,
{
    lemma_swf_term(toks, i);
    let (r, i2) = sp_term(toks, i);
    if r is Ok {
        lemma_swf_add_rest(toks, at_least(i, i2));
    }
}

proof fn lemma_swf_let(toks: Seq<SpecToken>, i: int)
    requires
        tokens_literals_ok(toks),
    ensures
        sp_let_expr(toks, i).0 matches Ok(l) ==> crate::nodes::swf_expr(*l.expr),
    decreases tokens_left(toks, i), 6int,
{
    if tok_at(toks, i + 1).token_type == TokenType::Ident && tok_at(toks, i + 2).token_type
        == TokenType::Assign {
        lemma_swf_expr(toks, i + 3);
    }
}

proof fn lemma_swf_expr(toks: Seq<SpecToken>, i: int)
    requires
        tokens_literals_ok(toks),
    ensures
        sp_expression(toks, i).0 matches Ok(e) ==> crate::nodes::swf_expr(e),
    decreases tokens_left(toks, i), 7int,
{
    if tok_at(toks, i).token_type == TokenType::Let {
        lemma_swf_let(toks, i);
    } else {
        lemma_swf_add(toks, i);
    }
}

proof fn lemma_swf_program_rest(toks: Seq<SpecToken>, i: int)
    requires
        tokens_literals_ok(toks),
    ensures
        sp_program_rest(toks, i).0 matches Ok(p) ==> crate::nodes::swf_program(p),
    decreases tokens_left(toks, i), 8int,
{
    if tok_at(toks, i).token_type == TokenType::Semicolon {
        lemma_swf_expr(toks, i + 1);
        let (r, i2) = sp_expression(toks, i + 1);
        if r is Ok {
            lemma_swf_program_rest(toks, at_least(i + 1, i2));
            let (r2, _i3) = sp_program_rest(toks, at_least(i + 1, i2));
            if r2 is Ok {
                let rest = r2->Ok_0;
                let p = sp_program_rest(toks, i).0->Ok_0;
                assert forall|k: int| 0 <= k < p.len() implies crate::nodes::swf_expr(
                    #[trigger] p[k],
                ) by {
                    if k > 0 {
                        assert(p[k] == rest[k - 1]);
                    }
                }
            }
        }
    }
}

proof fn lemma_swf_program(toks: Seq<SpecToken>, i: int)
    requires
        tokens_literals_ok(toks),
    ensures
        sp_program(toks, i).0 matches Ok(p) ==> crate::nodes::swf_program(p),
    decreases tokens_left(toks, i), 9int,
{
    if tok_at(toks, i).token_type != TokenType::Eof {
        lemma_swf_expr(toks, i);
        let (r, i2) = sp_expression(toks, i);
        if r is Ok {
            lemma_swf_program_rest(toks, at_least(i, i2));
            let (r2, _i3) = sp_program_rest(toks, at_least(i, i2));
            if r2 is Ok {
                let rest = r2->Ok_0;
                let p = sp_program(toks, i).0->Ok_0;
                assert forall|k: int| 0 <= k < p.len() implies crate::nodes::swf_expr(
                    #[trigger] p[k],
                ) by {
                    if k > 0 {
                        assert(p[k] == rest[k - 1]);
                    }
                }
            }
        }
    }
}

/// Parsing a token sequence whose number texts are well shaped yields a
/// program whose numeric literals are all well formed.
pub proof fn lemma_parse_literals(toks: Seq<SpecToken>)
    requires
        tokens_literals_ok(toks),
    ensures
        sp_parse(toks) matches Ok(p) ==> crate::nodes::swf_program(p),
{
    lemma_swf_program(toks, 0);
}

/// The front end keeps the literal invariant: whatever program comes out
/// of scanning a source and parsing the tokens has well-formed numeric
/// literals, as the evaluator requires.
pub proof fn lemma_front_end_literals(s: Seq<char>)
    ensures
        crate::lexer::spec_scan(s, 0) matches Ok(ts) ==> (sp_parse(ts) matches Ok(p)
            ==> crate::nodes::swf_program(p)),
{
    if s.len() >= 0 {
        crate::lexer::lemma_scan_number_literals(s, 0);
        if crate::lexer::spec_scan(s, 0) is Ok {
            let ts = crate::lexer::spec_scan(s, 0)->Ok_0;
            assert(tokens_literals_ok(ts));
            lemma_parse_literals(ts);
        }
    }
}

// ---------------------------------------------------------------------------
// The parser.
// ---------------------------------------------------------------------------

/// A recursive-descent parser over a token sequence, with one token of
/// lookahead.
pub struct Parser<'a> {
    tokens: &'a Vec<Token>,
    pos: usize,
}

impl<'a> Parser<'a> {
    /// The token sequence being parsed.
    pub closed spec fn spec_tokens(&self) -> Seq<SpecToken> {
        view_tokens(self.tokens@)
    }

    /// The position of the current token.
    pub closed spec fn spec_pos(&self) -> int {
        self.pos as int
    }

    /// A parser at the start of the given tokens.
    pub fn new(tokens: &'a Vec<Token>) -> (p: Parser<'a>)
        ensures
            p.spec_tokens() == view_tokens(tokens@),
            p.spec_pos() == 0,
    {
        Parser { tokens, pos: 0 }
    }

    /// The kind of the current token.
    fn cur_type(&self) -> (tt: TokenType)
        ensures
            tt == tok_at(self.spec_tokens(), self.spec_pos()).token_type,
            self.spec_tokens().len() <= usize::MAX,
    {
        if self.pos < self.tokens.len() {
            self.tokens[self.pos].token_type
        } else {
            TokenType::Eof
        }
    }

    /// Parse the whole token sequence into a program, requiring the
    /// sentinel once the top-level expressions end.
    pub fn parse(&mut self) -> (r: Result<Program, ParseError>)
        requires
            old(self).spec_pos() == 0,
        ensures
            (match sp_parse(old(self).spec_tokens()) {
                Ok(sp) => r matches Ok(p) && view_program(p@) == sp,
                Err(e) => r matches Err(pe) && pe == e,
            }),
    {
        match self.program() {
            Err(e) => Err(e),
            Ok(p) => {
                if self.cur_type() == TokenType::Eof {
                    Ok(p)
                } else {
                    Err(ParseError::ExpectedEof)
                }
            },
        }
    }

    fn program(&mut self) -> (r: Result<Vec<Expression>, ParseError>)
        requires
            old(self).spec_pos() <= old(self).spec_tokens().len(),
        ensures
            final(self).spec_tokens() == old(self).spec_tokens(),
            old(self).spec_pos() <= final(self).spec_pos() <= old(self).spec_tokens().len(),
            ({
                let (sr, si) = sp_program(old(self).spec_tokens(), old(self).spec_pos());
                match sr {
                    Ok(n) => r matches Ok(p) && view_program(p@) == n && final(self).spec_pos()
                        == si,
                    Err(e) => r matches Err(pe) && pe == e,
                }
            }),
        decreases tokens_left(self.spec_tokens(), self.spec_pos()), 9int,
    {
        if self.cur_type() == TokenType::Eof {
            let v: Vec<Expression> = Vec::new();
            proof {
                assert(view_program(v@) =~= Seq::<SpecExpression>::empty());
            }
            Ok(v)
        } else {
            match self.expression() {
                Err(e) => Err(e),
                Ok(e1) => {
                    let ghost ev = e1;
                    match self.program_rest() {
                        Err(e) => Err(e),
                        Ok(mut rest) => {
                            let ghost rest0 = rest@;
                            rest.insert(0, e1);
                            proof {
                                assert(view_program(rest@) =~= seq![view_expr(ev)] + view_program(
                                    rest0,
                                ));
                            }
                            Ok(rest)
                        },
                    }
                },
            }
        }
    }

    fn program_rest(&mut self) -> (r: Result<Vec<Expression>, ParseError>)
        requires
            old(self).spec_pos() <= old(self).spec_tokens().len(),
        ensures
            final(self).spec_tokens() == old(self).spec_tokens(),
            old(self).spec_pos() <= final(self).spec_pos() <= old(self).spec_tokens().len(),
            ({
                let (sr, si) = sp_program_rest(old(self).spec_tokens(), old(self).spec_pos());
                match sr {
                    Ok(n) => r matches Ok(p) && view_program(p@) == n && final(self).spec_pos()
                        == si,
                    Err(e) => r matches Err(pe) && pe == e,
                }
            }),
        decreases tokens_left(self.spec_tokens(), self.spec_pos()), 8int,
    {
        if self.cur_type() == TokenType::Semicolon {
            self.pos = self.pos + 1;
            match self.expression() {
                Err(e) => Err(e),
                Ok(e1) => {
                    let ghost ev = e1;
                    match self.program_rest() {
                        Err(e) => Err(e),
                        Ok(mut rest) => {
                            let ghost rest0 = rest@;
                            rest.insert(0, e1);
                            proof {
                                assert(view_program(rest@) =~= seq![view_expr(ev)] + view_program(
                                    rest0,
                                ));
                            }
                            Ok(rest)
                        },
                    }
                },
            }
        } else {
            let v: Vec<Expression> = Vec::new();
            proof {
                assert(view_program(v@) =~= Seq::<SpecExpression>::empty());
            }
            Ok(v)
        }
    }

    fn expression(&mut self) -> (r: Result<Expression, ParseError>)
        requires
            old(self).spec_pos() <= old(self).spec_tokens().len(),
        ensures
            final(self).spec_tokens() == old(self).spec_tokens(),
            old(self).spec_pos() <= final(self).spec_pos() <= old(self).spec_tokens().len(),
            ({
                let (sr, si) = sp_expression(old(self).spec_tokens(), old(self).spec_pos());
                match sr {
                    Ok(n) => r matches Ok(e) && view_expr(e) == n && final(self).spec_pos() == si,
                    Err(e) => r matches Err(pe) && pe == e,
                }
            }),
        decreases tokens_left(self.spec_tokens(), self.spec_pos()), 7int,
    {
        if self.cur_type() == TokenType::Let {
            match self.let_expr() {
                Err(e) => Err(e),
                Ok(l) => Ok(Expression::Let(l)),
            }
        } else {
            match self.add_expr() {
                Err(e) => Err(e),
                Ok(a) => Ok(Expression::Add(a)),
            }
        }
    }

    fn let_expr(&mut self) -> (r: Result<LetExpr, ParseError>)
        requires
            old(self).spec_pos() <= old(self).spec_tokens().len(),
            old(self).spec_tokens().len() <= usize::MAX,
            tok_at(old(self).spec_tokens(), old(self).spec_pos()).token_type == TokenType::Let,
        ensures
            final(self).spec_tokens() == old(self).spec_tokens(),
            old(self).spec_pos() <= final(self).spec_pos() <= old(self).spec_tokens().len(),
            ({
                let (sr, si) = sp_let_expr(old(self).spec_tokens(), old(self).spec_pos());
                match sr {
                    Ok(n) => r matches Ok(l) && (SpecLetExpr {
                        name: l.name@,
                        expr: Box::new(view_expr(*l.expr)),
                    }) == n && final(self).spec_pos() == si,
                    Err(e) => r matches Err(pe) && pe == e,
                }
            }),
        decreases tokens_left(self.spec_tokens(), self.spec_pos()), 6int,
    {
        self.pos = self.pos + 1;
        if self.cur_type() != TokenType::Ident {
            return Err(ParseError::ExpectedIdentifier);
        }
        let name = self.tokens[self.pos].value.clone();
        self.pos = self.pos + 1;
        if self.cur_type() != TokenType::Assign {
            return Err(ParseError::ExpectedToken('='));
        }
        self.pos = self.pos + 1;
        match self.expression() {
            Err(e) => Err(e),
            Ok(e1) => Ok(LetExpr { name, expr: Box::new(e1) }),
        }
    }

    fn add_expr(&mut self) -> (r: Result<AddExpr, ParseError>)
        requires
            old(self).spec_pos() <= old(self).spec_tokens().len(),
        ensures
            final(self).spec_tokens() == old(self).spec_tokens(),
            old(self).spec_pos() <= final(self).spec_pos() <= old(self).spec_tokens().len(),
            ({
                let (sr, si) = sp_add_expr(old(self).spec_tokens(), old(self).spec_pos());
                match sr {
                    Ok(n) => r matches Ok(a) && view_add(a) == n && final(self).spec_pos() == si,
                    Err(e) => r matches Err(pe) && pe == e,
                }
            }),
        decreases tokens_left(self.spec_tokens(), self.spec_pos()), 5int,
    {
        match self.term() {
            Err(e) => Err(e),
            Ok(t1) => {
                let ghost tv = t1;
                match self.add_rest() {
                    Err(e) => Err(e),
                    Ok(rest) => {
                        let a = AddExpr { term: Box::new(t1), following: rest };
                        proof {
                            assert(view_add(a) == (SpecAddExpr {
                                term: Box::new(view_term(tv)),
                                following: view_term_pairs(a.following@),
                            }));
                        }
                        Ok(a)
                    },
                }
            },
        }
    }

    fn add_rest(&mut self) -> (r: Result<Vec<(TermOperator, Term)>, ParseError>)
        requires
            old(self).spec_pos() <= old(self).spec_tokens().len(),
        ensures
            final(self).spec_tokens() == old(self).spec_tokens(),
            old(self).spec_pos() <= final(self).spec_pos() <= old(self).spec_tokens().len(),
            ({
                let (sr, si) = sp_add_rest(old(self).spec_tokens(), old(self).spec_pos());
                match sr {
                    Ok(n) => r matches Ok(v) && view_term_pairs(v@) == n && final(self).spec_pos()
                        == si,
                    Err(e) => r matches Err(pe) && pe == e,
                }
            }),
        decreases tokens_left(self.spec_tokens(), self.spec_pos()), 4int,
    {
        let tt = self.cur_type();
        if tt == TokenType::Plus || tt == TokenType::Minus {
            let op = if tt == TokenType::Plus {
                TermOperator::Plus
            } else {
                TermOperator::Minus
            };
            self.pos = self.pos + 1;
            match self.term() {
                Err(e) => Err(e),
                Ok(t) => {
                    let ghost tv = t;
                    match self.add_rest() {
                        Err(e) => Err(e),
                        Ok(mut rest) => {
                            let ghost rest0 = rest@;
                            rest.insert(0, (op, t));
                            proof {
                                assert(rest@.drop_first() =~= rest0);
                                assert(view_term_pairs(rest@) == seq![(op, view_term(tv))]
                                    + view_term_pairs(rest0));
                            }
                            Ok(rest)
                        },
                    }
                },
            }
        } else {
            let v: Vec<(TermOperator, Term)> = Vec::new();
            Ok(v)
        }
    }

    fn term(&mut self) -> (r: Result<Term, ParseError>)
        requires
            old(self).spec_pos() <= old(self).spec_tokens().len(),
        ensures
            final(self).spec_tokens() == old(self).spec_tokens(),
            old(self).spec_pos() <= final(self).spec_pos() <= old(self).spec_tokens().len(),
            ({
                let (sr, si) = sp_term(old(self).spec_tokens(), old(self).spec_pos());
                match sr {
                    Ok(n) => r matches Ok(t) && view_term(t) == n && final(self).spec_pos() == si,
                    Err(e) => r matches Err(pe) && pe == e,
                }
            }),
        decreases tokens_left(self.spec_tokens(), self.spec_pos()), 3int,
    {
        match self.factor() {
            Err(e) => Err(e),
            Ok(f1) => {
                let ghost fv = f1;
                match self.mul_rest() {
                    Err(e) => Err(e),
                    Ok(rest) => {
                        let t = Term { factor: f1, following: rest };
                        proof {
                            assert(view_term(t) == (SpecTerm {
                                factor: view_factor(fv),
                                following: view_factor_pairs(t.following@),
                            }));
                        }
                        Ok(t)
                    },
                }
            },
        }
    }

    fn mul_rest(&mut self) -> (r: Result<Vec<(FactorOperator, Factor)>, ParseError>)
        requires
            old(self).spec_pos() <= old(self).spec_tokens().len(),
        ensures
            final(self).spec_tokens() == old(self).spec_tokens(),
            old(self).spec_pos() <= final(self).spec_pos() <= old(self).spec_tokens().len(),
            ({
                let (sr, si) = sp_mul_rest(old(self).spec_tokens(), old(self).spec_pos());
                match sr {
                    Ok(n) => r matches Ok(v) && view_factor_pairs(v@) == n
                        && final(self).spec_pos() == si,
                    Err(e) => r matches Err(pe) && pe == e,
                }
            }),
        decreases tokens_left(self.spec_tokens(), self.spec_pos()), 2int,
    {
        let tt = self.cur_type();
        if tt == TokenType::Multiply || tt == TokenType::Divide {
            let op = if tt == TokenType::Multiply {
                FactorOperator::Multiply
            } else {
                FactorOperator::Divide
            };
            self.pos = self.pos + 1;
            match self.factor() {
                Err(e) => Err(e),
                Ok(f) => {
                    let ghost fv = f;
                    match self.mul_rest() {
                        Err(e) => Err(e),
                        Ok(mut rest) => {
                            let ghost rest0 = rest@;
                            rest.insert(0, (op, f));
                            proof {
                                assert(rest@.drop_first() =~= rest0);
                                assert(view_factor_pairs(rest@) == seq![(op, view_factor(fv))]
                                    + view_factor_pairs(rest0));
                            }
                            Ok(rest)
                        },
                    }
                },
            }
        } else {
            let v: Vec<(FactorOperator, Factor)> = Vec::new();
            Ok(v)
        }
    }

    fn factor(&mut self) -> (r: Result<Factor, ParseError>)
        requires
            old(self).spec_pos() <= old(self).spec_tokens().len(),
        ensures
            final(self).spec_tokens() == old(self).spec_tokens(),
            old(self).spec_pos() <= final(self).spec_pos() <= old(self).spec_tokens().len(),
            ({
                let (sr, si) = sp_factor(old(self).spec_tokens(), old(self).spec_pos());
                match sr {
                    Ok(n) => r matches Ok(f) && view_factor(f) == n && final(self).spec_pos()
                        == si,
                    Err(e) => r matches Err(pe) && pe == e,
                }
            }),
        decreases tokens_left(self.spec_tokens(), self.spec_pos()), 1int,
    {
        let tt = self.cur_type();
        if tt == TokenType::Plus || tt == TokenType::Minus {
            let op = if tt == TokenType::Plus {
                TermOperator::Plus
            } else {
                TermOperator::Minus
            };
            self.pos = self.pos + 1;
            match self.factor() {
                Err(e) => Err(e),
                Ok(mut f) => {
                    let ghost f0 = f;
                    f.ops.insert(0, op);
                    proof {
                        assert(f.ops@ =~= seq![op] + f0.ops@);
                    }
                    Ok(f)
                },
            }
        } else {
            match self.atom() {
                Err(e) => Err(e),
                Ok(a) => {
                    let f = Factor { ops: Vec::new(), atom: a };
                    proof {
                        assert(f.ops@ =~= Seq::<TermOperator>::empty());
                    }
                    Ok(f)
                },
            }
        }
    }

    fn atom(&mut self) -> (r: Result<Atom, ParseError>)
        requires
            old(self).spec_pos() <= old(self).spec_tokens().len(),
        ensures
            final(self).spec_tokens() == old(self).spec_tokens(),
            old(self).spec_pos() <= final(self).spec_pos() <= old(self).spec_tokens().len(),
            ({
                let (sr, si) = sp_atom(old(self).spec_tokens(), old(self).spec_pos());
                match sr {
                    Ok(n) => r matches Ok(a) && view_atom(a) == n && final(self).spec_pos() == si,
                    Err(e) => r matches Err(pe) && pe == e,
                }
            }),
        decreases tokens_left(self.spec_tokens(), self.spec_pos()), 0int,
    {
        let tt = self.cur_type();
        if tt == TokenType::LParen {
            self.pos = self.pos + 1;
            match self.add_expr() {
                Err(e) => Err(e),
                Ok(a) => {
                    if self.cur_type() == TokenType::RParen {
                        self.pos = self.pos + 1;
                        Ok(Atom::Expression(a))
                    } else {
                        Err(ParseError::ExpectedToken(')'))
                    }
                },
            }
        } else if tt == TokenType::Ident {
            let name = self.tokens[self.pos].value.clone();
            self.pos = self.pos + 1;
            Ok(Atom::Ident(name))
        } else if tt == TokenType::Number {
            let text = self.tokens[self.pos].value.clone();
            let bits = self.tokens[self.pos].num_bits;
            self.pos = self.pos + 1;
            Ok(Atom::Number(NumberLiteral { text, num_bits: bits }))
        } else {
            Err(ParseError::ExpectedExpression)
        }
    }
}

} // verus!
