use vstd::prelude::*;
use vstd::string::StrSliceExecFns;
use vstd::string::StringExecFns;

use crate::errors::LexError;
use crate::tokens::{SpecToken, Token, TokenType};

verus! {

// ---------------------------------------------------------------------------
// Character classes of the language's alphabet.
// ---------------------------------------------------------------------------

/// Whitespace that is skipped between tokens.
pub open spec fn is_space(c: char) -> bool {
    c == ' ' || c == '\t'
}

/// A decimal digit.
pub open spec fn is_digit_char(c: char) -> bool {
    ('0' as u32) <= (c as u32) && (c as u32) <= ('9' as u32)
}

/// A character that is a complete one-character token by itself.
pub open spec fn is_single_char(c: char) -> bool {
    c == '(' || c == ')' || c == '+' || c == '-' || c == '*' || c == '/' || c == '=' || c == ';'
}

/// A character that may begin a name: an ASCII letter or underscore.
pub open spec fn is_name_start(c: char) -> bool {
    (('a' as u32) <= (c as u32) && (c as u32) <= ('z' as u32)) || (('A' as u32) <= (c as u32)
        && (c as u32) <= ('Z' as u32)) || c == '_'
}

/// A character that may continue a name.
pub open spec fn is_name_char(c: char) -> bool {
    is_name_start(c) || is_digit_char(c)
}

/// The token kind of a one-character token.
pub open spec fn single_type(c: char) -> TokenType {
    if c == '(' {
        TokenType::LParen
    } else if c == ')' {
        TokenType::RParen
    } else if c == '+' {
        TokenType::Plus
    } else if c == '-' {
        TokenType::Minus
    } else if c == '*' {
        TokenType::Multiply
    } else if c == '/' {
        TokenType::Divide
    } else if c == '=' {
        TokenType::Assign
    } else {
        TokenType::Semicolon
    }
}

// ---------------------------------------------------------------------------
// The tokens the lexer produces, as mathematical values.
// ---------------------------------------------------------------------------

/// The sentinel token appended after the last real token.
pub open spec fn eof_token() -> SpecToken {
    SpecToken { token_type: TokenType::Eof, value: seq!['E', 'O', 'F'], num_bits: 0 }
}

/// The token for a one-character symbol.
pub open spec fn single_token(c: char) -> SpecToken {
    SpecToken { token_type: single_type(c), value: seq![c], num_bits: 0 }
}

/// The token for a numeric literal with the given collected text.
pub open spec fn number_token(text: Seq<char>) -> SpecToken {
    SpecToken { token_type: TokenType::Number, value: text, num_bits: 0 }
}

/// The token for a name: the keyword `let`, or else an identifier.
pub open spec fn name_token(text: Seq<char>) -> SpecToken {
    SpecToken {
        token_type: if text == seq!['l', 'e', 't'] {
            TokenType::Let
        } else {
            TokenType::Ident
        },
        value: text,
        num_bits: 0,
    }
}

/// The view of a produced token vector.
pub open spec fn view_tokens(v: Seq<Token>) -> Seq<SpecToken> {
    v.map_values(|t: Token| t@)
}

// ---------------------------------------------------------------------------
// The scanning function, specified.
// ---------------------------------------------------------------------------

/// Clamp `j` into the interval `[lo, hi]`; used only to make termination of
/// the scanning specification evident, and always the identity when applied
/// to the positions the scanner actually reaches.
pub open spec fn clip(lo: int, hi: int, j: int) -> int {
    if j < lo {
        lo
    } else if j > hi {
        hi
    } else {
        j
    }
}

/// The run of digits (with grouping underscores silently dropped) starting
/// at `i`: the collected text and the position just past the run.
pub open spec fn spec_digits(s: Seq<char>, i: int) -> (Seq<char>, int)
    decreases s.len() - i,
{
    if 0 <= i < s.len() && (is_digit_char(s[i]) || s[i] == '_') {
        let (rest, end) = spec_digits(s, i + 1);
        if s[i] == '_' {
            (rest, end)
        } else {
            (seq![s[i]] + rest, end)
        }
    } else {
        (Seq::<char>::empty(), i)
    }
}

/// The text and end position of the numeric literal starting at `i`
/// (which must hold a digit): an integer part, and a fractional part only
/// when a `.` is directly followed by a digit.
pub open spec fn spec_number(s: Seq<char>, i: int) -> (Seq<char>, int) {
    let (int_text, j) = spec_digits(s, i);
    if j + 1 < s.len() && s[j] == '.' && is_digit_char(s[j + 1]) {
        let (frac, k) = spec_digits(s, j + 2);
        (int_text + seq!['.', s[j + 1]] + frac, k)
    } else {
        (int_text, j)
    }
}

/// The run of name characters starting at `i`: the collected text and the
/// position just past the run.
pub open spec fn spec_name(s: Seq<char>, i: int) -> (Seq<char>, int)
    decreases s.len() - i,
{
    if 0 <= i < s.len() && is_name_char(s[i]) {
        let (rest, end) = spec_name(s, i + 1);
        (seq![s[i]] + rest, end)
    } else {
        (Seq::<char>::empty(), i)
    }
}

/// Prepend a token to a successful scan of the remainder.
pub open spec fn prepend_token(t: SpecToken, r: Result<Seq<SpecToken>, LexError>) -> Result<
    Seq<SpecToken>,
    LexError,
> {
    match r {
        Ok(ts) => Ok(seq![t] + ts),
        Err(e) => Err(e),
    }
}

/// What scanning the source `s` from position `i` yields: the token
/// sequence ending in the sentinel, or the first character that does not
/// begin any token.
pub open spec fn spec_scan(s: Seq<char>, i: int) -> Result<Seq<SpecToken>, LexError>
    decreases s.len() - i,
{
    if i < 0 || i >= s.len() {
        Ok(seq![eof_token()])
    } else if is_space(s[i]) {
        spec_scan(s, i + 1)
    } else if is_single_char(s[i]) {
        prepend_token(single_token(s[i]), spec_scan(s, i + 1))
    } else if is_digit_char(s[i]) {
        let (text, j) = spec_number(s, i);
        prepend_token(number_token(text), spec_scan(s, clip(i + 1, s.len() as int, j)))
    } else if is_name_start(s[i]) {
        let (text, j) = spec_name(s, i);
        prepend_token(name_token(text), spec_scan(s, clip(i + 1, s.len() as int, j)))
    } else {
        Err(LexError::IllegalCharacter(s[i]))
    }
}

// ---------------------------------------------------------------------------
// Bounds of the specification's helper scans.
// ---------------------------------------------------------------------------

pub proof fn lemma_digits_bounds(s: Seq<char>, i: int)
    requires
        0 <= i <= s.len(),
    ensures
        i <= spec_digits(s, i).1 <= s.len(),
        i < s.len() && (is_digit_char(s[i]) || s[i] == '_') ==> spec_digits(s, i).1 >= i + 1,
    decreases s.len() - i,
{
    if i < s.len() && (is_digit_char(s[i]) || s[i] == '_') {
        lemma_digits_bounds(s, i + 1);
    }
}

pub proof fn lemma_number_bounds(s: Seq<char>, i: int)
    requires
        0 <= i <= s.len(),
    ensures
        i <= spec_number(s, i).1 <= s.len(),
        i < s.len() && is_digit_char(s[i]) ==> spec_number(s, i).1 >= i + 1,
{
    lemma_digits_bounds(s, i);
    let j = spec_digits(s, i).1;
    if j + 1 < s.len() && s[j] == '.' && is_digit_char(s[j + 1]) {
        lemma_digits_bounds(s, j + 2);
    }
}

pub proof fn lemma_name_bounds(s: Seq<char>, i: int)
    requires
        0 <= i <= s.len(),
    ensures
        i <= spec_name(s, i).1 <= s.len(),
        i < s.len() && is_name_char(s[i]) ==> spec_name(s, i).1 >= i + 1,
    decreases s.len() - i,
{
    if i < s.len() && is_name_char(s[i]) {
        lemma_name_bounds(s, i + 1);
    }
}

// ---------------------------------------------------------------------------
// Laws of the scanner.
// ---------------------------------------------------------------------------

/// The declared alphabet of the language: whitespace, the symbol
/// characters, digits, ASCII letters and underscore.
pub open spec fn in_alphabet(c: char) -> bool {
    is_space(c) || is_single_char(c) || is_digit_char(c) || is_name_char(c)
}

/// Lexing is total over the declared alphabet: scanning a source whose
/// remaining characters all lie in the alphabet always succeeds.
pub proof fn lemma_scan_total_over_alphabet(s: Seq<char>, i: int)
    requires
        0 <= i <= s.len(),
        forall|k: int| i <= k < s.len() ==> in_alphabet(#[trigger] s[k]),
    ensures
        spec_scan(s, i) is Ok,
    decreases s.len() - i,
{
    if i < s.len() {
        if is_space(s[i]) || is_single_char(s[i]) {
            lemma_scan_total_over_alphabet(s, i + 1);
        } else if is_digit_char(s[i]) {
            lemma_scan_total_over_alphabet(s, clip(i + 1, s.len() as int, spec_number(s, i).1));
        } else if is_name_start(s[i]) {
            lemma_scan_total_over_alphabet(s, clip(i + 1, s.len() as int, spec_name(s, i).1));
        } else {
            assert(in_alphabet(s[i]));
            assert(false);
        }
    }
}

/// A failed scan always reports an `IllegalCharacter` holding a character
/// of the input that lies outside the declared alphabet.
pub proof fn lemma_scan_error_illegal(s: Seq<char>, i: int)
    requires
        0 <= i <= s.len(),
    ensures
        spec_scan(s, i) matches Err(e) ==> (e matches LexError::IllegalCharacter(c)
            && !in_alphabet(c) && exists|k: int| i <= k < s.len() && s[k] == c),
    decreases s.len() - i,
{
    if i < s.len() {
        if is_space(s[i]) || is_single_char(s[i]) {
            lemma_scan_error_illegal(s, i + 1);
        } else if is_digit_char(s[i]) {
            lemma_scan_error_illegal(s, clip(i + 1, s.len() as int, spec_number(s, i).1));
        } else if is_name_start(s[i]) {
            lemma_scan_error_illegal(s, clip(i + 1, s.len() as int, spec_name(s, i).1));
        }
    }
}

/// A successful scan ends with exactly one sentinel token: the last token
/// is `Eof` and no earlier token is.
pub proof fn lemma_scan_single_eof(s: Seq<char>, i: int)
    requires
        0 <= i <= s.len(),
    ensures
        spec_scan(s, i) matches Ok(ts) ==> ts.len() >= 1 && ts[ts.len() - 1] == eof_token()
            && (forall|k: int|
            0 <= k < ts.len() - 1 ==> (#[trigger] ts[k]).token_type != TokenType::Eof),
    decreases s.len() - i,
{
    if i < s.len() {
        if is_space(s[i]) || is_single_char(s[i]) {
            lemma_scan_single_eof(s, i + 1);
        } else if is_digit_char(s[i]) {
            lemma_scan_single_eof(s, clip(i + 1, s.len() as int, spec_number(s, i).1));
        } else if is_name_start(s[i]) {
            lemma_scan_single_eof(s, clip(i + 1, s.len() as int, spec_name(s, i).1));
        }
    }
}

/// The digits collected for a number's integer or fractional part are
/// all digits, and at least one is collected when one is present.
pub proof fn lemma_digits_all(s: Seq<char>, i: int)
    requires
        0 <= i <= s.len(),
    ensures
        forall|k: int|
            0 <= k < spec_digits(s, i).0.len() ==> is_digit_char(#[trigger] spec_digits(s, i).0[k]),
        i < s.len() && is_digit_char(s[i]) ==> spec_digits(s, i).0.len() >= 1,
    decreases s.len() - i,
{
    if i < s.len() && (is_digit_char(s[i]) || s[i] == '_') {
        lemma_digits_all(s, i + 1);
        let rest = spec_digits(s, i + 1).0;
        if s[i] != '_' {
            let t = seq![s[i]] + rest;
            assert forall|k: int| 0 <= k < t.len() implies is_digit_char(#[trigger] t[k]) by {
                if k > 0 {
                    assert(t[k] == rest[k - 1]);
                }
            }
            assert(spec_digits(s, i).0 == t);
        }
    }
}

/// The text collected for a number token has the literal shape: one or
/// more digits, optionally followed by `.` and one or more digits.
pub proof fn lemma_number_literal(s: Seq<char>, i: int)
    requires
        0 <= i < s.len(),
        is_digit_char(s[i]),
    ensures
        crate::nodes::is_number_literal(spec_number(s, i).0),
{
    lemma_digits_all(s, i);
    lemma_digits_bounds(s, i);
    let (int_text, j) = spec_digits(s, i);
    if j + 1 < s.len() && s[j] == '.' && is_digit_char(s[j + 1]) {
        lemma_digits_all(s, j + 2);
        let frac = spec_digits(s, j + 2).0;
        let t = int_text + seq!['.', s[j + 1]] + frac;
        let d = int_text.len() as int;
        assert(t[d] == '.');
        assert(crate::nodes::all_digits(t, 0, d));
        assert forall|k: int| d + 1 <= k < t.len() implies is_digit_char(#[trigger] t[k]) by {
            if k == d + 1 {
                assert(t[k] == s[j + 1]);
            } else {
                assert(t[k] == frac[k - (d + 2)]);
            }
        }
        assert(crate::nodes::all_digits(t, d + 1, t.len() as int));
        assert(1 <= d <= t.len() - 2);
    } else {
        assert(crate::nodes::all_digits(int_text, 0, int_text.len() as int));
    }
}

/// Every `Number` token a successful scan produces carries text of the
/// literal shape: digits, optionally `.` and digits, underscores gone.
pub proof fn lemma_scan_number_literals(s: Seq<char>, i: int)
    requires
        0 <= i <= s.len(),
    ensures
        spec_scan(s, i) matches Ok(ts) ==> (forall|k: int|
            0 <= k < ts.len() && (#[trigger] ts[k]).token_type == TokenType::Number
                ==> crate::nodes::is_number_literal(ts[k].value)),
    decreases s.len() - i,
{
    if i < s.len() {
        if is_space(s[i]) || is_single_char(s[i]) {
            lemma_scan_number_literals(s, i + 1);
        } else if is_digit_char(s[i]) {
            lemma_number_literal(s, i);
            lemma_scan_number_literals(s, clip(i + 1, s.len() as int, spec_number(s, i).1));
        } else if is_name_start(s[i]) {
            lemma_scan_number_literals(s, clip(i + 1, s.len() as int, spec_name(s, i).1));
        }
    }
}

// ---------------------------------------------------------------------------
// Executable character classification.
// ---------------------------------------------------------------------------

fn space_char(c: char) -> (b: bool)
    ensures
        b == is_space(c),
{
    c == ' ' || c == '\t'
}

fn digit_char(c: char) -> (b: bool)
    ensures
        b == is_digit_char(c),
{
    let u = c as u32;
    ('0' as u32) <= u && u <= ('9' as u32)
}

fn single_char(c: char) -> (b: bool)
    ensures
        b == is_single_char(c),
{
    c == '(' || c == ')' || c == '+' || c == '-' || c == '*' || c == '/' || c == '=' || c == ';'
}

fn name_start_char(c: char) -> (b: bool)
    ensures
        b == is_name_start(c),
{
    let u = c as u32;
    (('a' as u32) <= u && u <= ('z' as u32)) || (('A' as u32) <= u && u <= ('A' as u32) + 25)
        || c == '_'
}

fn name_char(c: char) -> (b: bool)
    ensures
        b == is_name_char(c),
{
    name_start_char(c) || digit_char(c)
}

// ---------------------------------------------------------------------------
// Small string helpers.
// ---------------------------------------------------------------------------

/// Relies on `String::push` from std: appends exactly one character.
#[verifier::external_body]
fn push_char(s: &mut String, c: char)
    ensures
        final(s)@ == old(s)@.push(c),
{
    s.push(c);
}

fn char_text(c: char) -> (s: String)
    ensures
        s@ == seq![c],
{
    let mut s = String::new();
    push_char(&mut s, c);
    proof {
        assert(s@ =~= seq![c]);
    }
    s
}

fn eof_text() -> (s: String)
    ensures
        s@ == seq!['E', 'O', 'F'],
{
    let s = String::from_str("EOF");
    proof {
        reveal_strlit("EOF");
        assert(s@ =~= seq!['E', 'O', 'F']);
    }
    s
}

/// Whether the collected name is exactly the keyword `let`.
fn text_is_let(s: &String) -> (b: bool)
    ensures
        b == (s@ == seq!['l', 'e', 't']),
{
    if s.as_str().unicode_len() == 3 {
        let c0 = s.as_str().get_char(0);
        let c1 = s.as_str().get_char(1);
        let c2 = s.as_str().get_char(2);
        let b = c0 == 'l' && c1 == 'e' && c2 == 't';
        proof {
            if b {
                assert(s@ =~= seq!['l', 'e', 't']);
            }
            if s@ == seq!['l', 'e', 't'] {
                assert(s@[0] == 'l' && s@[1] == 'e' && s@[2] == 't');
            }
        }
        b
    } else {
        proof {
            assert(s@ != seq!['l', 'e', 't']) by {
                assert(seq!['l', 'e', 't'].len() == 3);
            }
        }
        false
    }
}

// ---------------------------------------------------------------------------
// The lexer.
// ---------------------------------------------------------------------------

/// A single left-to-right pass over a source string, producing tokens.
pub struct Lexer<'a> {
    input: &'a str,
    pos: usize,
}

impl<'a> Lexer<'a> {
    /// The source text being scanned.
    pub closed spec fn spec_input(&self) -> Seq<char> {
        self.input@
    }

    /// The position of the next character to examine.
    pub closed spec fn spec_pos(&self) -> int {
        self.pos as int
    }

    /// A lexer at the start of the given source text.
    pub fn new(input: &'a str) -> (l: Lexer<'a>)
        ensures
            l.spec_input() == input@,
            l.spec_pos() == 0,
    {
        Lexer { input, pos: 0 }
    }

    /// Scan the remaining input into tokens, ending with the sentinel;
    /// or report the first character that does not begin any token.
    pub fn scan(&mut self) -> (r: Result<Vec<Token>, LexError>)
        requires
            old(self).spec_pos() <= old(self).spec_input().len(),
        ensures
            final(self).spec_input() == old(self).spec_input(),
            (match spec_scan(old(self).spec_input(), old(self).spec_pos()) {
                Ok(ts) => r matches Ok(v) && view_tokens(v@) == ts,
                Err(e) => r == Err::<Vec<Token>, LexError>(e),
            }),
        decreases self.spec_input().len() - self.spec_pos(),
    {
        let ghost s = self.spec_input();
        let ghost i0 = self.spec_pos();
        if self.pos >= self.input.unicode_len() {
            let mut v: Vec<Token> = Vec::new();
            v.push(Token::new(TokenType::Eof, eof_text()));
            proof {
                assert(view_tokens(v@) =~= seq![eof_token()]);
            }
            Ok(v)
        } else {
            let c = self.input.get_char(self.pos);
            if space_char(c) {
                self.pos = self.pos + 1;
                self.scan()
            } else if single_char(c) {
                let t = self.make_single_char(c);
                match self.scan() {
                    Ok(mut rest) => {
                        let ghost rest0 = rest@;
                        rest.insert(0, t);
                        proof {
                            assert(view_tokens(rest@) =~= seq![single_token(s[i0])] + view_tokens(
                                rest0,
                            ));
                        }
                        Ok(rest)
                    },
                    Err(e) => Err(e),
                }
            } else if digit_char(c) {
                let t = self.make_number();
                proof {
                    lemma_number_bounds(s, i0);
                    assert(clip(i0 + 1, s.len() as int, spec_number(s, i0).1) == spec_number(
                        s,
                        i0,
                    ).1);
                }
                match self.scan() {
                    Ok(mut rest) => {
                        let ghost rest0 = rest@;
                        rest.insert(0, t);
                        proof {
                            assert(view_tokens(rest@) =~= seq![number_token(spec_number(s, i0).0)]
                                + view_tokens(rest0));
                        }
                        Ok(rest)
                    },
                    Err(e) => Err(e),
                }
            } else if name_start_char(c) {
                let t = self.make_name();
                proof {
                    lemma_name_bounds(s, i0);
                    assert(clip(i0 + 1, s.len() as int, spec_name(s, i0).1) == spec_name(s, i0).1);
                }
                match self.scan() {
                    Ok(mut rest) => {
                        let ghost rest0 = rest@;
                        rest.insert(0, t);
                        proof {
                            assert(view_tokens(rest@) =~= seq![name_token(spec_name(s, i0).0)]
                                + view_tokens(rest0));
                        }
                        Ok(rest)
                    },
                    Err(e) => Err(e),
                }
            } else {
                Err(LexError::IllegalCharacter(c))
            }
        }
    }

    /// Consume one symbol character and produce its token.
    fn make_single_char(&mut self, c: char) -> (t: Token)
        requires
            is_single_char(c),
            old(self).spec_pos() < old(self).spec_input().len(),
            old(self).spec_input().len() <= usize::MAX,
            old(self).spec_input()[old(self).spec_pos()] == c,
        ensures
            final(self).spec_input() == old(self).spec_input(),
            final(self).spec_pos() == old(self).spec_pos() + 1,
            t@ == single_token(c),
    {
        let tok_type = if c == '(' {
            TokenType::LParen
        } else if c == ')' {
            TokenType::RParen
        } else if c == '+' {
            TokenType::Plus
        } else if c == '-' {
            TokenType::Minus
        } else if c == '*' {
            TokenType::Multiply
        } else if c == '/' {
            TokenType::Divide
        } else if c == '=' {
            TokenType::Assign
        } else {
            TokenType::Semicolon
        };
        self.pos = self.pos + 1;
        Token::new(tok_type, char_text(c))
    }

    /// Consume a run of digits (dropping grouping underscores), appending
    /// the kept digits to `text`.
    fn take_digits(&mut self, text: &mut String)
        requires
            old(self).spec_pos() <= old(self).spec_input().len(),
        ensures
            final(self).spec_input() == old(self).spec_input(),
            final(self).spec_pos() == spec_digits(old(self).spec_input(), old(self).spec_pos()).1,
            final(text)@ == old(text)@ + spec_digits(
                old(self).spec_input(),
                old(self).spec_pos(),
            ).0,
    {
        let ghost s = self.spec_input();
        let ghost p0 = self.spec_pos();
        let ghost t0 = text@;
        proof {
            assert(text@.skip(t0.len() as int) =~= Seq::<char>::empty());
        }
        loop
            invariant
                self.spec_input() == s,
                p0 <= self.spec_pos() <= s.len(),
                t0.len() <= text@.len(),
                text@.subrange(0, t0.len() as int) == t0,
                spec_digits(s, p0).0 == text@.skip(t0.len() as int) + spec_digits(
                    s,
                    self.spec_pos(),
                ).0,
                spec_digits(s, p0).1 == spec_digits(s, self.spec_pos()).1,
            ensures
                self.spec_input() == s,
                self.spec_pos() == spec_digits(s, p0).1,
                text@ == t0 + spec_digits(s, p0).0,
            decreases s.len() - self.spec_pos(),
        {
            let ghost p = self.spec_pos();
            if self.pos >= self.input.unicode_len() {
                proof {
                    assert(text@ =~= t0 + spec_digits(s, p0).0);
                }
                break ;
            }
            let c = self.input.get_char(self.pos);
            if !digit_char(c) && c != '_' {
                proof {
                    assert(text@ =~= t0 + spec_digits(s, p0).0);
                }
                break ;
            }
            if c != '_' {
                let ghost tb = text@;
                push_char(text, c);
                proof {
                    assert(text@.subrange(0, t0.len() as int) =~= tb.subrange(0, t0.len() as int));
                    assert(text@.skip(t0.len() as int) =~= tb.skip(t0.len() as int) + seq![c]);
                    assert((tb.skip(t0.len() as int) + seq![c]) + spec_digits(s, p + 1).0 =~= tb.skip(
                        t0.len() as int,
                    ) + (seq![c] + spec_digits(s, p + 1).0));
                }
            }
            self.pos = self.pos + 1;
        }
    }

    /// Consume a numeric literal starting at the current (digit) character.
    fn make_number(&mut self) -> (t: Token)
        requires
            old(self).spec_pos() < old(self).spec_input().len(),
            is_digit_char(old(self).spec_input()[old(self).spec_pos()]),
        ensures
            final(self).spec_input() == old(self).spec_input(),
            final(self).spec_pos() == spec_number(old(self).spec_input(), old(self).spec_pos()).1,
            t@ == number_token(spec_number(old(self).spec_input(), old(self).spec_pos()).0),
    {
        let ghost s = self.spec_input();
        let ghost p0 = self.spec_pos();
        let mut text = String::new();
        self.take_digits(&mut text);
        let ghost j = spec_digits(s, p0).1;
        proof {
            lemma_digits_bounds(s, p0);
            assert(Seq::<char>::empty() + spec_digits(s, p0).0 =~= spec_digits(s, p0).0);
        }
        let len = self.input.unicode_len();
        if self.pos < len {
            if self.pos + 1 < len {
                let dot = self.input.get_char(self.pos);
                let next = self.input.get_char(self.pos + 1);
                if dot == '.' && digit_char(next) {
                    push_char(&mut text, '.');
                    push_char(&mut text, next);
                    self.pos = self.pos + 2;
                    let ghost t1 = text@;
                    self.take_digits(&mut text);
                    proof {
                        assert(text@ =~= spec_number(s, p0).0) by {
                            assert(t1 =~= spec_digits(s, p0).0 + seq!['.', s[j + 1]]);
                            assert((spec_digits(s, p0).0 + seq!['.', s[j + 1]]) + spec_digits(
                                s,
                                j + 2,
                            ).0 =~= spec_number(s, p0).0);
                        }
                    }
                    return Token::new(TokenType::Number, text);
                }
            }
        }
        proof {
            assert(text@ =~= spec_number(s, p0).0);
        }
        Token::new(TokenType::Number, text)
    }

    /// Consume a name starting at the current character and classify it as
    /// the keyword `let` or an identifier.
    fn make_name(&mut self) -> (t: Token)
        requires
            old(self).spec_pos() < old(self).spec_input().len(),
            is_name_start(old(self).spec_input()[old(self).spec_pos()]),
        ensures
            final(self).spec_input() == old(self).spec_input(),
            final(self).spec_pos() == spec_name(old(self).spec_input(), old(self).spec_pos()).1,
            t@ == name_token(spec_name(old(self).spec_input(), old(self).spec_pos()).0),
    {
        let ghost s = self.spec_input();
        let ghost p0 = self.spec_pos();
        let mut text = String::new();
        proof {
            assert(text@.skip(0) =~= Seq::<char>::empty());
        }
        loop
            invariant
                self.spec_input() == s,
                p0 <= self.spec_pos() <= s.len(),
                spec_name(s, p0).0 == text@ + spec_name(s, self.spec_pos()).0,
                spec_name(s, p0).1 == spec_name(s, self.spec_pos()).1,
            ensures
                self.spec_input() == s,
                self.spec_pos() == spec_name(s, p0).1,
                text@ == spec_name(s, p0).0,
            decreases s.len() - self.spec_pos(),
        {
            let ghost p = self.spec_pos();
            let len = self.input.unicode_len();
            if self.pos >= len {
                proof {
                    assert(text@ =~= text@ + Seq::<char>::empty());
                }
                break ;
            }
            let c = self.input.get_char(self.pos);
            if !name_char(c) {
                proof {
                    assert(text@ =~= text@ + Seq::<char>::empty());
                }
                break ;
            }
            let ghost tb = text@;
            push_char(&mut text, c);
            proof {
                assert(text@ =~= tb + seq![c]);
                assert((tb + seq![c]) + spec_name(s, p + 1).0 =~= tb + (seq![c] + spec_name(
                    s,
                    p + 1,
                ).0));
            }
            self.pos = self.pos + 1;
        }
        let is_kw = text_is_let(&text);
        if is_kw {
            Token::new(TokenType::Let, text)
        } else {
            Token::new(TokenType::Ident, text)
        }
    }
}

} // verus!
