//! A recursive-descent parser that compiles tokens into a postfix stack program.
//!
//! Precedence, from loosest to tightest: `+ -` (left-associative), `* / %`
//! (left-associative), `^` (right-associative), unary `- +`, then numbers and
//! parenthesised expressions. Each operation is emitted at the moment an
//! evaluating parser would perform it, so running the program performs the
//! arithmetic in that same order.
use vstd::prelude::*;

use crate::lexer::{Symbol, Token};

verus! {

/// One instruction of a stack program.
#[derive(Debug, Clone, Copy, PartialEq, Eq, Structural)]
pub enum Step {
    /// Push the number whose text is the input span `[start, end)`.
    Push(usize, usize),
    /// Negate the top of the stack.
    Neg,
    /// Pop `b`, pop `a`, push `a + b`.
    Add,
    /// Pop `b`, pop `a`, push `a - b`.
    Sub,
    /// Pop `b`, pop `a`, push `a * b`.
    Mul,
    /// Pop `b`, pop `a`, push `a / b`; fails when `b` is zero.
    Div,
    /// Pop `b`, pop `a`, push the remainder of `a / b`; fails when `b` is zero.
    Rem,
    /// Pop `b`, pop `a`, push `a` raised to `b`.
    Pow,
}

/// Why a token sequence is not an expression.
#[derive(Debug, Clone, Copy, PartialEq, Eq, Structural)]
pub enum SyntaxError {
    /// A symbol where a number or `(` was expected.
    UnexpectedToken(Symbol),
    /// A parenthesised expression not closed by `)`.
    ExpectedRParen,
    /// The tokens ended where an operand was expected.
    UnexpectedEnd,
    /// A complete expression followed by more tokens.
    TrailingInput,
}

/// The token at position `p`, if there is one.
pub open spec fn token_at(t: Seq<Token>, p: int) -> Option<Token> {
    if 0 <= p < t.len() {
        Some(t[p])
    } else {
        None
    }
}

/// The step of an additive operator token.
pub open spec fn additive_step(t: Option<Token>) -> Option<Step> {
    match t {
        Some(Token::Symbol(Symbol::Plus)) => Some(Step::Add),
        Some(Token::Symbol(Symbol::Minus)) => Some(Step::Sub),
        _ => None,
    }
}

/// The step of a multiplicative operator token.
pub open spec fn multiplicative_step(t: Option<Token>) -> Option<Step> {
    match t {
        Some(Token::Symbol(Symbol::Star)) => Some(Step::Mul),
        Some(Token::Symbol(Symbol::Slash)) => Some(Step::Div),
        Some(Token::Symbol(Symbol::Percent)) => Some(Step::Rem),
        _ => None,
    }
}

/// `expr := term (('+' | '-') term)*`, parsed from position `p`: the steps
/// emitted, and the position after the expression or the first syntax error.
pub open spec fn spec_expr(t: Seq<Token>, p: int) -> (Seq<Step>, Result<int, SyntaxError>)
    decreases t.len() - p, 6nat,
{
    let (c1, r1) = spec_term(t, p);
    match r1 {
        Ok(q) => if p < q <= t.len() {
            let (c2, r2) = spec_expr_rest(t, q);
            (c1 + c2, r2)
        } else {
            (c1, r1)
        },
        Err(e) => (c1, Err(e)),
    }
}

/// The `(('+' | '-') term)*` tail of an expression, from position `p`.
pub open spec fn spec_expr_rest(t: Seq<Token>, p: int) -> (Seq<Step>, Result<int, SyntaxError>)
    decreases t.len() - p, 5nat,
{
    if 0 <= p < t.len() && additive_step(token_at(t, p)) is Some {
        let (c1, r1) = spec_term(t, p + 1);
        match r1 {
            Ok(q) => if p < q <= t.len() {
                let (c2, r2) = spec_expr_rest(t, q);
                (c1 + seq![additive_step(token_at(t, p)).unwrap()] + c2, r2)
            } else {
                (c1, r1)
            },
            Err(e) => (c1, Err(e)),
        }
    } else {
        (seq![], Ok(p))
    }
}

/// `term := power (('*' | '/' | '%') power)*`, parsed from position `p`.
pub open spec fn spec_term(t: Seq<Token>, p: int) -> (Seq<Step>, Result<int, SyntaxError>)
    decreases t.len() - p, 4nat,
{
    let (c1, r1) = spec_power(t, p);
    match r1 {
        Ok(q) => if p < q <= t.len() {
            let (c2, r2) = spec_term_rest(t, q);
            (c1 + c2, r2)
        } else {
            (c1, r1)
        },
        Err(e) => (c1, Err(e)),
    }
}

/// The `(('*' | '/' | '%') power)*` tail of a term, from position `p`.
pub open spec fn spec_term_rest(t: Seq<Token>, p: int) -> (Seq<Step>, Result<int, SyntaxError>)
    decreases t.len() - p, 3nat,
{
    if 0 <= p < t.len() && multiplicative_step(token_at(t, p)) is Some {
        let (c1, r1) = spec_power(t, p + 1);
        match r1 {
            Ok(q) => if p < q <= t.len() {
                let (c2, r2) = spec_term_rest(t, q);
                (c1 + seq![multiplicative_step(token_at(t, p)).unwrap()] + c2, r2)
            } else {
                (c1, r1)
            },
            Err(e) => (c1, Err(e)),
        }
    } else {
        (seq![], Ok(p))
    }
}

/// `power := unary ('^' power)?`, parsed from position `p`; `^` groups to the right.
pub open spec fn spec_power(t: Seq<Token>, p: int) -> (Seq<Step>, Result<int, SyntaxError>)
    decreases t.len() - p, 2nat,
{
    let (c1, r1) = spec_unary(t, p);
    match r1 {
        Ok(q) => if p < q && token_at(t, q) == Some(Token::Symbol(Symbol::Caret)) {
            let (c2, r2) = spec_power(t, q + 1);
            match r2 {
                Ok(q2) => (c1 + c2.push(Step::Pow), Ok(q2)),
                Err(e) => (c1 + c2, Err(e)),
            }
        } else {
            (c1, r1)
        },
        Err(e) => (c1, Err(e)),
    }
}

/// `unary := '-' unary | '+' unary | primary`, parsed from position `p`.
pub open spec fn spec_unary(t: Seq<Token>, p: int) -> (Seq<Step>, Result<int, SyntaxError>)
    decreases t.len() - p, 1nat,
{
    match token_at(t, p) {
        Some(Token::Symbol(Symbol::Minus)) => {
            let (c, r) = spec_unary(t, p + 1);
            match r {
                Ok(q) => (c.push(Step::Neg), Ok(q)),
                Err(e) => (c, Err(e)),
            }
        },
        Some(Token::Symbol(Symbol::Plus)) => spec_unary(t, p + 1),
        _ => spec_primary(t, p),
    }
}

/// `primary := number | '(' expr ')'`, parsed from position `p`.
pub open spec fn spec_primary(t: Seq<Token>, p: int) -> (Seq<Step>, Result<int, SyntaxError>)
    decreases t.len() - p, 0nat,
{
    match token_at(t, p) {
        None => (seq![], Err(SyntaxError::UnexpectedEnd)),
        Some(Token::Number(s, e)) => (seq![Step::Push(s, e)], Ok(p + 1)),
        Some(Token::Symbol(Symbol::LParen)) => {
            let (c, r) = spec_expr(t, p + 1);
            match r {
                Ok(q) => if token_at(t, q) == Some(Token::Symbol(Symbol::RParen)) {
                    (c, Ok(q + 1))
                } else {
                    (c, Err(SyntaxError::ExpectedRParen))
                },
                Err(e) => (c, Err(e)),
            }
        },
        Some(Token::Symbol(s)) => (seq![], Err(SyntaxError::UnexpectedToken(s))),
    }
}

/// The program for a whole token sequence: the steps, and the syntax error (if
/// any) that stops the program once those steps have run.
pub open spec fn compile_tokens(t: Seq<Token>) -> (Seq<Step>, Option<SyntaxError>) {
    let (c, r) = spec_expr(t, 0);
    match r {
        Ok(q) => if q == t.len() {
            (c, None)
        } else {
            (c, Some(SyntaxError::TrailingInput))
        },
        Err(e) => (c, Some(e)),
    }
}

/// The code emitted by an exec parse step agrees with `expected`, the spec parse
/// from `start`: the new steps are appended, the position never moves back, and
/// success ends at the expected position, past `start`, within the tokens.
pub open spec fn emitted_as(
    before: Seq<Step>,
    after: Seq<Step>,
    r: Result<(), SyntaxError>,
    end: int,
    expected: (Seq<Step>, Result<int, SyntaxError>),
    start: int,
    len: int,
) -> bool {
    &&& after == before + expected.0
    &&& start <= end
    &&& match r {
        Ok(_) => expected.1 == Ok::<int, SyntaxError>(end) && start < end <= len,
        Err(e) => expected.1 == Err::<int, SyntaxError>(e),
    }
}

/// The parser's state: the tokens and the position of the next one.
pub struct Parser {
    pub tokens: Vec<Token>,
    pub pos: usize,
}

impl Parser {
    /// A parser at the first of `tokens`.
    pub fn new(tokens: Vec<Token>) -> (r: Parser)
        ensures
            r.tokens == tokens,
            r.pos == 0,
    {
        Parser { tokens, pos: 0 }
    }

    /// The token at the current position, if any.
    pub fn peek(&self) -> (r: Option<Token>)
        ensures
            r == token_at(self.tokens@, self.pos as int),
    {
        if self.pos < self.tokens.len() {
            Some(self.tokens[self.pos])
        } else {
            None
        }
    }

    /// Takes the token at the current position, if any, and moves one position
    /// on, also past the end.
    pub fn next(&mut self) -> (r: Option<Token>)
        requires
            old(self).pos < usize::MAX,
        ensures
            r == token_at(old(self).tokens@, old(self).pos as int),
            final(self).tokens == old(self).tokens,
            final(self).pos == old(self).pos + 1,
    {
        let tok = self.peek();
        self.pos = self.pos + 1;
        tok
    }

    /// Parses an expression, appending its steps to `code`.
    pub fn parse_expr(&mut self, code: &mut Vec<Step>) -> (r: Result<(), SyntaxError>)
        requires
            old(self).pos < usize::MAX,
            old(self).tokens.len() < usize::MAX,
        ensures
            final(self).tokens == old(self).tokens,
            emitted_as(
                old(code)@,
                final(code)@,
                r,
                final(self).pos as int,
                spec_expr(old(self).tokens@, old(self).pos as int),
                old(self).pos as int,
                old(self).tokens.len() as int,
            ),
            r is Ok ==> additive_step(token_at(final(self).tokens@, final(self).pos as int)) is None,
        decreases old(self).tokens.len() - old(self).pos, 6nat,
    {
        let ghost t = self.tokens@;
        let ghost p0 = self.pos as int;
        let ghost c0 = code@;
        let first = self.parse_term(code);
        if let Err(e) = first {
            return Err(e);
        }
        let ghost c1 = code@;
        assert(c1 + spec_expr_rest(t, self.pos as int).0 =~= c0 + spec_expr(t, p0).0);
        loop
            invariant
                self.tokens == old(self).tokens,
                self.tokens@ == t,
                t == old(self).tokens@,
                p0 == old(self).pos,
                c0 == old(code)@,
                p0 < self.pos <= self.tokens.len() < usize::MAX,
                code@ + spec_expr_rest(t, self.pos as int).0 == c0 + spec_expr(t, p0).0,
                spec_expr_rest(t, self.pos as int).1 == spec_expr(t, p0).1,
            decreases self.tokens.len() - self.pos,
        {
            let ghost p = self.pos as int;
            let ghost cp = code@;
            let op = if let Some(Token::Symbol(Symbol::Plus)) = self.peek() {
                Step::Add
            } else if let Some(Token::Symbol(Symbol::Minus)) = self.peek() {
                Step::Sub
            } else {
                assert(code@ =~= c0 + spec_expr(t, p0).0);
                return Ok(());
            };
            self.next();
            let r = self.parse_term(code);
            match r {
                Err(e) => {
                    return Err(e);
                },
                Ok(()) => {
                    code.push(op);
                    assert(code@ + spec_expr_rest(t, self.pos as int).0 =~= cp + spec_expr_rest(
                        t,
                        p,
                    ).0);
                },
            }
        }
    }

    /// Parses a term, appending its steps to `code`.
    pub fn parse_term(&mut self, code: &mut Vec<Step>) -> (r: Result<(), SyntaxError>)
        requires
            old(self).pos < usize::MAX,
            old(self).tokens.len() < usize::MAX,
        ensures
            final(self).tokens == old(self).tokens,
            emitted_as(
                old(code)@,
                final(code)@,
                r,
                final(self).pos as int,
                spec_term(old(self).tokens@, old(self).pos as int),
                old(self).pos as int,
                old(self).tokens.len() as int,
            ),
            r is Ok ==> multiplicative_step(token_at(final(self).tokens@, final(self).pos as int))
                is None,
        decreases old(self).tokens.len() - old(self).pos, 4nat,
    {
        let ghost t = self.tokens@;
        let ghost p0 = self.pos as int;
        let ghost c0 = code@;
        let first = self.parse_power(code);
        if let Err(e) = first {
            return Err(e);
        }
        let ghost c1 = code@;
        assert(c1 + spec_term_rest(t, self.pos as int).0 =~= c0 + spec_term(t, p0).0);
        loop
            invariant
                self.tokens == old(self).tokens,
                self.tokens@ == t,
                t == old(self).tokens@,
                p0 == old(self).pos,
                c0 == old(code)@,
                p0 < self.pos <= self.tokens.len() < usize::MAX,
                code@ + spec_term_rest(t, self.pos as int).0 == c0 + spec_term(t, p0).0,
                spec_term_rest(t, self.pos as int).1 == spec_term(t, p0).1,
            decreases self.tokens.len() - self.pos,
        {
            let ghost p = self.pos as int;
            let ghost cp = code@;
            let op = if let Some(Token::Symbol(Symbol::Star)) = self.peek() {
                Step::Mul
            } else if let Some(Token::Symbol(Symbol::Slash)) = self.peek() {
                Step::Div
            } else if let Some(Token::Symbol(Symbol::Percent)) = self.peek() {
                Step::Rem
            } else {
                assert(code@ =~= c0 + spec_term(t, p0).0);
                return Ok(());
            };
            self.next();
            let r = self.parse_power(code);
            match r {
                Err(e) => {
                    return Err(e);
                },
                Ok(()) => {
                    code.push(op);
                    assert(code@ + spec_term_rest(t, self.pos as int).0 =~= cp + spec_term_rest(
                        t,
                        p,
                    ).0);
                },
            }
        }
    }

    /// Parses a power, appending its steps to `code`.
    pub fn parse_power(&mut self, code: &mut Vec<Step>) -> (r: Result<(), SyntaxError>)
        requires
            old(self).pos < usize::MAX,
            old(self).tokens.len() < usize::MAX,
        ensures
            final(self).tokens == old(self).tokens,
            emitted_as(
                old(code)@,
                final(code)@,
                r,
                final(self).pos as int,
                spec_power(old(self).tokens@, old(self).pos as int),
                old(self).pos as int,
                old(self).tokens.len() as int,
            ),
            r is Ok ==> token_at(final(self).tokens@, final(self).pos as int) != Some(
                Token::Symbol(Symbol::Caret),
            ),
        decreases old(self).tokens.len() - old(self).pos, 2nat,
    {
        let ghost t = self.tokens@;
        let ghost p0 = self.pos as int;
        let ghost c0 = code@;
        let base = self.parse_unary(code);
        if let Err(e) = base {
            return Err(e);
        }
        let ghost c1 = code@;
        if let Some(Token::Symbol(Symbol::Caret)) = self.peek() {
            self.next();
            let exponent = self.parse_power(code);
            match exponent {
                Err(e) => {
                    assert(code@ =~= c0 + spec_power(t, p0).0);
                    Err(e)
                },
                Ok(()) => {
                    code.push(Step::Pow);
                    assert(code@ =~= c0 + spec_power(t, p0).0);
                    Ok(())
                },
            }
        } else {
            Ok(())
        }
    }

    /// Parses a unary expression, appending its steps to `code`.
    pub fn parse_unary(&mut self, code: &mut Vec<Step>) -> (r: Result<(), SyntaxError>)
        requires
            old(self).pos < usize::MAX,
            old(self).tokens.len() < usize::MAX,
        ensures
            final(self).tokens == old(self).tokens,
            emitted_as(
                old(code)@,
                final(code)@,
                r,
                final(self).pos as int,
                spec_unary(old(self).tokens@, old(self).pos as int),
                old(self).pos as int,
                old(self).tokens.len() as int,
            ),
        decreases old(self).tokens.len() - old(self).pos, 1nat,
    {
        let ghost t = self.tokens@;
        let ghost c0 = code@;
        match self.peek() {
            Some(Token::Symbol(Symbol::Minus)) => {
                self.next();
                let r = self.parse_unary(code);
                if r.is_ok() {
                    code.push(Step::Neg);
                }
                r
            },
            Some(Token::Symbol(Symbol::Plus)) => {
                self.next();
                self.parse_unary(code)
            },
            _ => self.parse_primary(code),
        }
    }

    /// Parses a number or a parenthesised expression, appending its steps to `code`.
    pub fn parse_primary(&mut self, code: &mut Vec<Step>) -> (r: Result<(), SyntaxError>)
        requires
            old(self).pos < usize::MAX,
            old(self).tokens.len() < usize::MAX,
        ensures
            final(self).tokens == old(self).tokens,
            emitted_as(
                old(code)@,
                final(code)@,
                r,
                final(self).pos as int,
                spec_primary(old(self).tokens@, old(self).pos as int),
                old(self).pos as int,
                old(self).tokens.len() as int,
            ),
        decreases old(self).tokens.len() - old(self).pos, 0nat,
    {
        let ghost c0 = code@;
        match self.next() {
            Some(Token::Number(s, e)) => {
                code.push(Step::Push(s, e));
                assert(code@ =~= c0 + seq![Step::Push(s, e)]);
                Ok(())
            },
            Some(Token::Symbol(Symbol::LParen)) => {
                let inner = self.parse_expr(code);
                match inner {
                    Err(e) => Err(e),
                    Ok(()) => match self.next() {
                        Some(Token::Symbol(Symbol::RParen)) => Ok(()),
                        _ => Err(SyntaxError::ExpectedRParen),
                    },
                }
            },
            Some(Token::Symbol(s)) => {
                assert(code@ =~= c0 + seq![]);
                Err(SyntaxError::UnexpectedToken(s))
            },
            None => {
                assert(code@ =~= c0 + seq![]);
                Err(SyntaxError::UnexpectedEnd)
            },
        }
    }
}

/// Compiles a token sequence into the steps of its program and the syntax error
/// that ends it, if any.
pub fn compile_token_seq(tokens: Vec<Token>) -> (r: (Vec<Step>, Option<SyntaxError>))
    requires
        tokens.len() < usize::MAX,
    ensures
        (r.0@, r.1) == compile_tokens(tokens@),
{
    let ghost t = tokens@;
    let mut parser = Parser::new(tokens);
    let mut code: Vec<Step> = Vec::new();
    let outcome = parser.parse_expr(&mut code);
    assert(code@ =~= seq![] + spec_expr(t, 0).0);
    match outcome {
        Err(e) => (code, Some(e)),
        Ok(()) => if parser.pos != parser.tokens.len() {
            (code, Some(SyntaxError::TrailingInput))
        } else {
            (code, None)
        },
    }
}

} // verus!
