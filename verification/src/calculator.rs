//! Compiling an expression string into a stack program, and the error messages
//! of the calculator.
use vstd::prelude::*;
use vstd::string::StringExecFns;

use crate::lexer::{lemma_lex_len, lex, tokenize, LexError, Symbol};
use crate::parser::{compile_token_seq, compile_tokens, Step, SyntaxError};
use crate::program::{lemma_compiled_well_formed, program_well_formed};
use crate::text::{char_to_string, chars_of, string_from_chars};

verus! {

/// An error of the calculator, holding its message.
#[derive(Debug)]
pub struct CalcError(pub String);

/// The name of a symbol, as it appears in an "unexpected token" message.
pub open spec fn symbol_name(s: Symbol) -> Seq<char> {
    match s {
        Symbol::Plus => "Plus"@,
        Symbol::Minus => "Minus"@,
        Symbol::Star => "Star"@,
        Symbol::Slash => "Slash"@,
        Symbol::Percent => "Percent"@,
        Symbol::Caret => "Caret"@,
        Symbol::LParen => "LParen"@,
        Symbol::RParen => "RParen"@,
    }
}

/// The message of a tokenizing error of the input `cs`.
pub open spec fn lex_message(cs: Seq<char>, e: LexError) -> Seq<char> {
    match e {
        LexError::UnexpectedChar(c) => "unexpected character '"@ + seq![c] + "'"@,
        LexError::InvalidNumber(s, e) => "invalid number '"@ + cs.subrange(s as int, e as int)
            + "'"@,
    }
}

/// The message of a syntax error.
pub open spec fn syntax_message(e: SyntaxError) -> Seq<char> {
    match e {
        SyntaxError::UnexpectedToken(s) => "unexpected token '"@ + symbol_name(s) + "'"@,
        SyntaxError::ExpectedRParen => "expected ')'"@,
        SyntaxError::UnexpectedEnd => "unexpected end of expression"@,
        SyntaxError::TrailingInput => "unexpected trailing input"@,
    }
}

/// What compiling the characters `cs` comes to.
pub enum Compiled {
    /// The characters do not split into tokens.
    LexFailed(LexError),
    /// There are no tokens.
    Empty,
    /// The steps to run, and the syntax error that stops the run after them.
    Program(Seq<Step>, Option<SyntaxError>),
}

/// Compiling `cs`: tokenize, refuse an empty token sequence, then parse.
pub open spec fn compiled(cs: Seq<char>) -> Compiled {
    match lex(cs) {
        Err(e) => Compiled::LexFailed(e),
        Ok(t) => if t.len() == 0 {
            Compiled::Empty
        } else {
            Compiled::Program(compile_tokens(t).0, compile_tokens(t).1)
        },
    }
}

/// Tokenizing errors pass through unchanged: when the characters do not split
/// into tokens, compiling fails with that very error and nothing is parsed.
pub proof fn lemma_lex_error_passes_through(cs: Seq<char>)
    ensures
        lex(cs) matches Err(e) ==> compiled(cs) == Compiled::LexFailed(e),
{
}

impl CalcError {
    /// The error for a tokenizing failure of the input `cs`.
    pub fn lexical(cs: &Vec<char>, e: LexError) -> (r: CalcError)
        requires
            e matches LexError::InvalidNumber(s, en) ==> s <= en <= cs.len(),
        ensures
            r.0@ == lex_message(cs@, e),
    {
        match e {
            LexError::UnexpectedChar(c) => {
                let mut m = String::from_str("unexpected character '");
                m.append(char_to_string(c).as_str());
                m.append("'");
                CalcError(m)
            },
            LexError::InvalidNumber(s, en) => {
                let mut m = String::from_str("invalid number '");
                m.append(string_from_chars(cs, s, en).as_str());
                m.append("'");
                CalcError(m)
            },
        }
    }

    /// The error for a syntax error.
    pub fn syntax(e: SyntaxError) -> (r: CalcError)
        ensures
            r.0@ == syntax_message(e),
    {
        match e {
            SyntaxError::UnexpectedToken(s) => {
                let mut m = String::from_str("unexpected token '");
                let name = match s {
                    Symbol::Plus => "Plus",
                    Symbol::Minus => "Minus",
                    Symbol::Star => "Star",
                    Symbol::Slash => "Slash",
                    Symbol::Percent => "Percent",
                    Symbol::Caret => "Caret",
                    Symbol::LParen => "LParen",
                    Symbol::RParen => "RParen",
                };
                m.append(name);
                m.append("'");
                CalcError(m)
            },
            SyntaxError::ExpectedRParen => CalcError(String::from_str("expected ')'")),
            SyntaxError::UnexpectedEnd => CalcError(
                String::from_str("unexpected end of expression"),
            ),
            SyntaxError::TrailingInput => CalcError(String::from_str("unexpected trailing input")),
        }
    }

    /// The error for an input without tokens.
    pub fn empty_expression() -> (r: CalcError)
        ensures
            r.0@ == "empty expression"@,
    {
        CalcError(String::from_str("empty expression"))
    }

    /// The error for a division or remainder by zero.
    pub fn division_by_zero() -> (r: CalcError)
        ensures
            r.0@ == "division by zero"@,
    {
        CalcError(String::from_str("division by zero"))
    }

    /// The message.
    pub fn message(&self) -> (r: &str)
        ensures
            r@ == self.0@,
    {
        self.0.as_str()
    }
}

/// A compiled expression: its characters, the steps that compute it, and the
/// syntax error that stops the computation once the steps have run.
pub struct Program {
    pub source: Vec<char>,
    pub steps: Vec<Step>,
    pub halt: Option<SyntaxError>,
}

impl Program {
    /// The text of the number at the span `[start, end)` of the source.
    pub fn literal_text(&self, start: usize, end: usize) -> (r: String)
        requires
            start <= end <= self.source.len(),
        ensures
            r@ == self.source@.subrange(start as int, end as int),
    {
        string_from_chars(&self.source, start, end)
    }

    /// The error that ends the program after its steps, if any.
    pub fn halt_error(&self) -> (r: Option<CalcError>)
        ensures
            match self.halt {
                None => r is None,
                Some(e) => r matches Some(err) && err.0@ == syntax_message(e),
            },
    {
        match self.halt {
            None => None,
            Some(e) => Some(CalcError::syntax(e)),
        }
    }
}

/// Compiles an expression into a stack program.
///
/// Fails with the tokenizing error when the input does not split into tokens,
/// and with "empty expression" when it holds no tokens. Otherwise the program
/// holds every step that evaluating the input performs before its first syntax
/// error, and that error, if any.
pub fn compile(input: &str) -> (r: Result<Program, CalcError>)
    requires
        input@.len() < usize::MAX,
    ensures
        match compiled(input@) {
            Compiled::LexFailed(e) => r matches Err(err) && err.0@ == lex_message(input@, e),
            Compiled::Empty => r matches Err(err) && err.0@ == "empty expression"@,
            Compiled::Program(steps, halt) => r matches Ok(p) && p.source@ == input@ && p.steps@
                == steps && p.halt == halt,
        },
        r matches Ok(p) ==> program_well_formed(p.source@, p.steps@, p.halt),
{
    let chars = chars_of(input);
    proof {
        lemma_compiled_well_formed(chars@);
        lemma_lex_len(chars@, 0);
    }
    match tokenize(&chars) {
        Err(e) => Err(CalcError::lexical(&chars, e)),
        Ok(tokens) => {
            if tokens.len() == 0 {
                Err(CalcError::empty_expression())
            } else {
                let (steps, halt) = compile_token_seq(tokens);
                Ok(Program { source: chars, steps, halt })
            }
        },
    }
}

} // verus!
