//! Splitting an expression's characters into tokens.
use vstd::prelude::*;

use crate::text::{is_white_space, unicode_white_space};

verus! {

/// The one-character tokens of the expression language.
#[derive(Debug, Clone, Copy, PartialEq, Eq, Structural)]
pub enum Symbol {
    Plus,
    Minus,
    Star,
    Slash,
    Percent,
    Caret,
    LParen,
    RParen,
}

/// A token. A number is kept as the span `[start, end)` of its characters in the
/// input, so that its decimal text reaches the arithmetic unchanged.
#[derive(Debug, Clone, Copy, PartialEq, Eq, Structural)]
pub enum Token {
    Number(usize, usize),
    Symbol(Symbol),
}

/// Why an input could not be split into tokens.
#[derive(Debug, Clone, Copy, PartialEq, Eq, Structural)]
pub enum LexError {
    /// A character that starts no token.
    UnexpectedChar(char),
    /// The run of digits and points at `[start, end)` is not a decimal number.
    InvalidNumber(usize, usize),
}

/// The symbol that the character `c` stands for, if any.
pub open spec fn symbol_of(c: char) -> Option<Symbol> {
    if c == '+' {
        Some(Symbol::Plus)
    } else if c == '-' {
        Some(Symbol::Minus)
    } else if c == '*' {
        Some(Symbol::Star)
    } else if c == '/' {
        Some(Symbol::Slash)
    } else if c == '%' {
        Some(Symbol::Percent)
    } else if c == '^' {
        Some(Symbol::Caret)
    } else if c == '(' {
        Some(Symbol::LParen)
    } else if c == ')' {
        Some(Symbol::RParen)
    } else {
        None
    }
}

/// An ASCII decimal digit, `'0'..='9'`.
pub open spec fn is_digit(c: char) -> bool {
    '0' <= c <= '9'
}

/// A character that belongs to a number: a digit or the decimal point.
pub open spec fn is_number_char(c: char) -> bool {
    is_digit(c) || c == '.'
}

/// The end of the run of number characters that starts at `i`.
pub open spec fn number_end(cs: Seq<char>, i: int) -> int
    decreases cs.len() - i,
{
    if 0 <= i < cs.len() && is_number_char(cs[i]) {
        number_end(cs, i + 1)
    } else {
        i
    }
}

/// How many decimal points `s` holds.
pub open spec fn count_points(s: Seq<char>) -> nat
    decreases s.len(),
{
    if s.len() == 0 {
        0
    } else {
        count_points(s.drop_last()) + if s.last() == '.' { 1nat } else { 0nat }
    }
}

/// How many digits `s` holds.
pub open spec fn count_digits(s: Seq<char>) -> nat
    decreases s.len(),
{
    if s.len() == 0 {
        0
    } else {
        count_digits(s.drop_last()) + if is_digit(s.last()) { 1nat } else { 0nat }
    }
}

/// A run of digits and points is a decimal number (`Digit+`, `Digit+ '.' Digit*`
/// or `Digit* '.' Digit+`) exactly when it holds at most one point and at least
/// one digit.
pub open spec fn valid_number(s: Seq<char>) -> bool {
    count_points(s) <= 1 && count_digits(s) >= 1
}

/// The tokens of `cs` from position `i` on, or the first reason why there are none.
pub open spec fn lex_from(cs: Seq<char>, i: int) -> Result<Seq<Token>, LexError>
    decreases cs.len() - i,
{
    if i < 0 || i >= cs.len() {
        Ok(seq![])
    } else if unicode_white_space(cs[i]) {
        lex_from(cs, i + 1)
    } else if symbol_of(cs[i]) is Some {
        match lex_from(cs, i + 1) {
            Ok(rest) => Ok(seq![Token::Symbol(symbol_of(cs[i]).unwrap())] + rest),
            Err(e) => Err(e),
        }
    } else if is_number_char(cs[i]) {
        let j = number_end(cs, i);
        proof {
            lemma_number_end(cs, i);
        }
        if valid_number(cs.subrange(i, j)) {
            match lex_from(cs, j) {
                Ok(rest) => Ok(seq![Token::Number(i as usize, j as usize)] + rest),
                Err(e) => Err(e),
            }
        } else {
            Err(LexError::InvalidNumber(i as usize, j as usize))
        }
    } else {
        Err(LexError::UnexpectedChar(cs[i]))
    }
}

/// The tokens of `cs`, or the first reason why there are none.
pub open spec fn lex(cs: Seq<char>) -> Result<Seq<Token>, LexError> {
    lex_from(cs, 0)
}

/// The run that starts at a number character ends after it, within `cs`, and
/// holds only number characters.
pub proof fn lemma_number_end(cs: Seq<char>, i: int)
    requires
        0 <= i < cs.len(),
        is_number_char(cs[i]),
    ensures
        i < number_end(cs, i) <= cs.len(),
        forall|k: int| i <= k < number_end(cs, i) ==> is_number_char(#[trigger] cs[k]),
        number_end(cs, i) < cs.len() ==> !is_number_char(cs[number_end(cs, i)]),
    decreases cs.len() - i,
{
    assert(number_end(cs, i) == number_end(cs, i + 1));
    if i + 1 < cs.len() && is_number_char(cs[i + 1]) {
        lemma_number_end(cs, i + 1);
    } else {
        assert(number_end(cs, i + 1) == i + 1);
    }
}

/// Every token of `lex_from(cs, i)` is well placed: numbers span valid number
/// text inside `cs`.
pub open spec fn tokens_well_placed(cs: Seq<char>, ts: Seq<Token>) -> bool {
    forall|k: int|
        0 <= k < ts.len() ==> match #[trigger] ts[k] {
            Token::Number(s, e) => s < e <= cs.len() && valid_number(cs.subrange(s as int, e as int)),
            Token::Symbol(_) => true,
        }
}

/// Whether `c` is a decimal digit.
fn is_ascii_digit(c: char) -> (r: bool)
    ensures
        r == is_digit(c),
{
    '0' <= c && c <= '9'
}

/// The symbol for `c`, if it is one.
fn symbol_for(c: char) -> (r: Option<Symbol>)
    ensures
        r == symbol_of(c),
{
    match c {
        '+' => Some(Symbol::Plus),
        '-' => Some(Symbol::Minus),
        '*' => Some(Symbol::Star),
        '/' => Some(Symbol::Slash),
        '%' => Some(Symbol::Percent),
        '^' => Some(Symbol::Caret),
        '(' => Some(Symbol::LParen),
        ')' => Some(Symbol::RParen),
        _ => None,
    }
}

/// Whether the characters `cs[start..end]` are a decimal number.
fn check_number(cs: &Vec<char>, start: usize, end: usize) -> (r: bool)
    requires
        start <= end <= cs.len(),
    ensures
        r == valid_number(cs@.subrange(start as int, end as int)),
{
    let mut points: usize = 0;
    let mut digits: usize = 0;
    let mut k: usize = start;
    while k < end
        invariant
            start <= k <= end <= cs.len(),
            points == count_points(cs@.subrange(start as int, k as int)),
            digits == count_digits(cs@.subrange(start as int, k as int)),
            points <= k - start,
            digits <= k - start,
        decreases end - k,
    {
        let c = cs[k];
        proof {
            let before = cs@.subrange(start as int, k as int);
            let after = cs@.subrange(start as int, k + 1);
            assert(after.drop_last() =~= before);
            assert(after.last() == c);
        }
        if c == '.' {
            points = points + 1;
        }
        if is_ascii_digit(c) {
            digits = digits + 1;
        }
        k = k + 1;
    }
    points <= 1 && digits >= 1
}

/// Splits `cs` into tokens, skipping white space.
///
/// A number is a maximal run of digits and decimal points; the run must be a
/// decimal number. Any character that is neither white space, a symbol nor a
/// number character is refused.
pub fn tokenize(cs: &Vec<char>) -> (r: Result<Vec<Token>, LexError>)
    ensures
        match r {
            Ok(ts) => lex(cs@) == Ok::<Seq<Token>, LexError>(ts@),
            Err(e) => lex(cs@) == Err::<Seq<Token>, LexError>(e),
        },
        r matches Err(LexError::InvalidNumber(s, e)) ==> s < e <= cs.len(),
{
    let mut tokens: Vec<Token> = Vec::new();
    let mut i: usize = 0;
    let n = cs.len();
    while i < n
        invariant
            n == cs.len(),
            i <= n,
            lex(cs@) == match lex_from(cs@, i as int) {
                Ok(rest) => Ok(tokens@ + rest),
                Err(e) => Err(e),
            },
        decreases n - i,
    {
        let c = cs[i];
        if is_white_space(c) {
            i = i + 1;
        } else if let Some(sym) = symbol_for(c) {
            proof {
                match lex_from(cs@, i + 1) {
                    Ok(rest) => {
                        assert(tokens@ + (seq![Token::Symbol(sym)] + rest) =~= tokens@.push(
                            Token::Symbol(sym),
                        ) + rest);
                    },
                    Err(_) => {},
                }
            }
            tokens.push(Token::Symbol(sym));
            i = i + 1;
        } else if is_ascii_digit(c) || c == '.' {
            let start = i;
            i = i + 1;
            while i < n && (is_ascii_digit(cs[i]) || cs[i] == '.')
                invariant
                    n == cs.len(),
                    start < i <= n,
                    forall|k: int| start <= k < i ==> is_number_char(#[trigger] cs@[k]),
                decreases n - i,
            {
                i = i + 1;
            }
            proof {
                lemma_number_end(cs@, start as int);
                lemma_run_end(cs@, start as int, i as int);
            }
            if !check_number(cs, start, i) {
                return Err(LexError::InvalidNumber(start, i));
            }
            proof {
                match lex_from(cs@, i as int) {
                    Ok(rest) => {
                        assert(tokens@ + (seq![Token::Number(start, i)] + rest) =~= tokens@.push(
                            Token::Number(start, i),
                        ) + rest);
                    },
                    Err(_) => {},
                }
            }
            tokens.push(Token::Number(start, i));
        } else {
            return Err(LexError::UnexpectedChar(c));
        }
    }
    proof {
        assert(tokens@ + seq![] =~= tokens@);
    }
    Ok(tokens)
}

/// A run of number characters from `start` to `end`, followed by a character
/// that is not one (or by the end of `cs`), ends where `number_end` says.
proof fn lemma_run_end(cs: Seq<char>, start: int, end: int)
    requires
        0 <= start < end <= cs.len(),
        forall|k: int| start <= k < end ==> is_number_char(#[trigger] cs[k]),
        end < cs.len() ==> !is_number_char(cs[end]),
    ensures
        number_end(cs, start) == end,
    decreases end - start,
{
    assert(number_end(cs, start) == number_end(cs, start + 1));
    if start + 1 < end {
        lemma_run_end(cs, start + 1, end);
    } else {
        assert(number_end(cs, end) == end);
    }
}

/// Tokens produced by `lex_from` from any position are well placed in `cs`.
pub proof fn lemma_lex_well_placed(cs: Seq<char>, i: int)
    requires
        0 <= i,
        cs.len() <= usize::MAX,
    ensures
        lex_from(cs, i) matches Ok(ts) ==> tokens_well_placed(cs, ts),
    decreases cs.len() - i,
{
    if i < cs.len() {
        if unicode_white_space(cs[i]) {
            lemma_lex_well_placed(cs, i + 1);
        } else if symbol_of(cs[i]) is Some {
            lemma_lex_well_placed(cs, i + 1);
            if let Ok(rest) = lex_from(cs, i + 1) {
                let ts = seq![Token::Symbol(symbol_of(cs[i]).unwrap())] + rest;
                assert forall|k: int| 0 <= k < ts.len() implies match #[trigger] ts[k] {
                    Token::Number(s, e) => s < e <= cs.len() && valid_number(
                        cs.subrange(s as int, e as int),
                    ),
                    Token::Symbol(_) => true,
                } by {
                    if k > 0 {
                        assert(ts[k] == rest[k - 1]);
                    }
                }
            }
        } else if is_number_char(cs[i]) {
            lemma_number_end(cs, i);
            let j = number_end(cs, i);
            lemma_lex_well_placed(cs, j);
            if lex_from(cs, j) is Ok && valid_number(cs.subrange(i, j)) {
                let rest = lex_from(cs, j)->Ok_0;
                let ts = seq![Token::Number(i as usize, j as usize)] + rest;
                assert forall|k: int| 0 <= k < ts.len() implies match #[trigger] ts[k] {
                    Token::Number(s, e) => s < e <= cs.len() && valid_number(
                        cs.subrange(s as int, e as int),
                    ),
                    Token::Symbol(_) => true,
                } by {
                    if k > 0 {
                        assert(ts[k] == rest[k - 1]);
                    }
                }
            }
        }
    }
}

/// There are no more tokens than characters.
pub proof fn lemma_lex_len(cs: Seq<char>, i: int)
    requires
        0 <= i,
    ensures
        lex_from(cs, i) matches Ok(ts) ==> ts.len() <= cs.len() - i || (i >= cs.len() && ts.len()
            == 0),
    decreases cs.len() - i,
{
    if i < cs.len() {
        if unicode_white_space(cs[i]) || symbol_of(cs[i]) is Some {
            lemma_lex_len(cs, i + 1);
        } else if is_number_char(cs[i]) {
            lemma_number_end(cs, i);
            lemma_lex_len(cs, number_end(cs, i));
        }
    }
}

/// A token moved `k` characters to the right.
pub open spec fn shift_token(t: Token, k: int) -> Token {
    match t {
        Token::Number(s, e) => Token::Number((s + k) as usize, (e + k) as usize),
        Token::Symbol(sym) => Token::Symbol(sym),
    }
}

/// A tokenizing outcome with its spans moved `k` characters to the right.
pub open spec fn shift_lex(r: Result<Seq<Token>, LexError>, k: int) -> Result<Seq<Token>, LexError> {
    match r {
        Ok(ts) => Ok(ts.map_values(|t: Token| shift_token(t, k))),
        Err(LexError::InvalidNumber(s, e)) => Err(LexError::InvalidNumber((s + k) as usize, (e + k) as usize)),
        Err(e) => Err(e),
    }
}

/// The tokens of two parts in turn, or the first part's error, or else the second's.
pub open spec fn join_lex(a: Result<Seq<Token>, LexError>, b: Result<Seq<Token>, LexError>) -> Result<
    Seq<Token>,
    LexError,
> {
    match a {
        Err(e) => Err(e),
        Ok(x) => match b {
            Ok(y) => Ok(x + y),
            Err(e) => Err(e),
        },
    }
}

/// Prepending a token to a tokenizing outcome.
pub open spec fn prepend_lex(t: Token, r: Result<Seq<Token>, LexError>) -> Result<Seq<Token>, LexError> {
    match r {
        Ok(rest) => Ok(seq![t] + rest),
        Err(e) => Err(e),
    }
}

/// A white space character is no number character.
proof fn lemma_white_space_not_number(w: char)
    requires
        unicode_white_space(w),
    ensures
        !is_number_char(w),
        symbol_of(w) is None,
{
}

/// Runs of number characters in the part after the separator end where they
/// end in that part, moved right.
proof fn lemma_number_end_tail(a: Seq<char>, w: char, b: Seq<char>, j: int)
    requires
        unicode_white_space(w),
        0 <= j <= b.len(),
    ensures
        number_end(a + seq![w] + b, a.len() + 1 + j) == a.len() + 1 + number_end(b, j),
    decreases b.len() - j,
{
    let c = a + seq![w] + b;
    let k = (a.len() + 1) as int;
    if j < b.len() {
        assert(c[k + j] == b[j]);
        if is_number_char(b[j]) {
            lemma_number_end_tail(a, w, b, j + 1);
        }
    }
}

/// Runs of number characters in the part before the separator end where they
/// end in that part.
proof fn lemma_number_end_head(a: Seq<char>, w: char, b: Seq<char>, i: int)
    requires
        unicode_white_space(w),
        0 <= i <= a.len(),
    ensures
        number_end(a + seq![w] + b, i) == number_end(a, i),
    decreases a.len() - i,
{
    let c = a + seq![w] + b;
    lemma_white_space_not_number(w);
    if i < a.len() {
        assert(c[i] == a[i]);
        if is_number_char(a[i]) {
            lemma_number_end_head(a, w, b, i + 1);
        }
    } else {
        assert(c[i] == w);
    }
}

/// Tokenizing the part after the separator is tokenizing it alone, moved right.
proof fn lemma_lex_tail(a: Seq<char>, w: char, b: Seq<char>, j: int)
    requires
        unicode_white_space(w),
        (a + seq![w] + b).len() <= usize::MAX,
        0 <= j <= b.len(),
    ensures
        lex_from(a + seq![w] + b, a.len() + 1 + j) == shift_lex(lex_from(b, j), (a.len() + 1) as int),
    decreases b.len() - j,
{
    let c = a + seq![w] + b;
    let k = (a.len() + 1) as int;
    if j == b.len() {
        assert(Seq::<Token>::empty().map_values(|t: Token| shift_token(t, k)) =~= Seq::<
            Token,
        >::empty());
    } else {
        assert(c[k + j] == b[j]);
        let ch = b[j];
        if unicode_white_space(ch) {
            lemma_lex_tail(a, w, b, j + 1);
        } else if symbol_of(ch) is Some {
            lemma_lex_tail(a, w, b, j + 1);
            let tok = Token::Symbol(symbol_of(ch).unwrap());
            if let Ok(rest) = lex_from(b, j + 1) {
                assert((seq![tok] + rest).map_values(|t: Token| shift_token(t, k)) =~= seq![tok]
                    + rest.map_values(|t: Token| shift_token(t, k)));
            }
        } else if is_number_char(ch) {
            lemma_number_end(b, j);
            let ne = number_end(b, j);
            lemma_number_end_tail(a, w, b, j);
            assert(c.subrange(k + j, k + ne) =~= b.subrange(j, ne));
            lemma_lex_tail(a, w, b, ne);
            let tok = Token::Number(j as usize, ne as usize);
            assert(shift_token(tok, k) == Token::Number((k + j) as usize, (k + ne) as usize));
            if let Ok(rest) = lex_from(b, ne) {
                assert((seq![tok] + rest).map_values(|t: Token| shift_token(t, k)) =~= seq![
                    shift_token(tok, k),
                ] + rest.map_values(|t: Token| shift_token(t, k)));
            }
        }
    }
}

/// Tokenizing from a position of the part before the separator is tokenizing
/// the rest of that part, then the part after it.
proof fn lemma_lex_head(a: Seq<char>, w: char, b: Seq<char>, i: int)
    requires
        unicode_white_space(w),
        (a + seq![w] + b).len() <= usize::MAX,
        0 <= i <= a.len(),
    ensures
        lex_from(a + seq![w] + b, i) == join_lex(lex_from(a, i), shift_lex(lex(b), (a.len() + 1) as int)),
    decreases a.len() - i,
{
    let c = a + seq![w] + b;
    let tail = shift_lex(lex(b), (a.len() + 1) as int);
    if i == a.len() {
        assert(c[i] == w);
        lemma_lex_tail(a, w, b, 0);
        if let Ok(y) = tail {
            assert(Seq::<Token>::empty() + y =~= y);
        }
    } else {
        assert(c[i] == a[i]);
        let ch = a[i];
        if unicode_white_space(ch) {
            lemma_lex_head(a, w, b, i + 1);
        } else if symbol_of(ch) is Some {
            lemma_lex_head(a, w, b, i + 1);
            let tok = Token::Symbol(symbol_of(ch).unwrap());
            if let Ok(x) = lex_from(a, i + 1) {
                if let Ok(y) = tail {
                    assert(seq![tok] + (x + y) =~= (seq![tok] + x) + y);
                }
            }
        } else if is_number_char(ch) {
            lemma_number_end(a, i);
            let ne = number_end(a, i);
            lemma_number_end_head(a, w, b, i);
            assert(c.subrange(i, ne) =~= a.subrange(i, ne));
            lemma_lex_head(a, w, b, ne);
            let tok = Token::Number(i as usize, ne as usize);
            if let Ok(x) = lex_from(a, ne) {
                if let Ok(y) = tail {
                    assert(seq![tok] + (x + y) =~= (seq![tok] + x) + y);
                }
            }
        }
    }
}

/// White space only separates tokens: tokenizing `a`, a white space character,
/// then `b`, gives the tokens of `a` followed by those of `b` (their spans moved
/// past `a` and the separator), or the first error, which is `a`'s if it has one.
pub proof fn lemma_lex_white_space_separates(a: Seq<char>, w: char, b: Seq<char>)
    requires
        unicode_white_space(w),
        (a + seq![w] + b).len() <= usize::MAX,
    ensures
        lex(a + seq![w] + b) == join_lex(lex(a), shift_lex(lex(b), (a.len() + 1) as int)),
{
    lemma_lex_head(a, w, b, 0);
}

/// Every character of `s` is an ASCII decimal digit.
pub open spec fn all_digits(s: Seq<char>) -> bool {
    forall|i: int| 0 <= i < s.len() ==> '0' <= #[trigger] s[i] <= '9'
}

/// Every character of `s` is a digit or a decimal point.
pub open spec fn digits_and_points(s: Seq<char>) -> bool {
    forall|i: int| 0 <= i < s.len() ==> ('0' <= #[trigger] s[i] <= '9' || s[i] == '.')
}

/// `s` is written `Digit+`, `Digit+ '.' Digit*` or `Digit* '.' Digit+`.
pub open spec fn decimal_text(s: Seq<char>) -> bool {
    ||| s.len() >= 1 && all_digits(s)
    ||| exists|k: int|
        0 <= k < s.len() && #[trigger] s[k] == '.' && all_digits(s.take(k)) && all_digits(
            s.skip(k + 1),
        ) && s.len() >= 2
}

/// Counting points and digits adds up over a concatenation.
proof fn lemma_counts_append(a: Seq<char>, b: Seq<char>)
    ensures
        count_points(a + b) == count_points(a) + count_points(b),
        count_digits(a + b) == count_digits(a) + count_digits(b),
    decreases b.len(),
{
    if b.len() == 0 {
        assert(a + b =~= a);
    } else {
        assert((a + b).drop_last() =~= a + b.drop_last());
        lemma_counts_append(a, b.drop_last());
    }
}

/// A run of digits holds no point, and as many digits as characters.
proof fn lemma_counts_of_digits(d: Seq<char>)
    requires
        all_digits(d),
    ensures
        count_points(d) == 0,
        count_digits(d) == d.len(),
    decreases d.len(),
{
    if d.len() > 0 {
        assert(d.last() == d[d.len() - 1]);
        lemma_counts_of_digits(d.drop_last());
    }
}

/// There are never more digits than characters.
proof fn lemma_count_digits_bound(s: Seq<char>)
    ensures
        count_digits(s) <= s.len(),
    decreases s.len(),
{
    if s.len() > 0 {
        lemma_count_digits_bound(s.drop_last());
    }
}

/// Digits and points without a point are digits.
proof fn lemma_no_point_digits(s: Seq<char>)
    requires
        digits_and_points(s),
        count_points(s) == 0,
    ensures
        all_digits(s),
    decreases s.len(),
{
    if s.len() > 0 {
        let t = s.drop_last();
        assert(digits_and_points(t)) by {
            assert forall|i: int| 0 <= i < t.len() implies ('0' <= #[trigger] t[i] <= '9' || t[i]
                == '.') by {
                assert(t[i] == s[i]);
            }
        }
        lemma_no_point_digits(t);
        assert(s.last() == s[s.len() - 1]);
        assert forall|i: int| 0 <= i < s.len() implies '0' <= #[trigger] s[i] <= '9' by {
            if i < s.len() - 1 {
                assert(s[i] == t[i]);
            }
        }
    }
}

/// A text with a point holds it somewhere.
proof fn lemma_find_point(s: Seq<char>)
    requires
        count_points(s) > 0,
    ensures
        exists|k: int| 0 <= k < s.len() && #[trigger] s[k] == '.',
    decreases s.len(),
{
    if s.last() == '.' {
        assert(s[s.len() - 1] == '.');
    } else {
        lemma_find_point(s.drop_last());
        let k = choose|k: int| 0 <= k < s.drop_last().len() && #[trigger] s.drop_last()[k] == '.';
        assert(s[k] == '.');
    }
}

/// Decimal number text, independently of how the tokenizer counts: among runs
/// of digits and points, the valid numbers are exactly `Digit+`,
/// `Digit+ '.' Digit*` and `Digit* '.' Digit+`, whatever their length.
pub proof fn lemma_valid_number_is_decimal_text(s: Seq<char>)
    requires
        digits_and_points(s),
    ensures
        valid_number(s) <==> decimal_text(s),
{
    if decimal_text(s) {
        if s.len() >= 1 && all_digits(s) {
            lemma_counts_of_digits(s);
        } else {
            let k = choose|k: int|
                0 <= k < s.len() && #[trigger] s[k] == '.' && all_digits(s.take(k)) && all_digits(
                    s.skip(k + 1),
                ) && s.len() >= 2;
            assert(s =~= s.take(k) + seq!['.'] + s.skip(k + 1));
            lemma_counts_append(s.take(k) + seq!['.'], s.skip(k + 1));
            lemma_counts_append(s.take(k), seq!['.']);
            lemma_counts_of_digits(s.take(k));
            lemma_counts_of_digits(s.skip(k + 1));
            assert(seq!['.'].drop_last() =~= Seq::<char>::empty());
            assert(count_points(Seq::<char>::empty()) == 0);
            assert(count_digits(Seq::<char>::empty()) == 0);
            assert(count_points(seq!['.']) == 1);
            assert(count_digits(seq!['.']) == 0);
        }
    }
    if valid_number(s) {
        if count_points(s) == 0 {
            lemma_no_point_digits(s);
            lemma_count_digits_bound(s);
        } else {
            lemma_find_point(s);
            let k = choose|k: int| 0 <= k < s.len() && #[trigger] s[k] == '.';
            let a = s.take(k);
            let b = s.skip(k + 1);
            assert(s =~= a + seq!['.'] + b);
            lemma_counts_append(a + seq!['.'], b);
            lemma_counts_append(a, seq!['.']);
            assert(seq!['.'].drop_last() =~= Seq::<char>::empty());
            assert(count_points(Seq::<char>::empty()) == 0);
            assert(count_digits(Seq::<char>::empty()) == 0);
            assert(count_points(seq!['.']) == 1);
            assert(count_digits(seq!['.']) == 0);
            assert(digits_and_points(a)) by {
                assert forall|i: int| 0 <= i < a.len() implies ('0' <= #[trigger] a[i] <= '9'
                    || a[i] == '.') by {
                    assert(a[i] == s[i]);
                }
            }
            assert(digits_and_points(b)) by {
                assert forall|i: int| 0 <= i < b.len() implies ('0' <= #[trigger] b[i] <= '9'
                    || b[i] == '.') by {
                    assert(b[i] == s[k + 1 + i]);
                }
            }
            lemma_no_point_digits(a);
            lemma_no_point_digits(b);
            lemma_count_digits_bound(a);
            lemma_count_digits_bound(b);
            assert(s[k] == '.');
            assert(count_points(a) == 0 && count_points(b) == 0);
            assert(count_digits(a) + count_digits(b) >= 1);
            assert(all_digits(s.take(k)) && all_digits(s.skip(k + 1)) && s.len() >= 2);
        }
    }
}

/// An input that is one run of digits and points tokenizes as one number
/// spanning it all when it is decimal number text (of any length), and fails
/// with that run as an invalid number otherwise.
pub proof fn lemma_lex_number_text(cs: Seq<char>)
    requires
        cs.len() >= 1,
        cs.len() <= usize::MAX,
        digits_and_points(cs),
    ensures
        decimal_text(cs) ==> lex(cs) == Ok::<Seq<Token>, LexError>(seq![Token::Number(0, cs.len() as usize)]),
        !decimal_text(cs) ==> lex(cs) == Err::<Seq<Token>, LexError>(LexError::InvalidNumber(0, cs.len() as usize)),
{
    assert('0' <= cs[0] <= '9' || cs[0] == '.');
    assert(!unicode_white_space(cs[0]));
    assert forall|k: int| 0 <= k < cs.len() implies is_number_char(#[trigger] cs[k]) by {
        assert('0' <= cs[k] <= '9' || cs[k] == '.');
    }
    lemma_run_end(cs, 0, cs.len() as int);
    assert(cs.subrange(0, cs.len() as int) =~= cs);
    lemma_valid_number_is_decimal_text(cs);
    assert(lex_from(cs, cs.len() as int) == Ok::<Seq<Token>, LexError>(seq![]));
    assert(seq![Token::Number(0, cs.len() as usize)] + Seq::<Token>::empty() =~= seq![
        Token::Number(0, cs.len() as usize),
    ]);
}

/// What a single character tokenizes to: each of `+ - * / % ^ ( )` is its
/// symbol, white space is nothing, and any character that is neither, nor a
/// digit or a decimal point, is refused.
pub proof fn lemma_lex_single_char(c: char)
    ensures
        c == '+' ==> lex(seq![c]) == Ok::<Seq<Token>, LexError>(seq![Token::Symbol(Symbol::Plus)]),
        c == '-' ==> lex(seq![c]) == Ok::<Seq<Token>, LexError>(seq![Token::Symbol(Symbol::Minus)]),
        c == '*' ==> lex(seq![c]) == Ok::<Seq<Token>, LexError>(seq![Token::Symbol(Symbol::Star)]),
        c == '/' ==> lex(seq![c]) == Ok::<Seq<Token>, LexError>(seq![Token::Symbol(Symbol::Slash)]),
        c == '%' ==> lex(seq![c]) == Ok::<Seq<Token>, LexError>(seq![Token::Symbol(Symbol::Percent)]),
        c == '^' ==> lex(seq![c]) == Ok::<Seq<Token>, LexError>(seq![Token::Symbol(Symbol::Caret)]),
        c == '(' ==> lex(seq![c]) == Ok::<Seq<Token>, LexError>(seq![Token::Symbol(Symbol::LParen)]),
        c == ')' ==> lex(seq![c]) == Ok::<Seq<Token>, LexError>(seq![Token::Symbol(Symbol::RParen)]),
        unicode_white_space(c) ==> lex(seq![c]) == Ok::<Seq<Token>, LexError>(Seq::empty()),
        !unicode_white_space(c) && !('0' <= c <= '9') && c != '.' && c != '+' && c != '-' && c
            != '*' && c != '/' && c != '%' && c != '^' && c != '(' && c != ')' ==> lex(seq![c])
            == Err::<Seq<Token>, LexError>(LexError::UnexpectedChar(c)),
{
    let cs = seq![c];
    assert(lex_from(cs, 1) == Ok::<Seq<Token>, LexError>(seq![]));
    if symbol_of(c) is Some {
        assert(seq![Token::Symbol(symbol_of(c).unwrap())] + Seq::<Token>::empty() =~= seq![
            Token::Symbol(symbol_of(c).unwrap()),
        ]);
    }
}

} // verus!
