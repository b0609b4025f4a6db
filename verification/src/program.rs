//! What every compiled program guarantees to the machine that runs it: no step
//! finds too few values on the stack, a complete program leaves exactly one
//! value, and every pushed number is decimal text of the input.
use vstd::prelude::*;

use crate::calculator::{compiled, Compiled};
use crate::lexer::{lemma_lex_well_placed, lex, tokens_well_placed, valid_number, Token};
use crate::parser::{
    additive_step, multiplicative_step, spec_expr, spec_expr_rest, spec_power, spec_primary,
    spec_term, spec_term_rest, spec_unary, token_at, Step, SyntaxError,
};

verus! {

/// How many values a step takes from the stack.
pub open spec fn arity(s: Step) -> int {
    match s {
        Step::Push(_, _) => 0,
        Step::Neg => 1,
        _ => 2,
    }
}

/// Running `code` on a stack of `d` values, no step finds fewer values than it takes.
pub open spec fn runs_from(code: Seq<Step>, d: int) -> bool
    decreases code.len(),
{
    if code.len() == 0 {
        true
    } else {
        arity(code[0]) <= d && runs_from(code.drop_first(), d - arity(code[0]) + 1)
    }
}

/// How much `code` grows the stack.
pub open spec fn net(code: Seq<Step>) -> int
    decreases code.len(),
{
    if code.len() == 0 {
        0
    } else {
        1 - arity(code[0]) + net(code.drop_first())
    }
}

/// Every number that `code` pushes is a number token of `t`.
pub open spec fn pushes_tokens(code: Seq<Step>, t: Seq<Token>) -> bool {
    forall|i: int|
        0 <= i < code.len() ==> match #[trigger] code[i] {
            Step::Push(s, e) => t.contains(Token::Number(s, e)),
            _ => true,
        }
}

/// A program over the characters `cs` is safe to run: from an empty stack no
/// step lacks operands; without a halting error exactly one value remains;
/// and each pushed span is decimal number text inside `cs`.
pub open spec fn program_well_formed(cs: Seq<char>, steps: Seq<Step>, halt: Option<SyntaxError>) -> bool {
    &&& runs_from(steps, 0)
    &&& halt is None ==> net(steps) == 1
    &&& forall|i: int|
        0 <= i < steps.len() ==> match #[trigger] steps[i] {
            Step::Push(s, e) => s < e <= cs.len() && valid_number(cs.subrange(s as int, e as int)),
            _ => true,
        }
}

/// Running `a` then `b` is running `a + b`, and growth adds up.
pub proof fn lemma_runs_append(a: Seq<Step>, b: Seq<Step>, d: int)
    ensures
        runs_from(a + b, d) == (runs_from(a, d) && runs_from(b, d + net(a))),
        net(a + b) == net(a) + net(b),
    decreases a.len(),
{
    if a.len() == 0 {
        assert(a + b =~= b);
    } else {
        assert((a + b).drop_first() =~= a.drop_first() + b);
        lemma_runs_append(a.drop_first(), b, d - arity(a[0]) + 1);
    }
}

/// More values on the stack never hurt.
pub proof fn lemma_runs_mono(c: Seq<Step>, d: int, d2: int)
    requires
        runs_from(c, d),
        d <= d2,
    ensures
        runs_from(c, d2),
    decreases c.len(),
{
    if c.len() > 0 {
        lemma_runs_mono(c.drop_first(), d - arity(c[0]) + 1, d2 - arity(c[0]) + 1);
    }
}

/// Pushed numbers of a concatenation come from the tokens when those of both parts do.
pub proof fn lemma_pushes_append(a: Seq<Step>, b: Seq<Step>, t: Seq<Token>)
    requires
        pushes_tokens(a, t),
        pushes_tokens(b, t),
    ensures
        pushes_tokens(a + b, t),
{
    assert forall|i: int| 0 <= i < (a + b).len() implies match #[trigger] (a + b)[i] {
        Step::Push(s, e) => t.contains(Token::Number(s, e)),
        _ => true,
    } by {
        if i < a.len() {
            assert((a + b)[i] == a[i]);
        } else {
            assert((a + b)[i] == b[i - a.len()]);
        }
    }
}

/// A single step grows the stack by one less than it takes, and runs when the
/// stack holds what it takes.
pub proof fn lemma_single_step(s: Step, d: int)
    ensures
        net(seq![s]) == 1 - arity(s),
        runs_from(seq![s], d) == (arity(s) <= d),
{
    assert(seq![s].drop_first() =~= Seq::<Step>::empty());
    assert(net(Seq::<Step>::empty()) == 0);
    assert(runs_from(Seq::<Step>::empty(), d - arity(s) + 1));
}

/// A single non-push step pushes no number.
pub proof fn lemma_pushes_op(s: Step, t: Seq<Token>)
    requires
        !(s is Push),
    ensures
        pushes_tokens(seq![s], t),
{
}

/// What a parse of one operand guarantees: the code runs from an empty stack,
/// never shrinks it, adds exactly one value on success, pushes only number
/// tokens, and success ends past `p` within the tokens.
pub open spec fn operand_code(t: Seq<Token>, p: int, c: Seq<Step>, r: Result<int, SyntaxError>) -> bool {
    &&& runs_from(c, 0)
    &&& net(c) >= 0
    &&& r is Ok ==> net(c) == 1
    &&& pushes_tokens(c, t)
    &&& r matches Ok(q) ==> p < q <= t.len()
}

/// What a parse of an operator tail guarantees: the code runs on a stack that
/// holds the left operand, never shrinks it, leaves its size unchanged on
/// success, pushes only number tokens, and success ends at or after `p`.
pub open spec fn tail_code(t: Seq<Token>, p: int, c: Seq<Step>, r: Result<int, SyntaxError>) -> bool {
    &&& runs_from(c, 1)
    &&& net(c) >= 0
    &&& r is Ok ==> net(c) == 0
    &&& pushes_tokens(c, t)
    &&& r matches Ok(q) ==> p <= q <= t.len()
}

/// An operand followed by a binary step and a tail is a tail.
proof fn lemma_binary_tail(
    t: Seq<Token>,
    p: int,
    c1: Seq<Step>,
    q: int,
    op: Step,
    c2: Seq<Step>,
    r2: Result<int, SyntaxError>,
)
    requires
        operand_code(t, p + 1, c1, Ok(q)),
        arity(op) == 2,
        tail_code(t, q, c2, r2),
    ensures
        tail_code(t, p, c1 + seq![op] + c2, r2),
{
    lemma_runs_mono(c1, 0, 1);
    lemma_runs_append(c1, seq![op], 1);
    lemma_runs_append(c1 + seq![op], c2, 1);
    lemma_single_step(op, 1 + net(c1));
    lemma_pushes_op(op, t);
    lemma_pushes_append(c1, seq![op], t);
    lemma_pushes_append(c1 + seq![op], c2, t);
}

/// An operand followed by a tail is an operand.
proof fn lemma_operand_tail(
    t: Seq<Token>,
    p: int,
    c1: Seq<Step>,
    q: int,
    c2: Seq<Step>,
    r2: Result<int, SyntaxError>,
)
    requires
        operand_code(t, p, c1, Ok(q)),
        tail_code(t, q, c2, r2),
    ensures
        operand_code(t, p, c1 + c2, r2),
{
    lemma_runs_append(c1, c2, 0);
    lemma_pushes_append(c1, c2, t);
}

/// The code of an expression is operand code.
pub proof fn lemma_expr_code(t: Seq<Token>, p: int)
    requires
        0 <= p <= t.len(),
    ensures
        operand_code(t, p, spec_expr(t, p).0, spec_expr(t, p).1),
    decreases t.len() - p, 6nat,
{
    lemma_term_code(t, p);
    let (c1, r1) = spec_term(t, p);
    if let Ok(q) = r1 {
        lemma_expr_rest_code(t, q);
        lemma_operand_tail(t, p, c1, q, spec_expr_rest(t, q).0, spec_expr_rest(t, q).1);
    }
}

/// The code of an expression tail is tail code.
pub proof fn lemma_expr_rest_code(t: Seq<Token>, p: int)
    requires
        0 <= p <= t.len(),
    ensures
        tail_code(t, p, spec_expr_rest(t, p).0, spec_expr_rest(t, p).1),
    decreases t.len() - p, 5nat,
{
    if 0 <= p < t.len() && additive_step(token_at(t, p)) is Some {
        lemma_term_code(t, p + 1);
        let (c1, r1) = spec_term(t, p + 1);
        if let Ok(q) = r1 {
            lemma_expr_rest_code(t, q);
            lemma_binary_tail(
                t,
                p,
                c1,
                q,
                additive_step(token_at(t, p)).unwrap(),
                spec_expr_rest(t, q).0,
                spec_expr_rest(t, q).1,
            );
        } else {
            lemma_runs_mono(c1, 0, 1);
        }
    }
}

/// The code of a term is operand code.
pub proof fn lemma_term_code(t: Seq<Token>, p: int)
    requires
        0 <= p <= t.len(),
    ensures
        operand_code(t, p, spec_term(t, p).0, spec_term(t, p).1),
    decreases t.len() - p, 4nat,
{
    lemma_power_code(t, p);
    let (c1, r1) = spec_power(t, p);
    if let Ok(q) = r1 {
        lemma_term_rest_code(t, q);
        lemma_operand_tail(t, p, c1, q, spec_term_rest(t, q).0, spec_term_rest(t, q).1);
    }
}

/// The code of a term tail is tail code.
pub proof fn lemma_term_rest_code(t: Seq<Token>, p: int)
    requires
        0 <= p <= t.len(),
    ensures
        tail_code(t, p, spec_term_rest(t, p).0, spec_term_rest(t, p).1),
    decreases t.len() - p, 3nat,
{
    if 0 <= p < t.len() && multiplicative_step(token_at(t, p)) is Some {
        lemma_power_code(t, p + 1);
        let (c1, r1) = spec_power(t, p + 1);
        if let Ok(q) = r1 {
            lemma_term_rest_code(t, q);
            lemma_binary_tail(
                t,
                p,
                c1,
                q,
                multiplicative_step(token_at(t, p)).unwrap(),
                spec_term_rest(t, q).0,
                spec_term_rest(t, q).1,
            );
        } else {
            lemma_runs_mono(c1, 0, 1);
        }
    }
}

/// The code of a power is operand code.
pub proof fn lemma_power_code(t: Seq<Token>, p: int)
    requires
        0 <= p <= t.len(),
    ensures
        operand_code(t, p, spec_power(t, p).0, spec_power(t, p).1),
    decreases t.len() - p, 2nat,
{
    lemma_unary_code(t, p);
    let (c1, r1) = spec_unary(t, p);
    if let Ok(q) = r1 {
        if p < q && token_at(t, q) == Some(Token::Symbol(crate::lexer::Symbol::Caret)) {
            lemma_power_code(t, q + 1);
            let (c2, r2) = spec_power(t, q + 1);
            lemma_runs_mono(c2, 0, 1);
            lemma_runs_append(c1, c2, 0);
            lemma_pushes_append(c1, c2, t);
            if r2 is Ok {
                let pow = seq![Step::Pow];
                assert(c2.push(Step::Pow) =~= c2 + pow);
                assert(c1 + c2.push(Step::Pow) =~= (c1 + c2) + pow);
                lemma_single_step(Step::Pow, net(c1 + c2));
                lemma_runs_append(c1 + c2, pow, 0);
                lemma_pushes_op(Step::Pow, t);
                lemma_pushes_append(c1 + c2, pow, t);
            }
        }
    }
}

/// The code of a unary expression is operand code.
pub proof fn lemma_unary_code(t: Seq<Token>, p: int)
    requires
        0 <= p <= t.len(),
    ensures
        operand_code(t, p, spec_unary(t, p).0, spec_unary(t, p).1),
    decreases t.len() - p, 1nat,
{
    match token_at(t, p) {
        Some(Token::Symbol(crate::lexer::Symbol::Minus)) => {
            lemma_unary_code(t, p + 1);
            let (c, r) = spec_unary(t, p + 1);
            if r is Ok {
                let neg = seq![Step::Neg];
                assert(c.push(Step::Neg) =~= c + neg);
                lemma_single_step(Step::Neg, net(c));
                lemma_runs_append(c, neg, 0);
                lemma_pushes_op(Step::Neg, t);
                lemma_pushes_append(c, neg, t);
            }
        },
        Some(Token::Symbol(crate::lexer::Symbol::Plus)) => {
            lemma_unary_code(t, p + 1);
        },
        _ => {
            lemma_primary_code(t, p);
        },
    }
}

/// The code of a primary expression is operand code.
pub proof fn lemma_primary_code(t: Seq<Token>, p: int)
    requires
        0 <= p <= t.len(),
    ensures
        operand_code(t, p, spec_primary(t, p).0, spec_primary(t, p).1),
    decreases t.len() - p, 0nat,
{
    match token_at(t, p) {
        None => {},
        Some(Token::Number(s, e)) => {
            let c = seq![Step::Push(s, e)];
            lemma_single_step(Step::Push(s, e), 0);
            assert(t[p] == Token::Number(s, e));
            assert(t.contains(Token::Number(s, e)));
        },
        Some(Token::Symbol(crate::lexer::Symbol::LParen)) => {
            lemma_expr_code(t, p + 1);
        },
        Some(Token::Symbol(_)) => {},
    }
}

/// Every compiled program is well formed: it runs on an empty stack without
/// lacking operands, leaves exactly one value unless a syntax error halts it,
/// and pushes only spans of the input that are decimal numbers.
pub proof fn lemma_compiled_well_formed(cs: Seq<char>)
    requires
        cs.len() <= usize::MAX,
    ensures
        compiled(cs) matches Compiled::Program(steps, halt) ==> program_well_formed(cs, steps, halt),
{
    if let Ok(t) = lex(cs) {
        if t.len() > 0 {
            lemma_lex_well_placed(cs, 0);
            lemma_expr_code(t, 0);
            let steps = spec_expr(t, 0).0;
            assert forall|i: int| 0 <= i < steps.len() implies match #[trigger] steps[i] {
                Step::Push(s, e) => s < e <= cs.len() && valid_number(
                    cs.subrange(s as int, e as int),
                ),
                _ => true,
            } by {
                if let Step::Push(s, e) = steps[i] {
                    assert(t.contains(Token::Number(s, e)));
                    let k = choose|k: int| 0 <= k < t.len() && t[k] == Token::Number(s, e);
                    assert(tokens_well_placed(cs, t));
                    assert(match t[k] {
                        Token::Number(s2, e2) => s2 < e2 <= cs.len() && valid_number(
                            cs.subrange(s2 as int, e2 as int),
                        ),
                        Token::Symbol(_) => true,
                    });
                }
            }
        }
    }
}

} // verus!
