//! Precedence and associativity, stated over expression trees: writing a tree
//! with only the parentheses that precedence needs and compiling it gives the
//! tree's postfix program back.
use vstd::prelude::*;

use crate::calculator::{compiled, Compiled};
use crate::lexer::{lex, LexError, Symbol, Token};
use crate::parser::{
    additive_step, compile_tokens, multiplicative_step, spec_expr, spec_expr_rest, spec_power,
    spec_primary, spec_term, spec_term_rest, spec_unary, token_at, Step, SyntaxError,
};
use crate::program::{
    lemma_expr_code, lemma_power_code, lemma_term_code, lemma_unary_code,
};

verus! {

/// A binary operator.
#[derive(Debug, Clone, Copy, PartialEq, Eq, Structural)]
pub enum BinOp {
    Add,
    Sub,
    Mul,
    Div,
    Rem,
    Pow,
}

/// An expression tree; a number is the span of its text.
pub enum Expr {
    Num(usize, usize),
    /// Unary minus.
    Neg(Box<Expr>),
    /// Unary plus.
    Pos(Box<Expr>),
    /// Parentheses written around an expression, whether needed or not.
    Paren(Box<Expr>),
    Bin(BinOp, Box<Expr>, Box<Expr>),
}

/// The number of nodes of `e`.
pub open spec fn size(e: Expr) -> nat
    decreases e,
{
    match e {
        Expr::Num(_, _) => 1,
        Expr::Neg(a) => 1 + size(*a),
        Expr::Pos(a) => 1 + size(*a),
        Expr::Paren(a) => 1 + size(*a),
        Expr::Bin(_, a, b) => 1 + size(*a) + size(*b),
    }
}

/// How tightly `e` binds: sums 0, products 1, powers 2, unary minus and plus
/// 3, numbers and parenthesised expressions 4.
pub open spec fn level(e: Expr) -> int {
    match e {
        Expr::Num(_, _) => 4,
        Expr::Paren(_) => 4,
        Expr::Neg(_) => 3,
        Expr::Pos(_) => 3,
        Expr::Bin(BinOp::Pow, _, _) => 2,
        Expr::Bin(BinOp::Add, _, _) => 0,
        Expr::Bin(BinOp::Sub, _, _) => 0,
        Expr::Bin(_, _, _) => 1,
    }
}

/// The symbol of a binary operator.
pub open spec fn op_symbol(op: BinOp) -> Symbol {
    match op {
        BinOp::Add => Symbol::Plus,
        BinOp::Sub => Symbol::Minus,
        BinOp::Mul => Symbol::Star,
        BinOp::Div => Symbol::Slash,
        BinOp::Rem => Symbol::Percent,
        BinOp::Pow => Symbol::Caret,
    }
}

/// The step of a binary operator.
pub open spec fn op_step(op: BinOp) -> Step {
    match op {
        BinOp::Add => Step::Add,
        BinOp::Sub => Step::Sub,
        BinOp::Mul => Step::Mul,
        BinOp::Div => Step::Div,
        BinOp::Rem => Step::Rem,
        BinOp::Pow => Step::Pow,
    }
}

/// The least binding level that a left operand of `op` may have unparenthesised:
/// `+ - * / %` group to the left, and the base of `^` is a unary expression.
pub open spec fn left_level(op: BinOp) -> int {
    match op {
        BinOp::Add => 0,
        BinOp::Sub => 0,
        BinOp::Pow => 3,
        _ => 1,
    }
}

/// The least binding level that a right operand of `op` may have
/// unparenthesised: `^` groups to the right.
pub open spec fn right_level(op: BinOp) -> int {
    match op {
        BinOp::Add => 1,
        BinOp::Sub => 1,
        _ => 2,
    }
}

/// The postfix program of `e`: operands first, then the operation.
pub open spec fn postfix(e: Expr) -> Seq<Step>
    decreases e,
{
    match e {
        Expr::Num(s, en) => seq![Step::Push(s, en)],
        Expr::Neg(a) => postfix(*a).push(Step::Neg),
        Expr::Pos(a) => postfix(*a),
        Expr::Paren(a) => postfix(*a),
        Expr::Bin(op, a, b) => postfix(*a) + postfix(*b) + seq![op_step(op)],
    }
}

/// The tokens of `e` where an expression of level at least `ctx` is expected:
/// parenthesised when `e` binds more loosely.
pub open spec fn render_at(e: Expr, ctx: int) -> Seq<Token>
    decreases size(e), 1nat,
{
    if level(e) < ctx {
        seq![Token::Symbol(Symbol::LParen)] + render_bare(e) + seq![Token::Symbol(Symbol::RParen)]
    } else {
        render_bare(e)
    }
}

/// The tokens of `e` without parentheses around it.
pub open spec fn render_bare(e: Expr) -> Seq<Token>
    decreases size(e), 0nat,
{
    match e {
        Expr::Num(s, en) => seq![Token::Number(s, en)],
        Expr::Neg(a) => seq![Token::Symbol(Symbol::Minus)] + render_at(*a, 3),
        Expr::Pos(a) => seq![Token::Symbol(Symbol::Plus)] + render_at(*a, 3),
        Expr::Paren(a) => seq![Token::Symbol(Symbol::LParen)] + render_at(*a, 0) + seq![
            Token::Symbol(Symbol::RParen),
        ],
        Expr::Bin(op, a, b) => render_at(*a, left_level(op)) + seq![Token::Symbol(op_symbol(op))]
            + render_at(*b, right_level(op)),
    }
}

/// The tokens `r` stand in `t` from position `p` on.
pub open spec fn occurs_at(t: Seq<Token>, p: int, r: Seq<Token>) -> bool {
    &&& 0 <= p
    &&& p + r.len() <= t.len()
    &&& forall|i: int| 0 <= i < r.len() ==> #[trigger] t[p + i] == r[i]
}

/// Parts of a concatenation stand where the concatenation stands.
proof fn lemma_occurs_split(t: Seq<Token>, p: int, a: Seq<Token>, b: Seq<Token>)
    requires
        occurs_at(t, p, a + b),
    ensures
        occurs_at(t, p, a),
        occurs_at(t, p + a.len(), b),
{
    assert forall|i: int| 0 <= i < a.len() implies #[trigger] t[p + i] == a[i] by {
        assert(t[p + i] == (a + b)[i]);
    }
    assert forall|i: int| 0 <= i < b.len() implies #[trigger] t[p + a.len() + i] == b[i] by {
        assert(t[p + (a.len() + i)] == (a + b)[a.len() + i]);
    }
}

/// A rendering holds at least one token.
proof fn lemma_render_nonempty(e: Expr, ctx: int)
    ensures
        render_at(e, ctx).len() >= 1,
        render_bare(e).len() >= 1,
{
}

/// The order in which the lemmas below may call each other on the same tree:
/// `f` numbers the nonterminal (expression 0, term 1, power 2, unary 3,
/// primary 4) and `l` is the tree's level.
pub open spec fn rank(f: int, l: int) -> nat {
    (5 - ((f - l - 1) % 5)) as nat
}

/// A tree written at level 4 (a number, or parenthesised) parses as a primary
/// into its postfix program.
proof fn lemma_primary(e: Expr, t: Seq<Token>, p: int)
    requires
        occurs_at(t, p, render_at(e, 4)),
    ensures
        spec_primary(t, p) == (postfix(e), Ok::<int, crate::parser::SyntaxError>(p + render_at(e, 4).len())),
    decreases size(e), rank(4, level(e)),
{
    let r = render_at(e, 4);
    if let Expr::Num(s, en) = e {
        assert(t[p + 0] == r[0]);
    } else {
        let inner_tree = match e {
            Expr::Paren(a) => *a,
            _ => e,
        };
        let inner = render_at(inner_tree, 0);
        let open = seq![Token::Symbol(Symbol::LParen)];
        let close = seq![Token::Symbol(Symbol::RParen)];
        assert(r == open + inner + close);
        lemma_occurs_split(t, p, open + inner, close);
        lemma_occurs_split(t, p, open, inner);
        assert(t[p + 0] == open[0]);
        assert(t[p + 1 + inner.len() + 0] == close[0]);
        lemma_render_nonempty(inner_tree, 0);
        lemma_expr(inner_tree, t, p + 1);
        let q = p + 1 + inner.len();
        assert(token_at(t, q) == Some(Token::Symbol(Symbol::RParen)));
        assert(spec_expr_rest(t, q) == (Seq::<Step>::empty(), Ok::<int, crate::parser::SyntaxError>(q)));
        assert(postfix(inner_tree) + Seq::<Step>::empty() =~= postfix(e));
    }
}

/// A tree written at level 3 parses as a unary expression into its postfix program.
proof fn lemma_unary(e: Expr, t: Seq<Token>, p: int)
    requires
        occurs_at(t, p, render_at(e, 3)),
    ensures
        spec_unary(t, p) == (postfix(e), Ok::<int, crate::parser::SyntaxError>(p + render_at(e, 3).len())),
    decreases size(e), rank(3, level(e)),
{
    let r = render_at(e, 3);
    if let Expr::Neg(a) = e {
        let minus = seq![Token::Symbol(Symbol::Minus)];
        assert(r == minus + render_at(*a, 3));
        lemma_occurs_split(t, p, minus, render_at(*a, 3));
        assert(t[p + 0] == minus[0]);
        lemma_unary(*a, t, p + 1);
    } else if let Expr::Pos(a) = e {
        let plus = seq![Token::Symbol(Symbol::Plus)];
        assert(r == plus + render_at(*a, 3));
        lemma_occurs_split(t, p, plus, render_at(*a, 3));
        assert(t[p + 0] == plus[0]);
        lemma_unary(*a, t, p + 1);
    } else {
        assert(render_at(e, 3) == render_at(e, 4));
        lemma_primary(e, t, p);
        assert(token_at(t, p) == Some(r[0])) by {
            lemma_render_nonempty(e, 3);
            assert(t[p + 0] == r[0]);
        }
    }
}

/// A tree written at level 2, not followed by `^`, parses as a power into its
/// postfix program.
proof fn lemma_power(e: Expr, t: Seq<Token>, p: int)
    requires
        occurs_at(t, p, render_at(e, 2)),
        token_at(t, p + render_at(e, 2).len()) != Some(Token::Symbol(Symbol::Caret)),
    ensures
        spec_power(t, p) == (postfix(e), Ok::<int, crate::parser::SyntaxError>(p + render_at(e, 2).len())),
    decreases size(e), rank(2, level(e)),
{
    let r = render_at(e, 2);
    if let Expr::Bin(BinOp::Pow, a, b) = e {
        let ra = render_at(*a, 3);
        let rb = render_at(*b, 2);
        let caret = seq![Token::Symbol(Symbol::Caret)];
        assert(r == ra + caret + rb);
        lemma_occurs_split(t, p, ra + caret, rb);
        lemma_occurs_split(t, p, ra, caret);
        assert(t[p + ra.len() + 0] == caret[0]);
        lemma_render_nonempty(*a, 3);
        lemma_unary(*a, t, p);
        lemma_power(*b, t, p + ra.len() + 1);
        assert(postfix(*a) + postfix(*b).push(Step::Pow) =~= postfix(e));
    } else {
        assert(render_at(e, 2) == render_at(e, 3));
        lemma_unary(e, t, p);
    }
}

/// A tree written at level 1, not followed by `^`, parses as a term into its
/// postfix program followed by whatever operator tail comes after it.
proof fn lemma_term(e: Expr, t: Seq<Token>, p: int)
    requires
        occurs_at(t, p, render_at(e, 1)),
        token_at(t, p + render_at(e, 1).len()) != Some(Token::Symbol(Symbol::Caret)),
    ensures
        ({
            let rest = spec_term_rest(t, p + render_at(e, 1).len());
            spec_term(t, p) == (postfix(e) + rest.0, rest.1)
        }),
    decreases size(e), rank(1, level(e)),
{
    let r = render_at(e, 1);
    let n = r.len();
    lemma_render_nonempty(e, 1);
    if level(e) == 1 {
        let (op, a, b) = match e {
            Expr::Bin(op, a, b) => (op, a, b),
            _ => arbitrary(),
        };
        let ra = render_at(*a, 1);
        let rb = render_at(*b, 2);
        let sym = seq![Token::Symbol(op_symbol(op))];
        assert(r == ra + sym + rb);
        lemma_occurs_split(t, p, ra + sym, rb);
        lemma_occurs_split(t, p, ra, sym);
        assert(t[p + ra.len() + 0] == sym[0]);
        lemma_render_nonempty(*a, 1);
        lemma_render_nonempty(*b, 2);
        lemma_term(*a, t, p);
        lemma_power(*b, t, p + ra.len() + 1);
        let rest = spec_term_rest(t, p + n);
        assert(postfix(*a) + (postfix(*b) + seq![op_step(op)] + rest.0) =~= postfix(e) + rest.0);
    } else {
        assert(render_at(e, 1) == render_at(e, 2));
        lemma_power(e, t, p);
    }
}

/// A tree written at level 0, followed by neither `^` nor a multiplicative
/// operator, parses as an expression into its postfix program followed by
/// whatever operator tail comes after it.
proof fn lemma_expr(e: Expr, t: Seq<Token>, p: int)
    requires
        occurs_at(t, p, render_at(e, 0)),
        token_at(t, p + render_at(e, 0).len()) != Some(Token::Symbol(Symbol::Caret)),
        token_at(t, p + render_at(e, 0).len()) != Some(Token::Symbol(Symbol::Star)),
        token_at(t, p + render_at(e, 0).len()) != Some(Token::Symbol(Symbol::Slash)),
        token_at(t, p + render_at(e, 0).len()) != Some(Token::Symbol(Symbol::Percent)),
    ensures
        ({
            let rest = spec_expr_rest(t, p + render_at(e, 0).len());
            spec_expr(t, p) == (postfix(e) + rest.0, rest.1)
        }),
    decreases size(e), rank(0, level(e)),
{
    let r = render_at(e, 0);
    let n = r.len();
    lemma_render_nonempty(e, 0);
    if level(e) == 0 {
        let (op, a, b) = match e {
            Expr::Bin(op, a, b) => (op, a, b),
            _ => arbitrary(),
        };
        let ra = render_at(*a, 0);
        let rb = render_at(*b, 1);
        let sym = seq![Token::Symbol(op_symbol(op))];
        assert(r == ra + sym + rb);
        lemma_occurs_split(t, p, ra + sym, rb);
        lemma_occurs_split(t, p, ra, sym);
        assert(t[p + ra.len() + 0] == sym[0]);
        lemma_render_nonempty(*a, 0);
        lemma_render_nonempty(*b, 1);
        lemma_expr(*a, t, p);
        lemma_term(*b, t, p + ra.len() + 1);
        let q = p + n;
        assert(spec_term_rest(t, q) == (Seq::<Step>::empty(), Ok::<int, crate::parser::SyntaxError>(q)));
        assert(postfix(*b) + Seq::<Step>::empty() =~= postfix(*b));
        let rest = spec_expr_rest(t, q);
        assert(postfix(*a) + (postfix(*b) + seq![op_step(op)] + rest.0) =~= postfix(e) + rest.0);
    } else {
        assert(render_at(e, 0) == render_at(e, 1));
        lemma_term(e, t, p);
        let q = p + n;
        assert(spec_term_rest(t, q) == (Seq::<Step>::empty(), Ok::<int, crate::parser::SyntaxError>(q)));
        assert(postfix(e) + Seq::<Step>::empty() =~= postfix(e));
    }
}

/// Precedence and associativity: an expression tree written with the
/// parentheses that precedence requires (and any others that the tree holds)
/// compiles to its postfix program with no error. So `*`, `/`, `%` bind tighter
/// than `+`, `-`; `^` binds tighter still and groups to the right; unary minus
/// and plus apply to the base of a power; `+ - * / %` group to the left; unary
/// plus and redundant parentheses change nothing.
pub proof fn lemma_render_compiles(e: Expr)
    ensures
        compile_tokens(render_at(e, 0)) == (postfix(e), None::<crate::parser::SyntaxError>),
{
    let t = render_at(e, 0);
    assert(occurs_at(t, 0, t));
    lemma_expr(e, t, 0);
    assert(spec_expr_rest(t, t.len() as int) == (Seq::<Step>::empty(), Ok::<int, crate::parser::SyntaxError>(t.len() as int)));
    assert(postfix(e) + Seq::<Step>::empty() =~= postfix(e));
}

/// A token, or the end of the tokens, that no operand continues with: neither
/// an additive nor a multiplicative operator, nor `^`.
pub open spec fn ends_operand(t: Option<Token>) -> bool {
    &&& additive_step(t) is None
    &&& multiplicative_step(t) is None
    &&& t != Some(Token::Symbol(Symbol::Caret))
}

/// `t2` holds all of `t1` from position `off` on, followed by a token (or the
/// end) that ends every operand.
pub open spec fn embeds(t1: Seq<Token>, t2: Seq<Token>, off: int) -> bool {
    &&& 0 <= off
    &&& off + t1.len() <= t2.len()
    &&& forall|k: int| 0 <= k < t1.len() ==> #[trigger] t2[off + k] == t1[k]
    &&& ends_operand(token_at(t2, off + t1.len()))
}

/// Inside the embedded part, `t2` reads what `t1` reads.
proof fn lemma_embedded_token(t1: Seq<Token>, t2: Seq<Token>, off: int, p: int)
    requires
        embeds(t1, t2, off),
        0 <= p < t1.len(),
    ensures
        token_at(t2, p + off) == token_at(t1, p),
{
    assert(t2[off + p] == t1[p]);
}

/// A successful parse of an expression of `t1` is the same parse in `t2`, moved.
pub proof fn lemma_embedded_expr(t1: Seq<Token>, t2: Seq<Token>, off: int, p: int)
    requires
        embeds(t1, t2, off),
        0 <= p <= t1.len(),
        spec_expr(t1, p).1 is Ok,
    ensures
        spec_expr(t2, p + off) == (spec_expr(t1, p).0, Ok::<int, SyntaxError>(spec_expr(t1, p).1->Ok_0 + off)),
    decreases t1.len() - p, 6nat,
{
    lemma_term_code(t1, p);
    let (c1, r1) = spec_term(t1, p);
    let q1 = r1->Ok_0;
    lemma_embedded_term(t1, t2, off, p);
    lemma_embedded_expr_rest(t1, t2, off, q1);
}

/// A successful parse of an expression tail of `t1` is the same parse in `t2`, moved.
proof fn lemma_embedded_expr_rest(t1: Seq<Token>, t2: Seq<Token>, off: int, p: int)
    requires
        embeds(t1, t2, off),
        0 <= p <= t1.len(),
        spec_expr_rest(t1, p).1 is Ok,
    ensures
        spec_expr_rest(t2, p + off) == (spec_expr_rest(t1, p).0, Ok::<int, SyntaxError>(
            spec_expr_rest(t1, p).1->Ok_0 + off,
        )),
    decreases t1.len() - p, 5nat,
{
    if p < t1.len() {
        lemma_embedded_token(t1, t2, off, p);
    }
    if 0 <= p < t1.len() && additive_step(token_at(t1, p)) is Some {
        lemma_term_code(t1, p + 1);
        let (c1, r1) = spec_term(t1, p + 1);
        let q1 = r1->Ok_0;
        lemma_embedded_term(t1, t2, off, p + 1);
        lemma_embedded_expr_rest(t1, t2, off, q1);
    }
}

/// A successful parse of a term of `t1` is the same parse in `t2`, moved.
proof fn lemma_embedded_term(t1: Seq<Token>, t2: Seq<Token>, off: int, p: int)
    requires
        embeds(t1, t2, off),
        0 <= p <= t1.len(),
        spec_term(t1, p).1 is Ok,
    ensures
        spec_term(t2, p + off) == (spec_term(t1, p).0, Ok::<int, SyntaxError>(spec_term(t1, p).1->Ok_0 + off)),
    decreases t1.len() - p, 4nat,
{
    lemma_power_code(t1, p);
    let (c1, r1) = spec_power(t1, p);
    let q1 = r1->Ok_0;
    lemma_embedded_power(t1, t2, off, p);
    lemma_embedded_term_rest(t1, t2, off, q1);
}

/// A successful parse of a term tail of `t1` is the same parse in `t2`, moved.
proof fn lemma_embedded_term_rest(t1: Seq<Token>, t2: Seq<Token>, off: int, p: int)
    requires
        embeds(t1, t2, off),
        0 <= p <= t1.len(),
        spec_term_rest(t1, p).1 is Ok,
    ensures
        spec_term_rest(t2, p + off) == (spec_term_rest(t1, p).0, Ok::<int, SyntaxError>(
            spec_term_rest(t1, p).1->Ok_0 + off,
        )),
    decreases t1.len() - p, 3nat,
{
    if p < t1.len() {
        lemma_embedded_token(t1, t2, off, p);
    }
    if 0 <= p < t1.len() && multiplicative_step(token_at(t1, p)) is Some {
        lemma_power_code(t1, p + 1);
        let (c1, r1) = spec_power(t1, p + 1);
        let q1 = r1->Ok_0;
        lemma_embedded_power(t1, t2, off, p + 1);
        lemma_embedded_term_rest(t1, t2, off, q1);
    }
}

/// A successful parse of a power of `t1` is the same parse in `t2`, moved.
proof fn lemma_embedded_power(t1: Seq<Token>, t2: Seq<Token>, off: int, p: int)
    requires
        embeds(t1, t2, off),
        0 <= p <= t1.len(),
        spec_power(t1, p).1 is Ok,
    ensures
        spec_power(t2, p + off) == (spec_power(t1, p).0, Ok::<int, SyntaxError>(spec_power(t1, p).1->Ok_0 + off)),
    decreases t1.len() - p, 2nat,
{
    lemma_unary_code(t1, p);
    let (c1, r1) = spec_unary(t1, p);
    let q1 = r1->Ok_0;
    lemma_embedded_unary(t1, t2, off, p);
    if q1 < t1.len() {
        lemma_embedded_token(t1, t2, off, q1);
    }
    if p < q1 && token_at(t1, q1) == Some(Token::Symbol(Symbol::Caret)) {
        lemma_embedded_power(t1, t2, off, q1 + 1);
    }
}

/// A successful parse of a unary expression of `t1` is the same parse in `t2`, moved.
proof fn lemma_embedded_unary(t1: Seq<Token>, t2: Seq<Token>, off: int, p: int)
    requires
        embeds(t1, t2, off),
        0 <= p <= t1.len(),
        spec_unary(t1, p).1 is Ok,
    ensures
        spec_unary(t2, p + off) == (spec_unary(t1, p).0, Ok::<int, SyntaxError>(spec_unary(t1, p).1->Ok_0 + off)),
    decreases t1.len() - p, 1nat,
{
    if p < t1.len() {
        lemma_embedded_token(t1, t2, off, p);
        match token_at(t1, p) {
            Some(Token::Symbol(Symbol::Minus)) => {
                lemma_embedded_unary(t1, t2, off, p + 1);
            },
            Some(Token::Symbol(Symbol::Plus)) => {
                lemma_embedded_unary(t1, t2, off, p + 1);
            },
            _ => {
                lemma_embedded_primary(t1, t2, off, p);
            },
        }
    } else {
        assert(token_at(t1, p) is None);
        assert(spec_primary(t1, p).1 is Err);
    }
}

/// A successful parse of a primary expression of `t1` is the same parse in `t2`, moved.
proof fn lemma_embedded_primary(t1: Seq<Token>, t2: Seq<Token>, off: int, p: int)
    requires
        embeds(t1, t2, off),
        0 <= p <= t1.len(),
        spec_primary(t1, p).1 is Ok,
    ensures
        spec_primary(t2, p + off) == (spec_primary(t1, p).0, Ok::<int, SyntaxError>(
            spec_primary(t1, p).1->Ok_0 + off,
        )),
    decreases t1.len() - p, 0nat,
{
    lemma_embedded_token(t1, t2, off, p);
    if token_at(t1, p) == Some(Token::Symbol(Symbol::LParen)) {
        lemma_expr_code(t1, p + 1);
        let q = spec_expr(t1, p + 1).1->Ok_0;
        lemma_embedded_expr(t1, t2, off, p + 1);
        lemma_embedded_token(t1, t2, off, q);
    }
}

/// Parenthesising a complete expression keeps its program, whatever follows:
/// when `ts` compiles without error, `( ts ) rest` starts with a primary
/// expression that spans `ts` and both parentheses and has the same steps.
pub proof fn lemma_parenthesised_expression(ts: Seq<Token>, rest: Seq<Token>)
    requires
        compile_tokens(ts).1 is None,
    ensures
        ({
            let t2 = seq![Token::Symbol(Symbol::LParen)] + ts + seq![Token::Symbol(Symbol::RParen)]
                + rest;
            spec_primary(t2, 0) == (compile_tokens(ts).0, Ok::<int, SyntaxError>(ts.len() + 2int))
        }),
{
    let t2 = seq![Token::Symbol(Symbol::LParen)] + ts + seq![Token::Symbol(Symbol::RParen)] + rest;
    assert forall|k: int| 0 <= k < ts.len() implies #[trigger] t2[1 + k] == ts[k] by {
        assert(t2[1 + k] == (seq![Token::Symbol(Symbol::LParen)] + ts)[1 + k]);
    }
    assert(t2[1 + ts.len() as int] == Token::Symbol(Symbol::RParen));
    assert(t2[0] == Token::Symbol(Symbol::LParen));
    assert(embeds(ts, t2, 1));
    lemma_embedded_expr(ts, t2, 1, 0);
}

/// Compiling characters that tokenize as a written expression tree gives the
/// tree's postfix program, with no error, however long the expression; input
/// without tokens is the empty expression.
pub proof fn lemma_compile_written_tree(cs: Seq<char>, e: Expr)
    ensures
        lex(cs) == Ok::<Seq<Token>, LexError>(render_at(e, 0)) ==> compiled(cs) == Compiled::Program(
            postfix(e),
            None,
        ),
        lex(cs) == Ok::<Seq<Token>, LexError>(Seq::<Token>::empty()) ==> compiled(cs) == Compiled::Empty,
{
    lemma_render_nonempty(e, 0);
    lemma_render_compiles(e);
}

/// A complete expression followed by more tokens that no operand continues
/// with (a number, a parenthesis) is trailing input: its program runs, then
/// the error follows.
pub proof fn lemma_trailing_tokens(e: Expr, rest: Seq<Token>)
    requires
        rest.len() > 0,
        ends_operand(Some(rest[0])),
    ensures
        compile_tokens(render_at(e, 0) + rest) == (postfix(e), Some(SyntaxError::TrailingInput)),
{
    let t1 = render_at(e, 0);
    let t2 = t1 + rest;
    lemma_render_compiles(e);
    assert forall|k: int| 0 <= k < t1.len() implies #[trigger] t2[0 + k] == t1[k] by {}
    assert(t2[t1.len() as int] == rest[0]);
    assert(embeds(t1, t2, 0));
    lemma_embedded_expr(t1, t2, 0, 0);
}

/// A complete expression followed by a dangling `+` or `-` is incomplete: its
/// program runs, then the error of the missing operand follows.
pub proof fn lemma_dangling_operator(e: Expr, op: BinOp)
    requires
        op == BinOp::Add || op == BinOp::Sub,
    ensures
        compile_tokens(render_at(e, 0) + seq![Token::Symbol(op_symbol(op))]) == (postfix(e), Some(
            SyntaxError::UnexpectedEnd,
        )),
{
    let r = render_at(e, 0);
    let t = r + seq![Token::Symbol(op_symbol(op))];
    let n = r.len() as int;
    assert forall|i: int| 0 <= i < r.len() implies #[trigger] t[0 + i] == r[i] by {}
    assert(t[n] == Token::Symbol(op_symbol(op)));
    lemma_expr(e, t, 0);
    assert(token_at(t, n + 1) is None);
    assert(spec_primary(t, n + 1) == (Seq::<Step>::empty(), Err::<int, SyntaxError>(SyntaxError::UnexpectedEnd)));
    assert(spec_unary(t, n + 1) == spec_primary(t, n + 1));
    assert(spec_power(t, n + 1) == spec_primary(t, n + 1));
    assert(spec_term(t, n + 1) == spec_primary(t, n + 1));
    assert(spec_expr_rest(t, n) == (Seq::<Step>::empty(), Err::<int, SyntaxError>(SyntaxError::UnexpectedEnd)));
    assert(postfix(e) + Seq::<Step>::empty() =~= postfix(e));
}

/// An expression opened with `(` and never closed stops at the missing `)`
/// once its program has run.
pub proof fn lemma_unclosed_parenthesis(e: Expr)
    ensures
        compile_tokens(seq![Token::Symbol(Symbol::LParen)] + render_at(e, 0)) == (postfix(e), Some(
            SyntaxError::ExpectedRParen,
        )),
{
    let t1 = render_at(e, 0);
    let t2 = seq![Token::Symbol(Symbol::LParen)] + t1;
    lemma_render_compiles(e);
    assert forall|k: int| 0 <= k < t1.len() implies #[trigger] t2[1 + k] == t1[k] by {}
    assert(embeds(t1, t2, 1));
    lemma_embedded_expr(t1, t2, 1, 0);
    let q = t1.len() + 1int;
    assert(t2[0] == Token::Symbol(Symbol::LParen));
    assert(token_at(t2, q) is None);
    let c = postfix(e);
    assert(spec_primary(t2, 0) == (c, Err::<int, SyntaxError>(SyntaxError::ExpectedRParen)));
    assert(spec_unary(t2, 0) == spec_primary(t2, 0));
    assert(spec_power(t2, 0) == spec_primary(t2, 0));
    assert(spec_term(t2, 0) == spec_primary(t2, 0));
    assert(spec_expr(t2, 0) == spec_primary(t2, 0));
}

} // verus!
