use super::ast::expressions::{ExpressionView, InfixOp};
use super::ast::Precedence;
use super::error::ErrorView;
use super::grammar::{advance, expression, infix, infix_operator, peek, suffixes};
use crate::lexer::token::TokenView;
use vstd::prelude::*;

verus! {

/// The tokens of `a o1 b o2 c`, where `a`, `b` and `c` are identifiers.
pub open spec fn chain(a: Seq<char>, o1: TokenView, b: Seq<char>, o2: TokenView, c: Seq<char>) -> Seq<
    TokenView,
> {
    seq![TokenView::Ident(a), o1, TokenView::Ident(b), o2, TokenView::Ident(c)]
}

/// The application of a binary operator to two expressions.
pub open spec fn apply(left: ExpressionView, op: InfixOp, right: ExpressionView) -> ExpressionView {
    ExpressionView::Infix(Box::new(left), op, Box::new(right))
}

/// Every binary operator binds tighter than `Lowest` and looser than
/// `Prefix`.
pub proof fn lemma_operator_levels(t: TokenView)
    requires
        infix_operator(t) is Some,
    ensures
        Precedence::Lowest.rank() < Precedence::of(t).rank() < Precedence::Prefix.rank(),
        t != TokenView::Semicolon,
        t != TokenView::LParen,
        t != TokenView::LSquare,
{
}

/// An identifier that nothing follows is an expression at every level.
proof fn lemma_last_operand(ts: Seq<TokenView>, name: Seq<char>, p: Precedence)
    requires
        ts == seq![TokenView::Ident(name)],
    ensures
        expression(ts, p) == (Ok::<ExpressionView, ErrorView>(ExpressionView::Identifier(name)), ts),
{
    assert(peek(ts) is None);
    assert(suffixes(ExpressionView::Identifier(name), ts, p) == (
        Ok::<ExpressionView, ErrorView>(ExpressionView::Identifier(name)),
        ts,
    ));
}

/// Operator precedence: where the second of two binary operators binds
/// tighter than the first, `a o1 b o2 c` parses as `a o1 (b o2 c)`.
pub proof fn lemma_tighter_operator_binds_first(
    a: Seq<char>,
    o1: TokenView,
    b: Seq<char>,
    o2: TokenView,
    c: Seq<char>,
)
    requires
        infix_operator(o1) is Some,
        infix_operator(o2) is Some,
        Precedence::of(o1).rank() < Precedence::of(o2).rank(),
    ensures
        expression(chain(a, o1, b, o2, c), Precedence::Lowest).0 == Ok::<
            ExpressionView,
            ErrorView,
        >(
            apply(
                ExpressionView::Identifier(a),
                infix_operator(o1)->0,
                apply(
                    ExpressionView::Identifier(b),
                    infix_operator(o2)->0,
                    ExpressionView::Identifier(c),
                ),
            ),
        ),
{
    let ts = chain(a, o1, b, o2, c);
    let first_level = Precedence::of(o1);
    let second_level = Precedence::of(o2);
    let op1 = infix_operator(o1)->0;
    let op2 = infix_operator(o2)->0;
    let ea = ExpressionView::Identifier(a);
    let eb = ExpressionView::Identifier(b);
    let ec = ExpressionView::Identifier(c);
    lemma_operator_levels(o1);
    lemma_operator_levels(o2);
    let t1 = advance(ts);
    let t2 = advance(t1);
    let t3 = advance(t2);
    let t4 = advance(t3);
    assert(t1 =~= seq![o1, TokenView::Ident(b), o2, TokenView::Ident(c)]);
    assert(t2 =~= seq![TokenView::Ident(b), o2, TokenView::Ident(c)]);
    assert(t3 =~= seq![o2, TokenView::Ident(c)]);
    assert(t4 =~= seq![TokenView::Ident(c)]);
    // The right operand of the second operator.
    lemma_last_operand(t4, c, second_level);
    assert(infix(eb, t3, second_level) == (Ok::<ExpressionView, ErrorView>(apply(eb, op2, ec)), t4));
    // The right operand of the first operator takes the second operator in.
    assert(peek(t4) is None);
    assert(suffixes(apply(eb, op2, ec), t4, first_level) == (
        Ok::<ExpressionView, ErrorView>(apply(eb, op2, ec)),
        t4,
    ));
    assert(peek(t2) == Some(o2));
    assert(suffixes(eb, t2, first_level) == (Ok::<ExpressionView, ErrorView>(apply(eb, op2, ec)), t4));
    assert(expression(t2, first_level) == (Ok::<ExpressionView, ErrorView>(apply(eb, op2, ec)), t4));
    assert(infix(ea, t1, first_level) == (
        Ok::<ExpressionView, ErrorView>(apply(ea, op1, apply(eb, op2, ec))),
        t4,
    ));
    // Nothing is left to extend the whole.
    assert(suffixes(apply(ea, op1, apply(eb, op2, ec)), t4, Precedence::Lowest) == (
        Ok::<ExpressionView, ErrorView>(apply(ea, op1, apply(eb, op2, ec))),
        t4,
    ));
    assert(peek(ts) == Some(o1));
    assert(suffixes(ea, ts, Precedence::Lowest) == (
        Ok::<ExpressionView, ErrorView>(apply(ea, op1, apply(eb, op2, ec))),
        t4,
    ));
}

/// Left associativity: where the second of two binary operators binds no
/// tighter than the first, and so where the two bind alike, `a o1 b o2 c`
/// parses as `(a o1 b) o2 c`.
pub proof fn lemma_operators_associate_left(
    a: Seq<char>,
    o1: TokenView,
    b: Seq<char>,
    o2: TokenView,
    c: Seq<char>,
)
    requires
        infix_operator(o1) is Some,
        infix_operator(o2) is Some,
        Precedence::of(o2).rank() <= Precedence::of(o1).rank(),
    ensures
        expression(chain(a, o1, b, o2, c), Precedence::Lowest).0 == Ok::<
            ExpressionView,
            ErrorView,
        >(
            apply(
                apply(
                    ExpressionView::Identifier(a),
                    infix_operator(o1)->0,
                    ExpressionView::Identifier(b),
                ),
                infix_operator(o2)->0,
                ExpressionView::Identifier(c),
            ),
        ),
{
    let ts = chain(a, o1, b, o2, c);
    let first_level = Precedence::of(o1);
    let second_level = Precedence::of(o2);
    let op1 = infix_operator(o1)->0;
    let op2 = infix_operator(o2)->0;
    let ea = ExpressionView::Identifier(a);
    let eb = ExpressionView::Identifier(b);
    let ec = ExpressionView::Identifier(c);
    lemma_operator_levels(o1);
    lemma_operator_levels(o2);
    let t1 = advance(ts);
    let t2 = advance(t1);
    let t3 = advance(t2);
    let t4 = advance(t3);
    assert(t1 =~= seq![o1, TokenView::Ident(b), o2, TokenView::Ident(c)]);
    assert(t2 =~= seq![TokenView::Ident(b), o2, TokenView::Ident(c)]);
    assert(t3 =~= seq![o2, TokenView::Ident(c)]);
    assert(t4 =~= seq![TokenView::Ident(c)]);
    // The right operand of the first operator stops before the second.
    assert(peek(t2) == Some(o2));
    assert(suffixes(eb, t2, first_level) == (Ok::<ExpressionView, ErrorView>(eb), t2));
    assert(expression(t2, first_level) == (Ok::<ExpressionView, ErrorView>(eb), t2));
    assert(infix(ea, t1, first_level) == (Ok::<ExpressionView, ErrorView>(apply(ea, op1, eb)), t2));
    // The second operator then takes the first application for its left
    // operand.
    lemma_last_operand(t4, c, second_level);
    assert(infix(apply(ea, op1, eb), t3, second_level) == (
        Ok::<ExpressionView, ErrorView>(apply(apply(ea, op1, eb), op2, ec)),
        t4,
    ));
    assert(peek(t4) is None);
    assert(suffixes(apply(apply(ea, op1, eb), op2, ec), t4, Precedence::Lowest) == (
        Ok::<ExpressionView, ErrorView>(apply(apply(ea, op1, eb), op2, ec)),
        t4,
    ));
    assert(suffixes(apply(ea, op1, eb), t2, Precedence::Lowest) == (
        Ok::<ExpressionView, ErrorView>(apply(apply(ea, op1, eb), op2, ec)),
        t4,
    ));
    assert(peek(ts) == Some(o1));
    assert(suffixes(ea, ts, Precedence::Lowest) == (
        Ok::<ExpressionView, ErrorView>(apply(apply(ea, op1, eb), op2, ec)),
        t4,
    ));
}

} // verus!
