use super::ast::expressions::{ExpressionView, InfixOp, PrefixOp};
use super::ast::statements::StatementView;
use super::ast::Precedence;
use super::error::ErrorView;
use crate::lexer::token::TokenView;
use crate::text::integer_value;
use vstd::prelude::*;

verus! {

// The grammar, as functions from the tokens still to be read to what a
// production yields and the tokens left after it.
//
// The first of the tokens is the one under the parser's cursor. A production
// starts with the cursor on its first token and, where it succeeds, leaves
// the cursor on its last token: the caller moves on.
//
// Where one production continues on what another has left, it first tests
// that the other has not lengthened the input. The test never fails; it is
// what makes the recursion well-founded.

/// The token under the cursor.
pub open spec fn current(ts: Seq<TokenView>) -> Option<TokenView> {
    if ts.len() > 0 {
        Some(ts[0])
    } else {
        None
    }
}

/// The token after the one under the cursor.
pub open spec fn peek(ts: Seq<TokenView>) -> Option<TokenView> {
    if ts.len() > 1 {
        Some(ts[1])
    } else {
        None
    }
}

/// The tokens after the cursor has moved one token on; at the end of the
/// input it stays where it is.
pub open spec fn advance(ts: Seq<TokenView>) -> Seq<TokenView> {
    if ts.len() > 0 {
        ts.skip(1)
    } else {
        ts
    }
}

/// What it is to require `expected` and read `received`.
pub open spec fn expect(received: Option<TokenView>, expected: TokenView) -> Result<
    (),
    ErrorView,
> {
    match received {
        Some(t) => if t == expected {
            Ok(())
        } else {
            Err(ErrorView::UnexpectedTokenError { expected, received: t })
        },
        None => Err(ErrorView::EOFError),
    }
}

/// The error for a token that cannot start the production asked for.
pub open spec fn cannot_start(received: Option<TokenView>) -> ErrorView {
    match received {
        Some(t) => ErrorView::PrefixTokenError(t),
        None => ErrorView::EOFError,
    }
}

/// The tokens after the semicolons under the cursor.
pub open spec fn skip_semicolons(ts: Seq<TokenView>) -> Seq<TokenView>
    decreases ts.len(),
{
    if ts.len() > 0 && ts[0] == TokenView::Semicolon {
        skip_semicolons(ts.skip(1))
    } else {
        ts
    }
}

pub proof fn lemma_skip_semicolons(ts: Seq<TokenView>)
    ensures
        skip_semicolons(ts).len() <= ts.len(),
        current(skip_semicolons(ts)) != Some(TokenView::Semicolon),
        current(ts) != Some(TokenView::Semicolon) ==> skip_semicolons(ts) == ts,
    decreases ts.len(),
{
    if ts.len() > 0 && ts[0] == TokenView::Semicolon {
        lemma_skip_semicolons(ts.skip(1));
    }
}

/// The binary operator that a token spells.
pub open spec fn infix_operator(t: TokenView) -> Option<InfixOp> {
    match t {
        TokenView::Plus => Some(InfixOp::Plus),
        TokenView::Minus => Some(InfixOp::Minus),
        TokenView::Asterisk => Some(InfixOp::Asterisk),
        TokenView::ForwardSlash => Some(InfixOp::ForwardSlash),
        TokenView::Equal => Some(InfixOp::Equal),
        TokenView::NotEqual => Some(InfixOp::NotEqual),
        TokenView::LessThan => Some(InfixOp::LessThan),
        TokenView::GreaterThan => Some(InfixOp::GreaterThan),
        _ => None,
    }
}

/// The unary operator that a token spells.
pub open spec fn prefix_operator(t: TokenView) -> Option<PrefixOp> {
    match t {
        TokenView::Bang => Some(PrefixOp::Bang),
        TokenView::Minus => Some(PrefixOp::Minus),
        _ => None,
    }
}

/// An identifier: the name under the cursor.
pub open spec fn identifier(ts: Seq<TokenView>) -> (Result<Seq<char>, ErrorView>, Seq<TokenView>) {
    match current(ts) {
        Some(TokenView::Ident(name)) => (Ok(name), ts),
        Some(t) => (
            Err(
                ErrorView::UnexpectedTokenError {
                    expected: TokenView::Ident(Seq::empty()),
                    received: t,
                },
            ),
            ts,
        ),
        None => (Err(ErrorView::EOFError), ts),
    }
}

/// An integer literal: the digits under the cursor, as a 64-bit integer.
pub open spec fn integer(ts: Seq<TokenView>) -> (Result<ExpressionView, ErrorView>, Seq<TokenView>) {
    match current(ts) {
        Some(TokenView::Int(digits)) => (
            match integer_value(digits) {
                Some(v) => Ok(ExpressionView::Integer(v)),
                None => Err(ErrorView::ParseIntError),
            },
            ts,
        ),
        t => (Err(cannot_start(t)), ts),
    }
}

/// A string literal.
pub open spec fn string(ts: Seq<TokenView>) -> (Result<ExpressionView, ErrorView>, Seq<TokenView>) {
    match current(ts) {
        Some(TokenView::Str(s)) => (Ok(ExpressionView::Str(s)), ts),
        t => (Err(cannot_start(t)), ts),
    }
}

/// `true` or `false`.
pub open spec fn boolean(ts: Seq<TokenView>) -> (Result<ExpressionView, ErrorView>, Seq<TokenView>) {
    match current(ts) {
        Some(TokenView::True) => (Ok(ExpressionView::Boolean(true)), ts),
        Some(TokenView::False) => (Ok(ExpressionView::Boolean(false)), ts),
        t => (Err(cannot_start(t)), ts),
    }
}

/// The parameter list of a function literal, with the cursor on its `(`:
/// identifiers separated by commas.
pub open spec fn parameters(ts: Seq<TokenView>) -> (Result<Seq<Seq<char>>, ErrorView>, Seq<
    TokenView,
>) {
    match expect(current(ts), TokenView::LParen) {
        Err(e) => (Err(e), ts),
        Ok(_) => if peek(ts) is None {
            (Err(ErrorView::EOFError), ts)
        } else if peek(ts) == Some(TokenView::RParen) {
            (Ok(Seq::empty()), advance(ts))
        } else {
            more_parameters(ts, Seq::empty())
        },
    }
}

/// The parameters after those in `names`, with the cursor on the token
/// before the next one.
pub open spec fn more_parameters(ts: Seq<TokenView>, names: Seq<Seq<char>>) -> (Result<
    Seq<Seq<char>>,
    ErrorView,
>, Seq<TokenView>)
    decreases ts.len(),
{
    let ts1 = advance(ts);
    match identifier(ts1).0 {
        Err(e) => (Err(e), ts1),
        Ok(name) => match peek(ts1) {
            Some(TokenView::Comma) => more_parameters(advance(ts1), names.push(name)),
            Some(TokenView::RParen) => (Ok(names.push(name)), advance(ts1)),
            t => (
                match expect(t, TokenView::RParen) {
                    Err(e) => Err(e),
                    Ok(_) => Err(ErrorView::Unknown),
                },
                ts1,
            ),
        },
    }
}

/// A statement, after any semicolons before it and with those after it.
pub open spec fn statement(ts: Seq<TokenView>, p: Precedence) -> (Result<
    StatementView,
    ErrorView,
>, Seq<TokenView>)
    decreases ts.len(), 5nat,
{
    let ts1 = skip_semicolons(ts);
    proof {
        lemma_skip_semicolons(ts);
    }
    let (r, rest) = match current(ts1) {
        None => (Ok(StatementView::EOF), ts1),
        Some(TokenView::Let) => let_statement(ts1, p),
        Some(TokenView::Return) => return_statement(ts1, p),
        Some(_) => expression_statement(ts1, p),
    };
    (r, skip_semicolons(rest))
}

/// `let`, an identifier, `=`, an expression.
pub open spec fn let_statement(ts: Seq<TokenView>, p: Precedence) -> (Result<
    StatementView,
    ErrorView,
>, Seq<TokenView>)
    decreases ts.len(), 4nat,
{
    match expect(current(ts), TokenView::Let) {
        Err(e) => (Err(e), ts),
        Ok(_) => {
            let ts1 = advance(ts);
            match identifier(ts1).0 {
                Err(e) => (Err(e), ts1),
                Ok(name) => match expect(peek(ts1), TokenView::Assign) {
                    Err(e) => (Err(e), ts1),
                    Ok(_) => {
                        let (value, rest) = expression(advance(advance(ts1)), p);
                        match value {
                            Err(e) => (Err(e), rest),
                            Ok(v) => (Ok(StatementView::Let(name, v)), advance(rest)),
                        }
                    },
                },
            }
        },
    }
}

/// `return` and an expression.
pub open spec fn return_statement(ts: Seq<TokenView>, p: Precedence) -> (Result<
    StatementView,
    ErrorView,
>, Seq<TokenView>)
    decreases ts.len(), 4nat,
{
    match expect(current(ts), TokenView::Return) {
        Err(e) => (Err(e), ts),
        Ok(_) => {
            let (value, rest) = expression(advance(ts), p);
            match value {
                Err(e) => (Err(e), rest),
                Ok(v) => (Ok(StatementView::Return(v)), advance(rest)),
            }
        },
    }
}

/// An expression that stands as a statement.
pub open spec fn expression_statement(ts: Seq<TokenView>, p: Precedence) -> (Result<
    StatementView,
    ErrorView,
>, Seq<TokenView>)
    decreases ts.len(), 4nat,
{
    if current(ts) is None {
        (Err(ErrorView::EOFError), ts)
    } else {
        let (value, rest) = expression(ts, p);
        match value {
            Err(e) => (Err(e), rest),
            Ok(v) => (Ok(StatementView::Expression(v)), advance(rest)),
        }
    }
}

/// An expression whose operators all bind tighter than `p`: a prefix
/// production, then every suffix that binds tighter than `p`.
pub open spec fn expression(ts: Seq<TokenView>, p: Precedence) -> (Result<
    ExpressionView,
    ErrorView,
>, Seq<TokenView>)
    decreases ts.len(), 3nat,
{
    let (first, rest) = match current(ts) {
        None => (Err(ErrorView::EOFError), ts),
        Some(TokenView::Ident(name)) => (Ok(ExpressionView::Identifier(name)), ts),
        Some(TokenView::Int(_)) => integer(ts),
        Some(TokenView::Str(_)) => string(ts),
        Some(TokenView::True) | Some(TokenView::False) => boolean(ts),
        Some(TokenView::Bang) | Some(TokenView::Minus) => prefix(ts),
        Some(TokenView::LParen) => group(ts),
        Some(TokenView::If) => if_expression(ts, p),
        Some(TokenView::Function) => function(ts, p),
        Some(TokenView::LSquare) => array(ts, p),
        Some(TokenView::LBrace) => match block(ts, p) {
            (Ok(statements), rest) => (Ok(ExpressionView::Block(statements)), rest),
            (Err(e), rest) => (Err(e), rest),
        },
        Some(TokenView::HashMacro) => hash(ts, p),
        Some(t) => (Err(ErrorView::PrefixTokenError(t)), advance(ts)),
    };
    match first {
        Err(e) => (Err(e), rest),
        Ok(left) => if rest.len() <= ts.len() {
            suffixes(left, rest, p)
        } else {
            (Err(ErrorView::Unknown), rest)
        },
    }
}

/// `left` extended by every suffix that binds tighter than `p`: binary
/// operators with their right operands, calls and indexings. The cursor is
/// on the last token of `left`.
pub open spec fn suffixes(left: ExpressionView, ts: Seq<TokenView>, p: Precedence) -> (Result<
    ExpressionView,
    ErrorView,
>, Seq<TokenView>)
    decreases ts.len(), 0nat,
{
    match peek(ts) {
        None | Some(TokenView::Semicolon) => (Ok(left), ts),
        Some(t) => if Precedence::of(t).rank() <= p.rank() {
            (Ok(left), ts)
        } else {
            let (extended, rest) = match t {
                TokenView::LSquare => index(left, advance(ts)),
                TokenView::LParen => call(left, advance(ts)),
                _ => infix(left, advance(ts), Precedence::of(t)),
            };
            match extended {
                Err(e) => (Err(e), rest),
                Ok(e) => if rest.len() < ts.len() {
                    suffixes(e, rest, p)
                } else {
                    (Err(ErrorView::Unknown), rest)
                },
            }
        },
    }
}

/// A unary operator and its operand, which binds at `Prefix`.
pub open spec fn prefix(ts: Seq<TokenView>) -> (Result<ExpressionView, ErrorView>, Seq<TokenView>)
    decreases ts.len(), 2nat,
{
    match current(ts) {
        Some(t) => match prefix_operator(t) {
            Some(op) => {
                let (right, rest) = expression(advance(ts), Precedence::Prefix);
                match right {
                    Err(e) => (Err(e), rest),
                    Ok(r) => (Ok(ExpressionView::Prefix(op, Box::new(r))), rest),
                }
            },
            None => (Err(cannot_start(Some(t))), ts),
        },
        None => (Err(ErrorView::EOFError), ts),
    }
}

/// A binary operator, under the cursor, and its right operand, which binds
/// tighter than `p`, the operator's own level.
pub open spec fn infix(left: ExpressionView, ts: Seq<TokenView>, p: Precedence) -> (Result<
    ExpressionView,
    ErrorView,
>, Seq<TokenView>)
    decreases ts.len(), 2nat,
{
    match current(ts) {
        Some(t) => match infix_operator(t) {
            Some(op) => {
                let (right, rest) = expression(advance(ts), p);
                match right {
                    Err(e) => (Err(e), rest),
                    Ok(r) => (Ok(ExpressionView::Infix(Box::new(left), op, Box::new(r))), rest),
                }
            },
            None => (Err(cannot_start(Some(t))), ts),
        },
        None => (Err(ErrorView::EOFError), ts),
    }
}

/// An expression in parentheses.
pub open spec fn group(ts: Seq<TokenView>) -> (Result<ExpressionView, ErrorView>, Seq<TokenView>)
    decreases ts.len(), 2nat,
{
    match expect(current(ts), TokenView::LParen) {
        Err(e) => (Err(e), ts),
        Ok(_) => {
            let (inner, rest) = expression(advance(ts), Precedence::Lowest);
            match inner {
                Err(e) => (Err(e), rest),
                Ok(e) => match expect(peek(rest), TokenView::RParen) {
                    Err(e) => (Err(e), rest),
                    Ok(_) => (Ok(e), advance(rest)),
                },
            }
        },
    }
}

/// `[`, under the cursor, an index expression and `]`, applied to `left`.
pub open spec fn index(left: ExpressionView, ts: Seq<TokenView>) -> (Result<
    ExpressionView,
    ErrorView,
>, Seq<TokenView>)
    decreases ts.len(), 2nat,
{
    match expect(current(ts), TokenView::LSquare) {
        Err(e) => (Err(e), ts),
        Ok(_) => {
            let (inner, rest) = expression(advance(ts), Precedence::Lowest);
            match inner {
                Err(e) => (Err(e), rest),
                Ok(i) => match expect(peek(rest), TokenView::RSquare) {
                    Err(e) => (Err(e), rest),
                    Ok(_) => (Ok(ExpressionView::Index(Box::new(left), Box::new(i))), advance(rest)),
                },
            }
        },
    }
}

/// `(`, under the cursor, arguments and `)`, applied to `left`.
pub open spec fn call(left: ExpressionView, ts: Seq<TokenView>) -> (Result<
    ExpressionView,
    ErrorView,
>, Seq<TokenView>)
    decreases ts.len(), 2nat,
{
    match expect(current(ts), TokenView::LParen) {
        Err(e) => (Err(e), ts),
        Ok(_) => {
            let (arguments, rest) = list(ts, Precedence::Lowest);
            match arguments {
                Err(e) => (Err(e), rest),
                Ok(a) => match expect(current(rest), TokenView::RParen) {
                    Err(e) => (Err(e), rest),
                    Ok(_) => (Ok(ExpressionView::Call(Box::new(left), a)), rest),
                },
            }
        },
    }
}

/// An array literal.
pub open spec fn array(ts: Seq<TokenView>, p: Precedence) -> (Result<
    ExpressionView,
    ErrorView,
>, Seq<TokenView>)
    decreases ts.len(), 2nat,
{
    match expect(current(ts), TokenView::LSquare) {
        Err(e) => (Err(e), ts),
        Ok(_) => {
            let (elements, rest) = list(ts, p);
            match elements {
                Err(e) => (Err(e), rest),
                Ok(a) => match expect(current(rest), TokenView::RSquare) {
                    Err(e) => (Err(e), rest),
                    Ok(_) => (Ok(ExpressionView::Array(a)), rest),
                },
            }
        },
    }
}

/// The bracket that closes a list opened by `t`.
pub open spec fn closing(t: TokenView) -> Option<TokenView> {
    match t {
        TokenView::LParen => Some(TokenView::RParen),
        TokenView::LSquare => Some(TokenView::RSquare),
        _ => None,
    }
}

/// Expressions separated by commas, between the bracket under the cursor
/// and the one that closes it.
pub open spec fn list(ts: Seq<TokenView>, p: Precedence) -> (Result<
    Seq<ExpressionView>,
    ErrorView,
>, Seq<TokenView>)
    decreases ts.len(), 1nat,
{
    match current(ts) {
        None => (Err(ErrorView::EOFError), ts),
        Some(t) => match closing(t) {
            None => (Err(cannot_start(Some(t))), ts),
            Some(close) => if peek(ts) is None {
                (Err(ErrorView::EOFError), ts)
            } else if peek(ts) == Some(close) {
                (Ok(Seq::empty()), advance(ts))
            } else {
                more_items(ts, close, p, Seq::empty())
            },
        },
    }
}

/// The items of a list after those in `items`, with the cursor on the token
/// before the next one.
pub open spec fn more_items(
    ts: Seq<TokenView>,
    close: TokenView,
    p: Precedence,
    items: Seq<ExpressionView>,
) -> (Result<Seq<ExpressionView>, ErrorView>, Seq<TokenView>)
    decreases ts.len(), 0nat,
{
    if ts.len() == 0 {
        (Err(ErrorView::EOFError), ts)
    } else {
        let (item, rest) = expression(advance(ts), p);
        match item {
            Err(e) => (Err(e), rest),
            Ok(e) => if peek(rest) == Some(TokenView::Comma) {
                if advance(rest).len() < ts.len() {
                    more_items(advance(rest), close, p, items.push(e))
                } else {
                    (Err(ErrorView::Unknown), rest)
                }
            } else if peek(rest) == Some(close) {
                (Ok(items.push(e)), advance(rest))
            } else {
                (
                    match expect(peek(rest), close) {
                        Err(e) => Err(e),
                        Ok(_) => Err(ErrorView::Unknown),
                    },
                    rest,
                )
            },
        }
    }
}

/// `if`, a condition, a block and, after `else`, another block.
pub open spec fn if_expression(ts: Seq<TokenView>, p: Precedence) -> (Result<
    ExpressionView,
    ErrorView,
>, Seq<TokenView>)
    decreases ts.len(), 2nat,
{
    match expect(current(ts), TokenView::If) {
        Err(e) => (Err(e), ts),
        Ok(_) => {
            let (condition, r1) = expression(advance(ts), p);
            match condition {
                Err(e) => (Err(e), r1),
                Ok(c) => match expect(peek(r1), TokenView::LBrace) {
                    Err(e) => (Err(e), r1),
                    Ok(_) => if advance(r1).len() < ts.len() {
                        let (consequence, r2) = block(advance(r1), p);
                        match consequence {
                            Err(e) => (Err(e), r2),
                            Ok(yes) => if peek(r2) == Some(TokenView::Else) {
                                let r3 = advance(advance(r2));
                                match expect(current(r3), TokenView::LBrace) {
                                    Err(e) => (Err(e), r3),
                                    Ok(_) => if r3.len() < ts.len() {
                                        let (alternative, r4) = block(r3, p);
                                        match alternative {
                                            Err(e) => (Err(e), r4),
                                            Ok(no) => (
                                                Ok(ExpressionView::If(Box::new(c), yes, Some(no))),
                                                r4,
                                            ),
                                        }
                                    } else {
                                        (Err(ErrorView::Unknown), r3)
                                    },
                                }
                            } else {
                                (Ok(ExpressionView::If(Box::new(c), yes, None)), r2)
                            },
                        }
                    } else {
                        (Err(ErrorView::Unknown), r1)
                    },
                },
            }
        },
    }
}

/// `fn`, a parameter list and a block.
pub open spec fn function(ts: Seq<TokenView>, p: Precedence) -> (Result<
    ExpressionView,
    ErrorView,
>, Seq<TokenView>)
    decreases ts.len(), 2nat,
{
    match expect(current(ts), TokenView::Function) {
        Err(e) => (Err(e), ts),
        Ok(_) => match expect(peek(ts), TokenView::LParen) {
            Err(e) => (Err(e), ts),
            Ok(_) => {
                let (names, r1) = parameters(advance(ts));
                match names {
                    Err(e) => (Err(e), r1),
                    Ok(n) => match expect(current(r1), TokenView::RParen) {
                        Err(e) => (Err(e), r1),
                        Ok(_) => if advance(r1).len() < ts.len() {
                            let (body, r2) = block(advance(r1), p);
                            match body {
                                Err(e) => (Err(e), r2),
                                Ok(b) => (Ok(ExpressionView::Function(n, b)), r2),
                            }
                        } else {
                            (Err(ErrorView::Unknown), r1)
                        },
                    },
                }
            },
        },
    }
}

/// `{`, statements and `}`.
pub open spec fn block(ts: Seq<TokenView>, p: Precedence) -> (Result<
    Seq<StatementView>,
    ErrorView,
>, Seq<TokenView>)
    decreases ts.len(), 2nat,
{
    match expect(current(ts), TokenView::LBrace) {
        Err(e) => (Err(e), ts),
        Ok(_) => more_statements(advance(ts), p, Seq::empty()),
    }
}

/// The statements of a block after those in `statements`, up to its `}`.
pub open spec fn more_statements(
    ts: Seq<TokenView>,
    p: Precedence,
    statements: Seq<StatementView>,
) -> (Result<Seq<StatementView>, ErrorView>, Seq<TokenView>)
    decreases ts.len(), 6nat,
{
    if current(ts) is None || current(ts) == Some(TokenView::RBrace) {
        match expect(current(ts), TokenView::RBrace) {
            Err(e) => (Err(e), ts),
            Ok(_) => (Ok(statements), ts),
        }
    } else {
        let (s, rest) = statement(ts, p);
        match s {
            Err(e) => (Err(e), rest),
            Ok(s) => if rest.len() < ts.len() {
                more_statements(rest, p, statements.push(s))
            } else {
                (Err(ErrorView::Unknown), rest)
            },
        }
    }
}

/// `hash!`, `{`, pairs of a key, `:` and a value, separated by commas, `}`.
pub open spec fn hash(ts: Seq<TokenView>, p: Precedence) -> (Result<
    ExpressionView,
    ErrorView,
>, Seq<TokenView>)
    decreases ts.len(), 2nat,
{
    match expect(current(ts), TokenView::HashMacro) {
        Err(e) => (Err(e), ts),
        Ok(_) => match expect(peek(ts), TokenView::LBrace) {
            Err(e) => (Err(e), ts),
            Ok(_) => {
                let ts1 = advance(ts);
                if peek(ts1) == Some(TokenView::RBrace) {
                    (Ok(ExpressionView::Hash(Seq::empty())), advance(ts1))
                } else {
                    more_entries(ts1, p, Seq::empty())
                }
            },
        },
    }
}

/// The entries of a hash literal after those in `entries`, with the cursor
/// on the token before the next one.
pub open spec fn more_entries(
    ts: Seq<TokenView>,
    p: Precedence,
    entries: Seq<(ExpressionView, ExpressionView)>,
) -> (Result<ExpressionView, ErrorView>, Seq<TokenView>)
    decreases ts.len(), 0nat,
{
    if ts.len() == 0 {
        (Err(ErrorView::EOFError), ts)
    } else {
        let (key, r1) = expression(advance(ts), p);
        match key {
            Err(e) => (Err(e), r1),
            Ok(k) => match expect(peek(r1), TokenView::Colon) {
                Err(e) => (Err(e), r1),
                Ok(_) => {
                    let r2 = advance(advance(r1));
                    if r2.len() < ts.len() {
                        let (value, r3) = expression(r2, p);
                        match value {
                            Err(e) => (Err(e), r3),
                            Ok(v) => if peek(r3) == Some(TokenView::Comma) {
                                if advance(r3).len() < ts.len() {
                                    more_entries(advance(r3), p, entries.push((k, v)))
                                } else {
                                    (Err(ErrorView::Unknown), r3)
                                }
                            } else if peek(r3) == Some(TokenView::RBrace) {
                                (Ok(ExpressionView::Hash(entries.push((k, v)))), advance(r3))
                            } else {
                                (
                                    match expect(peek(r3), TokenView::RBrace) {
                                        Err(e) => Err(e),
                                        Ok(_) => Err(ErrorView::Unknown),
                                    },
                                    r3,
                                )
                            },
                        }
                    } else {
                        (Err(ErrorView::Unknown), r1)
                    }
                },
            },
        }
    }
}

/// The statements of a whole input, after those in `statements`, or the
/// first error among them.
pub open spec fn program(ts: Seq<TokenView>, statements: Seq<StatementView>) -> Result<
    Seq<StatementView>,
    ErrorView,
>
    decreases ts.len(),
{
    match statement(ts, Precedence::Lowest) {
        (Err(e), _) => Err(e),
        (Ok(StatementView::EOF), _) => Ok(statements),
        (Ok(s), rest) => if rest.len() < ts.len() {
            program(rest, statements.push(s))
        } else {
            Err(ErrorView::Unknown)
        },
    }
}

} // verus!
