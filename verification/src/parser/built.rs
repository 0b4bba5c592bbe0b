use super::ast::expressions::ExpressionView;
use super::ast::statements::StatementView;
use super::ast::Precedence;
use super::grammar::{
    advance, array, block, boolean, call, closing, current, expect, expression,
    expression_statement, function, group, hash, identifier, if_expression, index, infix,
    infix_operator, integer, lemma_skip_semicolons, let_statement, list, more_entries, more_items,
    more_parameters, more_statements, parameters, peek, prefix, prefix_operator, program,
    return_statement, skip_semicolons, statement, string, suffixes,
};
use super::printed::{legible, legible_block, legible_statement, name};
use super::spelling::{plain, plain_block, plain_statement};
use crate::lexer::round_trip::produced;
use crate::lexer::token::TokenView;
use crate::text::{integer_value, lemma_decimal_value_nonnegative, one_line};
use vstd::prelude::*;

verus! {

// What holds of every tree that the parser builds from the tokens of a
// text.

/// Whether every token of a sequence is one that the lexer produces.
pub open spec fn lexed(ts: Seq<TokenView>) -> bool {
    forall|i: int| 0 <= i < ts.len() ==> produced(#[trigger] ts[i])
}

/// Whether an expression is such as the parser builds from the tokens of a
/// text: its names and string literals are such as the lexer reads, and its
/// integer literals are not negative.
pub open spec fn built(e: ExpressionView) -> bool
    decreases e, 0nat,
{
    match e {
        ExpressionView::Identifier(n) => name(n),
        ExpressionView::Integer(i) => i >= 0,
        ExpressionView::Str(s) => produced(TokenView::Str(s)),
        ExpressionView::Boolean(_) => true,
        ExpressionView::Prefix(_, right) => built(*right),
        ExpressionView::Infix(left, _, right) => built(*left) && built(*right),
        ExpressionView::Call(function, arguments) => built(*function) && built_list(arguments),
        ExpressionView::Array(elements) => built_list(elements),
        ExpressionView::Index(left, index) => built(*left) && built(*index),
        ExpressionView::If(condition, consequence, alternative) => built(*condition)
            && built_block(consequence) && match alternative {
            Some(b) => built_block(b),
            None => true,
        },
        ExpressionView::Function(parameters, body) => built_block(body) && names(parameters),
        ExpressionView::Block(body) => built_block(body),
        ExpressionView::Hash(pairs) => forall|i: int|
            0 <= i < pairs.len() ==> built((#[trigger] pairs[i]).0) && built(pairs[i].1),
    }
}

/// `built` for the items of a list.
pub open spec fn built_list(items: Seq<ExpressionView>) -> bool
    decreases items, items.len() + 1,
{
    forall|i: int| 0 <= i < items.len() ==> built(#[trigger] items[i])
}

/// Whether every name of a list is one that the lexer reads as an
/// identifier.
pub open spec fn names(list: Seq<Seq<char>>) -> bool {
    forall|i: int| 0 <= i < list.len() ==> name(#[trigger] list[i])
}

/// `built` for the statements of a block.
pub open spec fn built_block(body: Seq<StatementView>) -> bool
    decreases body, body.len() + 1,
{
    forall|i: int| 0 <= i < body.len() ==> built_statement(#[trigger] body[i])
}

/// `built` for a statement; the end-of-input statement is part of no
/// program.
pub open spec fn built_statement(s: StatementView) -> bool
    decreases s, 0nat,
{
    match s {
        StatementView::Let(n, value) => name(n) && built(value),
        StatementView::Return(value) => built(value),
        StatementView::Expression(value) => built(value),
        StatementView::EOF => false,
    }
}

/// What an outcome of the parser is where it is a tree: one that is built.
pub open spec fn sound(r: Result<ExpressionView, super::error::ErrorView>) -> bool {
    r matches Ok(e) ==> built(e)
}

/// Moving the cursor on leaves tokens that the lexer produces.
proof fn lemma_lexed_advance(ts: Seq<TokenView>)
    requires
        lexed(ts),
    ensures
        lexed(advance(ts)),
        lexed(skip_semicolons(ts)),
        skip_semicolons(ts).len() <= ts.len(),
    decreases ts.len(),
{
    if ts.len() > 0 {
        assert forall|i: int| 0 <= i < ts.skip(1).len() implies produced(
            #[trigger] ts.skip(1)[i],
        ) by {
            assert(ts.skip(1)[i] == ts[i + 1]);
        }
        if ts[0] == TokenView::Semicolon {
            lemma_lexed_advance(ts.skip(1));
        }
    }
}

/// An item added to built items leaves built items.
proof fn lemma_built_push(items: Seq<ExpressionView>, e: ExpressionView)
    requires
        built_list(items),
        built(e),
    ensures
        built_list(items.push(e)),
{
    assert forall|i: int| 0 <= i < items.push(e).len() implies built(
        #[trigger] items.push(e)[i],
    ) by {
        if i < items.len() {
            assert(items.push(e)[i] == items[i]);
        }
    }
}

/// Reading parameters leaves tokens of the input, and yields names where
/// those before them are names.
proof fn lemma_more_parameters(ts: Seq<TokenView>, done: Seq<Seq<char>>)
    requires
        lexed(ts),
        names(done),
    ensures
        lexed(more_parameters(ts, done).1),
        more_parameters(ts, done).0 matches Ok(list) ==> names(list),
    decreases ts.len(),
{
    lemma_lexed_advance(ts);
    let ts1 = advance(ts);
    lemma_lexed_advance(ts1);
    match identifier(ts1).0 {
        Ok(n) => {
            assert(produced(ts1[0]));
            assert forall|i: int| 0 <= i < done.push(n).len() implies name(
                #[trigger] done.push(n)[i],
            ) by {
                if i < done.len() {
                    assert(done.push(n)[i] == done[i]);
                }
            }
            if peek(ts1) == Some(TokenView::Comma) {
                lemma_more_parameters(advance(ts1), done.push(n));
            }
        },
        Err(_) => {},
    }
}

/// The parameters of a function literal are names.
proof fn lemma_parameters(ts: Seq<TokenView>)
    requires
        lexed(ts),
    ensures
        lexed(parameters(ts).1),
        parameters(ts).0 matches Ok(list) ==> names(list),
{
    lemma_lexed_advance(ts);
    lemma_more_parameters(ts, Seq::empty());
}

/// A statement that the parser builds from tokens of a text is built, or
/// marks the end of the input.
proof fn lemma_statement(ts: Seq<TokenView>, p: Precedence)
    requires
        lexed(ts),
    ensures
        lexed(statement(ts, p).1),
        statement(ts, p).0 matches Ok(s) ==> built_statement(s) || (s == StatementView::EOF
            && statement(ts, p).1.len() == 0),
    decreases ts.len(), 5nat,
{
    let ts1 = skip_semicolons(ts);
    lemma_lexed_advance(ts);
    lemma_skip_semicolons(ts);
    match current(ts1) {
        None => {
            lemma_lexed_advance(ts1);
            lemma_skip_semicolons(ts1);
        },
        Some(TokenView::Let) => {
            lemma_let_statement(ts1, p);
            lemma_lexed_advance(let_statement(ts1, p).1);
        },
        Some(TokenView::Return) => {
            lemma_return_statement(ts1, p);
            lemma_lexed_advance(return_statement(ts1, p).1);
        },
        Some(_) => {
            lemma_expression_statement(ts1, p);
            lemma_lexed_advance(expression_statement(ts1, p).1);
        },
    }
}

/// `lemma_statement` for `let`.
proof fn lemma_let_statement(ts: Seq<TokenView>, p: Precedence)
    requires
        lexed(ts),
    ensures
        lexed(let_statement(ts, p).1),
        let_statement(ts, p).0 matches Ok(s) ==> built_statement(s),
    decreases ts.len(), 4nat,
{
    if expect(current(ts), TokenView::Let) is Ok {
        let ts1 = advance(ts);
        lemma_lexed_advance(ts);
        lemma_lexed_advance(ts1);
        lemma_lexed_advance(advance(ts1));
        if identifier(ts1).0 is Ok && expect(peek(ts1), TokenView::Assign) is Ok {
            assert(produced(ts1[0]));
            let ts3 = advance(advance(ts1));
            lemma_expression(ts3, p);
            lemma_lexed_advance(expression(ts3, p).1);
        }
    }
}

/// `lemma_statement` for `return`.
proof fn lemma_return_statement(ts: Seq<TokenView>, p: Precedence)
    requires
        lexed(ts),
    ensures
        lexed(return_statement(ts, p).1),
        return_statement(ts, p).0 matches Ok(s) ==> built_statement(s),
    decreases ts.len(), 4nat,
{
    if expect(current(ts), TokenView::Return) is Ok {
        lemma_lexed_advance(ts);
        lemma_expression(advance(ts), p);
        lemma_lexed_advance(expression(advance(ts), p).1);
    }
}

/// `lemma_statement` for an expression that stands as a statement.
proof fn lemma_expression_statement(ts: Seq<TokenView>, p: Precedence)
    requires
        lexed(ts),
    ensures
        lexed(expression_statement(ts, p).1),
        expression_statement(ts, p).0 matches Ok(s) ==> built_statement(s),
    decreases ts.len(), 4nat,
{
    if current(ts) is Some {
        lemma_expression(ts, p);
        lemma_lexed_advance(expression(ts, p).1);
    }
}

/// The first production of an expression, before its suffixes.
pub open spec fn primary(ts: Seq<TokenView>, p: Precedence) -> (
    Result<ExpressionView, super::error::ErrorView>,
    Seq<TokenView>,
) {
    match current(ts) {
        None => (Err(super::error::ErrorView::EOFError), ts),
        Some(TokenView::Ident(name)) => (Ok(ExpressionView::Identifier(name)), ts),
        Some(TokenView::Int(_)) => integer(ts),
        Some(TokenView::Str(_)) => string(ts),
        Some(TokenView::True) | Some(TokenView::False) => boolean(ts),
        Some(TokenView::Bang) | Some(TokenView::Minus) => prefix(ts),
        Some(TokenView::LParen) => group(ts),
        Some(TokenView::If) => if_expression(ts, p),
        Some(TokenView::Function) => function(ts, p),
        Some(TokenView::LSquare) => array(ts, p),
        Some(TokenView::LBrace) => match block(ts, p) {
            (Ok(statements), rest) => (Ok(ExpressionView::Block(statements)), rest),
            (Err(e), rest) => (Err(e), rest),
        },
        Some(TokenView::HashMacro) => hash(ts, p),
        Some(t) => (Err(super::error::ErrorView::PrefixTokenError(t)), advance(ts)),
    }
}

/// An expression that the parser builds from tokens of a text is built.
proof fn lemma_expression(ts: Seq<TokenView>, p: Precedence)
    requires
        lexed(ts),
    ensures
        lexed(expression(ts, p).1),
        sound(expression(ts, p).0),
    decreases ts.len(), 3nat,
{
    lemma_primary(ts, p);
    let (first, rest) = primary(ts, p);
    assert(expression(ts, p) == match first {
        Err(e) => (Err(e), rest),
        Ok(left) => if rest.len() <= ts.len() {
            suffixes(left, rest, p)
        } else {
            (Err(super::error::ErrorView::Unknown), rest)
        },
    });
    match first {
        Ok(left) => {
            if rest.len() <= ts.len() {
                lemma_suffixes(left, rest, p);
            }
        },
        Err(_) => {},
    }
}

/// `lemma_expression` for the first production of an expression.
proof fn lemma_primary(ts: Seq<TokenView>, p: Precedence)
    requires
        lexed(ts),
    ensures
        lexed(primary(ts, p).1),
        sound(primary(ts, p).0),
    decreases ts.len(), 2nat, 1nat,
{
    lemma_lexed_advance(ts);
    match current(ts) {
        None => {},
        Some(TokenView::Ident(name)) => {
            assert(produced(ts[0]));
        },
        Some(TokenView::Int(digits)) => {
            if integer_value(digits) is Some {
                lemma_decimal_value_nonnegative(digits);
            }
        },
        Some(TokenView::Str(_)) => {
            assert(produced(ts[0]));
        },
        Some(TokenView::True) | Some(TokenView::False) => {},
        Some(TokenView::Bang) | Some(TokenView::Minus) => {
            lemma_prefix(ts);
        },
        Some(TokenView::LParen) => {
            lemma_group(ts);
        },
        Some(TokenView::If) => {
            lemma_if(ts, p);
        },
        Some(TokenView::Function) => {
            lemma_function(ts, p);
        },
        Some(TokenView::LSquare) => {
            lemma_array(ts, p);
        },
        Some(TokenView::LBrace) => {
            lemma_block(ts, p);
        },
        Some(TokenView::HashMacro) => {
            lemma_hash(ts, p);
        },
        Some(t) => {},
    }
}

/// `lemma_expression` for the suffixes of an expression.
proof fn lemma_suffixes(left: ExpressionView, ts: Seq<TokenView>, p: Precedence)
    requires
        lexed(ts),
        built(left),
    ensures
        lexed(suffixes(left, ts, p).1),
        sound(suffixes(left, ts, p).0),
    decreases ts.len(), 0nat,
{
    match peek(ts) {
        None | Some(TokenView::Semicolon) => {},
        Some(t) => {
            if Precedence::of(t).rank() > p.rank() {
                lemma_lexed_advance(ts);
                let (extended, rest) = match t {
                    TokenView::LSquare => index(left, advance(ts)),
                    TokenView::LParen => call(left, advance(ts)),
                    _ => infix(left, advance(ts), Precedence::of(t)),
                };
                match t {
                    TokenView::LSquare => {
                        lemma_index(left, advance(ts));
                    },
                    TokenView::LParen => {
                        lemma_call(left, advance(ts));
                    },
                    _ => {
                        lemma_infix(left, advance(ts), Precedence::of(t));
                    },
                }
                match extended {
                    Ok(e) => {
                        if rest.len() < ts.len() {
                            lemma_suffixes(e, rest, p);
                        }
                    },
                    Err(_) => {},
                }
            }
        },
    }
}

/// `lemma_expression` for a unary operator and its operand.
proof fn lemma_prefix(ts: Seq<TokenView>)
    requires
        lexed(ts),
    ensures
        lexed(prefix(ts).1),
        sound(prefix(ts).0),
    decreases ts.len(), 2nat, 0nat,
{
    if ts.len() > 0 && prefix_operator(ts[0]) is Some {
        lemma_lexed_advance(ts);
        lemma_expression(advance(ts), Precedence::Prefix);
    }
}

/// `lemma_expression` for a binary operator and its right operand.
proof fn lemma_infix(left: ExpressionView, ts: Seq<TokenView>, p: Precedence)
    requires
        lexed(ts),
        built(left),
    ensures
        lexed(infix(left, ts, p).1),
        sound(infix(left, ts, p).0),
    decreases ts.len(), 2nat, 0nat,
{
    if ts.len() > 0 && infix_operator(ts[0]) is Some {
        lemma_lexed_advance(ts);
        lemma_expression(advance(ts), p);
    }
}

/// `lemma_expression` for an expression in parentheses.
proof fn lemma_group(ts: Seq<TokenView>)
    requires
        lexed(ts),
    ensures
        lexed(group(ts).1),
        sound(group(ts).0),
    decreases ts.len(), 2nat, 0nat,
{
    if expect(current(ts), TokenView::LParen) is Ok {
        lemma_lexed_advance(ts);
        lemma_expression(advance(ts), Precedence::Lowest);
        lemma_lexed_advance(expression(advance(ts), Precedence::Lowest).1);
    }
}

/// `lemma_expression` for an indexing.
proof fn lemma_index(left: ExpressionView, ts: Seq<TokenView>)
    requires
        lexed(ts),
        built(left),
    ensures
        lexed(index(left, ts).1),
        sound(index(left, ts).0),
    decreases ts.len(), 2nat, 0nat,
{
    if expect(current(ts), TokenView::LSquare) is Ok {
        lemma_lexed_advance(ts);
        lemma_expression(advance(ts), Precedence::Lowest);
        lemma_lexed_advance(expression(advance(ts), Precedence::Lowest).1);
    }
}

/// `lemma_expression` for a call.
proof fn lemma_call(left: ExpressionView, ts: Seq<TokenView>)
    requires
        lexed(ts),
        built(left),
    ensures
        lexed(call(left, ts).1),
        sound(call(left, ts).0),
    decreases ts.len(), 2nat, 0nat,
{
    if expect(current(ts), TokenView::LParen) is Ok {
        lemma_list(ts, Precedence::Lowest);
    }
}

/// `lemma_expression` for an array literal.
proof fn lemma_array(ts: Seq<TokenView>, p: Precedence)
    requires
        lexed(ts),
    ensures
        lexed(array(ts, p).1),
        sound(array(ts, p).0),
    decreases ts.len(), 2nat, 0nat,
{
    if expect(current(ts), TokenView::LSquare) is Ok {
        lemma_list(ts, p);
    }
}

/// The items of a list that the parser builds are built.
proof fn lemma_list(ts: Seq<TokenView>, p: Precedence)
    requires
        lexed(ts),
    ensures
        lexed(list(ts, p).1),
        list(ts, p).0 matches Ok(items) ==> built_list(items),
    decreases ts.len(), 1nat,
{
    lemma_lexed_advance(ts);
    if ts.len() > 0 && closing(ts[0]) is Some {
        if peek(ts) is Some && peek(ts) != closing(ts[0]) {
            lemma_more_items(ts, closing(ts[0])->0, p, Seq::empty());
        }
    }
}

/// `lemma_list` for the items after those in `items`.
proof fn lemma_more_items(
    ts: Seq<TokenView>,
    close: TokenView,
    p: Precedence,
    items: Seq<ExpressionView>,
)
    requires
        lexed(ts),
        built_list(items),
    ensures
        lexed(more_items(ts, close, p, items).1),
        more_items(ts, close, p, items).0 matches Ok(all) ==> built_list(all),
    decreases ts.len(), 0nat,
{
    if ts.len() > 0 {
        lemma_lexed_advance(ts);
        lemma_expression(advance(ts), p);
        let (item, rest) = expression(advance(ts), p);
        lemma_lexed_advance(rest);
        match item {
            Ok(e) => {
                lemma_built_push(items, e);
                if peek(rest) == Some(TokenView::Comma) {
                    if advance(rest).len() < ts.len() {
                        lemma_more_items(advance(rest), close, p, items.push(e));
                    }
                }
            },
            Err(_) => {},
        }
    }
}

/// The statements of a block that the parser builds are built.
proof fn lemma_block(ts: Seq<TokenView>, p: Precedence)
    requires
        lexed(ts),
    ensures
        lexed(block(ts, p).1),
        block(ts, p).0 matches Ok(body) ==> built_block(body),
    decreases ts.len(), 2nat, 0nat,
{
    if expect(current(ts), TokenView::LBrace) is Ok {
        lemma_lexed_advance(ts);
        lemma_more_statements(advance(ts), p, Seq::empty());
    }
}

/// `lemma_block` for the statements after those in `done`.
proof fn lemma_more_statements(ts: Seq<TokenView>, p: Precedence, done: Seq<StatementView>)
    requires
        lexed(ts),
        built_block(done),
    ensures
        lexed(more_statements(ts, p, done).1),
        more_statements(ts, p, done).0 matches Ok(body) ==> built_block(body),
    decreases ts.len(), 6nat,
{
    if !(current(ts) is None || current(ts) == Some(TokenView::RBrace)) {
        lemma_statement(ts, p);
        let (s, rest) = statement(ts, p);
        match s {
            Ok(s) => {
                if rest.len() < ts.len() {
                    if s == StatementView::EOF {
                        // Nothing is left, so the block is not closed.
                        assert(more_statements(rest, p, done.push(s)).0 is Err);
                    } else {
                        assert forall|i: int| 0 <= i < done.push(s).len() implies built_statement(
                            #[trigger] done.push(s)[i],
                        ) by {
                            if i < done.len() {
                                assert(done.push(s)[i] == done[i]);
                            }
                        }
                        lemma_more_statements(rest, p, done.push(s));
                    }
                }
            },
            Err(_) => {},
        }
    }
}

/// `lemma_expression` for `if`.
proof fn lemma_if(ts: Seq<TokenView>, p: Precedence)
    requires
        lexed(ts),
    ensures
        lexed(if_expression(ts, p).1),
        sound(if_expression(ts, p).0),
    decreases ts.len(), 2nat, 0nat,
{
    if expect(current(ts), TokenView::If) is Ok {
        lemma_lexed_advance(ts);
        lemma_expression(advance(ts), p);
        let (condition, r1) = expression(advance(ts), p);
        lemma_lexed_advance(r1);
        if condition is Ok && expect(peek(r1), TokenView::LBrace) is Ok && advance(r1).len()
            < ts.len() {
            lemma_block(advance(r1), p);
            let (consequence, r2) = block(advance(r1), p);
            lemma_lexed_advance(r2);
            lemma_lexed_advance(advance(r2));
            let r3 = advance(advance(r2));
            if consequence is Ok && peek(r2) == Some(TokenView::Else) && expect(
                current(r3),
                TokenView::LBrace,
            ) is Ok && r3.len() < ts.len() {
                lemma_block(r3, p);
            }
        }
    }
}

/// `lemma_expression` for a function literal.
proof fn lemma_function(ts: Seq<TokenView>, p: Precedence)
    requires
        lexed(ts),
    ensures
        lexed(function(ts, p).1),
        sound(function(ts, p).0),
    decreases ts.len(), 2nat, 0nat,
{
    if expect(current(ts), TokenView::Function) is Ok && expect(peek(ts), TokenView::LParen)
        is Ok {
        lemma_lexed_advance(ts);
        lemma_parameters(advance(ts));
        let (names, r1) = parameters(advance(ts));
        lemma_lexed_advance(r1);
        if names is Ok && expect(current(r1), TokenView::RParen) is Ok && advance(r1).len()
            < ts.len() {
            lemma_block(advance(r1), p);
        }
    }
}

/// `lemma_expression` for a hash literal.
proof fn lemma_hash(ts: Seq<TokenView>, p: Precedence)
    requires
        lexed(ts),
    ensures
        lexed(hash(ts, p).1),
        sound(hash(ts, p).0),
    decreases ts.len(), 2nat, 0nat,
{
    if expect(current(ts), TokenView::HashMacro) is Ok && expect(peek(ts), TokenView::LBrace)
        is Ok {
        lemma_lexed_advance(ts);
        let ts1 = advance(ts);
        lemma_lexed_advance(ts1);
        if peek(ts1) != Some(TokenView::RBrace) {
            lemma_more_entries(ts1, p, Seq::empty());
        }
    }
}

/// `lemma_hash` for the entries after those in `entries`.
proof fn lemma_more_entries(
    ts: Seq<TokenView>,
    p: Precedence,
    entries: Seq<(ExpressionView, ExpressionView)>,
)
    requires
        lexed(ts),
        forall|i: int| 0 <= i < entries.len() ==> built((#[trigger] entries[i]).0) && built(
            entries[i].1,
        ),
    ensures
        lexed(more_entries(ts, p, entries).1),
        sound(more_entries(ts, p, entries).0),
    decreases ts.len(), 0nat,
{
    if ts.len() > 0 {
        lemma_lexed_advance(ts);
        lemma_expression(advance(ts), p);
        let (key, r1) = expression(advance(ts), p);
        lemma_lexed_advance(r1);
        lemma_lexed_advance(advance(r1));
        let r2 = advance(advance(r1));
        if key is Ok && expect(peek(r1), TokenView::Colon) is Ok && r2.len() < ts.len() {
            lemma_expression(r2, p);
            let (value, r3) = expression(r2, p);
            lemma_lexed_advance(r3);
            if value is Ok {
                let all = entries.push((key->Ok_0, value->Ok_0));
                assert forall|i: int| 0 <= i < all.len() implies built((#[trigger] all[i]).0)
                    && built(all[i].1) by {
                    if i < entries.len() {
                        assert(all[i] == entries[i]);
                    }
                }
                if peek(r3) == Some(TokenView::Comma) && advance(r3).len() < ts.len() {
                    lemma_more_entries(advance(r3), p, all);
                }
            }
        }
    }
}

/// The statements of a program that the parser builds from tokens of a text
/// are built.
pub proof fn lemma_program(ts: Seq<TokenView>, done: Seq<StatementView>)
    requires
        lexed(ts),
        built_block(done),
    ensures
        program(ts, done) matches Ok(list) ==> built_block(list),
    decreases ts.len(),
{
    lemma_statement(ts, Precedence::Lowest);
    match statement(ts, Precedence::Lowest) {
        (Ok(StatementView::EOF), _) => {},
        (Ok(s), rest) => {
            if rest.len() < ts.len() {
                assert forall|i: int| 0 <= i < done.push(s).len() implies built_statement(
                    #[trigger] done.push(s)[i],
                ) by {
                    if i < done.len() {
                        assert(done.push(s)[i] == done[i]);
                    }
                }
                lemma_program(rest, done.push(s));
            }
        },
        (Err(_), _) => {},
    }
}

/// Whether an expression holds no hash literal with entries and no string
/// literal with a line break: what the printer's text cannot give back.
pub open spec fn tidy(e: ExpressionView) -> bool
    decreases e, 0nat,
{
    match e {
        ExpressionView::Str(s) => one_line(s),
        ExpressionView::Prefix(_, right) => tidy(*right),
        ExpressionView::Infix(left, _, right) => tidy(*left) && tidy(*right),
        ExpressionView::Call(function, arguments) => tidy(*function) && forall|i: int|
            0 <= i < arguments.len() ==> tidy(#[trigger] arguments[i]),
        ExpressionView::Array(elements) => forall|i: int|
            0 <= i < elements.len() ==> tidy(#[trigger] elements[i]),
        ExpressionView::Index(left, index) => tidy(*left) && tidy(*index),
        ExpressionView::If(condition, consequence, alternative) => tidy(*condition) && tidy_block(
            consequence,
        ) && match alternative {
            Some(b) => tidy_block(b),
            None => true,
        },
        ExpressionView::Function(_, body) => tidy_block(body),
        ExpressionView::Block(body) => tidy_block(body),
        ExpressionView::Hash(pairs) => pairs.len() == 0,
        _ => true,
    }
}

/// `tidy` for the statements of a block.
pub open spec fn tidy_block(body: Seq<StatementView>) -> bool
    decreases body, body.len() + 1,
{
    forall|i: int| 0 <= i < body.len() ==> tidy_statement(#[trigger] body[i])
}

/// `tidy` for a statement.
pub open spec fn tidy_statement(s: StatementView) -> bool
    decreases s, 0nat,
{
    match s {
        StatementView::Let(_, value) => tidy(value),
        StatementView::Return(value) => tidy(value),
        StatementView::Expression(value) => tidy(value),
        StatementView::EOF => true,
    }
}

/// A built and tidy expression is one that the parser reads back from the
/// printer's text.
pub proof fn lemma_tidy(e: ExpressionView)
    requires
        built(e),
        tidy(e),
    ensures
        plain(e),
        legible(e),
    decreases e, 0nat,
{
    match e {
        ExpressionView::Prefix(_, right) => {
            lemma_tidy(*right);
        },
        ExpressionView::Infix(left, _, right) => {
            lemma_tidy(*left);
            lemma_tidy(*right);
        },
        ExpressionView::Call(function, arguments) => {
            lemma_tidy(*function);
            assert forall|i: int| 0 <= i < arguments.len() implies plain(#[trigger] arguments[i])
                && legible(arguments[i]) by {
                assert(built_list(arguments));
                assert(built(arguments[i]));
                lemma_tidy(arguments[i]);
            }
        },
        ExpressionView::Array(elements) => {
            assert forall|i: int| 0 <= i < elements.len() implies plain(#[trigger] elements[i])
                && legible(elements[i]) by {
                assert(built_list(elements));
                assert(built(elements[i]));
                lemma_tidy(elements[i]);
            }
        },
        ExpressionView::Index(left, index) => {
            lemma_tidy(*left);
            lemma_tidy(*index);
        },
        ExpressionView::If(condition, consequence, alternative) => {
            lemma_tidy(*condition);
            lemma_tidy_block(consequence);
            match alternative {
                Some(b) => {
                    lemma_tidy_block(b);
                },
                None => {},
            }
        },
        ExpressionView::Function(_, body) => {
            lemma_tidy_block(body);
        },
        ExpressionView::Block(body) => {
            lemma_tidy_block(body);
        },
        _ => {},
    }
}

/// `lemma_tidy` for the statements of a block.
pub proof fn lemma_tidy_block(body: Seq<StatementView>)
    requires
        built_block(body),
        tidy_block(body),
    ensures
        plain_block(body),
        legible_block(body),
    decreases body, body.len() + 1,
{
    assert forall|i: int| 0 <= i < body.len() implies plain_statement(#[trigger] body[i])
        && legible_statement(body[i]) by {
        match body[i] {
            StatementView::Let(_, value) => {
                lemma_tidy(value);
            },
            StatementView::Return(value) => {
                lemma_tidy(value);
            },
            StatementView::Expression(value) => {
                lemma_tidy(value);
            },
            StatementView::EOF => {},
        }
    }
}

} // verus!
