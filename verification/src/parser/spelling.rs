use super::ast::expressions::{ExpressionView, InfixOp, PrefixOp};
use super::ast::statements::StatementView;
use super::ast::Precedence;
use super::error::ErrorView;
use super::grammar::{
    advance, block, call, current, expression, expression_statement, function, group, hash,
    if_expression, index, infix, infix_operator, integer, lemma_skip_semicolons, let_statement,
    list, more_items, more_parameters, more_statements, parameters, peek, prefix,
    prefix_operator, program, return_statement, skip_semicolons, statement, suffixes,
};
use crate::lexer::token::TokenView;
use crate::text::{digits, integer_value, lemma_digits_spell};
use vstd::prelude::*;

verus! {

// The parser reads back what the printer writes. Here the printer is taken
// token by token; that its text lexes to these tokens is shown with the
// lexer.

/// The token of a unary operator.
pub open spec fn prefix_token(op: PrefixOp) -> TokenView {
    match op {
        PrefixOp::Bang => TokenView::Bang,
        PrefixOp::Minus => TokenView::Minus,
    }
}

/// The token of a binary operator.
pub open spec fn infix_token(op: InfixOp) -> TokenView {
    match op {
        InfixOp::Plus => TokenView::Plus,
        InfixOp::Minus => TokenView::Minus,
        InfixOp::Asterisk => TokenView::Asterisk,
        InfixOp::ForwardSlash => TokenView::ForwardSlash,
        InfixOp::Equal => TokenView::Equal,
        InfixOp::NotEqual => TokenView::NotEqual,
        InfixOp::LessThan => TokenView::LessThan,
        InfixOp::GreaterThan => TokenView::GreaterThan,
    }
}

/// Whether an expression is one that the parser reads back from what the
/// printer writes for it: it holds no negative integer literal, no hash
/// literal with entries and no end-of-input statement.
pub open spec fn plain(e: ExpressionView) -> bool
    decreases e, 0nat,
{
    match e {
        ExpressionView::Identifier(_) => true,
        ExpressionView::Integer(i) => i >= 0,
        ExpressionView::Str(_) => true,
        ExpressionView::Boolean(_) => true,
        ExpressionView::Prefix(_, right) => plain(*right),
        ExpressionView::Infix(left, _, right) => plain(*left) && plain(*right),
        ExpressionView::Call(function, arguments) => plain(*function) && forall|i: int|
            0 <= i < arguments.len() ==> plain(#[trigger] arguments[i]),
        ExpressionView::Array(elements) => forall|i: int|
            0 <= i < elements.len() ==> plain(#[trigger] elements[i]),
        ExpressionView::Index(left, index) => plain(*left) && plain(*index),
        ExpressionView::If(condition, consequence, alternative) => plain(*condition)
            && plain_block(consequence) && match alternative {
            Some(b) => plain_block(b),
            None => true,
        },
        ExpressionView::Function(_, body) => plain_block(body),
        ExpressionView::Block(body) => plain_block(body),
        ExpressionView::Hash(pairs) => pairs.len() == 0,
    }
}

/// Whether every statement of a block is one that the parser reads back.
pub open spec fn plain_block(body: Seq<StatementView>) -> bool
    decreases body, body.len() + 1,
{
    forall|i: int| 0 <= i < body.len() ==> plain_statement(#[trigger] body[i])
}

/// Whether a statement is one that the parser reads back.
pub open spec fn plain_statement(s: StatementView) -> bool
    decreases s, 0nat,
{
    match s {
        StatementView::Let(_, value) => plain(value),
        StatementView::Return(value) => plain(value),
        StatementView::Expression(value) => plain(value),
        StatementView::EOF => false,
    }
}

/// The tokens of the canonical text of an expression.
pub open spec fn spell(e: ExpressionView) -> Seq<TokenView>
    decreases e, 0nat,
{
    match e {
        ExpressionView::Identifier(name) => seq![TokenView::Ident(name)],
        ExpressionView::Integer(i) => seq![TokenView::Int(digits(i as nat))],
        ExpressionView::Str(s) => seq![TokenView::Str(s)],
        ExpressionView::Boolean(b) => seq![
            if b {
                TokenView::True
            } else {
                TokenView::False
            },
        ],
        ExpressionView::Prefix(op, right) => seq![TokenView::LParen, prefix_token(op)] + spell(
            *right,
        ) + seq![TokenView::RParen],
        ExpressionView::Infix(left, op, right) => seq![TokenView::LParen] + spell(*left)
            + seq![infix_token(op)] + spell(*right) + seq![TokenView::RParen],
        ExpressionView::Call(function, arguments) => spell(*function) + seq![TokenView::LParen]
            + spell_list(arguments, 0) + seq![TokenView::RParen],
        ExpressionView::Array(elements) => seq![TokenView::LSquare] + spell_list(elements, 0)
            + seq![TokenView::RSquare],
        ExpressionView::Index(left, index) => spell(*left) + seq![TokenView::LSquare] + spell(
            *index,
        ) + seq![TokenView::RSquare],
        ExpressionView::If(condition, consequence, alternative) => {
            let head = seq![TokenView::If, TokenView::LParen] + spell(*condition)
                + seq![TokenView::RParen] + spell_block(consequence);
            match alternative {
                Some(b) => head + seq![TokenView::Else] + spell_block(b),
                None => head,
            }
        },
        ExpressionView::Function(parameters, body) => seq![
            TokenView::Function,
            TokenView::LParen,
        ] + spell_names(parameters, 0) + seq![TokenView::RParen] + spell_block(body),
        ExpressionView::Block(body) => spell_block(body),
        ExpressionView::Hash(_) => seq![TokenView::HashMacro, TokenView::LBrace, TokenView::RBrace],
    }
}

/// The tokens of the names of a list from the place `from` on, with a comma
/// between each two.
pub open spec fn spell_names(names: Seq<Seq<char>>, from: int) -> Seq<TokenView>
    decreases names.len() - from,
{
    if from < 0 || from >= names.len() {
        Seq::empty()
    } else if from == names.len() - 1 {
        seq![TokenView::Ident(names[from])]
    } else {
        seq![TokenView::Ident(names[from]), TokenView::Comma] + spell_names(names, from + 1)
    }
}

/// The tokens of a block: those of its statements between braces.
pub open spec fn spell_block(body: Seq<StatementView>) -> Seq<TokenView>
    decreases body, body.len() + 1,
{
    seq![TokenView::LBrace] + spell_statements(body, 0) + seq![TokenView::RBrace]
}

/// The tokens of the statements of a list from the place `from` on.
pub open spec fn spell_statements(list: Seq<StatementView>, from: int) -> Seq<TokenView>
    decreases list, list.len() - from,
{
    if from < 0 || from >= list.len() {
        Seq::empty()
    } else {
        spell_statement(list[from]) + spell_statements(list, from + 1)
    }
}

/// The tokens of the canonical text of a statement.
pub open spec fn spell_statement(s: StatementView) -> Seq<TokenView>
    decreases s, 0nat,
{
    match s {
        StatementView::Let(name, value) => seq![
            TokenView::Let,
            TokenView::Ident(name),
            TokenView::Assign,
        ] + spell(value) + seq![TokenView::Semicolon],
        StatementView::Return(value) => seq![TokenView::Return] + spell(value)
            + seq![TokenView::Semicolon],
        StatementView::Expression(value) => spell(value) + seq![TokenView::Semicolon],
        StatementView::EOF => Seq::empty(),
    }
}

/// The tokens of the items of a list from the place `from` on, with a comma
/// between each two.
pub open spec fn spell_list(items: Seq<ExpressionView>, from: int) -> Seq<TokenView>
    decreases items, items.len() - from,
{
    if from < 0 || from >= items.len() {
        Seq::empty()
    } else if from == items.len() - 1 {
        spell(items[from])
    } else {
        spell(items[from]) + seq![TokenView::Comma] + spell_list(items, from + 1)
    }
}

/// Whether the suffix loop at level `p` stops before the token `t`.
pub open spec fn stops(t: Option<TokenView>, p: Precedence) -> bool {
    match t {
        None => true,
        Some(t) => t == TokenView::Semicolon || Precedence::of(t).rank() <= p.rank(),
    }
}

/// The first token of a sequence.
pub open spec fn first(ts: Seq<TokenView>) -> Option<TokenView> {
    current(ts)
}

/// A plain expression is spelled with at least one token.
pub proof fn lemma_spell_nonempty(e: ExpressionView)
    requires
        plain(e),
    ensures
        spell(e).len() > 0,
{
    lemma_spell_first(e);
}

/// The suffix loop stops before a token that binds no tighter than its
/// level.
proof fn lemma_suffixes_stop(left: ExpressionView, ts: Seq<TokenView>, p: Precedence)
    requires
        stops(peek(ts), p),
    ensures
        suffixes(left, ts, p) == (Ok::<ExpressionView, ErrorView>(left), ts),
{
}

/// An integer literal that the printer writes is read back.
proof fn lemma_integer(i: i64, follow: Seq<TokenView>)
    requires
        i >= 0,
    ensures
        integer(seq![TokenView::Int(digits(i as nat))] + follow) == (
            Ok::<ExpressionView, ErrorView>(ExpressionView::Integer(i)),
            seq![TokenView::Int(digits(i as nat))] + follow,
        ),
{
    lemma_digits_spell(i as nat);
    let ts = seq![TokenView::Int(digits(i as nat))] + follow;
    assert(ts[0] == TokenView::Int(digits(i as nat)));
    assert(integer_value(digits(i as nat)) == Some(i));
}

/// A name or literal is read back, and the suffix loop goes on from it.
proof fn lemma_atom(e: ExpressionView, follow: Seq<TokenView>, p: Precedence)
    requires
        plain(e),
        e is Identifier || e is Integer || e is Str || e is Boolean,
    ensures
        expression(spell(e) + follow, p) == suffixes(e, spell(e) + follow, p),
        spell(e).len() == 1,
{
    let ts = spell(e) + follow;
    assert(ts[0] == spell(e)[0]);
    if e is Integer {
        lemma_integer(e->Integer_0, follow);
    }
}

/// A parenthesised operand of a unary operator is read back.
proof fn lemma_prefix(
    op: PrefixOp,
    right: ExpressionView,
    follow: Seq<TokenView>,
    p: Precedence,
)
    requires
        plain(right),
        spell(right).len() > 0,
        expression(spell(right) + (seq![TokenView::RParen] + follow), Precedence::Prefix)
            == suffixes(
            right,
            seq![spell(right).last()] + (seq![TokenView::RParen] + follow),
            Precedence::Prefix,
        ),
    ensures
        expression(spell(ExpressionView::Prefix(op, Box::new(right))) + follow, p) == suffixes(
            ExpressionView::Prefix(op, Box::new(right)),
            seq![TokenView::RParen] + follow,
            p,
        ),
{
    let e = ExpressionView::Prefix(op, Box::new(right));
    let close = seq![TokenView::RParen] + follow;
    let ts = spell(e) + follow;
    let t1 = advance(ts);
    let t2 = advance(t1);
    let after = seq![spell(right).last()] + close;
    assert(ts[0] == TokenView::LParen);
    assert(t1 =~= seq![prefix_token(op)] + spell(right) + close);
    assert(t1[0] == prefix_token(op));
    assert(t2 =~= spell(right) + close);
    assert(prefix_operator(prefix_token(op)) == Some(op));
    assert(peek(after) == Some(TokenView::RParen));
    lemma_suffixes_stop(right, after, Precedence::Prefix);
    assert(expression(t2, Precedence::Prefix) == (Ok::<ExpressionView, ErrorView>(right), after));
    assert(prefix(t1) == (Ok::<ExpressionView, ErrorView>(e), after));
    assert(after.len() <= t1.len());
    lemma_suffixes_stop(e, after, Precedence::Lowest);
    assert(expression(t1, Precedence::Lowest) == (Ok::<ExpressionView, ErrorView>(e), after));
    assert(advance(after) =~= close);
    assert(group(ts) == (Ok::<ExpressionView, ErrorView>(e), close));
}

/// A parenthesised application of a binary operator is read back.
proof fn lemma_infix(
    left: ExpressionView,
    op: InfixOp,
    right: ExpressionView,
    follow: Seq<TokenView>,
    p: Precedence,
)
    requires
        plain(left),
        plain(right),
        spell(left).len() > 0,
        spell(right).len() > 0,
        expression(
            spell(left) + (seq![infix_token(op)] + spell(right) + seq![TokenView::RParen]
                + follow),
            Precedence::Lowest,
        ) == suffixes(
            left,
            seq![spell(left).last()] + (seq![infix_token(op)] + spell(right)
                + seq![TokenView::RParen] + follow),
            Precedence::Lowest,
        ),
        expression(
            spell(right) + (seq![TokenView::RParen] + follow),
            Precedence::of(infix_token(op)),
        ) == suffixes(
            right,
            seq![spell(right).last()] + (seq![TokenView::RParen] + follow),
            Precedence::of(infix_token(op)),
        ),
    ensures
        expression(
            spell(ExpressionView::Infix(Box::new(left), op, Box::new(right))) + follow,
            p,
        ) == suffixes(
            ExpressionView::Infix(Box::new(left), op, Box::new(right)),
            seq![TokenView::RParen] + follow,
            p,
        ),
{
    let e = ExpressionView::Infix(Box::new(left), op, Box::new(right));
    let o = infix_token(op);
    let po = Precedence::of(o);
    let close = seq![TokenView::RParen] + follow;
    let tail = seq![o] + spell(right) + seq![TokenView::RParen] + follow;
    let ts = spell(e) + follow;
    let t1 = advance(ts);
    assert(ts[0] == TokenView::LParen);
    assert(t1 =~= spell(left) + tail);
    // The left operand, with the cursor on its last token.
    let s1 = seq![spell(left).last()] + tail;
    assert(peek(s1) == Some(o));
    assert(infix_operator(o) == Some(op));
    assert(Precedence::Lowest.rank() < po.rank() < Precedence::Call.rank());
    // The operator and the right operand.
    let s2 = advance(s1);
    assert(s2 =~= tail);
    assert(s2[0] == o);
    let s3 = advance(s2);
    assert(s3 =~= spell(right) + close);
    let after = seq![spell(right).last()] + close;
    assert(peek(after) == Some(TokenView::RParen));
    lemma_suffixes_stop(right, after, po);
    assert(expression(s3, po) == (Ok::<ExpressionView, ErrorView>(right), after));
    assert(infix(left, s2, po) == (Ok::<ExpressionView, ErrorView>(e), after));
    assert(after.len() < s1.len());
    lemma_suffixes_stop(e, after, Precedence::Lowest);
    assert(suffixes(left, s1, Precedence::Lowest) == (Ok::<ExpressionView, ErrorView>(e), after));
    assert(expression(t1, Precedence::Lowest) == (Ok::<ExpressionView, ErrorView>(e), after));
    assert(advance(after) =~= close);
    assert(group(ts) == (Ok::<ExpressionView, ErrorView>(e), close));
}

/// Whether a token is one that the spelling of an expression starts with.
pub open spec fn starts_plain(t: TokenView) -> bool {
    t is Ident || t is Int || t is Str || t is True || t is False || t is LParen || t is LSquare
        || t is If || t is Function || t is LBrace || t is HashMacro
}

/// The spelling of an expression starts with a name, a literal, an opening
/// bracket or the keyword of an expression.
pub proof fn lemma_spell_first(e: ExpressionView)
    requires
        plain(e),
    ensures
        spell(e).len() > 0,
        starts_plain(spell(e)[0]),
    decreases e,
{
    match e {
        ExpressionView::Call(function, arguments) => {
            lemma_spell_first(*function);
        },
        ExpressionView::Index(left, index) => {
            lemma_spell_first(*left);
        },
        ExpressionView::If(condition, consequence, alternative) => {
            let head = seq![TokenView::If, TokenView::LParen] + spell(*condition)
                + seq![TokenView::RParen] + spell_block(consequence);
            assert(head[0] == TokenView::If);
            assert(spell(e)[0] == TokenView::If);
        },
        ExpressionView::Function(parameters, body) => {
            assert(spell(e)[0] == TokenView::Function);
        },
        ExpressionView::Block(body) => {
            assert(spell_block(body)[0] == TokenView::LBrace);
        },
        _ => {},
    }
}

/// Whether an expression ends in the block of an `if` without `else`, so
/// that an `else` after it would be taken for its own.
pub open spec fn open_ended(e: ExpressionView) -> bool {
    e matches ExpressionView::If(_, _, None)
}

/// The items of a list that the printer writes are read back.
proof fn lemma_items(
    items: Seq<ExpressionView>,
    from: int,
    before: TokenView,
    close: TokenView,
    follow: Seq<TokenView>,
    p: Precedence,
    done: Seq<ExpressionView>,
)
    requires
        0 <= from < items.len(),
        forall|i: int| 0 <= i < items.len() ==> plain(#[trigger] items[i]),
        close == TokenView::RParen || close == TokenView::RSquare,
        p.rank() < Precedence::Call.rank(),
    ensures
        more_items(
            seq![before] + spell_list(items, from) + seq![close] + follow,
            close,
            p,
            done,
        ) == (
            Ok::<Seq<ExpressionView>, ErrorView>(done + items.skip(from)),
            seq![close] + follow,
        ),
    decreases items, items.len() - from, 0nat,
{
    let item = items[from];
    let ts = seq![before] + spell_list(items, from) + seq![close] + follow;
    let end = seq![close] + follow;
    lemma_spell_nonempty(item);
    if from == items.len() - 1 {
        let after = seq![spell(item).last()] + end;
        assert(advance(ts) =~= spell(item) + end);
        assert(end[0] == close);
        lemma_expression(item, end, p);
        assert(peek(after) == Some(close));
        lemma_suffixes_stop(item, after, p);
        assert(advance(after) =~= end);
        assert(done.push(item) =~= done + items.skip(from));
    } else {
        let more = seq![TokenView::Comma] + spell_list(items, from + 1) + end;
        let after = seq![spell(item).last()] + more;
        assert(advance(ts) =~= spell(item) + more);
        assert(more[0] == TokenView::Comma);
        lemma_expression(item, more, p);
        assert(peek(after) == Some(TokenView::Comma));
        lemma_suffixes_stop(item, after, p);
        assert(advance(after) =~= more);
        assert(more =~= seq![TokenView::Comma] + spell_list(items, from + 1) + seq![close]
            + follow);
        lemma_items(items, from + 1, TokenView::Comma, close, follow, p, done.push(item));
        assert(done.push(item) + items.skip(from + 1) =~= done + items.skip(from));
        assert(advance(after).len() < ts.len());
    }
}

/// A list that the printer writes, brackets and all, is read back.
proof fn lemma_list(
    items: Seq<ExpressionView>,
    open: TokenView,
    close: TokenView,
    follow: Seq<TokenView>,
    p: Precedence,
)
    requires
        forall|i: int| 0 <= i < items.len() ==> plain(#[trigger] items[i]),
        (open == TokenView::LParen && close == TokenView::RParen) || (open == TokenView::LSquare
            && close == TokenView::RSquare),
        p.rank() < Precedence::Call.rank(),
    ensures
        list(seq![open] + spell_list(items, 0) + seq![close] + follow, p) == (
            Ok::<Seq<ExpressionView>, ErrorView>(items),
            seq![close] + follow,
        ),
    decreases items, items.len() + 1, 0nat,
{
    let ts = seq![open] + spell_list(items, 0) + seq![close] + follow;
    assert(ts[0] == open);
    if items.len() == 0 {
        assert(ts[1] == close);
        assert(advance(ts) =~= seq![close] + follow);
        assert(items =~= Seq::empty());
    } else {
        lemma_spell_first(items[0]);
        assert(spell_list(items, 0)[0] == spell(items[0])[0]);
        assert(ts[1] == spell(items[0])[0]);
        lemma_items(items, 0, open, close, follow, p, Seq::empty());
        assert(Seq::<ExpressionView>::empty() + items.skip(0) =~= items);
    }
}

/// A call that the printer writes is read back.
proof fn lemma_call(
    function: ExpressionView,
    arguments: Seq<ExpressionView>,
    follow: Seq<TokenView>,
    p: Precedence,
)
    requires
        spell(function).len() > 0,
        p.rank() < Precedence::Call.rank(),
        expression(
            spell(function) + (seq![TokenView::LParen] + spell_list(arguments, 0)
                + seq![TokenView::RParen] + follow),
            p,
        ) == suffixes(
            function,
            seq![spell(function).last()] + (seq![TokenView::LParen] + spell_list(arguments, 0)
                + seq![TokenView::RParen] + follow),
            p,
        ),
        list(
            seq![TokenView::LParen] + spell_list(arguments, 0) + seq![TokenView::RParen] + follow,
            Precedence::Lowest,
        ) == (
            Ok::<Seq<ExpressionView>, ErrorView>(arguments),
            seq![TokenView::RParen] + follow,
        ),
    ensures
        expression(
            spell(ExpressionView::Call(Box::new(function), arguments)) + follow,
            p,
        ) == suffixes(
            ExpressionView::Call(Box::new(function), arguments),
            seq![TokenView::RParen] + follow,
            p,
        ),
{
    let e = ExpressionView::Call(Box::new(function), arguments);
    let end = seq![TokenView::RParen] + follow;
    let tail = seq![TokenView::LParen] + spell_list(arguments, 0) + seq![TokenView::RParen]
        + follow;
    let ts = spell(e) + follow;
    assert(ts =~= spell(function) + tail);
    let s1 = seq![spell(function).last()] + tail;
    assert(peek(s1) == Some(TokenView::LParen));
    assert(advance(s1) =~= tail);
    assert(tail[0] == TokenView::LParen);
    assert(end[0] == TokenView::RParen);
    assert(call(function, tail) == (Ok::<ExpressionView, ErrorView>(e), end));
    assert(end.len() < s1.len());
}

/// An array literal that the printer writes is read back.
proof fn lemma_array(elements: Seq<ExpressionView>, follow: Seq<TokenView>, p: Precedence)
    requires
        list(
            seq![TokenView::LSquare] + spell_list(elements, 0) + seq![TokenView::RSquare]
                + follow,
            p,
        ) == (
            Ok::<Seq<ExpressionView>, ErrorView>(elements),
            seq![TokenView::RSquare] + follow,
        ),
    ensures
        expression(spell(ExpressionView::Array(elements)) + follow, p) == suffixes(
            ExpressionView::Array(elements),
            seq![TokenView::RSquare] + follow,
            p,
        ),
{
    let e = ExpressionView::Array(elements);
    let end = seq![TokenView::RSquare] + follow;
    let ts = spell(e) + follow;
    assert(ts =~= seq![TokenView::LSquare] + spell_list(elements, 0) + seq![TokenView::RSquare]
        + follow);
    assert(ts[0] == TokenView::LSquare);
    assert(end[0] == TokenView::RSquare);
    assert(super::grammar::array(ts, p) == (Ok::<ExpressionView, ErrorView>(e), end));
    assert(end.len() <= ts.len());
}

/// An indexing that the printer writes is read back.
proof fn lemma_index(
    left: ExpressionView,
    inner: ExpressionView,
    follow: Seq<TokenView>,
    p: Precedence,
)
    requires
        spell(left).len() > 0,
        spell(inner).len() > 0,
        p.rank() < Precedence::Call.rank(),
        expression(
            spell(left) + (seq![TokenView::LSquare] + spell(inner) + (seq![TokenView::RSquare]
                + follow)),
            p,
        ) == suffixes(
            left,
            seq![spell(left).last()] + (seq![TokenView::LSquare] + spell(inner) + (
            seq![TokenView::RSquare] + follow)),
            p,
        ),
        expression(spell(inner) + (seq![TokenView::RSquare] + follow), Precedence::Lowest)
            == suffixes(
            inner,
            seq![spell(inner).last()] + (seq![TokenView::RSquare] + follow),
            Precedence::Lowest,
        ),
    ensures
        expression(
            spell(ExpressionView::Index(Box::new(left), Box::new(inner))) + follow,
            p,
        ) == suffixes(
            ExpressionView::Index(Box::new(left), Box::new(inner)),
            seq![TokenView::RSquare] + follow,
            p,
        ),
{
    let e = ExpressionView::Index(Box::new(left), Box::new(inner));
    let end = seq![TokenView::RSquare] + follow;
    let tail = seq![TokenView::LSquare] + spell(inner) + end;
    let ts = spell(e) + follow;
    assert(ts =~= spell(left) + tail);
    let s1 = seq![spell(left).last()] + tail;
    assert(peek(s1) == Some(TokenView::LSquare));
    assert(advance(s1) =~= tail);
    assert(tail[0] == TokenView::LSquare);
    assert(advance(tail) =~= spell(inner) + end);
    let after = seq![spell(inner).last()] + end;
    assert(peek(after) == Some(TokenView::RSquare));
    lemma_suffixes_stop(inner, after, Precedence::Lowest);
    assert(advance(after) =~= end);
    assert(index(left, tail) == (Ok::<ExpressionView, ErrorView>(e), end));
    assert(end.len() < s1.len());
}

/// The parameters of a function literal that the printer writes are read
/// back.
proof fn lemma_names(
    names: Seq<Seq<char>>,
    from: int,
    before: TokenView,
    follow: Seq<TokenView>,
    done: Seq<Seq<char>>,
)
    requires
        0 <= from < names.len(),
    ensures
        more_parameters(
            seq![before] + spell_names(names, from) + seq![TokenView::RParen] + follow,
            done,
        ) == (
            Ok::<Seq<Seq<char>>, ErrorView>(done + names.skip(from)),
            seq![TokenView::RParen] + follow,
        ),
    decreases names.len() - from,
{
    let ts = seq![before] + spell_names(names, from) + seq![TokenView::RParen] + follow;
    let end = seq![TokenView::RParen] + follow;
    let t1 = advance(ts);
    if from == names.len() - 1 {
        assert(t1 =~= seq![TokenView::Ident(names[from])] + end);
        assert(t1[0] == TokenView::Ident(names[from]));
        assert(t1[1] == TokenView::RParen);
        assert(advance(t1) =~= end);
        assert(done.push(names[from]) =~= done + names.skip(from));
    } else {
        let more = seq![TokenView::Comma] + spell_names(names, from + 1) + seq![TokenView::RParen]
            + follow;
        assert(t1 =~= seq![TokenView::Ident(names[from])] + more);
        assert(t1[0] == TokenView::Ident(names[from]));
        assert(t1[1] == TokenView::Comma);
        assert(advance(t1) =~= more);
        lemma_names(names, from + 1, TokenView::Comma, follow, done.push(names[from]));
        assert(done.push(names[from]) + names.skip(from + 1) =~= done + names.skip(from));
    }
}

/// A parameter list that the printer writes, parentheses and all, is read
/// back.
proof fn lemma_parameters(names: Seq<Seq<char>>, follow: Seq<TokenView>)
    ensures
        parameters(
            seq![TokenView::LParen] + spell_names(names, 0) + seq![TokenView::RParen] + follow,
        ) == (Ok::<Seq<Seq<char>>, ErrorView>(names), seq![TokenView::RParen] + follow),
{
    let ts = seq![TokenView::LParen] + spell_names(names, 0) + seq![TokenView::RParen] + follow;
    assert(ts[0] == TokenView::LParen);
    if names.len() == 0 {
        assert(ts[1] == TokenView::RParen);
        assert(advance(ts) =~= seq![TokenView::RParen] + follow);
        assert(names =~= Seq::empty());
    } else {
        assert(spell_names(names, 0)[0] == TokenView::Ident(names[0]));
        assert(ts[1] == TokenView::Ident(names[0]));
        lemma_names(names, 0, TokenView::LParen, follow, Seq::empty());
        assert(Seq::<Seq<char>>::empty() + names.skip(0) =~= names);
    }
}

/// The tokens after the consequence of an `if`.
pub open spec fn after_consequence(
    alternative: Option<Seq<StatementView>>,
    follow: Seq<TokenView>,
) -> Seq<TokenView> {
    match alternative {
        Some(b) => seq![TokenView::Else] + spell_block(b) + follow,
        None => follow,
    }
}

/// The condition of an `if` that the printer writes, in its parentheses, is
/// read back up to the block after it.
proof fn lemma_if_condition(condition: ExpressionView, blocks: Seq<TokenView>, p: Precedence)
    requires
        spell(condition).len() > 0,
        blocks.len() > 0,
        blocks[0] == TokenView::LBrace,
        expression(spell(condition) + (seq![TokenView::RParen] + blocks), Precedence::Lowest)
            == suffixes(
            condition,
            seq![spell(condition).last()] + (seq![TokenView::RParen] + blocks),
            Precedence::Lowest,
        ),
    ensures
        expression(
            seq![TokenView::LParen] + spell(condition) + seq![TokenView::RParen] + blocks,
            p,
        ) == (Ok::<ExpressionView, ErrorView>(condition), seq![TokenView::RParen] + blocks),
{
    let g = seq![TokenView::LParen] + spell(condition) + seq![TokenView::RParen] + blocks;
    let close = seq![TokenView::RParen] + blocks;
    assert(g[0] == TokenView::LParen);
    assert(advance(g) =~= spell(condition) + close);
    let after = seq![spell(condition).last()] + close;
    assert(peek(after) == Some(TokenView::RParen));
    lemma_suffixes_stop(condition, after, Precedence::Lowest);
    assert(advance(after) =~= close);
    assert(group(g) == (Ok::<ExpressionView, ErrorView>(condition), close));
    assert(peek(close) == Some(TokenView::LBrace));
    lemma_suffixes_stop(condition, close, p);
}

/// An `if` whose condition and blocks are read is read: `g` holds the
/// tokens from the condition on, `blocks` those from the consequence on and
/// `other` those of the alternative.
proof fn lemma_if_blocks(
    condition: ExpressionView,
    consequence: Seq<StatementView>,
    alternative: Option<Seq<StatementView>>,
    g: Seq<TokenView>,
    blocks: Seq<TokenView>,
    other: Seq<TokenView>,
    follow: Seq<TokenView>,
    p: Precedence,
)
    requires
        blocks.len() > 0,
        blocks[0] == TokenView::LBrace,
        blocks.len() < g.len(),
        expression(g, p) == (
            Ok::<ExpressionView, ErrorView>(condition),
            seq![TokenView::RParen] + blocks,
        ),
        alternative is Some ==> {
            &&& other.len() > 0
            &&& other[0] == TokenView::LBrace
            &&& other.len() + follow.len() < blocks.len()
            &&& block(blocks, p) == (
                Ok::<Seq<StatementView>, ErrorView>(consequence),
                seq![TokenView::RBrace] + (seq![TokenView::Else] + (other + follow)),
            )
            &&& block(other + follow, p) == (
                Ok::<Seq<StatementView>, ErrorView>(alternative->0),
                seq![TokenView::RBrace] + follow,
            )
        },
        alternative is None ==> {
            &&& first(follow) != Some(TokenView::Else)
            &&& block(blocks, p) == (
                Ok::<Seq<StatementView>, ErrorView>(consequence),
                seq![TokenView::RBrace] + follow,
            )
        },
    ensures
        if_expression(seq![TokenView::If] + g, p) == (
            Ok::<ExpressionView, ErrorView>(
                ExpressionView::If(Box::new(condition), consequence, alternative),
            ),
            seq![TokenView::RBrace] + follow,
        ),
{
    let ts = seq![TokenView::If] + g;
    let close = seq![TokenView::RParen] + blocks;
    assert(ts[0] == TokenView::If);
    assert(advance(ts) =~= g);
    assert(peek(close) == Some(TokenView::LBrace));
    assert(advance(close) =~= blocks);
    match alternative {
        Some(b) => {
            let r2 = seq![TokenView::RBrace] + (seq![TokenView::Else] + (other + follow));
            assert(peek(r2) == Some(TokenView::Else));
            let r3 = advance(advance(r2));
            assert(r3 =~= other + follow);
            assert(r3[0] == TokenView::LBrace);
        },
        None => {
            let r2 = seq![TokenView::RBrace] + follow;
            assert(peek(r2) == first(follow));
        },
    }
}

/// An `if` that the printer writes is read back.
proof fn lemma_if(
    condition: ExpressionView,
    consequence: Seq<StatementView>,
    alternative: Option<Seq<StatementView>>,
    follow: Seq<TokenView>,
    p: Precedence,
)
    requires
        if_expression(
            spell(ExpressionView::If(Box::new(condition), consequence, alternative)) + follow,
            p,
        ) == (
            Ok::<ExpressionView, ErrorView>(
                ExpressionView::If(Box::new(condition), consequence, alternative),
            ),
            seq![TokenView::RBrace] + follow,
        ),
    ensures
        expression(
            spell(ExpressionView::If(Box::new(condition), consequence, alternative)) + follow,
            p,
        ) == suffixes(
            ExpressionView::If(Box::new(condition), consequence, alternative),
            seq![TokenView::RBrace] + follow,
            p,
        ),
{
    let e = ExpressionView::If(Box::new(condition), consequence, alternative);
    let ts = spell(e) + follow;
    let head = seq![TokenView::If, TokenView::LParen] + spell(condition)
        + seq![TokenView::RParen] + spell_block(consequence);
    assert(head[0] == TokenView::If);
    assert(spell(e)[0] == TokenView::If);
    assert(ts[0] == TokenView::If);
    assert(spell_block(consequence).len() >= 2);
    assert(spell(e).len() >= 2);
}

/// A function literal that the printer writes is read back.
proof fn lemma_function(
    names: Seq<Seq<char>>,
    body: Seq<StatementView>,
    follow: Seq<TokenView>,
    p: Precedence,
)
    requires
        block(spell_block(body) + follow, p) == (
            Ok::<Seq<StatementView>, ErrorView>(body),
            seq![TokenView::RBrace] + follow,
        ),
    ensures
        expression(spell(ExpressionView::Function(names, body)) + follow, p) == suffixes(
            ExpressionView::Function(names, body),
            seq![TokenView::RBrace] + follow,
            p,
        ),
{
    let e = ExpressionView::Function(names, body);
    let blocks = spell_block(body) + follow;
    let ts = spell(e) + follow;
    let g = seq![TokenView::LParen] + spell_names(names, 0) + seq![TokenView::RParen] + blocks;
    assert(ts =~= seq![TokenView::Function] + g);
    assert(ts[0] == TokenView::Function);
    assert(ts[1] == TokenView::LParen);
    assert(advance(ts) =~= g);
    lemma_parameters(names, blocks);
    let r1 = seq![TokenView::RParen] + blocks;
    assert(r1[0] == TokenView::RParen);
    assert(advance(r1) =~= blocks);
    assert(advance(r1).len() < ts.len());
    assert(function(ts, p) == (
        Ok::<ExpressionView, ErrorView>(e),
        seq![TokenView::RBrace] + follow,
    ));
}

/// A block or an empty hash literal that the printer writes is read back.
proof fn lemma_braces(e: ExpressionView, follow: Seq<TokenView>, p: Precedence)
    requires
        plain(e),
        e is Block || e is Hash,
        e matches ExpressionView::Block(body) ==> block(spell_block(body) + follow, p) == (
            Ok::<Seq<StatementView>, ErrorView>(body),
            seq![TokenView::RBrace] + follow,
        ),
    ensures
        expression(spell(e) + follow, p) == suffixes(e, seq![TokenView::RBrace] + follow, p),
{
    let ts = spell(e) + follow;
    match e {
        ExpressionView::Block(body) => {
            assert(ts[0] == TokenView::LBrace);
        },
        ExpressionView::Hash(pairs) => {
            assert(pairs =~= Seq::empty());
            assert(ts[0] == TokenView::HashMacro);
            assert(ts[1] == TokenView::LBrace);
            let t1 = advance(ts);
            assert(t1[1] == TokenView::RBrace);
            assert(advance(t1) =~= seq![TokenView::RBrace] + follow);
            assert(hash(ts, p) == (
                Ok::<ExpressionView, ErrorView>(e),
                seq![TokenView::RBrace] + follow,
            ));
        },
        _ => {},
    }
}

/// The parser reads an expression back from the tokens that the printer
/// writes for it: having read them at a level below that of calls, it holds
/// the expression, with its cursor on the last of them, and goes on to what
/// follows.
pub proof fn lemma_expression(e: ExpressionView, follow: Seq<TokenView>, p: Precedence)
    requires
        plain(e),
        p.rank() < Precedence::Call.rank(),
        open_ended(e) ==> first(follow) != Some(TokenView::Else),
    ensures
        spell(e).len() > 0,
        expression(spell(e) + follow, p) == suffixes(e, seq![spell(e).last()] + follow, p),
    decreases e, 0nat, 1nat,
{
    lemma_spell_nonempty(e);
    match e {
        ExpressionView::Prefix(..) | ExpressionView::Infix(..) => {
            lemma_expression_operator(e, follow, p);
        },
        ExpressionView::Call(..) | ExpressionView::Array(..) | ExpressionView::Index(..) => {
            lemma_expression_brackets(e, follow, p);
        },
        ExpressionView::If(..) => {
            lemma_expression_if(e, follow, p);
        },
        ExpressionView::Function(..) | ExpressionView::Block(..) | ExpressionView::Hash(..) => {
            lemma_expression_braces(e, follow, p);
        },
        _ => {
            lemma_atom(e, follow, p);
            assert(seq![spell(e).last()] + follow =~= spell(e) + follow);
        },
    }
}

/// `lemma_expression` for the applications of operators.
proof fn lemma_expression_operator(e: ExpressionView, follow: Seq<TokenView>, p: Precedence)
    requires
        plain(e),
        e is Prefix || e is Infix,
        p.rank() < Precedence::Call.rank(),
    ensures
        expression(spell(e) + follow, p) == suffixes(e, seq![spell(e).last()] + follow, p),
    decreases e, 0nat, 0nat,
{
    let end = seq![TokenView::RParen] + follow;
    assert(end[0] == TokenView::RParen);
    match e {
        ExpressionView::Prefix(op, right) => {
            lemma_expression(*right, end, Precedence::Prefix);
            lemma_prefix(op, *right, follow, p);
        },
        ExpressionView::Infix(left, op, right) => {
            let tail = seq![infix_token(op)] + spell(*right) + seq![TokenView::RParen] + follow;
            assert(tail[0] == infix_token(op));
            lemma_expression(*left, tail, Precedence::Lowest);
            lemma_expression(*right, end, Precedence::of(infix_token(op)));
            lemma_infix(*left, op, *right, follow, p);
        },
        _ => {},
    }
    assert(spell(e).last() == TokenView::RParen);
}

/// `lemma_expression` for calls, array literals and indexings.
proof fn lemma_expression_brackets(e: ExpressionView, follow: Seq<TokenView>, p: Precedence)
    requires
        plain(e),
        e is Call || e is Array || e is Index,
        p.rank() < Precedence::Call.rank(),
    ensures
        expression(spell(e) + follow, p) == suffixes(e, seq![spell(e).last()] + follow, p),
    decreases e, 0nat, 0nat,
{
    match e {
        ExpressionView::Call(function, arguments) => {
            let tail = seq![TokenView::LParen] + spell_list(arguments, 0)
                + seq![TokenView::RParen] + follow;
            assert(tail[0] == TokenView::LParen);
            lemma_spell_nonempty(*function);
            lemma_expression(*function, tail, p);
            lemma_list(arguments, TokenView::LParen, TokenView::RParen, follow, Precedence::Lowest);
            lemma_call(*function, arguments, follow, p);
            assert(spell(e).last() == TokenView::RParen);
        },
        ExpressionView::Array(elements) => {
            lemma_list(elements, TokenView::LSquare, TokenView::RSquare, follow, p);
            lemma_array(elements, follow, p);
            assert(spell(e).last() == TokenView::RSquare);
        },
        ExpressionView::Index(left, inner) => {
            let end = seq![TokenView::RSquare] + follow;
            let tail = seq![TokenView::LSquare] + spell(*inner) + end;
            assert(end[0] == TokenView::RSquare);
            assert(tail[0] == TokenView::LSquare);
            lemma_expression(*left, tail, p);
            lemma_expression(*inner, end, Precedence::Lowest);
            lemma_index(*left, *inner, follow, p);
            assert(spell(e).last() == TokenView::RSquare);
        },
        _ => {},
    }
}

/// `lemma_expression` for `if`.
proof fn lemma_expression_if(e: ExpressionView, follow: Seq<TokenView>, p: Precedence)
    requires
        plain(e),
        e is If,
        p.rank() < Precedence::Call.rank(),
        open_ended(e) ==> first(follow) != Some(TokenView::Else),
    ensures
        expression(spell(e) + follow, p) == suffixes(e, seq![spell(e).last()] + follow, p),
    decreases e, 0nat, 0nat,
{
    match e {
        ExpressionView::If(condition, consequence, alternative) => {
            let rest = after_consequence(alternative, follow);
            let blocks = spell_block(consequence) + rest;
            let close = seq![TokenView::RParen] + blocks;
            assert(close[0] == TokenView::RParen);
            lemma_expression(*condition, close, Precedence::Lowest);
            lemma_block(consequence, rest, p);
            assert(blocks[0] == TokenView::LBrace);
            lemma_if_condition(*condition, blocks, p);
            match alternative {
                Some(b) => {
                    lemma_block(b, follow, p);
                    assert(spell_block(b).last() == TokenView::RBrace);
                },
                None => {
                    assert(spell_block(consequence).last() == TokenView::RBrace);
                },
            }
            let g = seq![TokenView::LParen] + spell(*condition) + seq![TokenView::RParen]
                + blocks;
            let other = match alternative {
                Some(b) => spell_block(b),
                None => Seq::empty(),
            };
            match alternative {
                Some(b) => {
                    assert(rest =~= seq![TokenView::Else] + (other + follow));
                    assert(other[0] == TokenView::LBrace);
                },
                None => {},
            }
            lemma_if_blocks(*condition, consequence, alternative, g, blocks, other, follow, p);
            assert(spell(e) + follow =~= seq![TokenView::If] + g);
            lemma_if(*condition, consequence, alternative, follow, p);
            assert(spell(e).last() == TokenView::RBrace);
        },
        _ => {},
    }
}

/// `lemma_expression` for function literals, blocks and hash literals.
proof fn lemma_expression_braces(e: ExpressionView, follow: Seq<TokenView>, p: Precedence)
    requires
        plain(e),
        e is Function || e is Block || e is Hash,
        p.rank() < Precedence::Call.rank(),
    ensures
        expression(spell(e) + follow, p) == suffixes(e, seq![spell(e).last()] + follow, p),
    decreases e, 0nat, 0nat,
{
    match e {
        ExpressionView::Function(names, body) => {
            lemma_block(body, follow, p);
            lemma_function(names, body, follow, p);
            assert(spell_block(body).last() == TokenView::RBrace);
        },
        ExpressionView::Block(body) => {
            lemma_block(body, follow, p);
            lemma_braces(e, follow, p);
            assert(spell_block(body).last() == TokenView::RBrace);
        },
        ExpressionView::Hash(pairs) => {
            lemma_braces(e, follow, p);
        },
        _ => {},
    }
    assert(spell(e).last() == TokenView::RBrace);
}

/// The spelling of statements starts with the first token of a statement.
proof fn lemma_spell_statements_first(list: Seq<StatementView>, from: int)
    requires
        plain_block(list),
    ensures
        0 <= from < list.len() ==> spell_statements(list, from).len() > 0 && (starts_plain(
            spell_statements(list, from)[0],
        ) || spell_statements(list, from)[0] == TokenView::Let || spell_statements(list, from)[0]
            == TokenView::Return),
        !(0 <= from < list.len()) ==> spell_statements(list, from).len() == 0,
{
    if 0 <= from < list.len() {
        match list[from] {
            StatementView::Expression(value) => {
                lemma_spell_first(value);
                assert(spell_statement(list[from])[0] == spell(value)[0]);
            },
            _ => {},
        }
        assert(spell_statements(list, from)[0] == spell_statement(list[from])[0]);
    }
}

/// The statements of a block that the printer writes are read back.
proof fn lemma_more_statements(
    list: Seq<StatementView>,
    from: int,
    follow: Seq<TokenView>,
    p: Precedence,
    done: Seq<StatementView>,
)
    requires
        0 <= from <= list.len(),
        plain_block(list),
        p.rank() < Precedence::Call.rank(),
    ensures
        more_statements(
            spell_statements(list, from) + (seq![TokenView::RBrace] + follow),
            p,
            done,
        ) == (
            Ok::<Seq<StatementView>, ErrorView>(done + list.skip(from)),
            seq![TokenView::RBrace] + follow,
        ),
    decreases list, list.len() - from, 0nat,
{
    let end = seq![TokenView::RBrace] + follow;
    let ts = spell_statements(list, from) + end;
    if from == list.len() {
        assert(ts =~= end);
        assert(ts[0] == TokenView::RBrace);
        assert(done + list.skip(from) =~= done);
    } else {
        let rest = spell_statements(list, from + 1) + end;
        lemma_spell_statements_first(list, from);
        lemma_spell_statements_first(list, from + 1);
        assert(ts[0] == spell_statements(list, from)[0]);
        assert(ts =~= spell_statement(list[from]) + rest);
        assert(first(rest) != Some(TokenView::Semicolon)) by {
            if from + 1 < list.len() {
                assert(rest[0] == spell_statements(list, from + 1)[0]);
            } else {
                assert(rest =~= end);
            }
        }
        lemma_statement(list[from], rest, p);
        lemma_statement_length(list[from]);
        lemma_more_statements(list, from + 1, follow, p, done.push(list[from]));
        assert(done.push(list[from]) + list.skip(from + 1) =~= done + list.skip(from));
    }
}

/// A block that the printer writes is read back.
proof fn lemma_block(body: Seq<StatementView>, follow: Seq<TokenView>, p: Precedence)
    requires
        plain_block(body),
        p.rank() < Precedence::Call.rank(),
    ensures
        block(spell_block(body) + follow, p) == (
            Ok::<Seq<StatementView>, ErrorView>(body),
            seq![TokenView::RBrace] + follow,
        ),
    decreases body, body.len() + 1, 0nat,
{
    let ts = spell_block(body) + follow;
    assert(ts[0] == TokenView::LBrace);
    assert(advance(ts) =~= spell_statements(body, 0) + (seq![TokenView::RBrace] + follow));
    lemma_more_statements(body, 0, follow, p, Seq::empty());
    assert(Seq::<StatementView>::empty() + body.skip(0) =~= body);
}

/// A statement is spelled with at least one token.
proof fn lemma_statement_length(s: StatementView)
    requires
        plain_statement(s),
    ensures
        spell_statement(s).len() > 0,
{
}

/// What is left of a statement once its production has read it: its
/// semicolon and what follows.
pub open spec fn ending(follow: Seq<TokenView>) -> Seq<TokenView> {
    seq![TokenView::Semicolon] + follow
}

/// The expression of a statement.
pub open spec fn value_of(s: StatementView) -> ExpressionView {
    match s {
        StatementView::Let(_, v) => v,
        StatementView::Return(v) => v,
        StatementView::Expression(v) => v,
        StatementView::EOF => ExpressionView::Boolean(false),
    }
}

/// A `let` whose expression is read back is read back.
proof fn lemma_let(name: Seq<char>, value: ExpressionView, follow: Seq<TokenView>, p: Precedence)
    requires
        spell(value).len() > 0,
        expression(spell(value) + ending(follow), p) == (
            Ok::<ExpressionView, ErrorView>(value),
            seq![spell(value).last()] + ending(follow),
        ),
    ensures
        let_statement(spell_statement(StatementView::Let(name, value)) + follow, p) == (
            Ok::<StatementView, ErrorView>(StatementView::Let(name, value)),
            ending(follow),
        ),
{
    let s = StatementView::Let(name, value);
    let ts = spell_statement(s) + follow;
    let end = ending(follow);
    let after = seq![spell(value).last()] + end;
    assert(ts[0] == TokenView::Let);
    let t1 = advance(ts);
    assert(t1 =~= seq![TokenView::Ident(name), TokenView::Assign] + spell(value) + end);
    assert(t1[0] == TokenView::Ident(name));
    assert(t1[1] == TokenView::Assign);
    assert(advance(advance(t1)) =~= spell(value) + end);
    assert(advance(after) =~= end);
}

/// A `return` whose expression is read back is read back.
proof fn lemma_return(value: ExpressionView, follow: Seq<TokenView>, p: Precedence)
    requires
        spell(value).len() > 0,
        expression(spell(value) + ending(follow), p) == (
            Ok::<ExpressionView, ErrorView>(value),
            seq![spell(value).last()] + ending(follow),
        ),
    ensures
        return_statement(spell_statement(StatementView::Return(value)) + follow, p) == (
            Ok::<StatementView, ErrorView>(StatementView::Return(value)),
            ending(follow),
        ),
{
    let s = StatementView::Return(value);
    let ts = spell_statement(s) + follow;
    let end = ending(follow);
    let after = seq![spell(value).last()] + end;
    assert(ts[0] == TokenView::Return);
    assert(advance(ts) =~= spell(value) + end);
    assert(advance(after) =~= end);
}

/// An expression statement whose expression is read back is read back.
proof fn lemma_expression_statement(value: ExpressionView, follow: Seq<TokenView>, p: Precedence)
    requires
        spell(value).len() > 0,
        expression(spell(value) + ending(follow), p) == (
            Ok::<ExpressionView, ErrorView>(value),
            seq![spell(value).last()] + ending(follow),
        ),
    ensures
        expression_statement(
            spell_statement(StatementView::Expression(value)) + follow,
            p,
        ) == (
            Ok::<StatementView, ErrorView>(StatementView::Expression(value)),
            ending(follow),
        ),
{
    let s = StatementView::Expression(value);
    let ts = spell_statement(s) + follow;
    let end = ending(follow);
    let after = seq![spell(value).last()] + end;
    assert(ts =~= spell(value) + end);
    assert(ts[0] == spell(value)[0]);
    assert(advance(after) =~= end);
}

/// A statement whose production reads it back is read back, with the
/// semicolon after it.
proof fn lemma_statement_around(
    s: StatementView,
    ts: Seq<TokenView>,
    follow: Seq<TokenView>,
    p: Precedence,
)
    requires
        ts.len() > 0,
        first(follow) != Some(TokenView::Semicolon),
        match s {
            StatementView::Let(..) => ts[0] == TokenView::Let && let_statement(ts, p) == (
                Ok::<StatementView, ErrorView>(s),
                ending(follow),
            ),
            StatementView::Return(..) => ts[0] == TokenView::Return && return_statement(ts, p)
                == (Ok::<StatementView, ErrorView>(s), ending(follow)),
            StatementView::Expression(..) => starts_plain(ts[0]) && expression_statement(ts, p)
                == (Ok::<StatementView, ErrorView>(s), ending(follow)),
            StatementView::EOF => false,
        },
    ensures
        statement(ts, p) == (Ok::<StatementView, ErrorView>(s), follow),
{
    let end = ending(follow);
    lemma_skip_semicolons(follow);
    assert(skip_semicolons(end) == follow) by {
        assert(end.skip(1) =~= follow);
    }
    lemma_skip_semicolons(ts);
}

/// The parser reads a statement back from the tokens that the printer
/// writes for it, up to what follows, where that is no semicolon.
pub proof fn lemma_statement(s: StatementView, follow: Seq<TokenView>, p: Precedence)
    requires
        plain_statement(s),
        p.rank() < Precedence::Call.rank(),
        first(follow) != Some(TokenView::Semicolon),
    ensures
        statement(spell_statement(s) + follow, p) == (
            Ok::<StatementView, ErrorView>(s),
            follow,
        ),
    decreases s, 0nat, 0nat,
{
    let value = value_of(s);
    let end = ending(follow);
    let ts = spell_statement(s) + follow;
    assert(end[0] == TokenView::Semicolon);
    lemma_expression(value, end, p);
    lemma_spell_first(value);
    let after = seq![spell(value).last()] + end;
    assert(peek(after) == Some(TokenView::Semicolon));
    lemma_suffixes_stop(value, after, p);
    match s {
        StatementView::Let(name, v) => {
            lemma_let(name, v, follow, p);
            assert(ts[0] == TokenView::Let);
        },
        StatementView::Return(v) => {
            lemma_return(v, follow, p);
            assert(ts[0] == TokenView::Return);
        },
        StatementView::Expression(v) => {
            lemma_expression_statement(v, follow, p);
            assert(ts[0] == spell(v)[0]);
        },
        StatementView::EOF => {},
    }
    lemma_statement_around(s, ts, follow, p);
}

/// The parser reads an expression back from the tokens that the printer
/// writes for it, where a token follows that ends it.
pub proof fn lemma_expression_round_trip(
    e: ExpressionView,
    follow: Seq<TokenView>,
    p: Precedence,
)
    requires
        plain(e),
        p.rank() < Precedence::Call.rank(),
        stops(first(follow), p),
        open_ended(e) ==> first(follow) != Some(TokenView::Else),
    ensures
        expression(spell(e) + follow, p) == (
            Ok::<ExpressionView, ErrorView>(e),
            seq![spell(e).last()] + follow,
        ),
{
    lemma_expression(e, follow, p);
    let after = seq![spell(e).last()] + follow;
    assert(peek(after) == first(follow));
    lemma_suffixes_stop(e, after, p);
}

/// The parser reads a program back from the tokens that the printer writes
/// for it.
pub proof fn lemma_program(list: Seq<StatementView>, from: int, done: Seq<StatementView>)
    requires
        0 <= from <= list.len(),
        plain_block(list),
    ensures
        program(spell_statements(list, from), done) == Ok::<Seq<StatementView>, ErrorView>(
            done + list.skip(from),
        ),
    decreases list.len() - from,
{
    let ts = spell_statements(list, from);
    lemma_spell_statements_first(list, from);
    if from == list.len() {
        assert(skip_semicolons(ts) == ts);
        assert(done + list.skip(from) =~= done);
    } else {
        let rest = spell_statements(list, from + 1);
        lemma_spell_statements_first(list, from + 1);
        lemma_statement(list[from], rest, Precedence::Lowest);
        lemma_statement_length(list[from]);
        lemma_program(list, from + 1, done.push(list[from]));
        assert(done.push(list[from]) + list.skip(from + 1) =~= done + list.skip(from));
    }
}

} // verus!
