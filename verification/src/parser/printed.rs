use super::ast::display;
use super::ast::expressions::{ExpressionView, InfixOp, PrefixOp};
use super::ast::statements::StatementView;
use super::spelling::{
    infix_token, plain, plain_block, plain_statement, prefix_token, spell, spell_block,
    spell_list, spell_names, spell_statement, spell_statements,
};
use crate::lexer::round_trip::{
    blank, detached, lemma_tokens_after_blank, lemma_tokens_after_lexeme, lexeme, produced,
};
use crate::lexer::token::TokenView;
use crate::lexer::{in_run, is_delimiter, is_digit, is_whitespace, tokens, Run};
use crate::text::{
    digits, indent, lemma_digits_spell, lemma_indent_concat, lemma_shift_concat,
    lemma_shift_first, lemma_shift_indent, lemma_shift_one_line, one_line, shift, without_last,
};
use vstd::prelude::*;

verus! {

// The text that the printer writes lexes to the tokens that it spells.
// Blocks are printed with their lines indented, and a block inside a block
// twice, so every statement is about a text indented any number of times.

/// Whether a character ends any token before it: it is whitespace or a
/// delimiter that combines with nothing before it.
pub open spec fn closes(c: char) -> bool {
    is_whitespace(c) || (is_delimiter(c) && c != '=' && c != '!')
}

/// Whether a text can follow any token: it is empty or starts with a
/// character that ends a token.
pub open spec fn closed(tail: Seq<char>) -> bool {
    tail.len() == 0 || closes(tail[0])
}

/// Whether a name is one that the lexer reads as an identifier.
pub open spec fn name(n: Seq<char>) -> bool {
    produced(TokenView::Ident(n))
}

/// Whether the names and string literals of an expression are such as the
/// lexer reads, and its string literals hold no line break.
pub open spec fn legible(e: ExpressionView) -> bool
    decreases e, 0nat,
{
    match e {
        ExpressionView::Identifier(n) => name(n),
        ExpressionView::Integer(_) => true,
        ExpressionView::Str(s) => produced(TokenView::Str(s)) && one_line(s),
        ExpressionView::Boolean(_) => true,
        ExpressionView::Prefix(_, right) => legible(*right),
        ExpressionView::Infix(left, _, right) => legible(*left) && legible(*right),
        ExpressionView::Call(function, arguments) => legible(*function) && forall|i: int|
            0 <= i < arguments.len() ==> legible(#[trigger] arguments[i]),
        ExpressionView::Array(elements) => forall|i: int|
            0 <= i < elements.len() ==> legible(#[trigger] elements[i]),
        ExpressionView::Index(left, index) => legible(*left) && legible(*index),
        ExpressionView::If(condition, consequence, alternative) => legible(*condition)
            && legible_block(consequence) && match alternative {
            Some(b) => legible_block(b),
            None => true,
        },
        ExpressionView::Function(parameters, body) => legible_block(body) && forall|i: int|
            0 <= i < parameters.len() ==> name(#[trigger] parameters[i]),
        ExpressionView::Block(body) => legible_block(body),
        ExpressionView::Hash(_) => true,
    }
}

/// `legible` for the statements of a block.
pub open spec fn legible_block(body: Seq<StatementView>) -> bool
    decreases body, body.len() + 1,
{
    forall|i: int| 0 <= i < body.len() ==> legible_statement(#[trigger] body[i])
}

/// `legible` for a statement.
pub open spec fn legible_statement(s: StatementView) -> bool
    decreases s, 0nat,
{
    match s {
        StatementView::Let(n, value) => name(n) && legible(value),
        StatementView::Return(value) => legible(value),
        StatementView::Expression(value) => legible(value),
        StatementView::EOF => true,
    }
}

/// The texts of the printer's fixed pieces, character by character.
pub proof fn lemma_pieces()
    ensures
        "("@ == seq!['('],
        ")"@ == seq![')'],
        " "@ == seq![' '],
        "!"@ == seq!['!'],
        "-"@ == seq!['-'],
        "+"@ == seq!['+'],
        "*"@ == seq!['*'],
        "/"@ == seq!['/'],
        "=="@ == seq!['=', '='],
        "!="@ == seq!['!', '='],
        "<"@ == seq!['<'],
        ">"@ == seq!['>'],
        "true"@ == seq!['t', 'r', 'u', 'e'],
        "false"@ == seq!['f', 'a', 'l', 's', 'e'],
        "if ("@ == seq!['i', 'f', ' ', '('],
        ") "@ == seq![')', ' '],
        " else "@ == seq![' ', 'e', 'l', 's', 'e', ' '],
        "fn("@ == seq!['f', 'n', '('],
        ", "@ == seq![',', ' '],
        "["@ == seq!['['],
        "]"@ == seq![']'],
        "{\n"@ == seq!['{', '\n'],
        "}"@ == seq!['}'],
        "\n"@ == seq!['\n'],
        "hash!{\n"@ == seq!['h', 'a', 's', 'h', '!', '{', '\n'],
        "let "@ == seq!['l', 'e', 't', ' '],
        " = "@ == seq![' ', '=', ' '],
        ";"@ == seq![';'],
        "return "@ == seq!['r', 'e', 't', 'u', 'r', 'n', ' '],
        "\""@ == seq!['"'],
{
    reveal_strlit("(");
    reveal_strlit(")");
    reveal_strlit(" ");
    reveal_strlit("!");
    reveal_strlit("-");
    reveal_strlit("+");
    reveal_strlit("*");
    reveal_strlit("/");
    reveal_strlit("==");
    reveal_strlit("!=");
    reveal_strlit("<");
    reveal_strlit(">");
    reveal_strlit("true");
    reveal_strlit("false");
    reveal_strlit("if (");
    reveal_strlit(") ");
    reveal_strlit(" else ");
    reveal_strlit("fn(");
    reveal_strlit(", ");
    reveal_strlit("[");
    reveal_strlit("]");
    reveal_strlit("{\n");
    reveal_strlit("}");
    reveal_strlit("\n");
    reveal_strlit("hash!{\n");
    reveal_strlit("let ");
    reveal_strlit(" = ");
    reveal_strlit(";");
    reveal_strlit("return ");
    reveal_strlit("\"");
    assert("("@ =~= seq!['(']);
    assert(")"@ =~= seq![')']);
    assert(" "@ =~= seq![' ']);
    assert("!"@ =~= seq!['!']);
    assert("-"@ =~= seq!['-']);
    assert("+"@ =~= seq!['+']);
    assert("*"@ =~= seq!['*']);
    assert("/"@ =~= seq!['/']);
    assert("=="@ =~= seq!['=', '=']);
    assert("!="@ =~= seq!['!', '=']);
    assert("<"@ =~= seq!['<']);
    assert(">"@ =~= seq!['>']);
    assert("true"@ =~= seq!['t', 'r', 'u', 'e']);
    assert("false"@ =~= seq!['f', 'a', 'l', 's', 'e']);
    assert("if ("@ =~= seq!['i', 'f', ' ', '(']);
    assert(") "@ =~= seq![')', ' ']);
    assert(" else "@ =~= seq![' ', 'e', 'l', 's', 'e', ' ']);
    assert("fn("@ =~= seq!['f', 'n', '(']);
    assert(", "@ =~= seq![',', ' ']);
    assert("["@ =~= seq!['[']);
    assert("]"@ =~= seq![']']);
    assert("{\n"@ =~= seq!['{', '\n']);
    assert("}"@ =~= seq!['}']);
    assert("\n"@ =~= seq!['\n']);
    assert("hash!{\n"@ =~= seq!['h', 'a', 's', 'h', '!', '{', '\n']);
    assert("let "@ =~= seq!['l', 'e', 't', ' ']);
    assert(" = "@ =~= seq![' ', '=', ' ']);
    assert(";"@ =~= seq![';']);
    assert("return "@ =~= seq!['r', 'e', 't', 'u', 'r', 'n', ' ']);
    assert("\""@ =~= seq!['"']);
}

/// Whitespace stays whitespace when it is indented.
proof fn lemma_indent_blank(w: Seq<char>)
    requires
        blank(w),
    ensures
        blank(indent(w)),
    decreases w.len(),
{
    if w.len() > 0 {
        assert(blank(w.drop_last())) by {
            assert forall|i: int| 0 <= i < w.drop_last().len() implies is_whitespace(
                #[trigger] w.drop_last()[i],
            ) by {
                assert(w.drop_last()[i] == w[i]);
            }
        }
        lemma_indent_blank(w.drop_last());
        assert(is_whitespace(w.last())) by {
            assert(w.last() == w[w.len() - 1]);
        }
        let front = indent(w.drop_last());
        assert forall|i: int| 0 <= i < indent(w).len() implies is_whitespace(
            #[trigger] indent(w)[i],
        ) by {
            if i < front.len() {
                assert(indent(w)[i] == front[i]);
            }
        }
    }
}

/// Whitespace stays whitespace however often it is indented.
proof fn lemma_shift_blank(w: Seq<char>, k: nat)
    requires
        blank(w),
    ensures
        blank(shift(w, k)),
    decreases k,
{
    if k > 0 {
        lemma_shift_blank(w, (k - 1) as nat);
        lemma_indent_blank(shift(w, (k - 1) as nat));
    }
}

/// Indented whitespace before a text does not change its tokens.
proof fn lemma_gap(w: Seq<char>, k: nat, tail: Seq<char>)
    requires
        blank(w),
    ensures
        tokens(shift(w, k) + tail) == tokens(tail),
{
    lemma_shift_blank(w, k);
    lemma_tokens_after_blank(shift(w, k), tail);
}

/// The lexeme of a token, however often indented, is read as the token
/// before a text detached from it.
proof fn lemma_piece(t: TokenView, k: nat, tail: Seq<char>)
    requires
        produced(t),
        one_line(lexeme(t)),
        detached(t, tail),
    ensures
        tokens(shift(lexeme(t), k) + tail) == seq![t] + tokens(tail),
{
    lemma_shift_one_line(lexeme(t), k);
    lemma_tokens_after_lexeme(t, tail);
}

/// A text that is indented part by part, before another.
proof fn lemma_split(a: Seq<char>, b: Seq<char>, k: nat, tail: Seq<char>)
    ensures
        shift(a + b, k) + tail == shift(a, k) + (shift(b, k) + tail),
{
    lemma_shift_concat(a, b, k);
    assert(shift(a, k) + shift(b, k) + tail =~= shift(a, k) + (shift(b, k) + tail));
}

/// The lexemes of the tokens that the lexer produces hold no line break,
/// but for those of string literals.
proof fn lemma_lexeme_one_line(t: TokenView)
    requires
        produced(t),
        t matches TokenView::Str(s) ==> one_line(s),
    ensures
        one_line(lexeme(t)),
{
    match t {
        TokenView::Ident(s) => {
            assert forall|i: int| 0 <= i < s.len() implies #[trigger] s[i] != '\n' by {
                assert(in_run(Run::Word, s[i]));
            }
        },
        TokenView::Int(s) => {
            assert forall|i: int| 0 <= i < s.len() implies #[trigger] s[i] != '\n' by {
                assert(in_run(Run::Number, s[i]));
            }
        },
        TokenView::Str(s) => {
            let l = lexeme(t);
            assert forall|i: int| 0 <= i < l.len() implies #[trigger] l[i] != '\n' by {
                if 0 < i < l.len() - 1 {
                    assert(l[i] == s[i - 1]);
                }
            }
        },
        _ => {},
    }
}

/// A text that starts with a character that ends a token is detached from
/// every token.
proof fn lemma_closed_detached(t: TokenView, tail: Seq<char>)
    requires
        closed(tail),
    ensures
        detached(t, tail),
{
}

/// The text of a name or a literal is read as its token.
proof fn lemma_printed_atom(e: ExpressionView, k: nat, tail: Seq<char>)
    requires
        plain(e),
        legible(e),
        e is Identifier || e is Integer || e is Str || e is Boolean,
        closed(tail),
    ensures
        tokens(shift(display::expression(e), k) + tail) == spell(e) + tokens(tail),
{
    lemma_pieces();
    let t = spell(e)[0];
    match e {
        ExpressionView::Integer(i) => {
            lemma_digits_spell(i as nat);
            assert(produced(t));
        },
        ExpressionView::Str(s) => {
            assert(display::expression(e) =~= lexeme(t));
        },
        _ => {},
    }
    assert(display::expression(e) == lexeme(t));
    lemma_lexeme_one_line(t);
    lemma_closed_detached(t, tail);
    lemma_piece(t, k, tail);
    assert(spell(e) =~= seq![t]);
}

/// The text of an expression is not empty, and starts with no whitespace
/// and no equals sign.
pub proof fn lemma_display_first(e: ExpressionView)
    requires
        plain(e),
        legible(e),
    ensures
        display::expression(e).len() > 0,
        !is_whitespace(display::expression(e)[0]),
        display::expression(e)[0] != '=',
    decreases e,
{
    lemma_pieces();
    match e {
        ExpressionView::Identifier(n) => {
            assert(in_run(Run::Word, n[0]));
        },
        ExpressionView::Integer(i) => {
            lemma_digits_spell(i as nat);
            assert(is_digit(digits(i as nat)[0]));
        },
        ExpressionView::Call(function, arguments) => {
            lemma_display_first(*function);
            assert(display::expression(e)[0] == display::expression(*function)[0]);
        },
        ExpressionView::Index(left, index) => {
            lemma_display_first(*left);
            assert(display::expression(e)[0] == display::expression(*left)[0]);
        },
        ExpressionView::Str(s) => {
            assert(display::expression(e)[0] == '"');
        },
        ExpressionView::Prefix(..) | ExpressionView::Infix(..) => {
            assert(display::expression(e)[0] == '(');
        },
        ExpressionView::Boolean(b) => {},
        ExpressionView::If(condition, consequence, alternative) => {
            let head = "if ("@ + display::expression(*condition) + ") "@ + display::tabbed(
                display::block(consequence),
            );
            assert(head[0] == 'i');
            assert(display::expression(e)[0] == 'i');
        },
        ExpressionView::Function(..) => {
            assert(display::expression(e)[0] == 'f');
        },
        ExpressionView::Array(..) => {
            assert(display::expression(e)[0] == '[');
        },
        ExpressionView::Block(body) => {
            assert(display::block(body)[0] == '{');
        },
        ExpressionView::Hash(..) => {
            assert(display::expression(e)[0] == 'h');
        },
    }
}

/// The tokens of the first `n` items of a list, with a comma between each
/// two.
pub open spec fn spell_front(items: Seq<ExpressionView>, n: int) -> Seq<TokenView>
    decreases n,
{
    if n <= 0 || n > items.len() {
        Seq::empty()
    } else if n == 1 {
        spell(items[0])
    } else {
        spell_front(items, n - 1) + seq![TokenView::Comma] + spell(items[n - 1])
    }
}

/// The tokens of the first items of a list and those of the rest make up
/// those of the list.
proof fn lemma_spell_front(items: Seq<ExpressionView>, n: int)
    requires
        0 <= n <= items.len(),
    ensures
        spell_list(items, 0) == if n == items.len() {
            spell_front(items, n)
        } else if n == 0 {
            spell_list(items, 0)
        } else {
            spell_front(items, n) + seq![TokenView::Comma] + spell_list(items, n)
        },
    decreases n,
{
    if n > 0 {
        lemma_spell_front(items, n - 1);
        let last = spell(items[n - 1]);
        if n == 1 {
            if n < items.len() {
                assert(spell_list(items, 0) =~= spell_front(items, 1) + seq![TokenView::Comma]
                    + spell_list(items, 1));
            }
        } else {
            let front = spell_front(items, n - 1) + seq![TokenView::Comma];
            if n < items.len() {
                assert(front + (last + seq![TokenView::Comma] + spell_list(items, n)) =~= front
                    + last + seq![TokenView::Comma] + spell_list(items, n));
            }
        }
    } else {
        if items.len() == 0 {
            assert(spell_list(items, 0) =~= spell_front(items, 0));
        }
    }
}

/// The text of a parenthesised operand of a unary operator is read as its
/// tokens.
proof fn lemma_printed_prefix(
    op: PrefixOp,
    right: ExpressionView,
    k: nat,
    tail: Seq<char>,
)
    requires
        plain(right),
        legible(right),
        tokens(shift(display::expression(right), k) + (seq![')'] + tail)) == spell(right)
            + tokens(seq![')'] + tail),
    ensures
        tokens(
            shift(display::expression(ExpressionView::Prefix(op, Box::new(right))), k) + tail,
        ) == spell(ExpressionView::Prefix(op, Box::new(right))) + tokens(tail),
{
    lemma_pieces();
    let e = ExpressionView::Prefix(op, Box::new(right));
    let dr = display::expression(right);
    let o = prefix_token(op);
    let t1 = seq![')'] + tail;
    let t2 = shift(dr, k) + t1;
    let t3 = shift(lexeme(o), k) + t2;
    assert(display::prefix_op(op) == lexeme(o));
    lemma_shift_one_line(seq![')'], k);
    lemma_split(seq!['('] + lexeme(o) + dr, seq![')'], k, tail);
    lemma_split(seq!['('] + lexeme(o), dr, k, t1);
    lemma_split(seq!['('], lexeme(o), k, t2);
    assert(shift(display::expression(e), k) + tail == shift(seq!['('], k) + t3);
    lemma_piece(TokenView::LParen, k, t3);
    lemma_display_first(right);
    lemma_shift_first(dr, k);
    assert(t2[0] == dr[0]);
    lemma_piece(o, k, t2);
    lemma_piece(TokenView::RParen, 0, tail);
    assert(spell(e) + tokens(tail) =~= seq![TokenView::LParen] + (seq![o] + (spell(right) + (
    seq![TokenView::RParen] + tokens(tail)))));
}

/// The text of a parenthesised application of a binary operator is read as
/// its tokens.
proof fn lemma_printed_infix(
    left: ExpressionView,
    op: InfixOp,
    right: ExpressionView,
    k: nat,
    tail: Seq<char>,
)
    requires
        tokens(shift(display::expression(right), k) + (seq![')'] + tail)) == spell(right)
            + tokens(seq![')'] + tail),
        ({
            let after = seq![' '] + (lexeme(infix_token(op)) + (seq![' '] + (shift(
                display::expression(right),
                k,
            ) + (seq![')'] + tail))));
            tokens(shift(display::expression(left), k) + after) == spell(left) + tokens(after)
        }),
    ensures
        tokens(
            shift(
                display::expression(ExpressionView::Infix(Box::new(left), op, Box::new(right))),
                k,
            ) + tail,
        ) == spell(ExpressionView::Infix(Box::new(left), op, Box::new(right))) + tokens(tail),
{
    lemma_pieces();
    let e = ExpressionView::Infix(Box::new(left), op, Box::new(right));
    let dl = display::expression(left);
    let dr = display::expression(right);
    let o = infix_token(op);
    let sp = seq![' '];
    assert(display::infix_op(op) == lexeme(o));
    let t1 = seq![')'] + tail;
    let t2 = shift(dr, k) + t1;
    let t3 = sp + t2;
    let t4 = lexeme(o) + t3;
    let t5 = sp + t4;
    let t6 = shift(dl, k) + t5;
    lemma_shift_one_line(seq![')'], k);
    lemma_shift_one_line(sp, k);
    lemma_shift_one_line(lexeme(o), k);
    lemma_split(seq!['('] + dl + sp + lexeme(o) + sp + dr, seq![')'], k, tail);
    lemma_split(seq!['('] + dl + sp + lexeme(o) + sp, dr, k, t1);
    lemma_split(seq!['('] + dl + sp + lexeme(o), sp, k, t2);
    lemma_split(seq!['('] + dl + sp, lexeme(o), k, t3);
    lemma_split(seq!['('] + dl, sp, k, t4);
    lemma_split(seq!['('], dl, k, t5);
    assert(shift(display::expression(e), k) + tail == shift(seq!['('], k) + t6);
    lemma_piece(TokenView::LParen, k, t6);
    lemma_gap(sp, 0, t4);
    assert(t3[0] == ' ');
    lemma_piece(o, 0, t3);
    lemma_gap(sp, 0, t2);
    lemma_piece(TokenView::RParen, 0, tail);
    assert(spell(e) + tokens(tail) =~= seq![TokenView::LParen] + (spell(left) + (seq![o] + (
    spell(right) + (seq![TokenView::RParen] + tokens(tail))))));
}

/// The text of a call or an array literal is read as its tokens, where the
/// text of what stands before the list and the text of the list are.
proof fn lemma_printed_brackets(
    before: Seq<char>,
    before_tokens: Seq<TokenView>,
    items: Seq<ExpressionView>,
    open: TokenView,
    close: TokenView,
    k: nat,
    tail: Seq<char>,
)
    requires
        (open == TokenView::LParen && close == TokenView::RParen) || (open == TokenView::LSquare
            && close == TokenView::RSquare),
        ({
            let end = lexeme(close) + tail;
            let inner = shift(display::list(items, items.len() as int), k) + end;
            let after = lexeme(open) + inner;
            &&& tokens(shift(before, k) + after) == before_tokens + tokens(after)
            &&& tokens(inner) == spell_list(items, 0) + tokens(end)
        }),
    ensures
        tokens(
            shift(before + lexeme(open) + display::list(items, items.len() as int) + lexeme(close), k)
                + tail,
        ) == before_tokens + seq![open] + spell_list(items, 0) + seq![close] + tokens(tail),
{
    let dl = display::list(items, items.len() as int);
    let end = lexeme(close) + tail;
    let inner = shift(dl, k) + end;
    let after = lexeme(open) + inner;
    lemma_shift_one_line(lexeme(close), k);
    lemma_shift_one_line(lexeme(open), k);
    lemma_split(before + lexeme(open) + dl, lexeme(close), k, tail);
    lemma_split(before + lexeme(open), dl, k, end);
    lemma_split(before, lexeme(open), k, inner);
    lemma_piece(open, 0, inner);
    lemma_piece(close, 0, tail);
    assert(before_tokens + (seq![open] + (spell_list(items, 0) + (seq![close] + tokens(tail))))
        =~= before_tokens + seq![open] + spell_list(items, 0) + seq![close] + tokens(tail));
}

/// The text of an indexing is read as its tokens.
proof fn lemma_printed_index(
    left: ExpressionView,
    inner: ExpressionView,
    k: nat,
    tail: Seq<char>,
)
    requires
        tokens(shift(display::expression(inner), k) + (seq![']'] + tail)) == spell(inner)
            + tokens(seq![']'] + tail),
        ({
            let after = seq!['['] + (shift(display::expression(inner), k) + (seq![']'] + tail));
            tokens(shift(display::expression(left), k) + after) == spell(left) + tokens(after)
        }),
    ensures
        tokens(
            shift(
                display::expression(ExpressionView::Index(Box::new(left), Box::new(inner))),
                k,
            ) + tail,
        ) == spell(ExpressionView::Index(Box::new(left), Box::new(inner))) + tokens(tail),
{
    lemma_pieces();
    let e = ExpressionView::Index(Box::new(left), Box::new(inner));
    let dl = display::expression(left);
    let di = display::expression(inner);
    let t1 = seq![']'] + tail;
    let t2 = shift(di, k) + t1;
    let t3 = seq!['['] + t2;
    lemma_shift_one_line(seq![']'], k);
    lemma_shift_one_line(seq!['['], k);
    lemma_split(dl + seq!['['] + di, seq![']'], k, tail);
    lemma_split(dl + seq!['['], di, k, t1);
    lemma_split(dl, seq!['['], k, t2);
    assert(shift(display::expression(e), k) + tail == shift(dl, k) + t3);
    lemma_piece(TokenView::LSquare, 0, t2);
    lemma_piece(TokenView::RSquare, 0, tail);
    assert(spell(e) + tokens(tail) =~= spell(left) + (seq![TokenView::LSquare] + (spell(inner)
        + (seq![TokenView::RSquare] + tokens(tail)))));
}

/// The lexeme of a token and a space after it are read as the token.
proof fn lemma_piece_gap(t: TokenView, k: nat, tail: Seq<char>)
    requires
        produced(t),
        one_line(lexeme(t)),
        !(t is Str),
    ensures
        shift(lexeme(t) + seq![' '], k) == lexeme(t) + seq![' '],
        tokens(shift(lexeme(t) + seq![' '], k) + tail) == seq![t] + tokens(tail),
{
    let sp = seq![' '];
    lemma_shift_one_line(lexeme(t), k);
    lemma_shift_one_line(sp, k);
    lemma_split(lexeme(t), sp, k, tail);
    lemma_shift_concat(lexeme(t), sp, k);
    let rest = sp + tail;
    assert(rest[0] == ' ');
    lemma_piece(t, 0, rest);
    lemma_gap(sp, 0, tail);
}

/// The lexeme of a token between two spaces is read as the token.
proof fn lemma_gap_piece_gap(t: TokenView, k: nat, tail: Seq<char>)
    requires
        produced(t),
        one_line(lexeme(t)),
        !(t is Str),
    ensures
        tokens(shift(seq![' '] + lexeme(t) + seq![' '], k) + tail) == seq![t] + tokens(tail),
{
    let sp = seq![' '];
    lemma_piece_gap(t, k, tail);
    lemma_shift_one_line(sp, k);
    lemma_shift_concat(sp, lexeme(t) + sp, k);
    assert(sp + lexeme(t) + sp =~= sp + (lexeme(t) + sp));
    assert(shift(sp + lexeme(t) + sp, k) + tail =~= sp + (shift(lexeme(t) + sp, k) + tail));
    lemma_gap(sp, 0, shift(lexeme(t) + sp, k) + tail);
}

/// The tokens of the first `n` names of a list, with a comma between each
/// two.
pub open spec fn spell_front_names(names: Seq<Seq<char>>, n: int) -> Seq<TokenView>
    decreases n,
{
    if n <= 0 || n > names.len() {
        Seq::empty()
    } else if n == 1 {
        seq![TokenView::Ident(names[0])]
    } else {
        spell_front_names(names, n - 1) + seq![TokenView::Comma, TokenView::Ident(names[n - 1])]
    }
}

/// The tokens of the first names of a list and those of the rest make up
/// those of the list.
proof fn lemma_spell_front_names(names: Seq<Seq<char>>, n: int)
    requires
        0 <= n <= names.len(),
    ensures
        spell_names(names, 0) == if n == names.len() {
            spell_front_names(names, n)
        } else if n == 0 {
            spell_names(names, 0)
        } else {
            spell_front_names(names, n) + seq![TokenView::Comma] + spell_names(names, n)
        },
    decreases n,
{
    if n > 0 {
        lemma_spell_front_names(names, n - 1);
        let last = seq![TokenView::Ident(names[n - 1])];
        if n == 1 {
            if n < names.len() {
                assert(spell_names(names, 0) =~= spell_front_names(names, 1)
                    + seq![TokenView::Comma] + spell_names(names, 1));
            }
        } else {
            let front = spell_front_names(names, n - 1);
            if n < names.len() {
                assert(front + seq![TokenView::Comma] + (seq![
                    TokenView::Ident(names[n - 1]),
                    TokenView::Comma,
                ] + spell_names(names, n)) =~= front + seq![
                    TokenView::Comma,
                    TokenView::Ident(names[n - 1]),
                ] + seq![TokenView::Comma] + spell_names(names, n));
            } else {
                assert(front + seq![TokenView::Comma] + last =~= front + seq![
                    TokenView::Comma,
                    TokenView::Ident(names[n - 1]),
                ]);
            }
        }
    } else {
        if names.len() == 0 {
            assert(spell_names(names, 0) =~= spell_front_names(names, 0));
        }
    }
}

/// The tokens of the first `n` statements of a list.
pub open spec fn spell_front_statements(list: Seq<StatementView>, n: int) -> Seq<TokenView>
    decreases n,
{
    if n <= 0 || n > list.len() {
        Seq::empty()
    } else {
        spell_front_statements(list, n - 1) + spell_statement(list[n - 1])
    }
}

/// The tokens of the first statements of a list and those of the rest make
/// up those of the list.
pub proof fn lemma_spell_front_statements(list: Seq<StatementView>, n: int)
    requires
        0 <= n <= list.len(),
    ensures
        spell_statements(list, 0) == spell_front_statements(list, n) + spell_statements(list, n),
    decreases n,
{
    if n > 0 {
        lemma_spell_front_statements(list, n - 1);
        assert(spell_front_statements(list, n - 1) + (spell_statement(list[n - 1])
            + spell_statements(list, n)) =~= spell_front_statements(list, n) + spell_statements(
            list,
            n,
        ));
    } else {
        assert(spell_front_statements(list, 0) + spell_statements(list, 0) =~= spell_statements(
            list,
            0,
        ));
    }
}

/// The text of the first `n` parameters of a function literal is read as
/// their tokens.
proof fn lemma_printed_names(names: Seq<Seq<char>>, n: int, k: nat, tail: Seq<char>)
    requires
        forall|i: int| 0 <= i < names.len() ==> name(#[trigger] names[i]),
        0 <= n <= names.len(),
        closed(tail),
    ensures
        tokens(shift(display::names(names, n), k) + tail) == spell_front_names(names, n) + tokens(
            tail,
        ),
    decreases n,
{
    lemma_pieces();
    if n == 0 {
        lemma_shift_one_line(Seq::<char>::empty(), k);
        assert(Seq::<char>::empty() + tail =~= tail);
        assert(spell_front_names(names, n) + tokens(tail) =~= tokens(tail));
    } else {
        let t = TokenView::Ident(names[n - 1]);
        lemma_lexeme_one_line(t);
        lemma_closed_detached(t, tail);
        lemma_piece(t, k, tail);
        if n == 1 {
        } else {
            let front = display::names(names, n - 1);
            let sep = lexeme(TokenView::Comma) + seq![' '];
            let t1 = shift(names[n - 1], k) + tail;
            let t2 = shift(sep, k) + t1;
            assert(", "@ =~= sep);
            lemma_split(front + sep, names[n - 1], k, tail);
            lemma_split(front, sep, k, t1);
            lemma_piece_gap(TokenView::Comma, k, t1);
            assert(t2[0] == ',');
            lemma_printed_names(names, n - 1, k, t2);
            assert(spell_front_names(names, n) + tokens(tail) =~= spell_front_names(
                names,
                n - 1,
            ) + (seq![TokenView::Comma] + (seq![t] + tokens(tail))));
        }
    }
}

/// The rows of a block as it stands after `if`, `else` and a parameter
/// list: each of its first `n` statements, indented, on a line that starts
/// with two spaces.
pub open spec fn rows(list: Seq<StatementView>, n: int) -> Seq<char>
    decreases n,
{
    if n <= 0 || n > list.len() {
        Seq::empty()
    } else {
        rows(list, n - 1) + seq![' ', ' '] + indent(display::statement(list[n - 1])) + seq!['\n']
    }
}

/// The indented lines of a block are its rows, but for where their two
/// spaces stand.
proof fn lemma_rows(list: Seq<StatementView>, n: int)
    requires
        0 <= n <= list.len(),
    ensures
        seq![' ', ' '] + indent(display::lines(list, n)) == rows(list, n) + seq![' ', ' '],
    decreases n,
{
    lemma_pieces();
    if n == 0 {
        assert(indent(display::lines(list, n)) =~= Seq::<char>::empty());
        assert(seq![' ', ' '] + Seq::<char>::empty() =~= rows(list, n) + seq![' ', ' ']);
    } else {
        lemma_rows(list, n - 1);
        let before = display::lines(list, n - 1);
        let st = display::statement(list[n - 1]);
        let nl = seq!['\n'];
        lemma_indent_concat(before + st, nl);
        lemma_indent_concat(before, st);
        assert(nl.drop_last() =~= Seq::<char>::empty());
        assert(indent(nl.drop_last()) =~= Seq::<char>::empty());
        assert(indent(nl) =~= seq!['\n', ' ', ' ']);
        assert(seq![' ', ' '] + (indent(before) + indent(st) + seq!['\n', ' ', ' ']) =~= (seq![
            ' ',
            ' ',
        ] + indent(before)) + indent(st) + seq!['\n'] + seq![' ', ' ']);
        assert(rows(list, n - 1) + seq![' ', ' '] + indent(st) + seq!['\n'] + seq![' ', ' ']
            =~= rows(list, n) + seq![' ', ' ']);
    }
}

/// The text of a block after `if`, `else` and a parameter list: an opening
/// brace, its rows and a closing brace.
proof fn lemma_tabbed(list: Seq<StatementView>)
    ensures
        display::tabbed(display::block(list)) == seq!['{', '\n'] + rows(list, list.len() as int)
            + seq!['}'],
{
    lemma_pieces();
    let n = list.len() as int;
    let lines = display::lines(list, n);
    let open = seq!['{', '\n'];
    let close = seq!['}'];
    lemma_rows(list, n);
    lemma_indent_concat(open + lines, close);
    lemma_indent_concat(open, lines);
    assert(indent(open) =~= seq!['{', '\n', ' ', ' ']) by {
        let a = seq!['{'];
        assert(open.drop_last() =~= a);
        assert(a.drop_last() =~= Seq::<char>::empty());
        assert(indent(a.drop_last()) =~= Seq::<char>::empty());
        assert(indent(a) =~= a);
    }
    assert(indent(close) =~= close) by {
        assert(close.drop_last() =~= Seq::<char>::empty());
        assert(indent(close.drop_last()) =~= Seq::<char>::empty());
    }
    let whole = indent(display::block(list));
    let body = open + rows(list, n);
    assert(whole =~= seq!['{', '\n', ' ', ' '] + indent(lines) + close);
    assert(seq!['{', '\n', ' ', ' '] + indent(lines) =~= open + (seq![' ', ' '] + indent(lines)));
    assert(whole =~= body + seq![' ', ' ', '}']);
    assert(without_last(whole, 3) =~= body);
}

/// The text of a `let` is read as its tokens, where the text of its
/// expression is.
proof fn lemma_printed_let(n: Seq<char>, value: ExpressionView, k: nat, tail: Seq<char>)
    requires
        name(n),
        tokens(shift(display::expression(value), k) + (seq![';'] + tail)) == spell(value)
            + tokens(seq![';'] + tail),
    ensures
        tokens(shift(display::statement(StatementView::Let(n, value)), k) + tail)
            == spell_statement(StatementView::Let(n, value)) + tokens(tail),
{
    lemma_pieces();
    let s = StatementView::Let(n, value);
    let dv = display::expression(value);
    let sp = seq![' '];
    let head = lexeme(TokenView::Let) + sp;
    let eq = sp + lexeme(TokenView::Assign) + sp;
    let t1 = seq![';'] + tail;
    let t2 = shift(dv, k) + t1;
    let t3 = shift(eq, k) + t2;
    let t4 = shift(n, k) + t3;
    assert("let "@ =~= head);
    assert(" = "@ =~= eq);
    lemma_shift_one_line(seq![';'], k);
    lemma_split(head + n + eq + dv, seq![';'], k, tail);
    lemma_split(head + n + eq, dv, k, t1);
    lemma_split(head + n, eq, k, t2);
    lemma_split(head, n, k, t3);
    lemma_piece_gap(TokenView::Let, k, t4);
    lemma_lexeme_one_line(TokenView::Ident(n));
    lemma_shift_one_line(sp, k);
    lemma_shift_concat(sp, lexeme(TokenView::Assign) + sp, k);
    lemma_piece_gap(TokenView::Assign, k, t2);
    assert(eq =~= sp + (lexeme(TokenView::Assign) + sp));
    assert(t3[0] == ' ');
    lemma_piece(TokenView::Ident(n), k, t3);
    lemma_gap_piece_gap(TokenView::Assign, k, t2);
    lemma_piece(TokenView::Semicolon, 0, tail);
    assert(spell_statement(s) + tokens(tail) =~= seq![TokenView::Let] + (seq![
        TokenView::Ident(n),
    ] + (seq![TokenView::Assign] + (spell(value) + (seq![TokenView::Semicolon] + tokens(
        tail,
    ))))));
}

/// The text of a `return` or of an expression statement is read as its
/// tokens, where the text of its expression is.
proof fn lemma_printed_return(s: StatementView, k: nat, tail: Seq<char>)
    requires
        s is Return || s is Expression,
        ({
            let value = match s {
                StatementView::Return(v) => v,
                StatementView::Expression(v) => v,
                _ => ExpressionView::Boolean(false),
            };
            tokens(shift(display::expression(value), k) + (seq![';'] + tail)) == spell(value)
                + tokens(seq![';'] + tail)
        }),
    ensures
        tokens(shift(display::statement(s), k) + tail) == spell_statement(s) + tokens(tail),
{
    lemma_pieces();
    let t1 = seq![';'] + tail;
    lemma_shift_one_line(seq![';'], k);
    lemma_piece(TokenView::Semicolon, 0, tail);
    match s {
        StatementView::Return(value) => {
            let dv = display::expression(value);
            let head = lexeme(TokenView::Return) + seq![' '];
            let t2 = shift(dv, k) + t1;
            assert("return "@ =~= head);
            lemma_split(head + dv, seq![';'], k, tail);
            lemma_split(head, dv, k, t1);
            lemma_piece_gap(TokenView::Return, k, t2);
            assert(spell_statement(s) + tokens(tail) =~= seq![TokenView::Return] + (spell(value)
                + (seq![TokenView::Semicolon] + tokens(tail))));
        },
        StatementView::Expression(value) => {
            let dv = display::expression(value);
            lemma_split(dv, seq![';'], k, tail);
            assert(spell_statement(s) + tokens(tail) =~= spell(value) + (seq![
                TokenView::Semicolon,
            ] + tokens(tail)));
        },
        _ => {},
    }
}

/// The text of a block is read as its tokens, where the text of its lines
/// is.
proof fn lemma_printed_braces(list: Seq<StatementView>, inside: Seq<char>, k: nat, tail: Seq<char>)
    requires
        tokens(shift(inside, k) + (seq!['}'] + tail)) == spell_front_statements(
            list,
            list.len() as int,
        ) + tokens(seq!['}'] + tail),
    ensures
        tokens(shift(seq!['{', '\n'] + inside + seq!['}'], k) + tail) == spell_block(list)
            + tokens(tail),
{
    let open = seq!['{'];
    let nl = seq!['\n'];
    let t1 = seq!['}'] + tail;
    let t2 = shift(inside, k) + t1;
    let t3 = shift(nl, k) + t2;
    assert(seq!['{', '\n'] =~= open + nl);
    lemma_shift_one_line(seq!['}'], k);
    lemma_split(open + nl + inside, seq!['}'], k, tail);
    lemma_split(open + nl, inside, k, t1);
    lemma_split(open, nl, k, t2);
    lemma_piece(TokenView::LBrace, k, t3);
    lemma_gap(nl, k, t2);
    lemma_piece(TokenView::RBrace, 0, tail);
    lemma_spell_front_statements(list, list.len() as int);
    assert(spell_statements(list, list.len() as int) =~= Seq::<TokenView>::empty());
    assert(spell_block(list) + tokens(tail) =~= seq![TokenView::LBrace] + (
    spell_front_statements(list, list.len() as int) + (seq![TokenView::RBrace] + tokens(tail))));
}

/// The text of an `if` up to the end of its consequence is read as its
/// tokens, where the texts of its condition and consequence are.
proof fn lemma_printed_if_head(
    dc: Seq<char>,
    sc: Seq<TokenView>,
    yes: Seq<char>,
    sy: Seq<TokenView>,
    k: nat,
    rest: Seq<char>,
)
    requires
        tokens(shift(dc, k) + (seq![')', ' '] + (shift(yes, k) + rest))) == sc + tokens(
            seq![')', ' '] + (shift(yes, k) + rest),
        ),
        tokens(shift(yes, k) + rest) == sy + tokens(rest),
    ensures
        tokens(shift(seq!['i', 'f', ' ', '('] + dc + seq![')', ' '] + yes, k) + rest) == seq![
            TokenView::If,
            TokenView::LParen,
        ] + sc + seq![TokenView::RParen] + sy + tokens(rest),
{
    let sp = seq![' '];
    let start = seq!['i', 'f', ' ', '('];
    let close = seq![')', ' '];
    assert(start =~= lexeme(TokenView::If) + sp + lexeme(TokenView::LParen));
    assert(close =~= lexeme(TokenView::RParen) + sp);
    let blocks = shift(yes, k) + rest;
    lemma_piece_gap(TokenView::RParen, k, blocks);
    let after = shift(close, k) + blocks;
    assert(after == close + blocks);
    let t1 = shift(dc, k) + after;
    lemma_split(start + dc + close, yes, k, rest);
    lemma_split(start + dc, close, k, blocks);
    lemma_split(start, dc, k, after);
    lemma_piece_gap(TokenView::If, k, shift(lexeme(TokenView::LParen), k) + t1);
    lemma_split(lexeme(TokenView::If) + sp, lexeme(TokenView::LParen), k, t1);
    lemma_piece(TokenView::LParen, k, t1);
    assert(seq![TokenView::If] + (seq![TokenView::LParen] + (sc + (seq![TokenView::RParen] + (sy
        + tokens(rest))))) =~= seq![TokenView::If, TokenView::LParen] + sc + seq![
        TokenView::RParen,
    ] + sy + tokens(rest));
}

/// The text of an `else` and its block is read as its tokens, where the
/// text of the block is.
proof fn lemma_printed_else(no: Seq<char>, sn: Seq<TokenView>, k: nat, tail: Seq<char>)
    requires
        tokens(shift(no, k) + tail) == sn + tokens(tail),
    ensures
        tokens(shift(seq![' ', 'e', 'l', 's', 'e', ' '] + no, k) + tail) == seq![TokenView::Else]
            + sn + tokens(tail),
{
    let sp = seq![' '];
    let word = seq![' ', 'e', 'l', 's', 'e', ' '];
    assert(word =~= sp + lexeme(TokenView::Else) + sp);
    lemma_split(word, no, k, tail);
    lemma_gap_piece_gap(TokenView::Else, k, shift(no, k) + tail);
    assert(seq![TokenView::Else] + (sn + tokens(tail)) =~= seq![TokenView::Else] + sn + tokens(
        tail,
    ));
}

/// The text of an `if` is read as its tokens, where the texts of its
/// condition and blocks are.
proof fn lemma_printed_if(
    condition: ExpressionView,
    consequence: Seq<StatementView>,
    alternative: Option<Seq<StatementView>>,
    k: nat,
    tail: Seq<char>,
)
    requires
        ({
            let rest = match alternative {
                Some(b) => shift(
                    seq![' ', 'e', 'l', 's', 'e', ' '] + display::tabbed(display::block(b)),
                    k,
                ) + tail,
                None => tail,
            };
            let yes = display::tabbed(display::block(consequence));
            tokens(
                shift(
                    seq!['i', 'f', ' ', '('] + display::expression(condition) + seq![')', ' ']
                        + yes,
                    k,
                ) + rest,
            ) == seq![TokenView::If, TokenView::LParen] + spell(condition) + seq![
                TokenView::RParen,
            ] + spell_block(consequence) + tokens(rest)
        }),
        alternative matches Some(b) ==> tokens(
            shift(seq![' ', 'e', 'l', 's', 'e', ' '] + display::tabbed(display::block(b)), k)
                + tail,
        ) == seq![TokenView::Else] + spell_block(b) + tokens(tail),
    ensures
        tokens(
            shift(
                display::expression(
                    ExpressionView::If(Box::new(condition), consequence, alternative),
                ),
                k,
            ) + tail,
        ) == spell(ExpressionView::If(Box::new(condition), consequence, alternative)) + tokens(
            tail,
        ),
{
    lemma_pieces();
    let e = ExpressionView::If(Box::new(condition), consequence, alternative);
    let head = seq!['i', 'f', ' ', '('] + display::expression(condition) + seq![')', ' ']
        + display::tabbed(display::block(consequence));
    let spelled = seq![TokenView::If, TokenView::LParen] + spell(condition) + seq![
        TokenView::RParen,
    ] + spell_block(consequence);
    match alternative {
        Some(b) => {
            let other = seq![' ', 'e', 'l', 's', 'e', ' '] + display::tabbed(display::block(b));
            assert(display::expression(e) =~= head + other);
            lemma_split(head, other, k, tail);
            assert(spell(e) + tokens(tail) =~= spelled + (seq![TokenView::Else] + spell_block(b)
                + tokens(tail)));
        },
        None => {
            assert(display::expression(e) =~= head);
        },
    }
}

/// The text of a function literal is read as its tokens, where the text of
/// its body is.
proof fn lemma_printed_function(
    names: Seq<Seq<char>>,
    body: Seq<StatementView>,
    k: nat,
    tail: Seq<char>,
)
    requires
        forall|i: int| 0 <= i < names.len() ==> name(#[trigger] names[i]),
        tokens(shift(display::tabbed(display::block(body)), k) + tail) == spell_block(body)
            + tokens(tail),
    ensures
        tokens(shift(display::expression(ExpressionView::Function(names, body)), k) + tail)
            == spell(ExpressionView::Function(names, body)) + tokens(tail),
{
    lemma_pieces();
    let e = ExpressionView::Function(names, body);
    let dn = display::names(names, names.len() as int);
    let db = display::tabbed(display::block(body));
    let start = lexeme(TokenView::Function) + lexeme(TokenView::LParen);
    let close = lexeme(TokenView::RParen) + seq![' '];
    assert("fn("@ =~= start);
    assert(") "@ =~= close);
    let t1 = shift(db, k) + tail;
    let t2 = shift(close, k) + t1;
    let t3 = shift(dn, k) + t2;
    lemma_split(start + dn + close, db, k, tail);
    lemma_split(start + dn, close, k, t1);
    lemma_split(start, dn, k, t2);
    lemma_split(lexeme(TokenView::Function), lexeme(TokenView::LParen), k, t3);
    lemma_shift_one_line(lexeme(TokenView::LParen), k);
    let t4 = shift(lexeme(TokenView::LParen), k) + t3;
    assert(t4[0] == '(');
    lemma_piece(TokenView::Function, k, t4);
    lemma_piece(TokenView::LParen, k, t3);
    lemma_piece_gap(TokenView::RParen, k, t1);
    assert(t2[0] == ')');
    lemma_printed_names(names, names.len() as int, k, t2);
    lemma_spell_front_names(names, names.len() as int);
    assert(spell(e) + tokens(tail) =~= seq![TokenView::Function] + (seq![TokenView::LParen] + (
    spell_names(names, 0) + (seq![TokenView::RParen] + (spell_block(body) + tokens(tail))))));
}

/// The text of a hash literal without entries is read as its tokens.
proof fn lemma_printed_hash(e: ExpressionView, k: nat, tail: Seq<char>)
    requires
        e matches ExpressionView::Hash(pairs) && pairs.len() == 0,
    ensures
        tokens(shift(display::expression(e), k) + tail) == spell(e) + tokens(tail),
{
    lemma_pieces();
    let open = lexeme(TokenView::HashMacro) + lexeme(TokenView::LBrace);
    let nl = seq!['\n'];
    let close = seq!['}'];
    assert("hash!{\n"@ =~= open + nl);
    assert(display::entries(e->Hash_0, 0) =~= Seq::<char>::empty());
    assert(display::expression(e) =~= open + nl + close);
    let t1 = shift(close, k) + tail;
    let t2 = shift(nl, k) + t1;
    let t3 = shift(lexeme(TokenView::LBrace), k) + t2;
    lemma_split(open + nl, close, k, tail);
    lemma_split(open, nl, k, t1);
    lemma_split(lexeme(TokenView::HashMacro), lexeme(TokenView::LBrace), k, t2);
    lemma_piece(TokenView::HashMacro, k, t3);
    lemma_piece(TokenView::LBrace, k, t2);
    lemma_gap(nl, k, t1);
    lemma_piece(TokenView::RBrace, k, tail);
    assert(spell(e) + tokens(tail) =~= seq![TokenView::HashMacro] + (seq![TokenView::LBrace] + (
    seq![TokenView::RBrace] + tokens(tail))));
}

/// The text of an expression, however often indented, is read as the
/// tokens that spell the expression, before a text that can follow any
/// token.
pub proof fn lemma_printed(e: ExpressionView, k: nat, tail: Seq<char>)
    requires
        plain(e),
        legible(e),
        closed(tail),
    ensures
        tokens(shift(display::expression(e), k) + tail) == spell(e) + tokens(tail),
    decreases e, 0nat, 1nat,
{
    match e {
        ExpressionView::Prefix(..) | ExpressionView::Infix(..) => {
            lemma_printed_operators(e, k, tail);
        },
        ExpressionView::Call(..) | ExpressionView::Array(..) | ExpressionView::Index(..) => {
            lemma_printed_suffixed(e, k, tail);
        },
        ExpressionView::If(..) => {
            lemma_printed_conditional(e, k, tail);
        },
        ExpressionView::Function(..) | ExpressionView::Block(..) => {
            lemma_printed_bodies(e, k, tail);
        },
        ExpressionView::Hash(..) => {
            lemma_printed_hash(e, k, tail);
        },
        _ => {
            lemma_printed_atom(e, k, tail);
        },
    }
}

/// `lemma_printed` for the applications of operators.
proof fn lemma_printed_operators(e: ExpressionView, k: nat, tail: Seq<char>)
    requires
        plain(e),
        legible(e),
        e is Prefix || e is Infix,
    ensures
        tokens(shift(display::expression(e), k) + tail) == spell(e) + tokens(tail),
    decreases e, 0nat, 0nat,
{
    let end = seq![')'] + tail;
    assert(end[0] == ')');
    match e {
        ExpressionView::Prefix(op, right) => {
            lemma_printed(*right, k, end);
            lemma_printed_prefix(op, *right, k, tail);
        },
        ExpressionView::Infix(left, op, right) => {
            lemma_printed(*right, k, end);
            let after = seq![' '] + (lexeme(infix_token(op)) + (seq![' '] + (shift(
                display::expression(*right),
                k,
            ) + end)));
            assert(after[0] == ' ');
            lemma_printed(*left, k, after);
            lemma_printed_infix(*left, op, *right, k, tail);
        },
        _ => {},
    }
}

/// The texts of the first `n` items of a list, with `, ` between each two,
/// are read as their tokens.
proof fn lemma_printed_list(items: Seq<ExpressionView>, n: int, k: nat, tail: Seq<char>)
    requires
        forall|i: int| 0 <= i < items.len() ==> plain(#[trigger] items[i]),
        forall|i: int| 0 <= i < items.len() ==> legible(#[trigger] items[i]),
        0 <= n <= items.len(),
        closed(tail),
    ensures
        tokens(shift(display::list(items, n), k) + tail) == spell_front(items, n) + tokens(tail),
    decreases items, n, 0nat,
{
    lemma_pieces();
    if n == 0 {
        lemma_shift_one_line(Seq::<char>::empty(), k);
        assert(Seq::<char>::empty() + tail =~= tail);
        assert(spell_front(items, n) + tokens(tail) =~= tokens(tail));
    } else if n == 1 {
        lemma_printed(items[0], k, tail);
    } else {
        let front = display::list(items, n - 1);
        let last = display::expression(items[n - 1]);
        let sep = lexeme(TokenView::Comma) + seq![' '];
        let t1 = shift(last, k) + tail;
        let t2 = shift(sep, k) + t1;
        assert(", "@ =~= sep);
        lemma_split(front + sep, last, k, tail);
        lemma_split(front, sep, k, t1);
        lemma_piece_gap(TokenView::Comma, k, t1);
        assert(t2[0] == ',');
        lemma_printed_list(items, n - 1, k, t2);
        lemma_printed(items[n - 1], k, tail);
        assert(spell_front(items, n) + tokens(tail) =~= spell_front(items, n - 1) + (seq![
            TokenView::Comma,
        ] + (spell(items[n - 1]) + tokens(tail))));
    }
}

/// `lemma_printed` for calls, array literals and indexings.
proof fn lemma_printed_suffixed(e: ExpressionView, k: nat, tail: Seq<char>)
    requires
        plain(e),
        legible(e),
        e is Call || e is Array || e is Index,
        closed(tail),
    ensures
        tokens(shift(display::expression(e), k) + tail) == spell(e) + tokens(tail),
    decreases e, 0nat, 0nat,
{
    lemma_pieces();
    match e {
        ExpressionView::Call(function, arguments) => {
            let n = arguments.len() as int;
            let end = lexeme(TokenView::RParen) + tail;
            let inner = shift(display::list(arguments, n), k) + end;
            let after = lexeme(TokenView::LParen) + inner;
            assert(end[0] == ')');
            assert(after[0] == '(');
            lemma_printed(*function, k, after);
            lemma_printed_list(arguments, n, k, end);
            lemma_spell_front(arguments, n);
            lemma_printed_brackets(
                display::expression(*function),
                spell(*function),
                arguments,
                TokenView::LParen,
                TokenView::RParen,
                k,
                tail,
            );
        },
        ExpressionView::Array(elements) => {
            let n = elements.len() as int;
            let end = lexeme(TokenView::RSquare) + tail;
            let inner = shift(display::list(elements, n), k) + end;
            let after = lexeme(TokenView::LSquare) + inner;
            assert(end[0] == ']');
            lemma_printed_list(elements, n, k, end);
            lemma_spell_front(elements, n);
            lemma_shift_one_line(Seq::<char>::empty(), k);
            assert(Seq::<char>::empty() + after =~= after);
            assert(Seq::<TokenView>::empty() + tokens(after) =~= tokens(after));
            lemma_printed_brackets(
                Seq::empty(),
                Seq::empty(),
                elements,
                TokenView::LSquare,
                TokenView::RSquare,
                k,
                tail,
            );
            assert(display::expression(e) =~= Seq::<char>::empty() + lexeme(TokenView::LSquare)
                + display::list(elements, n) + lexeme(TokenView::RSquare));
            assert(spell(e) + tokens(tail) =~= Seq::<TokenView>::empty() + seq![
                TokenView::LSquare,
            ] + spell_list(elements, 0) + seq![TokenView::RSquare] + tokens(tail));
        },
        ExpressionView::Index(left, inner) => {
            let end = seq![']'] + tail;
            assert(end[0] == ']');
            lemma_printed(*inner, k, end);
            let after = seq!['['] + (shift(display::expression(*inner), k) + end);
            assert(after[0] == '[');
            lemma_printed(*left, k, after);
            lemma_printed_index(*left, *inner, k, tail);
        },
        _ => {},
    }
}

/// `lemma_printed` for `if`.
proof fn lemma_printed_conditional(e: ExpressionView, k: nat, tail: Seq<char>)
    requires
        plain(e),
        legible(e),
        e is If,
        closed(tail),
    ensures
        tokens(shift(display::expression(e), k) + tail) == spell(e) + tokens(tail),
    decreases e, 0nat, 0nat,
{
    match e {
        ExpressionView::If(condition, consequence, alternative) => {
            let word = seq![' ', 'e', 'l', 's', 'e', ' '];
            let yes = display::tabbed(display::block(consequence));
            let rest = match alternative {
                Some(b) => shift(word + display::tabbed(display::block(b)), k) + tail,
                None => tail,
            };
            lemma_printed_tabbed(consequence, k, rest);
            let after = seq![')', ' '] + (shift(yes, k) + rest);
            assert(after[0] == ')');
            lemma_printed(*condition, k, after);
            lemma_printed_if_head(
                display::expression(*condition),
                spell(*condition),
                yes,
                spell_block(consequence),
                k,
                rest,
            );
            match alternative {
                Some(b) => {
                    lemma_printed_tabbed(b, k, tail);
                    lemma_printed_else(
                        display::tabbed(display::block(b)),
                        spell_block(b),
                        k,
                        tail,
                    );
                },
                None => {},
            }
            lemma_printed_if(*condition, consequence, alternative, k, tail);
        },
        _ => {},
    }
}

/// `lemma_printed` for function literals and blocks.
proof fn lemma_printed_bodies(e: ExpressionView, k: nat, tail: Seq<char>)
    requires
        plain(e),
        legible(e),
        e is Function || e is Block,
    ensures
        tokens(shift(display::expression(e), k) + tail) == spell(e) + tokens(tail),
    decreases e, 0nat, 0nat,
{
    match e {
        ExpressionView::Function(names, body) => {
            lemma_printed_tabbed(body, k, tail);
            lemma_printed_function(names, body, k, tail);
        },
        ExpressionView::Block(body) => {
            lemma_printed_block(body, k, tail);
        },
        _ => {},
    }
}

/// The text of a statement, however often indented, is read as the tokens
/// that spell the statement.
pub proof fn lemma_printed_statement(s: StatementView, k: nat, tail: Seq<char>)
    requires
        plain_statement(s),
        legible_statement(s),
    ensures
        tokens(shift(display::statement(s), k) + tail) == spell_statement(s) + tokens(tail),
    decreases s, 0nat, 0nat,
{
    let end = seq![';'] + tail;
    assert(end[0] == ';');
    match s {
        StatementView::Let(n, value) => {
            lemma_printed(value, k, end);
            lemma_printed_let(n, value, k, tail);
        },
        StatementView::Return(value) => {
            lemma_printed(value, k, end);
            lemma_printed_return(s, k, tail);
        },
        StatementView::Expression(value) => {
            lemma_printed(value, k, end);
            lemma_printed_return(s, k, tail);
        },
        StatementView::EOF => {},
    }
}

/// The text of the first `n` statements of a list, each on a line, is read
/// as their tokens.
pub proof fn lemma_printed_lines(list: Seq<StatementView>, n: int, k: nat, tail: Seq<char>)
    requires
        plain_block(list),
        legible_block(list),
        0 <= n <= list.len(),
    ensures
        tokens(shift(display::lines(list, n), k) + tail) == spell_front_statements(list, n)
            + tokens(tail),
    decreases list, n, 0nat,
{
    lemma_pieces();
    if n == 0 {
        lemma_shift_one_line(Seq::<char>::empty(), k);
        assert(Seq::<char>::empty() + tail =~= tail);
        assert(spell_front_statements(list, n) + tokens(tail) =~= tokens(tail));
    } else {
        let front = display::lines(list, n - 1);
        let st = display::statement(list[n - 1]);
        let nl = seq!['\n'];
        let t1 = shift(nl, k) + tail;
        let t2 = shift(st, k) + t1;
        lemma_split(front + st, nl, k, tail);
        lemma_split(front, st, k, t1);
        lemma_printed_lines(list, n - 1, k, t2);
        lemma_printed_statement(list[n - 1], k, t1);
        lemma_gap(nl, k, tail);
        assert(spell_front_statements(list, n) + tokens(tail) =~= spell_front_statements(
            list,
            n - 1,
        ) + (spell_statement(list[n - 1]) + tokens(tail)));
    }
}

/// The text of the first `n` rows of a block is read as the tokens of its
/// first `n` statements.
proof fn lemma_printed_rows(list: Seq<StatementView>, n: int, k: nat, tail: Seq<char>)
    requires
        plain_block(list),
        legible_block(list),
        0 <= n <= list.len(),
    ensures
        tokens(shift(rows(list, n), k) + tail) == spell_front_statements(list, n) + tokens(tail),
    decreases list, n, 0nat,
{
    if n == 0 {
        lemma_shift_one_line(Seq::<char>::empty(), k);
        assert(Seq::<char>::empty() + tail =~= tail);
        assert(spell_front_statements(list, n) + tokens(tail) =~= tokens(tail));
    } else {
        let front = rows(list, n - 1);
        let st = display::statement(list[n - 1]);
        let pad = seq![' ', ' '];
        let nl = seq!['\n'];
        let t1 = shift(nl, k) + tail;
        let t2 = shift(indent(st), k) + t1;
        let t3 = shift(pad, k) + t2;
        lemma_split(front + pad + indent(st), nl, k, tail);
        lemma_split(front + pad, indent(st), k, t1);
        lemma_split(front, pad, k, t2);
        lemma_printed_rows(list, n - 1, k, t3);
        lemma_gap(pad, k, t2);
        lemma_shift_indent(st, k);
        lemma_printed_statement(list[n - 1], k + 1, t1);
        lemma_gap(nl, k, tail);
        assert(spell_front_statements(list, n) + tokens(tail) =~= spell_front_statements(
            list,
            n - 1,
        ) + (spell_statement(list[n - 1]) + tokens(tail)));
    }
}

/// The text of a block is read as its tokens.
proof fn lemma_printed_block(list: Seq<StatementView>, k: nat, tail: Seq<char>)
    requires
        plain_block(list),
        legible_block(list),
    ensures
        tokens(shift(display::block(list), k) + tail) == spell_block(list) + tokens(tail),
    decreases list, list.len() + 1, 0nat,
{
    lemma_pieces();
    let lines = display::lines(list, list.len() as int);
    lemma_printed_lines(list, list.len() as int, k, seq!['}'] + tail);
    lemma_printed_braces(list, lines, k, tail);
    assert(display::block(list) =~= seq!['{', '\n'] + lines + seq!['}']);
}

/// The text of a block after `if`, `else` and a parameter list is read as
/// its tokens.
proof fn lemma_printed_tabbed(list: Seq<StatementView>, k: nat, tail: Seq<char>)
    requires
        plain_block(list),
        legible_block(list),
    ensures
        tokens(shift(display::tabbed(display::block(list)), k) + tail) == spell_block(list)
            + tokens(tail),
    decreases list, list.len() + 1, 0nat,
{
    lemma_tabbed(list);
    lemma_printed_rows(list, list.len() as int, k, seq!['}'] + tail);
    lemma_printed_braces(list, rows(list, list.len() as int), k, tail);
}

} // verus!
