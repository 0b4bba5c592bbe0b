use super::token::TokenView;
use super::{
    hash_word, in_run, is_digit, is_whitespace, keyword, lemma_next_token_shrinks,
    lemma_run_len_bound, lemma_run_len_stops, next_token, run_len, symbol, token_at, tokens, Run,
};
use vstd::prelude::*;

verus! {

/// The text that a token is written as: what the lexer reads it from.
pub open spec fn lexeme(t: TokenView) -> Seq<char> {
    match t {
        TokenView::Ident(s) => s,
        TokenView::Int(s) => s,
        TokenView::Str(s) => seq!['"'] + s + seq!['"'],
        TokenView::Assign => seq!['='],
        TokenView::Plus => seq!['+'],
        TokenView::Minus => seq!['-'],
        TokenView::Bang => seq!['!'],
        TokenView::Asterisk => seq!['*'],
        TokenView::ForwardSlash => seq!['/'],
        TokenView::LessThan => seq!['<'],
        TokenView::GreaterThan => seq!['>'],
        TokenView::Equal => seq!['=', '='],
        TokenView::NotEqual => seq!['!', '='],
        TokenView::Comma => seq![','],
        TokenView::Semicolon => seq![';'],
        TokenView::Colon => seq![':'],
        TokenView::LParen => seq!['('],
        TokenView::RParen => seq![')'],
        TokenView::LBrace => seq!['{'],
        TokenView::RBrace => seq!['}'],
        TokenView::LSquare => seq!['['],
        TokenView::RSquare => seq![']'],
        TokenView::Function => seq!['f', 'n'],
        TokenView::Let => seq!['l', 'e', 't'],
        TokenView::True => seq!['t', 'r', 'u', 'e'],
        TokenView::False => seq!['f', 'a', 'l', 's', 'e'],
        TokenView::If => seq!['i', 'f'],
        TokenView::Else => seq!['e', 'l', 's', 'e'],
        TokenView::Return => seq!['r', 'e', 't', 'u', 'r', 'n'],
        TokenView::HashMacro => seq!['h', 'a', 's', 'h', '!'],
    }
}

/// Whether a token is one that the lexer produces: an identifier is a
/// nonempty word that is no keyword and does not start with a digit, an
/// integer literal is one or more digits, and a string literal holds no
/// double quote.
pub open spec fn produced(t: TokenView) -> bool {
    match t {
        TokenView::Ident(s) => {
            &&& s.len() > 0
            &&& forall|i: int| 0 <= i < s.len() ==> in_run(Run::Word, #[trigger] s[i])
            &&& !is_digit(s[0])
            &&& keyword(s) is None
        },
        TokenView::Int(s) => {
            &&& s.len() > 0
            &&& forall|i: int| 0 <= i < s.len() ==> in_run(Run::Number, #[trigger] s[i])
        },
        TokenView::Str(s) => forall|i: int| 0 <= i < s.len() ==> in_run(Run::Text, #[trigger] s[i]),
        _ => true,
    }
}

/// Whether a text is whitespace only.
pub open spec fn blank(w: Seq<char>) -> bool {
    forall|i: int| 0 <= i < w.len() ==> is_whitespace(#[trigger] w[i])
}

/// The lexemes of `ts` with `gaps` around them: the first gap, the first
/// lexeme, the second gap and so on, to the gap after the last lexeme.
pub open spec fn spaced(ts: Seq<TokenView>, gaps: Seq<Seq<char>>) -> Seq<char>
    decreases ts.len(),
{
    if gaps.len() == 0 {
        Seq::empty()
    } else if ts.len() == 0 {
        gaps[0]
    } else {
        gaps[0] + lexeme(ts[0]) + spaced(ts.skip(1), gaps.skip(1))
    }
}

/// Whether the text `rest` can follow the lexeme of `t` without changing
/// what is read: it does not go on with a word or a number that `t` ends
/// with, nor make a longer operator of it.
pub open spec fn detached(t: TokenView, rest: Seq<char>) -> bool {
    rest.len() == 0 || match t {
        TokenView::Ident(word) => !in_run(Run::Word, rest[0]) && !(word == hash_word() && rest[0]
            == '!'),
        TokenView::Function | TokenView::Let | TokenView::True | TokenView::False | TokenView::If
        | TokenView::Else | TokenView::Return => !in_run(Run::Word, rest[0]),
        TokenView::Int(_) => !is_digit(rest[0]),
        TokenView::Assign | TokenView::Bang => rest[0] != '=',
        _ => true,
    }
}

/// Whether `gaps` can stand around the lexemes of `ts`: there is one gap
/// more than lexemes, every gap is whitespace, and a gap between two lexemes
/// is empty only where the second lexeme is detached from the first token.
pub open spec fn separating(gaps: Seq<Seq<char>>, ts: Seq<TokenView>) -> bool {
    &&& gaps.len() == ts.len() + 1
    &&& forall|i: int| 0 <= i < gaps.len() ==> blank(#[trigger] gaps[i])
    &&& forall|i: int|
        0 < i < ts.len() ==> (#[trigger] gaps[i]).len() > 0 || detached(ts[i - 1], lexeme(ts[i]))
}

/// A run that is followed by nothing, or by a character that does not
/// belong to it, is read whole.
proof fn lemma_run_exact(run: Run, a: Seq<char>, rest: Seq<char>)
    requires
        forall|i: int| 0 <= i < a.len() ==> in_run(run, #[trigger] a[i]),
        rest.len() == 0 || !in_run(run, rest[0]),
    ensures
        run_len(run, a + rest) == a.len(),
        (a + rest).take(a.len() as int) == a,
        (a + rest).skip(a.len() as int) == rest,
    decreases a.len(),
{
    assert((a + rest).take(a.len() as int) =~= a);
    assert((a + rest).skip(a.len() as int) =~= rest);
    if a.len() > 0 {
        assert((a + rest)[0] == a[0]);
        assert((a + rest).skip(1) =~= a.skip(1) + rest);
        assert forall|i: int| 0 <= i < a.skip(1).len() implies in_run(
            run,
            #[trigger] a.skip(1)[i],
        ) by {
            assert(a.skip(1)[i] == a[i + 1]);
        }
        lemma_run_exact(run, a.skip(1), rest);
    } else {
        assert(a + rest =~= rest);
    }
}

/// A word is read whole where no character of a word follows it.
proof fn lemma_word(word: Seq<char>, rest: Seq<char>)
    requires
        word.len() > 0,
        forall|i: int| 0 <= i < word.len() ==> in_run(Run::Word, #[trigger] word[i]),
        !is_digit(word[0]),
        rest.len() == 0 || !in_run(Run::Word, rest[0]),
    ensures
        token_at(word + rest) == if keyword(word) is Some {
            (keyword(word)->0, rest)
        } else if word == hash_word() && rest.len() > 0 && rest[0] == '!' {
            (TokenView::HashMacro, rest.skip(1))
        } else {
            (TokenView::Ident(word), rest)
        },
{
    let s = word + rest;
    lemma_run_exact(Run::Word, word, rest);
    assert(s[0] == word[0]);
    assert(in_run(Run::Word, word[0]));
    assert(symbol(s[0]) is None);
}

/// A token that the lexer produces is read again from its lexeme, where
/// what follows is detached from it.
proof fn lemma_token_at_lexeme(t: TokenView, rest: Seq<char>)
    requires
        produced(t),
        detached(t, rest),
    ensures
        lexeme(t).len() > 0,
        !is_whitespace(lexeme(t)[0]),
        token_at(lexeme(t) + rest) == (t, rest),
{
    let s = lexeme(t) + rest;
    match t {
        TokenView::Ident(word) => {
            lemma_word(word, rest);
            assert(in_run(Run::Word, word[0]));
        },
        TokenView::Int(digits) => {
            lemma_run_exact(Run::Number, digits, rest);
            assert(s[0] == digits[0]);
            assert(in_run(Run::Number, digits[0]));
            assert(symbol(s[0]) is None);
        },
        TokenView::Str(text) => {
            let body = text + (seq!['"'] + rest);
            assert(s.skip(1) =~= body);
            lemma_run_exact(Run::Text, text, seq!['"'] + rest);
            assert(body.skip((text.len() + 1) as int) =~= rest);
            assert(s[0] == '"');
        },
        TokenView::Equal | TokenView::NotEqual => {
            assert(s.skip(2) =~= rest);
            assert(s[1] == '=');
        },
        TokenView::Function | TokenView::Let | TokenView::True | TokenView::False | TokenView::If
        | TokenView::Else | TokenView::Return => {
            lemma_word(lexeme(t), rest);
            assert(keyword(lexeme(t)) == Some(t));
        },
        TokenView::HashMacro => {
            let after = seq!['!'] + rest;
            assert(s =~= hash_word() + after);
            lemma_word(hash_word(), after);
            assert(hash_word()[0] == 'h');
            assert(keyword(hash_word()) is None) by {
                assert(hash_word().len() == 4);
                assert(hash_word()[0] == 'h');
            }
            assert(after.skip(1) =~= rest);
        },
        _ => {
            assert(s.skip(1) =~= rest);
            assert(s[0] == lexeme(t)[0]);
            if rest.len() > 0 {
                assert(s[1] == rest[0]);
            }
        },
    }
}

/// A token that the lexer produces is the next token of its lexeme after
/// whitespace.
proof fn lemma_next_token_spaced(gap: Seq<char>, t: TokenView, rest: Seq<char>)
    requires
        blank(gap),
        produced(t),
        detached(t, rest),
    ensures
        next_token(gap + lexeme(t) + rest) == Some((t, rest)),
{
    lemma_token_at_lexeme(t, rest);
    let x = lexeme(t) + rest;
    assert(x[0] == lexeme(t)[0]);
    lemma_run_exact(Run::Blank, gap, x);
    assert(gap + lexeme(t) + rest =~= gap + x);
}

/// The tokens of a lexeme and a text detached from it are the token and the
/// tokens of the text.
pub proof fn lemma_tokens_after_lexeme(t: TokenView, rest: Seq<char>)
    requires
        produced(t),
        detached(t, rest),
    ensures
        tokens(lexeme(t) + rest) == seq![t] + tokens(rest),
{
    lemma_next_token_spaced(Seq::empty(), t, rest);
    assert(Seq::<char>::empty() + lexeme(t) + rest =~= lexeme(t) + rest);
}

/// Whitespace before a text does not change its tokens.
pub proof fn lemma_tokens_after_blank(gap: Seq<char>, rest: Seq<char>)
    requires
        blank(gap),
    ensures
        tokens(gap + rest) == tokens(rest),
    decreases gap.len(),
{
    if gap.len() == 0 {
        assert(gap + rest =~= rest);
    } else {
        let s = gap + rest;
        let shorter = gap.skip(1) + rest;
        assert(s[0] == gap[0]);
        assert(s.skip(1) =~= shorter);
        assert(blank(gap.skip(1))) by {
            assert forall|i: int| 0 <= i < gap.skip(1).len() implies is_whitespace(
                #[trigger] gap.skip(1)[i],
            ) by {
                assert(gap.skip(1)[i] == gap[i + 1]);
            }
        }
        lemma_tokens_after_blank(gap.skip(1), rest);
        // The whitespace before the first token of `s` is one longer than
        // that of the rest.
        let n = run_len(Run::Blank, shorter);
        assert(run_len(Run::Blank, s) == n + 1);
        lemma_run_len_bound(Run::Blank, shorter);
        assert(s.skip((n + 1) as int) =~= shorter.skip(n as int));
        assert(next_token(s) == next_token(shorter));
    }
}

/// A text of whitespace holds no token.
proof fn lemma_tokens_of_blank(w: Seq<char>)
    requires
        blank(w),
    ensures
        tokens(w) == Seq::<TokenView>::empty(),
{
    lemma_run_exact(Run::Blank, w, Seq::empty());
    assert(w + Seq::<char>::empty() =~= w);
}

/// The lexeme of a token that the lexer produces is not empty and does not
/// start with whitespace.
proof fn lemma_lexeme_first(t: TokenView)
    requires
        produced(t),
    ensures
        lexeme(t).len() > 0,
        !is_whitespace(lexeme(t)[0]),
{
    lemma_token_at_lexeme(t, Seq::empty());
}

/// The text of spaced lexemes is detached from a token before it, where its
/// first gap is not empty or its first lexeme is detached from the token.
proof fn lemma_spaced_detached(before: TokenView, ts: Seq<TokenView>, gaps: Seq<Seq<char>>)
    requires
        forall|i: int| 0 <= i < ts.len() ==> produced(#[trigger] ts[i]),
        separating(gaps, ts),
        ts.len() > 0 ==> gaps[0].len() > 0 || detached(before, lexeme(ts[0])),
    ensures
        detached(before, spaced(ts, gaps)),
{
    let s = spaced(ts, gaps);
    if ts.len() > 0 {
        lemma_lexeme_first(ts[0]);
        if gaps[0].len() > 0 {
            assert(s[0] == gaps[0][0]);
        } else {
            assert(gaps[0] + lexeme(ts[0]) =~= lexeme(ts[0]));
            assert(s[0] == lexeme(ts[0])[0]);
        }
    } else {
        if s.len() > 0 {
            assert(is_whitespace(s[0]));
        }
    }
}

/// The lexemes of tokens that the lexer produces, with whitespace around
/// them, are read as those tokens.
pub proof fn lemma_relex(ts: Seq<TokenView>, gaps: Seq<Seq<char>>)
    requires
        forall|i: int| 0 <= i < ts.len() ==> produced(#[trigger] ts[i]),
        separating(gaps, ts),
    ensures
        tokens(spaced(ts, gaps)) == ts,
    decreases ts.len(),
{
    if ts.len() == 0 {
        lemma_tokens_of_blank(gaps[0]);
    } else {
        let later = ts.skip(1);
        let later_gaps = gaps.skip(1);
        let rest = spaced(later, later_gaps);
        assert(separating(later_gaps, later)) by {
            assert forall|i: int| 0 <= i < later_gaps.len() implies blank(
                #[trigger] later_gaps[i],
            ) by {
                assert(later_gaps[i] == gaps[i + 1]);
            }
            assert forall|i: int| 0 < i < later.len() implies (#[trigger] later_gaps[i]).len()
                > 0 || detached(later[i - 1], lexeme(later[i])) by {
                assert(later_gaps[i] == gaps[i + 1]);
                assert(later[i - 1] == ts[i]);
                assert(later[i] == ts[i + 1]);
            }
        }
        assert forall|i: int| 0 <= i < later.len() implies produced(#[trigger] later[i]) by {
            assert(later[i] == ts[i + 1]);
        }
        if later.len() > 0 {
            assert(later_gaps[0] == gaps[1]);
            assert(later[0] == ts[1]);
        }
        lemma_spaced_detached(ts[0], later, later_gaps);
        lemma_next_token_spaced(gaps[0], ts[0], rest);
        lemma_relex(later, later_gaps);
        assert(tokens(spaced(ts, gaps)) == seq![ts[0]] + tokens(rest));
        assert(seq![ts[0]] + later =~= ts);
    }
}

/// The token at the head of a text is one that the lexer produces.
proof fn lemma_token_at_produced(s: Seq<char>)
    requires
        s.len() > 0,
        !is_whitespace(s[0]),
    ensures
        produced(token_at(s).0),
{
    let c = s[0];
    if symbol(c) is Some || c == '=' || c == '!' {
    } else if c == '"' {
        lemma_run_len_stops(Run::Text, s.skip(1));
        lemma_run_len_bound(Run::Text, s.skip(1));
    } else if is_digit(c) {
        lemma_run_len_stops(Run::Number, s);
        lemma_run_len_bound(Run::Number, s);
        assert(run_len(Run::Number, s) >= 1);
    } else {
        lemma_run_len_stops(Run::Word, s);
        lemma_run_len_bound(Run::Word, s);
        assert(in_run(Run::Word, c));
        assert(run_len(Run::Word, s) >= 1);
        let word = s.take(run_len(Run::Word, s) as int);
        assert(word[0] == c);
    }
}

/// Every token of a text is one that the lexer produces.
pub proof fn lemma_tokens_produced(s: Seq<char>)
    ensures
        forall|i: int| 0 <= i < tokens(s).len() ==> produced(#[trigger] tokens(s)[i]),
    decreases s.len(),
{
    match next_token(s) {
        None => {},
        Some((t, rest)) => {
            lemma_next_token_shrinks(s);
            lemma_run_len_stops(Run::Blank, s);
            lemma_run_len_bound(Run::Blank, s);
            let start = s.skip(run_len(Run::Blank, s) as int);
            assert(start[0] == s[run_len(Run::Blank, s) as int]);
            lemma_token_at_produced(start);
            lemma_tokens_produced(rest);
            assert forall|i: int| 0 <= i < tokens(s).len() implies produced(
                #[trigger] tokens(s)[i],
            ) by {
                if i > 0 {
                    assert(tokens(s)[i] == tokens(rest)[i - 1]);
                }
            }
        },
    }
}

/// The tokens of a text, written out again with any whitespace around them
/// and between them, are read as the same tokens; between two tokens that
/// would run into one another there is some whitespace.
pub proof fn lemma_lexing_round_trip(text: Seq<char>, gaps: Seq<Seq<char>>)
    requires
        separating(gaps, tokens(text)),
    ensures
        tokens(spaced(tokens(text), gaps)) == tokens(text),
{
    lemma_tokens_produced(text);
    lemma_relex(tokens(text), gaps);
}

} // verus!
