pub mod round_trip;
pub mod token;

use crate::text::str_eq;
use token::{Token, TokenView};
use vstd::prelude::*;
use vstd::string::StrSliceExecFns;

verus! {

/// The four characters that separate tokens without being one.
pub open spec fn is_whitespace(c: char) -> bool {
    c == ' ' || c == '\t' || c == '\r' || c == '\n'
}

/// The characters that can never be part of an identifier: the one-character
/// operators and punctuation, and the double quote.
pub open spec fn is_delimiter(c: char) -> bool {
    c == '=' || c == '+' || c == '-' || c == '!' || c == '*' || c == '/' || c == '<' || c == '>'
        || c == ',' || c == ';' || c == ':' || c == '(' || c == ')' || c == '{' || c == '}' || c
        == '[' || c == ']' || c == '"'
}

/// An ASCII decimal digit.
pub open spec fn is_digit(c: char) -> bool {
    '0' <= c <= '9'
}

/// The kinds of maximal runs of characters that the lexer reads in one go.
pub enum Run {
    /// Whitespace between tokens.
    Blank,
    /// An identifier or keyword: anything but whitespace and delimiters.
    Word,
    /// An integer literal: decimal digits.
    Number,
    /// The inside of a string literal: anything but a double quote.
    Text,
}

/// Whether a run of the given kind may contain `c`.
pub open spec fn in_run(run: Run, c: char) -> bool {
    match run {
        Run::Blank => is_whitespace(c),
        Run::Word => !is_whitespace(c) && !is_delimiter(c),
        Run::Number => is_digit(c),
        Run::Text => c != '"',
    }
}

/// The length of the longest prefix of `s` that is a run of the given kind.
pub open spec fn run_len(run: Run, s: Seq<char>) -> nat
    decreases s.len(),
{
    if s.len() > 0 && in_run(run, s[0]) {
        1 + run_len(run, s.skip(1))
    } else {
        0
    }
}

/// The keyword that a word spells, if it spells one.
pub open spec fn keyword(word: Seq<char>) -> Option<TokenView> {
    if word == seq!['f', 'n'] {
        Some(TokenView::Function)
    } else if word == seq!['l', 'e', 't'] {
        Some(TokenView::Let)
    } else if word == seq!['t', 'r', 'u', 'e'] {
        Some(TokenView::True)
    } else if word == seq!['f', 'a', 'l', 's', 'e'] {
        Some(TokenView::False)
    } else if word == seq!['i', 'f'] {
        Some(TokenView::If)
    } else if word == seq!['e', 'l', 's', 'e'] {
        Some(TokenView::Else)
    } else if word == seq!['r', 'e', 't', 'u', 'r', 'n'] {
        Some(TokenView::Return)
    } else {
        None
    }
}

/// The word that, directly followed by `!`, forms the hash-literal marker.
pub open spec fn hash_word() -> Seq<char> {
    seq!['h', 'a', 's', 'h']
}

/// The token for a one-character operator or punctuation mark, if `c` is one
/// that never combines with the character after it.
pub open spec fn symbol(c: char) -> Option<TokenView> {
    if c == '+' {
        Some(TokenView::Plus)
    } else if c == ',' {
        Some(TokenView::Comma)
    } else if c == ';' {
        Some(TokenView::Semicolon)
    } else if c == ':' {
        Some(TokenView::Colon)
    } else if c == '(' {
        Some(TokenView::LParen)
    } else if c == ')' {
        Some(TokenView::RParen)
    } else if c == '{' {
        Some(TokenView::LBrace)
    } else if c == '}' {
        Some(TokenView::RBrace)
    } else if c == '-' {
        Some(TokenView::Minus)
    } else if c == '*' {
        Some(TokenView::Asterisk)
    } else if c == '/' {
        Some(TokenView::ForwardSlash)
    } else if c == '<' {
        Some(TokenView::LessThan)
    } else if c == '>' {
        Some(TokenView::GreaterThan)
    } else if c == '[' {
        Some(TokenView::LSquare)
    } else if c == ']' {
        Some(TokenView::RSquare)
    } else {
        None
    }
}

/// The token that starts at the head of `s`, which is not whitespace, and
/// the text that follows the token.
pub open spec fn token_at(s: Seq<char>) -> (TokenView, Seq<char>)
    recommends
        s.len() > 0,
        !is_whitespace(s[0]),
{
    let c = s[0];
    let followed_by_eq = s.len() > 1 && s[1] == '=';
    if symbol(c) is Some {
        (symbol(c)->0, s.skip(1))
    } else if c == '=' {
        if followed_by_eq {
            (TokenView::Equal, s.skip(2))
        } else {
            (TokenView::Assign, s.skip(1))
        }
    } else if c == '!' {
        if followed_by_eq {
            (TokenView::NotEqual, s.skip(2))
        } else {
            (TokenView::Bang, s.skip(1))
        }
    } else if c == '"' {
        let body = s.skip(1);
        let n = run_len(Run::Text, body);
        // The closing quote is consumed when there is one.
        (TokenView::Str(body.take(n as int)), if n < body.len() {
            body.skip((n + 1) as int)
        } else {
            body.skip(n as int)
        })
    } else if is_digit(c) {
        let n = run_len(Run::Number, s);
        (TokenView::Int(s.take(n as int)), s.skip(n as int))
    } else {
        let n = run_len(Run::Word, s);
        let word = s.take(n as int);
        let rest = s.skip(n as int);
        if keyword(word) is Some {
            (keyword(word)->0, rest)
        } else if word == hash_word() && rest.len() > 0 && rest[0] == '!' {
            (TokenView::HashMacro, rest.skip(1))
        } else {
            (TokenView::Ident(word), rest)
        }
    }
}

/// The first token of `s` and the text after it, or `None` where `s` holds
/// nothing but whitespace.
pub open spec fn next_token(s: Seq<char>) -> Option<(TokenView, Seq<char>)> {
    let t = s.skip(run_len(Run::Blank, s) as int);
    if t.len() == 0 {
        None
    } else {
        Some(token_at(t))
    }
}

/// A run is never longer than the text it is read from.
pub proof fn lemma_run_len_bound(run: Run, s: Seq<char>)
    ensures
        run_len(run, s) <= s.len(),
    decreases s.len(),
{
    if s.len() > 0 && in_run(run, s[0]) {
        lemma_run_len_bound(run, s.skip(1));
    }
}

/// The character after a run, if there is one, does not belong to it.
pub proof fn lemma_run_len_stops(run: Run, s: Seq<char>)
    ensures
        run_len(run, s) < s.len() ==> !in_run(run, s[run_len(run, s) as int]),
        forall|i: int| 0 <= i < run_len(run, s) ==> in_run(run, #[trigger] s[i]),
    decreases s.len(),
{
    lemma_run_len_bound(run, s);
    if s.len() > 0 && in_run(run, s[0]) {
        lemma_run_len_stops(run, s.skip(1));
        lemma_run_len_bound(run, s.skip(1));
        assert forall|i: int| 0 <= i < run_len(run, s) implies in_run(run, #[trigger] s[i]) by {
            if i > 0 {
                assert(s[i] == s.skip(1)[i - 1]);
            }
        }
    }
}

/// Every token takes at least one character.
pub proof fn lemma_next_token_shrinks(s: Seq<char>)
    ensures
        next_token(s) matches Some((_, rest)) ==> rest.len() < s.len(),
{
    lemma_run_len_bound(Run::Blank, s);
    let t = s.skip(run_len(Run::Blank, s) as int);
    if t.len() > 0 {
        lemma_run_len_bound(Run::Text, t.skip(1));
        lemma_run_len_bound(Run::Number, t);
        lemma_run_len_bound(Run::Word, t);
        lemma_run_len_stops(Run::Blank, s);
        assert(t[0] == s[run_len(Run::Blank, s) as int]);
        assert(!is_whitespace(t[0]));
        if is_digit(t[0]) {
            assert(run_len(Run::Number, t) >= 1);
        }
        if !is_delimiter(t[0]) {
            assert(run_len(Run::Word, t) >= 1);
        }
    }
}

/// The sequence of tokens that a text lexes to.
pub open spec fn tokens(s: Seq<char>) -> Seq<TokenView>
    decreases s.len(),
{
    match next_token(s) {
        None => Seq::empty(),
        Some((t, rest)) => {
            proof {
                lemma_next_token_shrinks(s);
            }
            seq![t] + tokens(rest)
        },
    }
}

/// A single-pass producer of tokens over a text.
pub struct Lexer<'a> {
    input: &'a str,
    /// Number of characters in `input`.
    length: usize,
    /// Index, in characters, of `char` in `input`.
    position: usize,
    /// The character under the cursor; `None` at the end of the input.
    char: Option<char>,
}

impl<'a> View for Lexer<'a> {
    type V = Seq<char>;

    /// The text that has not been consumed yet.
    closed spec fn view(&self) -> Seq<char> {
        self.input@.skip(self.position as int)
    }
}

impl<'a> Lexer<'a> {
    /// The cursor lies within the input and `char` caches the character
    /// under it.
    pub closed spec fn wf(&self) -> bool {
        &&& self.length == self.input@.len()
        &&& self.position <= self.length
        &&& self.char == if self.position < self.length {
            Some(self.input@[self.position as int])
        } else {
            None
        }
    }

    /// A lexer at the start of `input`.
    pub fn new(input: &'a str) -> (l: Lexer<'a>)
        ensures
            l.wf(),
            l@ == input@,
    {
        let length = input.unicode_len();
        let char = if 0 < length {
            Some(input.get_char(0))
        } else {
            None
        };
        Lexer { input, length, position: 0, char }
    }

    /// Moves the cursor one character on, unless it is at the end, and
    /// returns the character that is then under it.
    fn read_char(&mut self) -> (c: Option<char>)
        requires
            old(self).wf(),
        ensures
            final(self).wf(),
            final(self).input == old(self).input,
            old(self)@.len() > 0 ==> final(self)@ == old(self)@.skip(1),
            old(self)@.len() == 0 ==> final(self)@ == old(self)@,
            c == final(self).char,
            c == if final(self)@.len() > 0 {
                Some(final(self)@[0])
            } else {
                None
            },
    {
        if self.char.is_some() {
            self.position += 1;
        }
        self.char = if self.position < self.length {
            Some(self.input.get_char(self.position))
        } else {
            None
        };
        assert(old(self)@.len() > 0 ==> self@ =~= old(self)@.skip(1));
        self.char
    }

    /// Moves the cursor to the end of the run of the given kind that starts
    /// under it.
    fn read_run(&mut self, run: Run)
        requires
            old(self).wf(),
        ensures
            final(self).wf(),
            final(self).input == old(self).input,
            final(self).position == old(self).position + run_len(run, old(self)@),
            final(self)@ == old(self)@.skip(run_len(run, old(self)@) as int),
    {
        let ghost start = self@;
        let ghost mut k: nat = 0;
        proof {
            assert(start.skip(0) =~= start);
        }
        loop
            invariant
                self.wf(),
                self.input == old(self).input,
                start == old(self)@,
                self.position == old(self).position + k,
                k <= start.len(),
                self@ == start.skip(k as int),
                run_len(run, start) == k + run_len(run, self@),
            ensures
                run_len(run, self@) == 0,
            decreases self@.len(),
        {
            let more = match self.char {
                Some(ch) => match run {
                    Run::Blank => ch == ' ' || ch == '\t' || ch == '\r' || ch == '\n',
                    Run::Word => !(ch == '=' || ch == '+' || ch == '-' || ch == '!' || ch == '*'
                        || ch == '/' || ch == '<' || ch == '>' || ch == ',' || ch == ';' || ch
                        == '(' || ch == ')' || ch == '{' || ch == '}' || ch == ' ' || ch == '['
                        || ch == ']' || ch == ':' || ch == '"' || ch == '\t' || ch == '\r' || ch
                        == '\n'),
                    Run::Number => '0' <= ch && ch <= '9',
                    Run::Text => ch != '"',
                },
                None => false,
            };
            if !more {
                break;
            }
            proof {
                assert(self@.skip(1) =~= start.skip((k + 1) as int));
                k = k + 1;
            }
            self.read_char();
        }
    }

    /// Reads the identifier or keyword under the cursor.
    fn read_ident(&mut self) -> (word: &'a str)
        requires
            old(self).wf(),
        ensures
            final(self).wf(),
            word@ == old(self)@.take(run_len(Run::Word, old(self)@) as int),
            final(self)@ == old(self)@.skip(run_len(Run::Word, old(self)@) as int),
    {
        let old_pos = self.position;
        self.read_run(Run::Word);
        proof {
            lemma_run_len_bound(Run::Word, old(self)@);
        }
        let word = self.input.substring_char(old_pos, self.position);
        assert(word@ =~= old(self)@.take(run_len(Run::Word, old(self)@) as int));
        word
    }

    /// Reads the string literal whose opening quote is under the cursor, up
    /// to but not including its closing quote.
    fn read_str(&mut self) -> (text: &'a str)
        requires
            old(self).wf(),
            old(self)@.len() > 0,
        ensures
            final(self).wf(),
            text@ == old(self)@.skip(1).take(run_len(Run::Text, old(self)@.skip(1)) as int),
            final(self)@ == old(self)@.skip(1).skip(run_len(Run::Text, old(self)@.skip(1)) as int),
    {
        self.read_char();
        let old_pos = self.position;
        self.read_run(Run::Text);
        proof {
            lemma_run_len_bound(Run::Text, old(self)@.skip(1));
        }
        let text = self.input.substring_char(old_pos, self.position);
        assert(text@ =~= old(self)@.skip(1).take(run_len(Run::Text, old(self)@.skip(1)) as int));
        text
    }

    /// Reads the integer literal under the cursor.
    fn read_number(&mut self) -> (digits: &'a str)
        requires
            old(self).wf(),
        ensures
            final(self).wf(),
            digits@ == old(self)@.take(run_len(Run::Number, old(self)@) as int),
            final(self)@ == old(self)@.skip(run_len(Run::Number, old(self)@) as int),
    {
        let old_pos = self.position;
        self.read_run(Run::Number);
        proof {
            lemma_run_len_bound(Run::Number, old(self)@);
        }
        let digits = self.input.substring_char(old_pos, self.position);
        assert(digits@ =~= old(self)@.take(run_len(Run::Number, old(self)@) as int));
        digits
    }

    /// Moves the cursor past the whitespace under it.
    fn skip_whitespace(&mut self)
        requires
            old(self).wf(),
        ensures
            final(self).wf(),
            final(self)@ == old(self)@.skip(run_len(Run::Blank, old(self)@) as int),
    {
        self.read_run(Run::Blank);
    }

    /// The keyword, hash marker or identifier that `ident`, just read, stands
    /// for.
    fn word_token(&mut self, ident: &str) -> (t: Token)
        requires
            old(self).wf(),
        ensures
            final(self).wf(),
            keyword(ident@) is Some ==> t@ == keyword(ident@)->0 && final(self)@ == old(self)@,
            keyword(ident@) is None && ident@ == hash_word() && old(self)@.len() > 0 && old(
                self,
            )@[0] == '!' ==> t@ == TokenView::HashMacro && final(self)@ == old(self)@.skip(1),
            keyword(ident@) is None && !(ident@ == hash_word() && old(self)@.len() > 0 && old(
                self,
            )@[0] == '!') ==> t@ == TokenView::Ident(ident@) && final(self)@ == old(self)@,
    {
        proof {
            reveal_strlit("fn");
            reveal_strlit("let");
            reveal_strlit("true");
            reveal_strlit("false");
            reveal_strlit("if");
            reveal_strlit("else");
            reveal_strlit("return");
            reveal_strlit("hash");
            assert("fn"@ =~= seq!['f', 'n']);
            assert("let"@ =~= seq!['l', 'e', 't']);
            assert("true"@ =~= seq!['t', 'r', 'u', 'e']);
            assert("false"@ =~= seq!['f', 'a', 'l', 's', 'e']);
            assert("if"@ =~= seq!['i', 'f']);
            assert("else"@ =~= seq!['e', 'l', 's', 'e']);
            assert("return"@ =~= seq!['r', 'e', 't', 'u', 'r', 'n']);
            assert("hash"@ =~= seq!['h', 'a', 's', 'h']);
        }
        if str_eq(ident, "fn") {
            Token::Function
        } else if str_eq(ident, "let") {
            Token::Let
        } else if str_eq(ident, "true") {
            Token::True
        } else if str_eq(ident, "false") {
            Token::False
        } else if str_eq(ident, "if") {
            Token::If
        } else if str_eq(ident, "else") {
            Token::Else
        } else if str_eq(ident, "return") {
            Token::Return
        } else if str_eq(ident, "hash") && self.char == Some('!') {
            self.read_char();
            Token::HashMacro
        } else {
            Token::Ident(ident.to_owned())
        }
    }

    /// Produces the next token, or `None` once only whitespace is left.
    pub fn next(&mut self) -> (r: Option<Token>)
        requires
            old(self).wf(),
        ensures
            final(self).wf(),
            match next_token(old(self)@) {
                Some((t, rest)) => r matches Some(token) && token@ == t && final(self)@ == rest,
                None => r is None && final(self)@.len() == 0,
            },
    {
        self.skip_whitespace();
        let ghost s = self@;
        proof {
            lemma_run_len_stops(Run::Blank, old(self)@);
            lemma_run_len_bound(Run::Blank, old(self)@);
            if s.len() > 0 {
                assert(s[0] == old(self)@[run_len(Run::Blank, old(self)@) as int]);
            }
        }
        let out = match self.char {
            Some('+') => Some(Token::Plus),
            Some(',') => Some(Token::Comma),
            Some(';') => Some(Token::Semicolon),
            Some(':') => Some(Token::Colon),
            Some('(') => Some(Token::LParen),
            Some(')') => Some(Token::RParen),
            Some('{') => Some(Token::LBrace),
            Some('}') => Some(Token::RBrace),
            Some('-') => Some(Token::Minus),
            Some('*') => Some(Token::Asterisk),
            Some('/') => Some(Token::ForwardSlash),
            Some('<') => Some(Token::LessThan),
            Some('>') => Some(Token::GreaterThan),
            Some('[') => Some(Token::LSquare),
            Some(']') => Some(Token::RSquare),
            Some('=') => {
                if let Some('=') = self.read_char() {
                    self.read_char();
                    assert(self@ =~= s.skip(2));
                    return Some(Token::Equal);
                } else {
                    return Some(Token::Assign);
                }
            },
            Some('!') => {
                if let Some('=') = self.read_char() {
                    self.read_char();
                    assert(self@ =~= s.skip(2));
                    return Some(Token::NotEqual);
                } else {
                    return Some(Token::Bang);
                }
            },
            Some('"') => {
                let text = self.read_str();
                Some(Token::Str(text.to_owned()))
            },
            Some(ch) => {
                if '0' <= ch && ch <= '9' {
                    let number = self.read_number();
                    return Some(Token::Int(number.to_owned()));
                }
                let ident = self.read_ident();
                return Some(self.word_token(ident));
            },
            None => None,
        };
        proof {
            if s.len() > 0 && s[0] == '"' {
                let body = s.skip(1);
                let n = run_len(Run::Text, body);
                lemma_run_len_bound(Run::Text, body);
                assert(self@ == body.skip(n as int));
                if n < body.len() {
                    assert(self@.skip(1) =~= body.skip((n + 1) as int));
                }
            }
        }
        self.read_char();
        out
    }

    /// Runs the lexer to the end of its input and returns the tokens it
    /// produces, in order.
    pub fn collect(self) -> (out: Vec<Token>)
        requires
            self.wf(),
        ensures
            out@.map_values(|t: Token| t@) == tokens(self@),
    {
        let mut lexer = self;
        let mut out: Vec<Token> = Vec::new();
        loop
            invariant
                lexer.wf(),
                tokens(self@) == out@.map_values(|t: Token| t@) + tokens(lexer@),
            decreases lexer@.len(),
        {
            let ghost done = out@.map_values(|t: Token| t@);
            proof {
                lemma_next_token_shrinks(lexer@);
            }
            match lexer.next() {
                Some(token) => {
                    out.push(token);
                    assert(out@.map_values(|t: Token| t@) =~= done + seq![token@]);
                    assert(tokens(self@) =~= out@.map_values(|t: Token| t@) + tokens(lexer@));
                },
                None => {
                    assert(tokens(self@) =~= out@.map_values(|t: Token| t@));
                    return out;
                },
            }
        }
    }
}

} // verus!
