pub mod ast;
pub mod binding;
pub mod built;
pub mod error;
pub mod expressions;
pub mod grammar;
pub mod printed;
pub mod round_trip;
pub mod spelling;
pub mod statements;

use crate::lexer::token::{Token, TokenView};
use crate::lexer::{lemma_next_token_shrinks, next_token, tokens, Lexer};
use ast::statements::Statement;
use ast::Precedence;
use error::{Error, ErrorView, Result};
use vstd::prelude::*;

verus! {

/// The value of an optional token.
pub open spec fn token_view(t: Option<Token>) -> Option<TokenView> {
    match t {
        Some(t) => Some(t@),
        None => None,
    }
}

/// The value of the outcome of a production.
pub open spec fn outcome<T: View>(r: Result<T>) -> core::result::Result<T::V, ErrorView> {
    match r {
        Ok(t) => Ok(t@),
        Err(e) => Err(e@),
    }
}

/// A production of the grammar: a type whose values are parsed from tokens.
pub trait Parse: Sized {
    /// Whether parsing at level `p`, with the tokens `ts` still to be read,
    /// ends in `result` with the tokens `rest` still to be read.
    spec fn yields(ts: Seq<TokenView>, p: Precedence, result: Result<Self>, rest: Seq<TokenView>) -> bool;

    /// Parses one value, starting at the token under the parser's cursor.
    fn parse(parser: &mut Parser, precedence: &Precedence) -> (result: Result<Self>)
        requires
            old(parser).wf(),
        ensures
            final(parser).wf(),
            final(parser)@.len() <= old(parser)@.len(),
            Self::yields(old(parser)@, *precedence, result, final(parser)@),
    ;
}

/// A Pratt parser over the tokens of a lexer, which it reads on demand into
/// a buffer of two: the token under its cursor and the one after it.
pub struct Parser<'a> {
    lexer: Lexer<'a>,
    current: Option<Token>,
    peek: Option<Token>,
}

impl<'a> View for Parser<'a> {
    type V = Seq<TokenView>;

    /// The tokens still to be read, that under the cursor first.
    closed spec fn view(&self) -> Seq<TokenView> {
        match (self.current, self.peek) {
            (Some(a), Some(b)) => seq![a@, b@] + tokens(self.lexer@),
            (Some(a), None) => seq![a@],
            (None, _) => Seq::empty(),
        }
    }
}

impl<'a> Parser<'a> {
    /// The buffer holds the next tokens of the lexer: it is empty or half
    /// empty only where the lexer has no more.
    pub closed spec fn wf(&self) -> bool {
        &&& self.lexer.wf()
        &&& self.current is None ==> self.peek is None
        &&& self.peek is None ==> tokens(self.lexer@).len() == 0
    }

    /// A parser at the first token of `lexer`.
    pub fn new(lexer: Lexer<'a>) -> (p: Parser<'a>)
        requires
            lexer.wf(),
        ensures
            p.wf(),
            p@ == tokens(lexer@),
    {
        let mut lexer = lexer;
        let ghost text = lexer@;
        let current = lexer.next();
        let ghost after_first = lexer@;
        let peek = lexer.next();
        proof {
            lemma_next_token_shrinks(text);
            lemma_next_token_shrinks(after_first);
            if current is None {
                assert(next_token(after_first) is None) by {
                    assert(after_first.len() == 0);
                    assert(crate::lexer::run_len(crate::lexer::Run::Blank, after_first) == 0);
                }
            }
        }
        let p = Parser { lexer, current, peek };
        proof {
            if current is Some {
                assert(tokens(text) == seq![current->0@] + tokens(after_first));
                if peek is Some {
                    assert(tokens(after_first) == seq![peek->0@] + tokens(p.lexer@));
                } else {
                    assert(tokens(after_first) =~= Seq::empty());
                }
            }
            assert(p@ =~= tokens(text));
        }
        p
    }

    /// The token under the cursor; `None` at the end of the input.
    pub fn current(&self) -> (t: &Option<Token>)
        requires
            self.wf(),
        ensures
            token_view(*t) == grammar::current(self@),
    {
        &self.current
    }

    /// The token after the one under the cursor.
    pub fn peek(&self) -> (t: &Option<Token>)
        requires
            self.wf(),
        ensures
            token_view(*t) == grammar::peek(self@),
    {
        proof {
            lemma_next_token_shrinks(self.lexer@);
        }
        &self.peek
    }

    /// Moves the cursor to the next token; at the end of the input it stays.
    pub fn read_token(&mut self)
        requires
            old(self).wf(),
        ensures
            final(self).wf(),
            final(self)@ == grammar::advance(old(self)@),
    {
        let ghost text = self.lexer@;
        let next = self.lexer.next();
        proof {
            lemma_next_token_shrinks(text);
            if next is None {
                assert(next_token(self.lexer@) is None) by {
                    assert(self.lexer@.len() == 0);
                    assert(crate::lexer::run_len(crate::lexer::Run::Blank, self.lexer@) == 0);
                }
            }
        }
        self.current = self.peek.take();
        self.peek = next;
        assert(self@ =~= grammar::advance(old(self)@));
    }

    /// Parses the next statement; `None` at the end of the input.
    pub fn next(&mut self) -> (r: Option<Result<Statement>>)
        requires
            old(self).wf(),
        ensures
            final(self).wf(),
            final(self)@.len() <= old(self)@.len(),
            final(self)@ == grammar::statement(old(self)@, Precedence::Lowest).1,
            r matches Some(Ok(_)) ==> final(self)@.len() < old(self)@.len(),
            match grammar::statement(old(self)@, Precedence::Lowest).0 {
                Ok(ast::statements::StatementView::EOF) => r is None,
                s => r matches Some(x) && outcome(x) == s,
            },
    {
        match Statement::parse(self, &Precedence::Lowest) {
            Ok(Statement::EOF) => None,
            x => Some(x),
        }
    }

    /// Parses the statements of the whole input, up to the first that fails.
    pub fn collect(self) -> (r: Result<Vec<Statement>>)
        requires
            self.wf(),
        ensures
            match grammar::program(self@, Seq::empty()) {
                Ok(statements) => r matches Ok(v) && ast::expressions::statements_model(&v)
                    == statements,
                Err(e) => r matches Err(x) && x@ == e,
            },
    {
        let mut parser = self;
        let mut out: Vec<Statement> = Vec::new();
        assert(ast::expressions::statements_model(&out) =~= Seq::empty());
        loop
            invariant
                parser.wf(),
                grammar::program(self@, Seq::empty()) == grammar::program(
                    parser@,
                    ast::expressions::statements_model(&out),
                ),
            decreases parser@.len(),
        {
            let ghost before = parser@;
            let ghost done = ast::expressions::statements_model(&out);
            match parser.next() {
                None => {
                    return Ok(out);
                },
                Some(Err(e)) => {
                    return Err(e);
                },
                Some(Ok(s)) => {
                    out.push(s);
                    assert(ast::expressions::statements_model(&out) =~= done.push(s@));
                },
            }
        }
    }
}

/// Checks that the token read is the one required.
pub fn assert_token(received: &Option<Token>, expected: Token) -> (r: Result<()>)
    ensures
        match grammar::expect(token_view(*received), expected@) {
            Ok(_) => r is Ok,
            Err(e) => r matches Err(x) && x@ == e,
        },
{
    match received {
        Some(x) => {
            if x.same(&expected) {
                Ok(())
            } else {
                Err(Error::UnexpectedTokenError { expected: expected, received: x.clone() })
            }
        },
        None => Err(Error::EOFError),
    }
}

} // verus!
