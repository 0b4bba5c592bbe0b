use super::ast::expressions::{Expression, Identifier};
use super::ast::statements::{ExpressionStmt, Let, Return, Statement};
use super::ast::Precedence;
use super::error::{Error, Result};
use super::{assert_token, grammar, outcome, Parse, Parser};
use crate::lexer::token::{Token, TokenView};
use vstd::prelude::*;

verus! {

/// Moves the cursor past the semicolons under it.
fn skip_semicolons(parser: &mut Parser)
    requires
        old(parser).wf(),
    ensures
        final(parser).wf(),
        final(parser)@ == grammar::skip_semicolons(old(parser)@),
        final(parser)@.len() <= old(parser)@.len(),
{
    loop
        invariant
            parser.wf(),
            grammar::skip_semicolons(parser@) == grammar::skip_semicolons(old(parser)@),
            parser@.len() <= old(parser)@.len(),
        ensures
            grammar::current(parser@) != Some(TokenView::Semicolon),
        decreases parser@.len(),
    {
        match parser.current() {
            Some(Token::Semicolon) => {},
            _ => {
                break ;
            },
        }
        parser.read_token();
    }
    proof {
        grammar::lemma_skip_semicolons(parser@);
    }
}

impl Parse for Statement {
    open spec fn yields(
        ts: Seq<TokenView>,
        p: Precedence,
        result: Result<Self>,
        rest: Seq<TokenView>,
    ) -> bool {
        grammar::statement(ts, p) == (outcome(result), rest)
    }

    fn parse(parser: &mut Parser, precedence: &Precedence) -> (result: Result<Self>)
        ensures
            result is Ok && old(parser)@.len() > 0 ==> final(parser)@.len() < old(parser)@.len(),
        decreases old(parser)@.len(), 5nat,
    {
        skip_semicolons(parser);
        let stmt = match parser.current() {
            None => Ok(Statement::EOF),
            Some(Token::Let) => match Let::parse(parser, precedence) {
                Ok(l) => Ok(Statement::Let(l)),
                Err(e) => Err(e),
            },
            Some(Token::Return) => match Return::parse(parser, precedence) {
                Ok(r) => Ok(Statement::Return(r)),
                Err(e) => Err(e),
            },
            Some(_) => match ExpressionStmt::parse(parser, precedence) {
                Ok(e) => Ok(Statement::Expression(e)),
                Err(e) => Err(e),
            },
        };
        skip_semicolons(parser);
        stmt
    }
}

impl Parse for Let {
    open spec fn yields(
        ts: Seq<TokenView>,
        p: Precedence,
        result: Result<Self>,
        rest: Seq<TokenView>,
    ) -> bool {
        grammar::let_statement(ts, p) == (outcome(result), rest)
    }

    fn parse(parser: &mut Parser, precedence: &Precedence) -> (result: Result<Self>)
        ensures
            result is Ok ==> final(parser)@.len() < old(parser)@.len(),
        decreases old(parser)@.len(), 4nat,
    {
        assert_token(parser.current(), Token::Let)?;
        parser.read_token();

        let name = Identifier::parse(parser, precedence)?;

        assert_token(parser.peek(), Token::Assign)?;
        parser.read_token();

        parser.read_token();
        let expression = Expression::parse(parser, precedence)?;

        parser.read_token();
        Ok(Let { name, value: expression })
    }
}

impl Parse for Return {
    open spec fn yields(
        ts: Seq<TokenView>,
        p: Precedence,
        result: Result<Self>,
        rest: Seq<TokenView>,
    ) -> bool {
        grammar::return_statement(ts, p) == (outcome(result), rest)
    }

    fn parse(parser: &mut Parser, precedence: &Precedence) -> (result: Result<Self>)
        ensures
            result is Ok ==> final(parser)@.len() < old(parser)@.len(),
        decreases old(parser)@.len(), 4nat,
    {
        assert_token(parser.current(), Token::Return)?;

        parser.read_token();
        let expression = Expression::parse(parser, precedence)?;

        parser.read_token();
        Ok(Return { return_value: expression })
    }
}

impl Parse for ExpressionStmt {
    open spec fn yields(
        ts: Seq<TokenView>,
        p: Precedence,
        result: Result<Self>,
        rest: Seq<TokenView>,
    ) -> bool {
        grammar::expression_statement(ts, p) == (outcome(result), rest)
    }

    fn parse(parser: &mut Parser, precedence: &Precedence) -> (result: Result<Self>)
        ensures
            result is Ok ==> final(parser)@.len() < old(parser)@.len(),
        decreases old(parser)@.len(), 4nat,
    {
        if parser.current().is_none() {
            return Err(Error::EOFError);
        }
        let expression = Expression::parse(parser, precedence)?;

        parser.read_token();
        Ok(ExpressionStmt { expression })
    }
}

} // verus!
