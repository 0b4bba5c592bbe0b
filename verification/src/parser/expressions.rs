use super::ast::expressions::{
    entries_model, expressions_model, names_of, statements_model, Array, Boolean, Call, Expression,
    Function, Identifier, If, Index, Infix, InfixOp, Integer, Prefix,
    PrefixOp, StmtBlock, Str,
};
use super::ast::statements::Statement;
use super::ast::Precedence;
use super::error::{Error, Result};
use super::{assert_token, grammar, outcome, token_view, Parse, Parser};
use crate::lexer::token::{Token, TokenView};
use crate::text::parse_integer;
use vstd::prelude::*;

verus! {

/// The error for a token that cannot start the production asked for.
fn cannot_start(received: &Option<Token>) -> (e: Error)
    ensures
        e@ == grammar::cannot_start(token_view(*received)),
{
    match received {
        Some(t) => Error::PrefixTokenError(t.clone()),
        None => Error::EOFError,
    }
}

impl Parse for Identifier {
    open spec fn yields(
        ts: Seq<TokenView>,
        p: Precedence,
        result: Result<Self>,
        rest: Seq<TokenView>,
    ) -> bool {
        grammar::identifier(ts) == (outcome(result), rest)
    }

    fn parse(parser: &mut Parser, _precedence: &Precedence) -> (result: Result<Self>) {
        match parser.current() {
            Some(Token::Ident(value)) => Ok(Identifier { value: value.clone() }),
            Some(t) => Err(
                Error::UnexpectedTokenError {
                    expected: Token::Ident(String::new()),
                    received: t.clone(),
                },
            ),
            None => Err(Error::EOFError),
        }
    }
}

impl Parse for Integer {
    open spec fn yields(
        ts: Seq<TokenView>,
        p: Precedence,
        result: Result<Self>,
        rest: Seq<TokenView>,
    ) -> bool {
        grammar::integer(ts) == (outcome(result), rest)
    }

    fn parse(parser: &mut Parser, _precedence: &Precedence) -> (result: Result<Self>) {
        match parser.current() {
            Some(Token::Int(value)) => match parse_integer(value.as_str()) {
                Some(value) => Ok(Integer { value }),
                None => Err(Error::ParseIntError),
            },
            t => Err(cannot_start(t)),
        }
    }
}

impl Parse for Str {
    open spec fn yields(
        ts: Seq<TokenView>,
        p: Precedence,
        result: Result<Self>,
        rest: Seq<TokenView>,
    ) -> bool {
        grammar::string(ts) == (outcome(result), rest)
    }

    fn parse(parser: &mut Parser, _precedence: &Precedence) -> (result: Result<Self>) {
        match parser.current() {
            Some(Token::Str(s)) => Ok(Str { value: s.clone() }),
            t => Err(cannot_start(t)),
        }
    }
}

impl Parse for Boolean {
    open spec fn yields(
        ts: Seq<TokenView>,
        p: Precedence,
        result: Result<Self>,
        rest: Seq<TokenView>,
    ) -> bool {
        grammar::boolean(ts) == (outcome(result), rest)
    }

    fn parse(parser: &mut Parser, _precedence: &Precedence) -> (result: Result<Self>) {
        match parser.current() {
            Some(Token::True) => Ok(Boolean { value: true }),
            Some(Token::False) => Ok(Boolean { value: false }),
            t => Err(cannot_start(t)),
        }
    }
}

/// The kinds of suffix that extend an expression to their left.
enum Suffix {
    Index,
    Call,
    Infix,
}

/// An expression in parentheses, with the cursor on the `(`.
fn parse_group(parser: &mut Parser) -> (result: Result<Expression>)
    requires
        old(parser).wf(),
    ensures
        final(parser).wf(),
        final(parser)@.len() <= old(parser)@.len(),
        grammar::group(old(parser)@) == (outcome(result), final(parser)@),
    decreases old(parser)@.len(), 2nat,
{
    assert_token(parser.current(), Token::LParen)?;
    parser.read_token();
    let expr = Expression::parse(parser, &Precedence::Lowest)?;

    assert_token(parser.peek(), Token::RParen)?;
    parser.read_token();

    Ok(expr)
}

impl Parse for Expression {
    open spec fn yields(
        ts: Seq<TokenView>,
        p: Precedence,
        result: Result<Self>,
        rest: Seq<TokenView>,
    ) -> bool {
        grammar::expression(ts, p) == (outcome(result), rest)
    }

    fn parse(parser: &mut Parser, precedence: &Precedence) -> (result: Result<Self>)
        decreases old(parser)@.len(), 3nat,
    {
        let first_expr = match parser.current() {
            Some(Token::Ident(_)) => match Identifier::parse(parser, precedence) {
                Ok(i) => Ok(Expression::Identifier(i)),
                Err(e) => Err(e),
            },
            Some(Token::Int(_)) => match Integer::parse(parser, precedence) {
                Ok(i) => Ok(Expression::Integer(i)),
                Err(e) => Err(e),
            },
            Some(Token::Str(_)) => match Str::parse(parser, precedence) {
                Ok(s) => Ok(Expression::Str(s)),
                Err(e) => Err(e),
            },
            Some(Token::True) | Some(Token::False) => match Boolean::parse(parser, precedence) {
                Ok(b) => Ok(Expression::Boolean(b)),
                Err(e) => Err(e),
            },
            Some(Token::Bang) | Some(Token::Minus) => match Prefix::parse(parser, precedence) {
                Ok(p) => Ok(Expression::Prefix(p)),
                Err(e) => Err(e),
            },
            Some(Token::LParen) => parse_group(parser),
            Some(Token::If) => match If::parse(parser, precedence) {
                Ok(i) => Ok(Expression::If(i)),
                Err(e) => Err(e),
            },
            Some(Token::Function) => match Function::parse(parser, precedence) {
                Ok(f) => Ok(Expression::Function(f)),
                Err(e) => Err(e),
            },
            Some(Token::LSquare) => match Array::parse(parser, precedence) {
                Ok(a) => Ok(Expression::Array(a)),
                Err(e) => Err(e),
            },
            Some(Token::LBrace) => match StmtBlock::parse(parser, precedence) {
                Ok(b) => Ok(Expression::Block(b)),
                Err(e) => Err(e),
            },
            Some(Token::HashMacro) => match crate::parser::ast::expressions::Hash::parse(parser, precedence) {
                Ok(h) => Ok(Expression::Hash(h)),
                Err(e) => Err(e),
            },
            Some(t) => {
                // Moving on keeps a caller that retries from reading the
                // same token for ever.
                let token = t.clone();
                parser.read_token();
                return Err(Error::PrefixTokenError(token));
            },
            None => {
                return Err(Error::EOFError);
            },
        }?;

        let mut left = first_expr;

        loop
            invariant
                parser.wf(),
                parser@.len() <= old(parser)@.len(),
                grammar::suffixes(left@, parser@, *precedence) == grammar::expression(
                    old(parser)@,
                    *precedence,
                ),
            decreases parser@.len(),
        {
            let (suffix, new_precedence) = match parser.peek() {
                Some(Token::Semicolon) | None => {
                    return Ok(left);
                },
                Some(Token::LSquare) => (Suffix::Index, Precedence::Call),
                Some(Token::LParen) => (Suffix::Call, Precedence::Call),
                Some(t) => (Suffix::Infix, Precedence::from(t)),
            };
            if new_precedence.at_most(precedence) {
                return Ok(left);
            }
            parser.read_token();
            left = match suffix {
                Suffix::Index => Expression::Index(Index::parse(parser, left)?),
                Suffix::Call => Expression::Call(Call::parse(parser, left)?),
                Suffix::Infix => Expression::Infix(Infix::parse(parser, left, &new_precedence)?),
            };
        }
    }
}

impl Parse for Prefix {
    open spec fn yields(
        ts: Seq<TokenView>,
        p: Precedence,
        result: Result<Self>,
        rest: Seq<TokenView>,
    ) -> bool {
        grammar::prefix(ts) == (outcome(result), rest)
    }

    fn parse(parser: &mut Parser, _precedence: &Precedence) -> (result: Result<Self>)
        decreases old(parser)@.len(), 2nat,
    {
        let operator = match parser.current() {
            Some(Token::Bang) => PrefixOp::Bang,
            Some(Token::Minus) => PrefixOp::Minus,
            t => {
                return Err(cannot_start(t));
            },
        };
        parser.read_token();

        let right = Expression::parse(parser, &Precedence::Prefix)?;

        Ok(Prefix { operator, right: Box::new(right) })
    }
}

impl Infix {
    /// Parses the binary operator under the cursor and its right operand,
    /// which binds tighter than `precedence`, and applies them to `left`.
    pub fn parse(parser: &mut Parser, left: Expression, precedence: &Precedence) -> (result:
        Result<Self>)
        requires
            old(parser).wf(),
        ensures
            final(parser).wf(),
            final(parser)@.len() <= old(parser)@.len(),
            grammar::infix(left@, old(parser)@, *precedence) == (outcome(result), final(parser)@),
        decreases old(parser)@.len(), 2nat,
    {
        let operator = match parser.current() {
            Some(Token::Plus) => InfixOp::Plus,
            Some(Token::Minus) => InfixOp::Minus,
            Some(Token::Asterisk) => InfixOp::Asterisk,
            Some(Token::ForwardSlash) => InfixOp::ForwardSlash,
            Some(Token::Equal) => InfixOp::Equal,
            Some(Token::NotEqual) => InfixOp::NotEqual,
            Some(Token::LessThan) => InfixOp::LessThan,
            Some(Token::GreaterThan) => InfixOp::GreaterThan,
            t => {
                return Err(cannot_start(t));
            },
        };
        parser.read_token();

        let right = Expression::parse(parser, precedence)?;
        Ok(Infix { operator, left: Box::new(left), right: Box::new(right) })
    }
}

impl Parse for If {
    open spec fn yields(
        ts: Seq<TokenView>,
        p: Precedence,
        result: Result<Self>,
        rest: Seq<TokenView>,
    ) -> bool {
        grammar::if_expression(ts, p) == (outcome(result), rest)
    }

    fn parse(parser: &mut Parser, precedence: &Precedence) -> (result: Result<Self>)
        decreases old(parser)@.len(), 2nat,
    {
        assert_token(parser.current(), Token::If)?;
        parser.read_token();
        let condition = Expression::parse(parser, precedence)?;

        assert_token(parser.peek(), Token::LBrace)?;
        parser.read_token();

        let consequence = StmtBlock::parse(parser, precedence)?;

        let has_alternative = match parser.peek() {
            Some(Token::Else) => true,
            _ => false,
        };
        let alternative = if has_alternative {
            parser.read_token();
            parser.read_token();
            assert_token(parser.current(), Token::LBrace)?;

            let block = StmtBlock::parse(parser, precedence)?;
            Some(block)
        } else {
            None
        };

        Ok(If { condition: Box::new(condition), consequence, alternative })
    }
}

impl Parse for Vec<Identifier> {
    open spec fn yields(
        ts: Seq<TokenView>,
        p: Precedence,
        result: Result<Self>,
        rest: Seq<TokenView>,
    ) -> bool {
        grammar::parameters(ts) == (
            match result {
                Ok(v) => Ok(names_of(&v)),
                Err(e) => Err(e@),
            },
            rest,
        )
    }

    fn parse(parser: &mut Parser, precedence: &Precedence) -> (result: Result<Self>) {
        assert_token(parser.current(), Token::LParen)?;
        let mut idents: Vec<Identifier> = Vec::new();
        assert(names_of(&idents) =~= Seq::empty());

        match parser.peek() {
            None => {
                return Err(Error::EOFError);
            },
            Some(Token::RParen) => {
                parser.read_token();
                return Ok(idents);
            },
            _ => {},
        }

        loop
            invariant
                parser.wf(),
                parser@.len() <= old(parser)@.len(),
                grammar::more_parameters(parser@, names_of(&idents)) == grammar::parameters(
                    old(parser)@,
                ),
            decreases parser@.len(),
        {
            let ghost names = names_of(&idents);
            parser.read_token();
            let ident = Identifier::parse(parser, precedence)?;
            idents.push(ident);
            assert(names_of(&idents) =~= names.push(ident@));

            match parser.peek() {
                Some(Token::Comma) => {
                    parser.read_token();
                },
                Some(Token::RParen) => {
                    parser.read_token();
                    return Ok(idents);
                },
                x => {
                    return match assert_token(x, Token::RParen) {
                        Err(e) => Err(e),
                        Ok(_) => Err(Error::Unknown),
                    };
                },
            }
        }
    }
}

impl Parse for Function {
    open spec fn yields(
        ts: Seq<TokenView>,
        p: Precedence,
        result: Result<Self>,
        rest: Seq<TokenView>,
    ) -> bool {
        grammar::function(ts, p) == (outcome(result), rest)
    }

    fn parse(parser: &mut Parser, precedence: &Precedence) -> (result: Result<Self>)
        decreases old(parser)@.len(), 2nat,
    {
        assert_token(parser.current(), Token::Function)?;

        assert_token(parser.peek(), Token::LParen)?;
        parser.read_token();
        let parameters = Vec::<Identifier>::parse(parser, precedence)?;
        assert_token(parser.current(), Token::RParen)?;
        parser.read_token();

        let body = StmtBlock::parse(parser, precedence)?;

        Ok(Function { parameters, body })
    }
}

impl Parse for Vec<Expression> {
    open spec fn yields(
        ts: Seq<TokenView>,
        p: Precedence,
        result: Result<Self>,
        rest: Seq<TokenView>,
    ) -> bool {
        grammar::list(ts, p) == (
            match result {
                Ok(v) => Ok(expressions_model(&v)),
                Err(e) => Err(e@),
            },
            rest,
        )
    }

    fn parse(parser: &mut Parser, precedence: &Precedence) -> (result: Result<Self>)
        decreases old(parser)@.len(), 1nat,
    {
        let matching_token = match parser.current() {
            Some(Token::LParen) => Token::RParen,
            Some(Token::LSquare) => Token::RSquare,
            t => {
                return Err(cannot_start(t));
            },
        };

        let mut exprs: Vec<Expression> = Vec::new();
        assert(expressions_model(&exprs) =~= Seq::empty());

        match parser.peek() {
            None => {
                return Err(Error::EOFError);
            },
            Some(t) => {
                if t.same(&matching_token) {
                    parser.read_token();
                    return Ok(exprs);
                }
            },
        }

        loop
            invariant
                parser.wf(),
                0 < parser@.len() <= old(parser)@.len(),
                grammar::more_items(
                    parser@,
                    matching_token@,
                    *precedence,
                    expressions_model(&exprs),
                ) == grammar::list(old(parser)@, *precedence),
            decreases parser@.len(),
        {
            let ghost items = expressions_model(&exprs);
            parser.read_token();
            let expr = Expression::parse(parser, precedence)?;
            exprs.push(expr);
            assert(expressions_model(&exprs) =~= items.push(expr@));

            let at_comma = match parser.peek() {
                Some(Token::Comma) => true,
                _ => false,
            };
            if at_comma {
                parser.read_token();
            } else {
                match assert_token(parser.peek(), matching_token.clone()) {
                    Ok(_) => {
                        parser.read_token();
                        return Ok(exprs);
                    },
                    Err(e) => {
                        return Err(e);
                    },
                }
            }
        }
    }
}

impl Call {
    /// Parses the argument list whose `(` is under the cursor and applies it
    /// to `function`.
    pub fn parse(parser: &mut Parser, function: Expression) -> (result: Result<Self>)
        requires
            old(parser).wf(),
        ensures
            final(parser).wf(),
            final(parser)@.len() <= old(parser)@.len(),
            grammar::call(function@, old(parser)@) == (outcome(result), final(parser)@),
        decreases old(parser)@.len(), 2nat,
    {
        assert_token(parser.current(), Token::LParen)?;
        let arguments = Vec::<Expression>::parse(parser, &Precedence::Lowest)?;
        assert_token(parser.current(), Token::RParen)?;

        Ok(Call { function: Box::new(function), arguments })
    }
}

impl Parse for Array {
    open spec fn yields(
        ts: Seq<TokenView>,
        p: Precedence,
        result: Result<Self>,
        rest: Seq<TokenView>,
    ) -> bool {
        grammar::array(ts, p) == (outcome(result), rest)
    }

    fn parse(parser: &mut Parser, precedence: &Precedence) -> (result: Result<Self>)
        decreases old(parser)@.len(), 2nat,
    {
        assert_token(parser.current(), Token::LSquare)?;
        let value = Vec::<Expression>::parse(parser, precedence)?;
        assert_token(parser.current(), Token::RSquare)?;

        Ok(Array { value })
    }
}

impl Index {
    /// Parses the index whose `[` is under the cursor and applies it to
    /// `left`.
    pub fn parse(parser: &mut Parser, left: Expression) -> (result: Result<Self>)
        requires
            old(parser).wf(),
        ensures
            final(parser).wf(),
            final(parser)@.len() <= old(parser)@.len(),
            grammar::index(left@, old(parser)@) == (outcome(result), final(parser)@),
        decreases old(parser)@.len(), 2nat,
    {
        assert_token(parser.current(), Token::LSquare)?;
        parser.read_token();

        let index = Expression::parse(parser, &Precedence::Lowest)?;

        assert_token(parser.peek(), Token::RSquare)?;
        parser.read_token();

        Ok(Index { left: Box::new(left), index: Box::new(index) })
    }
}

impl Parse for StmtBlock {
    open spec fn yields(
        ts: Seq<TokenView>,
        p: Precedence,
        result: Result<Self>,
        rest: Seq<TokenView>,
    ) -> bool {
        grammar::block(ts, p) == (outcome(result), rest)
    }

    fn parse(parser: &mut Parser, precedence: &Precedence) -> (result: Result<Self>)
        decreases old(parser)@.len(), 2nat,
    {
        assert_token(parser.current(), Token::LBrace)?;
        parser.read_token();

        let mut statements: Vec<Statement> = Vec::new();
        assert(statements_model(&statements) =~= Seq::empty());

        loop
            invariant
                parser.wf(),
                parser@.len() < old(parser)@.len(),
                grammar::more_statements(parser@, *precedence, statements_model(&statements))
                    == grammar::block(old(parser)@, *precedence),
            decreases parser@.len(),
        {
            let ghost done = statements_model(&statements);
            match parser.current() {
                Some(Token::RBrace) | None => {
                    assert_token(parser.current(), Token::RBrace)?;
                    return Ok(StmtBlock { statements });
                },
                _ => {},
            }
            let s = Statement::parse(parser, precedence)?;
            statements.push(s);
            assert(statements_model(&statements) =~= done.push(s@));
        }
    }
}

impl Parse for crate::parser::ast::expressions::Hash {
    open spec fn yields(
        ts: Seq<TokenView>,
        p: Precedence,
        result: Result<Self>,
        rest: Seq<TokenView>,
    ) -> bool {
        grammar::hash(ts, p) == (outcome(result), rest)
    }

    fn parse(parser: &mut Parser, precedence: &Precedence) -> (result: Result<Self>)
        decreases old(parser)@.len(), 2nat,
    {
        assert_token(parser.current(), Token::HashMacro)?;
        assert_token(parser.peek(), Token::LBrace)?;
        parser.read_token();

        let mut entries: Vec<(Expression, Expression)> = Vec::new();
        assert(entries_model(&entries) =~= Seq::empty());

        match parser.peek() {
            Some(Token::RBrace) => {
                parser.read_token();
                return Ok(crate::parser::ast::expressions::Hash { entries });
            },
            _ => {},
        }

        loop
            invariant
                parser.wf(),
                0 < parser@.len() < old(parser)@.len(),
                grammar::more_entries(parser@, *precedence, entries_model(&entries))
                    == grammar::hash(old(parser)@, *precedence),
            decreases parser@.len(),
        {
            let ghost done = entries_model(&entries);
            parser.read_token();
            let key = Expression::parse(parser, precedence)?;
            assert_token(parser.peek(), Token::Colon)?;
            parser.read_token();

            parser.read_token();
            let value = Expression::parse(parser, precedence)?;

            entries.push((key, value));
            assert(entries_model(&entries) =~= done.push((key@, value@)));

            match parser.peek() {
                Some(Token::Comma) => {
                    parser.read_token();
                },
                Some(Token::RBrace) => {
                    parser.read_token();
                    return Ok(crate::parser::ast::expressions::Hash { entries });
                },
                x => {
                    return match assert_token(x, Token::RBrace) {
                        Err(e) => Err(e),
                        Ok(_) => Err(Error::Unknown),
                    };
                },
            }
        }
    }
}

} // verus!
