pub mod display;
pub mod expressions;
pub mod statements;

use crate::lexer::token::{Token, TokenView};
use vstd::prelude::*;

verus! {

/// How tightly an operator binds, from loosest to tightest.
#[derive(Debug, PartialEq, Eq, Clone, Copy)]
pub enum Precedence {
    Lowest,
    Equals,
    LessGreater,
    Sum,
    Product,
    Prefix,
    Call,
}

impl Precedence {
    /// The place of this level on the ladder, counted from `Lowest`.
    pub open spec fn rank(self) -> nat {
        match self {
            Precedence::Lowest => 0,
            Precedence::Equals => 1,
            Precedence::LessGreater => 2,
            Precedence::Sum => 3,
            Precedence::Product => 4,
            Precedence::Prefix => 5,
            Precedence::Call => 6,
        }
    }

    /// The level at which `token` binds to the expression on its left: its
    /// own level for a binary operator, `Call` for the `(` of a call and the
    /// `[` of an index, `Lowest` for every other token.
    pub open spec fn of(token: TokenView) -> Precedence {
        match token {
            TokenView::Equal | TokenView::NotEqual => Precedence::Equals,
            TokenView::LessThan | TokenView::GreaterThan => Precedence::LessGreater,
            TokenView::Plus | TokenView::Minus => Precedence::Sum,
            TokenView::Asterisk | TokenView::ForwardSlash => Precedence::Product,
            TokenView::LParen | TokenView::LSquare => Precedence::Call,
            _ => Precedence::Lowest,
        }
    }

    /// The level at which `token` binds to the expression on its left.
    pub fn from(token: &Token) -> (p: Precedence)
        ensures
            p == Precedence::of(token@),
    {
        match token {
            Token::Equal | Token::NotEqual => Precedence::Equals,
            Token::LessThan | Token::GreaterThan => Precedence::LessGreater,
            Token::Plus | Token::Minus => Precedence::Sum,
            Token::Asterisk | Token::ForwardSlash => Precedence::Product,
            Token::LParen | Token::LSquare => Precedence::Call,
            _ => Precedence::Lowest,
        }
    }

    /// Whether this level binds no tighter than `other`.
    pub fn at_most(&self, other: &Precedence) -> (r: bool)
        ensures
            r == (self.rank() <= other.rank()),
    {
        self.level() <= other.level()
    }

    fn level(&self) -> (n: u8)
        ensures
            n == self.rank(),
    {
        match self {
            Precedence::Lowest => 0,
            Precedence::Equals => 1,
            Precedence::LessGreater => 2,
            Precedence::Sum => 3,
            Precedence::Product => 4,
            Precedence::Prefix => 5,
            Precedence::Call => 6,
        }
    }
}

} // verus!
