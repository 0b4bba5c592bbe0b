use crate::lexer::token::{display, Token, TokenView};
use vstd::prelude::*;
use vstd::string::StringExecFns;

verus! {

/// Why a statement could not be parsed.
#[derive(Debug, PartialEq)]
pub enum Error {
    /// The input ended in the middle of a production.
    EOFError,
    /// A required token differs from the one that was read.
    UnexpectedTokenError { expected: Token, received: Token },
    /// A production was expected and the token cannot start it.
    PrefixTokenError(Token),
    /// An integer literal does not fit in 64 bits.
    ParseIntError,
    Unknown,
}

/// The mathematical value of an [`Error`].
pub enum ErrorView {
    EOFError,
    UnexpectedTokenError { expected: TokenView, received: TokenView },
    PrefixTokenError(TokenView),
    ParseIntError,
    Unknown,
}

impl View for Error {
    type V = ErrorView;

    open spec fn view(&self) -> ErrorView {
        match self {
            Error::EOFError => ErrorView::EOFError,
            Error::UnexpectedTokenError { expected, received } => ErrorView::UnexpectedTokenError {
                expected: expected@,
                received: received@,
            },
            Error::PrefixTokenError(t) => ErrorView::PrefixTokenError(t@),
            Error::ParseIntError => ErrorView::ParseIntError,
            Error::Unknown => ErrorView::Unknown,
        }
    }
}

impl Clone for Error {
    fn clone(&self) -> (r: Self)
        ensures
            r@ == self@,
    {
        match self {
            Error::EOFError => Error::EOFError,
            Error::UnexpectedTokenError { expected, received } => Error::UnexpectedTokenError {
                expected: expected.clone(),
                received: received.clone(),
            },
            Error::PrefixTokenError(t) => Error::PrefixTokenError(t.clone()),
            Error::ParseIntError => Error::ParseIntError,
            Error::Unknown => Error::Unknown,
        }
    }
}

pub type Result<T, E = Error> = core::result::Result<T, E>;

/// The message for an error.
pub open spec fn message(e: ErrorView) -> Seq<char> {
    match e {
        ErrorView::EOFError => "Input stopped unexpectedly"@,
        ErrorView::UnexpectedTokenError { expected, received } => "Expected "@ + display(expected)
            + ", received "@ + display(received),
        ErrorView::PrefixTokenError(_) => "Expression expected"@,
        ErrorView::ParseIntError => "Error parsing integer"@,
        ErrorView::Unknown => "unknown parser error"@,
    }
}

impl Error {
    /// The message for this error.
    pub fn to_string(&self) -> (s: String)
        ensures
            s@ == message(self@),
    {
        match self {
            Error::EOFError => "Input stopped unexpectedly".to_owned(),
            Error::UnexpectedTokenError { expected, received } => {
                let mut s = "Expected ".to_owned();
                s.append(expected.to_string().as_str());
                s.append(", received ");
                s.append(received.to_string().as_str());
                assert(s@ =~= message(self@));
                s
            },
            Error::PrefixTokenError(_) => "Expression expected".to_owned(),
            Error::ParseIntError => "Error parsing integer".to_owned(),
            Error::Unknown => "unknown parser error".to_owned(),
        }
    }
}

} // verus!
