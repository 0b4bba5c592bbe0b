use super::object::display::{object, object_type};
use super::object::{Object, ObjectType, ObjectView};
use crate::parser::ast::display::{infix_op, prefix_op};
use crate::text::{decimal, digits, integer_to_string, natural_to_string};
use crate::parser::ast::expressions::{InfixOp, PrefixOp};
use vstd::prelude::*;
use vstd::string::StringExecFns;

verus! {

/// Why an evaluation did not yield a value.
#[derive(Debug, PartialEq)]
#[allow(inconsistent_fields)]
pub enum Error {
    /// Not a failure: a `return` statement hands its value to the call
    /// around it.
    Return(Object),
    /// A unary operator has no meaning on a value of this kind.
    PrefixError { operator: PrefixOp, type_value: ObjectType },
    /// A binary operator has no meaning on values of these kinds.
    InfixError { operator: InfixOp, type_left: ObjectType, type_right: ObjectType },
    /// No scope binds this name.
    IdentifierError(String),
    /// A value of this kind was called.
    CallableError(ObjectType),
    /// A function was called with the wrong number of arguments.
    ArgumentsError { expected: usize, received: usize },
    /// A value of another kind was required.
    TypeError { expected: ObjectType, received: ObjectType },
    /// An array has no element at this index, counted from its start.
    IndexError(i64),
    /// A value of this kind cannot be the key of a hash.
    HashError(ObjectType),
    /// An integer division has no quotient: the divisor is zero, or the
    /// quotient does not fit in 64 bits.
    DivisionError,
    /// Calls are nested deeper than the evaluation was allowed to go.
    DepthError,
    /// A closure refers to an environment that its heap does not hold.
    Unknown,
}

/// The mathematical value of an [`Error`].
#[allow(inconsistent_fields)]
pub enum ErrorView {
    Return(ObjectView),
    PrefixError { operator: PrefixOp, type_value: ObjectType },
    InfixError { operator: InfixOp, type_left: ObjectType, type_right: ObjectType },
    IdentifierError(Seq<char>),
    CallableError(ObjectType),
    ArgumentsError { expected: usize, received: usize },
    TypeError { expected: ObjectType, received: ObjectType },
    IndexError(i64),
    HashError(ObjectType),
    DivisionError,
    DepthError,
    Unknown,
}

impl View for Error {
    type V = ErrorView;

    open spec fn view(&self) -> ErrorView {
        match self {
            Error::Return(o) => ErrorView::Return(o@),
            Error::PrefixError { operator, type_value } => ErrorView::PrefixError {
                operator: *operator,
                type_value: *type_value,
            },
            Error::InfixError { operator, type_left, type_right } => ErrorView::InfixError {
                operator: *operator,
                type_left: *type_left,
                type_right: *type_right,
            },
            Error::IdentifierError(s) => ErrorView::IdentifierError(s@),
            Error::CallableError(t) => ErrorView::CallableError(*t),
            Error::ArgumentsError { expected, received } => ErrorView::ArgumentsError {
                expected: *expected,
                received: *received,
            },
            Error::TypeError { expected, received } => ErrorView::TypeError {
                expected: *expected,
                received: *received,
            },
            Error::IndexError(i) => ErrorView::IndexError(*i),
            Error::HashError(t) => ErrorView::HashError(*t),
            Error::DivisionError => ErrorView::DivisionError,
            Error::DepthError => ErrorView::DepthError,
            Error::Unknown => ErrorView::Unknown,
        }
    }
}

pub type Result<T, E = Error> = core::result::Result<T, E>;

/// The value of the outcome of an evaluation.
pub open spec fn outcome(r: Result<Object>) -> core::result::Result<ObjectView, ErrorView> {
    match r {
        Ok(o) => Ok(o@),
        Err(e) => Err(e@),
    }
}

/// The message for an error.
pub open spec fn message(e: ErrorView) -> Seq<char> {
    match e {
        ErrorView::Return(o) => "Return statement returned "@ + object(o),
        ErrorView::PrefixError { operator, type_value } => "Unknown operation: "@ + prefix_op(
            operator,
        ) + object_type(type_value),
        ErrorView::InfixError { operator, type_left, type_right } => "Unknown operation: "@
            + object_type(type_left) + " "@ + infix_op(operator) + " "@ + object_type(type_right),
        ErrorView::IdentifierError(name) => "Undefined identifier: "@ + name,
        ErrorView::CallableError(t) => "Expected callable, received "@ + object_type(t),
        ErrorView::ArgumentsError { expected, received } => "Expected "@ + digits(expected as nat)
            + " arguments, "@ + digits(received as nat) + " received"@,
        ErrorView::TypeError { expected, received } => "Expected "@ + object_type(expected)
            + " object, "@ + object_type(received) + " received"@,
        ErrorView::IndexError(i) => "Index '"@ + decimal(i as int) + "' out of range"@,
        ErrorView::HashError(t) => "Object of type "@ + object_type(t) + " is unhashable"@,
        ErrorView::DivisionError => "Division without a quotient"@,
        ErrorView::DepthError => "Calls are nested too deep"@,
        ErrorView::Unknown => "Unknown evaluation error"@,
    }
}

impl Error {
    /// The message for this error.
    pub fn to_string(&self) -> (s: String)
        ensures
            s@ == message(self@),
    {
        match self {
            Error::Return(o) => {
                let mut s = "Return statement returned ".to_owned();
                s.append(o.to_string().as_str());
                s
            },
            Error::PrefixError { operator, type_value } => {
                let mut s = "Unknown operation: ".to_owned();
                s.append(operator.to_string().as_str());
                s.append(type_value.to_string().as_str());
                assert(s@ =~= message(self@));
                s
            },
            Error::InfixError { operator, type_left, type_right } => {
                let mut s = "Unknown operation: ".to_owned();
                s.append(type_left.to_string().as_str());
                s.append(" ");
                s.append(operator.to_string().as_str());
                s.append(" ");
                s.append(type_right.to_string().as_str());
                assert(s@ =~= message(self@));
                s
            },
            Error::IdentifierError(name) => {
                let mut s = "Undefined identifier: ".to_owned();
                s.append(name.as_str());
                s
            },
            Error::CallableError(t) => {
                let mut s = "Expected callable, received ".to_owned();
                s.append(t.to_string().as_str());
                s
            },
            Error::ArgumentsError { expected, received } => {
                let mut s = "Expected ".to_owned();
                s.append(natural_to_string(*expected as u64).as_str());
                s.append(" arguments, ");
                s.append(natural_to_string(*received as u64).as_str());
                s.append(" received");
                assert(s@ =~= message(self@));
                s
            },
            Error::TypeError { expected, received } => {
                let mut s = "Expected ".to_owned();
                s.append(expected.to_string().as_str());
                s.append(" object, ");
                s.append(received.to_string().as_str());
                s.append(" received");
                assert(s@ =~= message(self@));
                s
            },
            Error::IndexError(i) => {
                let mut s = "Index '".to_owned();
                s.append(integer_to_string(*i).as_str());
                s.append("' out of range");
                assert(s@ =~= message(self@));
                s
            },
            Error::HashError(t) => {
                let mut s = "Object of type ".to_owned();
                s.append(t.to_string().as_str());
                s.append(" is unhashable");
                assert(s@ =~= message(self@));
                s
            },
            Error::DivisionError => "Division without a quotient".to_owned(),
            Error::DepthError => "Calls are nested too deep".to_owned(),
            Error::Unknown => "Unknown evaluation error".to_owned(),
        }
    }
}

} // verus!
