use super::expressions::{Expression, ExpressionView, Identifier};
use vstd::prelude::*;

verus! {

/// A statement of the language.
#[derive(Debug, PartialEq)]
pub enum Statement {
    Let(Let),
    Return(Return),
    Expression(ExpressionStmt),
    /// Marks the end of the input; never part of a program.
    EOF,
}

/// The mathematical value of a [`Statement`].
pub enum StatementView {
    /// The bound name and the expression bound to it.
    Let(Seq<char>, ExpressionView),
    Return(ExpressionView),
    Expression(ExpressionView),
    EOF,
}

#[derive(Debug, PartialEq)]
pub struct Let {
    pub name: Identifier,
    pub value: Expression,
}

#[derive(Debug, PartialEq)]
pub struct Return {
    pub return_value: Expression,
}

#[derive(Debug, PartialEq)]
pub struct ExpressionStmt {
    pub expression: Expression,
}

impl Statement {
    /// The value of this statement; `self@` is the same.
    pub open spec fn model(&self) -> StatementView
        decreases self,
    {
        match self {
            Statement::Let(l) => StatementView::Let(l.name.value@, l.value.model()),
            Statement::Return(r) => StatementView::Return(r.return_value.model()),
            Statement::Expression(e) => StatementView::Expression(e.expression.model()),
            Statement::EOF => StatementView::EOF,
        }
    }
}

impl View for Statement {
    type V = StatementView;

    open spec fn view(&self) -> StatementView {
        self.model()
    }
}

impl View for Let {
    type V = StatementView;

    open spec fn view(&self) -> StatementView {
        StatementView::Let(self.name@, self.value@)
    }
}

impl View for Return {
    type V = StatementView;

    open spec fn view(&self) -> StatementView {
        StatementView::Return(self.return_value@)
    }
}

impl View for ExpressionStmt {
    type V = StatementView;

    open spec fn view(&self) -> StatementView {
        StatementView::Expression(self.expression@)
    }
}

impl Clone for Statement {
    fn clone(&self) -> (r: Self)
        ensures
            r@ == self@,
        decreases self,
    {
        match self {
            Statement::Let(l) => Statement::Let(
                Let { name: Identifier { value: l.name.value.clone() }, value: l.value.clone() },
            ),
            Statement::Return(r) => Statement::Return(
                Return { return_value: r.return_value.clone() },
            ),
            Statement::Expression(e) => Statement::Expression(
                ExpressionStmt { expression: e.expression.clone() },
            ),
            Statement::EOF => Statement::EOF,
        }
    }
}

} // verus!
