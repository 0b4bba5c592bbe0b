use super::error::{Error, Result};
use super::object::environment::{Environment, Heap, HeapEnvironment};
use super::object::Object;
use super::semantics;
use super::semantics::{Environments, Value};
use super::Evaluate;
use crate::parser::ast::expressions::statements_model;
use crate::parser::ast::statements::{ExpressionStmt, Let, Return, Statement};
use vstd::prelude::*;

verus! {

broadcast use vstd::std_specs::vec::group_vec_axioms;

impl Evaluate for Statement {
    open spec fn yields(&self, heap: Environments, env: HeapEnvironment, depth: nat) -> (
        Value,
        Environments,
    ) {
        semantics::statement(self@, heap, env, depth)
    }

    fn eval(&self, heap: &mut Heap, env: HeapEnvironment, depth: usize) -> (r: Result<Object>)
        decreases depth, self,
    {
        match self {
            Statement::Expression(e) => e.eval(heap, env, depth),
            Statement::Return(r) => r.eval(heap, env, depth),
            Statement::Let(l) => l.eval(heap, env, depth),
            Statement::EOF => Ok(Object::Null),
        }
    }
}

impl Evaluate for Vec<Statement> {
    open spec fn yields(&self, heap: Environments, env: HeapEnvironment, depth: nat) -> (
        Value,
        Environments,
    ) {
        semantics::statements(
            statements_model(self),
            0,
            crate::evaluator::object::ObjectView::Null,
            heap,
            env,
            depth,
        )
    }

    fn eval(&self, heap: &mut Heap, env: HeapEnvironment, depth: usize) -> (r: Result<Object>)
        decreases depth, self,
    {
        let mut result = Object::Null;
        let mut i: usize = 0;
        while i < self.len()
            invariant
                i <= self.len(),
                heap.wf(),
                env < heap@.len(),
                old(heap)@.len() <= heap@.len(),
                semantics::statements(statements_model(self), i as int, result@, heap@, env, depth as nat)
                    == semantics::statements(
                    statements_model(self),
                    0,
                    crate::evaluator::object::ObjectView::Null,
                    old(heap)@,
                    env,
                    depth as nat,
                ),
            decreases self.len() - i,
        {
            result = self[i].eval(heap, env, depth)?;
            i += 1;
        }
        Ok(result)
    }
}

impl Evaluate for ExpressionStmt {
    open spec fn yields(&self, heap: Environments, env: HeapEnvironment, depth: nat) -> (
        Value,
        Environments,
    ) {
        semantics::statement(self@, heap, env, depth)
    }

    fn eval(&self, heap: &mut Heap, env: HeapEnvironment, depth: usize) -> (r: Result<Object>)
        decreases depth, self,
    {
        self.expression.eval(heap, env, depth)
    }
}

impl Evaluate for Return {
    open spec fn yields(&self, heap: Environments, env: HeapEnvironment, depth: nat) -> (
        Value,
        Environments,
    ) {
        semantics::statement(self@, heap, env, depth)
    }

    fn eval(&self, heap: &mut Heap, env: HeapEnvironment, depth: usize) -> (r: Result<Object>)
        decreases depth, self,
    {
        let return_value = self.return_value.eval(heap, env, depth)?;
        // A return travels up to the call around it as an error does.
        Err(Error::Return(return_value))
    }
}

impl Evaluate for Let {
    open spec fn yields(&self, heap: Environments, env: HeapEnvironment, depth: nat) -> (
        Value,
        Environments,
    ) {
        semantics::statement(self@, heap, env, depth)
    }

    fn eval(&self, heap: &mut Heap, env: HeapEnvironment, depth: usize) -> (r: Result<Object>)
        decreases depth, self,
    {
        let expression = self.value.eval(heap, env, depth)?;

        Environment::set(heap, env, self.name.value.as_str(), expression);
        Ok(Object::Null)
    }
}

} // verus!
