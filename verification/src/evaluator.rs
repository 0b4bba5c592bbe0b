pub mod error;
pub mod expressions;
pub mod object;
pub mod semantics;
pub mod sharing;
pub mod statements;

use error::{outcome, Error, Result};
use object::environment::{Heap, HeapEnvironment};
use object::Object;
use semantics::{returned, Environments, Value};
use vstd::prelude::*;

verus! {

/// A depth of nested calls that fits the stack of an ordinary thread.
pub const DEFAULT_DEPTH: usize = 128;

/// A piece of syntax that can be evaluated.
pub trait Evaluate {
    /// What evaluation yields in the environment `env` of `heap`, where
    /// calls may nest `depth` deep: a value or an error, and the heap
    /// afterwards.
    spec fn yields(&self, heap: Environments, env: HeapEnvironment, depth: nat) -> (
        Value,
        Environments,
    );

    /// Evaluates `self` in the environment `env` of `heap`, with calls
    /// nested at most `depth` deep.
    fn eval(&self, heap: &mut Heap, env: HeapEnvironment, depth: usize) -> (r: Result<Object>)
        requires
            old(heap).wf(),
            env < old(heap)@.len(),
        ensures
            final(heap).wf(),
            old(heap)@.len() <= final(heap)@.len(),
            self.yields(old(heap)@, env, depth as nat) == (outcome(r), final(heap)@),
    ;
}

/// Evaluates `node` as `eval` does, and takes the value of a `return` that
/// reaches the top for the value of the whole.
pub fn eval_return<T: Evaluate>(
    node: &T,
    heap: &mut Heap,
    env: HeapEnvironment,
    depth: usize,
) -> (r: Result<Object>)
    requires
        old(heap).wf(),
        env < old(heap)@.len(),
    ensures
        final(heap).wf(),
        old(heap)@.len() <= final(heap)@.len(),
        outcome(r) == returned(node.yields(old(heap)@, env, depth as nat).0),
        final(heap)@ == node.yields(old(heap)@, env, depth as nat).1,
{
    match node.eval(heap, env, depth) {
        Err(Error::Return(x)) => Ok(x),
        x => x,
    }
}

} // verus!
