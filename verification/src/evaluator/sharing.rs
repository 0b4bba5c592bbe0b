use super::object::environment::{bind, fresh, resolve, Heap, HeapEnvironment};
use super::object::hash::{lemma_lookup_other, lemma_lookup_stored, lookup};
use super::object::ObjectView;
use super::semantics::{block, statement, statements, Environments};
use super::Evaluate;
use crate::parser::ast::expressions::ExpressionView;
use crate::parser::ast::statements::StatementView;
use vstd::prelude::*;

verus! {

/// Evaluation is a function of what is evaluated, the heap it starts from,
/// the environment and the depth: from two heaps with the same environments,
/// such as a heap and a copy of it, it yields the same value and leaves the
/// same environments.
pub proof fn lemma_evaluation_repeats<T: Evaluate>(
    node: &T,
    first: &Heap,
    second: &Heap,
    env: HeapEnvironment,
    depth: nat,
)
    requires
        first@ == second@,
    ensures
        node.yields(first@, env, depth) == node.yields(second@, env, depth),
{
}

/// A name bound in an environment is resolved there to the value bound.
pub proof fn lemma_resolve_bound(
    heap: Environments,
    env: HeapEnvironment,
    name: Seq<char>,
    value: ObjectView,
)
    requires
        env < heap.len(),
    ensures
        resolve(bind(heap, env, name, value), env, name) == Some(value),
{
    lemma_lookup_stored(heap[env as int].store, name, value);
}

/// A name bound in an environment is resolved to the value bound from a new
/// scope inside that environment, such as the scope of a block or of the
/// body of a function that closes over the environment.
pub proof fn lemma_resolve_from_inside(
    heap: Environments,
    env: HeapEnvironment,
    name: Seq<char>,
    value: ObjectView,
)
    requires
        env < heap.len(),
        heap.len() < usize::MAX,
    ensures
        resolve(
            bind(heap, env, name, value).push(fresh(Some(env))),
            heap.len() as usize,
            name,
        ) == Some(value),
{
    let bound = bind(heap, env, name, value);
    let inside = bound.push(fresh(Some(env)));
    lemma_lookup_stored(heap[env as int].store, name, value);
    assert(inside[env as int] == bound[env as int]);
    assert(resolve(inside, env, name) == Some(value));
    assert(lookup(inside[heap.len() as int].store, name) is None);
}

/// A `let` binds in its own environment only: every other environment stays
/// as it is.
pub proof fn lemma_bind_is_local(
    heap: Environments,
    env: HeapEnvironment,
    name: Seq<char>,
    value: ObjectView,
    other: HeapEnvironment,
)
    requires
        other < heap.len(),
        other != env,
    ensures
        bind(heap, env, name, value).len() == heap.len(),
        bind(heap, env, name, value)[other as int] == heap[other as int],
{
}

/// A `let` changes what its own name resolves to and nothing else: any
/// other name resolves, from every environment, to what it resolved to
/// before.
pub proof fn lemma_bind_keeps_other_names(
    heap: Environments,
    env: HeapEnvironment,
    name: Seq<char>,
    value: ObjectView,
    from: HeapEnvironment,
    other: Seq<char>,
)
    requires
        other != name,
    ensures
        resolve(bind(heap, env, name, value), from, other) == resolve(heap, from, other),
    decreases from,
{
    let after = bind(heap, env, name, value);
    if from < heap.len() {
        if from == env {
            lemma_lookup_other(heap[env as int].store, name, value, other);
        }
        match heap[from as int].outer {
            Some(o) => if o < from {
                lemma_bind_keeps_other_names(heap, env, name, value, o, other);
            },
            None => {},
        }
    }
}

/// Closures observe each other: after a `let` in an environment, the body
/// of every closure over that environment finds the name bound to the value
/// of the `let`. The closures `f` and `g` stand for any two of them.
pub proof fn lemma_closures_observe_let(
    heap: Environments,
    env: HeapEnvironment,
    name: Seq<char>,
    value: ExpressionView,
    depth: nat,
    f: ObjectView,
    g: ObjectView,
)
    requires
        f is Function,
        g is Function,
        f->env == env,
        g->env == env,
        statement(StatementView::Let(name, value), heap, env, depth).0 is Ok,
        env < statement(StatementView::Let(name, value), heap, env, depth).1.len() < usize::MAX,
    ensures
        ({
            let after = statement(StatementView::Let(name, value), heap, env, depth).1;
            let v = crate::evaluator::semantics::expression(value, heap, env, depth).0->Ok_0;
            let body = seq![StatementView::Expression(ExpressionView::Identifier(name))];
            &&& block(body, after, f->env, depth).0 == Ok::<
                ObjectView,
                crate::evaluator::error::ErrorView,
            >(v)
            &&& block(body, after, g->env, depth).0 == Ok::<
                ObjectView,
                crate::evaluator::error::ErrorView,
            >(v)
        }),
{
    let (r, h) = crate::evaluator::semantics::expression(value, heap, env, depth);
    let v = r->Ok_0;
    let after = bind(h, env, name, v);
    assert(after == statement(StatementView::Let(name, value), heap, env, depth).1);
    assert(after.len() == h.len());
    lemma_resolve_from_inside(h, env, name, v);
    let body = seq![StatementView::Expression(ExpressionView::Identifier(name))];
    let inside = after.push(fresh(Some(env)));
    let scope = after.len() as usize;
    assert(statement(body[0], inside, scope, depth) == (
        Ok::<ObjectView, crate::evaluator::error::ErrorView>(v),
        inside,
    ));
    assert(statements(body, 1, v, inside, scope, depth) == (
        Ok::<ObjectView, crate::evaluator::error::ErrorView>(v),
        inside,
    ));
    assert(statements(body, 0, ObjectView::Null, inside, scope, depth) == (
        Ok::<ObjectView, crate::evaluator::error::ErrorView>(v),
        inside,
    ));
}

} // verus!
