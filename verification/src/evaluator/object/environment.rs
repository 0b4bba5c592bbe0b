use super::builtins::Builtin;
use super::hash::{delete, find, lookup, store};
use super::{Object, ObjectView};
use crate::text::str_eq;
use vstd::prelude::*;

verus! {

/// The place of an environment in its heap.
pub type HeapEnvironment = usize;

/// A scope: the values bound to names in it, and the scope around it.
#[derive(Debug, PartialEq)]
pub struct Environment {
    pub store: Vec<(String, Object)>,
    outer: Option<HeapEnvironment>,
}

/// The mathematical value of an [`Environment`].
pub struct EnvironmentView {
    /// The bindings, in the order in which their names were first bound.
    pub store: Seq<(Seq<char>, ObjectView)>,
    /// The environment in which a name is looked up that this one does not
    /// bind.
    pub outer: Option<HeapEnvironment>,
}

/// The values of the bindings of an environment.
pub open spec fn store_model(v: &Vec<(String, Object)>) -> Seq<(Seq<char>, ObjectView)> {
    Seq::new(v.len() as nat, |k: int| (v[k].0@, v[k].1@))
}

impl View for Environment {
    type V = EnvironmentView;

    closed spec fn view(&self) -> EnvironmentView {
        EnvironmentView { store: store_model(&self.store), outer: self.outer }
    }
}

/// The environments of a program, which refer to one another, and are
/// referred to by closures, by their place here. The first one binds the
/// built-in functions and lies at the end of every chain of scopes.
#[derive(Debug, PartialEq)]
pub struct Heap {
    envs: Vec<Environment>,
}

impl View for Heap {
    type V = Seq<EnvironmentView>;

    closed spec fn view(&self) -> Seq<EnvironmentView> {
        Seq::new(self.envs.len() as nat, |i: int| self.envs[i]@)
    }
}

/// There is a first environment, and the scope around an environment was
/// there before it: no chain of scopes runs in a circle.
pub open spec fn well_formed(heap: Seq<EnvironmentView>) -> bool {
    &&& heap.len() > 0
    &&& forall|i: int|
        0 <= i < heap.len() ==> ((#[trigger] heap[i]).outer matches Some(o) ==> o < i)
}

/// The value of `k` in the environment `env`: that of the innermost scope,
/// from `env` outwards, that binds `k`.
pub open spec fn resolve(heap: Seq<EnvironmentView>, env: HeapEnvironment, k: Seq<char>) -> Option<
    ObjectView,
>
    decreases env,
{
    if env >= heap.len() {
        None
    } else {
        match lookup(heap[env as int].store, k) {
            Some(v) => Some(v),
            None => match heap[env as int].outer {
                Some(o) => if o < env {
                    resolve(heap, o, k)
                } else {
                    None
                },
                None => None,
            },
        }
    }
}

/// The heap after `k` is bound to `v` in the environment `env` itself.
pub open spec fn bind(
    heap: Seq<EnvironmentView>,
    env: HeapEnvironment,
    k: Seq<char>,
    v: ObjectView,
) -> Seq<EnvironmentView> {
    if env < heap.len() {
        heap.update(
            env as int,
            EnvironmentView {
                store: store(heap[env as int].store, k, v),
                outer: heap[env as int].outer,
            },
        )
    } else {
        heap
    }
}

/// The heap after the innermost scope that binds `k`, from `env` outwards,
/// has lost that binding.
pub open spec fn unbind(heap: Seq<EnvironmentView>, env: HeapEnvironment, k: Seq<char>) -> Seq<
    EnvironmentView,
>
    decreases env,
{
    if env >= heap.len() {
        heap
    } else {
        match lookup(heap[env as int].store, k) {
            Some(_) => heap.update(
                env as int,
                EnvironmentView {
                    store: delete(heap[env as int].store, k),
                    outer: heap[env as int].outer,
                },
            ),
            None => match heap[env as int].outer {
                Some(o) => if o < env {
                    unbind(heap, o, k)
                } else {
                    heap
                },
                None => heap,
            },
        }
    }
}

/// The environment that `Environment::new` makes.
pub open spec fn fresh(outer: Option<HeapEnvironment>) -> EnvironmentView {
    EnvironmentView {
        store: Seq::empty(),
        outer: Some(
            match outer {
                Some(o) => o,
                None => 0,
            },
        ),
    }
}

/// The bindings of the first environment of every heap.
pub open spec fn builtins() -> EnvironmentView {
    EnvironmentView {
        store: seq![
            (seq!['l', 'e', 'n'], ObjectView::Builtin(Builtin::Len)),
            (seq!['d', 'e', 'l'], ObjectView::Builtin(Builtin::Del)),
            (seq!['r', 'e', 's', 't'], ObjectView::Builtin(Builtin::Rest)),
            (seq!['p', 'u', 's', 'h'], ObjectView::Builtin(Builtin::Push)),
        ],
        outer: None,
    }
}

/// Removing a binding keeps the heap's shape.
pub proof fn lemma_unbind_well_formed(heap: Seq<EnvironmentView>, env: HeapEnvironment, k: Seq<char>)
    requires
        well_formed(heap),
    ensures
        well_formed(unbind(heap, env, k)),
        unbind(heap, env, k).len() == heap.len(),
    decreases env,
{
    if env < heap.len() {
        match lookup(heap[env as int].store, k) {
            Some(_) => {},
            None => match heap[env as int].outer {
                Some(o) => if o < env {
                    lemma_unbind_well_formed(heap, o, k);
                },
                None => {},
            },
        }
    }
}

impl Builtin {
    /// The environment that binds the built-in functions by their names.
    pub fn environment() -> (e: Environment)
        ensures
            e@ == builtins(),
    {
        let mut store: Vec<(String, Object)> = Vec::new();
        proof {
            reveal_strlit("len");
            reveal_strlit("del");
            reveal_strlit("rest");
            reveal_strlit("push");
        }
        store.push(("len".to_owned(), Object::Builtin(Builtin::Len)));
        store.push(("del".to_owned(), Object::Builtin(Builtin::Del)));
        store.push(("rest".to_owned(), Object::Builtin(Builtin::Rest)));
        store.push(("push".to_owned(), Object::Builtin(Builtin::Push)));
        let e = Environment { store, outer: None };
        proof {
            assert("len"@ =~= seq!['l', 'e', 'n']);
            assert("del"@ =~= seq!['d', 'e', 'l']);
            assert("rest"@ =~= seq!['r', 'e', 's', 't']);
            assert("push"@ =~= seq!['p', 'u', 's', 'h']);
            assert(e@.store =~= builtins().store);
        }
        e
    }
}

impl Environment {
    /// An environment without bindings inside `outer`; without an `outer`,
    /// inside the first environment of its heap, that of the built-in
    /// functions.
    pub fn new(outer: Option<HeapEnvironment>) -> (e: Environment)
        ensures
            e@ == fresh(outer),
    {
        let outer = match outer {
            Some(_) => outer,
            None => Some(0),
        };
        let e = Environment { store: Vec::new(), outer };
        assert(e@.store =~= Seq::empty());
        e
    }

    /// Adds a new environment to `heap` and returns its place.
    pub fn new_heap(heap: &mut Heap, outer: Option<HeapEnvironment>) -> (env: HeapEnvironment)
        requires
            old(heap).wf(),
            outer matches Some(o) ==> o < old(heap)@.len(),
        ensures
            final(heap).wf(),
            env == old(heap)@.len(),
            final(heap)@ == old(heap)@.push(fresh(outer)),
    {
        let env = heap.envs.len();
        heap.envs.push(Environment::new(outer));
        assert(heap@ =~= old(heap)@.push(fresh(outer)));
        env
    }

    /// The position in `self` of the binding of `k`; the number of bindings
    /// where there is none.
    fn position(&self, k: &str) -> (i: usize)
        ensures
            i == find(self@.store, k@, 0),
            i <= self.store.len(),
            self@.store.len() == self.store.len(),
    {
        let mut i: usize = 0;
        while i < self.store.len()
            invariant
                i <= self.store.len(),
                self@.store.len() == self.store.len(),
                find(self@.store, k@, 0) == find(self@.store, k@, i as int),
            decreases self.store.len() - i,
        {
            if str_eq(self.store[i].0.as_str(), k) {
                return i;
            }
            i += 1;
        }
        i
    }

    /// A copy of the value of `k` in the environment `env` of `heap`.
    pub fn get(heap: &Heap, env: HeapEnvironment, k: &str) -> (r: Option<Object>)
        requires
            heap.wf(),
            env < heap@.len(),
        ensures
            match resolve(heap@, env, k@) {
                Some(v) => r matches Some(o) && o@ == v,
                None => r is None,
            },
    {
        let mut current = env;
        loop
            invariant
                heap.wf(),
                current < heap@.len(),
                resolve(heap@, env, k@) == resolve(heap@, current, k@),
            decreases current,
        {
            let scope = &heap.envs[current];
            assert(scope@ == heap@[current as int]);
            let i = scope.position(k);
            if i < scope.store.len() {
                return Some(scope.store[i].1.clone());
            }
            match scope.outer {
                Some(outer) => {
                    current = outer;
                },
                None => {
                    return None;
                },
            }
        }
    }

    /// Binds `k` to `v` in the environment `env` of `heap` itself, and
    /// returns the value that `k` was bound to there.
    pub fn set(heap: &mut Heap, env: HeapEnvironment, k: &str, v: Object) -> (r: Option<Object>)
        requires
            old(heap).wf(),
            env < old(heap)@.len(),
        ensures
            final(heap).wf(),
            final(heap)@ == bind(old(heap)@, env, k@, v@),
            match lookup(old(heap)@[env as int].store, k@) {
                Some(before) => r matches Some(o) && o@ == before,
                None => r is None,
            },
    {
        let i = heap.envs[env].position(k);
        assert(heap.envs[env as int]@ == heap@[env as int]);
        let ghost before = heap.envs[env as int]@.store;
        let r = if i < heap.envs[env].store.len() {
            let previous = heap.envs[env].store[i].1.clone();
            heap.envs[env].store[i] = (k.to_owned(), v);
            Some(previous)
        } else {
            heap.envs[env].store.push((k.to_owned(), v));
            None
        };
        proof {
            assert(heap.envs[env as int]@.store =~= store(before, k@, v@));
            assert(heap@ =~= bind(old(heap)@, env, k@, v@));
        }
        r
    }

    /// Removes the binding of `k` from the innermost scope that has one,
    /// from the environment `env` of `heap` outwards, and returns the value
    /// that `k` was bound to.
    pub fn remove(heap: &mut Heap, env: HeapEnvironment, k: &str) -> (r: Option<Object>)
        requires
            old(heap).wf(),
            env < old(heap)@.len(),
        ensures
            final(heap).wf(),
            final(heap)@ == unbind(old(heap)@, env, k@),
            final(heap)@.len() == old(heap)@.len(),
            match resolve(old(heap)@, env, k@) {
                Some(v) => r matches Some(o) && o@ == v,
                None => r is None,
            },
    {
        proof {
            lemma_unbind_well_formed(heap@, env, k@);
        }
        let mut current = env;
        loop
            invariant
                heap == old(heap),
                heap.wf(),
                current < heap@.len(),
                resolve(heap@, env, k@) == resolve(heap@, current, k@),
                unbind(heap@, env, k@) == unbind(heap@, current, k@),
            decreases current,
        {
            let i = heap.envs[current].position(k);
            assert(heap.envs[current as int]@ == heap@[current as int]);
            let ghost before = heap.envs[current as int]@.store;
            if i < heap.envs[current].store.len() {
                let (_, value) = heap.envs[current].store.remove(i);
                proof {
                    assert(heap.envs[current as int]@.store =~= delete(before, k@));
                    assert(heap@ =~= unbind(old(heap)@, current, k@));
                }
                return Some(value);
            }
            match heap.envs[current].outer {
                Some(outer) => {
                    current = outer;
                },
                None => {
                    return None;
                },
            }
        }
    }
}

impl Clone for Environment {
    fn clone(&self) -> (r: Self)
        ensures
            r@ == self@,
    {
        let mut store: Vec<(String, Object)> = Vec::new();
        let mut i: usize = 0;
        while i < self.store.len()
            invariant
                i <= self.store.len(),
                store.len() == i,
                forall|j: int| 0 <= j < i ==> store[j].0@ == self.store[j].0@ && store[j].1@ == self.store[j].1@,
            decreases self.store.len() - i,
        {
            store.push((self.store[i].0.clone(), self.store[i].1.clone()));
            i += 1;
        }
        let r = Environment { store, outer: self.outer };
        assert(r@.store =~= self@.store);
        r
    }
}

impl Clone for Heap {
    /// A heap of its own with the same environments.
    fn clone(&self) -> (r: Self)
        ensures
            r@ == self@,
            self.wf() ==> r.wf(),
    {
        let mut envs: Vec<Environment> = Vec::new();
        let mut i: usize = 0;
        while i < self.envs.len()
            invariant
                i <= self.envs.len(),
                envs.len() == i,
                forall|j: int| 0 <= j < i ==> envs[j]@ == self.envs[j]@,
            decreases self.envs.len() - i,
        {
            envs.push(self.envs[i].clone());
            i += 1;
        }
        let r = Heap { envs };
        assert(r@ =~= self@);
        r
    }
}

impl Heap {
    /// The heap is well formed.
    pub closed spec fn wf(&self) -> bool {
        well_formed(self@)
    }

    /// A heap that holds the environment of the built-in functions and no
    /// other.
    pub fn new() -> (heap: Heap)
        ensures
            heap.wf(),
            heap@ == seq![builtins()],
    {
        let mut envs: Vec<Environment> = Vec::new();
        envs.push(Builtin::environment());
        let heap = Heap { envs };
        assert(heap@ =~= seq![builtins()]);
        heap
    }

    /// The number of environments.
    pub fn len(&self) -> (n: usize)
        ensures
            n == self@.len(),
    {
        self.envs.len()
    }
}

} // verus!
