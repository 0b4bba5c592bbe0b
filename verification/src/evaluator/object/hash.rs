use super::{hash_model, Object, ObjectView};
use vstd::prelude::*;

verus! {

/// A value that can be the key of a hash.
#[derive(Debug, PartialEq, Eq)]
pub enum HashableObject {
    Integer(i64),
    Boolean(bool),
    Str(String),
}

/// The mathematical value of a [`HashableObject`].
pub enum HashableView {
    Integer(i64),
    Boolean(bool),
    Str(Seq<char>),
}

impl View for HashableObject {
    type V = HashableView;

    open spec fn view(&self) -> HashableView {
        match self {
            HashableObject::Integer(i) => HashableView::Integer(*i),
            HashableObject::Boolean(b) => HashableView::Boolean(*b),
            HashableObject::Str(s) => HashableView::Str(s@),
        }
    }
}

impl Clone for HashableObject {
    fn clone(&self) -> (r: Self)
        ensures
            r@ == self@,
    {
        match self {
            HashableObject::Integer(i) => HashableObject::Integer(*i),
            HashableObject::Boolean(b) => HashableObject::Boolean(*b),
            HashableObject::Str(s) => HashableObject::Str(s.clone()),
        }
    }
}

impl HashableObject {
    /// Whether two keys are the same key.
    pub fn same(&self, other: &HashableObject) -> (r: bool)
        ensures
            r == (self@ == other@),
    {
        match (self, other) {
            (HashableObject::Integer(a), HashableObject::Integer(b)) => *a == *b,
            (HashableObject::Boolean(a), HashableObject::Boolean(b)) => *a == *b,
            (HashableObject::Str(a), HashableObject::Str(b)) => *a == *b,
            _ => false,
        }
    }
}

/// The index of the first entry of `entries`, at or after `from`, whose key
/// is `k`; the length of `entries` where there is none.
pub open spec fn find<K, V>(entries: Seq<(K, V)>, k: K, from: int) -> int
    decreases entries.len() - from,
{
    if from < 0 || from >= entries.len() {
        entries.len() as int
    } else if entries[from].0 == k {
        from
    } else {
        find(entries, k, from + 1)
    }
}

/// The value that an association list holds for `k`.
pub open spec fn lookup<K, V>(entries: Seq<(K, V)>, k: K) -> Option<V> {
    let i = find(entries, k, 0);
    if i < entries.len() {
        Some(entries[i].1)
    } else {
        None
    }
}

/// An association list after `v` is stored under `k`: in place of the value
/// that `k` had, or at the end.
pub open spec fn store<K, V>(entries: Seq<(K, V)>, k: K, v: V) -> Seq<(K, V)> {
    let i = find(entries, k, 0);
    if i < entries.len() {
        entries.update(i, (k, v))
    } else {
        entries.push((k, v))
    }
}

/// An association list without its entry for `k`.
pub open spec fn delete<K, V>(entries: Seq<(K, V)>, k: K) -> Seq<(K, V)> {
    let i = find(entries, k, 0);
    if i < entries.len() {
        entries.remove(i)
    } else {
        entries
    }
}

/// `find` returns a position whose key is `k` and before which no key is,
/// or the length.
pub proof fn lemma_find<K, V>(entries: Seq<(K, V)>, k: K, from: int)
    requires
        0 <= from <= entries.len(),
    ensures
        from <= find(entries, k, from) <= entries.len(),
        find(entries, k, from) < entries.len() ==> entries[find(entries, k, from)].0 == k,
        forall|j: int| from <= j < find(entries, k, from) ==> (#[trigger] entries[j]).0 != k,
    decreases entries.len() - from,
{
    if from < entries.len() && entries[from].0 != k {
        lemma_find(entries, k, from + 1);
    }
}

/// A key that was stored is found again, with the value stored.
pub proof fn lemma_lookup_stored<K, V>(entries: Seq<(K, V)>, k: K, v: V)
    ensures
        lookup(store(entries, k, v), k) == Some(v),
{
    lemma_find(entries, k, 0);
    let i = find(entries, k, 0);
    let after = store(entries, k, v);
    lemma_find(after, k, 0);
    let j = find(after, k, 0);
    if j < i {
        assert(after[j] == entries[j]);
    }
    assert(after[i].0 == k);
}

/// Storing under one key leaves what every other key holds.
pub proof fn lemma_lookup_other<K, V>(entries: Seq<(K, V)>, k: K, v: V, other: K)
    requires
        other != k,
    ensures
        lookup(store(entries, k, v), other) == lookup(entries, other),
{
    lemma_find(entries, k, 0);
    lemma_find(entries, other, 0);
    let after = store(entries, k, v);
    lemma_find(after, other, 0);
    let a = find(entries, other, 0);
    let b = find(after, other, 0);
    if a < entries.len() {
        // The entry for `other` is still there, so the search stops at it
        // or before it.
        assert(after[a] == entries[a]);
        if b < a {
            assert(after[b].0 == other);
            assert(entries[b].0 != other);
        }
    } else {
        if b < after.len() {
            assert(after[b].0 == other);
            if b < entries.len() {
                assert(entries[b].0 != other);
            }
        }
    }
    if a < b {
        assert(after[a].0 != other);
    }
}

/// A mapping from hashable values to values.
#[derive(Debug, PartialEq)]
pub struct Hash {
    pub entries: Vec<(HashableObject, Object)>,
}

impl View for Hash {
    type V = Seq<(HashableView, ObjectView)>;

    open spec fn view(&self) -> Seq<(HashableView, ObjectView)> {
        hash_model(&self.entries)
    }
}

impl Hash {
    /// A hash without entries.
    pub fn new() -> (h: Hash)
        ensures
            h@ == Seq::<(HashableView, ObjectView)>::empty(),
    {
        let h = Hash { entries: Vec::new() };
        assert(h@ =~= Seq::empty());
        h
    }

    /// The number of entries.
    pub fn len(&self) -> (n: usize)
        ensures
            n == self@.len(),
    {
        self.entries.len()
    }

    /// The position of the entry for `k`; the number of entries where there
    /// is none.
    fn position(&self, k: &HashableObject) -> (i: usize)
        ensures
            i == find(self@, k@, 0),
            i <= self.entries.len(),
    {
        let mut i: usize = 0;
        while i < self.entries.len()
            invariant
                i <= self.entries.len(),
                find(self@, k@, 0) == find(self@, k@, i as int),
            decreases self.entries.len() - i,
        {
            if self.entries[i].0.same(k) {
                return i;
            }
            i += 1;
        }
        i
    }

    /// A copy of the value stored under `k`.
    pub fn get(&self, k: &HashableObject) -> (r: Option<Object>)
        ensures
            match lookup(self@, k@) {
                Some(v) => r matches Some(o) && o@ == v,
                None => r is None,
            },
    {
        let i = self.position(k);
        if i < self.entries.len() {
            Some(self.entries[i].1.clone())
        } else {
            None
        }
    }

    /// Stores `v` under `k`, in place of the value that `k` had, if any.
    pub fn insert(&mut self, k: HashableObject, v: Object)
        ensures
            final(self)@ == store(old(self)@, k@, v@),
    {
        let i = self.position(&k);
        if i < self.entries.len() {
            self.entries[i] = (k, v);
        } else {
            self.entries.push((k, v));
        }
        assert(self@ =~= store(old(self)@, k@, v@));
    }
}

} // verus!
