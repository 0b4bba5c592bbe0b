pub mod builtins;
pub mod display;
pub mod environment;
pub mod hash;

use crate::parser::ast::expressions::{names_of, Function as AstFunction};
use crate::parser::ast::statements::StatementView;
use builtins::Builtin;
use environment::HeapEnvironment;
use hash::{HashableObject, HashableView};
use vstd::prelude::*;

verus! {

broadcast use vstd::std_specs::vec::group_vec_axioms;

/// A value of the language at run time.
#[derive(Debug, PartialEq)]
pub enum Object {
    Integer(i64),
    Boolean(bool),
    Null,
    Function(FunctionObject),
    Str(String),
    Builtin(Builtin),
    Array(Vec<Object>),
    Hash(hash::Hash),
}

/// The mathematical value of an [`Object`].
pub enum ObjectView {
    Integer(i64),
    Boolean(bool),
    Null,
    /// A closure: the parameter names and body of a function literal, and
    /// the environment in which the literal was evaluated.
    Function { parameters: Seq<Seq<char>>, body: Seq<StatementView>, env: HeapEnvironment },
    Str(Seq<char>),
    Builtin(Builtin),
    Array(Seq<ObjectView>),
    /// The entries of a hash, in the order in which their keys were first
    /// inserted.
    Hash(Seq<(HashableView, ObjectView)>),
}

/// The kind of an [`Object`], as error messages name it.
#[derive(Debug, PartialEq, Eq, Clone, Copy)]
pub enum ObjectType {
    Integer,
    Boolean,
    Null,
    Function,
    BuiltinFunction,
    Str,
    Array,
    Hash,
}

/// A function literal together with the environment it closes over.
#[derive(Debug, PartialEq)]
pub struct FunctionObject {
    pub node: AstFunction,
    pub env: HeapEnvironment,
}

/// The values of a list of objects.
pub open spec fn objects_model(v: &Vec<Object>) -> Seq<ObjectView>
    decreases v,
{
    Seq::new(
        v.len() as nat,
        |k: int|
            if 0 <= k < v.len() {
                v[k].model()
            } else {
                ObjectView::Null
            },
    )
}

/// The values of the entries of a hash.
pub open spec fn hash_model(v: &Vec<(HashableObject, Object)>) -> Seq<(HashableView, ObjectView)>
    decreases v,
{
    Seq::new(
        v.len() as nat,
        |k: int|
            if 0 <= k < v.len() {
                (v[k].0@, v[k].1.model())
            } else {
                (HashableView::Boolean(false), ObjectView::Null)
            },
    )
}

impl Object {
    /// The value of this object; `self@` is the same.
    pub open spec fn model(&self) -> ObjectView
        decreases self,
    {
        match self {
            Object::Integer(i) => ObjectView::Integer(*i),
            Object::Boolean(b) => ObjectView::Boolean(*b),
            Object::Null => ObjectView::Null,
            Object::Function(f) => ObjectView::Function {
                parameters: names_of(&f.node.parameters),
                body: f.node.body@,
                env: f.env,
            },
            Object::Str(s) => ObjectView::Str(s@),
            Object::Builtin(b) => ObjectView::Builtin(*b),
            Object::Array(a) => ObjectView::Array(objects_model(a)),
            Object::Hash(h) => ObjectView::Hash(hash_model(&h.entries)),
        }
    }
}

impl View for Object {
    type V = ObjectView;

    open spec fn view(&self) -> ObjectView {
        self.model()
    }
}

impl ObjectType {
    /// The kind of a value.
    pub open spec fn of(o: ObjectView) -> ObjectType {
        match o {
            ObjectView::Integer(_) => ObjectType::Integer,
            ObjectView::Boolean(_) => ObjectType::Boolean,
            ObjectView::Null => ObjectType::Null,
            ObjectView::Function { .. } => ObjectType::Function,
            ObjectView::Str(_) => ObjectType::Str,
            ObjectView::Builtin(_) => ObjectType::BuiltinFunction,
            ObjectView::Array(_) => ObjectType::Array,
            ObjectView::Hash(_) => ObjectType::Hash,
        }
    }

    /// The kind of an object.
    pub fn from(value: &Object) -> (t: ObjectType)
        ensures
            t == ObjectType::of(value@),
    {
        match value {
            Object::Integer(_) => ObjectType::Integer,
            Object::Boolean(_) => ObjectType::Boolean,
            Object::Null => ObjectType::Null,
            Object::Function(_) => ObjectType::Function,
            Object::Str(_) => ObjectType::Str,
            Object::Builtin(_) => ObjectType::BuiltinFunction,
            Object::Array(_) => ObjectType::Array,
            Object::Hash(_) => ObjectType::Hash,
        }
    }
}

/// A copy of a list of objects.
pub fn clone_objects(v: &Vec<Object>) -> (r: Vec<Object>)
    ensures
        objects_model(&r) == objects_model(v),
    decreases v,
{
    let mut out: Vec<Object> = Vec::new();
    let mut i: usize = 0;
    while i < v.len()
        invariant
            i <= v.len(),
            out.len() == i,
            forall|j: int| 0 <= j < i ==> out[j].model() == v[j].model(),
        decreases v.len() - i,
    {
        out.push(v[i].clone());
        i += 1;
    }
    assert(objects_model(&out) =~= objects_model(v));
    out
}

/// A copy of the entries of a hash.
pub fn clone_hash_entries(v: &Vec<(HashableObject, Object)>) -> (r: Vec<(HashableObject, Object)>)
    ensures
        hash_model(&r) == hash_model(v),
    decreases v,
{
    let mut out: Vec<(HashableObject, Object)> = Vec::new();
    let mut i: usize = 0;
    while i < v.len()
        invariant
            i <= v.len(),
            out.len() == i,
            forall|j: int|
                0 <= j < i ==> out[j].0@ == v[j].0@ && out[j].1.model() == v[j].1.model(),
        decreases v.len() - i,
    {
        out.push((v[i].0.clone(), v[i].1.clone()));
        i += 1;
    }
    assert(hash_model(&out) =~= hash_model(v));
    out
}

impl Clone for Object {
    fn clone(&self) -> (r: Self)
        ensures
            r@ == self@,
        decreases self,
    {
        match self {
            Object::Integer(i) => Object::Integer(*i),
            Object::Boolean(b) => Object::Boolean(*b),
            Object::Null => Object::Null,
            Object::Function(f) => Object::Function(
                FunctionObject { node: f.node.clone(), env: f.env },
            ),
            Object::Str(s) => Object::Str(s.clone()),
            Object::Builtin(b) => Object::Builtin(*b),
            Object::Array(a) => Object::Array(clone_objects(a)),
            Object::Hash(h) => Object::Hash(hash::Hash { entries: clone_hash_entries(&h.entries) }),
        }
    }
}

} // verus!
