use super::builtins::Builtin;
use super::hash::{HashableObject, HashableView};
use super::{hash_model, objects_model, Object, ObjectType, ObjectView};
use crate::parser::ast::display::expression;
use crate::parser::ast::expressions::ExpressionView;
use crate::text::{decimal, integer_to_string};
use vstd::prelude::*;
use vstd::string::StringExecFns;

verus! {

broadcast use vstd::std_specs::vec::group_vec_axioms;

/// The text of a built-in function.
pub open spec fn builtin(b: Builtin) -> Seq<char> {
    match b {
        Builtin::Len => "fn len(str_or_array) { BUILTIN }"@,
        Builtin::Del => "fn del(str) { BUILTIN }"@,
        Builtin::Rest => "fn rest(array) { BUILTIN }"@,
        Builtin::Push => "fn push(array) { BUILTIN }"@,
    }
}

/// The name of a kind of value.
pub open spec fn object_type(t: ObjectType) -> Seq<char> {
    match t {
        ObjectType::Integer => "INTEGER"@,
        ObjectType::Boolean => "BOOLEAN"@,
        ObjectType::Null => "NULL"@,
        ObjectType::Function => "FUNCTION"@,
        ObjectType::Str => "STRING"@,
        ObjectType::BuiltinFunction => "BUILTIN FUNCTION"@,
        ObjectType::Array => "ARRAY"@,
        ObjectType::Hash => "HASH"@,
    }
}

/// The text of a key of a hash; a string stands in quotes.
pub open spec fn hashable(k: HashableView) -> Seq<char> {
    match k {
        HashableView::Integer(i) => decimal(i as int),
        HashableView::Boolean(b) => if b {
            "true"@
        } else {
            "false"@
        },
        HashableView::Str(s) => "\""@ + s + "\""@,
    }
}

/// The text of a value, as the read-eval-print loop shows it. A closure
/// shows as its function literal; a string shows without quotes.
pub open spec fn object(o: ObjectView) -> Seq<char>
    decreases o, 0nat,
{
    match o {
        ObjectView::Integer(i) => decimal(i as int),
        ObjectView::Boolean(b) => if b {
            "true"@
        } else {
            "false"@
        },
        ObjectView::Null => "null"@,
        ObjectView::Function { parameters, body, env } => expression(
            ExpressionView::Function(parameters, body),
        ),
        ObjectView::Str(s) => s,
        ObjectView::Builtin(b) => builtin(b),
        ObjectView::Array(items) => "["@ + objects(items, items.len() as int) + "]"@,
        ObjectView::Hash(pairs) => "{"@ + entries(pairs, pairs.len() as int) + "}"@,
    }
}

/// The texts of the first `n` of `items`, separated by `, `.
pub open spec fn objects(items: Seq<ObjectView>, n: int) -> Seq<char>
    decreases items, n,
{
    if n <= 0 || n > items.len() {
        Seq::empty()
    } else if n == 1 {
        object(items[0])
    } else {
        objects(items, n - 1) + ", "@ + object(items[n - 1])
    }
}

/// The texts of the first `n` entries of a hash, each a key, `: ` and a
/// value, separated by `, `.
pub open spec fn entries(pairs: Seq<(HashableView, ObjectView)>, n: int) -> Seq<char>
    decreases pairs, n,
{
    if n <= 0 || n > pairs.len() {
        Seq::empty()
    } else if n == 1 {
        hashable(pairs[0].0) + ": "@ + object(pairs[0].1)
    } else {
        entries(pairs, n - 1) + ", "@ + hashable(pairs[n - 1].0) + ": "@ + object(pairs[n - 1].1)
    }
}

impl Builtin {
    /// The text of this built-in function.
    pub fn to_string(&self) -> (s: String)
        ensures
            s@ == builtin(*self),
    {
        match self {
            Builtin::Len => "fn len(str_or_array) { BUILTIN }".to_owned(),
            Builtin::Del => "fn del(str) { BUILTIN }".to_owned(),
            Builtin::Rest => "fn rest(array) { BUILTIN }".to_owned(),
            Builtin::Push => "fn push(array) { BUILTIN }".to_owned(),
        }
    }
}

impl ObjectType {
    /// The name of this kind.
    pub fn to_string(&self) -> (s: String)
        ensures
            s@ == object_type(*self),
    {
        match self {
            ObjectType::Integer => "INTEGER".to_owned(),
            ObjectType::Boolean => "BOOLEAN".to_owned(),
            ObjectType::Null => "NULL".to_owned(),
            ObjectType::Function => "FUNCTION".to_owned(),
            ObjectType::Str => "STRING".to_owned(),
            ObjectType::BuiltinFunction => "BUILTIN FUNCTION".to_owned(),
            ObjectType::Array => "ARRAY".to_owned(),
            ObjectType::Hash => "HASH".to_owned(),
        }
    }
}

impl HashableObject {
    /// The text of this key.
    pub fn to_string(&self) -> (s: String)
        ensures
            s@ == hashable(self@),
    {
        match self {
            HashableObject::Integer(i) => integer_to_string(*i),
            HashableObject::Boolean(b) => if *b {
                "true".to_owned()
            } else {
                "false".to_owned()
            },
            HashableObject::Str(text) => {
                let mut s = "\"".to_owned();
                s.append(text.as_str());
                s.append("\"");
                assert(s@ =~= hashable(self@));
                s
            },
        }
    }
}

/// The texts of `items`, separated by `, `.
fn objects_to_string(items: &Vec<Object>) -> (s: String)
    ensures
        s@ == objects(objects_model(items), items.len() as int),
    decreases items, 0nat,
{
    let mut s = String::new();
    let mut i: usize = 0;
    while i < items.len()
        invariant
            i <= items.len(),
            s@ == objects(objects_model(items), i as int),
        decreases items.len() - i,
    {
        if i > 0 {
            s.append(", ");
        }
        s.append(items[i].to_string().as_str());
        i += 1;
        assert(s@ =~= objects(objects_model(items), i as int));
    }
    s
}

/// The texts of the entries of a hash, separated by `, `.
fn entries_to_string(pairs: &Vec<(HashableObject, Object)>) -> (s: String)
    ensures
        s@ == entries(hash_model(pairs), pairs.len() as int),
    decreases pairs, 0nat,
{
    let mut s = String::new();
    let mut i: usize = 0;
    while i < pairs.len()
        invariant
            i <= pairs.len(),
            s@ == entries(hash_model(pairs), i as int),
        decreases pairs.len() - i,
    {
        if i > 0 {
            s.append(", ");
        }
        s.append(pairs[i].0.to_string().as_str());
        s.append(": ");
        s.append(pairs[i].1.to_string().as_str());
        i += 1;
        assert(s@ =~= entries(hash_model(pairs), i as int));
    }
    s
}

impl Object {
    /// The text of this value.
    pub fn to_string(&self) -> (s: String)
        ensures
            s@ == object(self@),
        decreases self, 0nat,
    {
        match self {
            Object::Integer(i) => integer_to_string(*i),
            Object::Boolean(b) => if *b {
                "true".to_owned()
            } else {
                "false".to_owned()
            },
            Object::Null => "null".to_owned(),
            Object::Function(func) => func.node.to_string(),
            Object::Str(s) => s.clone(),
            Object::Builtin(b) => b.to_string(),
            Object::Array(a) => {
                let mut s = "[".to_owned();
                s.append(objects_to_string(a).as_str());
                s.append("]");
                assert(s@ =~= object(self@));
                s
            },
            Object::Hash(h) => {
                let mut s = "{".to_owned();
                s.append(entries_to_string(&h.entries).as_str());
                s.append("}");
                assert(s@ =~= object(self@));
                s
            },
        }
    }
}

} // verus!
