use super::error::{outcome, Error, Result};
use super::object::builtins::Builtin;
use super::object::environment::{Environment, Heap, HeapEnvironment};
use super::object::hash::HashableObject;
use super::object::{objects_model, FunctionObject, Object, ObjectType};
use super::semantics;
use super::semantics::{Environments, Value};
use super::Evaluate;
use crate::parser::ast::expressions::{
    entries_model, expressions_model, names_of, Array, Boolean, Call, Expression,
    ExpressionView, Function, Identifier, If, Index, Infix, InfixOp, Integer, Prefix, PrefixOp, StmtBlock, Str,
};
use crate::text::str_lt;
use vstd::prelude::*;
use vstd::string::{StrSliceExecFns, StringExecFns};

verus! {

broadcast use vstd::std_specs::vec::group_vec_axioms;

impl Evaluate for Expression {
    open spec fn yields(&self, heap: Environments, env: HeapEnvironment, depth: nat) -> (
        Value,
        Environments,
    ) {
        semantics::expression(self@, heap, env, depth)
    }

    fn eval(&self, heap: &mut Heap, env: HeapEnvironment, depth: usize) -> (r: Result<Object>)
        decreases depth, self,
    {
        match self {
            Expression::Integer(i) => i.eval(heap, env, depth),
            Expression::Boolean(b) => b.eval(heap, env, depth),
            Expression::Prefix(p) => p.eval(heap, env, depth),
            Expression::Infix(i) => i.eval(heap, env, depth),
            Expression::If(i) => i.eval(heap, env, depth),
            Expression::Identifier(i) => i.eval(heap, env, depth),
            Expression::Function(func) => func.eval(heap, env, depth),
            Expression::Call(c) => c.eval(heap, env, depth),
            Expression::Str(s) => s.eval(heap, env, depth),
            Expression::Array(a) => a.eval(heap, env, depth),
            Expression::Index(i) => i.eval(heap, env, depth),
            Expression::Block(b) => b.eval(heap, env, depth),
            Expression::Hash(h) => h.eval(heap, env, depth),
        }
    }
}

impl Evaluate for Integer {
    open spec fn yields(&self, heap: Environments, env: HeapEnvironment, depth: nat) -> (
        Value,
        Environments,
    ) {
        semantics::expression(self@, heap, env, depth)
    }

    fn eval(&self, heap: &mut Heap, env: HeapEnvironment, depth: usize) -> (r: Result<Object>) {
        Ok(Object::Integer(self.value))
    }
}

impl Evaluate for Boolean {
    open spec fn yields(&self, heap: Environments, env: HeapEnvironment, depth: nat) -> (
        Value,
        Environments,
    ) {
        semantics::expression(self@, heap, env, depth)
    }

    fn eval(&self, heap: &mut Heap, env: HeapEnvironment, depth: usize) -> (r: Result<Object>) {
        Ok(Object::Boolean(self.value))
    }
}

impl Evaluate for Str {
    open spec fn yields(&self, heap: Environments, env: HeapEnvironment, depth: nat) -> (
        Value,
        Environments,
    ) {
        semantics::expression(self@, heap, env, depth)
    }

    fn eval(&self, heap: &mut Heap, env: HeapEnvironment, depth: usize) -> (r: Result<Object>) {
        Ok(Object::Str(self.value.clone()))
    }
}

impl Evaluate for Prefix {
    open spec fn yields(&self, heap: Environments, env: HeapEnvironment, depth: nat) -> (
        Value,
        Environments,
    ) {
        semantics::expression(self@, heap, env, depth)
    }

    fn eval(&self, heap: &mut Heap, env: HeapEnvironment, depth: usize) -> (r: Result<Object>)
        decreases depth, self,
    {
        let right = self.right.eval(heap, env, depth)?;
        evaluate_prefix(self.operator, &right)
    }
}

/// Applies a unary operator to a value.
pub fn evaluate_prefix(op: PrefixOp, right: &Object) -> (r: Result<Object>)
    ensures
        outcome(r) == semantics::prefix_value(op, right@),
{
    match op {
        PrefixOp::Bang => match right {
            Object::Integer(i) => Ok(Object::Boolean(*i == 0)),
            Object::Boolean(b) => Ok(Object::Boolean(!*b)),
            Object::Null => Ok(Object::Boolean(true)),
            o => Err(Error::PrefixError { operator: PrefixOp::Bang, type_value: ObjectType::from(o) }),
        },
        PrefixOp::Minus => match right {
            Object::Integer(i) => Ok(Object::Integer(0i64.wrapping_sub(*i))),
            o => Err(
                Error::PrefixError { operator: PrefixOp::Minus, type_value: ObjectType::from(o) },
            ),
        },
    }
}

impl Evaluate for Infix {
    open spec fn yields(&self, heap: Environments, env: HeapEnvironment, depth: nat) -> (
        Value,
        Environments,
    ) {
        semantics::expression(self@, heap, env, depth)
    }

    fn eval(&self, heap: &mut Heap, env: HeapEnvironment, depth: usize) -> (r: Result<Object>)
        decreases depth, self,
    {
        let left = self.left.eval(heap, env, depth)?;
        let right = self.right.eval(heap, env, depth)?;
        match (&left, &right) {
            (Object::Integer(x), Object::Integer(y)) => evaluate_int_infix(&self.operator, *x, *y),
            (Object::Boolean(x), Object::Boolean(y)) => evaluate_bool_infix(&self.operator, *x, *y),
            (Object::Str(x), Object::Str(y)) => evaluate_str_infix(
                &self.operator,
                x.as_str(),
                y.as_str(),
            ),
            (x, y) => Err(
                Error::InfixError {
                    operator: self.operator,
                    type_left: ObjectType::from(x),
                    type_right: ObjectType::from(y),
                },
            ),
        }
    }
}

/// Applies a binary operator to two integers.
pub fn evaluate_int_infix(op: &InfixOp, x: i64, y: i64) -> (r: Result<Object>)
    ensures
        outcome(r) == semantics::int_infix_value(*op, x, y),
{
    match *op {
        InfixOp::Plus => Ok(Object::Integer(x.wrapping_add(y))),
        InfixOp::Minus => Ok(Object::Integer(x.wrapping_sub(y))),
        InfixOp::Asterisk => Ok(Object::Integer(x.wrapping_mul(y))),
        InfixOp::ForwardSlash => match x.checked_div(y) {
            Some(q) => Ok(Object::Integer(q)),
            None => Err(Error::DivisionError),
        },
        InfixOp::Equal => Ok(Object::Boolean(x == y)),
        InfixOp::GreaterThan => Ok(Object::Boolean(x > y)),
        InfixOp::LessThan => Ok(Object::Boolean(x < y)),
        InfixOp::NotEqual => Ok(Object::Boolean(x != y)),
    }
}

/// Applies a binary operator to two booleans.
pub fn evaluate_bool_infix(op: &InfixOp, x: bool, y: bool) -> (r: Result<Object>)
    ensures
        outcome(r) == semantics::bool_infix_value(*op, x, y),
{
    match *op {
        InfixOp::Equal => Ok(Object::Boolean(x == y)),
        InfixOp::NotEqual => Ok(Object::Boolean(x != y)),
        _ => Err(
            Error::InfixError {
                operator: *op,
                type_left: ObjectType::Boolean,
                type_right: ObjectType::Boolean,
            },
        ),
    }
}

/// Applies a binary operator to two strings.
pub fn evaluate_str_infix(op: &InfixOp, x: &str, y: &str) -> (r: Result<Object>)
    ensures
        outcome(r) == semantics::str_infix_value(*op, x@, y@),
{
    match *op {
        InfixOp::Plus => {
            let mut new_str = String::from_str(x);
            new_str.append(y);
            Ok(Object::Str(new_str))
        },
        InfixOp::Equal => Ok(Object::Boolean(crate::text::str_eq(x, y))),
        InfixOp::GreaterThan => Ok(Object::Boolean(str_lt(y, x))),
        InfixOp::LessThan => Ok(Object::Boolean(str_lt(x, y))),
        InfixOp::NotEqual => Ok(Object::Boolean(!crate::text::str_eq(x, y))),
        _ => Err(
            Error::InfixError {
                operator: *op,
                type_left: ObjectType::Str,
                type_right: ObjectType::Str,
            },
        ),
    }
}

impl Evaluate for If {
    open spec fn yields(&self, heap: Environments, env: HeapEnvironment, depth: nat) -> (
        Value,
        Environments,
    ) {
        semantics::expression(self@, heap, env, depth)
    }

    fn eval(&self, heap: &mut Heap, env: HeapEnvironment, depth: usize) -> (r: Result<Object>)
        decreases depth, self,
    {
        let condition = self.condition.eval(heap, env, depth)?;

        if is_truthy(condition) {
            self.consequence.eval(heap, env, depth)
        } else {
            match &self.alternative {
                Some(x) => x.eval(heap, env, depth),
                None => Ok(Object::Null),
            }
        }
    }
}

/// Whether a value counts as true where a condition is required.
pub fn is_truthy(x: Object) -> (r: bool)
    ensures
        r == semantics::truthy(x@),
{
    match x {
        Object::Boolean(b) => b,
        Object::Integer(i) => i != 0,
        Object::Null => false,
        Object::Function(_) => true,
        Object::Builtin(_) => true,
        Object::Str(s) => s.as_str().unicode_len() != 0,
        Object::Array(a) => a.len() != 0,
        Object::Hash(h) => h.len() != 0,
    }
}

impl Evaluate for Identifier {
    open spec fn yields(&self, heap: Environments, env: HeapEnvironment, depth: nat) -> (
        Value,
        Environments,
    ) {
        semantics::expression(ExpressionView::Identifier(self@), heap, env, depth)
    }

    fn eval(&self, heap: &mut Heap, env: HeapEnvironment, depth: usize) -> (r: Result<Object>) {
        match Environment::get(heap, env, self.value.as_str()) {
            Some(o) => Ok(o),
            None => Err(Error::IdentifierError(self.value.clone())),
        }
    }
}

impl Evaluate for Function {
    open spec fn yields(&self, heap: Environments, env: HeapEnvironment, depth: nat) -> (
        Value,
        Environments,
    ) {
        semantics::expression(self@, heap, env, depth)
    }

    fn eval(&self, heap: &mut Heap, env: HeapEnvironment, depth: usize) -> (r: Result<Object>) {
        Ok(Object::Function(FunctionObject { node: self.clone(), env }))
    }
}

/// Evaluates the expressions of `list` in order, up to the first that
/// fails.
fn eval_all(list: &Vec<Expression>, heap: &mut Heap, env: HeapEnvironment, depth: usize) -> (r:
    Result<Vec<Object>>)
    requires
        old(heap).wf(),
        env < old(heap)@.len(),
    ensures
        final(heap).wf(),
        old(heap)@.len() <= final(heap)@.len(),
        r matches Ok(v) ==> v.len() == list.len(),
        semantics::expressions(
            expressions_model(list),
            0,
            Seq::empty(),
            old(heap)@,
            env,
            depth as nat,
        ) == (
            match r {
                Ok(v) => Ok(objects_model(&v)),
                Err(e) => Err(e@),
            },
            final(heap)@,
        ),
    decreases depth, list,
{
    let mut objects: Vec<Object> = Vec::new();
    assert(objects_model(&objects) =~= Seq::empty());
    let mut i: usize = 0;
    while i < list.len()
        invariant
            i <= list.len(),
            heap.wf(),
            env < heap@.len(),
            old(heap)@.len() <= heap@.len(),
            objects.len() == i,
            semantics::expressions(
                expressions_model(list),
                i as int,
                objects_model(&objects),
                heap@,
                env,
                depth as nat,
            ) == semantics::expressions(
                expressions_model(list),
                0,
                Seq::empty(),
                old(heap)@,
                env,
                depth as nat,
            ),
        decreases list.len() - i,
    {
        let ghost done = objects_model(&objects);
        let o = list[i].eval(heap, env, depth)?;
        objects.push(o);
        assert(objects_model(&objects) =~= done.push(o@));
        i += 1;
    }
    Ok(objects)
}

impl Evaluate for Call {
    open spec fn yields(&self, heap: Environments, env: HeapEnvironment, depth: nat) -> (
        Value,
        Environments,
    ) {
        semantics::expression(self@, heap, env, depth)
    }

    fn eval(&self, heap: &mut Heap, env: HeapEnvironment, depth: usize) -> (r: Result<Object>)
        decreases depth, self,
    {
        let maybe_function = self.function.eval(heap, env, depth)?;

        match maybe_function {
            Object::Builtin(b) => {
                let arguments = eval_all(&self.arguments, heap, env, depth)?;

                b.call(arguments, heap, env)
            },
            Object::Function(f) => {
                let received = self.arguments.len();
                let expected = f.node.parameters.len();
                if received != expected {
                    return Err(Error::ArgumentsError { expected, received });
                }
                let arguments = eval_all(&self.arguments, heap, env, depth)?;

                if f.env >= heap.len() {
                    return Err(Error::Unknown);
                }
                if depth == 0 {
                    return Err(Error::DepthError);
                }
                let ghost before = heap@;
                let ghost names = names_of(&f.node.parameters);
                let ghost values = objects_model(&arguments);
                let mut i: usize = 0;
                while i < expected
                    invariant
                        i <= expected,
                        expected == f.node.parameters.len(),
                        expected == arguments.len(),
                        names == names_of(&f.node.parameters),
                        values == objects_model(&arguments),
                        heap.wf(),
                        f.env < heap@.len(),
                        heap@.len() == before.len(),
                        semantics::bind_all(heap@, f.env, names, values, i as int)
                            == semantics::bind_all(before, f.env, names, values, 0),
                    decreases expected - i,
                {
                    Environment::set(
                        heap,
                        f.env,
                        f.node.parameters[i].value.as_str(),
                        arguments[i].clone(),
                    );
                    i += 1;
                }

                match f.node.body.eval(heap, f.env, depth - 1) {
                    Err(Error::Return(x)) => Ok(x),
                    x => x,
                }
            },
            o => Err(Error::CallableError(ObjectType::from(&o))),
        }
    }
}

impl Evaluate for Array {
    open spec fn yields(&self, heap: Environments, env: HeapEnvironment, depth: nat) -> (
        Value,
        Environments,
    ) {
        semantics::expression(self@, heap, env, depth)
    }

    fn eval(&self, heap: &mut Heap, env: HeapEnvironment, depth: usize) -> (r: Result<Object>)
        decreases depth, self,
    {
        let objects = eval_all(&self.value, heap, env, depth)?;

        Ok(Object::Array(objects))
    }
}

/// The element of an array at an index, where a negative index counts from
/// the end.
pub fn element(items: &Vec<Object>, index: i64) -> (r: Result<Object>)
    ensures
        outcome(r) == semantics::element(objects_model(items), index),
{
    let place: i128 = if index < 0 {
        items.len() as i128 + index as i128
    } else {
        index as i128
    };
    if 0 <= place && place < items.len() as i128 {
        Ok(items[place as usize].clone())
    } else {
        Err(Error::IndexError(place as i64))
    }
}

/// The value of indexing `left` by `index`.
pub fn evaluate_index(left: &Object, index: &Object) -> (r: Result<Object>)
    ensures
        outcome(r) == semantics::index_value(left@, index@),
{
    match left {
        Object::Array(v) => match index {
            Object::Integer(i) => element(v, *i),
            o => Err(
                Error::TypeError { expected: ObjectType::Integer, received: ObjectType::from(o) },
            ),
        },
        Object::Hash(h) => {
            let key = HashableObject::try_from(index)?;

            match h.get(&key) {
                Some(o) => Ok(o),
                None => Ok(Object::Null),
            }
        },
        o => Err(Error::TypeError { expected: ObjectType::Array, received: ObjectType::from(o) }),
    }
}

impl Evaluate for Index {
    open spec fn yields(&self, heap: Environments, env: HeapEnvironment, depth: nat) -> (
        Value,
        Environments,
    ) {
        semantics::expression(self@, heap, env, depth)
    }

    fn eval(&self, heap: &mut Heap, env: HeapEnvironment, depth: usize) -> (r: Result<Object>)
        decreases depth, self,
    {
        let left = self.left.eval(heap, env, depth)?;

        match &left {
            Object::Array(_) | Object::Hash(_) => {
                let index_object = self.index.eval(heap, env, depth)?;
                evaluate_index(&left, &index_object)
            },
            o => Err(Error::TypeError { expected: ObjectType::Array, received: ObjectType::from(o) }),
        }
    }
}

impl Evaluate for StmtBlock {
    open spec fn yields(&self, heap: Environments, env: HeapEnvironment, depth: nat) -> (
        Value,
        Environments,
    ) {
        semantics::block(self@, heap, env, depth)
    }

    fn eval(&self, heap: &mut Heap, env: HeapEnvironment, depth: usize) -> (r: Result<Object>)
        decreases depth, self,
    {
        let inner_env = Environment::new_heap(heap, Some(env));

        self.statements.eval(heap, inner_env, depth)
    }
}

impl Evaluate for crate::parser::ast::expressions::Hash {
    open spec fn yields(&self, heap: Environments, env: HeapEnvironment, depth: nat) -> (
        Value,
        Environments,
    ) {
        semantics::expression(self@, heap, env, depth)
    }

    fn eval(&self, heap: &mut Heap, env: HeapEnvironment, depth: usize) -> (r: Result<Object>)
        decreases depth, self,
    {
        let mut hash_map = crate::evaluator::object::hash::Hash::new();
        let mut i: usize = 0;
        while i < self.entries.len()
            invariant
                i <= self.entries.len(),
                heap.wf(),
                env < heap@.len(),
                old(heap)@.len() <= heap@.len(),
                semantics::entries(
                    entries_model(&self.entries),
                    i as int,
                    hash_map@,
                    heap@,
                    env,
                    depth as nat,
                ) == semantics::entries(
                    entries_model(&self.entries),
                    0,
                    Seq::empty(),
                    old(heap)@,
                    env,
                    depth as nat,
                ),
            decreases self.entries.len() - i,
        {
            let k = self.entries[i].0.eval(heap, env, depth)?;
            let k_hash = HashableObject::try_from(&k)?;

            let v = self.entries[i].1.eval(heap, env, depth)?;

            hash_map.insert(k_hash, v);
            i += 1;
        }

        Ok(Object::Hash(hash_map))
    }
}

impl HashableObject {
    /// The key that an object makes, if it can be the key of a hash.
    pub fn try_from(value: &Object) -> (r: Result<HashableObject>)
        ensures
            match semantics::hashable(value@) {
                Ok(k) => r matches Ok(x) && x@ == k,
                Err(e) => r matches Err(x) && x@ == e,
            },
    {
        match value {
            Object::Integer(i) => Ok(HashableObject::Integer(*i)),
            Object::Boolean(b) => Ok(HashableObject::Boolean(*b)),
            Object::Str(s) => Ok(HashableObject::Str(s.clone())),
            o => Err(Error::HashError(ObjectType::from(o))),
        }
    }
}

impl Builtin {
    /// Calls the built-in function on evaluated arguments, in the
    /// environment `env` of `heap`.
    pub fn call(&self, args: Vec<Object>, heap: &mut Heap, env: HeapEnvironment) -> (r: Result<
        Object,
    >)
        requires
            old(heap).wf(),
            env < old(heap)@.len(),
        ensures
            final(heap).wf(),
            old(heap)@.len() == final(heap)@.len(),
            (outcome(r), final(heap)@) == semantics::builtin_value(
                *self,
                objects_model(&args),
                old(heap)@,
                env,
            ),
    {
        match self {
            Builtin::Len => {
                let expected: usize = 1;
                let received = args.len();
                if received != expected {
                    return Err(Error::ArgumentsError { expected, received });
                }
                match &args[0] {
                    Object::Str(s) => {
                        let bytes = s.as_str().as_bytes();
                        assert(bytes@ == vstd::utf8::encode_utf8(s@));
                        Ok(Object::Integer(count(bytes.len())))
                    },
                    Object::Array(a) => {
                        assert(objects_model(a).len() == a.len());
                        Ok(Object::Integer(count(a.len())))
                    },
                    o => Err(
                        Error::TypeError {
                            expected: ObjectType::Array,
                            received: ObjectType::from(o),
                        },
                    ),
                }
            },
            Builtin::Del => {
                let expected: usize = 1;
                let received = args.len();
                if received != expected {
                    return Err(Error::ArgumentsError { expected, received });
                }
                match &args[0] {
                    Object::Str(s) => match Environment::remove(heap, env, s.as_str()) {
                        Some(o) => Ok(o),
                        None => Ok(Object::Null),
                    },
                    o => Err(
                        Error::TypeError {
                            expected: ObjectType::Str,
                            received: ObjectType::from(o),
                        },
                    ),
                }
            },
            Builtin::Rest => {
                let expected: usize = 1;
                let received = args.len();
                if received != expected {
                    return Err(Error::ArgumentsError { expected, received });
                }
                match &args[0] {
                    Object::Array(v) => {
                        let mut new_vec: Vec<Object> = Vec::new();
                        let mut i: usize = 1;
                        while i < v.len()
                            invariant
                                1 <= i,
                                v.len() > 0 ==> i <= v.len(),
                                v.len() > 0 ==> new_vec.len() == i - 1,
                                v.len() == 0 ==> new_vec.len() == 0,
                                forall|j: int|
                                    0 <= j < new_vec.len() ==> new_vec[j]@ == v[j + 1]@,
                            decreases v.len() - i,
                        {
                            new_vec.push(v[i].clone());
                            i += 1;
                        }
                        proof {
                            let a = objects_model(v);
                            if a.len() > 0 {
                                assert(objects_model(&new_vec) =~= a.skip(1));
                            } else {
                                assert(objects_model(&new_vec) =~= a);
                            }
                        }
                        Ok(Object::Array(new_vec))
                    },
                    o => Err(
                        Error::TypeError {
                            expected: ObjectType::Array,
                            received: ObjectType::from(o),
                        },
                    ),
                }
            },
            Builtin::Push => {
                let expected: usize = 2;
                let received = args.len();
                if received != expected {
                    return Err(Error::ArgumentsError { expected, received });
                }
                match &args[0] {
                    Object::Array(v) => {
                        let mut new_vec = crate::evaluator::object::clone_objects(v);
                        let ghost before = objects_model(&new_vec);
                        let item = args[1].clone();
                        new_vec.push(item);
                        assert(objects_model(&new_vec) =~= before.push(item@));
                        Ok(Object::Array(new_vec))
                    },
                    o => Err(
                        Error::TypeError {
                            expected: ObjectType::Array,
                            received: ObjectType::from(o),
                        },
                    ),
                }
            },
        }
    }
}

/// A count as an integer of the language.
fn count(n: usize) -> (c: i64)
    ensures
        c == semantics::count(n as nat),
{
    let wide: u64 = n as u64;
    if wide <= 0x7fff_ffff_ffff_ffffu64 {
        wide as i64
    } else {
        i64::MAX
    }
}

} // verus!
