use super::error::ErrorView;
use super::object::builtins::Builtin;
use super::object::environment::{
    bind, fresh, resolve, unbind, EnvironmentView, HeapEnvironment,
};
use super::object::hash::{lookup, store, HashableView};
use super::object::{ObjectType, ObjectView};
use crate::parser::ast::expressions::{ExpressionView, InfixOp, PrefixOp};
use crate::parser::ast::statements::StatementView;
use crate::text::precedes;
use vstd::prelude::*;
use vstd::utf8::encode_utf8;

verus! {

// What evaluation yields, as functions from a piece of syntax, the heap, the
// environment to evaluate in and the depth to which calls may still nest,
// to a value or an error and the heap afterwards.

/// A value or an error.
pub type Value = Result<ObjectView, ErrorView>;

/// The environments of a program.
pub type Environments = Seq<EnvironmentView>;

/// Whether a value counts as true where a condition is required.
pub open spec fn truthy(o: ObjectView) -> bool {
    match o {
        ObjectView::Boolean(b) => b,
        ObjectView::Integer(i) => i != 0,
        ObjectView::Null => false,
        ObjectView::Function { .. } => true,
        ObjectView::Builtin(_) => true,
        ObjectView::Str(s) => s.len() != 0,
        ObjectView::Array(a) => a.len() != 0,
        ObjectView::Hash(h) => h.len() != 0,
    }
}

/// The value of a unary operator applied to a value.
pub open spec fn prefix_value(op: PrefixOp, right: ObjectView) -> Value {
    match op {
        PrefixOp::Bang => match right {
            ObjectView::Integer(i) => Ok(ObjectView::Boolean(i == 0)),
            ObjectView::Boolean(b) => Ok(ObjectView::Boolean(!b)),
            ObjectView::Null => Ok(ObjectView::Boolean(true)),
            o => Err(ErrorView::PrefixError { operator: op, type_value: ObjectType::of(o) }),
        },
        PrefixOp::Minus => match right {
            ObjectView::Integer(i) => Ok(ObjectView::Integer(0i64.wrapping_sub(i))),
            o => Err(ErrorView::PrefixError { operator: op, type_value: ObjectType::of(o) }),
        },
    }
}

/// The value of a binary operator applied to two integers. Sums,
/// differences and products wrap around in 64 bits; a quotient is rounded
/// towards zero.
pub open spec fn int_infix_value(op: InfixOp, x: i64, y: i64) -> Value {
    match op {
        InfixOp::Plus => Ok(ObjectView::Integer(x.wrapping_add(y))),
        InfixOp::Minus => Ok(ObjectView::Integer(x.wrapping_sub(y))),
        InfixOp::Asterisk => Ok(ObjectView::Integer(x.wrapping_mul(y))),
        InfixOp::ForwardSlash => match x.checked_div(y) {
            Some(q) => Ok(ObjectView::Integer(q)),
            None => Err(ErrorView::DivisionError),
        },
        InfixOp::Equal => Ok(ObjectView::Boolean(x == y)),
        InfixOp::GreaterThan => Ok(ObjectView::Boolean(x > y)),
        InfixOp::LessThan => Ok(ObjectView::Boolean(x < y)),
        InfixOp::NotEqual => Ok(ObjectView::Boolean(x != y)),
    }
}

/// The value of a binary operator applied to two booleans.
pub open spec fn bool_infix_value(op: InfixOp, x: bool, y: bool) -> Value {
    match op {
        InfixOp::Equal => Ok(ObjectView::Boolean(x == y)),
        InfixOp::NotEqual => Ok(ObjectView::Boolean(x != y)),
        _ => Err(
            ErrorView::InfixError {
                operator: op,
                type_left: ObjectType::Boolean,
                type_right: ObjectType::Boolean,
            },
        ),
    }
}

/// The value of a binary operator applied to two strings, which are
/// ordered as their UTF-8 encodings are, byte by byte.
pub open spec fn str_infix_value(op: InfixOp, x: Seq<char>, y: Seq<char>) -> Value {
    match op {
        InfixOp::Plus => Ok(ObjectView::Str(x + y)),
        InfixOp::Equal => Ok(ObjectView::Boolean(x == y)),
        InfixOp::GreaterThan => Ok(ObjectView::Boolean(precedes(encode_utf8(y), encode_utf8(x)))),
        InfixOp::LessThan => Ok(ObjectView::Boolean(precedes(encode_utf8(x), encode_utf8(y)))),
        InfixOp::NotEqual => Ok(ObjectView::Boolean(x != y)),
        _ => Err(
            ErrorView::InfixError {
                operator: op,
                type_left: ObjectType::Str,
                type_right: ObjectType::Str,
            },
        ),
    }
}

/// The value of a binary operator applied to two values.
pub open spec fn infix_value(op: InfixOp, left: ObjectView, right: ObjectView) -> Value {
    match (left, right) {
        (ObjectView::Integer(x), ObjectView::Integer(y)) => int_infix_value(op, x, y),
        (ObjectView::Boolean(x), ObjectView::Boolean(y)) => bool_infix_value(op, x, y),
        (ObjectView::Str(x), ObjectView::Str(y)) => str_infix_value(op, x, y),
        (x, y) => Err(
            ErrorView::InfixError {
                operator: op,
                type_left: ObjectType::of(x),
                type_right: ObjectType::of(y),
            },
        ),
    }
}

/// The key that a value makes, if it can be the key of a hash.
pub open spec fn hashable(o: ObjectView) -> Result<HashableView, ErrorView> {
    match o {
        ObjectView::Integer(i) => Ok(HashableView::Integer(i)),
        ObjectView::Boolean(b) => Ok(HashableView::Boolean(b)),
        ObjectView::Str(s) => Ok(HashableView::Str(s)),
        o => Err(ErrorView::HashError(ObjectType::of(o))),
    }
}

/// The element of an array at an index, where a negative index counts from
/// the end. An index outside the array is an error that names it as counted
/// from the start.
pub open spec fn element(items: Seq<ObjectView>, index: i64) -> Value {
    let i = if index < 0 {
        items.len() + index
    } else {
        index as int
    };
    if 0 <= i < items.len() {
        Ok(items[i])
    } else {
        Err(ErrorView::IndexError(i as i64))
    }
}

/// The value of indexing `left` by `index`, both already evaluated.
pub open spec fn index_value(left: ObjectView, index: ObjectView) -> Value {
    match left {
        ObjectView::Array(items) => match index {
            ObjectView::Integer(i) => element(items, i),
            o => Err(
                ErrorView::TypeError { expected: ObjectType::Integer, received: ObjectType::of(o) },
            ),
        },
        ObjectView::Hash(entries) => match hashable(index) {
            Ok(k) => match lookup(entries, k) {
                Some(v) => Ok(v),
                None => Ok(ObjectView::Null),
            },
            Err(e) => Err(e),
        },
        o => Err(ErrorView::TypeError { expected: ObjectType::Array, received: ObjectType::of(o) }),
    }
}

/// A count as an integer of the language: itself, or the greatest integer
/// where it is greater.
pub open spec fn count(n: nat) -> i64 {
    if n <= i64::MAX {
        n as i64
    } else {
        i64::MAX
    }
}

/// The number of arguments that a built-in function takes.
pub open spec fn arity(b: Builtin) -> usize {
    match b {
        Builtin::Len => 1,
        Builtin::Del => 1,
        Builtin::Rest => 1,
        Builtin::Push => 2,
    }
}

/// What a call of a built-in function on evaluated arguments yields, in the
/// environment `env`.
pub open spec fn builtin_value(
    b: Builtin,
    args: Seq<ObjectView>,
    heap: Environments,
    env: HeapEnvironment,
) -> (Value, Environments) {
    if args.len() != arity(b) {
        (
            Err(ErrorView::ArgumentsError { expected: arity(b), received: args.len() as usize }),
            heap,
        )
    } else {
        match b {
            Builtin::Len => (
                match args[0] {
                    ObjectView::Str(s) => Ok(ObjectView::Integer(count(encode_utf8(s).len()))),
                    ObjectView::Array(a) => Ok(ObjectView::Integer(count(a.len()))),
                    o => Err(
                        ErrorView::TypeError {
                            expected: ObjectType::Array,
                            received: ObjectType::of(o),
                        },
                    ),
                },
                heap,
            ),
            Builtin::Del => match args[0] {
                ObjectView::Str(s) => (
                    match resolve(heap, env, s) {
                        Some(v) => Ok(v),
                        None => Ok(ObjectView::Null),
                    },
                    unbind(heap, env, s),
                ),
                o => (
                    Err(
                        ErrorView::TypeError {
                            expected: ObjectType::Str,
                            received: ObjectType::of(o),
                        },
                    ),
                    heap,
                ),
            },
            Builtin::Rest => (
                match args[0] {
                    ObjectView::Array(a) => Ok(
                        ObjectView::Array(
                            if a.len() > 0 {
                                a.skip(1)
                            } else {
                                a
                            },
                        ),
                    ),
                    o => Err(
                        ErrorView::TypeError {
                            expected: ObjectType::Array,
                            received: ObjectType::of(o),
                        },
                    ),
                },
                heap,
            ),
            Builtin::Push => (
                match args[0] {
                    ObjectView::Array(a) => Ok(ObjectView::Array(a.push(args[1]))),
                    o => Err(
                        ErrorView::TypeError {
                            expected: ObjectType::Array,
                            received: ObjectType::of(o),
                        },
                    ),
                },
                heap,
            ),
        }
    }
}

/// The heap after each of `names` is bound, in order, to the value at its
/// place in `values`, in the environment `env` itself.
pub open spec fn bind_all(
    heap: Environments,
    env: HeapEnvironment,
    names: Seq<Seq<char>>,
    values: Seq<ObjectView>,
    from: int,
) -> Environments
    decreases names.len() - from,
{
    if 0 <= from < names.len() && from < values.len() {
        bind_all(bind(heap, env, names[from], values[from]), env, names, values, from + 1)
    } else {
        heap
    }
}

/// A value in place of the `return` that carries it; everything else as it
/// is.
pub open spec fn returned(v: Value) -> Value {
    match v {
        Err(ErrorView::Return(o)) => Ok(o),
        v => v,
    }
}

/// What an expression yields.
pub open spec fn expression(
    e: ExpressionView,
    heap: Environments,
    env: HeapEnvironment,
    depth: nat,
) -> (Value, Environments)
    decreases depth, e, 0nat,
{
    match e {
        ExpressionView::Integer(i) => (Ok(ObjectView::Integer(i)), heap),
        ExpressionView::Boolean(b) => (Ok(ObjectView::Boolean(b)), heap),
        ExpressionView::Str(s) => (Ok(ObjectView::Str(s)), heap),
        ExpressionView::Identifier(name) => (
            match resolve(heap, env, name) {
                Some(o) => Ok(o),
                None => Err(ErrorView::IdentifierError(name)),
            },
            heap,
        ),
        ExpressionView::Prefix(op, right) => match expression(*right, heap, env, depth) {
            (Ok(r), h) => (prefix_value(op, r), h),
            (Err(e), h) => (Err(e), h),
        },
        ExpressionView::Infix(left, op, right) => match expression(*left, heap, env, depth) {
            (Ok(l), h1) => match expression(*right, h1, env, depth) {
                (Ok(r), h2) => (infix_value(op, l, r), h2),
                (Err(e), h2) => (Err(e), h2),
            },
            (Err(e), h1) => (Err(e), h1),
        },
        ExpressionView::If(condition, consequence, alternative) => match expression(
            *condition,
            heap,
            env,
            depth,
        ) {
            (Ok(c), h) => if truthy(c) {
                block(consequence, h, env, depth)
            } else {
                match alternative {
                    Some(b) => block(b, h, env, depth),
                    None => (Ok(ObjectView::Null), h),
                }
            },
            (Err(e), h) => (Err(e), h),
        },
        ExpressionView::Function(parameters, body) => (
            Ok(ObjectView::Function { parameters, body, env }),
            heap,
        ),
        ExpressionView::Call(function, arguments) => match expression(
            *function,
            heap,
            env,
            depth,
        ) {
            (Ok(ObjectView::Builtin(b)), h1) => match expressions(
                arguments,
                0,
                Seq::empty(),
                h1,
                env,
                depth,
            ) {
                (Ok(args), h2) => builtin_value(b, args, h2, env),
                (Err(e), h2) => (Err(e), h2),
            },
            (Ok(ObjectView::Function { parameters, body, env: closure }), h1) => if arguments.len()
                != parameters.len() {
                (
                    Err(
                        ErrorView::ArgumentsError {
                            expected: parameters.len() as usize,
                            received: arguments.len() as usize,
                        },
                    ),
                    h1,
                )
            } else {
                match expressions(arguments, 0, Seq::empty(), h1, env, depth) {
                    (Ok(args), h2) => if closure >= h2.len() {
                        (Err(ErrorView::Unknown), h2)
                    } else if depth == 0 {
                        (Err(ErrorView::DepthError), h2)
                    } else {
                        let h3 = bind_all(h2, closure, parameters, args, 0);
                        let (v, h4) = block(body, h3, closure, (depth - 1) as nat);
                        (returned(v), h4)
                    },
                    (Err(e), h2) => (Err(e), h2),
                }
            },
            (Ok(o), h1) => (Err(ErrorView::CallableError(ObjectType::of(o))), h1),
            (Err(e), h1) => (Err(e), h1),
        },
        ExpressionView::Array(elements) => match expressions(
            elements,
            0,
            Seq::empty(),
            heap,
            env,
            depth,
        ) {
            (Ok(items), h) => (Ok(ObjectView::Array(items)), h),
            (Err(e), h) => (Err(e), h),
        },
        ExpressionView::Index(left, index) => match expression(*left, heap, env, depth) {
            (Ok(l), h1) => if l is Array || l is Hash {
                match expression(*index, h1, env, depth) {
                    (Ok(i), h2) => (index_value(l, i), h2),
                    (Err(e), h2) => (Err(e), h2),
                }
            } else {
                (
                    Err(
                        ErrorView::TypeError {
                            expected: ObjectType::Array,
                            received: ObjectType::of(l),
                        },
                    ),
                    h1,
                )
            },
            (Err(e), h1) => (Err(e), h1),
        },
        ExpressionView::Block(statements) => block(statements, heap, env, depth),
        ExpressionView::Hash(pairs) => entries(pairs, 0, Seq::empty(), heap, env, depth),
    }
}

/// What the expressions of `list` from the place `from` on yield, one after
/// the other, after those before them have yielded `done`: all the values,
/// or the first error.
pub open spec fn expressions(
    list: Seq<ExpressionView>,
    from: int,
    done: Seq<ObjectView>,
    heap: Environments,
    env: HeapEnvironment,
    depth: nat,
) -> (Result<Seq<ObjectView>, ErrorView>, Environments)
    decreases depth, list, list.len() - from,
{
    if 0 <= from < list.len() {
        match expression(list[from], heap, env, depth) {
            (Ok(o), h) => expressions(list, from + 1, done.push(o), h, env, depth),
            (Err(e), h) => (Err(e), h),
        }
    } else {
        (Ok(done), heap)
    }
}

/// What the pairs of a hash literal from the place `from` on yield, after
/// those before them have yielded the entries `done`: the hash, or the
/// first error. A key is evaluated, and must be hashable, before its value
/// is evaluated; a key that comes again gets the later value.
pub open spec fn entries(
    pairs: Seq<(ExpressionView, ExpressionView)>,
    from: int,
    done: Seq<(HashableView, ObjectView)>,
    heap: Environments,
    env: HeapEnvironment,
    depth: nat,
) -> (Value, Environments)
    decreases depth, pairs, pairs.len() - from,
{
    if 0 <= from < pairs.len() {
        match expression(pairs[from].0, heap, env, depth) {
            (Ok(k), h1) => match hashable(k) {
                Ok(key) => match expression(pairs[from].1, h1, env, depth) {
                    (Ok(v), h2) => entries(pairs, from + 1, store(done, key, v), h2, env, depth),
                    (Err(e), h2) => (Err(e), h2),
                },
                Err(e) => (Err(e), h1),
            },
            (Err(e), h1) => (Err(e), h1),
        }
    } else {
        (Ok(ObjectView::Hash(done)), heap)
    }
}

/// What a block yields: what its statements yield in a new environment
/// inside `env`.
pub open spec fn block(
    body: Seq<StatementView>,
    heap: Environments,
    env: HeapEnvironment,
    depth: nat,
) -> (Value, Environments)
    decreases depth, body, body.len() + 1,
{
    statements(body, 0, ObjectView::Null, heap.push(fresh(Some(env))), heap.len() as usize, depth)
}

/// What the statements of `list` from the place `from` on yield, one after
/// the other, after the one before them has yielded `last`: the value of the
/// last statement, or the first error.
pub open spec fn statements(
    list: Seq<StatementView>,
    from: int,
    last: ObjectView,
    heap: Environments,
    env: HeapEnvironment,
    depth: nat,
) -> (Value, Environments)
    decreases depth, list, list.len() - from,
{
    if 0 <= from < list.len() {
        match statement(list[from], heap, env, depth) {
            (Ok(o), h) => statements(list, from + 1, o, h, env, depth),
            (Err(e), h) => (Err(e), h),
        }
    } else {
        (Ok(last), heap)
    }
}

/// What a statement yields.
pub open spec fn statement(
    s: StatementView,
    heap: Environments,
    env: HeapEnvironment,
    depth: nat,
) -> (Value, Environments)
    decreases depth, s, 0nat,
{
    match s {
        StatementView::Let(name, value) => match expression(value, heap, env, depth) {
            (Ok(v), h) => (Ok(ObjectView::Null), bind(h, env, name, v)),
            (Err(e), h) => (Err(e), h),
        },
        StatementView::Return(value) => match expression(value, heap, env, depth) {
            (Ok(v), h) => (Err(ErrorView::Return(v)), h),
            (Err(e), h) => (Err(e), h),
        },
        StatementView::Expression(value) => expression(value, heap, env, depth),
        StatementView::EOF => (Ok(ObjectView::Null), heap),
    }
}

} // verus!
