use interpret_deez::evaluator::error::Error;
use interpret_deez::evaluator::expressions::{
    element, evaluate_bool_infix, evaluate_index, evaluate_int_infix, evaluate_prefix,
    evaluate_str_infix, is_truthy,
};
use interpret_deez::evaluator::object::builtins::Builtin;
use interpret_deez::evaluator::object::environment::{Environment, Heap};
use interpret_deez::evaluator::object::hash::HashableObject;
use interpret_deez::evaluator::object::{Object, ObjectType};
use interpret_deez::evaluator::{eval_return, Evaluate, DEFAULT_DEPTH};
use interpret_deez::lexer::Lexer;
use interpret_deez::parser::ast::expressions::{InfixOp, PrefixOp};
use interpret_deez::parser::ast::statements::Statement;
use interpret_deez::parser::Parser;

fn program(input: &str) -> Vec<Statement> {
    Parser::new(Lexer::new(input)).collect().unwrap()
}

fn run(input: &str) -> Result<Object, Error> {
    let mut heap = Heap::new();
    let env = Environment::new_heap(&mut heap, None);
    eval_return(&program(input), &mut heap, env, DEFAULT_DEPTH)
}

fn text(s: &str) -> Object {
    Object::Str(s.to_string())
}

fn ints(v: &[i64]) -> Object {
    Object::Array(v.iter().map(|i| Object::Integer(*i)).collect())
}

#[test]
fn end_to_end_scenarios() {
    assert_eq!(run("5 + 5 * 2"), Ok(Object::Integer(15)));
    assert_eq!(run("if (1 > 2) { 10 } else { 20 }"), Ok(Object::Integer(20)));
    assert_eq!(run("let a = 5; let b = a; let c = a + b + 5; c"), Ok(Object::Integer(15)));
    assert_eq!(
        run("let newAdder = fn(x){ fn(y){ x + y } }; let addTwo = newAdder(2); addTwo(2)"),
        Ok(Object::Integer(4))
    );
    assert_eq!(run("\"joe\" + \" \" + \"mama\""), Ok(text("joe mama")));
    assert_eq!(run("let a = [1,2,3]; a[-1]"), Ok(Object::Integer(3)));
    assert_eq!(run("hash!{\"foo\": 5}[\"foo\"]"), Ok(Object::Integer(5)));
    assert_eq!(run("hash!{}[\"missing\"]"), Ok(Object::Null));
    assert_eq!(run("len([1,2,3])"), Ok(Object::Integer(3)));
    assert_eq!(run("if (10>1) { if (10>1) { return 10; } return 1; }"), Ok(Object::Integer(10)));
}

#[test]
fn expected_errors() {
    assert_eq!(
        run("5 + true"),
        Err(Error::InfixError {
            operator: InfixOp::Plus,
            type_left: ObjectType::Integer,
            type_right: ObjectType::Boolean,
        })
    );
    assert_eq!(
        run("-true"),
        Err(Error::PrefixError { operator: PrefixOp::Minus, type_value: ObjectType::Boolean })
    );
    assert_eq!(run("ur_mom"), Err(Error::IdentifierError("ur_mom".to_string())));
    assert_eq!(run("let x = 69; x()"), Err(Error::CallableError(ObjectType::Integer)));
    assert_eq!(
        run("let x = fn(a){a}; x()"),
        Err(Error::ArgumentsError { expected: 1, received: 0 })
    );
    assert_eq!(run("let x = [1]; x[1]"), Err(Error::IndexError(1)));
    assert_eq!(run("let x = [1]; x[-2]"), Err(Error::IndexError(-1)));
    assert_eq!(run("hash!{fn(){1}: 1}"), Err(Error::HashError(ObjectType::Function)));
}

#[test]
fn integer_arithmetic_wraps_around() {
    assert_eq!(run("9223372036854775807 + 1"), Ok(Object::Integer(i64::MIN)));
    assert_eq!(run("0 - 9223372036854775807 - 2"), Ok(Object::Integer(i64::MAX)));
    assert_eq!(run("9223372036854775807 * 2"), Ok(Object::Integer(-2)));
    assert_eq!(run("-(0 - 9223372036854775807 - 1)"), Ok(Object::Integer(i64::MIN)));
    assert_eq!(evaluate_int_infix(&InfixOp::Plus, i64::MAX, 1), Ok(Object::Integer(i64::MIN)));
    assert_eq!(evaluate_int_infix(&InfixOp::Minus, i64::MIN, 1), Ok(Object::Integer(i64::MAX)));
    assert_eq!(evaluate_int_infix(&InfixOp::Asterisk, 1 << 62, 4), Ok(Object::Integer(0)));
}

#[test]
fn division_rounds_towards_zero_and_has_no_quotient_by_zero() {
    assert_eq!(run("7 / 2"), Ok(Object::Integer(3)));
    assert_eq!(run("-7 / 2"), Ok(Object::Integer(-3)));
    assert_eq!(run("7 / -2"), Ok(Object::Integer(-3)));
    assert_eq!(run("-7 / -2"), Ok(Object::Integer(3)));
    assert_eq!(run("0 / 5"), Ok(Object::Integer(0)));
    assert_eq!(run("1 / 0"), Err(Error::DivisionError));
    assert_eq!(run("0 / 0"), Err(Error::DivisionError));
    assert_eq!(evaluate_int_infix(&InfixOp::ForwardSlash, i64::MIN, -1), Err(Error::DivisionError));
    assert_eq!(evaluate_int_infix(&InfixOp::ForwardSlash, i64::MIN, 1), Ok(Object::Integer(i64::MIN)));
}

#[test]
fn integers_compare() {
    assert_eq!(evaluate_int_infix(&InfixOp::Equal, 3, 3), Ok(Object::Boolean(true)));
    assert_eq!(evaluate_int_infix(&InfixOp::NotEqual, 3, 3), Ok(Object::Boolean(false)));
    assert_eq!(evaluate_int_infix(&InfixOp::LessThan, -1, 0), Ok(Object::Boolean(true)));
    assert_eq!(evaluate_int_infix(&InfixOp::GreaterThan, -1, 0), Ok(Object::Boolean(false)));
}

#[test]
fn booleans_only_compare_for_equality() {
    assert_eq!(evaluate_bool_infix(&InfixOp::Equal, true, true), Ok(Object::Boolean(true)));
    assert_eq!(evaluate_bool_infix(&InfixOp::NotEqual, true, false), Ok(Object::Boolean(true)));
    for op in [
        InfixOp::Plus,
        InfixOp::Minus,
        InfixOp::Asterisk,
        InfixOp::ForwardSlash,
        InfixOp::LessThan,
        InfixOp::GreaterThan,
    ] {
        assert_eq!(
            evaluate_bool_infix(&op, true, false),
            Err(Error::InfixError {
                operator: op,
                type_left: ObjectType::Boolean,
                type_right: ObjectType::Boolean,
            })
        );
    }
}

#[test]
fn strings_concatenate_and_compare_by_bytes() {
    assert_eq!(evaluate_str_infix(&InfixOp::Plus, "ab", "cd"), Ok(text("abcd")));
    assert_eq!(evaluate_str_infix(&InfixOp::Plus, "", ""), Ok(text("")));
    assert_eq!(evaluate_str_infix(&InfixOp::Equal, "ab", "ab"), Ok(Object::Boolean(true)));
    assert_eq!(evaluate_str_infix(&InfixOp::NotEqual, "ab", "ab"), Ok(Object::Boolean(false)));
    assert_eq!(evaluate_str_infix(&InfixOp::LessThan, "a", "ab"), Ok(Object::Boolean(true)));
    assert_eq!(evaluate_str_infix(&InfixOp::LessThan, "ab", "a"), Ok(Object::Boolean(false)));
    assert_eq!(evaluate_str_infix(&InfixOp::LessThan, "a", "a"), Ok(Object::Boolean(false)));
    assert_eq!(evaluate_str_infix(&InfixOp::GreaterThan, "b", "ab"), Ok(Object::Boolean(true)));
    assert_eq!(evaluate_str_infix(&InfixOp::LessThan, "Z", "a"), Ok(Object::Boolean(true)));
    assert_eq!(evaluate_str_infix(&InfixOp::LessThan, "z", "é"), Ok(Object::Boolean(true)));
    assert_eq!(evaluate_str_infix(&InfixOp::GreaterThan, "🍌", "é"), Ok(Object::Boolean(true)));
    assert_eq!(
        evaluate_str_infix(&InfixOp::Minus, "a", "b"),
        Err(Error::InfixError {
            operator: InfixOp::Minus,
            type_left: ObjectType::Str,
            type_right: ObjectType::Str,
        })
    );
}

#[test]
fn mixed_operands_are_an_infix_error() {
    assert_eq!(
        run("\"a\" + 1"),
        Err(Error::InfixError {
            operator: InfixOp::Plus,
            type_left: ObjectType::Str,
            type_right: ObjectType::Integer,
        })
    );
    assert_eq!(
        run("[1] == [1]"),
        Err(Error::InfixError {
            operator: InfixOp::Equal,
            type_left: ObjectType::Array,
            type_right: ObjectType::Array,
        })
    );
    assert_eq!(
        run("if (false) {} == hash!{}"),
        Err(Error::InfixError {
            operator: InfixOp::Equal,
            type_left: ObjectType::Null,
            type_right: ObjectType::Hash,
        })
    );
}

#[test]
fn prefix_operators() {
    assert_eq!(evaluate_prefix(PrefixOp::Bang, &Object::Integer(0)), Ok(Object::Boolean(true)));
    assert_eq!(evaluate_prefix(PrefixOp::Bang, &Object::Integer(-3)), Ok(Object::Boolean(false)));
    assert_eq!(evaluate_prefix(PrefixOp::Bang, &Object::Null), Ok(Object::Boolean(true)));
    assert_eq!(evaluate_prefix(PrefixOp::Bang, &Object::Boolean(true)), Ok(Object::Boolean(false)));
    assert_eq!(
        evaluate_prefix(PrefixOp::Bang, &text("")),
        Err(Error::PrefixError { operator: PrefixOp::Bang, type_value: ObjectType::Str })
    );
    assert_eq!(evaluate_prefix(PrefixOp::Minus, &Object::Integer(5)), Ok(Object::Integer(-5)));
    assert_eq!(
        evaluate_prefix(PrefixOp::Minus, &Object::Integer(i64::MIN)),
        Ok(Object::Integer(i64::MIN))
    );
    assert_eq!(
        evaluate_prefix(PrefixOp::Minus, &Object::Null),
        Err(Error::PrefixError { operator: PrefixOp::Minus, type_value: ObjectType::Null })
    );
}

#[test]
fn truthiness() {
    assert!(is_truthy(Object::Boolean(true)));
    assert!(!is_truthy(Object::Boolean(false)));
    assert!(is_truthy(Object::Integer(-1)));
    assert!(!is_truthy(Object::Integer(0)));
    assert!(!is_truthy(Object::Null));
    assert!(is_truthy(text("x")));
    assert!(!is_truthy(text("")));
    assert!(is_truthy(ints(&[0])));
    assert!(!is_truthy(ints(&[])));
    assert!(is_truthy(Object::Builtin(Builtin::Len)));
    assert_eq!(run("if (hash!{}) {1} else {2}"), Ok(Object::Integer(2)));
    assert_eq!(run("if (hash!{1: 1}) {1} else {2}"), Ok(Object::Integer(1)));
    assert_eq!(run("if (fn() {}) {1} else {2}"), Ok(Object::Integer(1)));
    assert_eq!(run("if (len) {1} else {2}"), Ok(Object::Integer(1)));
}

#[test]
fn indexing() {
    let items = vec![Object::Integer(10), Object::Integer(20), Object::Integer(30)];
    assert_eq!(element(&items, 0), Ok(Object::Integer(10)));
    assert_eq!(element(&items, 2), Ok(Object::Integer(30)));
    assert_eq!(element(&items, -1), Ok(Object::Integer(30)));
    assert_eq!(element(&items, -3), Ok(Object::Integer(10)));
    assert_eq!(element(&items, 3), Err(Error::IndexError(3)));
    assert_eq!(element(&items, -4), Err(Error::IndexError(-1)));
    assert_eq!(element(&items, i64::MAX), Err(Error::IndexError(i64::MAX)));
    assert_eq!(element(&items, i64::MIN), Err(Error::IndexError(i64::MIN + 3)));
    assert_eq!(element(&vec![], 0), Err(Error::IndexError(0)));
    assert_eq!(
        evaluate_index(&ints(&[1]), &text("a")),
        Err(Error::TypeError { expected: ObjectType::Integer, received: ObjectType::Str })
    );
    assert_eq!(
        evaluate_index(&text("abc"), &Object::Integer(0)),
        Err(Error::TypeError { expected: ObjectType::Array, received: ObjectType::Str })
    );
    assert_eq!(run("1[undefined]"), Err(Error::TypeError {
        expected: ObjectType::Array,
        received: ObjectType::Integer,
    }));
    assert_eq!(run("hash!{1: 2}[[1]]"), Err(Error::HashError(ObjectType::Array)));
}

#[test]
fn a_later_key_overwrites_an_earlier_one() {
    assert_eq!(run("hash!{1: 2, 1: 3}[1]"), Ok(Object::Integer(3)));
    assert_eq!(run("len([hash!{1: 2, 2: 3, 1: 4}])"), Ok(Object::Integer(1)));
    assert_eq!(run("hash!{1: 2, \"1\": 3, true: 4}[\"1\"]"), Ok(Object::Integer(3)));
    let mut h = interpret_deez::evaluator::object::hash::Hash::new();
    h.insert(HashableObject::Integer(1), Object::Integer(2));
    h.insert(HashableObject::Boolean(true), Object::Integer(5));
    h.insert(HashableObject::Integer(1), Object::Integer(4));
    assert_eq!(h.len(), 2);
    assert_eq!(h.get(&HashableObject::Integer(1)), Some(Object::Integer(4)));
    assert_eq!(h.get(&HashableObject::Boolean(true)), Some(Object::Integer(5)));
    assert_eq!(h.get(&HashableObject::Boolean(false)), None);
    assert_eq!(h.get(&HashableObject::Str("1".to_string())), None);
    assert_eq!(Object::Hash(h).to_string(), "{1: 4, true: 5}");
}

#[test]
fn keys_are_made_of_integers_booleans_and_strings() {
    assert_eq!(HashableObject::try_from(&Object::Integer(3)), Ok(HashableObject::Integer(3)));
    assert_eq!(HashableObject::try_from(&Object::Boolean(true)), Ok(HashableObject::Boolean(true)));
    assert_eq!(HashableObject::try_from(&text("a")), Ok(HashableObject::Str("a".to_string())));
    assert_eq!(HashableObject::try_from(&Object::Null), Err(Error::HashError(ObjectType::Null)));
    assert_eq!(HashableObject::try_from(&ints(&[])), Err(Error::HashError(ObjectType::Array)));
    assert_eq!(
        HashableObject::try_from(&Object::Builtin(Builtin::Len)),
        Err(Error::HashError(ObjectType::BuiltinFunction))
    );
}

#[test]
fn builtins() {
    assert_eq!(run("len(\"\")"), Ok(Object::Integer(0)));
    assert_eq!(run("len(\"é🍌\")"), Ok(Object::Integer(6)));
    assert_eq!(run("len([])"), Ok(Object::Integer(0)));
    assert_eq!(run("len(1, 2)"), Err(Error::ArgumentsError { expected: 1, received: 2 }));
    assert_eq!(
        run("len(hash!{})"),
        Err(Error::TypeError { expected: ObjectType::Array, received: ObjectType::Hash })
    );
    assert_eq!(run("rest([1, 2, 3])"), Ok(ints(&[2, 3])));
    assert_eq!(run("rest([1])"), Ok(ints(&[])));
    assert_eq!(run("rest([])"), Ok(ints(&[])));
    assert_eq!(run("rest()"), Err(Error::ArgumentsError { expected: 1, received: 0 }));
    assert_eq!(
        run("rest(\"abc\")"),
        Err(Error::TypeError { expected: ObjectType::Array, received: ObjectType::Str })
    );
    assert_eq!(run("push([1], 2)"), Ok(ints(&[1, 2])));
    assert_eq!(run("push([], 2)"), Ok(ints(&[2])));
    assert_eq!(run("let a = [1]; push(a, 2); a"), Ok(ints(&[1])));
    assert_eq!(run("push([1])"), Err(Error::ArgumentsError { expected: 2, received: 1 }));
    assert_eq!(
        run("push(1, 2)"),
        Err(Error::TypeError { expected: ObjectType::Array, received: ObjectType::Integer })
    );
    assert_eq!(run("del(\"nothing\")"), Ok(Object::Null));
    assert_eq!(run("del()"), Err(Error::ArgumentsError { expected: 1, received: 0 }));
    assert_eq!(
        run("del(1)"),
        Err(Error::TypeError { expected: ObjectType::Str, received: ObjectType::Integer })
    );
}

#[test]
fn del_removes_the_innermost_binding() {
    assert_eq!(run("let a = 1; { let a = 2; del(\"a\"); a }"), Ok(Object::Integer(1)));
    assert_eq!(run("let a = 1; { del(\"a\") }; a"), Err(Error::IdentifierError("a".to_string())));
    assert_eq!(run("del(\"len\"); len([])"), Err(Error::IdentifierError("len".to_string())));
}

#[test]
fn builtins_can_be_called_directly() {
    let mut heap = Heap::new();
    let env = Environment::new_heap(&mut heap, None);
    assert_eq!(Builtin::Len.call(vec![text("joe")], &mut heap, env), Ok(Object::Integer(3)));
    assert_eq!(Builtin::Rest.call(vec![ints(&[1, 2])], &mut heap, env), Ok(ints(&[2])));
    assert_eq!(
        Builtin::Push.call(vec![ints(&[1]), Object::Null], &mut heap, env),
        Ok(Object::Array(vec![Object::Integer(1), Object::Null]))
    );
    Environment::set(&mut heap, env, "x", Object::Integer(7));
    assert_eq!(Builtin::Del.call(vec![text("x")], &mut heap, env), Ok(Object::Integer(7)));
    assert_eq!(Environment::get(&heap, env, "x"), None);
    assert_eq!(heap.len(), 2);
}

#[test]
fn let_binds_in_the_innermost_scope_only() {
    assert_eq!(run("let a = 1; { let a = 2; a }"), Ok(Object::Integer(2)));
    assert_eq!(run("let a = 1; { let a = 2; }; a"), Ok(Object::Integer(1)));
    assert_eq!(run("let a = 1; if (true) { let b = a + 1; b }"), Ok(Object::Integer(2)));
    assert_eq!(run("if (true) { let b = 1; }; b"), Err(Error::IdentifierError("b".to_string())));
    assert_eq!(run("let a = 1; let a = 2; a"), Ok(Object::Integer(2)));
    assert_eq!(run("let a = 1"), Ok(Object::Null));
}

#[test]
fn environments_chain_outwards() {
    let mut heap = Heap::new();
    let top = Environment::new_heap(&mut heap, None);
    let inner = Environment::new_heap(&mut heap, Some(top));
    assert_eq!(top, 1);
    assert_eq!(inner, 2);
    assert_eq!(Environment::set(&mut heap, top, "a", Object::Integer(1)), None);
    assert_eq!(Environment::get(&heap, inner, "a"), Some(Object::Integer(1)));
    assert_eq!(Environment::set(&mut heap, inner, "a", Object::Integer(2)), None);
    assert_eq!(Environment::get(&heap, inner, "a"), Some(Object::Integer(2)));
    assert_eq!(Environment::get(&heap, top, "a"), Some(Object::Integer(1)));
    assert_eq!(Environment::set(&mut heap, top, "a", Object::Integer(3)), Some(Object::Integer(1)));
    assert_eq!(Environment::remove(&mut heap, inner, "a"), Some(Object::Integer(2)));
    assert_eq!(Environment::get(&heap, inner, "a"), Some(Object::Integer(3)));
    assert_eq!(Environment::remove(&mut heap, inner, "a"), Some(Object::Integer(3)));
    assert_eq!(Environment::remove(&mut heap, inner, "a"), None);
    assert_eq!(Environment::get(&heap, inner, "len"), Some(Object::Builtin(Builtin::Len)));
    assert_eq!(Environment::get(&heap, 0, "push"), Some(Object::Builtin(Builtin::Push)));
    assert_eq!(Environment::get(&heap, inner, "b"), None);
    assert_eq!(Builtin::environment().store.len(), 4);
    assert_eq!(Environment::new(None), Environment::new(Some(0)));
    assert_eq!(Environment::new(Some(1)).store.len(), 0);
}

#[test]
fn closures_observe_each_other() {
    let input = "
        let pair = fn() { [fn(v) { v }, fn() { v }] };
        let p = pair();
        p[0](42);
        p[1]()";
    assert_eq!(run(input), Ok(Object::Integer(42)));
    let unbound = "
        let pair = fn() { [fn(v) { v }, fn() { v }] };
        let p = pair();
        p[1]()";
    assert_eq!(run(unbound), Err(Error::IdentifierError("v".to_string())));
    let shared = "
        let make = fn() { fn(k) { fn() { k } } };
        let bind = make();
        let first = bind(1);
        let second = bind(2);
        [first(), second()]";
    assert_eq!(run(shared), Ok(ints(&[2, 2])));
}

#[test]
fn parameters_are_bound_in_the_environment_closed_over() {
    assert_eq!(run("let f = fn(x) { x }; f(5); x"), Ok(Object::Integer(5)));
    assert_eq!(run("let f = fn(a, a) { a }; f(1, 2)"), Ok(Object::Integer(2)));
    assert_eq!(
        run("let f = fn(a) { a }; f(1, 2)"),
        Err(Error::ArgumentsError { expected: 1, received: 2 })
    );
    assert_eq!(run("let f = fn(a) { a }; f(undefined, 2)"), Err(Error::ArgumentsError {
        expected: 1,
        received: 2,
    }));
    assert_eq!(run("len(undefined, 2)"), Err(Error::IdentifierError("undefined".to_string())));
}

#[test]
fn return_leaves_the_call_around_it() {
    assert_eq!(run("let f = fn() { if (true) { return 1; } 2 }; f() + 10"), Ok(Object::Integer(11)));
    assert_eq!(run("let f = fn() { [1, { return 2 }, 3] }; f()"), Ok(Object::Integer(2)));
    assert_eq!(run("1; return 2; 3"), Ok(Object::Integer(2)));
    let statements = program("return 2; 3");
    let mut heap = Heap::new();
    let env = Environment::new_heap(&mut heap, None);
    assert_eq!(
        statements.eval(&mut heap, env, DEFAULT_DEPTH),
        Err(Error::Return(Object::Integer(2)))
    );
}

#[test]
fn evaluation_repeats_on_a_copy_of_the_heap() {
    let setup = program("let n = 20; let double = fn(k) { let m = k * 2; m };");
    let query = program("let r = double(n / 2); [r, len(\"x\")]");
    let mut heap = Heap::new();
    let env = Environment::new_heap(&mut heap, None);
    assert_eq!(eval_return(&setup, &mut heap, env, DEFAULT_DEPTH), Ok(Object::Null));
    let mut copy = heap.clone();
    assert_eq!(copy, heap);
    let first = eval_return(&query, &mut heap, env, DEFAULT_DEPTH);
    let second = eval_return(&query, &mut copy, env, DEFAULT_DEPTH);
    assert_eq!(first, Ok(ints(&[20, 1])));
    assert_eq!(second, first);
    assert_eq!(copy, heap);
}

#[test]
fn the_top_level_environment_persists() {
    let mut heap = Heap::new();
    let env = Environment::new_heap(&mut heap, None);
    assert_eq!(eval_return(&program("let a = 1;"), &mut heap, env, DEFAULT_DEPTH), Ok(Object::Null));
    assert_eq!(eval_return(&program("a + 1"), &mut heap, env, DEFAULT_DEPTH), Ok(Object::Integer(2)));
    assert_eq!(eval_return(&program("return a;"), &mut heap, env, DEFAULT_DEPTH), Ok(Object::Integer(1)));
}

#[test]
fn calls_nest_no_deeper_than_allowed() {
    assert_eq!(run("let f = fn() { f() }; f()"), Err(Error::DepthError));
    let count = program("let f = fn(n) { if (n == 0) { 0 } else { 1 + f(n - 1) } }; f(3)");
    let mut heap = Heap::new();
    let env = Environment::new_heap(&mut heap, None);
    assert_eq!(eval_return(&count, &mut heap, env, 4), Ok(Object::Integer(3)));
    assert_eq!(eval_return(&count, &mut heap, env, 3), Err(Error::DepthError));
    assert_eq!(eval_return(&program("1 + 2"), &mut heap, env, 0), Ok(Object::Integer(3)));
    assert_eq!(eval_return(&program("len([])"), &mut heap, env, 0), Ok(Object::Integer(0)));
}

#[test]
fn a_closure_of_another_heap_is_not_called() {
    let mut heap = Heap::new();
    let env = Environment::new_heap(&mut heap, None);
    Environment::new_heap(&mut heap, Some(env));
    let inner = Environment::new_heap(&mut heap, Some(env));
    let closure = program("fn() { 1 }").eval(&mut heap, inner, DEFAULT_DEPTH).unwrap();
    let mut other = Heap::new();
    let top = Environment::new_heap(&mut other, None);
    Environment::set(&mut other, top, "f", closure);
    assert_eq!(eval_return(&program("f()"), &mut other, top, DEFAULT_DEPTH), Err(Error::Unknown));
}

#[test]
fn values_show_as_the_loop_prints_them() {
    assert_eq!(Object::Integer(-21).to_string(), "-21");
    assert_eq!(Object::Integer(i64::MIN).to_string(), "-9223372036854775808");
    assert_eq!(Object::Boolean(true).to_string(), "true");
    assert_eq!(Object::Null.to_string(), "null");
    assert_eq!(text("joe mama").to_string(), "joe mama");
    assert_eq!(Object::Builtin(Builtin::Len).to_string(), "fn len(str_or_array) { BUILTIN }");
    assert_eq!(Object::Builtin(Builtin::Del).to_string(), "fn del(str) { BUILTIN }");
    assert_eq!(Object::Builtin(Builtin::Rest).to_string(), "fn rest(array) { BUILTIN }");
    assert_eq!(Object::Builtin(Builtin::Push).to_string(), "fn push(array) { BUILTIN }");
    assert_eq!(run("[1, \"a\", [true]]").unwrap().to_string(), "[1, a, [true]]");
    assert_eq!(run("[]").unwrap().to_string(), "[]");
    assert_eq!(run("hash!{}").unwrap().to_string(), "{}");
    assert_eq!(run("hash!{\"a\": 1, 2: \"b\", true: [3]}").unwrap().to_string(), "{\"a\": 1, 2: b, true: [3]}");
    assert_eq!(run("fn(x, y) { x + y }").unwrap().to_string(), "fn(x, y) {\n  (x + y);\n}");
    assert_eq!(HashableObject::Str("k".to_string()).to_string(), "\"k\"");
    assert_eq!(HashableObject::Integer(-1).to_string(), "-1");
    assert_eq!(HashableObject::Boolean(false).to_string(), "false");
}

#[test]
fn kinds_have_names() {
    assert_eq!(ObjectType::Integer.to_string(), "INTEGER");
    assert_eq!(ObjectType::Boolean.to_string(), "BOOLEAN");
    assert_eq!(ObjectType::Null.to_string(), "NULL");
    assert_eq!(ObjectType::Function.to_string(), "FUNCTION");
    assert_eq!(ObjectType::Str.to_string(), "STRING");
    assert_eq!(ObjectType::BuiltinFunction.to_string(), "BUILTIN FUNCTION");
    assert_eq!(ObjectType::Array.to_string(), "ARRAY");
    assert_eq!(ObjectType::Hash.to_string(), "HASH");
    assert_eq!(ObjectType::from(&Object::Null), ObjectType::Null);
    assert_eq!(ObjectType::from(&text("")), ObjectType::Str);
    assert_eq!(ObjectType::from(&run("fn() {}").unwrap()), ObjectType::Function);
}

#[test]
fn evaluation_errors_have_messages() {
    assert_eq!(Error::Return(Object::Integer(1)).to_string(), "Return statement returned 1");
    assert_eq!(
        Error::PrefixError { operator: PrefixOp::Minus, type_value: ObjectType::Boolean }.to_string(),
        "Unknown operation: -BOOLEAN"
    );
    assert_eq!(
        Error::InfixError {
            operator: InfixOp::Plus,
            type_left: ObjectType::Integer,
            type_right: ObjectType::Boolean,
        }
        .to_string(),
        "Unknown operation: INTEGER + BOOLEAN"
    );
    assert_eq!(Error::IdentifierError("ur_mom".to_string()).to_string(), "Undefined identifier: ur_mom");
    assert_eq!(Error::CallableError(ObjectType::Integer).to_string(), "Expected callable, received INTEGER");
    assert_eq!(
        Error::ArgumentsError { expected: 1, received: 10 }.to_string(),
        "Expected 1 arguments, 10 received"
    );
    assert_eq!(
        Error::TypeError { expected: ObjectType::Array, received: ObjectType::Boolean }.to_string(),
        "Expected ARRAY object, BOOLEAN received"
    );
    assert_eq!(Error::IndexError(-1).to_string(), "Index '-1' out of range");
    assert_eq!(Error::HashError(ObjectType::Null).to_string(), "Object of type NULL is unhashable");
    assert_eq!(Error::Unknown.to_string(), "Unknown evaluation error");
    assert_eq!(Error::DivisionError.to_string(), "Division without a quotient");
    assert_eq!(Error::DepthError.to_string(), "Calls are nested too deep");
}
