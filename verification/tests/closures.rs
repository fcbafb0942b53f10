use minilisp::env::Env;
use minilisp::error::{Arity, EvalError, Failure, Fault, Form};
use minilisp::reader::read_one;
use minilisp::value::{Func, Value};

fn run(env: &mut Env, source: &str) -> Result<Value, Failure> {
    let text: Vec<char> = source.chars().collect();
    env.eval(&read_one(&text).unwrap())
}

fn unknown(name: &str) -> Result<Value, Failure> {
    Err(Failure::Error(EvalError::UnknownSymbol(name.to_string())))
}

#[test]
fn capture_scenario() {
    let mut env = Env::default();
    assert_eq!(run(&mut env, "(def x 5)"), Ok(Value::Integer(0)));
    assert_eq!(run(&mut env, "(def f (fn () x))"), Ok(Value::Integer(0)));
    assert_eq!(run(&mut env, "(def x 10)"), Ok(Value::Integer(0)));
    assert_eq!(run(&mut env, "(f)"), Ok(Value::Integer(10)));
}

#[test]
fn scoping_is_lexical() {
    let mut env = Env::default();
    run(&mut env, "(def x 1)").unwrap();
    run(&mut env, "(def g (fn () x))").unwrap();
    run(&mut env, "(def h (fn (x) (g)))").unwrap();
    assert_eq!(run(&mut env, "(h 2)"), Ok(Value::Integer(1)));
    run(&mut env, "(def peek (fn () hidden))").unwrap();
    run(&mut env, "(def caller (fn (hidden) (peek)))").unwrap();
    assert_eq!(run(&mut env, "(caller 1)"), unknown("hidden"));
}

#[test]
fn parameters_shadow_outer_bindings() {
    let mut env = Env::default();
    run(&mut env, "(def x 1)").unwrap();
    run(&mut env, "(def f (fn (x) (+ x 100)))").unwrap();
    assert_eq!(run(&mut env, "(f 5)"), Ok(Value::Integer(105)));
    assert_eq!(run(&mut env, "x"), Ok(Value::Integer(1)));
}

#[test]
fn def_in_a_body_stays_in_the_frame_of_the_call() {
    let mut env = Env::default();
    run(&mut env, "(def x 1)").unwrap();
    run(&mut env, "(def f (fn () (+ (def x 50) x)))").unwrap();
    assert_eq!(run(&mut env, "(f)"), Ok(Value::Integer(50)));
    assert_eq!(run(&mut env, "x"), Ok(Value::Integer(1)));
    run(&mut env, "(def g (fn () (def fresh 1)))").unwrap();
    assert_eq!(run(&mut env, "(g)"), Ok(Value::Integer(0)));
    assert_eq!(run(&mut env, "fresh"), unknown("fresh"));
    assert_eq!(env.frame_count(), 1);
}

#[test]
fn operands_are_evaluated_in_the_frame_of_the_caller() {
    let mut env = Env::default();
    run(&mut env, "(def id (fn (v) v))").unwrap();
    assert_eq!(run(&mut env, "(id (def made 7))"), Ok(Value::Integer(0)));
    assert_eq!(run(&mut env, "made"), Ok(Value::Integer(7)));
}

#[test]
fn a_returned_closure_keeps_its_frame() {
    let mut env = Env::default();
    run(&mut env, "(def adder (fn (n) (fn (m) (+ n m))))").unwrap();
    assert_eq!(env.frame_count(), 1);
    run(&mut env, "(def add3 (adder 3))").unwrap();
    assert_eq!(env.frame_count(), 2);
    run(&mut env, "(def add10 (adder 10))").unwrap();
    assert_eq!(env.frame_count(), 3);
    assert_eq!(run(&mut env, "(add3 1)"), Ok(Value::Integer(4)));
    assert_eq!(run(&mut env, "(add10 1)"), Ok(Value::Integer(11)));
    assert_eq!(run(&mut env, "(add3 (add10 5))"), Ok(Value::Integer(18)));
    assert_eq!(env.frame_count(), 3);
    match run(&mut env, "add3") {
        Ok(Value::Func(Func::UserDefined { params, scope, .. })) => {
            assert_eq!(*params, vec!["m".to_string()]);
            assert_eq!(scope, 1);
        }
        other => panic!("expected a closure, got {:?}", other),
    }
    assert_eq!(run(&mut env, "((adder 3) 4)"), Ok(Value::Integer(7)));
    assert_eq!(env.frame_count(), 4);
    run(&mut env, "(def through (fn () ((adder 3) 4)))").unwrap();
    assert_eq!(run(&mut env, "(through)"), Ok(Value::Integer(7)));
    assert_eq!(env.frame_count(), 4);
}

#[test]
fn frames_of_a_call_are_dropped_when_nothing_holds_them() {
    let mut env = Env::default();
    run(&mut env, "(def twice (fn (f v) (f (f v))))").unwrap();
    run(&mut env, "(def inc (fn (n) (+ n 1)))").unwrap();
    assert_eq!(run(&mut env, "(twice inc 5)"), Ok(Value::Integer(7)));
    assert_eq!(env.frame_count(), 1);
    assert_eq!(run(&mut env, "(twice (fn (n) (* n n)) 3)"), Ok(Value::Integer(81)));
    assert_eq!(env.frame_count(), 1);
    assert_eq!(run(&mut env, "(inc true)").is_err(), true);
    assert_eq!(env.frame_count(), 1);
}

#[test]
fn recursion() {
    let mut env = Env::default();
    run(&mut env, "(def fib (fn (n) (if (< n 2) n (+ (fib (- n 1)) (fib (- n 2))))))").unwrap();
    assert_eq!(run(&mut env, "(fib 15)"), Ok(Value::Integer(610)));
    run(&mut env, "(def sum (fn (n) (if (< n 1) 0 (+ n (sum (- n 1))))))").unwrap();
    assert_eq!(run(&mut env, "(sum 300)"), Ok(Value::Integer(45150)));
    assert_eq!(run(&mut env, "(sum 100000)"), Err(Failure::Fault(Fault::DepthExhausted)));
    assert_eq!(env.frame_count(), 1);
}

#[test]
fn arity_of_closures() {
    let mut env = Env::default();
    run(&mut env, "(def f (fn (x y) (+ x y)))").unwrap();
    assert_eq!(run(&mut env, "(f 1 2)"), Ok(Value::Integer(3)));
    for (source, actual) in [("(f)", 0usize), ("(f 1)", 1), ("(f 1 2 3)", 3)] {
        assert_eq!(
            run(&mut env, source),
            Err(Failure::Error(EvalError::ArityMismatch {
                form: Form::Closure,
                expected: Arity::Exactly(2),
                actual,
            }))
        );
    }
    run(&mut env, "(def thunk (fn () 42))").unwrap();
    assert_eq!(run(&mut env, "(thunk)"), Ok(Value::Integer(42)));
}

#[test]
fn a_repeated_parameter_takes_the_last_operand() {
    let mut env = Env::default();
    run(&mut env, "(def f (fn (x x) x))").unwrap();
    assert_eq!(run(&mut env, "(f 1 2)"), Ok(Value::Integer(2)));
}

#[test]
fn builtins_can_be_rebound_and_passed() {
    let mut env = Env::default();
    run(&mut env, "(def plus +)").unwrap();
    assert_eq!(run(&mut env, "(plus 1 2)"), Ok(Value::Integer(3)));
    run(&mut env, "(def apply2 (fn (f a b) (f a b)))").unwrap();
    assert_eq!(run(&mut env, "(apply2 * 6 7)"), Ok(Value::Integer(42)));
    assert_eq!(run(&mut env, "(apply2 < 6 7)"), Ok(Value::Bool(true)));
    run(&mut env, "(def + -)").unwrap();
    assert_eq!(run(&mut env, "(+ 5 3)"), Ok(Value::Integer(2)));
}

#[test]
fn rebinding_is_no_error() {
    let mut env = Env::default();
    assert_eq!(run(&mut env, "(def x 5)"), Ok(Value::Integer(0)));
    assert_eq!(run(&mut env, "(def x 5)"), Ok(Value::Integer(0)));
    assert_eq!(run(&mut env, "x"), Ok(Value::Integer(5)));
    assert_eq!(env.frame_count(), 1);
    assert_eq!(run(&mut env, "(def x (+ x 1))"), Ok(Value::Integer(0)));
    assert_eq!(run(&mut env, "(def x (+ x 1))"), Ok(Value::Integer(0)));
    assert_eq!(run(&mut env, "x"), Ok(Value::Integer(7)));
    assert_eq!(run(&mut env, "(def x true)"), Ok(Value::Integer(0)));
    assert_eq!(run(&mut env, "x"), Ok(Value::Bool(true)));
}
