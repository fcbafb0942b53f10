use minilisp::ast::Expr;
use minilisp::env::{Env, Frame};
use minilisp::number::{float_arith, float_below, floats_equal, int_arith, is_nan, ArithOp};
use minilisp::error::Fault;
use minilisp::value::Value;

#[test]
fn lookup_goes_outward() {
    let mut env = Env::new();
    assert_eq!(env.frame_count(), 1);
    env.insert(0, "x".to_string(), Value::Integer(1));
    env.insert(0, "y".to_string(), Value::Integer(2));
    let child = env.child_of(0);
    assert_eq!(child, 1);
    assert_eq!(env.frame_count(), 2);
    env.insert(child, "x".to_string(), Value::Integer(10));
    assert_eq!(env.get(child, &"x".to_string()), Some(Value::Integer(10)));
    assert_eq!(env.get(child, &"y".to_string()), Some(Value::Integer(2)));
    assert_eq!(env.get(child, &"z".to_string()), None);
    assert_eq!(env.get(0, &"x".to_string()), Some(Value::Integer(1)));
    let grandchild = env.child_of(child);
    assert_eq!(env.get(grandchild, &"x".to_string()), Some(Value::Integer(10)));
    let sibling = env.child_of(0);
    assert_eq!(env.get(sibling, &"x".to_string()), Some(Value::Integer(1)));
}

#[test]
fn insert_overwrites_in_its_own_frame_only() {
    let mut env = Env::new();
    env.insert(0, "x".to_string(), Value::Integer(1));
    env.insert(0, "x".to_string(), Value::Bool(true));
    assert_eq!(env.get(0, &"x".to_string()), Some(Value::Bool(true)));
    let child = env.child_of(0);
    env.insert(child, "x".to_string(), Value::Integer(5));
    assert_eq!(env.get(0, &"x".to_string()), Some(Value::Bool(true)));
    env.insert(7, "x".to_string(), Value::Integer(9));
    assert_eq!(env.get(7, &"x".to_string()), None);
    assert_eq!(env.frame_count(), 2);
}

#[test]
fn discard_drops_later_frames() {
    let mut env = Env::new();
    env.insert(0, "x".to_string(), Value::Integer(1));
    let first = env.child_of(0);
    env.child_of(first);
    assert_eq!(env.frame_count(), 3);
    env.discard(5);
    assert_eq!(env.frame_count(), 3);
    env.discard(1);
    assert_eq!(env.frame_count(), 1);
    assert_eq!(env.get(0, &"x".to_string()), Some(Value::Integer(1)));
    assert_eq!(env.get(first, &"x".to_string()), None);
}

#[test]
fn a_copy_is_independent() {
    let mut env = Env::default().with_depth_limit(9);
    env.insert(0, "x".to_string(), Value::Integer(1));
    let mut copy = env.clone();
    assert_eq!(copy.depth_limit(), 9);
    copy.insert(0, "x".to_string(), Value::Integer(2));
    assert_eq!(env.get(0, &"x".to_string()), Some(Value::Integer(1)));
    assert_eq!(copy.get(0, &"x".to_string()), Some(Value::Integer(2)));
    assert_eq!(copy.eval(&Expr::Symbol("x".to_string())), Ok(Value::Integer(2)));
}

#[test]
fn a_frame_is_a_map() {
    let mut frame = Frame::new(Some(3));
    assert_eq!(frame.outer(), Some(3));
    assert_eq!(frame.get(&"a".to_string()), None);
    frame.set("a".to_string(), Value::Integer(1));
    frame.set("b".to_string(), Value::Integer(2));
    frame.set("a".to_string(), Value::Integer(3));
    assert_eq!(frame.get(&"a".to_string()), Some(&Value::Integer(3)));
    assert_eq!(frame.get(&"b".to_string()), Some(&Value::Integer(2)));
    let copy = frame.clone();
    assert_eq!(copy.get(&"a".to_string()), Some(&Value::Integer(3)));
    assert_eq!(copy.outer(), Some(3));
}

#[test]
fn integer_operations() {
    assert_eq!(int_arith(ArithOp::Add, 2, 3), Ok(5));
    assert_eq!(int_arith(ArithOp::Sub, 2, 3), Ok(-1));
    assert_eq!(int_arith(ArithOp::Mul, -2, 3), Ok(-6));
    assert_eq!(int_arith(ArithOp::Div, -9, 2), Ok(-4));
    assert_eq!(int_arith(ArithOp::Div, 9, 0), Err(Fault::DivisionByZero));
    assert_eq!(int_arith(ArithOp::Div, i64::MIN, -1), Err(Fault::IntegerOverflow));
    assert_eq!(int_arith(ArithOp::Add, i64::MAX, 1), Err(Fault::IntegerOverflow));
    assert_eq!(int_arith(ArithOp::Sub, i64::MIN, 1), Err(Fault::IntegerOverflow));
    assert_eq!(int_arith(ArithOp::Mul, i64::MAX, 2), Err(Fault::IntegerOverflow));
}

fn samples() -> Vec<f64> {
    vec![
        0.0,
        -0.0,
        1.0,
        -1.0,
        0.1,
        -0.1,
        1.5,
        2.25,
        1e300,
        -1e300,
        1e-300,
        5e-324,
        -5e-324,
        f64::MAX,
        f64::MIN,
        f64::MIN_POSITIVE,
        f64::EPSILON,
        f64::INFINITY,
        f64::NEG_INFINITY,
        f64::NAN,
        -f64::NAN,
        3.141592653589793,
        1234567.891,
    ]
}

#[test]
fn float_order_is_that_of_the_hardware() {
    for a in samples() {
        assert_eq!(is_nan(a.to_bits()), a.is_nan());
        for b in samples() {
            assert_eq!(floats_equal(a.to_bits(), b.to_bits()), a == b, "{} == {}", a, b);
            assert_eq!(float_below(a.to_bits(), b.to_bits()), a < b, "{} < {}", a, b);
        }
    }
}

#[test]
fn float_operations_are_those_of_the_hardware() {
    let cases: [(ArithOp, fn(f64, f64) -> f64); 4] = [
        (ArithOp::Add, |a, b| a + b),
        (ArithOp::Sub, |a, b| a - b),
        (ArithOp::Mul, |a, b| a * b),
        (ArithOp::Div, |a, b| a / b),
    ];
    for (op, native) in cases {
        for a in samples() {
            for b in samples() {
                let expected = native(a, b);
                let got = f64::from_bits(float_arith(op, a.to_bits(), b.to_bits()));
                if expected.is_nan() {
                    assert!(got.is_nan(), "{:?} {} {}", op, a, b);
                } else {
                    assert_eq!(got.to_bits(), expected.to_bits(), "{:?} {} {}", op, a, b);
                }
            }
        }
    }
}
