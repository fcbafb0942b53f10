use minilisp::env::{Env, DEFAULT_DEPTH_LIMIT};
use minilisp::error::{Arity, EvalError, Failure, Fault, Form, Kind};
use minilisp::reader::read_one;
use minilisp::value::{Builtin, Func, Value};

fn run(env: &mut Env, source: &str) -> Result<Value, Failure> {
    let text: Vec<char> = source.chars().collect();
    env.eval(&read_one(&text).unwrap())
}

fn eval(source: &str) -> Result<Value, Failure> {
    run(&mut Env::default(), source)
}

fn float(x: f64) -> Value {
    Value::Float(x.to_bits())
}

fn type_mismatch(op: Builtin, expected: Kind, found: Value) -> Result<Value, Failure> {
    Err(Failure::Error(EvalError::TypeMismatch { form: Form::BuiltIn(op), expected, found }))
}

fn arity_mismatch(op: Builtin, expected: Arity, actual: usize) -> Result<Value, Failure> {
    Err(Failure::Error(EvalError::ArityMismatch { form: Form::BuiltIn(op), expected, actual }))
}

#[test]
fn default_environment_binds_every_builtin() {
    let mut env = Env::default();
    assert_eq!(env.depth_limit(), DEFAULT_DEPTH_LIMIT);
    let table = [
        ("def", Builtin::Def),
        ("fn", Builtin::Fn),
        ("if", Builtin::If),
        ("=", Builtin::Equals),
        ("+", Builtin::Add),
        ("-", Builtin::Sub),
        ("*", Builtin::Mul),
        ("/", Builtin::Div),
        ("<", Builtin::LessThan),
    ];
    for (name, op) in table {
        assert_eq!(op.name(), name);
        assert_eq!(run(&mut env, name), Ok(Value::Func(Func::BuiltIn(op))));
    }
    let mut empty = Env::new();
    assert_eq!(
        run(&mut empty, "+"),
        Err(Failure::Error(EvalError::UnknownSymbol("+".to_string())))
    );
}

#[test]
fn integer_arithmetic_folds_from_the_left() {
    assert_eq!(eval("(+ 1 2 3)"), Ok(Value::Integer(6)));
    assert_eq!(eval("(- 10 3 2)"), Ok(Value::Integer(5)));
    assert_eq!(eval("(* 2 3 4)"), Ok(Value::Integer(24)));
    assert_eq!(eval("(/ 100 5 2)"), Ok(Value::Integer(10)));
    assert_eq!(eval("(+ 5)"), Ok(Value::Integer(5)));
    assert_eq!(eval("(- 5)"), Ok(Value::Integer(5)));
    assert_eq!(eval("(/ 5)"), Ok(Value::Integer(5)));
    assert_eq!(eval("(+ (* 2 3) (- 4 1))"), Ok(Value::Integer(9)));
}

#[test]
fn integer_division_truncates() {
    assert_eq!(eval("(/ 7 2)"), Ok(Value::Integer(3)));
    assert_eq!(eval("(/ -7 2)"), Ok(Value::Integer(-3)));
    assert_eq!(eval("(/ 7 -2)"), Ok(Value::Integer(-3)));
    assert_eq!(eval("(/ -7 -2)"), Ok(Value::Integer(3)));
    assert_eq!(eval("(/ 0 5)"), Ok(Value::Integer(0)));
}

#[test]
fn integer_faults() {
    assert_eq!(eval("(/ 1 0)"), Err(Failure::Fault(Fault::DivisionByZero)));
    assert_eq!(eval("(/ 0 0)"), Err(Failure::Fault(Fault::DivisionByZero)));
    assert_eq!(eval("(+ 9223372036854775807 1)"), Err(Failure::Fault(Fault::IntegerOverflow)));
    assert_eq!(eval("(- -9223372036854775808 1)"), Err(Failure::Fault(Fault::IntegerOverflow)));
    assert_eq!(
        eval("(* 4611686018427387904 2)"),
        Err(Failure::Fault(Fault::IntegerOverflow))
    );
    assert_eq!(eval("(/ -9223372036854775808 -1)"), Err(Failure::Fault(Fault::IntegerOverflow)));
    assert_eq!(eval("(+ 9223372036854775806 1)"), Ok(Value::Integer(i64::MAX)));
    assert_eq!(eval("(* -4611686018427387904 2)"), Ok(Value::Integer(i64::MIN)));
}

#[test]
fn a_fault_ends_the_fold_where_it_arises() {
    let mut env = Env::default();
    assert_eq!(
        run(&mut env, "(+ 9223372036854775807 1 (def late 1))"),
        Err(Failure::Fault(Fault::IntegerOverflow))
    );
    assert_eq!(
        run(&mut env, "late"),
        Err(Failure::Error(EvalError::UnknownSymbol("late".to_string())))
    );
    assert_eq!(
        run(&mut env, "(+ 1 true (def late 1))"),
        type_mismatch(Builtin::Add, Kind::Integer, Value::Bool(true))
    );
    assert_eq!(
        run(&mut env, "late"),
        Err(Failure::Error(EvalError::UnknownSymbol("late".to_string())))
    );
}

#[test]
fn float_arithmetic() {
    assert_eq!(eval("(+ 1.5 2.25)"), Ok(float(3.75)));
    assert_eq!(eval("(- 1.5 2.25)"), Ok(float(-0.75)));
    assert_eq!(eval("(* 1.5 2.0)"), Ok(float(3.0)));
    assert_eq!(eval("(/ 1.0 4.0)"), Ok(float(0.25)));
    assert_eq!(eval("(/ 1.0 0.0)"), Ok(float(f64::INFINITY)));
    assert_eq!(eval("(/ -1.0 0.0)"), Ok(float(f64::NEG_INFINITY)));
    match eval("(/ 0.0 0.0)") {
        Ok(Value::Float(bits)) => assert!(f64::from_bits(bits).is_nan()),
        other => panic!("expected a NaN, got {:?}", other),
    }
    assert_eq!(eval("(+ 0.1 0.2)"), Ok(float(0.1 + 0.2)));
}

#[test]
fn arithmetic_needs_numbers_of_one_type() {
    assert_eq!(eval("(+ 1 2.0)"), type_mismatch(Builtin::Add, Kind::Integer, float(2.0)));
    assert_eq!(eval("(+ 1.0 2)"), type_mismatch(Builtin::Add, Kind::Float, Value::Integer(2)));
    assert_eq!(eval("(* 1 2 3.5)"), type_mismatch(Builtin::Mul, Kind::Integer, float(3.5)));
    assert_eq!(eval("(- true 1)"), type_mismatch(Builtin::Sub, Kind::Number, Value::Bool(true)));
    assert_eq!(
        eval("(/ + 1)"),
        type_mismatch(Builtin::Div, Kind::Number, Value::Func(Func::BuiltIn(Builtin::Add)))
    );
    assert_eq!(eval("(+)"), arity_mismatch(Builtin::Add, Arity::AtLeast(1), 0));
    assert_eq!(eval("(/)"), arity_mismatch(Builtin::Div, Arity::AtLeast(1), 0));
}

#[test]
fn equality_of_scalars() {
    assert_eq!(eval("(= true true)"), Ok(Value::Bool(true)));
    assert_eq!(eval("(= true false)"), Ok(Value::Bool(false)));
    assert_eq!(eval("(= false false false)"), Ok(Value::Bool(true)));
    assert_eq!(eval("(= 3 3)"), Ok(Value::Bool(true)));
    assert_eq!(eval("(= 3 4)"), Ok(Value::Bool(false)));
    assert_eq!(eval("(= 1 2 1)"), Ok(Value::Bool(false)));
    assert_eq!(eval("(= 1.5 1.5)"), Ok(Value::Bool(true)));
    assert_eq!(eval("(= 1.5 2.5)"), Ok(Value::Bool(false)));
    assert_eq!(eval("(= 0.0 -0.0)"), Ok(Value::Bool(true)));
    assert_eq!(eval("(= (/ 0.0 0.0) (/ 0.0 0.0))"), Ok(Value::Bool(false)));
}

#[test]
fn equality_evaluates_and_checks_every_operand() {
    assert_eq!(eval("(= 1 2 true)"), type_mismatch(Builtin::Equals, Kind::Integer, Value::Bool(true)));
    assert_eq!(eval("(= 1 1.0)"), type_mismatch(Builtin::Equals, Kind::Integer, float(1.0)));
    assert_eq!(eval("(= true 1)"), type_mismatch(Builtin::Equals, Kind::Bool, Value::Integer(1)));
    assert_eq!(eval("(= 1.0 true)"), type_mismatch(Builtin::Equals, Kind::Float, Value::Bool(true)));
    assert_eq!(
        eval("(= = 1)"),
        type_mismatch(Builtin::Equals, Kind::Scalar, Value::Func(Func::BuiltIn(Builtin::Equals)))
    );
    assert_eq!(eval("(= 1)"), arity_mismatch(Builtin::Equals, Arity::AtLeast(2), 1));
    assert_eq!(eval("(=)"), arity_mismatch(Builtin::Equals, Arity::AtLeast(2), 0));
    let mut env = Env::default();
    assert_eq!(run(&mut env, "(= 1 2 (def seen 3))"), Ok(Value::Bool(false)));
    assert_eq!(run(&mut env, "seen"), Ok(Value::Integer(3)));
}

#[test]
fn less_than_takes_two_numbers_of_one_type() {
    assert_eq!(eval("(< 1 2)"), Ok(Value::Bool(true)));
    assert_eq!(eval("(< 2 1)"), Ok(Value::Bool(false)));
    assert_eq!(eval("(< 2 2)"), Ok(Value::Bool(false)));
    assert_eq!(eval("(< -5 -4)"), Ok(Value::Bool(true)));
    assert_eq!(eval("(< 1.5 2.5)"), Ok(Value::Bool(true)));
    assert_eq!(eval("(< -1.5 -2.5)"), Ok(Value::Bool(false)));
    assert_eq!(eval("(< -2.5 -1.5)"), Ok(Value::Bool(true)));
    assert_eq!(eval("(< -0.0 0.0)"), Ok(Value::Bool(false)));
    assert_eq!(eval("(< -1.0 1.0)"), Ok(Value::Bool(true)));
    assert_eq!(eval("(< (/ 0.0 0.0) 1.0)"), Ok(Value::Bool(false)));
    assert_eq!(eval("(< 1.0 (/ 0.0 0.0))"), Ok(Value::Bool(false)));
    assert_eq!(eval("(< 1.0 (/ 1.0 0.0))"), Ok(Value::Bool(true)));
    assert_eq!(eval("(< 1)"), arity_mismatch(Builtin::LessThan, Arity::Exactly(2), 1));
    assert_eq!(eval("(< 1 2 3)"), arity_mismatch(Builtin::LessThan, Arity::Exactly(2), 3));
    assert_eq!(eval("(< 1 2.0)"), type_mismatch(Builtin::LessThan, Kind::Integer, float(2.0)));
    assert_eq!(eval("(< 1.0 2)"), type_mismatch(Builtin::LessThan, Kind::Float, Value::Integer(2)));
    assert_eq!(eval("(< true 2)"), type_mismatch(Builtin::LessThan, Kind::Number, Value::Bool(true)));
}

#[test]
fn if_needs_a_boolean_and_three_operands() {
    assert_eq!(eval("(if (< 1 2) 10 20)"), Ok(Value::Integer(10)));
    assert_eq!(eval("(if (< 2 1) 10 20)"), Ok(Value::Integer(20)));
    assert_eq!(eval("(if 1 10 20)"), type_mismatch(Builtin::If, Kind::Bool, Value::Integer(1)));
    assert_eq!(eval("(if true 1)"), arity_mismatch(Builtin::If, Arity::Exactly(3), 2));
    assert_eq!(eval("(if true 1 2 3)"), arity_mismatch(Builtin::If, Arity::Exactly(3), 4));
    assert_eq!(eval("(if true 1 (/ 1 true))"), Ok(Value::Integer(1)));
    assert_eq!(eval("(if false (undefined) 2)"), Ok(Value::Integer(2)));
    assert_eq!(
        eval("(if (undefined) 1 2)"),
        Err(Failure::Error(EvalError::UnknownSymbol("undefined".to_string())))
    );
}

#[test]
fn def_and_fn_count_their_operands() {
    assert_eq!(eval("(def x)"), arity_mismatch(Builtin::Def, Arity::Exactly(2), 1));
    assert_eq!(eval("(def x 1 2)"), arity_mismatch(Builtin::Def, Arity::Exactly(2), 3));
    assert_eq!(eval("(fn (x))"), arity_mismatch(Builtin::Fn, Arity::Exactly(2), 1));
    assert_eq!(eval("(fn (x) x x)"), arity_mismatch(Builtin::Fn, Arity::Exactly(2), 3));
    assert_eq!(
        eval("(def x (undefined))"),
        Err(Failure::Error(EvalError::UnknownSymbol("undefined".to_string())))
    );
}

#[test]
fn operators_must_be_functions() {
    assert_eq!(eval("(1 2)"), Err(Failure::Error(EvalError::NotAFunction(Value::Integer(1)))));
    assert_eq!(eval("(true)"), Err(Failure::Error(EvalError::NotAFunction(Value::Bool(true)))));
    assert_eq!(eval("((+ 1 2) 3)"), Err(Failure::Error(EvalError::NotAFunction(Value::Integer(3)))));
    assert_eq!(eval("(1.5)"), Err(Failure::Error(EvalError::NotAFunction(float(1.5)))));
}

#[test]
fn depth_is_needed_by_applications_only() {
    let mut env = Env::default().with_depth_limit(0);
    assert_eq!(env.depth_limit(), 0);
    assert_eq!(run(&mut env, "7"), Ok(Value::Integer(7)));
    assert_eq!(run(&mut env, "+"), Ok(Value::Func(Func::BuiltIn(Builtin::Add))));
    assert_eq!(run(&mut env, "()"), Err(Failure::Error(EvalError::EmptyApplication)));
    assert_eq!(run(&mut env, "(+ 1 2)"), Err(Failure::Fault(Fault::DepthExhausted)));
    let mut env = Env::default().with_depth_limit(1);
    assert_eq!(run(&mut env, "(+ 1 2)"), Ok(Value::Integer(3)));
    assert_eq!(run(&mut env, "(+ 1 (+ 1 1))"), Err(Failure::Fault(Fault::DepthExhausted)));
    let mut env = Env::default().with_depth_limit(2);
    assert_eq!(run(&mut env, "(+ 1 (+ 1 1))"), Ok(Value::Integer(3)));
}

#[test]
fn a_greater_depth_changes_no_result() {
    for limit in [3usize, 4, 10, 100, 1000] {
        let mut env = Env::default().with_depth_limit(limit);
        assert_eq!(run(&mut env, "(+ 1 (* 2 (- 5 3)))"), Ok(Value::Integer(5)));
        assert_eq!(
            run(&mut env, "(+ 1 (* 2 (- 5 true)))"),
            type_mismatch(Builtin::Sub, Kind::Integer, Value::Bool(true))
        );
    }
}
