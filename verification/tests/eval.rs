use minilisp::ast::Expr;
use minilisp::env::Env;
use minilisp::error::{Arity, EvalError, Failure, Fault, Form, Kind, Reason};
use minilisp::value::{Builtin, Func, Value};

fn sym(name: &str) -> Expr {
    Expr::Symbol(name.to_string())
}

fn integer(i: i64) -> Expr {
    Expr::Integer(i)
}

fn float(x: f64) -> Expr {
    Expr::Float(x.to_bits())
}

fn list(items: Vec<Expr>) -> Expr {
    Expr::List(items)
}

fn call(op: &str, mut operands: Vec<Expr>) -> Expr {
    let mut items = vec![sym(op)];
    items.append(&mut operands);
    Expr::List(items)
}

fn error(outcome: Result<Value, Failure>) -> EvalError {
    match outcome {
        Err(Failure::Error(error)) => error,
        other => panic!("expected an error, got {:?}", other),
    }
}

#[test]
fn literals_evaluate_to_themselves() {
    let mut env = Env::new();
    assert_eq!(env.eval(&Expr::Bool(true)), Ok(Value::Bool(true)));
    assert_eq!(env.eval(&integer(-7)), Ok(Value::Integer(-7)));
    assert_eq!(env.eval(&float(2.5)), Ok(Value::Float(2.5f64.to_bits())));
    assert_eq!(env.frame_count(), 1);
}

#[test]
fn unknown_symbol_in_default_environment() {
    let mut env = Env::default();
    assert_eq!(
        env.eval(&sym("qq")),
        Err(Failure::Error(EvalError::UnknownSymbol("qq".to_string())))
    );
}

#[test]
fn empty_application_fails() {
    let mut env = Env::default();
    assert_eq!(env.eval(&list(vec![])), Err(Failure::Error(EvalError::EmptyApplication)));
}

#[test]
fn def_then_lookup_and_rebinding() {
    let mut env = Env::default();
    assert_eq!(env.eval(&call("def", vec![sym("x"), integer(5)])), Ok(Value::Integer(0)));
    assert_eq!(env.eval(&sym("x")), Ok(Value::Integer(5)));
    assert_eq!(env.eval(&call("def", vec![sym("x"), integer(10)])), Ok(Value::Integer(0)));
    assert_eq!(env.eval(&sym("x")), Ok(Value::Integer(10)));
}

#[test]
fn if_skips_the_untaken_branch() {
    let mut env = Env::default();
    let bad = call("/", vec![integer(1), Expr::Bool(true)]);
    let taken = call("if", vec![Expr::Bool(true), integer(1), bad]);
    assert_eq!(env.eval(&taken), Ok(Value::Integer(1)));
    let bad = call("/", vec![integer(1), Expr::Bool(true)]);
    let taken = call("if", vec![Expr::Bool(false), bad, integer(2)]);
    assert_eq!(env.eval(&taken), Ok(Value::Integer(2)));
}

#[test]
fn closure_arity_is_checked_before_anything_is_evaluated() {
    let mut env = Env::default();
    let make = call("fn", vec![list(vec![sym("x"), sym("y")]), call("def", vec![sym("seen"), integer(1)])]);
    assert_eq!(env.eval(&call("def", vec![sym("f"), make])), Ok(Value::Integer(0)));
    let one = call("f", vec![call("def", vec![sym("touched"), integer(1)])]);
    assert_eq!(
        error(env.eval(&one)),
        EvalError::ArityMismatch { form: Form::Closure, expected: Arity::Exactly(2), actual: 1 }
    );
    let three = call("f", vec![integer(1), integer(2), integer(3)]);
    assert_eq!(
        error(env.eval(&three)),
        EvalError::ArityMismatch { form: Form::Closure, expected: Arity::Exactly(2), actual: 3 }
    );
    assert_eq!(error(env.eval(&sym("touched"))), EvalError::UnknownSymbol("touched".to_string()));
    assert_eq!(error(env.eval(&sym("seen"))), EvalError::UnknownSymbol("seen".to_string()));
    assert_eq!(error(env.eval(&sym("x"))), EvalError::UnknownSymbol("x".to_string()));
    assert_eq!(env.frame_count(), 1);
}

#[test]
fn mixed_arithmetic_is_a_type_error() {
    let mut env = Env::default();
    assert_eq!(
        error(env.eval(&call("+", vec![integer(1), float(2.0)]))),
        EvalError::TypeMismatch {
            form: Form::BuiltIn(Builtin::Add),
            expected: Kind::Integer,
            found: Value::Float(2.0f64.to_bits()),
        }
    );
}

#[test]
fn equality_is_type_homogeneous() {
    let mut env = Env::default();
    assert_eq!(
        error(env.eval(&call("=", vec![integer(1), float(1.0)]))),
        EvalError::TypeMismatch {
            form: Form::BuiltIn(Builtin::Equals),
            expected: Kind::Integer,
            found: Value::Float(1.0f64.to_bits()),
        }
    );
    assert_eq!(env.eval(&call("=", vec![integer(1), integer(1), integer(1)])), Ok(Value::Bool(true)));
    assert_eq!(env.eval(&call("=", vec![integer(1), integer(1), integer(2)])), Ok(Value::Bool(false)));
}

#[test]
fn closure_sees_the_frame_it_was_made_in() {
    let mut env = Env::default();
    assert_eq!(env.eval(&call("def", vec![sym("x"), integer(5)])), Ok(Value::Integer(0)));
    let make = call("fn", vec![list(vec![]), sym("x")]);
    assert_eq!(env.eval(&call("def", vec![sym("f"), make])), Ok(Value::Integer(0)));
    assert_eq!(env.eval(&call("def", vec![sym("x"), integer(10)])), Ok(Value::Integer(0)));
    assert_eq!(env.eval(&list(vec![sym("f")])), Ok(Value::Integer(10)));
}

#[test]
fn float_arithmetic_matches_the_hardware() {
    let mut env = Env::default();
    let sum = env.eval(&call("+", vec![float(1.5), float(2.25), float(0.1)]));
    assert_eq!(sum, Ok(Value::Float((1.5f64 + 2.25 + 0.1).to_bits())));
    let quotient = env.eval(&call("/", vec![float(1.0), float(3.0)]));
    assert_eq!(quotient, Ok(Value::Float((1.0f64 / 3.0).to_bits())));
    let product = env.eval(&call("*", vec![float(1.1), float(-7.3)]));
    assert_eq!(product, Ok(Value::Float((1.1f64 * -7.3).to_bits())));
    let difference = env.eval(&call("-", vec![float(0.3), float(0.1)]));
    assert_eq!(difference, Ok(Value::Float((0.3f64 - 0.1).to_bits())));
    let infinite = env.eval(&call("/", vec![float(1.0), float(0.0)]));
    assert_eq!(infinite, Ok(Value::Float(f64::INFINITY.to_bits())));
}

#[test]
fn recursion_by_name() {
    let mut env = Env::default();
    let body = call(
        "if",
        vec![
            call("<", vec![sym("n"), integer(1)]),
            integer(1),
            call("*", vec![sym("n"), call("fact", vec![call("-", vec![sym("n"), integer(1)])])]),
        ],
    );
    let make = call("fn", vec![list(vec![sym("n")]), body]);
    assert_eq!(env.eval(&call("def", vec![sym("fact"), make])), Ok(Value::Integer(0)));
    assert_eq!(env.eval(&call("fact", vec![integer(10)])), Ok(Value::Integer(3628800)));
    assert_eq!(env.frame_count(), 1);
}

#[test]
fn depth_limit_is_a_fault() {
    let mut env = Env::default().with_depth_limit(20);
    let body = call("loop", vec![]);
    let make = call("fn", vec![list(vec![]), body]);
    assert_eq!(env.eval(&call("def", vec![sym("loop"), make])), Ok(Value::Integer(0)));
    assert_eq!(env.eval(&call("loop", vec![])), Err(Failure::Fault(Fault::DepthExhausted)));
    assert_eq!(env.frame_count(), 1);
}

#[test]
fn malformed_special_forms() {
    let mut env = Env::default();
    assert_eq!(
        error(env.eval(&call("def", vec![integer(1), integer(2)]))),
        EvalError::MalformedSpecialForm {
            form: Form::BuiltIn(Builtin::Def),
            reason: Reason::NameNotSymbol
        }
    );
    assert_eq!(
        error(env.eval(&call("fn", vec![sym("x"), integer(2)]))),
        EvalError::MalformedSpecialForm {
            form: Form::BuiltIn(Builtin::Fn),
            reason: Reason::ParamsNotList
        }
    );
    assert_eq!(
        error(env.eval(&call("fn", vec![list(vec![sym("x"), integer(1)]), integer(2)]))),
        EvalError::MalformedSpecialForm {
            form: Form::BuiltIn(Builtin::Fn),
            reason: Reason::ParamNotSymbol
        }
    );
}

#[test]
fn builtins_are_values() {
    let mut env = Env::default();
    assert_eq!(env.eval(&sym("+")), Ok(Value::Func(Func::BuiltIn(Builtin::Add))));
    assert_eq!(error(env.eval(&list(vec![integer(1), integer(2)]))), EvalError::NotAFunction(Value::Integer(1)));
}
