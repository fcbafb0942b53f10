use minilisp::ast::{Expr, Script};
use minilisp::env::Env;
use minilisp::error::{Arity, EvalError, Failure, Fault, Form, Kind, Reason};
use minilisp::reader::{read_one, ReadError};
use minilisp::render::{decimal_text, Fragment};
use minilisp::value::{Builtin, Func, Value};

fn text(piece: &str) -> Fragment {
    Fragment::Text(piece.to_string())
}

fn joined(fragments: &[Fragment]) -> String {
    let mut out = String::new();
    for fragment in fragments {
        match fragment {
            Fragment::Text(piece) => out.push_str(piece),
            Fragment::Float(bits) => out.push_str(&format!("{}", f64::from_bits(*bits))),
        }
    }
    out
}

fn chars(source: &str) -> Vec<char> {
    source.chars().collect()
}

#[test]
fn decimal_text_of_integers() {
    assert_eq!(decimal_text(0), "0");
    assert_eq!(decimal_text(7), "7");
    assert_eq!(decimal_text(-7), "-7");
    assert_eq!(decimal_text(1234567890), "1234567890");
    assert_eq!(decimal_text(i64::MAX), i64::MAX.to_string());
    assert_eq!(decimal_text(i64::MIN), i64::MIN.to_string());
}

#[test]
fn expressions_are_rendered_in_fragments() {
    let expr = Expr::List(vec![
        Expr::Symbol("+".to_string()),
        Expr::Integer(-3),
        Expr::Float(2.5f64.to_bits()),
        Expr::Bool(true),
        Expr::List(vec![]),
    ]);
    assert_eq!(
        expr.render(),
        vec![
            text("("),
            text("+"),
            text(" "),
            text("-3"),
            text(" "),
            Fragment::Float(2.5f64.to_bits()),
            text(" "),
            text("true"),
            text(" "),
            text("("),
            text(")"),
            text(" "),
            text(")"),
        ]
    );
    assert_eq!(joined(&expr.render()), "(+ -3 2.5 true () )");
}

#[test]
fn scripts_are_rendered_without_separators() {
    let script = Script(vec![Expr::Integer(1), Expr::Bool(false), Expr::Symbol("x".to_string())]);
    assert_eq!(joined(&script.render()), "1falsex");
}

#[test]
fn values_are_rendered() {
    assert_eq!(joined(&Value::Bool(false).render()), "false");
    assert_eq!(joined(&Value::Integer(42).render()), "42");
    assert_eq!(joined(&Value::Float(0.1f64.to_bits()).render()), "0.1");
    assert_eq!(
        joined(&Value::List(vec![Value::Integer(1), Value::Bool(true)]).render()),
        "(1 true)"
    );
    assert_eq!(
        Value::List(vec![Value::Integer(1), Value::Integer(2)]).render(),
        vec![text("("), text("1"), text(" "), text("2"), text(")")]
    );
    assert_eq!(joined(&Value::List(vec![]).render()), "()");
    assert_eq!(joined(&Value::List(vec![Value::Integer(7)]).render()), "(7)");
    let nested = Value::List(vec![
        Value::List(vec![]),
        Value::List(vec![Value::Float(1.5f64.to_bits()), Value::Bool(false)]),
        Value::Integer(-3),
    ]);
    assert_eq!(joined(&nested.render()), "(() (1.5 false) -3)");
    assert_eq!(
        joined(&Value::Func(Func::BuiltIn(Builtin::Add)).render()),
        "<built-in function 'addition'>"
    );
    assert_eq!(
        joined(&Value::Func(Func::BuiltIn(Builtin::LessThan)).render()),
        "<built-in function 'less_than'>"
    );
    let mut env = Env::default();
    let closure = env.eval(&read_one(&chars("(fn (x) x)")).unwrap()).unwrap();
    assert_eq!(joined(&closure.render()), "function");
}

#[test]
fn failures_have_messages() {
    let unknown = Failure::Error(EvalError::UnknownSymbol("qq".to_string()));
    assert_eq!(joined(&unknown.render()), "Unknown symbol 'qq'");
    let not_a_function = EvalError::NotAFunction(Value::Integer(1));
    assert_eq!(joined(&not_a_function.render()), "1 is not a function");
    let not_a_function =
        EvalError::NotAFunction(Value::List(vec![Value::Integer(1), Value::Integer(2)]));
    assert_eq!(joined(&not_a_function.render()), "(1 2) is not a function");
    let mismatch = EvalError::TypeMismatch {
        form: Form::BuiltIn(Builtin::If),
        expected: Kind::Bool,
        found: Value::List(vec![Value::Bool(true), Value::Bool(false)]),
    };
    assert_eq!(joined(&mismatch.render()), "'if' needs a boolean, not '(true false)'");
    assert_eq!(joined(&EvalError::EmptyApplication.render()), "List cannot be empty");
    let arity = EvalError::ArityMismatch {
        form: Form::BuiltIn(Builtin::If),
        expected: Arity::Exactly(3),
        actual: 12,
    };
    assert_eq!(joined(&arity.render()), "'if' takes 3 operands, not 12");
    let arity = EvalError::ArityMismatch {
        form: Form::BuiltIn(Builtin::Equals),
        expected: Arity::AtLeast(2),
        actual: 0,
    };
    assert_eq!(joined(&arity.render()), "'=' takes at least 2 operands, not 0");
    let arity = EvalError::ArityMismatch {
        form: Form::Closure,
        expected: Arity::Exactly(2),
        actual: 1,
    };
    assert_eq!(joined(&arity.render()), "'function' takes 2 operands, not 1");
    let mismatch = EvalError::TypeMismatch {
        form: Form::BuiltIn(Builtin::Add),
        expected: Kind::Integer,
        found: Value::Float(2.0f64.to_bits()),
    };
    assert_eq!(joined(&mismatch.render()), "'+' needs an integer, not '2'");
    let malformed = EvalError::MalformedSpecialForm {
        form: Form::BuiltIn(Builtin::Def),
        reason: Reason::NameNotSymbol,
    };
    assert_eq!(joined(&malformed.render()), "First argument to 'def' must be a symbol");
    assert_eq!(joined(&Failure::Fault(Fault::DivisionByZero).render()), "Division by zero");
    assert_eq!(joined(&Failure::Fault(Fault::IntegerOverflow).render()), "Integer overflow");
    assert_eq!(
        joined(&Failure::Fault(Fault::DepthExhausted).render()),
        "Applications are nested too deep"
    );
    assert_eq!(ReadError::UnclosedList.words(), "The text ends inside a list");
}
