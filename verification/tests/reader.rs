use minilisp::ast::{Expr, Script};
use minilisp::reader::{
    read, read_atom, read_one, tokenize, ReadError, Token, MAX_FLOAT_LENGTH,
};

fn chars(text: &str) -> Vec<char> {
    text.chars().collect()
}

fn sym(name: &str) -> Expr {
    Expr::Symbol(name.to_string())
}

#[test]
fn tokens_of_a_nested_list() {
    let tokens = tokenize(&chars("(+ 1\t(f x))\n y"));
    assert_eq!(
        tokens,
        vec![
            Token::Open,
            Token::Atom(chars("+")),
            Token::Atom(chars("1")),
            Token::Open,
            Token::Atom(chars("f")),
            Token::Atom(chars("x")),
            Token::Close,
            Token::Close,
            Token::Atom(chars("y")),
        ]
    );
}

#[test]
fn atoms_are_classified() {
    assert_eq!(read_atom(&chars("true")), Ok(Expr::Bool(true)));
    assert_eq!(read_atom(&chars("false")), Ok(Expr::Bool(false)));
    assert_eq!(read_atom(&chars("42")), Ok(Expr::Integer(42)));
    assert_eq!(read_atom(&chars("-42")), Ok(Expr::Integer(-42)));
    assert_eq!(read_atom(&chars("007")), Ok(Expr::Integer(7)));
    assert_eq!(read_atom(&chars("-")), Ok(sym("-")));
    assert_eq!(read_atom(&chars("+")), Ok(sym("+")));
    assert_eq!(read_atom(&chars("x1")), Ok(sym("x1")));
    assert_eq!(read_atom(&chars("1x")), Ok(sym("1x")));
    assert_eq!(read_atom(&chars("1.")), Ok(sym("1.")));
    assert_eq!(read_atom(&chars(".5")), Ok(sym(".5")));
    assert_eq!(read_atom(&chars("1.2.3")), Ok(sym("1.2.3")));
    assert_eq!(read_atom(&chars("truth")), Ok(sym("truth")));
}

#[test]
fn integers_at_the_limits() {
    assert_eq!(read_atom(&chars("9223372036854775807")), Ok(Expr::Integer(i64::MAX)));
    assert_eq!(read_atom(&chars("-9223372036854775808")), Ok(Expr::Integer(i64::MIN)));
    assert_eq!(read_atom(&chars("9223372036854775808")), Err(ReadError::IntegerOutOfRange));
    assert_eq!(read_atom(&chars("-9223372036854775809")), Err(ReadError::IntegerOutOfRange));
    assert_eq!(
        read_atom(&chars("100000000000000000000000000000000000000")),
        Err(ReadError::IntegerOutOfRange)
    );
    assert_eq!(read_atom(&chars("00000000000000000000000000000000000001")), Ok(Expr::Integer(1)));
}

#[test]
fn floats_are_read_as_the_hardware_reads_them() {
    for text in ["1.5", "-0.1", "0.3", "123456789.987654321", "0.000001", "3.14159"] {
        let expected: f64 = text.parse().unwrap();
        assert_eq!(read_atom(&chars(text)), Ok(Expr::Float(expected.to_bits())));
    }
}

#[test]
fn a_script_is_read_in_order() {
    let script = read(&chars("(def x 5) x (f)")).unwrap();
    assert_eq!(
        script,
        Script(vec![
            Expr::List(vec![sym("def"), sym("x"), Expr::Integer(5)]),
            sym("x"),
            Expr::List(vec![sym("f")]),
        ])
    );
    assert_eq!(read(&chars("  \n")), Ok(Script(vec![])));
    assert_eq!(read(&chars("()")), Ok(Script(vec![Expr::List(vec![])])));
}

#[test]
fn unbalanced_brackets_are_errors() {
    assert_eq!(read(&chars("(+ 1 2")), Err(ReadError::UnclosedList));
    assert_eq!(read(&chars("+ 1 2)")), Err(ReadError::UnexpectedClose));
    assert_eq!(read(&chars(")(")), Err(ReadError::UnexpectedClose));
}

#[test]
fn one_expression_is_asked_for() {
    assert_eq!(read_one(&chars("(f 1)\n")), Ok(Expr::List(vec![sym("f"), Expr::Integer(1)])));
    assert_eq!(read_one(&chars("")), Err(ReadError::NotOneExpression));
    assert_eq!(read_one(&chars("1 2")), Err(ReadError::NotOneExpression));
}

#[test]
fn a_float_too_long_is_not_read() {
    let mut text = String::from("1.");
    for _ in 0..MAX_FLOAT_LENGTH {
        text.push('0');
    }
    assert_eq!(read_atom(&chars(&text)), Err(ReadError::FloatTooLong));
    let mut text = String::from("-1.");
    for _ in 0..(MAX_FLOAT_LENGTH - 3) {
        text.push('0');
    }
    assert_eq!(text.len(), MAX_FLOAT_LENGTH);
    assert_eq!(read_atom(&chars(&text)), Ok(Expr::Float((-1.0f64).to_bits())));
}

#[test]
fn long_floats_are_read_as_the_hardware_reads_them() {
    let mut thirds = String::from("0.");
    let mut many = String::from("123456789.");
    for _ in 0..3000 {
        thirds.push('3');
        many.push('7');
    }
    for text in [thirds, many] {
        let expected: f64 = text.parse().unwrap();
        assert_eq!(read_atom(&chars(&text)), Ok(Expr::Float(expected.to_bits())));
    }
    let mut huge = String::new();
    for _ in 0..400 {
        huge.push('9');
    }
    huge.push_str(".0");
    assert_eq!(read_atom(&chars(&huge)), Ok(Expr::Float(f64::INFINITY.to_bits())));
    let mut tiny = String::from("0.");
    for _ in 0..400 {
        tiny.push('0');
    }
    tiny.push('1');
    assert_eq!(read_atom(&chars(&tiny)), Ok(Expr::Float(0.0f64.to_bits())));
}

fn joined(fragments: &[minilisp::render::Fragment]) -> String {
    let mut out = String::new();
    for fragment in fragments {
        match fragment {
            minilisp::render::Fragment::Text(piece) => out.push_str(piece),
            minilisp::render::Fragment::Float(bits) => {
                out.push_str(&format!("{:?}", f64::from_bits(*bits)))
            }
        }
    }
    out
}

#[test]
fn a_rendering_is_read_back() {
    let sources = [
        "(def fact (fn (n ) (if (< n 1 ) 1 (* n (fact (- n 1 ) ) ) ) ) )",
        "x",
        "-12",
        "true",
        "()",
        "(() (()) )",
        "(+ 9223372036854775807 -9223372036854775808 )",
    ];
    for source in sources {
        let expr = read_one(&chars(source)).unwrap();
        let text = joined(&expr.render());
        assert_eq!(read_one(&chars(&text)), Ok(expr));
    }
    let expr = Expr::List(vec![
        sym("if"),
        Expr::Bool(false),
        Expr::Integer(-7),
        Expr::List(vec![sym("f"), Expr::List(vec![]), sym("+")]),
    ]);
    let text = joined(&expr.render());
    assert_eq!(text, "(if false -7 (f () + ) )");
    assert_eq!(read_one(&chars(&text)), Ok(expr));
    let with_float = Expr::List(vec![sym("*"), Expr::Float(1.5f64.to_bits()), Expr::Float(0.1f64.to_bits())]);
    let text = joined(&with_float.render());
    assert_eq!(text, "(* 1.5 0.1 )");
    assert_eq!(read_one(&chars(&text)), Ok(with_float));
}
