//! The reader: from text to expressions.
//!
//! A text is a run of brackets and atoms, separated by white space where two
//! atoms meet. An atom is `true` or `false`, an integer (`-12`), a float
//! (`-1.5`: digits on both sides of one dot), or else a symbol. A pair of
//! brackets encloses the items of a list.

use crate::ast::{expr_views, lemma_list_view, Expr, ExprModel, Script};
use crate::render::{decimal, digit_char, digits};
use rustc_apfloat::ieee::Double;
use rustc_apfloat::Float;
use vstd::prelude::*;

verus! {

/// Why a text is not a script.
#[derive(Clone, Copy, Debug, PartialEq, Eq, Structural)]
pub enum ReadError {
    /// A closing bracket has no opening one before it.
    UnexpectedClose,
    /// The text ends inside a list.
    UnclosedList,
    /// An integer does not fit in 64 bits.
    IntegerOutOfRange,
    /// A float is longer than [`MAX_FLOAT_LENGTH`] characters.
    FloatTooLong,
    /// One expression was asked for, and the text holds none or several.
    NotOneExpression,
}

/// A lexical unit.
#[derive(Debug, PartialEq, Eq)]
pub enum Token {
    Open,
    Close,
    Atom(Vec<char>),
}

/// The mathematical model of a [`Token`].
pub enum TokenModel {
    Open,
    Close,
    Atom(Seq<char>),
}

impl View for Token {
    type V = TokenModel;

    open spec fn view(&self) -> TokenModel {
        match self {
            Token::Open => TokenModel::Open,
            Token::Close => TokenModel::Close,
            Token::Atom(text) => TokenModel::Atom(text@),
        }
    }
}

/// The models of a run of tokens, item by item.
pub open spec fn token_views(tokens: Seq<Token>) -> Seq<TokenModel> {
    Seq::new(tokens.len(), |i: int| tokens[i]@)
}

/// White space: a blank, a tab, a line feed or a carriage return.
pub open spec fn is_space(c: char) -> bool {
    c == ' ' || c == '\t' || c == '\n' || c == '\r'
}

/// The tokens before an atom that is still being read, and its characters so
/// far.
pub struct Lexing {
    pub tokens: Seq<TokenModel>,
    pub pending: Seq<char>,
}

/// The tokens with the pending atom, if there is one, added.
pub open spec fn flush(state: Lexing) -> Seq<TokenModel> {
    if state.pending.len() > 0 {
        state.tokens.push(TokenModel::Atom(state.pending))
    } else {
        state.tokens
    }
}

/// The state of the lexer after one more character.
pub open spec fn lex_step(state: Lexing, c: char) -> Lexing {
    if is_space(c) {
        Lexing { tokens: flush(state), pending: Seq::empty() }
    } else if c == '(' {
        Lexing { tokens: flush(state).push(TokenModel::Open), pending: Seq::empty() }
    } else if c == ')' {
        Lexing { tokens: flush(state).push(TokenModel::Close), pending: Seq::empty() }
    } else {
        Lexing { tokens: state.tokens, pending: state.pending.push(c) }
    }
}

/// The state of the lexer after a text.
pub open spec fn lex_state(text: Seq<char>) -> Lexing
    decreases text.len(),
{
    if text.len() == 0 {
        Lexing { tokens: Seq::empty(), pending: Seq::empty() }
    } else {
        lex_step(lex_state(text.drop_last()), text.last())
    }
}

/// The tokens of a text: each bracket, and each longest run of characters
/// that are neither brackets nor white space.
pub open spec fn tokens_spec(text: Seq<char>) -> Seq<TokenModel> {
    flush(lex_state(text))
}

/// Splits a text into tokens.
pub fn tokenize(text: &[char]) -> (tokens: Vec<Token>)
    ensures
        token_views(tokens@) == tokens_spec(text@),
{
    let mut tokens: Vec<Token> = Vec::new();
    let mut pending: Vec<char> = Vec::new();
    let mut i: usize = 0;
    assert(text@.take(0) =~= Seq::<char>::empty());
    assert(token_views(tokens@) =~= Seq::<TokenModel>::empty());
    while i < text.len()
        invariant
            i <= text.len(),
            lex_state(text@.take(i as int)) == (Lexing {
                tokens: token_views(tokens@),
                pending: pending@,
            }),
        decreases text.len() - i,
    {
        let c = text[i];
        let ghost before = lex_state(text@.take(i as int));
        proof {
            assert(text@.take(i + 1).drop_last() =~= text@.take(i as int));
            assert(text@.take(i + 1).last() == c);
        }
        if c == ' ' || c == '\t' || c == '\n' || c == '\r' || c == '(' || c == ')' {
            if pending.len() > 0 {
                let ghost shown = token_views(tokens@);
                tokens.push(Token::Atom(pending));
                pending = Vec::new();
                assert(token_views(tokens@) =~= shown.push(TokenModel::Atom(before.pending)));
            }
            if c == '(' {
                let ghost shown = token_views(tokens@);
                tokens.push(Token::Open);
                assert(token_views(tokens@) =~= shown.push(TokenModel::Open));
            } else if c == ')' {
                let ghost shown = token_views(tokens@);
                tokens.push(Token::Close);
                assert(token_views(tokens@) =~= shown.push(TokenModel::Close));
            }
            assert(pending@ =~= Seq::<char>::empty());
        } else {
            pending.push(c);
        }
        i += 1;
    }
    assert(text@.take(i as int) =~= text@);
    if pending.len() > 0 {
        let ghost shown = token_views(tokens@);
        let ghost last = pending@;
        tokens.push(Token::Atom(pending));
        assert(token_views(tokens@) =~= shown.push(TokenModel::Atom(last)));
    }
    tokens
}

/// A decimal digit.
pub open spec fn is_digit(c: char) -> bool {
    '0' <= c <= '9'
}

/// The value of a decimal digit.
pub open spec fn digit_value(c: char) -> int {
    c as int - '0' as int
}

/// Every character is a decimal digit.
pub open spec fn all_digits(text: Seq<char>) -> bool {
    forall|i: int| 0 <= i < text.len() ==> is_digit(#[trigger] text[i])
}

/// The number that a run of decimal digits stands for.
pub open spec fn digits_value(text: Seq<char>) -> int
    decreases text.len(),
{
    if text.len() == 0 {
        0
    } else {
        digits_value(text.drop_last()) * 10 + digit_value(text.last())
    }
}

/// The atom without a leading minus sign.
pub open spec fn unsigned_part(atom: Seq<char>) -> Seq<char> {
    if atom.len() > 0 && atom[0] == '-' {
        atom.skip(1)
    } else {
        atom
    }
}

/// An integer: an optional minus sign and at least one digit.
pub open spec fn is_integer(atom: Seq<char>) -> bool {
    unsigned_part(atom).len() > 0 && all_digits(unsigned_part(atom))
}

/// The number that an integer atom stands for.
pub open spec fn integer_value(atom: Seq<char>) -> int {
    if atom.len() > 0 && atom[0] == '-' {
        -digits_value(atom.skip(1))
    } else {
        digits_value(atom)
    }
}

/// A float: an optional minus sign, at least one digit, a dot, and at least
/// one digit. `dot` is the place of the dot in the atom without its sign.
pub open spec fn is_float_at(atom: Seq<char>, dot: int) -> bool {
    let body = unsigned_part(atom);
    &&& 0 < dot < body.len() - 1
    &&& body[dot] == '.'
    &&& all_digits(body.take(dot))
    &&& all_digits(body.skip(dot + 1))
}

/// A float: an optional minus sign, digits, a dot, digits.
pub open spec fn is_float(atom: Seq<char>) -> bool {
    exists|dot: int| is_float_at(atom, dot)
}

/// The longest float that is converted: 2^20 characters. The conversion counts
/// digits and binary places in 32-bit integers; within this length every count
/// stays far inside their range.
pub const MAX_FLOAT_LENGTH: usize = 0x10_0000;

/// The bits of the float that a decimal text stands for, rounded to nearest,
/// ties to even, as `rustc_apfloat` reads it.
pub uninterp spec fn float_of_decimal(text: Seq<char>) -> u64;

/// Calls `from_str` of `rustc_apfloat::ieee::Double` on the text, which is a
/// decimal number with a dot (an optional minus sign, digits, a dot, digits)
/// and no longer than [`MAX_FLOAT_LENGTH`]. On such a text `from_str` takes
/// none of its paths for special names, hexadecimal digits or exponents, and
/// none of those on which it returns an error: it finds digits, one dot and
/// no other character. So the contract claims that a number comes back. The
/// number is computed from the characters alone, and the contract names it.
#[verifier::external_body]
fn decimal_to_float(text: &[char]) -> (bits: Option<u64>)
    requires
        is_float(text@),
        text@.len() <= MAX_FLOAT_LENGTH,
    ensures
        bits == Some(float_of_decimal(text@)),
{
    let text: String = text.iter().collect();
    match text.parse::<Double>() {
        Ok(number) => Some(number.to_bits() as u64),
        Err(_) => None,
    }
}

/// Calls `String::from_iter` of std on the characters: the string holds
/// them, in their order.
#[verifier::external_body]
fn string_of(text: &[char]) -> (string: String)
    ensures
        string@ == text@,
{
    String::from_iter(text.iter())
}

/// The expression that an atom stands for.
pub open spec fn atom_spec(atom: Seq<char>) -> Result<ExprModel, ReadError> {
    if atom == "true"@ {
        Ok(ExprModel::Bool(true))
    } else if atom == "false"@ {
        Ok(ExprModel::Bool(false))
    } else if is_integer(atom) {
        if i64::MIN <= integer_value(atom) <= i64::MAX {
            Ok(ExprModel::Integer(integer_value(atom) as i64))
        } else {
            Err(ReadError::IntegerOutOfRange)
        }
    } else if is_float(atom) {
        if atom.len() <= MAX_FLOAT_LENGTH {
            Ok(ExprModel::Float(float_of_decimal(atom)))
        } else {
            Err(ReadError::FloatTooLong)
        }
    } else {
        Ok(ExprModel::Symbol(atom))
    }
}

/// The stack of the parser after one more token: the lists that are open,
/// the outermost first, each with the items read so far.
pub open spec fn parse_step(stack: Seq<Seq<ExprModel>>, token: TokenModel) -> Result<
    Seq<Seq<ExprModel>>,
    ReadError,
> {
    match token {
        TokenModel::Open => Ok(stack.push(Seq::empty())),
        TokenModel::Close => if stack.len() < 2 {
            Err(ReadError::UnexpectedClose)
        } else {
            let outer = stack.drop_last();
            Ok(outer.drop_last().push(outer.last().push(ExprModel::List(stack.last()))))
        },
        TokenModel::Atom(text) => match atom_spec(text) {
            Ok(expr) => Ok(stack.drop_last().push(stack.last().push(expr))),
            Err(error) => Err(error),
        },
    }
}

/// The stack of the parser after a run of tokens, or the first failure.
pub open spec fn parse_state(tokens: Seq<TokenModel>) -> Result<Seq<Seq<ExprModel>>, ReadError>
    decreases tokens.len(),
{
    if tokens.len() == 0 {
        Ok(seq![Seq::empty()])
    } else {
        match parse_state(tokens.drop_last()) {
            Ok(stack) => parse_step(stack, tokens.last()),
            Err(error) => Err(error),
        }
    }
}

/// The expressions that a run of tokens stands for.
pub open spec fn parse_spec(tokens: Seq<TokenModel>) -> Result<Seq<ExprModel>, ReadError> {
    match parse_state(tokens) {
        Ok(stack) => if stack.len() == 1 {
            Ok(stack[0])
        } else {
            Err(ReadError::UnclosedList)
        },
        Err(error) => Err(error),
    }
}

/// The expressions that a text stands for.
pub open spec fn read_spec(text: Seq<char>) -> Result<Seq<ExprModel>, ReadError> {
    parse_spec(tokens_spec(text))
}

/// The one expression that a text stands for.
pub open spec fn read_one_spec(text: Seq<char>) -> Result<ExprModel, ReadError> {
    match read_spec(text) {
        Ok(exprs) => if exprs.len() == 1 {
            Ok(exprs[0])
        } else {
            Err(ReadError::NotOneExpression)
        },
        Err(error) => Err(error),
    }
}

/// The models of the lists that are open.
pub open spec fn stack_views(stack: Seq<Vec<Expr>>) -> Seq<Seq<ExprModel>> {
    Seq::new(stack.len(), |i: int| expr_views(stack[i]@))
}

/// A run of digits stands for a number that is not negative, and one more
/// digit makes it no smaller.
pub proof fn lemma_digits_value(text: Seq<char>)
    requires
        all_digits(text),
    ensures
        digits_value(text) >= 0,
        text.len() > 0 ==> digits_value(text) >= digits_value(text.drop_last()),
    decreases text.len(),
{
    if text.len() > 0 {
        assert(is_digit(text[text.len() - 1]));
        assert forall|i: int| 0 <= i < text.drop_last().len() implies is_digit(
            #[trigger] text.drop_last()[i],
        ) by {
            assert(text.drop_last()[i] == text[i]);
        }
        lemma_digits_value(text.drop_last());
    }
}

fn is_digit_char(c: char) -> (digit: bool)
    ensures
        digit == is_digit(c),
{
    '0' <= c && c <= '9'
}

fn all_digit_chars(text: &[char], from: usize, to: usize) -> (all: bool)
    requires
        from <= to <= text@.len(),
    ensures
        all == all_digits(text@.subrange(from as int, to as int)),
{
    let mut i: usize = from;
    while i < to
        invariant
            from <= i <= to <= text@.len(),
            forall|j: int| from <= j < i ==> is_digit(#[trigger] text@[j]),
        decreases to - i,
    {
        if !is_digit_char(text[i]) {
            assert(text@.subrange(from as int, to as int)[i - from] == text@[i as int]);
            return false;
        }
        i += 1;
    }
    assert forall|j: int| 0 <= j < to - from implies is_digit(
        #[trigger] text@.subrange(from as int, to as int)[j],
    ) by {
        assert(text@.subrange(from as int, to as int)[j] == text@[from + j]);
    }
    true
}

/// Where the atom without its sign begins.
fn body_start(atom: &[char]) -> (start: usize)
    ensures
        start <= atom@.len(),
        unsigned_part(atom@) == atom@.skip(start as int),
        start == 0 || start == 1,
        start == 1 <==> atom@.len() > 0 && atom@[0] == '-',
{
    if atom.len() > 0 && atom[0] == '-' {
        1
    } else {
        assert(atom@.skip(0) =~= atom@);
        0
    }
}

/// The number that a run of digits stands for, if it is at most 2^63.
fn digits_number(atom: &[char], from: usize) -> (number: Option<u64>)
    requires
        from <= atom@.len(),
        all_digits(atom@.skip(from as int)),
    ensures
        match number {
            Some(n) => n == digits_value(atom@.skip(from as int)) && n <= 0x8000_0000_0000_0000,
            None => digits_value(atom@.skip(from as int)) > 0x8000_0000_0000_0000,
        },
{
    let ghost body = atom@.skip(from as int);
    let mut number: u64 = 0;
    let mut i: usize = from;
    assert(body.take(0) =~= Seq::<char>::empty());
    while i < atom.len()
        invariant
            from <= i <= atom@.len(),
            body == atom@.skip(from as int),
            all_digits(body),
            number == digits_value(body.take(i - from)),
            number <= 0x8000_0000_0000_0000,
        decreases atom.len() - i,
    {
        let c = atom[i];
        let ghost prefix = body.take(i - from + 1);
        proof {
            assert(body[i - from] == c);
            assert(is_digit(c));
            assert(prefix.drop_last() =~= body.take(i - from));
            assert(prefix.last() == c);
        }
        let digit: u64 = (c as u64) - ('0' as u64);
        if number > 0x0ccc_cccc_cccc_cccc {
            proof {
                lemma_grows(body, (i - from + 1) as int);
            }
            return None;
        }
        let next: u64 = number * 10 + digit;
        if next > 0x8000_0000_0000_0000 {
            proof {
                lemma_grows(body, (i - from + 1) as int);
            }
            return None;
        }
        number = next;
        i += 1;
    }
    assert(body.take(i - from) =~= body);
    Some(number)
}

/// The number of a run of digits is at least that of each of its beginnings.
proof fn lemma_grows(text: Seq<char>, n: int)
    requires
        all_digits(text),
        0 <= n <= text.len(),
    ensures
        digits_value(text) >= digits_value(text.take(n)),
    decreases text.len() - n,
{
    if n < text.len() {
        lemma_grows(text, n + 1);
        let longer = text.take(n + 1);
        assert(longer.drop_last() =~= text.take(n));
        assert forall|i: int| 0 <= i < longer.len() implies is_digit(#[trigger] longer[i]) by {
            assert(longer[i] == text[i]);
        }
        lemma_digits_value(longer);
    } else {
        assert(text.take(n) =~= text);
    }
}

/// The place of the first dot from `from` on, if there is one.
fn first_dot(atom: &[char], from: usize) -> (place: Option<usize>)
    requires
        from <= atom@.len(),
    ensures
        match place {
            Some(dot) => from <= dot < atom@.len() && atom@[dot as int] == '.' && forall|j: int|
                from <= j < dot ==> atom@[j] != '.',
            None => forall|j: int| from <= j < atom@.len() ==> atom@[j] != '.',
        },
{
    let mut i: usize = from;
    while i < atom.len()
        invariant
            from <= i <= atom@.len(),
            forall|j: int| from <= j < i ==> atom@[j] != '.',
        decreases atom.len() - i,
    {
        if atom[i] == '.' {
            return Some(i);
        }
        i += 1;
    }
    None
}

/// Whether the atom is a float.
fn float_shape(atom: &[char]) -> (float: bool)
    ensures
        float == is_float(atom@),
{
    let start = body_start(atom);
    let ghost body = atom@.skip(start as int);
    match first_dot(atom, start) {
        Some(dot) => {
            let n = atom.len();
            let after: usize = dot + 1;
            let shaped = start < dot && after < n && all_digit_chars(atom, start, dot)
                && all_digit_chars(atom, after, n);
            proof {
                let at = dot - start;
                assert(body.take(at) =~= atom@.subrange(start as int, dot as int));
                if dot + 1 <= atom@.len() {
                    assert(body.skip(at + 1) =~= atom@.subrange(dot + 1, atom@.len() as int));
                }
                if shaped {
                    assert(body[at] == '.');
                    assert(is_float_at(atom@, at));
                } else {
                    assert forall|other: int| !is_float_at(atom@, other) by {
                        if is_float_at(atom@, other) {
                            assert(body[other] == atom@[start + other]);
                            if other > at {
                                assert(body.take(other)[at] == body[at]);
                                assert(!is_digit(body[at]));
                            } else if other < at {
                                assert(atom@[start + other] != '.');
                            }
                        }
                    }
                }
            }
            shaped
        },
        None => {
            proof {
                assert forall|other: int| !is_float_at(atom@, other) by {
                    if is_float_at(atom@, other) {
                        assert(body[other] == atom@[start + other]);
                    }
                }
            }
            false
        },
    }
}

/// The expression that an atom stands for.
pub fn read_atom(atom: &[char]) -> (expr: Result<Expr, ReadError>)
    ensures
        match expr {
            Ok(expr) => atom_spec(atom@) == Ok::<ExprModel, ReadError>(expr@),
            Err(error) => atom_spec(atom@) == Err::<ExprModel, ReadError>(error),
        },
{
    proof {
        reveal_strlit("true");
        reveal_strlit("false");
    }
    let n = atom.len();
    if n == 4 && atom[0] == 't' && atom[1] == 'r' && atom[2] == 'u' && atom[3] == 'e' {
        assert(atom@ =~= "true"@);
        return Ok(Expr::Bool(true));
    }
    if n == 5 && atom[0] == 'f' && atom[1] == 'a' && atom[2] == 'l' && atom[3] == 's' && atom[4]
        == 'e' {
        assert(atom@ =~= "false"@);
        return Ok(Expr::Bool(false));
    }
    let start = body_start(atom);
    assert(atom@.skip(start as int) =~= atom@.subrange(start as int, n as int));
    if start < n && all_digit_chars(atom, start, n) {
        return match digits_number(atom, start) {
            Some(number) => {
                if start == 1 {
                    if number == 0x8000_0000_0000_0000 {
                        Ok(Expr::Integer(i64::MIN))
                    } else {
                        Ok(Expr::Integer(-(number as i64)))
                    }
                } else if number <= 0x7fff_ffff_ffff_ffff {
                    Ok(Expr::Integer(number as i64))
                } else {
                    Err(ReadError::IntegerOutOfRange)
                }
            },
            None => Err(ReadError::IntegerOutOfRange),
        };
    }
    if float_shape(atom) {
        if n > MAX_FLOAT_LENGTH {
            return Err(ReadError::FloatTooLong);
        }
        return Ok(Expr::Float(decimal_to_float(atom).unwrap()));
    }
    Ok(Expr::Symbol(string_of(atom)))
}

/// The expressions that a run of tokens stands for.
pub fn parse(tokens: &[Token]) -> (exprs: Result<Vec<Expr>, ReadError>)
    ensures
        match exprs {
            Ok(exprs) => parse_spec(token_views(tokens@)) == Ok::<_, ReadError>(expr_views(exprs@)),
            Err(error) => parse_spec(token_views(tokens@)) == Err::<Seq<ExprModel>, _>(error),
        },
{
    let ghost all = token_views(tokens@);
    let mut stack: Vec<Vec<Expr>> = Vec::new();
    stack.push(Vec::new());
    let mut i: usize = 0;
    assert(all.take(0) =~= Seq::<TokenModel>::empty());
    assert(stack_views(stack@) =~~= seq![Seq::<ExprModel>::empty()]);
    while i < tokens.len()
        invariant
            i <= tokens.len(),
            all == token_views(tokens@),
            stack.len() >= 1,
            parse_state(all.take(i as int)) == Ok::<_, ReadError>(stack_views(stack@)),
        decreases tokens.len() - i,
    {
        let ghost before = stack_views(stack@);
        proof {
            assert(all.take(i + 1).drop_last() =~= all.take(i as int));
            assert(all.take(i + 1).last() == tokens@[i as int]@);
        }
        match &tokens[i] {
            Token::Open => {
                stack.push(Vec::new());
                assert(stack_views(stack@) =~~= before.push(Seq::empty()));
            },
            Token::Close => {
                if stack.len() < 2 {
                    proof {
                        lemma_failure_stays(all, (i + 1) as int);
                    }
                    return Err(ReadError::UnexpectedClose);
                }
                let inner = stack.pop().unwrap();
                let top = stack.len() - 1;
                proof {
                    lemma_list_view(inner);
                }
                stack[top].push(Expr::List(inner));
                assert(stack_views(stack@) =~~= before.drop_last().drop_last().push(
                    before.drop_last().last().push(ExprModel::List(before.last())),
                ));
            },
            Token::Atom(text) => {
                match read_atom(text.as_slice()) {
                    Ok(expr) => {
                        let top = stack.len() - 1;
                        stack[top].push(expr);
                        assert(stack_views(stack@) =~~= before.drop_last().push(
                            before.last().push(expr@),
                        ));
                    },
                    Err(error) => {
                        proof {
                            lemma_failure_stays(all, (i + 1) as int);
                        }
                        return Err(error);
                    },
                }
            },
        }
        i += 1;
    }
    assert(all.take(i as int) =~= all);
    if stack.len() != 1 {
        return Err(ReadError::UnclosedList);
    }
    let exprs = stack.pop().unwrap();
    Ok(exprs)
}

/// A failure on a beginning of the tokens is the failure on all of them.
proof fn lemma_failure_stays(tokens: Seq<TokenModel>, n: int)
    requires
        0 <= n <= tokens.len(),
        parse_state(tokens.take(n)) is Err,
    ensures
        parse_state(tokens) == parse_state(tokens.take(n)),
    decreases tokens.len() - n,
{
    if n < tokens.len() {
        assert(tokens.take(n + 1).drop_last() =~= tokens.take(n));
        lemma_failure_stays(tokens, n + 1);
    } else {
        assert(tokens.take(n) =~= tokens);
    }
}

/// Reads a text: the expressions that it holds, in their order.
pub fn read(text: &[char]) -> (script: Result<Script, ReadError>)
    ensures
        match script {
            Ok(script) => read_spec(text@) == Ok::<_, ReadError>(script@),
            Err(error) => read_spec(text@) == Err::<Seq<ExprModel>, _>(error),
        },
{
    let tokens = tokenize(text);
    match parse(tokens.as_slice()) {
        Ok(exprs) => Ok(Script(exprs)),
        Err(error) => Err(error),
    }
}

/// Reads a text that holds one expression.
pub fn read_one(text: &[char]) -> (expr: Result<Expr, ReadError>)
    ensures
        match expr {
            Ok(expr) => read_one_spec(text@) == Ok::<_, ReadError>(expr@),
            Err(error) => read_one_spec(text@) == Err::<ExprModel, _>(error),
        },
{
    match read(text) {
        Ok(script) => {
            let mut exprs = script.0;
            if exprs.len() == 1 {
                let expr = exprs.pop().unwrap();
                Ok(expr)
            } else {
                Err(ReadError::NotOneExpression)
            }
        },
        Err(error) => Err(error),
    }
}

/// The decimal digits of a number are digits, and stand for the number.
pub proof fn lemma_digits_round_trip(n: nat)
    ensures
        digits(n).len() > 0,
        all_digits(digits(n)),
        digits_value(digits(n)) == n,
    decreases n,
{
    if n < 10 {
        assert(digits(n).drop_last() =~= Seq::<char>::empty());
        assert(digits_value(digits(n).drop_last()) == 0);
    } else {
        lemma_digits_round_trip(n / 10);
        let text = digits(n);
        assert(text.drop_last() =~= digits(n / 10));
        assert(text.last() == digit_char(n % 10));
        assert forall|i: int| 0 <= i < text.len() implies is_digit(#[trigger] text[i]) by {
            if i < text.len() - 1 {
                assert(text[i] == digits(n / 10)[i]);
            }
        }
    }
}

/// The decimal text of an integer is read as that integer.
pub proof fn law_integer_round_trip(i: i64)
    ensures
        atom_spec(decimal(i as int)) == Ok::<_, ReadError>(ExprModel::Integer(i)),
{
    reveal_strlit("true");
    reveal_strlit("false");
    let text = decimal(i as int);
    if i < 0 {
        let magnitude = (-i) as nat;
        lemma_digits_round_trip(magnitude);
        assert(text[0] == '-');
        assert(text.skip(1) =~= digits(magnitude));
    } else {
        lemma_digits_round_trip(i as nat);
        assert(is_digit(text[0]));
    }
    assert(text != "true"@) by {
        if text == "true"@ {
            assert(text[0] == 't');
        }
    }
    assert(text != "false"@) by {
        if text == "false"@ {
            assert(text[0] == 'f');
        }
    }
}

} // verus!
