//! Text for expressions and values.
//!
//! A rendering is a sequence of fragments. A fragment is a piece of text, or
//! the bits of a float whose decimal text is left to whoever prints the
//! rendering: this crate holds floats as bits and formats none.
//!
//! A list value is written with one space between its items: `(1 2)`. A list
//! expression is written with a space after each item, `(+ 1 2 )`, as source
//! text that the reader takes back.

use crate::ast::{expr_views, lemma_list_view, Expr, ExprModel, Script};
use crate::error::{
    Arity, EvalError, EvalErrorModel, Failure, FailureModel, Fault, Form, Kind, Reason,
};
use crate::reader::ReadError;
use crate::value::{
    lemma_list_value_view, value_views, Builtin, Func, FuncModel, Value, ValueModel,
};
use vstd::prelude::*;
use vstd::string::StringExecFns;

verus! {

/// One piece of a rendering.
#[derive(Debug, PartialEq, Eq)]
pub enum Fragment {
    Text(String),
    /// The bits of a float, to be printed as a decimal number.
    Float(u64),
}

/// The mathematical model of a [`Fragment`].
pub enum FragmentModel {
    Text(Seq<char>),
    Float(u64),
}

impl View for Fragment {
    type V = FragmentModel;

    open spec fn view(&self) -> FragmentModel {
        match self {
            Fragment::Text(text) => FragmentModel::Text(text@),
            Fragment::Float(bits) => FragmentModel::Float(*bits),
        }
    }
}

/// The models of a run of fragments, item by item.
pub open spec fn fragment_views(fragments: Seq<Fragment>) -> Seq<FragmentModel> {
    Seq::new(fragments.len(), |i: int| fragments[i]@)
}

/// The character of a decimal digit.
pub open spec fn digit_char(digit: nat) -> char {
    if digit == 0 {
        '0'
    } else if digit == 1 {
        '1'
    } else if digit == 2 {
        '2'
    } else if digit == 3 {
        '3'
    } else if digit == 4 {
        '4'
    } else if digit == 5 {
        '5'
    } else if digit == 6 {
        '6'
    } else if digit == 7 {
        '7'
    } else if digit == 8 {
        '8'
    } else {
        '9'
    }
}

/// The decimal digits of a natural number, without leading zeros.
pub open spec fn digits(n: nat) -> Seq<char>
    decreases n,
{
    if n < 10 {
        seq![digit_char(n)]
    } else {
        digits(n / 10).push(digit_char(n % 10))
    }
}

/// The decimal text of an integer: a minus sign where it is negative, then
/// the digits of its magnitude.
pub open spec fn decimal(i: int) -> Seq<char> {
    if i < 0 {
        seq!['-'] + digits((-i) as nat)
    } else {
        digits(i as nat)
    }
}

/// The text of a boolean.
pub open spec fn bool_text(b: bool) -> Seq<char> {
    if b {
        "true"@
    } else {
        "false"@
    }
}

impl Builtin {
    /// The tag under which the operation is shown.
    pub open spec fn tag_spec(self) -> Seq<char> {
        match self {
            Builtin::Def => "def"@,
            Builtin::Fn => "fn"@,
            Builtin::If => "if"@,
            Builtin::Equals => "equals"@,
            Builtin::Add => "addition"@,
            Builtin::Sub => "subtraction"@,
            Builtin::Mul => "multiplication"@,
            Builtin::Div => "division"@,
            Builtin::LessThan => "less_than"@,
        }
    }

    /// The tag under which the operation is shown.
    pub fn tag(self) -> (tag: &'static str)
        ensures
            tag@ == self.tag_spec(),
    {
        match self {
            Builtin::Def => "def",
            Builtin::Fn => "fn",
            Builtin::If => "if",
            Builtin::Equals => "equals",
            Builtin::Add => "addition",
            Builtin::Sub => "subtraction",
            Builtin::Mul => "multiplication",
            Builtin::Div => "division",
            Builtin::LessThan => "less_than",
        }
    }
}

/// The renderings of items, each followed by a space.
pub open spec fn render_items(rendered: Seq<Seq<FragmentModel>>) -> Seq<FragmentModel>
    decreases rendered.len(),
{
    if rendered.len() == 0 {
        Seq::empty()
    } else {
        render_items(rendered.drop_last()) + rendered.last() + seq![FragmentModel::Text(" "@)]
    }
}

/// A list expression: an opening bracket, the items each followed by a
/// space, and a closing bracket.
pub open spec fn render_list(rendered: Seq<Seq<FragmentModel>>) -> Seq<FragmentModel> {
    seq![FragmentModel::Text("("@)] + render_items(rendered) + seq![FragmentModel::Text(")"@)]
}

/// The renderings of items with one space between each two: none before the
/// first and none after the last.
pub open spec fn render_separated(rendered: Seq<Seq<FragmentModel>>) -> Seq<FragmentModel>
    decreases rendered.len(),
{
    if rendered.len() == 0 {
        Seq::empty()
    } else if rendered.len() == 1 {
        rendered.last()
    } else {
        render_separated(rendered.drop_last()) + seq![FragmentModel::Text(" "@)] + rendered.last()
    }
}

/// A list value: its items, separated by single spaces, between brackets. The
/// empty list is a pair of brackets.
pub open spec fn render_value_list(rendered: Seq<Seq<FragmentModel>>) -> Seq<FragmentModel> {
    seq![FragmentModel::Text("("@)] + render_separated(rendered) + seq![FragmentModel::Text(")"@)]
}

/// The renderings one after the other, with nothing between them.
pub open spec fn render_all(rendered: Seq<Seq<FragmentModel>>) -> Seq<FragmentModel>
    decreases rendered.len(),
{
    if rendered.len() == 0 {
        Seq::empty()
    } else {
        render_all(rendered.drop_last()) + rendered.last()
    }
}

/// The renderings of the items of a list expression; empty for any other.
pub open spec fn item_renderings(expr: ExprModel) -> Seq<Seq<FragmentModel>>
    decreases expr,
{
    match expr {
        ExprModel::List(items) => Seq::new(
            items.len(),
            |i: int|
                if 0 <= i < items.len() {
                    render_expr_with(items[i], item_renderings(items[i]))
                } else {
                    Seq::empty()
                },
        ),
        _ => Seq::empty(),
    }
}

/// The rendering of an expression whose items, where it is a list, are
/// rendered as `items`.
pub open spec fn render_expr_with(expr: ExprModel, items: Seq<Seq<FragmentModel>>) -> Seq<
    FragmentModel,
> {
    match expr {
        ExprModel::Bool(b) => seq![FragmentModel::Text(bool_text(b))],
        ExprModel::Integer(i) => seq![FragmentModel::Text(decimal(i as int))],
        ExprModel::Float(bits) => seq![FragmentModel::Float(bits)],
        ExprModel::Symbol(name) => seq![FragmentModel::Text(name)],
        ExprModel::List(_) => render_list(items),
    }
}

/// The rendering of an expression: a literal as its text, a float as its
/// bits, a symbol as its name, a list as [`render_list`] of its items.
pub open spec fn render_expr(expr: ExprModel) -> Seq<FragmentModel> {
    render_expr_with(expr, item_renderings(expr))
}

/// The renderings of a run of expressions.
pub open spec fn render_exprs(items: Seq<ExprModel>) -> Seq<Seq<FragmentModel>> {
    Seq::new(items.len(), |i: int| render_expr(items[i]))
}

/// The text of a function value.
pub open spec fn func_text(func: FuncModel) -> Seq<char> {
    match func {
        FuncModel::BuiltIn(op) => "<built-in function '"@ + op.tag_spec() + "'>"@,
        FuncModel::UserDefined { .. } => "function"@,
    }
}

/// The renderings of the items of a list value; empty for any other.
pub open spec fn value_renderings(value: ValueModel) -> Seq<Seq<FragmentModel>>
    decreases value,
{
    match value {
        ValueModel::List(items) => Seq::new(
            items.len(),
            |i: int|
                if 0 <= i < items.len() {
                    render_value_with(items[i], value_renderings(items[i]))
                } else {
                    Seq::empty()
                },
        ),
        _ => Seq::empty(),
    }
}

/// The rendering of a value whose items, where it is a list, are rendered as
/// `items`.
pub open spec fn render_value_with(value: ValueModel, items: Seq<Seq<FragmentModel>>) -> Seq<
    FragmentModel,
> {
    match value {
        ValueModel::Bool(b) => seq![FragmentModel::Text(bool_text(b))],
        ValueModel::Integer(i) => seq![FragmentModel::Text(decimal(i as int))],
        ValueModel::Float(bits) => seq![FragmentModel::Float(bits)],
        ValueModel::List(_) => render_value_list(items),
        ValueModel::Func(func) => seq![FragmentModel::Text(func_text(func))],
    }
}

/// The rendering of a value: a scalar as that of the literal, a list as
/// [`render_value_list`] of its items, a function as [`func_text`]. A closure does
/// not show what it holds.
pub open spec fn render_value(value: ValueModel) -> Seq<FragmentModel> {
    render_value_with(value, value_renderings(value))
}

/// The renderings of a run of values.
pub open spec fn render_values(items: Seq<ValueModel>) -> Seq<Seq<FragmentModel>> {
    Seq::new(items.len(), |i: int| render_value(items[i]))
}

/// A list expression is rendered as the list of its items' renderings.
pub proof fn lemma_render_expr_list(items: Seq<ExprModel>)
    ensures
        render_expr(ExprModel::List(items)) == render_list(render_exprs(items)),
{
    let whole = ExprModel::List(items);
    assert(decreases_to!(whole => whole->List_0));
    assert forall|i: int| 0 <= i < items.len() implies decreases_to!(whole => #[trigger] items[i]) by {
        assert(decreases_to!(items => items[i]));
    }
    assert(item_renderings(whole) =~= render_exprs(items));
}

/// A list value is rendered as the list of its items' renderings.
pub proof fn lemma_render_value_list(items: Seq<ValueModel>)
    ensures
        render_value(ValueModel::List(items)) == render_value_list(render_values(items)),
{
    let whole = ValueModel::List(items);
    assert(decreases_to!(whole => whole->List_0));
    assert forall|i: int| 0 <= i < items.len() implies decreases_to!(whole => #[trigger] items[i]) by {
        assert(decreases_to!(items => items[i]));
    }
    assert(value_renderings(whole) =~= render_values(items));
}

/// A list value is rendered with spaces between its items only: the empty
/// list is a pair of brackets, a list of one item is the item between
/// brackets, and one more item adds a space and the item before the closing
/// bracket.
pub proof fn law_list_value_separated(items: Seq<ValueModel>, last: ValueModel)
    ensures
        render_value(ValueModel::List(Seq::empty())) == seq![
            FragmentModel::Text("("@),
            FragmentModel::Text(")"@),
        ],
        render_value(ValueModel::List(seq![last])) == seq![FragmentModel::Text("("@)]
            + render_value(last) + seq![FragmentModel::Text(")"@)],
        items.len() > 0 ==> render_value(ValueModel::List(items.push(last))) == render_value(
            ValueModel::List(items),
        ).drop_last() + seq![FragmentModel::Text(" "@)] + render_value(last) + seq![
            FragmentModel::Text(")"@),
        ],
{
    let open = seq![FragmentModel::Text("("@)];
    let close = seq![FragmentModel::Text(")"@)];
    let none = Seq::<ValueModel>::empty();
    lemma_render_value_list(none);
    assert(render_values(none) =~= Seq::<Seq<FragmentModel>>::empty());
    assert(open + render_separated(render_values(none)) + close =~= seq![
        FragmentModel::Text("("@),
        FragmentModel::Text(")"@),
    ]);
    let one = seq![last];
    lemma_render_value_list(one);
    assert(render_values(one).last() == render_value(last));
    if items.len() > 0 {
        let more = items.push(last);
        lemma_render_value_list(items);
        lemma_render_value_list(more);
        assert(render_values(more).drop_last() =~= render_values(items));
        assert(render_values(more).last() == render_value(last));
        let inner = render_separated(render_values(items));
        assert((open + inner + close).drop_last() =~= open + inner);
        assert(open + (inner + seq![FragmentModel::Text(" "@)] + render_value(last)) + close
            =~= open + inner + seq![FragmentModel::Text(" "@)] + render_value(last) + close);
    }
}

fn digit_text(digit: u64) -> (text: &'static str)
    requires
        digit < 10,
    ensures
        text@ == seq![digit_char(digit as nat)],
{
    proof {
        reveal_strlit("0");
        reveal_strlit("1");
        reveal_strlit("2");
        reveal_strlit("3");
        reveal_strlit("4");
        reveal_strlit("5");
        reveal_strlit("6");
        reveal_strlit("7");
        reveal_strlit("8");
        reveal_strlit("9");
    }
    let text = match digit {
        0 => "0",
        1 => "1",
        2 => "2",
        3 => "3",
        4 => "4",
        5 => "5",
        6 => "6",
        7 => "7",
        8 => "8",
        _ => "9",
    };
    assert(text@ =~= seq![digit_char(digit as nat)]);
    text
}

fn push_digits(n: u64, text: &mut String)
    ensures
        final(text)@ == old(text)@ + digits(n as nat),
    decreases n,
{
    if n >= 10 {
        push_digits(n / 10, text);
    }
    text.append(digit_text(n % 10));
    assert(text@ =~= old(text)@ + digits(n as nat));
}

/// The decimal text of an integer.
pub fn decimal_text(i: i64) -> (text: String)
    ensures
        text@ == decimal(i as int),
{
    let mut text = String::new();
    if i < 0 {
        proof {
            reveal_strlit("-");
        }
        text.append("-");
        let magnitude: u64 = ((-(i + 1)) as u64) + 1;
        push_digits(magnitude, &mut text);
        assert(text@ =~= decimal(i as int));
    } else {
        push_digits(i as u64, &mut text);
        assert(text@ =~= decimal(i as int));
    }
    text
}

fn bool_fragment(b: bool) -> (fragment: Fragment)
    ensures
        fragment@ == FragmentModel::Text(bool_text(b)),
{
    if b {
        Fragment::Text(String::from_str("true"))
    } else {
        Fragment::Text(String::from_str("false"))
    }
}

fn text_fragment(text: &str) -> (fragment: Fragment)
    ensures
        fragment@ == FragmentModel::Text(text@),
{
    Fragment::Text(String::from_str(text))
}

fn push_fragment(out: &mut Vec<Fragment>, fragment: Fragment)
    ensures
        fragment_views(final(out)@) == fragment_views(old(out)@) + seq![fragment@],
{
    out.push(fragment);
    assert(fragment_views(out@) =~= fragment_views(old(out)@) + seq![fragment@]);
}

impl Expr {
    /// The rendering of the expression.
    pub fn render(&self) -> (out: Vec<Fragment>)
        ensures
            fragment_views(out@) == render_expr(self@),
    {
        let mut out: Vec<Fragment> = Vec::new();
        self.render_into(&mut out);
        assert(fragment_views(out@) =~= render_expr(self@));
        out
    }

    /// Adds the rendering of the expression to `out`.
    pub fn render_into(&self, out: &mut Vec<Fragment>)
        ensures
            fragment_views(final(out)@) == fragment_views(old(out)@) + render_expr(self@),
        decreases self,
    {
        match self {
            Expr::Bool(b) => push_fragment(out, bool_fragment(*b)),
            Expr::Integer(i) => push_fragment(out, Fragment::Text(decimal_text(*i))),
            Expr::Float(bits) => push_fragment(out, Fragment::Float(*bits)),
            Expr::Symbol(name) => push_fragment(out, Fragment::Text(name.clone())),
            Expr::List(items) => {
                let ghost before = fragment_views(out@);
                let ghost rendered = render_exprs(expr_views(items@));
                proof {
                    lemma_list_view(*items);
                    lemma_render_expr_list(expr_views(items@));
                }
                push_fragment(out, text_fragment("("));
                let mut i: usize = 0;
                assert(rendered.take(0) =~= Seq::<Seq<FragmentModel>>::empty());
                while i < items.len()
                    invariant
                        i <= items.len(),
                        decreases_to!(*self => *items),
                        rendered == render_exprs(expr_views(items@)),
                        fragment_views(out@) == before + seq![FragmentModel::Text("("@)]
                            + render_items(rendered.take(i as int)),
                    decreases items.len() - i,
                {
                    proof {
                        assert(decreases_to!(*items => items[i as int]));
                        assert(rendered.take(i + 1).drop_last() =~= rendered.take(i as int));
                        assert(rendered.take(i + 1).last() == render_expr(items@[i as int]@));
                    }
                    items[i].render_into(out);
                    push_fragment(out, text_fragment(" "));
                    i += 1;
                    assert(fragment_views(out@) =~= before + seq![FragmentModel::Text("("@)]
                        + render_items(rendered.take(i as int)));
                }
                assert(rendered.take(i as int) =~= rendered);
                push_fragment(out, text_fragment(")"));
                assert(fragment_views(out@) =~= before + render_expr(self@));
            },
        }
    }
}

impl Script {
    /// The rendering of the script: those of its expressions, one after the
    /// other.
    pub fn render(&self) -> (out: Vec<Fragment>)
        ensures
            fragment_views(out@) == render_all(render_exprs(self@)),
    {
        let mut out: Vec<Fragment> = Vec::new();
        let ghost rendered = render_exprs(self@);
        let mut i: usize = 0;
        assert(rendered.take(0) =~= Seq::<Seq<FragmentModel>>::empty());
        assert(fragment_views(out@) =~= render_all(rendered.take(0)));
        while i < self.0.len()
            invariant
                i <= self.0.len(),
                rendered == render_exprs(self@),
                fragment_views(out@) == render_all(rendered.take(i as int)),
            decreases self.0.len() - i,
        {
            proof {
                assert(rendered.take(i + 1).drop_last() =~= rendered.take(i as int));
                assert(rendered.take(i + 1).last() == render_expr(self.0@[i as int]@));
            }
            self.0[i].render_into(&mut out);
            i += 1;
        }
        assert(rendered.take(i as int) =~= rendered);
        out
    }
}

impl Func {
    /// The text of the function value.
    pub fn text(&self) -> (text: String)
        ensures
            text@ == func_text(self@),
    {
        match self {
            Func::BuiltIn(op) => {
                let mut text = String::from_str("<built-in function '");
                text.append(op.tag());
                text.append("'>");
                text
            },
            Func::UserDefined { .. } => String::from_str("function"),
        }
    }
}

impl Value {
    /// The rendering of the value.
    pub fn render(&self) -> (out: Vec<Fragment>)
        ensures
            fragment_views(out@) == render_value(self@),
    {
        let mut out: Vec<Fragment> = Vec::new();
        self.render_into(&mut out);
        assert(fragment_views(out@) =~= render_value(self@));
        out
    }

    /// Adds the rendering of the value to `out`.
    pub fn render_into(&self, out: &mut Vec<Fragment>)
        ensures
            fragment_views(final(out)@) == fragment_views(old(out)@) + render_value(self@),
        decreases self,
    {
        match self {
            Value::Bool(b) => push_fragment(out, bool_fragment(*b)),
            Value::Integer(i) => push_fragment(out, Fragment::Text(decimal_text(*i))),
            Value::Float(bits) => push_fragment(out, Fragment::Float(*bits)),
            Value::Func(func) => push_fragment(out, Fragment::Text(func.text())),
            Value::List(items) => {
                let ghost before = fragment_views(out@);
                let ghost rendered = render_values(value_views(items@));
                proof {
                    lemma_list_value_view(*items);
                    lemma_render_value_list(value_views(items@));
                }
                push_fragment(out, text_fragment("("));
                let mut i: usize = 0;
                assert(rendered.take(0) =~= Seq::<Seq<FragmentModel>>::empty());
                while i < items.len()
                    invariant
                        i <= items.len(),
                        decreases_to!(*self => *items),
                        rendered == render_values(value_views(items@)),
                        fragment_views(out@) == before + seq![FragmentModel::Text("("@)]
                            + render_separated(rendered.take(i as int)),
                    decreases items.len() - i,
                {
                    proof {
                        assert(decreases_to!(*items => items[i as int]));
                        assert(rendered.take(i + 1).drop_last() =~= rendered.take(i as int));
                        assert(rendered.take(i + 1).last() == render_value(items@[i as int]@));
                    }
                    if i > 0 {
                        push_fragment(out, text_fragment(" "));
                    }
                    items[i].render_into(out);
                    i += 1;
                    assert(fragment_views(out@) =~= before + seq![FragmentModel::Text("("@)]
                        + render_separated(rendered.take(i as int)));
                }
                assert(rendered.take(i as int) =~= rendered);
                push_fragment(out, text_fragment(")"));
                assert(fragment_views(out@) =~= before + render_value(self@));
            },
        }
    }
}

/// The name of a form.
pub open spec fn form_text(form: Form) -> Seq<char> {
    match form {
        Form::BuiltIn(op) => op.symbol(),
        Form::Closure => "function"@,
    }
}

/// The words for a number of operands.
pub open spec fn arity_text(arity: Arity) -> Seq<char> {
    match arity {
        Arity::Exactly(n) => digits(n as nat),
        Arity::AtLeast(n) => "at least "@ + digits(n as nat),
    }
}

/// The words for a kind of value.
pub open spec fn kind_text(kind: Kind) -> Seq<char> {
    match kind {
        Kind::Bool => "a boolean"@,
        Kind::Integer => "an integer"@,
        Kind::Float => "a float"@,
        Kind::Number => "a number"@,
        Kind::Scalar => "a boolean or a number"@,
    }
}

/// The words for what is wrong with a special form.
pub open spec fn reason_text(reason: Reason) -> Seq<char> {
    match reason {
        Reason::NameNotSymbol => "First argument to 'def' must be a symbol"@,
        Reason::ParamsNotList => "First argument to 'fn' must be a list"@,
        Reason::ParamNotSymbol => "Every parameter of 'fn' must be a symbol"@,
    }
}

/// The words for a fault.
pub open spec fn fault_text(fault: Fault) -> Seq<char> {
    match fault {
        Fault::DepthExhausted => "Applications are nested too deep"@,
        Fault::DivisionByZero => "Division by zero"@,
        Fault::IntegerOverflow => "Integer overflow"@,
    }
}

/// The message for an error: the values that it holds are rendered as
/// [`render_value`] renders them.
pub open spec fn render_error(error: EvalErrorModel) -> Seq<FragmentModel> {
    match error {
        EvalErrorModel::UnknownSymbol(name) => seq![
            FragmentModel::Text("Unknown symbol '"@ + name + "'"@),
        ],
        EvalErrorModel::NotAFunction(value) => render_value(value) + seq![
            FragmentModel::Text(" is not a function"@),
        ],
        EvalErrorModel::EmptyApplication => seq![FragmentModel::Text("List cannot be empty"@)],
        EvalErrorModel::ArityMismatch { form, expected, actual } => seq![
            FragmentModel::Text(
                "'"@ + form_text(form) + "' takes "@ + arity_text(expected) + " operands, not "@
                    + digits(actual as nat),
            ),
        ],
        EvalErrorModel::TypeMismatch { form, expected, found } => seq![
            FragmentModel::Text("'"@ + form_text(form) + "' needs "@ + kind_text(expected) + ", not '"@),
        ] + render_value(found) + seq![FragmentModel::Text("'"@)],
        EvalErrorModel::MalformedSpecialForm { form, reason } => seq![
            FragmentModel::Text(reason_text(reason)),
        ],
    }
}

/// The message for a failure.
pub open spec fn render_failure(failure: FailureModel) -> Seq<FragmentModel> {
    match failure {
        FailureModel::Error(error) => render_error(error),
        FailureModel::Fault(fault) => seq![FragmentModel::Text(fault_text(fault))],
    }
}

/// The words for a text that is not a script.
pub open spec fn read_error_text(error: ReadError) -> Seq<char> {
    match error {
        ReadError::UnexpectedClose => "Closing bracket without an opening one"@,
        ReadError::UnclosedList => "The text ends inside a list"@,
        ReadError::IntegerOutOfRange => "Integer does not fit in 64 bits"@,
        ReadError::FloatTooLong => "Float is too long"@,
        ReadError::NotOneExpression => "Expected one expression"@,
    }
}

impl Form {
    /// The name of the form.
    pub fn name(self) -> (name: &'static str)
        ensures
            name@ == form_text(self),
    {
        match self {
            Form::BuiltIn(op) => op.name(),
            Form::Closure => "function",
        }
    }
}

impl Kind {
    /// The words for the kind.
    pub fn words(self) -> (words: &'static str)
        ensures
            words@ == kind_text(self),
    {
        match self {
            Kind::Bool => "a boolean",
            Kind::Integer => "an integer",
            Kind::Float => "a float",
            Kind::Number => "a number",
            Kind::Scalar => "a boolean or a number",
        }
    }
}

impl Reason {
    /// The words for the reason.
    pub fn words(self) -> (words: &'static str)
        ensures
            words@ == reason_text(self),
    {
        match self {
            Reason::NameNotSymbol => "First argument to 'def' must be a symbol",
            Reason::ParamsNotList => "First argument to 'fn' must be a list",
            Reason::ParamNotSymbol => "Every parameter of 'fn' must be a symbol",
        }
    }
}

impl Fault {
    /// The words for the fault.
    pub fn words(self) -> (words: &'static str)
        ensures
            words@ == fault_text(self),
    {
        match self {
            Fault::DepthExhausted => "Applications are nested too deep",
            Fault::DivisionByZero => "Division by zero",
            Fault::IntegerOverflow => "Integer overflow",
        }
    }
}

impl ReadError {
    /// The words for the error.
    pub fn words(self) -> (words: &'static str)
        ensures
            words@ == read_error_text(self),
    {
        match self {
            ReadError::UnexpectedClose => "Closing bracket without an opening one",
            ReadError::UnclosedList => "The text ends inside a list",
            ReadError::IntegerOutOfRange => "Integer does not fit in 64 bits",
            ReadError::FloatTooLong => "Float is too long",
            ReadError::NotOneExpression => "Expected one expression",
        }
    }
}

fn push_arity(arity: Arity, text: &mut String)
    ensures
        final(text)@ == old(text)@ + arity_text(arity),
{
    match arity {
        Arity::Exactly(n) => {
            push_digits(n as u64, text);
        },
        Arity::AtLeast(n) => {
            text.append("at least ");
            push_digits(n as u64, text);
            assert(text@ =~= old(text)@ + arity_text(arity));
        },
    }
}

impl EvalError {
    /// The message for the error.
    pub fn render(&self) -> (out: Vec<Fragment>)
        ensures
            fragment_views(out@) == render_error(self@),
    {
        let mut out: Vec<Fragment> = Vec::new();
        assert(fragment_views(out@) =~= Seq::<FragmentModel>::empty());
        match self {
            EvalError::UnknownSymbol(name) => {
                let mut text = String::from_str("Unknown symbol '");
                text.append(name.as_str());
                text.append("'");
                push_fragment(&mut out, Fragment::Text(text));
            },
            EvalError::NotAFunction(value) => {
                value.render_into(&mut out);
                push_fragment(&mut out, text_fragment(" is not a function"));
            },
            EvalError::EmptyApplication => {
                push_fragment(&mut out, text_fragment("List cannot be empty"));
            },
            EvalError::ArityMismatch { form, expected, actual } => {
                let mut text = String::from_str("'");
                text.append(form.name());
                text.append("' takes ");
                push_arity(*expected, &mut text);
                text.append(" operands, not ");
                push_digits(*actual as u64, &mut text);
                push_fragment(&mut out, Fragment::Text(text));
            },
            EvalError::TypeMismatch { form, expected, found } => {
                let mut text = String::from_str("'");
                text.append(form.name());
                text.append("' needs ");
                text.append(expected.words());
                text.append(", not '");
                push_fragment(&mut out, Fragment::Text(text));
                found.render_into(&mut out);
                push_fragment(&mut out, text_fragment("'"));
            },
            EvalError::MalformedSpecialForm { form, reason } => {
                push_fragment(&mut out, text_fragment(reason.words()));
            },
        }
        assert(fragment_views(out@) =~= render_error(self@));
        out
    }
}

impl Failure {
    /// The message for the failure.
    pub fn render(&self) -> (out: Vec<Fragment>)
        ensures
            fragment_views(out@) == render_failure(self@),
    {
        match self {
            Failure::Error(error) => error.render(),
            Failure::Fault(fault) => {
                let mut out: Vec<Fragment> = Vec::new();
                push_fragment(&mut out, text_fragment(fault.words()));
                assert(fragment_views(out@) =~= render_failure(self@));
                out
            },
        }
    }
}

} // verus!
