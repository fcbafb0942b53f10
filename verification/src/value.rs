//! Run-time values: what evaluation yields and what an environment binds.

use crate::ast::{expr_model, Expr, ExprModel, Symbol};
use std::rc::Rc;
use vstd::prelude::*;

verus! {

/// The native operations. Each receives its operands unevaluated, together
/// with the environment of the call, and decides itself which of them to
/// evaluate and in which order.
#[derive(Clone, Copy, Debug, PartialEq, Eq, Structural)]
pub enum Builtin {
    /// `def`: binds a symbol in the current environment.
    Def,
    /// `fn`: makes a closure.
    Fn,
    /// `if`: evaluates one of two branches.
    If,
    /// `=`: equality of scalars of one type.
    Equals,
    /// `+`
    Add,
    /// `-`
    Sub,
    /// `*`
    Mul,
    /// `/`
    Div,
    /// `<`: strict order of two numbers of one type.
    LessThan,
}

/// A function value.
#[derive(Debug, PartialEq, Eq)]
pub enum Func {
    BuiltIn(Builtin),
    /// A closure: parameter names, a body, and the frame in which `fn` made it.
    /// A call binds the arguments in a fresh frame whose outer link is `scope`.
    UserDefined { params: Rc<Vec<Symbol>>, body: Rc<Expr>, scope: usize },
}

/// A run-time value. A float is held as the bits of its binary64 number.
#[derive(Debug, PartialEq, Eq)]
pub enum Value {
    Bool(bool),
    Integer(i64),
    Float(u64),
    /// A list of values. No native operation makes one yet.
    List(Vec<Value>),
    Func(Func),
}

/// The mathematical model of a [`Func`].
pub enum FuncModel {
    BuiltIn(Builtin),
    UserDefined { params: Seq<Seq<char>>, body: ExprModel, scope: nat },
}

/// The mathematical model of a [`Value`].
pub enum ValueModel {
    Bool(bool),
    Integer(i64),
    Float(u64),
    List(Seq<ValueModel>),
    Func(FuncModel),
}

/// The models of a run of names.
pub open spec fn symbol_views(names: Seq<Symbol>) -> Seq<Seq<char>> {
    Seq::new(names.len(), |i: int| names[i]@)
}

impl View for Func {
    type V = FuncModel;

    open spec fn view(&self) -> FuncModel {
        match self {
            Func::BuiltIn(op) => FuncModel::BuiltIn(*op),
            Func::UserDefined { params, body, scope } => FuncModel::UserDefined {
                params: symbol_views((**params)@),
                body: expr_model(**body),
                scope: *scope as nat,
            },
        }
    }
}

/// The model of a value, by recursion on its structure.
pub open spec fn value_model(value: Value) -> ValueModel
    decreases value,
{
    match value {
        Value::Bool(b) => ValueModel::Bool(b),
        Value::Integer(i) => ValueModel::Integer(i),
        Value::Float(bits) => ValueModel::Float(bits),
        Value::List(items) => ValueModel::List(
            Seq::new(
                items@.len(),
                |i: int|
                    if 0 <= i < items@.len() {
                        value_model(items@[i])
                    } else {
                        ValueModel::Bool(false)
                    },
            ),
        ),
        Value::Func(func) => ValueModel::Func(func@),
    }
}

impl View for Value {
    type V = ValueModel;

    open spec fn view(&self) -> ValueModel {
        value_model(*self)
    }
}

/// The models of a run of values, item by item.
pub open spec fn value_views(items: Seq<Value>) -> Seq<ValueModel> {
    Seq::new(items.len(), |i: int| items[i]@)
}

/// The model of a list value is the list of its items' models.
pub proof fn lemma_list_value_view(items: Vec<Value>)
    ensures
        Value::List(items)@ == ValueModel::List(value_views(items@)),
{
    assert(Value::List(items)@->List_0 =~= value_views(items@));
}

impl ValueModel {
    /// Every closure inside the value was made in a frame below `bound`.
    pub open spec fn scopes_below(self, bound: nat) -> bool
        decreases self,
    {
        match self {
            ValueModel::List(items) => forall|i: int|
                0 <= i < items.len() ==> (#[trigger] items[i]).scopes_below(bound),
            ValueModel::Func(FuncModel::UserDefined { scope, .. }) => scope < bound,
            _ => true,
        }
    }
}

/// A list keeps below `bound` exactly when each of its items does.
pub proof fn lemma_list_scopes_below(items: Seq<ValueModel>, bound: nat)
    ensures
        ValueModel::List(items).scopes_below(bound) <==> forall|i: int|
            0 <= i < items.len() ==> (#[trigger] items[i]).scopes_below(bound),
{
    let whole = ValueModel::List(items);
    assert(decreases_to!(whole => whole->List_0));
    assert forall|i: int| 0 <= i < items.len() implies decreases_to!(whole => #[trigger] items[i]) by {
        assert(decreases_to!(items => items[i]));
    }
}

impl Builtin {
    /// The name under which the default environment binds the operation.
    pub open spec fn symbol(self) -> Seq<char> {
        match self {
            Builtin::Def => "def"@,
            Builtin::Fn => "fn"@,
            Builtin::If => "if"@,
            Builtin::Equals => "="@,
            Builtin::Add => "+"@,
            Builtin::Sub => "-"@,
            Builtin::Mul => "*"@,
            Builtin::Div => "/"@,
            Builtin::LessThan => "<"@,
        }
    }

    /// The name under which the default environment binds the operation.
    pub fn name(self) -> (name: &'static str)
        ensures
            name@ == self.symbol(),
    {
        match self {
            Builtin::Def => "def",
            Builtin::Fn => "fn",
            Builtin::If => "if",
            Builtin::Equals => "=",
            Builtin::Add => "+",
            Builtin::Sub => "-",
            Builtin::Mul => "*",
            Builtin::Div => "/",
            Builtin::LessThan => "<",
        }
    }
}

impl Clone for Func {
    fn clone(&self) -> (copy: Func)
        ensures
            copy@ == self@,
    {
        match self {
            Func::BuiltIn(op) => Func::BuiltIn(*op),
            Func::UserDefined { params, body, scope } => Func::UserDefined {
                params: params.clone(),
                body: body.clone(),
                scope: *scope,
            },
        }
    }
}

impl Clone for Value {
    fn clone(&self) -> (copy: Value)
        ensures
            copy@ == self@,
        decreases self,
    {
        match self {
            Value::Bool(b) => Value::Bool(*b),
            Value::Integer(i) => Value::Integer(*i),
            Value::Float(bits) => Value::Float(*bits),
            Value::List(items) => {
                let mut copy: Vec<Value> = Vec::new();
                let mut i: usize = 0;
                while i < items.len()
                    invariant
                        i <= items.len(),
                        copy.len() == i,
                        decreases_to!(*self => *items),
                        forall|j: int| 0 <= j < i ==> copy@[j]@ == items@[j]@,
                    decreases items.len() - i,
                {
                    proof {
                        assert(decreases_to!(*items => items[i as int]));
                    }
                    copy.push(items[i].clone());
                    i += 1;
                }
                proof {
                    lemma_list_value_view(*items);
                    lemma_list_value_view(copy);
                    assert(value_views(copy@) =~= value_views(items@));
                }
                Value::List(copy)
            },
            Value::Func(func) => Value::Func(func.clone()),
        }
    }
}

impl Value {
    /// Whether every closure inside the value was made in a frame below `bound`.
    pub fn scopes_below(&self, bound: usize) -> (below: bool)
        ensures
            below == self@.scopes_below(bound as nat),
        decreases self,
    {
        match self {
            Value::List(items) => {
                let mut i: usize = 0;
                while i < items.len()
                    invariant
                        i <= items.len(),
                        decreases_to!(*self => *items),
                        *self == Value::List(*items),
                        forall|j: int| 0 <= j < i ==> (#[trigger] items@[j]@).scopes_below(bound as nat),
                    decreases items.len() - i,
                {
                    proof {
                        assert(decreases_to!(*items => items[i as int]));
                    }
                    if !items[i].scopes_below(bound) {
                        proof {
                            lemma_list_value_view(*items);
                            lemma_list_scopes_below(value_views(items@), bound as nat);
                            assert(value_views(items@)[i as int] == items@[i as int]@);
                        }
                        return false;
                    }
                    i += 1;
                }
                proof {
                    lemma_list_value_view(*items);
                    lemma_list_scopes_below(value_views(items@), bound as nat);
                    assert forall|j: int| 0 <= j < value_views(items@).len() implies (
                    #[trigger] value_views(items@)[j]).scopes_below(bound as nat) by {
                        assert(value_views(items@)[j] == items@[j]@);
                    }
                }
                true
            },
            Value::Func(Func::UserDefined { scope, .. }) => *scope < bound,
            _ => true,
        }
    }
}

} // verus!
