//! The expression tree: what a reader hands to the evaluator.

use vstd::prelude::*;

verus! {

/// The name under which a value is bound.
pub type Symbol = String;

/// One expression.
///
/// A floating-point literal is held as the bit pattern of its IEEE-754
/// binary64 number, so that two literals are the same expression exactly when
/// their bits agree.
#[derive(Debug, PartialEq, Eq)]
pub enum Expr {
    Bool(bool),
    Integer(i64),
    Float(u64),
    Symbol(Symbol),
    /// An application: the first item is the operator, the others its operands.
    /// The empty list is a well-formed expression that cannot be evaluated.
    List(Vec<Expr>),
}

/// A sequence of expressions, as read from one source text.
#[derive(Debug, PartialEq, Eq)]
pub struct Script(pub Vec<Expr>);

/// The mathematical model of an [`Expr`].
pub enum ExprModel {
    Bool(bool),
    Integer(i64),
    Float(u64),
    Symbol(Seq<char>),
    List(Seq<ExprModel>),
}

/// The model of an expression, by recursion on its structure.
pub open spec fn expr_model(expr: Expr) -> ExprModel
    decreases expr,
{
    match expr {
        Expr::Bool(b) => ExprModel::Bool(b),
        Expr::Integer(i) => ExprModel::Integer(i),
        Expr::Float(bits) => ExprModel::Float(bits),
        Expr::Symbol(name) => ExprModel::Symbol(name@),
        Expr::List(items) => ExprModel::List(
            Seq::new(
                items@.len(),
                |i: int|
                    if 0 <= i < items@.len() {
                        expr_model(items@[i])
                    } else {
                        ExprModel::Bool(false)
                    },
            ),
        ),
    }
}

impl View for Expr {
    type V = ExprModel;

    open spec fn view(&self) -> ExprModel {
        expr_model(*self)
    }
}

/// The models of a run of expressions, item by item.
pub open spec fn expr_views(items: Seq<Expr>) -> Seq<ExprModel> {
    Seq::new(items.len(), |i: int| items[i]@)
}

impl View for Script {
    type V = Seq<ExprModel>;

    open spec fn view(&self) -> Seq<ExprModel> {
        expr_views(self.0@)
    }
}

/// The model of a list is the list of its items' models.
pub proof fn lemma_list_view(items: Vec<Expr>)
    ensures
        Expr::List(items)@ == ExprModel::List(expr_views(items@)),
{
    assert(Expr::List(items)@->List_0 =~= expr_views(items@));
}

/// Copies a run of expressions.
pub fn clone_exprs(items: &[Expr]) -> (copy: Vec<Expr>)
    ensures
        expr_views(copy@) == expr_views(items@),
{
    let mut copy: Vec<Expr> = Vec::new();
    let mut i: usize = 0;
    while i < items.len()
        invariant
            i <= items.len(),
            copy.len() == i,
            forall|j: int| 0 <= j < i ==> copy@[j]@ == items@[j]@,
        decreases items.len() - i,
    {
        copy.push(items[i].clone());
        i += 1;
    }
    assert(expr_views(copy@) =~= expr_views(items@));
    copy
}

impl Clone for Expr {
    fn clone(&self) -> (copy: Expr)
        ensures
            copy@ == self@,
        decreases self,
    {
        match self {
            Expr::Bool(b) => Expr::Bool(*b),
            Expr::Integer(i) => Expr::Integer(*i),
            Expr::Float(bits) => Expr::Float(*bits),
            Expr::Symbol(name) => Expr::Symbol(name.clone()),
            Expr::List(items) => {
                let mut copy: Vec<Expr> = Vec::new();
                let mut i: usize = 0;
                while i < items.len()
                    invariant
                        i <= items.len(),
                        copy.len() == i,
                        decreases_to!(*self => *items),
                        forall|j: int| 0 <= j < i ==> copy@[j]@ == items@[j]@,
                    decreases items.len() - i,
                {
                    proof {
                        assert(decreases_to!(*items => items[i as int]));
                    }
                    copy.push(items[i].clone());
                    i += 1;
                }
                proof {
                    lemma_list_view(*items);
                    lemma_list_view(copy);
                    assert(expr_views(copy@) =~= expr_views(items@));
                }
                Expr::List(copy)
            },
        }
    }
}

impl Clone for Script {
    fn clone(&self) -> (copy: Script)
        ensures
            copy@ == self@,
    {
        Script(clone_exprs(self.0.as_slice()))
    }
}

} // verus!
