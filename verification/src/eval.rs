//! The evaluator.
//!
//! Evaluation is specified by [`eval_spec`], a function from an environment,
//! a frame, an expression and a depth to the environment afterwards and what
//! was yielded. [`Env::eval`] computes exactly that.
//!
//! Scoping is lexical. A closure remembers the frame in which `fn` made it; a
//! call evaluates the operands in the caller's frame, binds them in a fresh
//! frame linked to the remembered one, and evaluates the body there. The frame
//! is shared, not copied: a binding added to it after the closure was made is
//! seen by the body, which is what lets a function call itself by name.
//!
//! Applications may nest to the depth that the environment allows. Literals
//! and symbols need no depth; an application needs one level more than its
//! operator, its operands and, where it is a call, the body.

pub use crate::env::Env;
pub use crate::value::{Func, Value};

use crate::ast::{expr_views, lemma_list_view, Expr, ExprModel, Symbol};
use crate::env::EnvModel;
use crate::error::{
    outcome_model, Arity, EvalError, EvalErrorModel, Failure, FailureModel, Fault, Form, Kind,
    Outcome, Reason,
};
use crate::footprint::lemma_body_keeps;
use crate::number::{
    float_arith, float_below, float_equal, float_less, float_result, floats_equal, int_arith,
    int_result, ArithOp,
};
use crate::soundness::{law_eval_sound, sound_step};
use crate::value::{symbol_views, value_views, Builtin, FuncModel, ValueModel};
use std::rc::Rc;
use vstd::prelude::*;

verus! {

/// The environment after an evaluation, and what the evaluation yielded.
pub struct Step {
    pub env: EnvModel,
    pub outcome: Outcome,
}

/// The environment after the evaluation of operands, and their values.
pub struct ArgsStep {
    pub env: EnvModel,
    pub outcome: Result<Seq<ValueModel>, FailureModel>,
}

/// The evaluation yields `value`.
pub open spec fn done(env: EnvModel, value: ValueModel) -> Step {
    Step { env, outcome: Ok(value) }
}

/// The evaluation fails with `error`.
pub open spec fn fail(env: EnvModel, error: EvalErrorModel) -> Step {
    Step { env, outcome: Err(FailureModel::Error(error)) }
}

/// The evaluation stops on `failure`.
pub open spec fn stop(env: EnvModel, failure: FailureModel) -> Step {
    Step { env, outcome: Err(failure) }
}

impl Builtin {
    /// The arithmetic operation that the native operation stands for, if any.
    pub open spec fn arith_spec(self) -> Option<ArithOp> {
        match self {
            Builtin::Add => Some(ArithOp::Add),
            Builtin::Sub => Some(ArithOp::Sub),
            Builtin::Mul => Some(ArithOp::Mul),
            Builtin::Div => Some(ArithOp::Div),
            _ => None,
        }
    }

    /// How many operands the operation takes.
    pub open spec fn arity_spec(self) -> Arity {
        match self {
            Builtin::Def => Arity::Exactly(2),
            Builtin::Fn => Arity::Exactly(2),
            Builtin::If => Arity::Exactly(3),
            Builtin::Equals => Arity::AtLeast(2),
            Builtin::LessThan => Arity::Exactly(2),
            _ => Arity::AtLeast(1),
        }
    }

    /// The arithmetic operation that the native operation stands for, if any.
    pub fn arith(self) -> (op: Option<ArithOp>)
        ensures
            op == self.arith_spec(),
    {
        match self {
            Builtin::Add => Some(ArithOp::Add),
            Builtin::Sub => Some(ArithOp::Sub),
            Builtin::Mul => Some(ArithOp::Mul),
            Builtin::Div => Some(ArithOp::Div),
            _ => None,
        }
    }

    /// How many operands the operation takes.
    pub fn arity(self) -> (arity: Arity)
        ensures
            arity == self.arity_spec(),
    {
        match self {
            Builtin::Def => Arity::Exactly(2),
            Builtin::Fn => Arity::Exactly(2),
            Builtin::If => Arity::Exactly(3),
            Builtin::Equals => Arity::AtLeast(2),
            Builtin::LessThan => Arity::Exactly(2),
            _ => Arity::AtLeast(1),
        }
    }
}

impl Arity {
    /// `count` operands are as many as the form takes.
    pub open spec fn admits(self, count: nat) -> bool {
        match self {
            Arity::Exactly(n) => count == n,
            Arity::AtLeast(n) => count >= n,
        }
    }

    /// Whether `count` operands are as many as the form takes.
    pub fn accepts(self, count: usize) -> (ok: bool)
        ensures
            ok == self.admits(count as nat),
    {
        match self {
            Arity::Exactly(n) => count == n,
            Arity::AtLeast(n) => count >= n,
        }
    }
}

/// The failure of a form that was given `count` operands.
pub open spec fn arity_error(form: Form, expected: Arity, count: nat) -> EvalErrorModel {
    EvalErrorModel::ArityMismatch { form, expected, actual: count as usize }
}

/// The failure of a form that met `found` where it asked for a value of the
/// kind `expected`.
pub open spec fn type_error(op: Builtin, expected: Kind, found: ValueModel) -> FailureModel {
    FailureModel::Error(EvalErrorModel::TypeMismatch { form: Form::BuiltIn(op), expected, found })
}

impl ValueModel {
    /// The kind of a boolean, an integer or a float; for any other value, the
    /// kind that they share.
    pub open spec fn kind(self) -> Kind {
        match self {
            ValueModel::Bool(_) => Kind::Bool,
            ValueModel::Integer(_) => Kind::Integer,
            ValueModel::Float(_) => Kind::Float,
            _ => Kind::Scalar,
        }
    }
}

/// What a strict operation makes of its first operand: the running result
/// with which it goes through the others, or a failure.
pub open spec fn start_spec(op: Builtin, first: ValueModel) -> Outcome {
    match op {
        Builtin::Equals => match first {
            ValueModel::Bool(_) | ValueModel::Integer(_) | ValueModel::Float(_) => Ok(
                ValueModel::Bool(true),
            ),
            _ => Err(type_error(op, Kind::Scalar, first)),
        },
        _ => match first {
            ValueModel::Integer(_) | ValueModel::Float(_) => Ok(first),
            _ => Err(type_error(op, Kind::Number, first)),
        },
    }
}

/// What a strict operation makes of one more operand `next`, given the first
/// operand and the running result `acc`.
pub open spec fn step_spec(op: Builtin, first: ValueModel, acc: ValueModel, next: ValueModel) -> Outcome {
    match op {
        Builtin::Equals => match (first, next) {
            (ValueModel::Bool(a), ValueModel::Bool(b)) => Ok(
                ValueModel::Bool(acc == ValueModel::Bool(true) && a == b),
            ),
            (ValueModel::Integer(a), ValueModel::Integer(b)) => Ok(
                ValueModel::Bool(acc == ValueModel::Bool(true) && a == b),
            ),
            (ValueModel::Float(a), ValueModel::Float(b)) => Ok(
                ValueModel::Bool(acc == ValueModel::Bool(true) && float_equal(a, b)),
            ),
            _ => Err(type_error(op, first.kind(), next)),
        },
        Builtin::LessThan => match (first, next) {
            (ValueModel::Integer(a), ValueModel::Integer(b)) => Ok(ValueModel::Bool(a < b)),
            (ValueModel::Float(a), ValueModel::Float(b)) => Ok(ValueModel::Bool(float_less(a, b))),
            _ => Err(type_error(op, first.kind(), next)),
        },
        _ => match (op.arith_spec(), acc, next) {
            (Some(arith), ValueModel::Integer(a), ValueModel::Integer(b)) => match int_result(
                arith,
                a,
                b,
            ) {
                Ok(n) => Ok(ValueModel::Integer(n)),
                Err(fault) => Err(FailureModel::Fault(fault)),
            },
            (Some(arith), ValueModel::Float(a), ValueModel::Float(b)) => Ok(
                ValueModel::Float(float_result(arith, a, b)),
            ),
            _ => Err(type_error(op, acc.kind(), next)),
        },
    }
}

/// The names of a parameter list, if every item of it is a symbol.
pub open spec fn param_names(params: Seq<ExprModel>) -> Option<Seq<Seq<char>>> {
    if forall|i: int| 0 <= i < params.len() ==> params[i] is Symbol {
        Some(Seq::new(params.len(), |i: int| params[i]->Symbol_0))
    } else {
        None
    }
}

/// What `fn` yields: a closure over the frame of the call. Nothing is
/// evaluated.
pub open spec fn closure_spec(env: EnvModel, frame: nat, args: Seq<ExprModel>) -> Step {
    if args.len() != 2 {
        fail(env, arity_error(Form::BuiltIn(Builtin::Fn), Arity::Exactly(2), args.len()))
    } else {
        match args[0] {
            ExprModel::List(params) => match param_names(params) {
                Some(names) => done(
                    env,
                    ValueModel::Func(
                        FuncModel::UserDefined { params: names, body: args[1], scope: frame },
                    ),
                ),
                None => fail(
                    env,
                    EvalErrorModel::MalformedSpecialForm {
                        form: Form::BuiltIn(Builtin::Fn),
                        reason: Reason::ParamNotSymbol,
                    },
                ),
            },
            _ => fail(
                env,
                EvalErrorModel::MalformedSpecialForm {
                    form: Form::BuiltIn(Builtin::Fn),
                    reason: Reason::ParamsNotList,
                },
            ),
        }
    }
}

/// What the evaluation of `expr` in `frame` yields, and the environment
/// afterwards, when applications may nest `depth` deep.
pub open spec fn eval_spec(env: EnvModel, frame: nat, expr: ExprModel, depth: nat) -> Step
    decreases depth, 0nat, 0nat,
{
    match expr {
        ExprModel::Bool(b) => done(env, ValueModel::Bool(b)),
        ExprModel::Integer(i) => done(env, ValueModel::Integer(i)),
        ExprModel::Float(bits) => done(env, ValueModel::Float(bits)),
        ExprModel::Symbol(name) => match env.lookup(frame, name) {
            Some(value) => done(env, value),
            None => fail(env, EvalErrorModel::UnknownSymbol(name)),
        },
        ExprModel::List(items) => if items.len() == 0 {
            fail(env, EvalErrorModel::EmptyApplication)
        } else if depth == 0 {
            stop(env, FailureModel::Fault(Fault::DepthExhausted))
        } else {
            let head = eval_spec(env, frame, items[0], (depth - 1) as nat);
            match head.outcome {
                Ok(ValueModel::Func(func)) => apply_spec(
                    head.env,
                    frame,
                    func,
                    items.skip(1),
                    (depth - 1) as nat,
                ),
                Ok(other) => fail(head.env, EvalErrorModel::NotAFunction(other)),
                Err(_) => head,
            }
        },
    }
}

/// What the application of `func` to the unevaluated operands `args` yields.
pub open spec fn apply_spec(
    env: EnvModel,
    frame: nat,
    func: FuncModel,
    args: Seq<ExprModel>,
    depth: nat,
) -> Step
    decreases depth, 3nat, 0nat,
{
    match func {
        FuncModel::BuiltIn(Builtin::Def) => def_spec(env, frame, args, depth),
        FuncModel::BuiltIn(Builtin::Fn) => closure_spec(env, frame, args),
        FuncModel::BuiltIn(Builtin::If) => if_spec(env, frame, args, depth),
        FuncModel::BuiltIn(op) => strict_spec(env, frame, op, args, depth),
        FuncModel::UserDefined { params, body, scope } => call_spec(
            env,
            frame,
            params,
            body,
            scope,
            args,
            depth,
        ),
    }
}

/// `def`: evaluates the second operand and binds the first, a symbol, to its
/// value in the frame of the call. Yields the integer 0.
pub open spec fn def_spec(env: EnvModel, frame: nat, args: Seq<ExprModel>, depth: nat) -> Step
    decreases depth, 1nat, 0nat,
{
    if args.len() != 2 {
        fail(env, arity_error(Form::BuiltIn(Builtin::Def), Arity::Exactly(2), args.len()))
    } else {
        match args[0] {
            ExprModel::Symbol(name) => {
                let bound = eval_spec(env, frame, args[1], depth);
                match bound.outcome {
                    Ok(value) => done(bound.env.insert(frame, name, value), ValueModel::Integer(0)),
                    Err(_) => bound,
                }
            },
            _ => fail(
                env,
                EvalErrorModel::MalformedSpecialForm {
                    form: Form::BuiltIn(Builtin::Def),
                    reason: Reason::NameNotSymbol,
                },
            ),
        }
    }
}

/// `if`: evaluates the first operand, which must yield a boolean, and then
/// the second if it is true, the third if not. The other branch is not
/// evaluated.
pub open spec fn if_spec(env: EnvModel, frame: nat, args: Seq<ExprModel>, depth: nat) -> Step
    decreases depth, 1nat, 0nat,
{
    if args.len() != 3 {
        fail(env, arity_error(Form::BuiltIn(Builtin::If), Arity::Exactly(3), args.len()))
    } else {
        let cond = eval_spec(env, frame, args[0], depth);
        match cond.outcome {
            Ok(ValueModel::Bool(true)) => eval_spec(cond.env, frame, args[1], depth),
            Ok(ValueModel::Bool(false)) => eval_spec(cond.env, frame, args[2], depth),
            Ok(other) => stop(cond.env, type_error(Builtin::If, Kind::Bool, other)),
            Err(_) => cond,
        }
    }
}

/// A strict operation (`=`, `<`, `+`, `-`, `*`, `/`): evaluates the operands
/// from left to right and takes each into the running result as soon as it is
/// evaluated, so that the first failure ends the evaluation.
pub open spec fn strict_spec(
    env: EnvModel,
    frame: nat,
    op: Builtin,
    args: Seq<ExprModel>,
    depth: nat,
) -> Step
    decreases depth, 2nat, 0nat,
{
    if !op.arity_spec().admits(args.len()) {
        fail(env, arity_error(Form::BuiltIn(op), op.arity_spec(), args.len()))
    } else {
        let first = eval_spec(env, frame, args[0], depth);
        match first.outcome {
            Ok(value) => match start_spec(op, value) {
                Ok(acc) => fold_spec(first.env, frame, op, value, acc, args.skip(1), depth),
                Err(failure) => stop(first.env, failure),
            },
            Err(_) => first,
        }
    }
}

/// The rest of a strict operation: the operands `rest` are still to be
/// evaluated, and `acc` is the running result of those before them.
pub open spec fn fold_spec(
    env: EnvModel,
    frame: nat,
    op: Builtin,
    first: ValueModel,
    acc: ValueModel,
    rest: Seq<ExprModel>,
    depth: nat,
) -> Step
    decreases depth, 1nat, rest.len(),
{
    if rest.len() == 0 {
        done(env, acc)
    } else {
        let next = eval_spec(env, frame, rest[0], depth);
        match next.outcome {
            Ok(value) => match step_spec(op, first, acc, value) {
                Ok(acc) => fold_spec(next.env, frame, op, first, acc, rest.skip(1), depth),
                Err(failure) => stop(next.env, failure),
            },
            Err(_) => next,
        }
    }
}

/// The operands of a call, evaluated from left to right in the caller's
/// frame. `values` are those of the operands before `rest`.
pub open spec fn args_spec(
    env: EnvModel,
    frame: nat,
    values: Seq<ValueModel>,
    rest: Seq<ExprModel>,
    depth: nat,
) -> ArgsStep
    decreases depth, 1nat, rest.len(),
{
    if rest.len() == 0 {
        ArgsStep { env, outcome: Ok(values) }
    } else {
        let next = eval_spec(env, frame, rest[0], depth);
        match next.outcome {
            Ok(value) => args_spec(next.env, frame, values.push(value), rest.skip(1), depth),
            Err(failure) => ArgsStep { env: next.env, outcome: Err(failure) },
        }
    }
}

/// The call of a closure. The operands are counted before any is evaluated.
/// The frame of the call, and those made during it, are kept only if the
/// value returned holds a closure made in one of them.
pub open spec fn call_spec(
    env: EnvModel,
    frame: nat,
    params: Seq<Seq<char>>,
    body: ExprModel,
    scope: nat,
    args: Seq<ExprModel>,
    depth: nat,
) -> Step
    decreases depth, 2nat, 0nat,
{
    if params.len() != args.len() {
        fail(env, arity_error(Form::Closure, Arity::Exactly(params.len() as usize), args.len()))
    } else {
        let operands = args_spec(env, frame, Seq::empty(), args, depth);
        match operands.outcome {
            Ok(values) => {
                let child = operands.env.frames.len();
                let entered = operands.env.child_of(scope).bind_all(child, params, values);
                let result = eval_spec(entered, child, body, depth);
                match result.outcome {
                    Ok(value) if !value.scopes_below(child) => result,
                    _ => Step { env: operands.env, outcome: result.outcome },
                }
            },
            Err(failure) => stop(operands.env, failure),
        }
    }
}

/// The model of what the evaluation of operands yields.
pub open spec fn values_model(outcome: Result<Vec<Value>, Failure>) -> Result<
    Seq<ValueModel>,
    FailureModel,
> {
    match outcome {
        Ok(values) => Ok(value_views(values@)),
        Err(failure) => Err(failure@),
    }
}

/// The operands of an application: its items but the first.
fn rest_of(items: &Vec<Expr>) -> (args: &[Expr])
    requires
        items@.len() > 0,
    ensures
        expr_views(args@) == expr_views(items@).skip(1),
{
    let all = items.as_slice();
    let args = &all[1..all.len()];
    assert(expr_views(args@) =~= expr_views(items@).skip(1));
    args
}

/// The names of a parameter list, if every item of it is a symbol.
fn names_of(params: &Vec<Expr>) -> (names: Option<Vec<Symbol>>)
    ensures
        match names {
            Some(names) => param_names(expr_views(params@)) == Some(symbol_views(names@)),
            None => param_names(expr_views(params@)) is None,
        },
{
    let mut names: Vec<Symbol> = Vec::new();
    let mut i: usize = 0;
    while i < params.len()
        invariant
            i <= params.len(),
            names.len() == i,
            forall|j: int| 0 <= j < i ==> params@[j]@ == ExprModel::Symbol(#[trigger] names@[j]@),
        decreases params.len() - i,
    {
        match &params[i] {
            Expr::Symbol(name) => {
                names.push(name.clone());
            },
            _ => {
                assert(!(expr_views(params@)[i as int] is Symbol));
                return None;
            },
        }
        i += 1;
    }
    proof {
        let views = expr_views(params@);
        assert forall|j: int| 0 <= j < views.len() implies views[j] is Symbol by {
            assert(params@[j]@ == ExprModel::Symbol(names@[j]@));
        }
        assert(param_names(views)->0 =~= symbol_views(names@)) by {
            assert forall|j: int| 0 <= j < views.len() implies views[j]->Symbol_0
                == symbol_views(names@)[j] by {
                assert(params@[j]@ == ExprModel::Symbol(names@[j]@));
            }
        }
    }
    Some(names)
}

impl Value {
    /// The kind of a boolean, an integer or a float; for any other value, the
    /// kind that they share.
    pub fn kind(&self) -> (kind: Kind)
        ensures
            kind == self@.kind(),
    {
        match self {
            Value::Bool(_) => Kind::Bool,
            Value::Integer(_) => Kind::Integer,
            Value::Float(_) => Kind::Float,
            _ => Kind::Scalar,
        }
    }
}

fn type_failure(op: Builtin, expected: Kind, found: Value) -> (failure: Failure)
    ensures
        failure@ == type_error(op, expected, found@),
{
    Failure::Error(EvalError::TypeMismatch { form: Form::BuiltIn(op), expected, found })
}

fn arity_failure(form: Form, expected: Arity, count: usize) -> (failure: Failure)
    ensures
        failure@ == FailureModel::Error(arity_error(form, expected, count as nat)),
{
    Failure::Error(EvalError::ArityMismatch { form, expected, actual: count })
}

/// What a strict operation makes of its first operand: the running result
/// with which it goes through the others, or a failure.
pub fn start(op: Builtin, first: &Value) -> (acc: Result<Value, Failure>)
    ensures
        outcome_model(acc) == start_spec(op, first@),
{
    match op {
        Builtin::Equals => match first {
            Value::Bool(_) | Value::Integer(_) | Value::Float(_) => Ok(Value::Bool(true)),
            _ => Err(type_failure(op, Kind::Scalar, first.clone())),
        },
        _ => match first {
            Value::Integer(_) | Value::Float(_) => Ok(first.clone()),
            _ => Err(type_failure(op, Kind::Number, first.clone())),
        },
    }
}

/// What a strict operation makes of one more operand `next`, given the first
/// operand and the running result `acc`.
pub fn step(op: Builtin, first: &Value, acc: Value, next: Value) -> (result: Result<Value, Failure>)
    ensures
        outcome_model(result) == step_spec(op, first@, acc@, next@),
{
    match op {
        Builtin::Equals => {
            let so_far = match acc {
                Value::Bool(true) => true,
                _ => false,
            };
            let same = match (first, &next) {
                (Value::Bool(a), Value::Bool(b)) => Some(*a == *b),
                (Value::Integer(a), Value::Integer(b)) => Some(*a == *b),
                (Value::Float(a), Value::Float(b)) => Some(floats_equal(*a, *b)),
                _ => None,
            };
            match same {
                Some(same) => Ok(Value::Bool(so_far && same)),
                None => Err(type_failure(op, first.kind(), next)),
            }
        },
        Builtin::LessThan => {
            let below = match (first, &next) {
                (Value::Integer(a), Value::Integer(b)) => Some(*a < *b),
                (Value::Float(a), Value::Float(b)) => Some(float_below(*a, *b)),
                _ => None,
            };
            match below {
                Some(below) => Ok(Value::Bool(below)),
                None => Err(type_failure(op, first.kind(), next)),
            }
        },
        _ => {
            let combined = match (op.arith(), &acc, &next) {
                (Some(arith), Value::Integer(a), Value::Integer(b)) => match int_arith(
                    arith,
                    *a,
                    *b,
                ) {
                    Ok(n) => Some(Ok(Value::Integer(n))),
                    Err(fault) => Some(Err(Failure::Fault(fault))),
                },
                (Some(arith), Value::Float(a), Value::Float(b)) => Some(
                    Ok(Value::Float(float_arith(arith, *a, *b))),
                ),
                _ => None,
            };
            match combined {
                Some(result) => result,
                None => Err(type_failure(op, acc.kind(), next)),
            }
        },
    }
}

impl Env {
    /// Evaluates `expr` in the root frame, with applications nested no deeper
    /// than the environment's depth limit.
    pub fn eval(&mut self, expr: &Expr) -> (outcome: Result<Value, Failure>)
        requires
            old(self).wf(),
        ensures
            final(self).wf(),
            final(self).limit() == old(self).limit(),
            (Step { env: final(self)@, outcome: outcome_model(outcome) }) == eval_spec(
                old(self)@,
                0,
                expr@,
                old(self).limit(),
            ),
            old(self)@.sound() ==> sound_step(eval_spec(old(self)@, 0, expr@, old(self).limit())),
    {
        proof {
            self.lemma_has_root();
            if self@.sound() {
                law_eval_sound(self@, 0, expr@, self.limit());
            }
        }
        let depth = self.depth_limit();
        self.eval_in(0, expr, depth)
    }

    /// Evaluates `expr` in `frame`, with applications nested no deeper than
    /// `depth`.
    pub fn eval_in(&mut self, frame: usize, expr: &Expr, depth: usize) -> (outcome: Result<
        Value,
        Failure,
    >)
        requires
            old(self).wf(),
        ensures
            final(self).wf(),
            final(self).limit() == old(self).limit(),
            (Step { env: final(self)@, outcome: outcome_model(outcome) }) == eval_spec(
                old(self)@,
                frame as nat,
                expr@,
                depth as nat,
            ),
        decreases depth, 0nat, 0nat,
    {
        match expr {
            Expr::Bool(b) => Ok(Value::Bool(*b)),
            Expr::Integer(i) => Ok(Value::Integer(*i)),
            Expr::Float(bits) => Ok(Value::Float(*bits)),
            Expr::Symbol(name) => match self.get(frame, name) {
                Some(value) => Ok(value),
                None => Err(Failure::Error(EvalError::UnknownSymbol(name.clone()))),
            },
            Expr::List(items) => {
                proof {
                    lemma_list_view(*items);
                }
                if items.len() == 0 {
                    return Err(Failure::Error(EvalError::EmptyApplication));
                }
                if depth == 0 {
                    return Err(Failure::Fault(Fault::DepthExhausted));
                }
                match self.eval_in(frame, &items[0], depth - 1) {
                    Ok(Value::Func(func)) => self.apply(frame, &func, rest_of(items), depth - 1),
                    Ok(other) => Err(Failure::Error(EvalError::NotAFunction(other))),
                    Err(failure) => Err(failure),
                }
            },
        }
    }

    /// Applies `func` to the unevaluated operands `args`, from `frame`.
    pub fn apply(&mut self, frame: usize, func: &Func, args: &[Expr], depth: usize) -> (outcome:
        Result<Value, Failure>)
        requires
            old(self).wf(),
        ensures
            final(self).wf(),
            final(self).limit() == old(self).limit(),
            (Step { env: final(self)@, outcome: outcome_model(outcome) }) == apply_spec(
                old(self)@,
                frame as nat,
                func@,
                expr_views(args@),
                depth as nat,
            ),
        decreases depth, 3nat, 0nat,
    {
        match func {
            Func::BuiltIn(Builtin::Def) => self.define(frame, args, depth),
            Func::BuiltIn(Builtin::Fn) => self.closure(frame, args),
            Func::BuiltIn(Builtin::If) => self.branch(frame, args, depth),
            Func::BuiltIn(op) => self.strict(frame, *op, args, depth),
            Func::UserDefined { params, body, scope } => self.call(
                frame,
                &**params,
                &**body,
                *scope,
                args,
                depth,
            ),
        }
    }

    /// `fn`: makes a closure over `frame`.
    fn closure(&self, frame: usize, args: &[Expr]) -> (outcome: Result<Value, Failure>)
        ensures
            (Step { env: self@, outcome: outcome_model(outcome) }) == closure_spec(
                self@,
                frame as nat,
                expr_views(args@),
            ),
    {
        let form = Form::BuiltIn(Builtin::Fn);
        if args.len() != 2 {
            return Err(arity_failure(form, Arity::Exactly(2), args.len()));
        }
        match &args[0] {
            Expr::List(params) => {
                proof {
                    lemma_list_view(*params);
                }
                match names_of(params) {
                    Some(names) => Ok(
                        Value::Func(
                            Func::UserDefined {
                                params: Rc::new(names),
                                body: Rc::new(args[1].clone()),
                                scope: frame,
                            },
                        ),
                    ),
                    None => Err(
                        Failure::Error(
                            EvalError::MalformedSpecialForm { form, reason: Reason::ParamNotSymbol },
                        ),
                    ),
                }
            },
            _ => Err(
                Failure::Error(
                    EvalError::MalformedSpecialForm { form, reason: Reason::ParamsNotList },
                ),
            ),
        }
    }

    /// `def`: binds a symbol in `frame` to the value of an expression.
    fn define(&mut self, frame: usize, args: &[Expr], depth: usize) -> (outcome: Result<
        Value,
        Failure,
    >)
        requires
            old(self).wf(),
        ensures
            final(self).wf(),
            final(self).limit() == old(self).limit(),
            (Step { env: final(self)@, outcome: outcome_model(outcome) }) == def_spec(
                old(self)@,
                frame as nat,
                expr_views(args@),
                depth as nat,
            ),
        decreases depth, 1nat, 0nat,
    {
        let form = Form::BuiltIn(Builtin::Def);
        if args.len() != 2 {
            return Err(arity_failure(form, Arity::Exactly(2), args.len()));
        }
        match &args[0] {
            Expr::Symbol(name) => match self.eval_in(frame, &args[1], depth) {
                Ok(value) => {
                    self.insert(frame, name.clone(), value);
                    Ok(Value::Integer(0))
                },
                Err(failure) => Err(failure),
            },
            _ => Err(
                Failure::Error(
                    EvalError::MalformedSpecialForm { form, reason: Reason::NameNotSymbol },
                ),
            ),
        }
    }

    /// `if`: evaluates the condition and then one of the two branches.
    fn branch(&mut self, frame: usize, args: &[Expr], depth: usize) -> (outcome: Result<
        Value,
        Failure,
    >)
        requires
            old(self).wf(),
        ensures
            final(self).wf(),
            final(self).limit() == old(self).limit(),
            (Step { env: final(self)@, outcome: outcome_model(outcome) }) == if_spec(
                old(self)@,
                frame as nat,
                expr_views(args@),
                depth as nat,
            ),
        decreases depth, 1nat, 0nat,
    {
        if args.len() != 3 {
            return Err(arity_failure(Form::BuiltIn(Builtin::If), Arity::Exactly(3), args.len()));
        }
        match self.eval_in(frame, &args[0], depth) {
            Ok(Value::Bool(true)) => self.eval_in(frame, &args[1], depth),
            Ok(Value::Bool(false)) => self.eval_in(frame, &args[2], depth),
            Ok(other) => Err(type_failure(Builtin::If, Kind::Bool, other)),
            Err(failure) => Err(failure),
        }
    }

    /// A strict operation: evaluates the operands from left to right and
    /// takes each into the running result as soon as it is evaluated.
    fn strict(&mut self, frame: usize, op: Builtin, args: &[Expr], depth: usize) -> (outcome:
        Result<Value, Failure>)
        requires
            old(self).wf(),
        ensures
            final(self).wf(),
            final(self).limit() == old(self).limit(),
            (Step { env: final(self)@, outcome: outcome_model(outcome) }) == strict_spec(
                old(self)@,
                frame as nat,
                op,
                expr_views(args@),
                depth as nat,
            ),
        decreases depth, 2nat, 0nat,
    {
        let ghost goal = strict_spec(
            old(self)@,
            frame as nat,
            op,
            expr_views(args@),
            depth as nat,
        );
        let ghost limit = old(self).limit();
        if !op.arity().accepts(args.len()) {
            return Err(arity_failure(Form::BuiltIn(op), op.arity(), args.len()));
        }
        let first = match self.eval_in(frame, &args[0], depth) {
            Ok(value) => value,
            Err(failure) => {
                return Err(failure);
            },
        };
        let mut acc = match start(op, &first) {
            Ok(acc) => acc,
            Err(failure) => {
                return Err(failure);
            },
        };
        let mut i: usize = 1;
        while i < args.len()
            invariant
                self.wf(),
                self.limit() == limit,
                limit == old(self).limit(),
                1 <= i <= args.len(),
                goal == strict_spec(
                    old(self)@,
                    frame as nat,
                    op,
                    expr_views(args@),
                    depth as nat,
                ),
                goal == fold_spec(
                    self@,
                    frame as nat,
                    op,
                    first@,
                    acc@,
                    expr_views(args@).skip(i as int),
                    depth as nat,
                ),
            ensures
                self.wf(),
                self.limit() == limit,
                goal == done(self@, acc@),
            decreases args.len() - i,
        {
            let ghost rest = expr_views(args@).skip(i as int);
            assert(rest[0] == args@[i as int]@);
            assert(rest.skip(1) =~= expr_views(args@).skip(i + 1));
            let next = match self.eval_in(frame, &args[i], depth) {
                Ok(value) => value,
                Err(failure) => {
                    return Err(failure);
                },
            };
            acc = match step(op, &first, acc, next) {
                Ok(acc) => acc,
                Err(failure) => {
                    return Err(failure);
                },
            };
            i += 1;
        }
        Ok(acc)
    }

    /// Evaluates the operands of a call from left to right in `frame`.
    fn operands(&mut self, frame: usize, args: &[Expr], depth: usize) -> (values: Result<
        Vec<Value>,
        Failure,
    >)
        requires
            old(self).wf(),
        ensures
            final(self).wf(),
            final(self).limit() == old(self).limit(),
            values matches Ok(values) ==> values@.len() == args@.len(),
            (ArgsStep { env: final(self)@, outcome: values_model(values) }) == args_spec(
                old(self)@,
                frame as nat,
                Seq::empty(),
                expr_views(args@),
                depth as nat,
            ),
        decreases depth, 1nat, 0nat,
    {
        let ghost limit = old(self).limit();
        let ghost goal = args_spec(
            old(self)@,
            frame as nat,
            Seq::empty(),
            expr_views(args@),
            depth as nat,
        );
        let mut values: Vec<Value> = Vec::new();
        let mut i: usize = 0;
        assert(value_views(values@) =~= Seq::<ValueModel>::empty());
        assert(expr_views(args@).skip(0) =~= expr_views(args@));
        while i < args.len()
            invariant
                self.wf(),
                self.limit() == limit,
                limit == old(self).limit(),
                i <= args.len(),
                values.len() == i,
                goal == args_spec(
                    self@,
                    frame as nat,
                    value_views(values@),
                    expr_views(args@).skip(i as int),
                    depth as nat,
                ),
                goal == args_spec(
                    old(self)@,
                    frame as nat,
                    Seq::empty(),
                    expr_views(args@),
                    depth as nat,
                ),
            decreases args.len() - i,
        {
            let ghost rest = expr_views(args@).skip(i as int);
            let ghost so_far = value_views(values@);
            assert(rest[0] == args@[i as int]@);
            assert(rest.skip(1) =~= expr_views(args@).skip(i + 1));
            match self.eval_in(frame, &args[i], depth) {
                Ok(value) => {
                    values.push(value);
                    assert(value_views(values@) =~= so_far.push(value@));
                },
                Err(failure) => {
                    return Err(failure);
                },
            }
            i += 1;
        }
        Ok(values)
    }

    /// The call of a closure from `frame`.
    fn call(
        &mut self,
        frame: usize,
        params: &Vec<Symbol>,
        body: &Expr,
        scope: usize,
        args: &[Expr],
        depth: usize,
    ) -> (outcome: Result<Value, Failure>)
        requires
            old(self).wf(),
        ensures
            final(self).wf(),
            final(self).limit() == old(self).limit(),
            (Step { env: final(self)@, outcome: outcome_model(outcome) }) == call_spec(
                old(self)@,
                frame as nat,
                symbol_views(params@),
                body@,
                scope as nat,
                expr_views(args@),
                depth as nat,
            ),
        decreases depth, 2nat, 0nat,
    {
        if params.len() != args.len() {
            return Err(arity_failure(Form::Closure, Arity::Exactly(params.len()), args.len()));
        }
        let values = match self.operands(frame, args, depth) {
            Ok(values) => values,
            Err(failure) => {
                return Err(failure);
            },
        };
        let ghost entry = self@;
        proof {
            self.lemma_has_root();
        }
        let child = self.child_of(scope);
        self.bind_all(child, params, &values);
        let result = self.eval_in(child, body, depth);
        let captured = match &result {
            Ok(value) => !value.scopes_below(child),
            Err(_) => false,
        };
        if !captured {
            proof {
                lemma_body_keeps(
                    entry,
                    symbol_views(params@),
                    value_views(values@),
                    body@,
                    scope as nat,
                    depth as nat,
                );
            }
            self.discard(child);
        }
        result
    }
}

} // verus!
