//! Laws of evaluation, proved of [`eval_spec`].

use crate::ast::ExprModel;
use crate::env::{builtin_named, EnvModel};
use crate::error::{Arity, EvalErrorModel, FailureModel, Fault, Form, Kind};
use crate::eval::{
    apply_spec, args_spec, arity_error, call_spec, def_spec, done, eval_spec, fail, fold_spec,
    step_spec, stop, type_error,
};
use crate::footprint::law_eval_extends;
use crate::number::{int_result, ArithOp};
use crate::value::{Builtin, FuncModel, ValueModel};
use vstd::prelude::*;

verus! {

/// The value that a literal stands for.
pub open spec fn literal_value(expr: ExprModel) -> Option<ValueModel> {
    match expr {
        ExprModel::Bool(b) => Some(ValueModel::Bool(b)),
        ExprModel::Integer(i) => Some(ValueModel::Integer(i)),
        ExprModel::Float(bits) => Some(ValueModel::Float(bits)),
        _ => None,
    }
}

/// The form `(def name expr)`.
pub open spec fn def_form(name: Seq<char>, expr: ExprModel) -> ExprModel {
    ExprModel::List(seq![ExprModel::Symbol(Builtin::Def.symbol()), ExprModel::Symbol(name), expr])
}

/// A literal evaluates to the value of the same content, in every
/// environment and frame and at every depth, and the environment stays as it
/// was.
pub proof fn law_literal(env: EnvModel, frame: nat, expr: ExprModel, depth: nat)
    requires
        literal_value(expr) is Some,
    ensures
        eval_spec(env, frame, expr, depth) == done(env, literal_value(expr)->0),
{
}

/// A symbol evaluates to what the chain of frames binds it to, and fails as
/// unknown where no frame of the chain binds it. The environment stays as it
/// was.
pub proof fn law_symbol(env: EnvModel, frame: nat, name: Seq<char>, depth: nat)
    ensures
        eval_spec(env, frame, ExprModel::Symbol(name), depth) == match env.lookup(frame, name) {
            Some(value) => done(env, value),
            None => fail(env, EvalErrorModel::UnknownSymbol(name)),
        },
{
}

/// In the default environment a symbol evaluates to the native operation of
/// that name, and fails as unknown where there is none.
pub proof fn law_default_environment(name: Seq<char>, depth: nat)
    ensures
        eval_spec(EnvModel::with_builtins(), 0, ExprModel::Symbol(name), depth) == match builtin_named(
            name,
        ) {
            Some(op) => done(EnvModel::with_builtins(), ValueModel::Func(FuncModel::BuiltIn(op))),
            None => fail(EnvModel::with_builtins(), EvalErrorModel::UnknownSymbol(name)),
        },
{
}

/// The empty list fails as an empty application, in every environment and at
/// every depth.
pub proof fn law_empty_application(env: EnvModel, frame: nat, depth: nat)
    ensures
        eval_spec(env, frame, ExprModel::List(Seq::empty()), depth) == fail(
            env,
            EvalErrorModel::EmptyApplication,
        ),
{
}

/// Where `def` names the definition, `(def name expr)` fails as `expr` does,
/// and where `expr` yields a value it binds `name` to that value in the frame
/// of the evaluation, whether or not the frame bound `name` before: the symbol
/// `name` then evaluates to that value there, at every depth.
pub proof fn law_def_then_lookup(
    env: EnvModel,
    frame: nat,
    name: Seq<char>,
    expr: ExprModel,
    depth: nat,
    later: nat,
)
    requires
        frame < env.frames.len(),
        depth > 0,
        env.lookup(frame, Builtin::Def.symbol()) == Some(
            ValueModel::Func(FuncModel::BuiltIn(Builtin::Def)),
        ),
    ensures
        ({
            let bound = eval_spec(env, frame, expr, (depth - 1) as nat);
            let defined = eval_spec(env, frame, def_form(name, expr), depth);
            match bound.outcome {
                Ok(value) => {
                    &&& defined == done(bound.env.insert(frame, name, value), ValueModel::Integer(0))
                    &&& defined.env.lookup(frame, name) == Some(value)
                    &&& eval_spec(defined.env, frame, ExprModel::Symbol(name), later) == done(
                        defined.env,
                        value,
                    )
                },
                Err(_) => defined == bound,
            }
        }),
{
    let items = seq![ExprModel::Symbol(Builtin::Def.symbol()), ExprModel::Symbol(name), expr];
    let args = items.skip(1);
    assert(args.len() == 2);
    assert(args[0] == ExprModel::Symbol(name));
    assert(args[1] == expr);
    let inner = (depth - 1) as nat;
    law_symbol(env, frame, Builtin::Def.symbol(), inner);
    let bound = eval_spec(env, frame, expr, inner);
    let defined = eval_spec(env, frame, def_form(name, expr), depth);
    assert(defined == apply_spec(env, frame, FuncModel::BuiltIn(Builtin::Def), args, inner));
    assert(defined == def_spec(env, frame, args, inner));
    law_eval_extends(env, frame, expr, inner);
    match bound.outcome {
        Ok(value) => {
            assert(defined.env == bound.env.insert(frame, name, value));
            assert(frame < bound.env.frames.len());
            assert(defined.env.frames[frame as int].bindings.contains_key(name));
            law_symbol(defined.env, frame, name, later);
        },
        Err(_) => {},
    }
}

/// Rebinding is idempotent. Where `(def name expr)` bound `name` to a value,
/// and `expr` yields that value again and changes nothing, the same form
/// evaluated once more is no error, yields the same, and leaves the
/// environment as the first evaluation did.
pub proof fn law_def_idempotent(
    env: EnvModel,
    frame: nat,
    name: Seq<char>,
    expr: ExprModel,
    depth: nat,
)
    requires
        frame < env.frames.len(),
        depth > 0,
        env.lookup(frame, Builtin::Def.symbol()) == Some(
            ValueModel::Func(FuncModel::BuiltIn(Builtin::Def)),
        ),
        eval_spec(env, frame, def_form(name, expr), depth).outcome is Ok,
        ({
            let once = eval_spec(env, frame, def_form(name, expr), depth);
            let value = eval_spec(env, frame, expr, (depth - 1) as nat).outcome->Ok_0;
            &&& once.env.lookup(frame, Builtin::Def.symbol()) == Some(
                ValueModel::Func(FuncModel::BuiltIn(Builtin::Def)),
            )
            &&& eval_spec(once.env, frame, expr, (depth - 1) as nat) == done(once.env, value)
        }),
    ensures
        ({
            let once = eval_spec(env, frame, def_form(name, expr), depth);
            &&& once.outcome == Ok::<_, FailureModel>(ValueModel::Integer(0))
            &&& eval_spec(once.env, frame, def_form(name, expr), depth) == once
        }),
{
    let inner = (depth - 1) as nat;
    law_def_then_lookup(env, frame, name, expr, depth, 0);
    let once = eval_spec(env, frame, def_form(name, expr), depth);
    let value = eval_spec(env, frame, expr, inner).outcome->Ok_0;
    law_eval_extends(env, frame, expr, inner);
    assert(frame < once.env.frames.len());
    law_def_then_lookup(once.env, frame, name, expr, depth, 0);
    let again = once.env.insert(frame, name, value);
    assert(again.frames[frame as int].bindings =~= once.env.frames[frame as int].bindings);
    assert(again.frames =~= once.env.frames);
}

/// `if` evaluates its condition and then the one branch that the condition
/// selects: what it yields, and the environment afterwards, are those of that
/// branch evaluated after the condition, whatever the other branch is.
pub proof fn law_if_takes_one_branch(
    env: EnvModel,
    frame: nat,
    cond: ExprModel,
    then: ExprModel,
    otherwise: ExprModel,
    depth: nat,
)
    ensures
        ({
            let decided = eval_spec(env, frame, cond, depth);
            let whole = apply_spec(
                env,
                frame,
                FuncModel::BuiltIn(Builtin::If),
                seq![cond, then, otherwise],
                depth,
            );
            match decided.outcome {
                Ok(ValueModel::Bool(true)) => whole == eval_spec(decided.env, frame, then, depth),
                Ok(ValueModel::Bool(false)) => whole == eval_spec(
                    decided.env,
                    frame,
                    otherwise,
                    depth,
                ),
                Ok(other) => whole == stop(decided.env, type_error(Builtin::If, Kind::Bool, other)),
                Err(_) => whole == decided,
            }
        }),
{
}

/// A closure called with another number of operands than it has parameters
/// fails on the count: no operand is evaluated, no frame is made, nothing is
/// bound, and the environment stays as it was.
pub proof fn law_call_arity(
    env: EnvModel,
    frame: nat,
    params: Seq<Seq<char>>,
    body: ExprModel,
    scope: nat,
    args: Seq<ExprModel>,
    depth: nat,
)
    requires
        params.len() != args.len(),
    ensures
        apply_spec(env, frame, FuncModel::UserDefined { params, body, scope }, args, depth) == fail(
            env,
            arity_error(Form::Closure, Arity::Exactly(params.len() as usize), args.len()),
        ),
{
}

/// A native operation given another number of operands than it takes fails
/// on the count: no operand is evaluated, and the environment stays as it was.
pub proof fn law_builtin_arity(
    env: EnvModel,
    frame: nat,
    op: Builtin,
    args: Seq<ExprModel>,
    depth: nat,
)
    requires
        !op.arity_spec().admits(args.len()),
    ensures
        apply_spec(env, frame, FuncModel::BuiltIn(op), args, depth) == fail(
            env,
            arity_error(Form::BuiltIn(op), op.arity_spec(), args.len()),
        ),
{
}

/// The integer literals with the given values.
pub open spec fn integer_literals(values: Seq<i64>) -> Seq<ExprModel> {
    Seq::new(values.len(), |i: int| ExprModel::Integer(values[i]))
}

/// `=` on integers yields true exactly when every operand equals the first:
/// after operands that were all equal to `first` if `so_far` holds, going
/// through more integers yields whether all of them equal `first` too.
pub proof fn law_equals_integers(
    env: EnvModel,
    frame: nat,
    first: i64,
    so_far: bool,
    rest: Seq<i64>,
    depth: nat,
)
    ensures
        fold_spec(
            env,
            frame,
            Builtin::Equals,
            ValueModel::Integer(first),
            ValueModel::Bool(so_far),
            integer_literals(rest),
            depth,
        ) == done(
            env,
            ValueModel::Bool(so_far && forall|i: int| 0 <= i < rest.len() ==> rest[i] == first),
        ),
    decreases rest.len(),
{
    let operands = integer_literals(rest);
    if rest.len() > 0 {
        let next = so_far && rest[0] == first;
        assert(operands[0] == ExprModel::Integer(rest[0]));
        assert(operands.skip(1) =~= integer_literals(rest.skip(1)));
        assert(eval_spec(env, frame, operands[0], depth) == done(env, ValueModel::Integer(rest[0])));
        assert(step_spec(
            Builtin::Equals,
            ValueModel::Integer(first),
            ValueModel::Bool(so_far),
            ValueModel::Integer(rest[0]),
        ) == Ok::<ValueModel, FailureModel>(ValueModel::Bool(next)));
        law_equals_integers(env, frame, first, next, rest.skip(1), depth);
        assert((forall|i: int| 0 <= i < rest.len() ==> rest[i] == first) <==> (rest[0] == first
            && forall|i: int| 0 <= i < rest.skip(1).len() ==> rest.skip(1)[i] == first)) by {
            if rest[0] == first && forall|i: int|
                0 <= i < rest.skip(1).len() ==> rest.skip(1)[i] == first {
                assert forall|i: int| 0 <= i < rest.len() implies rest[i] == first by {
                    if i > 0 {
                        assert(rest.skip(1)[i - 1] == rest[i]);
                    }
                }
            }
            if forall|i: int| 0 <= i < rest.len() ==> rest[i] == first {
                assert forall|i: int| 0 <= i < rest.skip(1).len() implies rest.skip(1)[i]
                    == first by {
                    assert(rest.skip(1)[i] == rest[i + 1]);
                }
            }
        }
    }
}

/// `<` on two integers yields whether the first is below the second, and
/// leaves the environment as it was.
pub proof fn law_less_integers(env: EnvModel, frame: nat, a: i64, b: i64, depth: nat)
    ensures
        apply_spec(
            env,
            frame,
            FuncModel::BuiltIn(Builtin::LessThan),
            seq![ExprModel::Integer(a), ExprModel::Integer(b)],
            depth,
        ) == done(env, ValueModel::Bool(a < b)),
{
    let args = seq![ExprModel::Integer(a), ExprModel::Integer(b)];
    let rest = args.skip(1);
    assert(rest.len() == 1);
    assert(rest[0] == ExprModel::Integer(b));
    assert(rest.skip(1).len() == 0);
    assert(eval_spec(env, frame, args[0], depth) == done(env, ValueModel::Integer(a)));
    assert(eval_spec(env, frame, rest[0], depth) == done(env, ValueModel::Integer(b)));
    let first = ValueModel::Integer(a);
    assert(fold_spec(env, frame, Builtin::LessThan, first, ValueModel::Bool(a < b), rest.skip(1), depth)
        == done(env, ValueModel::Bool(a < b)));
    assert(step_spec(Builtin::LessThan, first, first, ValueModel::Integer(b)) == Ok::<
        ValueModel,
        FailureModel,
    >(ValueModel::Bool(a < b)));
    assert(fold_spec(env, frame, Builtin::LessThan, first, first, rest, depth) == done(
        env,
        ValueModel::Bool(a < b),
    ));
}

/// The left fold of an arithmetic operation over integers, from `acc` on: the
/// first result that does not fit, or a division by zero, ends it.
pub open spec fn fold_integers(op: ArithOp, acc: i64, rest: Seq<i64>) -> Result<i64, Fault>
    decreases rest.len(),
{
    if rest.len() == 0 {
        Ok(acc)
    } else {
        match int_result(op, acc, rest[0]) {
            Ok(next) => fold_integers(op, next, rest.skip(1)),
            Err(fault) => Err(fault),
        }
    }
}

/// An arithmetic operation on integers folds from the left: with the running
/// result `acc`, going through more integers yields the left fold over them,
/// or the fault that ends it. The environment stays as it was.
pub proof fn law_arithmetic_integers(
    env: EnvModel,
    frame: nat,
    op: Builtin,
    first: ValueModel,
    acc: i64,
    rest: Seq<i64>,
    depth: nat,
)
    requires
        op.arith_spec() is Some,
    ensures
        fold_spec(env, frame, op, first, ValueModel::Integer(acc), integer_literals(rest), depth)
            == match fold_integers(op.arith_spec()->0, acc, rest) {
            Ok(total) => done(env, ValueModel::Integer(total)),
            Err(fault) => stop(env, FailureModel::Fault(fault)),
        },
    decreases rest.len(),
{
    let operands = integer_literals(rest);
    if rest.len() > 0 {
        assert(operands[0] == ExprModel::Integer(rest[0]));
        assert(operands.skip(1) =~= integer_literals(rest.skip(1)));
        assert(eval_spec(env, frame, operands[0], depth) == done(env, ValueModel::Integer(rest[0])));
        match int_result(op.arith_spec()->0, acc, rest[0]) {
            Ok(next) => {
                assert(step_spec(op, first, ValueModel::Integer(acc), ValueModel::Integer(rest[0]))
                    == Ok::<ValueModel, FailureModel>(ValueModel::Integer(next)));
                law_arithmetic_integers(env, frame, op, first, next, rest.skip(1), depth);
            },
            Err(fault) => {
                assert(step_spec(op, first, ValueModel::Integer(acc), ValueModel::Integer(rest[0]))
                    == Err::<ValueModel, FailureModel>(FailureModel::Fault(fault)));
            },
        }
    }
}

/// The body of a closure does not see the frame of the caller: a call without
/// operands yields the same, and leaves the same environment, from whichever
/// frame it is made.
pub proof fn law_call_ignores_caller(
    env: EnvModel,
    caller: nat,
    other: nat,
    params: Seq<Seq<char>>,
    body: ExprModel,
    scope: nat,
    depth: nat,
)
    ensures
        call_spec(env, caller, params, body, scope, Seq::empty(), depth) == call_spec(
            env,
            other,
            params,
            body,
            scope,
            Seq::empty(),
            depth,
        ),
{
    let none = Seq::<ExprModel>::empty();
    let values = Seq::<ValueModel>::empty();
    assert(args_spec(env, caller, values, none, depth) == args_spec(env, other, values, none, depth));
}

/// An integer and a float are never combined or compared: a strict operation
/// that meets an operand of the other numeric type fails on its type.
pub proof fn law_no_coercion(op: Builtin, a: i64, b: u64)
    requires
        op == Builtin::Equals || op == Builtin::LessThan || op.arith_spec() is Some,
    ensures
        step_spec(op, ValueModel::Integer(a), ValueModel::Integer(a), ValueModel::Float(b)) == Err::<
            ValueModel,
            _,
        >(type_error(op, Kind::Integer, ValueModel::Float(b))),
        step_spec(op, ValueModel::Float(b), ValueModel::Float(b), ValueModel::Integer(a)) == Err::<
            ValueModel,
            _,
        >(type_error(op, Kind::Float, ValueModel::Integer(a))),
{
}

} // verus!
