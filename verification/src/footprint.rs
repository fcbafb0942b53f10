//! What an evaluation may touch: the frame it runs in, and frames it adds.

use crate::ast::ExprModel;
use crate::env::EnvModel;
use crate::eval::{apply_spec, args_spec, call_spec, eval_spec, fold_spec, start_spec, step_spec};
use crate::value::{Builtin, FuncModel, ValueModel};
use vstd::prelude::*;

verus! {

/// `after` holds every frame of `before`: each but `frame` as it was, and
/// `frame` with its outer link as it was.
pub open spec fn extends(before: EnvModel, frame: nat, after: EnvModel) -> bool {
    &&& after.frames.len() >= before.frames.len()
    &&& forall|i: int|
        0 <= i < before.frames.len() && i != frame ==> after.frames[i] == before.frames[i]
    &&& frame < before.frames.len() ==> after.frames[frame as int].outer
        == before.frames[frame as int].outer
}

/// Binding names in a frame changes the bindings of that frame only.
pub proof fn lemma_bind_all_extends(
    env: EnvModel,
    frame: nat,
    names: Seq<Seq<char>>,
    values: Seq<ValueModel>,
)
    ensures
        extends(env, frame, env.bind_all(frame, names, values)),
        env.bind_all(frame, names, values).frames.len() == env.frames.len(),
    decreases names.len(),
{
    if names.len() != 0 && values.len() == names.len() {
        lemma_bind_all_extends(env, frame, names.drop_last(), values.drop_last());
    }
}

/// An evaluation in `frame` leaves every other frame as it was, and drops none.
pub proof fn law_eval_extends(env: EnvModel, frame: nat, expr: ExprModel, depth: nat)
    ensures
        extends(env, frame, eval_spec(env, frame, expr, depth).env),
    decreases depth, 0nat, 0nat,
{
    match expr {
        ExprModel::List(items) => {
            if items.len() != 0 && depth != 0 {
                law_eval_extends(env, frame, items[0], (depth - 1) as nat);
                let head = eval_spec(env, frame, items[0], (depth - 1) as nat);
                match head.outcome {
                    Ok(ValueModel::Func(func)) => {
                        lemma_apply_extends(head.env, frame, func, items.skip(1), (depth - 1) as nat);
                    },
                    _ => {},
                }
            }
        },
        _ => {},
    }
}

/// An application in `frame` leaves every other frame as it was, and drops none.
pub proof fn lemma_apply_extends(
    env: EnvModel,
    frame: nat,
    func: FuncModel,
    args: Seq<ExprModel>,
    depth: nat,
)
    ensures
        extends(env, frame, apply_spec(env, frame, func, args, depth).env),
    decreases depth, 3nat, 0nat,
{
    match func {
        FuncModel::BuiltIn(Builtin::Def) => {
            if args.len() == 2 {
                law_eval_extends(env, frame, args[1], depth);
            }
        },
        FuncModel::BuiltIn(Builtin::Fn) => {},
        FuncModel::BuiltIn(Builtin::If) => {
            if args.len() == 3 {
                law_eval_extends(env, frame, args[0], depth);
                let cond = eval_spec(env, frame, args[0], depth);
                law_eval_extends(cond.env, frame, args[1], depth);
                law_eval_extends(cond.env, frame, args[2], depth);
            }
        },
        FuncModel::BuiltIn(op) => {
            if op.arity_spec().admits(args.len()) {
                law_eval_extends(env, frame, args[0], depth);
                let first = eval_spec(env, frame, args[0], depth);
                match first.outcome {
                    Ok(value) => {
                        match start_spec(op, value) {
                            Ok(acc) => {
                                lemma_fold_extends(
                                    first.env,
                                    frame,
                                    op,
                                    value,
                                    acc,
                                    args.skip(1),
                                    depth,
                                );
                            },
                            Err(_) => {},
                        }
                    },
                    Err(_) => {},
                }
            }
        },
        FuncModel::UserDefined { params, body, scope } => {
            lemma_call_extends(env, frame, params, body, scope, args, depth);
        },
    }
}

/// The rest of a strict operation leaves every other frame as it was.
pub proof fn lemma_fold_extends(
    env: EnvModel,
    frame: nat,
    op: Builtin,
    first: ValueModel,
    acc: ValueModel,
    rest: Seq<ExprModel>,
    depth: nat,
)
    ensures
        extends(env, frame, fold_spec(env, frame, op, first, acc, rest, depth).env),
    decreases depth, 1nat, rest.len(),
{
    if rest.len() != 0 {
        law_eval_extends(env, frame, rest[0], depth);
        let next = eval_spec(env, frame, rest[0], depth);
        match next.outcome {
            Ok(value) => {
                match step_spec(op, first, acc, value) {
                    Ok(acc) => {
                        lemma_fold_extends(next.env, frame, op, first, acc, rest.skip(1), depth);
                    },
                    Err(_) => {},
                }
            },
            Err(_) => {},
        }
    }
}

/// The evaluation of operands leaves every other frame as it was.
pub proof fn lemma_args_extends(
    env: EnvModel,
    frame: nat,
    values: Seq<ValueModel>,
    rest: Seq<ExprModel>,
    depth: nat,
)
    ensures
        extends(env, frame, args_spec(env, frame, values, rest, depth).env),
    decreases depth, 1nat, rest.len(),
{
    if rest.len() != 0 {
        law_eval_extends(env, frame, rest[0], depth);
        let next = eval_spec(env, frame, rest[0], depth);
        match next.outcome {
            Ok(value) => {
                lemma_args_extends(next.env, frame, values.push(value), rest.skip(1), depth);
            },
            Err(_) => {},
        }
    }
}

/// The body of a call runs in a frame of its own: the frames that were there
/// when the operands had been evaluated are the same when it ends.
pub proof fn lemma_body_keeps(
    env: EnvModel,
    params: Seq<Seq<char>>,
    values: Seq<ValueModel>,
    body: ExprModel,
    scope: nat,
    depth: nat,
)
    ensures
        ({
            let child = env.frames.len();
            let entered = env.child_of(scope).bind_all(child, params, values);
            let result = eval_spec(entered, child, body, depth);
            &&& result.env.frames.len() > child
            &&& result.env.keep(child) == env
        }),
    decreases depth, 1nat, 0nat,
{
    let child = env.frames.len();
    let entered = env.child_of(scope).bind_all(child, params, values);
    let result = eval_spec(entered, child, body, depth);
    lemma_bind_all_extends(env.child_of(scope), child, params, values);
    law_eval_extends(entered, child, body, depth);
    assert(result.env.keep(child).frames =~= env.frames);
}

/// A call from `frame` leaves every other frame as it was, and drops none.
pub proof fn lemma_call_extends(
    env: EnvModel,
    frame: nat,
    params: Seq<Seq<char>>,
    body: ExprModel,
    scope: nat,
    args: Seq<ExprModel>,
    depth: nat,
)
    ensures
        extends(env, frame, call_spec(env, frame, params, body, scope, args, depth).env),
    decreases depth, 2nat, 0nat,
{
    if params.len() == args.len() {
        lemma_args_extends(env, frame, Seq::empty(), args, depth);
        let operands = args_spec(env, frame, Seq::empty(), args, depth);
        match operands.outcome {
            Ok(values) => {
                lemma_body_keeps(operands.env, params, values, body, scope, depth);
                let child = operands.env.frames.len();
                let entered = operands.env.child_of(scope).bind_all(child, params, values);
                let result = eval_spec(entered, child, body, depth);
                assert(forall|i: int|
                    0 <= i < child ==> result.env.keep(child).frames[i] == result.env.frames[i]);
            },
            Err(_) => {},
        }
    }
}

} // verus!
