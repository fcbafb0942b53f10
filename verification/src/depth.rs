//! The depth limit only cuts evaluations short: one that ends within a depth
//! ends in the same way within every greater depth.

use crate::ast::ExprModel;
use crate::env::EnvModel;
use crate::error::{FailureModel, Fault};
use crate::eval::{
    apply_spec, args_spec, call_spec, eval_spec, fold_spec, start_spec, step_spec, Step,
};
use crate::value::{Builtin, FuncModel, ValueModel};
use vstd::prelude::*;

verus! {

/// The evaluation did not run out of depth.
pub open spec fn completes(step: Step) -> bool {
    step.outcome != Err::<ValueModel, _>(FailureModel::Fault(Fault::DepthExhausted))
}

/// An evaluation that does not run out of depth within `low` yields the same,
/// and leaves the same environment, within every depth from `low` on.
pub proof fn law_depth_monotone(env: EnvModel, frame: nat, expr: ExprModel, low: nat, high: nat)
    requires
        low <= high,
        completes(eval_spec(env, frame, expr, low)),
    ensures
        eval_spec(env, frame, expr, high) == eval_spec(env, frame, expr, low),
    decreases low, 0nat, 0nat,
{
    match expr {
        ExprModel::List(items) => {
            if items.len() != 0 {
                let l = (low - 1) as nat;
                let h = (high - 1) as nat;
                law_depth_monotone(env, frame, items[0], l, h);
                let head = eval_spec(env, frame, items[0], l);
                match head.outcome {
                    Ok(ValueModel::Func(func)) => {
                        lemma_apply_monotone(head.env, frame, func, items.skip(1), l, h);
                    },
                    _ => {},
                }
            }
        },
        _ => {},
    }
}

/// An application that does not run out of depth within `low` yields the
/// same within every depth from `low` on.
pub proof fn lemma_apply_monotone(
    env: EnvModel,
    frame: nat,
    func: FuncModel,
    args: Seq<ExprModel>,
    low: nat,
    high: nat,
)
    requires
        low <= high,
        completes(apply_spec(env, frame, func, args, low)),
    ensures
        apply_spec(env, frame, func, args, high) == apply_spec(env, frame, func, args, low),
    decreases low, 3nat, 0nat,
{
    match func {
        FuncModel::BuiltIn(Builtin::Def) => {
            if args.len() == 2 && args[0] is Symbol {
                law_depth_monotone(env, frame, args[1], low, high);
            }
        },
        FuncModel::BuiltIn(Builtin::Fn) => {},
        FuncModel::BuiltIn(Builtin::If) => {
            if args.len() == 3 {
                law_depth_monotone(env, frame, args[0], low, high);
                let cond = eval_spec(env, frame, args[0], low);
                match cond.outcome {
                    Ok(ValueModel::Bool(true)) => {
                        law_depth_monotone(cond.env, frame, args[1], low, high);
                    },
                    Ok(ValueModel::Bool(false)) => {
                        law_depth_monotone(cond.env, frame, args[2], low, high);
                    },
                    _ => {},
                }
            }
        },
        FuncModel::BuiltIn(op) => {
            if op.arity_spec().admits(args.len()) {
                law_depth_monotone(env, frame, args[0], low, high);
                let first = eval_spec(env, frame, args[0], low);
                match first.outcome {
                    Ok(value) => {
                        match start_spec(op, value) {
                            Ok(acc) => {
                                lemma_fold_monotone(
                                    first.env,
                                    frame,
                                    op,
                                    value,
                                    acc,
                                    args.skip(1),
                                    low,
                                    high,
                                );
                            },
                            Err(_) => {},
                        }
                    },
                    Err(_) => {},
                }
            }
        },
        FuncModel::UserDefined { params, body, scope } => {
            lemma_call_monotone(env, frame, params, body, scope, args, low, high);
        },
    }
}

/// The rest of a strict operation yields the same within every greater depth.
pub proof fn lemma_fold_monotone(
    env: EnvModel,
    frame: nat,
    op: Builtin,
    first: ValueModel,
    acc: ValueModel,
    rest: Seq<ExprModel>,
    low: nat,
    high: nat,
)
    requires
        low <= high,
        completes(fold_spec(env, frame, op, first, acc, rest, low)),
    ensures
        fold_spec(env, frame, op, first, acc, rest, high) == fold_spec(
            env,
            frame,
            op,
            first,
            acc,
            rest,
            low,
        ),
    decreases low, 1nat, rest.len(),
{
    if rest.len() != 0 {
        law_depth_monotone(env, frame, rest[0], low, high);
        let next = eval_spec(env, frame, rest[0], low);
        match next.outcome {
            Ok(value) => {
                match step_spec(op, first, acc, value) {
                    Ok(acc) => {
                        lemma_fold_monotone(
                            next.env,
                            frame,
                            op,
                            first,
                            acc,
                            rest.skip(1),
                            low,
                            high,
                        );
                    },
                    Err(_) => {},
                }
            },
            Err(_) => {},
        }
    }
}

/// The evaluation of operands yields the same within every greater depth.
pub proof fn lemma_args_monotone(
    env: EnvModel,
    frame: nat,
    values: Seq<ValueModel>,
    rest: Seq<ExprModel>,
    low: nat,
    high: nat,
)
    requires
        low <= high,
        args_spec(env, frame, values, rest, low).outcome != Err::<Seq<ValueModel>, _>(
            FailureModel::Fault(Fault::DepthExhausted),
        ),
    ensures
        args_spec(env, frame, values, rest, high) == args_spec(env, frame, values, rest, low),
    decreases low, 1nat, rest.len(),
{
    if rest.len() != 0 {
        law_depth_monotone(env, frame, rest[0], low, high);
        let next = eval_spec(env, frame, rest[0], low);
        match next.outcome {
            Ok(value) => {
                lemma_args_monotone(next.env, frame, values.push(value), rest.skip(1), low, high);
            },
            Err(_) => {},
        }
    }
}

/// A call yields the same within every greater depth.
pub proof fn lemma_call_monotone(
    env: EnvModel,
    frame: nat,
    params: Seq<Seq<char>>,
    body: ExprModel,
    scope: nat,
    args: Seq<ExprModel>,
    low: nat,
    high: nat,
)
    requires
        low <= high,
        completes(call_spec(env, frame, params, body, scope, args, low)),
    ensures
        call_spec(env, frame, params, body, scope, args, high) == call_spec(
            env,
            frame,
            params,
            body,
            scope,
            args,
            low,
        ),
    decreases low, 2nat, 0nat,
{
    if params.len() == args.len() {
        lemma_args_monotone(env, frame, Seq::empty(), args, low, high);
        let operands = args_spec(env, frame, Seq::empty(), args, low);
        match operands.outcome {
            Ok(values) => {
                let child = operands.env.frames.len();
                let entered = operands.env.child_of(scope).bind_all(child, params, values);
                law_depth_monotone(entered, child, body, low, high);
            },
            Err(_) => {},
        }
    }
}

} // verus!
