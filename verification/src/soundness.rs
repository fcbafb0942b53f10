//! Frames are dropped only when nothing can reach them.
//!
//! An environment is sound when every outer link leads to an earlier frame
//! and every closure that it binds was made in a frame that it still holds.
//! Evaluation keeps a sound environment sound, and yields only values whose
//! closures were made in frames that the environment holds afterwards.

use crate::ast::ExprModel;
use crate::env::EnvModel;
use crate::eval::{
    apply_spec, args_spec, call_spec, eval_spec, fold_spec, start_spec, step_spec, Step,
};
use crate::footprint::{lemma_args_extends, lemma_bind_all_extends, law_eval_extends};
use crate::value::{lemma_list_scopes_below, Builtin, FuncModel, ValueModel};
use vstd::prelude::*;

verus! {

/// Every closure in any of the values was made in a frame below `bound`.
pub open spec fn all_below(values: Seq<ValueModel>, bound: nat) -> bool {
    forall|i: int| 0 <= i < values.len() ==> (#[trigger] values[i]).scopes_below(bound)
}

/// The environment is sound, and a value that was yielded holds only
/// closures made in frames of it.
pub open spec fn sound_step(step: Step) -> bool {
    &&& step.env.sound()
    &&& step.outcome matches Ok(value) ==> value.scopes_below(step.env.frames.len())
}

/// A value whose closures were made below `low` has them below any larger bound.
pub proof fn lemma_scopes_below_grows(value: ValueModel, low: nat, high: nat)
    requires
        value.scopes_below(low),
        low <= high,
    ensures
        value.scopes_below(high),
    decreases value,
{
    match value {
        ValueModel::List(items) => {
            lemma_list_scopes_below(items, low);
            lemma_list_scopes_below(items, high);
            assert(decreases_to!(value => value->List_0));
            assert forall|i: int| 0 <= i < items.len() implies (#[trigger] items[i]).scopes_below(
                high,
            ) by {
                assert(decreases_to!(items => items[i]));
                lemma_scopes_below_grows(items[i], low, high);
            }
        },
        _ => {},
    }
}

/// What a sound environment resolves a name to was made in its frames.
pub proof fn lemma_lookup_sound(env: EnvModel, frame: nat, name: Seq<char>)
    requires
        env.sound(),
    ensures
        env.lookup(frame, name) matches Some(value) ==> value.scopes_below(env.frames.len()),
    decreases frame,
{
    if frame < env.frames.len() {
        assert(env.frame_sound(frame as int));
        if !env.frames[frame as int].bindings.contains_key(name) {
            match env.frames[frame as int].outer {
                Some(outer) => {
                    if outer < frame {
                        lemma_lookup_sound(env, outer, name);
                    }
                },
                None => {},
            }
        }
    }
}

/// Binding a value made in the environment's frames keeps it sound.
pub proof fn lemma_insert_sound(env: EnvModel, frame: nat, name: Seq<char>, value: ValueModel)
    requires
        env.sound(),
        value.scopes_below(env.frames.len()),
    ensures
        env.insert(frame, name, value).sound(),
{
    let after = env.insert(frame, name, value);
    assert forall|i: int| 0 <= i < after.frames.len() implies #[trigger] after.frame_sound(i) by {
        assert(env.frame_sound(i));
    }
}

/// Binding values made in the environment's frames keeps it sound.
pub proof fn lemma_bind_all_sound(
    env: EnvModel,
    frame: nat,
    names: Seq<Seq<char>>,
    values: Seq<ValueModel>,
)
    requires
        env.sound(),
        all_below(values, env.frames.len()),
    ensures
        env.bind_all(frame, names, values).sound(),
    decreases names.len(),
{
    if names.len() != 0 && values.len() == names.len() {
        assert forall|i: int| 0 <= i < values.drop_last().len() implies (
        #[trigger] values.drop_last()[i]).scopes_below(env.frames.len()) by {
            assert(values.drop_last()[i] == values[i]);
        }
        lemma_bind_all_sound(env, frame, names.drop_last(), values.drop_last());
        lemma_bind_all_extends(env, frame, names.drop_last(), values.drop_last());
        let before = env.bind_all(frame, names.drop_last(), values.drop_last());
        assert(values.last() == values[values.len() - 1]);
        lemma_insert_sound(before, frame, names.last(), values.last());
    }
}

/// A sound environment is sound with one more frame linked to one of its own.
pub proof fn lemma_child_sound(env: EnvModel, outer: nat)
    requires
        env.sound(),
        outer < env.frames.len(),
    ensures
        env.child_of(outer).sound(),
{
    let after = env.child_of(outer);
    assert forall|i: int| 0 <= i < after.frames.len() implies #[trigger] after.frame_sound(i) by {
        if i < env.frames.len() {
            assert(env.frame_sound(i));
            assert forall|name: Seq<char>| after.frames[i].bindings.contains_key(name) implies (
            #[trigger] after.frames[i].bindings[name]).scopes_below(after.frames.len()) by {
                lemma_scopes_below_grows(
                    env.frames[i].bindings[name],
                    env.frames.len(),
                    after.frames.len(),
                );
            }
        }
    }
}

/// Evaluation in a frame of a sound environment leaves it sound, and yields
/// only closures made in frames that are still there.
pub proof fn law_eval_sound(env: EnvModel, frame: nat, expr: ExprModel, depth: nat)
    requires
        env.sound(),
        frame < env.frames.len(),
    ensures
        sound_step(eval_spec(env, frame, expr, depth)),
    decreases depth, 0nat, 0nat,
{
    match expr {
        ExprModel::Symbol(name) => {
            lemma_lookup_sound(env, frame, name);
        },
        ExprModel::List(items) => {
            if items.len() != 0 && depth != 0 {
                let inner = (depth - 1) as nat;
                law_eval_sound(env, frame, items[0], inner);
                law_eval_extends(env, frame, items[0], inner);
                let head = eval_spec(env, frame, items[0], inner);
                match head.outcome {
                    Ok(ValueModel::Func(func)) => {
                        lemma_apply_sound(head.env, frame, func, items.skip(1), inner);
                    },
                    _ => {},
                }
            }
        },
        _ => {},
    }
}

/// An application from a frame of a sound environment leaves it sound.
pub proof fn lemma_apply_sound(
    env: EnvModel,
    frame: nat,
    func: FuncModel,
    args: Seq<ExprModel>,
    depth: nat,
)
    requires
        env.sound(),
        frame < env.frames.len(),
        ValueModel::Func(func).scopes_below(env.frames.len()),
    ensures
        sound_step(apply_spec(env, frame, func, args, depth)),
    decreases depth, 3nat, 0nat,
{
    match func {
        FuncModel::BuiltIn(Builtin::Def) => {
            if args.len() == 2 {
                law_eval_sound(env, frame, args[1], depth);
                let bound = eval_spec(env, frame, args[1], depth);
                match (args[0], bound.outcome) {
                    (ExprModel::Symbol(name), Ok(value)) => {
                        lemma_insert_sound(bound.env, frame, name, value);
                    },
                    _ => {},
                }
            }
        },
        FuncModel::BuiltIn(Builtin::Fn) => {},
        FuncModel::BuiltIn(Builtin::If) => {
            if args.len() == 3 {
                law_eval_sound(env, frame, args[0], depth);
                law_eval_extends(env, frame, args[0], depth);
                let cond = eval_spec(env, frame, args[0], depth);
                if cond.outcome is Ok {
                    law_eval_sound(cond.env, frame, args[1], depth);
                    law_eval_sound(cond.env, frame, args[2], depth);
                }
            }
        },
        FuncModel::BuiltIn(op) => {
            if op.arity_spec().admits(args.len()) {
                law_eval_sound(env, frame, args[0], depth);
                law_eval_extends(env, frame, args[0], depth);
                let first = eval_spec(env, frame, args[0], depth);
                match first.outcome {
                    Ok(value) => {
                        match start_spec(op, value) {
                            Ok(acc) => {
                                lemma_fold_sound(
                                    first.env,
                                    frame,
                                    op,
                                    value,
                                    acc,
                                    args.skip(1),
                                    depth,
                                );
                            },
                            Err(_) => {},
                        }
                    },
                    Err(_) => {},
                }
            }
        },
        FuncModel::UserDefined { params, body, scope } => {
            lemma_call_sound(env, frame, params, body, scope, args, depth);
        },
    }
}

/// The rest of a strict operation leaves a sound environment sound.
pub proof fn lemma_fold_sound(
    env: EnvModel,
    frame: nat,
    op: Builtin,
    first: ValueModel,
    acc: ValueModel,
    rest: Seq<ExprModel>,
    depth: nat,
)
    requires
        env.sound(),
        frame < env.frames.len(),
        acc.scopes_below(env.frames.len()),
    ensures
        sound_step(fold_spec(env, frame, op, first, acc, rest, depth)),
    decreases depth, 1nat, rest.len(),
{
    if rest.len() != 0 {
        law_eval_sound(env, frame, rest[0], depth);
        law_eval_extends(env, frame, rest[0], depth);
        let next = eval_spec(env, frame, rest[0], depth);
        match next.outcome {
            Ok(value) => {
                match step_spec(op, first, acc, value) {
                    Ok(acc) => {
                        lemma_fold_sound(next.env, frame, op, first, acc, rest.skip(1), depth);
                    },
                    Err(_) => {},
                }
            },
            Err(_) => {},
        }
    }
}

/// The evaluation of operands leaves a sound environment sound, and the
/// values were made in its frames.
pub proof fn lemma_args_sound(
    env: EnvModel,
    frame: nat,
    values: Seq<ValueModel>,
    rest: Seq<ExprModel>,
    depth: nat,
)
    requires
        env.sound(),
        frame < env.frames.len(),
        all_below(values, env.frames.len()),
    ensures
        ({
            let operands = args_spec(env, frame, values, rest, depth);
            &&& operands.env.sound()
            &&& operands.outcome matches Ok(all) ==> all_below(all, operands.env.frames.len())
        }),
    decreases depth, 1nat, rest.len(),
{
    if rest.len() != 0 {
        law_eval_sound(env, frame, rest[0], depth);
        law_eval_extends(env, frame, rest[0], depth);
        let next = eval_spec(env, frame, rest[0], depth);
        match next.outcome {
            Ok(value) => {
                let more = values.push(value);
                assert forall|i: int| 0 <= i < more.len() implies (#[trigger] more[i]).scopes_below(
                    next.env.frames.len(),
                ) by {
                    if i < values.len() {
                        lemma_scopes_below_grows(values[i], env.frames.len(), next.env.frames.len());
                    }
                }
                lemma_args_sound(next.env, frame, more, rest.skip(1), depth);
            },
            Err(_) => {},
        }
    }
}

/// A call from a frame of a sound environment leaves it sound: the frames of
/// the call are dropped only when the value returned holds no closure made in
/// them.
pub proof fn lemma_call_sound(
    env: EnvModel,
    frame: nat,
    params: Seq<Seq<char>>,
    body: ExprModel,
    scope: nat,
    args: Seq<ExprModel>,
    depth: nat,
)
    requires
        env.sound(),
        frame < env.frames.len(),
        scope < env.frames.len(),
    ensures
        sound_step(call_spec(env, frame, params, body, scope, args, depth)),
    decreases depth, 2nat, 0nat,
{
    if params.len() == args.len() {
        lemma_args_sound(env, frame, Seq::empty(), args, depth);
        lemma_args_extends(env, frame, Seq::empty(), args, depth);
        let operands = args_spec(env, frame, Seq::empty(), args, depth);
        match operands.outcome {
            Ok(values) => {
                let child = operands.env.frames.len();
                let linked = operands.env.child_of(scope);
                lemma_child_sound(operands.env, scope);
                assert forall|i: int| 0 <= i < values.len() implies (
                #[trigger] values[i]).scopes_below(linked.frames.len()) by {
                    lemma_scopes_below_grows(values[i], child, linked.frames.len());
                }
                lemma_bind_all_sound(linked, child, params, values);
                lemma_bind_all_extends(linked, child, params, values);
                let entered = linked.bind_all(child, params, values);
                law_eval_sound(entered, child, body, depth);
            },
            Err(_) => {},
        }
    }
}

} // verus!
