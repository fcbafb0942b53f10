//! How an evaluation can fail.
//!
//! An [`EvalError`] is a failure of the program under evaluation: the
//! expression is ill-formed or ill-typed. A [`Fault`] is a limit of the machine
//! that runs the evaluator. Both are values handed back to the caller, who
//! decides whether to report and go on or to stop.

use crate::ast::Symbol;
use crate::value::{Builtin, Value, ValueModel};
use vstd::prelude::*;

verus! {

/// The form in which a failure arose.
#[derive(Clone, Copy, Debug, PartialEq, Eq, Structural)]
pub enum Form {
    /// The application of a native operation.
    BuiltIn(Builtin),
    /// The call of a closure.
    Closure,
}

/// How many operands a form takes.
#[derive(Clone, Copy, Debug, PartialEq, Eq, Structural)]
pub enum Arity {
    Exactly(usize),
    AtLeast(usize),
}

/// The kind of value that a form asks for.
#[derive(Clone, Copy, Debug, PartialEq, Eq, Structural)]
pub enum Kind {
    Bool,
    Integer,
    Float,
    /// An integer or a float.
    Number,
    /// A boolean, an integer or a float.
    Scalar,
}

/// What is wrong with the shape of a special form.
#[derive(Clone, Copy, Debug, PartialEq, Eq, Structural)]
pub enum Reason {
    /// The first operand of `def` is not a symbol.
    NameNotSymbol,
    /// The first operand of `fn` is not a list.
    ParamsNotList,
    /// An item of the parameter list of `fn` is not a symbol.
    ParamNotSymbol,
}

/// A failure of the program under evaluation.
#[derive(Debug, PartialEq, Eq)]
#[allow(inconsistent_fields)]
pub enum EvalError {
    /// No frame of the chain binds the symbol.
    UnknownSymbol(Symbol),
    /// The operator of an application evaluated to this value, which is no function.
    NotAFunction(Value),
    /// The empty list was evaluated.
    EmptyApplication,
    ArityMismatch { form: Form, expected: Arity, actual: usize },
    /// An operand evaluated to `found`, which is not of the kind `expected`.
    TypeMismatch { form: Form, expected: Kind, found: Value },
    MalformedSpecialForm { form: Form, reason: Reason },
}

/// A limit of the machine, met while evaluating.
#[derive(Clone, Copy, Debug, PartialEq, Eq, Structural)]
pub enum Fault {
    /// Applications were nested deeper than the environment's depth limit.
    DepthExhausted,
    /// An integer was divided by zero.
    DivisionByZero,
    /// The result of an integer operation does not fit in 64 bits.
    IntegerOverflow,
}

/// Why an evaluation yielded no value.
#[derive(Debug, PartialEq, Eq)]
pub enum Failure {
    Error(EvalError),
    Fault(Fault),
}

/// The mathematical model of an [`EvalError`].
#[allow(inconsistent_fields)]
pub enum EvalErrorModel {
    UnknownSymbol(Seq<char>),
    NotAFunction(ValueModel),
    EmptyApplication,
    ArityMismatch { form: Form, expected: Arity, actual: usize },
    TypeMismatch { form: Form, expected: Kind, found: ValueModel },
    MalformedSpecialForm { form: Form, reason: Reason },
}

/// The mathematical model of a [`Failure`].
pub enum FailureModel {
    Error(EvalErrorModel),
    Fault(Fault),
}

/// What an evaluation yields, as a model.
pub type Outcome = Result<ValueModel, FailureModel>;

impl View for EvalError {
    type V = EvalErrorModel;

    open spec fn view(&self) -> EvalErrorModel {
        match self {
            EvalError::UnknownSymbol(name) => EvalErrorModel::UnknownSymbol(name@),
            EvalError::NotAFunction(value) => EvalErrorModel::NotAFunction(value@),
            EvalError::EmptyApplication => EvalErrorModel::EmptyApplication,
            EvalError::ArityMismatch { form, expected, actual } => EvalErrorModel::ArityMismatch {
                form: *form,
                expected: *expected,
                actual: *actual,
            },
            EvalError::TypeMismatch { form, expected, found } => EvalErrorModel::TypeMismatch {
                form: *form,
                expected: *expected,
                found: found@,
            },
            EvalError::MalformedSpecialForm { form, reason } => EvalErrorModel::MalformedSpecialForm {
                form: *form,
                reason: *reason,
            },
        }
    }
}

impl View for Failure {
    type V = FailureModel;

    open spec fn view(&self) -> FailureModel {
        match self {
            Failure::Error(error) => FailureModel::Error(error@),
            Failure::Fault(fault) => FailureModel::Fault(*fault),
        }
    }
}

/// The model of what an evaluation yields.
pub open spec fn outcome_model(outcome: Result<Value, Failure>) -> Outcome {
    match outcome {
        Ok(value) => Ok(value@),
        Err(failure) => Err(failure@),
    }
}

impl Clone for EvalError {
    fn clone(&self) -> (copy: EvalError)
        ensures
            copy@ == self@,
    {
        match self {
            EvalError::UnknownSymbol(name) => EvalError::UnknownSymbol(name.clone()),
            EvalError::NotAFunction(value) => EvalError::NotAFunction(value.clone()),
            EvalError::EmptyApplication => EvalError::EmptyApplication,
            EvalError::ArityMismatch { form, expected, actual } => EvalError::ArityMismatch {
                form: *form,
                expected: *expected,
                actual: *actual,
            },
            EvalError::TypeMismatch { form, expected, found } => EvalError::TypeMismatch {
                form: *form,
                expected: *expected,
                found: found.clone(),
            },
            EvalError::MalformedSpecialForm { form, reason } => EvalError::MalformedSpecialForm {
                form: *form,
                reason: *reason,
            },
        }
    }
}

impl Clone for Failure {
    fn clone(&self) -> (copy: Failure)
        ensures
            copy@ == self@,
    {
        match self {
            Failure::Error(error) => Failure::Error(error.clone()),
            Failure::Fault(fault) => Failure::Fault(*fault),
        }
    }
}

} // verus!
