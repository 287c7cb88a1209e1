//! Failures of evaluation and of reading program text.
use vstd::prelude::*;

verus! {

/// Why an evaluation failed. The first failure aborts the whole evaluation.
#[derive(Debug, Clone, Copy, PartialEq, Eq, Structural)]
pub enum EvalError {
    /// An identifier that is neither bound nor a built-in name.
    UnboundIdentifier,
    /// `set!` of a name that no frame of the chain binds.
    UnboundAssignment,
    /// Evaluation of `()`, or of an empty sequence of expressions.
    EmptyApplication,
    /// A primitive, `and`, `or`, or a closure given the wrong number of arguments.
    ArityMismatch,
    /// A value of the wrong kind handed to a primitive or a special form.
    TypeError,
    /// A `cond` clause that is not a two-element list.
    MalformedCond,
    /// A `lambda` whose parameters are not a list of identifiers, or without a body.
    InvalidParameterList,
    /// Application of a value that is not a primitive or a closure.
    NotApplicable,
    /// Integer division by zero.
    DivisionByZero,
    /// An integer result outside the 64-bit signed range.
    Overflow,
    /// A malformed `let`, `let*`, `define` or `set!`.
    MalformedBinding,
    /// Evaluation nested deeper than the evaluator allows, or no frame index left.
    LimitExceeded,
}

/// Why program text could not be read.
#[derive(Debug, Clone, Copy, PartialEq, Eq, Structural)]
pub enum SyntaxError {
    /// A run of digits whose value does not fit in 64 signed bits.
    IntegerOutOfRange,
    /// The text ended where an expression was expected.
    UnexpectedEnd,
    /// A `)` where an expression was expected.
    UnexpectedToken,
    /// A `(` with nothing after it.
    EmptyListBody,
    /// A list that is not closed by `)`.
    UnclosedList,
    /// A `)` with no matching `(`.
    LeftoverTokens,
}

} // verus!
