//! The errors that an evaluation records.

use vstd::prelude::*;
use crate::ast::Range;
use crate::const_value::{Type, TypeView};

verus! {

/// What went wrong.
#[derive(Debug, PartialEq, Eq)]
pub enum EvaluationErrorKind {
    /// An argument of a call has the first type where the parameter it is
    /// passed for has the second.
    TypeMismatch(Type, Type),
    /// A name is bound to no value.
    UnresolvedIdentifier,
    /// What is called is no function of this scope graph.
    UnmatchedCallTarget,
    /// A member access does not resolve: it has none of the shapes that are
    /// followed, what it starts from is no record instance, or a member on
    /// the way is missing.
    UnrecognizedMemberAccess,
    /// The operator does not combine operands of these types.
    UnsupportedOperation,
    /// An integer is divided by zero.
    DivisionByZero,
    /// A call would nest deeper than the evaluator allows. This is recorded
    /// whatever the strictness.
    CallTooDeep,
}

/// An error with the source range it belongs to.
#[derive(Debug, PartialEq, Eq)]
pub struct EvaluationError {
    pub kind: EvaluationErrorKind,
    pub range: Range,
}

/// The kind of an error as mathematics.
pub enum ErrorKindView {
    TypeMismatch(TypeView, TypeView),
    UnresolvedIdentifier,
    UnmatchedCallTarget,
    UnrecognizedMemberAccess,
    UnsupportedOperation,
    DivisionByZero,
    CallTooDeep,
}

/// An error as mathematics.
pub struct ErrorView {
    pub kind: ErrorKindView,
    pub range: Range,
}

impl View for EvaluationErrorKind {
    type V = ErrorKindView;

    open spec fn view(&self) -> ErrorKindView {
        match *self {
            EvaluationErrorKind::TypeMismatch(found, expected) => ErrorKindView::TypeMismatch(
                found@,
                expected@,
            ),
            EvaluationErrorKind::UnresolvedIdentifier => ErrorKindView::UnresolvedIdentifier,
            EvaluationErrorKind::UnmatchedCallTarget => ErrorKindView::UnmatchedCallTarget,
            EvaluationErrorKind::UnrecognizedMemberAccess => ErrorKindView::UnrecognizedMemberAccess,
            EvaluationErrorKind::UnsupportedOperation => ErrorKindView::UnsupportedOperation,
            EvaluationErrorKind::DivisionByZero => ErrorKindView::DivisionByZero,
            EvaluationErrorKind::CallTooDeep => ErrorKindView::CallTooDeep,
        }
    }
}

impl View for EvaluationError {
    type V = ErrorView;

    open spec fn view(&self) -> ErrorView {
        ErrorView { kind: self.kind@, range: self.range }
    }
}

/// The views of a run of errors.
pub open spec fn errors_view(errors: Seq<EvaluationError>) -> Seq<ErrorView> {
    Seq::new(errors.len(), |i: int| errors[i]@)
}

} // verus!
