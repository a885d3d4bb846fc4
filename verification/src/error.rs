//! The error value that every fallible matrix operation returns.

use vstd::prelude::*;
use vstd::string::StringExecFns;

verus! {

/// The closed set of failure kinds.
#[derive(Debug, Clone, Copy, PartialEq, Eq, Structural)]
pub enum MathMatrixErrorKind {
    /// Malformed shape or data at construction.
    FailedToInitialize,
    /// An index outside the half-open range of a dimension.
    OutOfBoundary,
    /// Incompatible dimensions.
    SizeMismatch,
    /// A zero pivot, which elimination without pivoting cannot pass.
    FailedToDecompose,
    /// An operation that the matrix's shape does not allow.
    OperationNotPermitted,
}

/// The name of a kind, as it appears in rendered errors.
pub open spec fn kind_name(kind: MathMatrixErrorKind) -> Seq<char> {
    match kind {
        MathMatrixErrorKind::FailedToInitialize => "FailedToInitialize"@,
        MathMatrixErrorKind::OutOfBoundary => "OutOfBoundary"@,
        MathMatrixErrorKind::SizeMismatch => "SizeMismatch"@,
        MathMatrixErrorKind::FailedToDecompose => "FailedToDecompose"@,
        MathMatrixErrorKind::OperationNotPermitted => "OperationNotPermitted"@,
    }
}

/// The rendering of an error: the kind's name, then `" error: "`, then the message.
pub open spec fn rendered(kind: MathMatrixErrorKind, message: Seq<char>) -> Seq<char> {
    kind_name(kind) + " error: "@ + message
}

fn kind_text(kind: MathMatrixErrorKind) -> (s: &'static str)
    ensures
        s@ == kind_name(kind),
{
    match kind {
        MathMatrixErrorKind::FailedToInitialize => "FailedToInitialize",
        MathMatrixErrorKind::OutOfBoundary => "OutOfBoundary",
        MathMatrixErrorKind::SizeMismatch => "SizeMismatch",
        MathMatrixErrorKind::FailedToDecompose => "FailedToDecompose",
        MathMatrixErrorKind::OperationNotPermitted => "OperationNotPermitted",
    }
}

/// A failure kind with a free-form message. Immutable once created.
#[derive(Debug)]
pub struct MathMatrixError {
    kind: MathMatrixErrorKind,
    message: String,
}

impl MathMatrixError {
    /// The failure kind.
    pub closed spec fn kind(&self) -> MathMatrixErrorKind {
        self.kind
    }

    /// The message.
    pub closed spec fn message(&self) -> Seq<char> {
        self.message@
    }

    pub fn new(kind: MathMatrixErrorKind, message: String) -> (e: Self)
        ensures
            e.kind() == kind,
            e.message() == message@,
    {
        Self { kind, message }
    }

    /// The kind's name.
    pub fn get_kind(&self) -> (s: String)
        ensures
            s@ == kind_name(self.kind()),
    {
        String::from_str(kind_text(self.kind))
    }

    /// A copy of the message.
    pub fn get_message(&self) -> (s: String)
        ensures
            s@ == self.message(),
    {
        self.message.clone()
    }

    /// The error as `"<kind> error: <message>"`.
    pub fn to_string(&self) -> (s: String)
        ensures
            s@ == rendered(self.kind(), self.message()),
    {
        let mut s = String::from_str(kind_text(self.kind));
        s.append(" error: ");
        s.append(self.message.as_str());
        s
    }
}

} // verus!
