//! What can go wrong.

use vstd::prelude::*;

verus! {

/// What went wrong while reading or building a drawing.
#[derive(Clone, Copy, Debug, PartialEq, Eq, Structural)]
pub enum DxfError {
    /// A text did not have the expected form.
    MalformedString,
    /// A text that should hold a real number does not.
    ParseFloatError,
    /// A text that should hold a handle does not.
    ParseHandleError,
    /// The code pairs ended before the drawing did.
    UnexpectedEndOfInput,
    /// A code pair appeared where it may not; the pair's code.
    UnexpectedCodePair(i32),
    /// A code pair's value had the wrong type for its code; the pair's code.
    WrongValueType(i32),
}

/// The result of an operation that may fail with a `DxfError`.
pub type DxfResult<T> = Result<T, DxfError>;

} // verus!
