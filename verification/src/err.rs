//! The error taxonomy of the inference engine. Every rule and pass returns
//! a result; the first failure anywhere aborts the whole inference call.

use vstd::prelude::*;

verus! {

/// The kind of an operation, used to report which kind had no rule.
#[derive(Clone, Copy, Debug, PartialEq, Eq, Structural)]
pub enum OpKind {
    Variable,
    MethodCall,
    Call,
    Tuple,
    Ref,
    Unpack,
    Write,
    Read,
    Return,
}

/// Why inference failed.
///
/// - `Mismatch`: two structurally incompatible types were unified.
/// - `MalformedConstraint`: a backward rule required its operation's output
///   type to already have a specific shape (a record) and it did not.
/// - `UnsupportedOperation`: dispatch met an operation kind with no rule.
/// - `NonConvergence`: the cross-block fixpoint did not stabilize within
///   its iteration bound.
#[derive(Clone, Copy, Debug, PartialEq, Eq, Structural)]
pub enum TypeError {
    Mismatch,
    MalformedConstraint,
    UnsupportedOperation(OpKind),
    NonConvergence,
}

} // verus!
