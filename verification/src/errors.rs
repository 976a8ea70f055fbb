//! The failure taxonomy of the execution engine.

use vstd::prelude::*;

verus! {

/// Every way an operation of the engine can fail.
///
/// A failure aborts the remainder of the current line; there is no local
/// recovery, and no rollback of the stack or store mutations that preceded
/// the failure.
#[derive(Debug, Clone, Copy, PartialEq, Eq, Structural)]
pub enum ForthError {
    /// An operation needed more operands than the stack held.
    StackUnderflow,
    /// Operands were present but of the wrong variant, not comparable,
    /// or otherwise semantically invalid (division by zero, a quotient
    /// that does not fit the cell, an out-of-range scalar value for
    /// `emit`, a pointer that addresses no variable slot).
    InvalidOperands,
    /// A name token resolved to neither a variable, a constant, a native
    /// primitive, nor a user-defined word.
    UndefinedWord,
    /// The line of text did not match the grammar.
    SyntaxError,
    /// A user-defined word nested deeper than the engine's call-depth guard
    /// allows; the guard stands in for the host call-stack limit.
    RecursionLimit,
}

} // verus!
