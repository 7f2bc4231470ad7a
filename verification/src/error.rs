//! Error kinds returned by the planning core.

use vstd::prelude::*;

verus! {

/// The ways in which an operation of this crate can fail.
#[derive(Debug, Clone, Copy, PartialEq, Eq, Structural)]
pub enum ErrorCodes {
    /// A column name is absent from the schema it was looked up in.
    FieldNotFound,
    /// A function name is absent from the registry it was looked up in.
    FunctionNotFound,
    /// A function rejects the types of the arguments it was given.
    TypeError,
    /// An action was materialised as the wrong aggregation kind.
    LogicalError,
    /// A merge was asked for over no blocks at all.
    EmptyData,
    /// An expression has no data type (a wildcard).
    IllegalDataType,
    /// The array library turned the request down.
    UnknownException,
}

} // verus!
