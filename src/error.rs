use vstd::prelude::*;

verus! {

/// Status code of a protocol operation, as reported across a handle boundary.
#[derive(Clone, Copy, Debug, PartialEq, Eq, Structural)]
pub enum DpfStatus {
    Success,
    InvalidArgument,
    Internal,
    OutOfMemory,
}

/// Failure of a protocol operation.
#[derive(Clone, Copy, Debug, PartialEq, Eq, Structural)]
pub enum Error {
    /// Malformed or out-of-range input from the caller.
    InvalidArgument,
    /// Misuse of protocol state, such as a request that was already consumed.
    Internal,
    /// Resources for the operation were exhausted.
    OutOfMemory,
}

/// The error that a status code stands for, if any.
pub open spec fn status_result(status: DpfStatus) -> Result<(), Error> {
    match status {
        DpfStatus::Success => Ok(()),
        DpfStatus::InvalidArgument => Err(Error::InvalidArgument),
        DpfStatus::Internal => Err(Error::Internal),
        DpfStatus::OutOfMemory => Err(Error::OutOfMemory),
    }
}

/// Turns a status code into a `Result`: success is `Ok`, each failure its error.
pub fn check_status(status: DpfStatus) -> (r: Result<(), Error>)
    ensures
        r == status_result(status),
{
    match status {
        DpfStatus::Success => Ok(()),
        DpfStatus::InvalidArgument => Err(Error::InvalidArgument),
        DpfStatus::Internal => Err(Error::Internal),
        DpfStatus::OutOfMemory => Err(Error::OutOfMemory),
    }
}

} // verus!
