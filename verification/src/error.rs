//! What can go wrong with an attach, a detach or a command line.

use vstd::prelude::*;

use crate::dm::{DmError, DmErrorModel, IoError, IoErrorModel};

verus! {

/// Errors of the read side.
#[derive(Debug, PartialEq, Eq)]
pub enum CarapaceError {
    /// A wrong command line.
    Usage(String),
    /// A partition of the chain is not there (yet).
    PartitionNotFound { detail: String },
    /// The chain was read, and is not to be trusted.
    Rejected(String),
    /// The device-mapper layer failed.
    Dm(DmError),
    /// The operating system failed.
    Io(IoError),
}

/// What a [`CarapaceError`] says.
pub enum CarapaceErrorModel {
    Usage(Seq<char>),
    PartitionNotFound { detail: Seq<char> },
    Rejected(Seq<char>),
    Dm(DmErrorModel),
    Io(IoErrorModel),
}

impl View for CarapaceError {
    type V = CarapaceErrorModel;

    open spec fn view(&self) -> CarapaceErrorModel {
        match self {
            CarapaceError::Usage(text) => CarapaceErrorModel::Usage(text@),
            CarapaceError::PartitionNotFound { detail } => CarapaceErrorModel::PartitionNotFound {
                detail: detail@,
            },
            CarapaceError::Rejected(text) => CarapaceErrorModel::Rejected(text@),
            CarapaceError::Dm(e) => CarapaceErrorModel::Dm(e@),
            CarapaceError::Io(e) => CarapaceErrorModel::Io(e@),
        }
    }
}

impl CarapaceError {
    /// Whether the chain itself was rejected, as opposed to an operational failure.
    pub fn is_adversary_rejection(&self) -> (r: bool)
        ensures
            r == (self is Rejected),
    {
        match self {
            CarapaceError::Rejected(_) => true,
            _ => false,
        }
    }
}

/// An error says what it holds, and only a rejected chain is a rejection.
pub proof fn law_errors_say_what_they_hold(
    text: String,
    dm: DmError,
    io: IoError,
    e: &CarapaceError,
    rejected: bool,
)
    requires
        call_ensures(CarapaceError::is_adversary_rejection, (e,), rejected),
    ensures
        CarapaceError::Usage(text)@ == CarapaceErrorModel::Usage(text@),
        (CarapaceError::PartitionNotFound { detail: text })@ == (
        CarapaceErrorModel::PartitionNotFound { detail: text@ }),
        CarapaceError::Rejected(text)@ == CarapaceErrorModel::Rejected(text@),
        CarapaceError::Dm(dm)@ == CarapaceErrorModel::Dm(dm@),
        CarapaceError::Io(io)@ == CarapaceErrorModel::Io(io@),
        rejected <==> e@ is Rejected,
{
}

} // verus!
