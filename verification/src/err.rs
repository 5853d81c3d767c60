//! The ways in which a run ends early.

use vstd::prelude::*;

verus! {

/// `std::io::Error`, the error of a byte sink or source as the host's
/// transport reports it. The machine carries such a value and never looks
/// into it: nothing is claimed of what it holds.
#[verifier::external_type_specification]
#[verifier::external_body]
pub struct ExIoError(std::io::Error);

/// Why the machine refused to go on.
#[derive(Debug)]
pub enum Error {
    /// The stop slot was found set at a poll point. A deliberate abort, no failure.
    Stopped,
    /// A cell was to be written that no tape can hold: the one at index
    /// `usize::MAX`, which a pointer without limit can reach.
    OutOfBounds,
    /// A loop close arrived while no loop was open.
    NoLoopStarted,
    /// The program ended inside a loop.
    UnendedLoop,
    /// The pointer would have left the range that the bounds policy permits.
    CellPointerOverflow,
    /// The host's sink or source failed.
    IoError(std::io::Error),
}

impl From<std::io::Error> for Error {
    /// The failure of a sink or source, as an error of a run.
    fn from(e: std::io::Error) -> (r: Error)
        ensures
            r == Error::IoError(e),
    {
        Error::IoError(e)
    }
}

impl vstd::std_specs::convert::FromSpecImpl<std::io::Error> for Error {
    open spec fn obeys_from_spec() -> bool {
        true
    }

    open spec fn from_spec(e: std::io::Error) -> Error {
        Error::IoError(e)
    }
}

} // verus!
