//! The errors of the adapters.
use vstd::prelude::*;

verus! {

/// Errors of the conversion and transmission of LED data.
#[derive(Clone, Copy, Debug, PartialEq, Eq, Structural)]
pub enum LedAdapterError {
    /// The buffer is too small for the encoded colors.
    BufferSizeExceeded,
    /// The peripheral reported a failure while sending.
    TransmissionError(RmtError),
}

/// The failures that the RMT peripheral reports.
#[derive(Clone, Copy, Debug, PartialEq, Eq, Structural)]
pub enum RmtError {
    /// The amount of pulses exceeds the size of the FIFO.
    Overflow,
    /// An argument is invalid.
    InvalidArgument,
    /// An error occurred during transmission.
    TransmissionError,
    /// No transmission end marker found.
    EndMarkerMissing,
    /// The data length is invalid.
    InvalidDataLength,
    /// Receiver error, most likely an RMT memory overflow.
    ReceiverError,
}

impl From<RmtError> for LedAdapterError {
    fn from(e: RmtError) -> (r: Self)
        ensures
            r == LedAdapterError::TransmissionError(e),
    {
        LedAdapterError::TransmissionError(e)
    }
}

impl vstd::std_specs::convert::FromSpecImpl<RmtError> for LedAdapterError {
    open spec fn obeys_from_spec() -> bool {
        true
    }

    open spec fn from_spec(e: RmtError) -> Self {
        LedAdapterError::TransmissionError(e)
    }
}

} // verus!
