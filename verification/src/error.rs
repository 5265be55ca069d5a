//! Errors of one request/response transaction. All are terminal for the
//! transaction: the engine never retries internally.

use vstd::prelude::*;

verus! {

/// What can go wrong during one exchange with the sensor. Transport causes
/// are opaque to this layer and carried through unchanged.
#[derive(Debug, Clone, PartialEq, Eq)]
pub enum Error<TxError, RxError> {
    /// A syntactically complete packet arrived, but its checksum byte does
    /// not match its interior bytes.
    InvalidChecksum,
    /// The checksum holds, but the header bytes are not those of the expected
    /// response type.
    InvalidPacket,
    /// Writing the command to the transport failed.
    WritingToUart(TxError),
    /// Flushing the transport after the write failed.
    FlushingUart(TxError),
    /// The stream closed before a complete packet could be assembled.
    ReadingEOF,
    /// Reading from the transport failed.
    Reading(RxError),
}

/// The larger of two lengths.
pub fn max(a: usize, b: usize) -> (r: usize)
    ensures
        r == if a < b {
            b as int
        } else {
            a as int
        },
{
    if a < b {
        b
    } else {
        a
    }
}

} // verus!
