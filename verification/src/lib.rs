//! Driver core for a family of infrared CO2 sensors that speak a fixed-size,
//! checksummed binary packet protocol over a serial transport.
//!
//! The library holds the packet codec (checksum arithmetic and typed decoding)
//! and the framing engine that turns arbitrarily chunked byte streams into
//! aligned, complete packets. Transport I/O stays with the caller: the engine
//! is driven by handing it the bytes of each read.

use vstd::prelude::*;

pub mod commands;
mod error;
pub mod framing;
mod hvec;
pub mod measurement;

pub use error::Error;
pub use error::max;
pub use framing::FramingReader;
pub use measurement::Measurement;
pub use measurement::RawMeasurement;
pub use measurement::checksum;
pub use measurement::checksum_valid;
pub use measurement::decode_co2_response;
pub use measurement::decode_raw_co2_response;

verus! {

/// Length in bytes of every packet exchanged with the sensor.
pub const PAYLOAD_SIZE: usize = 9;

/// A struct representing sensor interface: the two halves of the serial
/// transport the sensor is wired to. The transaction logic around them reads
/// and writes through whatever stream types the caller supplies.
pub struct MHZ<Tx, Rx> {
    /// Transmitting half of the UART.
    pub uart_tx: Tx,
    /// Receiving half of the UART.
    pub uart_rx: Rx,
}

impl<Tx, Rx> MHZ<Tx, Rx> {
    /// Constructs the sensor interface from 2 'halves' of UART.
    /// # Warning, take care to setup the UART with the correct settings:
    /// - Baudrate: 9600
    /// - Date bits: 8 bits
    /// - Stop bits: 1 bit
    /// - Calibrate byte: no
    pub fn from_tx_rx(uart_tx: Tx, uart_rx: Rx) -> (r: MHZ<Tx, Rx>)
        ensures
            r.uart_tx == uart_tx,
            r.uart_rx == uart_rx,
    {
        MHZ { uart_tx, uart_rx }
    }
}

} // verus!
