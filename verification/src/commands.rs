//! The fixed command packets the sensor understands. In an outgoing command
//! the discriminator sits in byte 2 and byte 1 holds the address byte `0x01`,
//! the reverse of a response packet's layout.

use vstd::prelude::*;

verus! {

/// Read "final" CO2 concentration.
pub const READ_CO2: [u8; 9] = [0xff, 0x01, 0x86, 0x00, 0x00, 0x00, 0x00, 0x00, 0x79];

/// Read raw CO2 concentration.
pub const READ_RAW_CO2: [u8; 9] = [0xff, 0x01, 0x85, 0x00, 0x00, 0x00, 0x00, 0x00, 0x7a];

} // verus!
