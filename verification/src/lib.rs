//! Encoding of WSPR (Weak Signal Propagation Reporter) transmissions, and the
//! register arithmetic used to drive a Raspberry Pi GPIO clock as a transmitter.

pub mod bitarray;
pub mod callsign;
pub mod clock;
pub mod convolution;
pub mod image;
pub mod interleave;
pub mod locator;
pub mod message;
pub mod symbols;
