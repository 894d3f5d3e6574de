//! Encoding of MDIO clause-22 management frame headers, and the chunked
//! write and read transactions that carry them over a byte stream.

pub mod frame;
pub mod transport;
pub mod memory;
