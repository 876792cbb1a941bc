//! Reading Septentrio binary (SBF) receiver streams: framing, checksums, block
//! decoding, and the assembly of decoded blocks into observation epochs and a
//! per-satellite ephemeris store.
pub mod block;
pub mod bytes;
pub mod convert;
pub mod correlate;
pub mod crc;
pub mod cursor;
pub mod decode;
pub mod encode;
pub mod frame;
pub mod integrity;
pub mod pipeline;
pub mod stream;
