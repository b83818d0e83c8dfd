//! Client-side codec and addressing engine for the MC protocol (3E/4E frames)
//! used to read and write PLC device memory.
//!
//! The crate covers frame assembly, device-address encoding across PLC series,
//! fixed-width value encoding and decoding with endianness and signedness
//! rules, bit-level packing for boolean devices, the batch and random access
//! command payloads, and response status decoding.  Transport (TCP connect,
//! send, receive) is left to the caller.

pub mod db;
pub mod err;
pub mod frame;
pub mod laws;
pub mod session;
pub mod tag;
pub mod text;
pub mod wire;
