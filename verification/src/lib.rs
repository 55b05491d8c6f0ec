//! Core logic of a Tezos peer-to-peer traffic debugger: reassembly and
//! decryption bookkeeping for captured peer streams, the registry of
//! observed connections, and secondary index keys for stored messages.

mod wire;
pub mod utility;
pub mod system;
pub mod storage_;

pub use wire::read_u16_be;
