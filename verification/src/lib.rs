//! Key derivation for code that runs inside an SGX enclave.
//!
//! The processor yields sixteen bytes of key material per `EGETKEY`
//! instruction. This library decides which requests to issue to fill a buffer
//! of any length, turns the raw status words of the instructions into a typed
//! error, and leaves the instructions themselves to the caller.

pub mod ecalls;
pub mod independence;
pub mod isa;
pub mod key_fill;
pub mod keyrequest;
pub mod sgx_cipher;

pub use keyrequest::{get_key, KeyOpts};
