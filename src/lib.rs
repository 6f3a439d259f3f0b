//! A transport-tunnelling relay: the cipher, the encrypting stream wrapper,
//! the copy engine and the per-connection decisions, with their contracts.

pub mod args;
pub mod bytes;
pub mod cipher;
pub mod copy;
pub mod handler;
pub mod stream;
