//! A local, file-based credential store.
//!
//! A single encrypted container file holds a mapping from account names to
//! username/password entries, protected by a password-derived symmetric key.
//! The container is framed as a 24-byte random nonce followed by the
//! authenticated ciphertext of a canonical byte encoding of the entry store.

pub mod app;
pub mod cli;
pub mod codec;
pub mod config;
pub mod crypto;
pub mod db;
pub mod error;
pub mod store;
