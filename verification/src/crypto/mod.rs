//! Cryptographic building blocks.

pub mod aes;
pub mod bn;
pub mod ec;
pub mod keys;
pub mod sha1;
