//! Wii-specific formats: disc regions and partitions, titles, tickets,
//! title metadata and certificates.

pub mod consts;
pub mod crypto;
pub mod disc;
