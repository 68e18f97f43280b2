//! Verified core of a GameCube / Wii disc patcher: binary layouts of disc
//! structures, signed-blob readers, the emulated IOS crypto engine and the
//! big-number / binary-field arithmetic it relies on.

pub mod bytes;
pub mod changes;
pub mod checksum;
pub mod config;
pub mod endian;
pub mod disc;
pub mod dol;
pub mod crypto;
pub mod iosc;
pub mod iso;
pub mod patch_archive;
pub mod text;
pub mod update;
pub mod vfs;
pub mod wii;
