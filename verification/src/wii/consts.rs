//! Geometry of encrypted Wii partitions.

use vstd::prelude::*;

verus! {

/// Size of a SHA-1 hash.
pub const WII_HASH_SIZE: usize = 20;
/// Size of an AES-128 key.
pub const WII_KEY_SIZE: usize = 16;
/// Number of common keys.
pub const WII_CKEY_AMNT: usize = 3;
/// Offset of the H3 table in a partition.
pub const WII_H3_OFFSET: u64 = 0x8000;
/// Size of the H3 table.
pub const WII_H3_SIZE: u64 = 0x18000;
/// Offsets of the H0, H1 and H2 hash tables in a sector's hash block.
pub const WII_HX_OFFSETS: [usize; 3] = [0, 0x280, 0x340];
/// Size of the hash block that starts each sector.
pub const WII_SECTOR_HASH_SIZE: usize = 0x400;
/// Size of a sector.
pub const WII_SECTOR_SIZE: usize = 0x8000;
/// Size of the data of a sector, after its hash block.
pub const WII_SECTOR_DATA_SIZE: u64 = 0x7c00;
/// Offset of the IV of a sector's data, inside its hash block.
pub const WII_SECTOR_IV_OFF: u64 = 0x3D0;
/// Offset of the partition table on a Wii disc.
pub const WII_PARTITION_INFO_OFFSET: u64 = 0x40000;
/// Size of the chunks of sector data hashed together into H0.
pub const WII_SECTOR_DATA_HASH_SIZE: u64 = 0x400;
/// Number of chunks of data hashed into H0.
pub const WII_SECTOR_DATA_HASH_COUNT: u64 = 31;

} // verus!
