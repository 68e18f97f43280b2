//! The key dump of a console (`keys.bin`, as BootMii writes it): 0x400
//! bytes of keys, identifiers and counters, big-endian.

use vstd::prelude::*;
use crate::bytes::{copy_range, read_be_u16, read_be_u32, seq_be_u16, seq_be_u32};

verus! {

/// Size of a key dump.
pub const KEY_DUMP_SIZE: usize = 0x400;

/// A boot2 counter of the dump.
#[derive(Debug, Clone, Copy, PartialEq, Eq, Structural)]
pub struct BootMiiKeyDumpCounter {
    pub boot2version: u8,
    pub unknown1: u8,
    pub unknown2: u8,
    pub pad: u8,
    pub update_tag: u32,
    pub checksum: u16,
}

/// The fields of a key dump. `union_data` holds the 0x30 bytes that are
/// both the console's private key (the first 0x1e bytes) and the NAND HMAC
/// key (the last 0x14 bytes).
#[derive(Debug, Clone)]
pub struct BootMiiKeyDump {
    pub creator: Vec<u8>,
    pub boot1_hash: Vec<u8>,
    pub common_key: Vec<u8>,
    pub ng_id: u32,
    pub union_data: Vec<u8>,
    pub nand_key: Vec<u8>,
    pub backup_key: Vec<u8>,
    pub unk1: u32,
    pub unk2: u32,
    pub eeprom_pad: Vec<u8>,
    pub ms_id: u32,
    pub ca_id: u32,
    pub ng_key_id: u32,
    pub ng_sig: Vec<u8>,
    pub counters: [BootMiiKeyDumpCounter; 2],
    pub fill: Vec<u8>,
    pub korean_key: Vec<u8>,
    pub pad3: Vec<u8>,
    pub prng_seed: [u16; 2],
    pub pad4: Vec<u8>,
    pub crack_pad: Vec<u8>,
}

/// The counter stored at `off` in `b`.
pub open spec fn counter_at(b: Seq<u8>, off: int) -> BootMiiKeyDumpCounter {
    BootMiiKeyDumpCounter {
        boot2version: b[off],
        unknown1: b[off + 1],
        unknown2: b[off + 2],
        pad: b[off + 3],
        update_tag: seq_be_u32(b, off + 4),
        checksum: seq_be_u16(b, off + 8),
    }
}

/// `d` holds the fields of the dump at the start of `b`, each at its
/// offset.
pub open spec fn is_key_dump_of(d: BootMiiKeyDump, b: Seq<u8>) -> bool {
    &&& d.creator@ == b.subrange(0, 0x100)
    &&& d.boot1_hash@ == b.subrange(0x100, 0x114)
    &&& d.common_key@ == b.subrange(0x114, 0x124)
    &&& d.ng_id == seq_be_u32(b, 0x124)
    &&& d.union_data@ == b.subrange(0x128, 0x158)
    &&& d.nand_key@ == b.subrange(0x158, 0x168)
    &&& d.backup_key@ == b.subrange(0x168, 0x178)
    &&& d.unk1 == seq_be_u32(b, 0x178)
    &&& d.unk2 == seq_be_u32(b, 0x17C)
    &&& d.eeprom_pad@ == b.subrange(0x180, 0x200)
    &&& d.ms_id == seq_be_u32(b, 0x200)
    &&& d.ca_id == seq_be_u32(b, 0x204)
    &&& d.ng_key_id == seq_be_u32(b, 0x208)
    &&& d.ng_sig@ == b.subrange(0x20C, 0x248)
    &&& d.counters[0] == counter_at(b, 0x248)
    &&& d.counters[1] == counter_at(b, 0x252)
    &&& d.fill@ == b.subrange(0x25C, 0x274)
    &&& d.korean_key@ == b.subrange(0x274, 0x284)
    &&& d.pad3@ == b.subrange(0x284, 0x2F8)
    &&& d.prng_seed[0] == seq_be_u16(b, 0x2F8)
    &&& d.prng_seed[1] == seq_be_u16(b, 0x2FA)
    &&& d.pad4@ == b.subrange(0x2FC, 0x300)
    &&& d.crack_pad@ == b.subrange(0x300, 0x400)
}

/// Reads the counter at `off`.
fn read_counter(b: &[u8], off: usize) -> (r: BootMiiKeyDumpCounter)
    requires
        off + 10 <= b@.len(),
    ensures
        r == counter_at(b@, off as int),
{
    BootMiiKeyDumpCounter {
        boot2version: b[off],
        unknown1: b[off + 1],
        unknown2: b[off + 2],
        pad: b[off + 3],
        update_tag: read_be_u32(b, off + 4),
        checksum: read_be_u16(b, off + 8),
    }
}

impl BootMiiKeyDump {
    /// Reads a key dump from the start of `bytes`; none when they are
    /// fewer than a dump's 0x400.
    pub fn decode(bytes: &[u8]) -> (r: Option<BootMiiKeyDump>)
        ensures
            r is Some <==> bytes@.len() >= KEY_DUMP_SIZE,
            r matches Some(d) ==> is_key_dump_of(d, bytes@),
    {
        if bytes.len() < KEY_DUMP_SIZE {
            return None;
        }
        let counter0 = read_counter(bytes, 0x248);
        let counter1 = read_counter(bytes, 0x252);
        let d = BootMiiKeyDump {
            creator: copy_range(bytes, 0, 0x100),
            boot1_hash: copy_range(bytes, 0x100, 20),
            common_key: copy_range(bytes, 0x114, 0x10),
            ng_id: read_be_u32(bytes, 0x124),
            union_data: copy_range(bytes, 0x128, 0x30),
            nand_key: copy_range(bytes, 0x158, 0x10),
            backup_key: copy_range(bytes, 0x168, 0x10),
            unk1: read_be_u32(bytes, 0x178),
            unk2: read_be_u32(bytes, 0x17C),
            eeprom_pad: copy_range(bytes, 0x180, 0x80),
            ms_id: read_be_u32(bytes, 0x200),
            ca_id: read_be_u32(bytes, 0x204),
            ng_key_id: read_be_u32(bytes, 0x208),
            ng_sig: copy_range(bytes, 0x20C, 60),
            counters: [counter0, counter1],
            fill: copy_range(bytes, 0x25C, 24),
            korean_key: copy_range(bytes, 0x274, 0x10),
            pad3: copy_range(bytes, 0x284, 0x74),
            prng_seed: [read_be_u16(bytes, 0x2F8), read_be_u16(bytes, 0x2FA)],
            pad4: copy_range(bytes, 0x2FC, 4),
            crack_pad: copy_range(bytes, 0x300, 0x100),
        };
        Some(d)
    }
}

} // verus!
