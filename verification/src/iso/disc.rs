//! Wii disc structures: header, region, partition table, tickets, title
//! metadata, and the mapping between encrypted and decrypted addresses.

use vstd::prelude::*;
use crate::bytes::{
    lemma_u16_roundtrip, lemma_u32_roundtrip, lemma_u64_roundtrip, read_be_u16, read_be_u32, read_be_u64, seq_be_u16,
    seq_be_u32, seq_be_u64, splice, u16_be_bytes, u32_be_bytes, u64_be_bytes, write_be_u16,
    write_be_u32, write_be_u64, write_bytes,
};
use crate::crypto::keys::Unpackable;
use crate::disc::read_array;
use crate::text::fixed_field;
use vstd::arithmetic::power2::{pow2, lemma_pow2_pos};
use crate::bytes::{push_be_u16, push_be_u32, push_be_u64, push_bytes};
use crate::crypto::sha1::{sha1, sha1_digest};
use crate::crypto::aes::{aes128_cbc_decrypt, aes_decrypt_inplace, WiiCryptoError};
use crate::crypto::keys::{common_key, common_key_byte, AesKey, WII_CKEY_AMNT};

verus! {

/// Kinds of discs.
#[derive(Debug, Clone, Copy, PartialEq, Eq, PartialOrd, Ord, Structural)]
pub enum DiscType {
    Gamecube,
    Wii,
}

/// The header of a Wii disc, as stored in its first 0x62 bytes.
#[derive(Copy, Clone, Debug)]
pub struct WiiDiscHeader {
    pub disc_id: u8,
    pub game_code: [u8; 2],
    pub region_code: u8,
    pub maker_code: [u8; 2],
    pub disc_number: u8,
    pub disc_version: u8,
    pub audio_streaming: bool,
    pub streaming_buffer_size: u8,
    pub unk1: [u8; 14],
    pub wii_magic: u32,
    pub gc_magic: u32,
    pub game_title: [u8; 64],
    pub disable_hash_verif: u8,
    pub disable_disc_encrypt: u8,
}


/// Size of an encoded [`WiiDiscHeader`].
pub const WII_DISC_HEADER_SIZE: usize = 0x62;

impl Default for WiiDiscHeader {
    fn default() -> (r: Self)
        ensures
            wii_disc_header_decoded(r, Seq::new(WII_DISC_HEADER_SIZE as nat, |_i: int| 0u8)),
    {
        let r = WiiDiscHeader {
            disc_id: 0,
            game_code: [0u8; 2],
            region_code: 0,
            maker_code: [0u8; 2],
            disc_number: 0,
            disc_version: 0,
            audio_streaming: false,
            streaming_buffer_size: 0,
            unk1: [0u8; 14],
            wii_magic: 0,
            gc_magic: 0,
            game_title: [0u8; 64],
            disable_hash_verif: 0,
            disable_disc_encrypt: 0,
        };
        let ghost z = Seq::new(WII_DISC_HEADER_SIZE as nat, |_i: int| 0u8);
        assert(r.game_code@ =~= z.subrange(1, 3));
        assert(r.maker_code@ =~= z.subrange(4, 6));
        assert(r.unk1@ =~= z.subrange(0xA, 0x18));
        assert(r.game_title@ =~= z.subrange(0x20, 0x60));
        r
    }
}

impl Unpackable for WiiDiscHeader {
    open spec fn block_size() -> nat {
        WII_DISC_HEADER_SIZE as nat
    }

    fn get_block_size() -> (r: usize) {
        WII_DISC_HEADER_SIZE
    }
}

/// `h` is the header that the first 0x62 bytes of `s` hold.
pub open spec fn wii_disc_header_decoded(h: WiiDiscHeader, s: Seq<u8>) -> bool {
    &&& h.disc_id == s[0]
    &&& h.game_code@ == s.subrange(1, 3)
    &&& h.region_code == s[3]
    &&& h.maker_code@ == s.subrange(4, 6)
    &&& h.disc_number == s[6]
    &&& h.disc_version == s[7]
    &&& h.audio_streaming == (s[8] != 0)
    &&& h.streaming_buffer_size == s[9]
    &&& h.unk1@ == s.subrange(0xA, 0x18)
    &&& h.wii_magic == seq_be_u32(s, 0x18)
    &&& h.gc_magic == seq_be_u32(s, 0x1C)
    &&& h.game_title@ == s.subrange(0x20, 0x60)
    &&& h.disable_hash_verif == s[0x60]
    &&& h.disable_disc_encrypt == s[0x61]
}

/// The 0x62 bytes that encode `h`.
pub open spec fn wii_disc_header_bytes(h: WiiDiscHeader) -> Seq<u8> {
    seq![h.disc_id] + h.game_code@ + seq![h.region_code] + h.maker_code@ + seq![
        h.disc_number,
        h.disc_version,
        if h.audio_streaming { 1u8 } else { 0u8 },
        h.streaming_buffer_size,
    ] + h.unk1@ + u32_be_bytes(h.wii_magic) + u32_be_bytes(h.gc_magic) + h.game_title@ + seq![
        h.disable_hash_verif,
        h.disable_disc_encrypt,
    ]
}

/// Reads the disc header from the first 0x62 bytes of `raw`.
pub fn disc_get_header(raw: &[u8]) -> (r: WiiDiscHeader)
    requires
        raw@.len() >= WII_DISC_HEADER_SIZE,
    ensures
        wii_disc_header_decoded(r, raw@),
{
    WiiDiscHeader {
        disc_id: raw[0],
        game_code: read_array::<2>(raw, 1),
        region_code: raw[3],
        maker_code: read_array::<2>(raw, 4),
        disc_number: raw[6],
        disc_version: raw[7],
        audio_streaming: raw[8] != 0,
        streaming_buffer_size: raw[9],
        unk1: read_array::<14>(raw, 0xA),
        wii_magic: read_be_u32(raw, 0x18),
        gc_magic: read_be_u32(raw, 0x1C),
        game_title: read_array::<64>(raw, 0x20),
        disable_hash_verif: raw[0x60],
        disable_disc_encrypt: raw[0x61],
    }
}

/// Writes the disc header into the first 0x62 bytes of `buffer`.
pub fn disc_set_header(buffer: &mut [u8], dh: &WiiDiscHeader)
    requires
        old(buffer)@.len() >= WII_DISC_HEADER_SIZE,
    ensures
        final(buffer)@ == splice(old(buffer)@, 0, wii_disc_header_bytes(*dh)),
{
    let mut bytes: Vec<u8> = Vec::new();
    bytes.push(dh.disc_id);
    bytes.push(dh.game_code[0]);
    bytes.push(dh.game_code[1]);
    bytes.push(dh.region_code);
    bytes.push(dh.maker_code[0]);
    bytes.push(dh.maker_code[1]);
    bytes.push(dh.disc_number);
    bytes.push(dh.disc_version);
    bytes.push(if dh.audio_streaming { 1 } else { 0 });
    bytes.push(dh.streaming_buffer_size);
    crate::bytes::push_bytes(&mut bytes, dh.unk1.as_slice());
    crate::bytes::push_be_u32(&mut bytes, dh.wii_magic);
    crate::bytes::push_be_u32(&mut bytes, dh.gc_magic);
    crate::bytes::push_bytes(&mut bytes, dh.game_title.as_slice());
    bytes.push(dh.disable_hash_verif);
    bytes.push(dh.disable_disc_encrypt);
    assert(bytes@ =~= wii_disc_header_bytes(*dh));
    write_bytes(buffer, 0, bytes.as_slice());
}

/// Writing a header and reading it back gives the header.
pub proof fn lemma_disc_header_roundtrip(buf: Seq<u8>, h: WiiDiscHeader, read: WiiDiscHeader)
    requires
        buf.len() >= WII_DISC_HEADER_SIZE,
        wii_disc_header_decoded(read, splice(buf, 0, wii_disc_header_bytes(h))),
    ensures
        read.disc_id == h.disc_id && read.game_code == h.game_code && read.region_code
            == h.region_code && read.maker_code == h.maker_code && read.disc_number == h.disc_number
            && read.disc_version == h.disc_version && read.audio_streaming == h.audio_streaming
            && read.streaming_buffer_size == h.streaming_buffer_size && read.unk1 == h.unk1
            && read.wii_magic == h.wii_magic && read.gc_magic == h.gc_magic && read.game_title
            == h.game_title && read.disable_hash_verif == h.disable_hash_verif
            && read.disable_disc_encrypt == h.disable_disc_encrypt,
{
    broadcast use vstd::array::group_array_axioms;

    let b = wii_disc_header_bytes(h);
    let s = splice(buf, 0, b);
    assert(s.subrange(0, 0x62) =~= b);
    assert(s.subrange(1, 3) =~= h.game_code@);
    assert(s.subrange(4, 6) =~= h.maker_code@);
    assert(s.subrange(0xA, 0x18) =~= h.unk1@);
    assert(s.subrange(0x20, 0x60) =~= h.game_title@);
    lemma_u32_roundtrip(h.wii_magic);
    lemma_u32_roundtrip(h.gc_magic);
    assert(s.subrange(0x18, 0x1C) =~= u32_be_bytes(h.wii_magic));
    assert(s.subrange(0x1C, 0x20) =~= u32_be_bytes(h.gc_magic));
    assert(seq_be_u32(s, 0x18) == seq_be_u32(s.subrange(0x18, 0x1C), 0));
    assert(seq_be_u32(s, 0x1C) == seq_be_u32(s.subrange(0x1C, 0x20), 0));
    assert(read.game_code@ =~= h.game_code@);
    assert(read.maker_code@ =~= h.maker_code@);
    assert(read.unk1@ =~= h.unk1@);
    assert(read.game_title@ =~= h.game_title@);
}

/// Age ratings of a Wii disc.
#[derive(Debug, Clone, Copy, Default, PartialEq, Eq, Structural)]
pub struct WiiDiscRegionAgeRating {
    pub jp: u8,
    pub us: u8,
    pub de: u8,
    pub pegi: u8,
    pub fi: u8,
    pub pt: u8,
    pub gb: u8,
    pub au: u8,
    pub kr: u8,
}

/// Region code and age ratings of a Wii disc.
#[derive(Debug, Clone, Copy, Default, PartialEq, Eq, Structural)]
pub struct WiiDiscRegion {
    pub region: u32,
    pub age_rating: WiiDiscRegionAgeRating,
}

/// Size of an encoded [`WiiDiscRegion`].
pub const WII_DISC_REGION_BLOCK_SIZE: usize = 0x20;

impl Unpackable for WiiDiscRegion {
    open spec fn block_size() -> nat {
        WII_DISC_REGION_BLOCK_SIZE as nat
    }

    fn get_block_size() -> (r: usize) {
        WII_DISC_REGION_BLOCK_SIZE
    }
}

/// `r` is the region block that `s` holds.
pub open spec fn wii_disc_region_parsed(r: WiiDiscRegion, s: Seq<u8>) -> bool {
    &&& r.region == seq_be_u32(s, 0)
    &&& r.age_rating == WiiDiscRegionAgeRating {
        jp: s[0x10],
        us: s[0x11],
        de: s[0x13],
        pegi: s[0x14],
        fi: s[0x15],
        pt: s[0x16],
        gb: s[0x17],
        au: s[0x18],
        kr: s[0x19],
    }
}

/// `s` with the region block `r` written into it: the region code and the
/// rating bytes; the other bytes are left as they are.
pub open spec fn wii_disc_region_composed(r: WiiDiscRegion, s: Seq<u8>) -> Seq<u8> {
    splice(s, 0, u32_be_bytes(r.region)).update(0x10, r.age_rating.jp).update(0x11, r.age_rating.us)
        .update(0x13, r.age_rating.de).update(0x14, r.age_rating.pegi).update(0x15, r.age_rating.fi)
        .update(0x16, r.age_rating.pt).update(0x17, r.age_rating.gb).update(0x18, r.age_rating.au)
        .update(0x19, r.age_rating.kr)
}

impl WiiDiscRegion {
    /// Reads the region block from the first 0x1a bytes of `raw`.
    pub fn parse(raw: &[u8]) -> (r: Self)
        requires
            raw@.len() >= 0x1a,
        ensures
            wii_disc_region_parsed(r, raw@),
    {
        Self {
            region: read_be_u32(raw, 0),
            age_rating: WiiDiscRegionAgeRating {
                jp: raw[0x10],
                us: raw[0x11],
                de: raw[0x13],
                pegi: raw[0x14],
                fi: raw[0x15],
                pt: raw[0x16],
                gb: raw[0x17],
                au: raw[0x18],
                kr: raw[0x19],
            },
        }
    }

    /// Writes the region block into `buf`.
    pub fn compose_into(&self, buf: &mut [u8])
        requires
            old(buf)@.len() >= 0x1a,
        ensures
            final(buf)@ == wii_disc_region_composed(*self, old(buf)@),
    {
        write_be_u32(buf, 0, self.region);
        buf[0x10] = self.age_rating.jp;
        buf[0x11] = self.age_rating.us;
        buf[0x13] = self.age_rating.de;
        buf[0x14] = self.age_rating.pegi;
        buf[0x15] = self.age_rating.fi;
        buf[0x16] = self.age_rating.pt;
        buf[0x17] = self.age_rating.gb;
        buf[0x18] = self.age_rating.au;
        buf[0x19] = self.age_rating.kr;
    }
}

/// Composing a region block and parsing it back gives the block.
pub proof fn lemma_wii_disc_region_roundtrip(r: WiiDiscRegion, s: Seq<u8>)
    requires
        s.len() >= 0x1a,
    ensures
        wii_disc_region_parsed(r, wii_disc_region_composed(r, s)),
{
    let t = wii_disc_region_composed(r, s);
    lemma_u32_roundtrip(r.region);
    assert(t.subrange(0, 4) =~= u32_be_bytes(r.region));
    assert(seq_be_u32(t, 0) == seq_be_u32(t.subrange(0, 4), 0));
}

/// An entry of the partition table.
#[derive(Copy, Clone, Debug, Default, PartialEq, Eq, Structural)]
pub struct PartInfoEntry {
    pub part_type: u32,
    pub offset: u64,
}

/// The partition table: where its entries are stored, and the entries.
#[derive(Clone, Debug, Default)]
pub struct PartInfo {
    pub offset: u64,
    pub entries: Vec<PartInfoEntry>,
}

/// Offset of the partition table header on a Wii disc.
pub const WII_PARTITION_INFO_OFF: usize = 0x40000;

/// `buf` with the first `n` partition entries written at `offset`: each
/// one's offset divided by four, then its type, eight bytes apiece.
pub open spec fn part_entries_written(buf: Seq<u8>, offset: int, entries: Seq<PartInfoEntry>, n: int) -> Seq<u8>
    decreases n,
{
    if n <= 0 {
        buf
    } else {
        let prev = part_entries_written(buf, offset, entries, n - 1);
        let at = offset + 8 * (n - 1);
        splice(
            splice(prev, at, u32_be_bytes((entries[n - 1].offset / 4) as u32)),
            at + 4,
            u32_be_bytes(entries[n - 1].part_type),
        )
    }
}

/// `buf` with the partition table `pi` written into it: the entry count
/// and the table's offset divided by four at 0x40000, then the entries.
pub open spec fn part_info_written(buf: Seq<u8>, offset: u64, entries: Seq<PartInfoEntry>) -> Seq<u8> {
    let head = splice(
        splice(buf, WII_PARTITION_INFO_OFF as int, u32_be_bytes(entries.len() as u32)),
        WII_PARTITION_INFO_OFF + 4,
        u32_be_bytes((offset / 4) as u32),
    );
    part_entries_written(head, offset as int, entries, entries.len() as int)
}

/// Writes the partition table `pi` into `buffer`.
pub fn disc_set_part_info(buffer: &mut [u8], pi: &PartInfo)
    requires
        old(buffer)@.len() >= WII_PARTITION_INFO_OFF + 8,
        pi.offset + 8 * pi.entries@.len() <= old(buffer)@.len(),
    ensures
        final(buffer)@ == part_info_written(old(buffer)@, pi.offset, pi.entries@),
{
    let n = pi.entries.len();
    write_be_u32(buffer, WII_PARTITION_INFO_OFF, n as u32);
    let off = pi.offset;
    let shifted = off >> 2u64;
    assert(shifted == off / 4) by (bit_vector)
        requires shifted == off >> 2u64;
    write_be_u32(buffer, WII_PARTITION_INFO_OFF + 4, shifted as u32);
    let ghost head = buffer@;
    let blen = buffer.len();
    assert(pi.offset <= blen);
    let base = pi.offset as usize;
    let mut i: usize = 0;
    while i < n
        invariant
            i <= n,
            n == pi.entries@.len(),
            base == pi.offset,
            base + 8 * n <= buffer@.len(),
            blen == buffer@.len(),
            buffer@.len() == old(buffer)@.len(),
            buffer@ == part_entries_written(head, base as int, pi.entries@, i as int),
        decreases n - i,
    {
        let entry = pi.entries[i];
        let eo = entry.offset;
        let o = eo >> 2u64;
        assert(o == eo / 4) by (bit_vector)
            requires o == eo >> 2u64;
        write_be_u32(buffer, base + 8 * i, o as u32);
        write_be_u32(buffer, base + 8 * i + 4, entry.part_type);
        i = i + 1;
    }
}

/// `offset` and `entries` are the partition table that `buf` holds: the
/// entry count and the table's offset divided by four at 0x40000, then
/// each entry's offset divided by four and its type, eight bytes apiece.
pub open spec fn part_info_read(buf: Seq<u8>, offset: u64, entries: Seq<PartInfoEntry>) -> bool {
    &&& offset == seq_be_u32(buf, WII_PARTITION_INFO_OFF + 4) * 4
    &&& entries.len() == seq_be_u32(buf, WII_PARTITION_INFO_OFF as int)
    &&& forall|i: int|
        0 <= i < entries.len() ==> #[trigger] entries[i] == (PartInfoEntry {
            part_type: seq_be_u32(buf, offset + 8 * i + 4),
            offset: (seq_be_u32(buf, offset + 8 * i) * 4) as u64,
        })
}

/// The table that `buf` holds lies in it.
pub open spec fn part_info_fits(buf: Seq<u8>) -> bool {
    &&& buf.len() >= WII_PARTITION_INFO_OFF + 8
    &&& seq_be_u32(buf, WII_PARTITION_INFO_OFF + 4) * 4 + 8 * seq_be_u32(buf, WII_PARTITION_INFO_OFF as int)
        <= buf.len()
}

/// Reads the partition table of a disc image.
pub fn disc_get_part_info(buf: &[u8]) -> (r: PartInfo)
    requires
        part_info_fits(buf@),
    ensures
        part_info_read(buf@, r.offset, r.entries@),
{
    let n_part = read_be_u32(buf, WII_PARTITION_INFO_OFF) as usize;
    let offset = quarter_back(read_be_u32(buf, WII_PARTITION_INFO_OFF + 4));
    let len = buf.len();
    let mut entries: Vec<PartInfoEntry> = Vec::new();
    let mut i: usize = 0;
    while i < n_part
        invariant
            i <= n_part,
            n_part == seq_be_u32(buf@, WII_PARTITION_INFO_OFF as int),
            offset == seq_be_u32(buf@, WII_PARTITION_INFO_OFF + 4) * 4,
            offset + 8 * n_part <= len,
            len == buf@.len(),
            entries@.len() == i,
            forall|k: int|
                0 <= k < i ==> #[trigger] entries@[k] == (PartInfoEntry {
                    part_type: seq_be_u32(buf@, offset + 8 * k + 4),
                    offset: (seq_be_u32(buf@, offset + 8 * k) * 4) as u64,
                }),
        decreases n_part - i,
    {
        let at = offset as usize + 8 * i;
        entries.push(
            PartInfoEntry { part_type: read_be_u32(buf, at + 4), offset: quarter_back(read_be_u32(buf, at)) },
        );
        i = i + 1;
    }
    PartInfo { offset, entries }
}

/// `v` times four, as `(v as u64) << 2`.
fn quarter_back(v: u32) -> (r: u64)
    ensures
        r == v * 4,
{
    let w = v as u64;
    assert(w << 2u64 == w * 4) by (bit_vector)
        requires w <= 0xFFFF_FFFF;
    w << 2u64
}

/// Outside the entries written so far, the bytes are those of `buf`; the
/// entries written read back as written.
proof fn lemma_part_entries_written(buf: Seq<u8>, offset: int, entries: Seq<PartInfoEntry>, n: int)
    requires
        0 <= n <= entries.len(),
        0 <= offset,
        offset + 8 * n <= buf.len(),
    ensures
        part_entries_written(buf, offset, entries, n).len() == buf.len(),
        forall|j: int|
            0 <= j < buf.len() && !(offset <= j < offset + 8 * n) ==> #[trigger] part_entries_written(
                buf,
                offset,
                entries,
                n,
            )[j] == buf[j],
        forall|i: int|
            0 <= i < n ==> {
                let w = part_entries_written(buf, offset, entries, n);
                &&& w.subrange(offset + 8 * i, offset + 8 * i + 4) == u32_be_bytes(((#[trigger] entries[i]).offset / 4) as u32)
                &&& w.subrange(offset + 8 * i + 4, offset + 8 * i + 8) == u32_be_bytes(entries[i].part_type)
            },
    decreases n,
{
    if n > 0 {
        lemma_part_entries_written(buf, offset, entries, n - 1);
        let prev = part_entries_written(buf, offset, entries, n - 1);
        let at = offset + 8 * (n - 1);
        let a = u32_be_bytes((entries[n - 1].offset / 4) as u32);
        let b = u32_be_bytes(entries[n - 1].part_type);
        let w = part_entries_written(buf, offset, entries, n);
        assert(w == splice(splice(prev, at, a), at + 4, b));
        assert forall|j: int| 0 <= j < buf.len() && !(offset <= j < offset + 8 * n) implies #[trigger] w[j]
            == buf[j] by {
            assert(w[j] == prev[j]);
        }
        assert forall|i: int| 0 <= i < n implies {
            let w2 = part_entries_written(buf, offset, entries, n);
            &&& w2.subrange(offset + 8 * i, offset + 8 * i + 4) == u32_be_bytes(((#[trigger] entries[i]).offset / 4) as u32)
            &&& w2.subrange(offset + 8 * i + 4, offset + 8 * i + 8) == u32_be_bytes(entries[i].part_type)
        } by {
            if i < n - 1 {
                assert(w.subrange(offset + 8 * i, offset + 8 * i + 4) =~= prev.subrange(offset + 8 * i, offset + 8 * i + 4));
                assert(w.subrange(offset + 8 * i + 4, offset + 8 * i + 8) =~= prev.subrange(
                    offset + 8 * i + 4,
                    offset + 8 * i + 8,
                ));
            } else {
                assert(w.subrange(at, at + 4) =~= a);
                assert(w.subrange(at + 4, at + 8) =~= b);
            }
        }
    }
}

/// Reading back a written partition table gives the table, when its offset
/// and those of the partitions are multiples of four below 2^34, it has
/// fewer than 2^32 entries, and it does not overlap its header at 0x40000.
#[verifier::spinoff_prover]
pub proof fn lemma_part_info_roundtrip(buf: Seq<u8>, offset: u64, entries: Seq<PartInfoEntry>)
    requires
        buf.len() >= WII_PARTITION_INFO_OFF + 8,
        offset + 8 * entries.len() <= buf.len(),
        offset % 4 == 0 && offset < 0x4_0000_0000,
        entries.len() < 0x1_0000_0000,
        offset >= WII_PARTITION_INFO_OFF + 8 || offset + 8 * entries.len() <= WII_PARTITION_INFO_OFF,
        forall|i: int| 0 <= i < entries.len() ==> (#[trigger] entries[i]).offset % 4 == 0 && entries[i].offset < 0x4_0000_0000,
    ensures
        part_info_read(part_info_written(buf, offset, entries), offset, entries),
{
    let head = splice(
        splice(buf, WII_PARTITION_INFO_OFF as int, u32_be_bytes(entries.len() as u32)),
        WII_PARTITION_INFO_OFF + 4,
        u32_be_bytes((offset / 4) as u32),
    );
    let w = part_info_written(buf, offset, entries);
    assert(head.len() == buf.len());
    lemma_part_entries_written(head, offset as int, entries, entries.len() as int);
    assert(head.subrange(0x40000, 0x40004) =~= u32_be_bytes(entries.len() as u32));
    assert(head.subrange(0x40004, 0x40008) =~= u32_be_bytes((offset / 4) as u32));
    assert(w.subrange(0x40000, 0x40004) =~= head.subrange(0x40000, 0x40004));
    assert(w.subrange(0x40004, 0x40008) =~= head.subrange(0x40004, 0x40008));
    lemma_be_u32_at(w, 0x40000, entries.len() as u32);
    lemma_be_u32_at(w, 0x40004, (offset / 4) as u32);
    assert forall|i: int| 0 <= i < entries.len() implies #[trigger] entries[i] == (PartInfoEntry {
        part_type: seq_be_u32(w, offset + 8 * i + 4),
        offset: (seq_be_u32(w, offset + 8 * i) * 4) as u64,
    }) by {
        lemma_be_u32_at(w, offset + 8 * i, (entries[i].offset / 4) as u32);
        lemma_be_u32_at(w, offset + 8 * i + 4, entries[i].part_type);
    }
}

/// Kinds of partitions.
#[derive(Copy, Clone, Debug, Default, Eq, PartialEq, PartialOrd, Ord, Structural)]
pub enum PartitionType {
    Data,
    Update,
    ChannelInstaller,
    #[default]
    Unknown,
}

/// The code of a partition kind; all ones for an unknown kind.
pub open spec fn partition_type_code(t: PartitionType) -> u32 {
    match t {
        PartitionType::Data => 0,
        PartitionType::Update => 1,
        PartitionType::ChannelInstaller => 2,
        PartitionType::Unknown => 0xFFFFFFFF,
    }
}

/// The partition kind of a code.
pub open spec fn partition_type_from_code(v: u32) -> PartitionType {
    if v == 0 {
        PartitionType::Data
    } else if v == 1 {
        PartitionType::Update
    } else if v == 2 {
        PartitionType::ChannelInstaller
    } else {
        PartitionType::Unknown
    }
}

impl From<PartitionType> for u32 {
    fn from(t: PartitionType) -> (r: Self) {
        match t {
            PartitionType::Data => 0u32,
            PartitionType::Update => 1u32,
            PartitionType::ChannelInstaller => 2u32,
            PartitionType::Unknown => 0xFFFFFFFFu32,
        }
    }
}

impl vstd::std_specs::convert::FromSpecImpl<PartitionType> for u32 {
    open spec fn obeys_from_spec() -> bool {
        true
    }

    open spec fn from_spec(v: PartitionType) -> u32 {
        partition_type_code(v)
    }
}

impl From<u32> for PartitionType {
    fn from(t: u32) -> (r: Self) {
        match t {
            0 => PartitionType::Data,
            1 => PartitionType::Update,
            2 => PartitionType::ChannelInstaller,
            _ => PartitionType::Unknown,
        }
    }
}

impl vstd::std_specs::convert::FromSpecImpl<u32> for PartitionType {
    open spec fn obeys_from_spec() -> bool {
        true
    }

    open spec fn from_spec(v: u32) -> PartitionType {
        partition_type_from_code(v)
    }
}

/// A partition kind's code read back gives the kind.
pub proof fn lemma_partition_type_roundtrip(t: PartitionType)
    ensures
        partition_type_from_code(partition_type_code(t)) == t,
{
}


/// A ticket as stored on a Wii disc partition.
#[derive(Debug, Clone, Copy)]
pub struct Ticket {
    pub sig_type: u32,
    pub sig: [u8; 0x100],
    pub sig_padding: [u8; 0x3C],
    pub sig_issuer: [u8; 0x40],
    pub unk1: [u8; 0x3F],
    pub title_key: [u8; 0x10],
    pub unk2: u8,
    pub ticket_id: [u8; 8],
    pub console_id: u32,
    pub title_id: [u8; 8],
    pub unk3: u16,
    pub n_dlc: u16,
    pub unk4: [u8; 0x09],
    pub common_key_index: u8,
    pub unk5: [u8; 0x50],
    pub padding2: u16,
    pub enable_time_limit: u32,
    pub time_limit: u32,
    pub fake_sign: [u8; 0x58],
}

/// Size of an encoded [`Ticket`].
pub const TICKET_BLOCK_SIZE: usize = 0x2A4;

impl Unpackable for Ticket {
    open spec fn block_size() -> nat {
        TICKET_BLOCK_SIZE as nat
    }

    fn get_block_size() -> (r: usize) {
        TICKET_BLOCK_SIZE
    }
}

/// The bytes that encode `t`, all words big-endian.
#[verifier::opaque]
pub open spec fn ticket_bytes(t: Ticket) -> Seq<u8> {
    u32_be_bytes(t.sig_type) + t.sig@ + t.sig_padding@ + t.sig_issuer@ + t.unk1@ + t.title_key@
        + seq![t.unk2] + t.ticket_id@ + u32_be_bytes(t.console_id) + t.title_id@ + u16_be_bytes(t.unk3)
        + u16_be_bytes(t.n_dlc) + t.unk4@ + seq![t.common_key_index] + t.unk5@ + u16_be_bytes(
        t.padding2,
    ) + u32_be_bytes(t.enable_time_limit) + u32_be_bytes(t.time_limit) + t.fake_sign@
}

/// `t` is the ticket that the first 0x2A4 bytes of `s` encode.
pub open spec fn ticket_decoded(t: Ticket, s: Seq<u8>) -> bool {
    &&& t.sig_type == seq_be_u32(s, 0)
    &&& t.sig@ == s.subrange(0x4, 0x104)
    &&& t.sig_padding@ == s.subrange(0x104, 0x140)
    &&& t.sig_issuer@ == s.subrange(0x140, 0x180)
    &&& t.unk1@ == s.subrange(0x180, 0x1BF)
    &&& t.title_key@ == s.subrange(0x1BF, 0x1CF)
    &&& t.unk2 == s[0x1CF]
    &&& t.ticket_id@ == s.subrange(0x1D0, 0x1D8)
    &&& t.console_id == seq_be_u32(s, 0x1D8)
    &&& t.title_id@ == s.subrange(0x1DC, 0x1E4)
    &&& t.unk3 == seq_be_u16(s, 0x1E4)
    &&& t.n_dlc == seq_be_u16(s, 0x1E6)
    &&& t.unk4@ == s.subrange(0x1E8, 0x1F1)
    &&& t.common_key_index == s[0x1F1]
    &&& t.unk5@ == s.subrange(0x1F2, 0x242)
    &&& t.padding2 == seq_be_u16(s, 0x242)
    &&& t.enable_time_limit == seq_be_u32(s, 0x244)
    &&& t.time_limit == seq_be_u32(s, 0x248)
    &&& t.fake_sign@ == s.subrange(0x24C, 0x2A4)
}

/// Two tickets hold the same fields.
pub open spec fn same_ticket(a: Ticket, b: Ticket) -> bool {
    &&& a.sig_type == b.sig_type && a.sig@ == b.sig@ && a.sig_padding@ == b.sig_padding@
    &&& a.sig_issuer@ == b.sig_issuer@ && a.unk1@ == b.unk1@ && a.title_key@ == b.title_key@
    &&& a.unk2 == b.unk2 && a.ticket_id@ == b.ticket_id@ && a.console_id == b.console_id
    &&& a.title_id@ == b.title_id@ && a.unk3 == b.unk3 && a.n_dlc == b.n_dlc && a.unk4@ == b.unk4@
    &&& a.common_key_index == b.common_key_index && a.unk5@ == b.unk5@ && a.padding2 == b.padding2
    &&& a.enable_time_limit == b.enable_time_limit && a.time_limit == b.time_limit
    &&& a.fake_sign@ == b.fake_sign@
}

impl Ticket {
    /// Reads a ticket from its 0x2A4 bytes.
    pub fn from_bytes(buf: &[u8; 0x2A4]) -> (r: Ticket)
        ensures
            ticket_decoded(r, buf@),
    {
        let b = buf.as_slice();
        Ticket {
            sig_type: read_be_u32(b, 0x00),
            sig: read_array::<0x100>(b, 0x4),
            sig_padding: read_array::<0x3C>(b, 0x104),
            sig_issuer: read_array::<0x40>(b, 0x140),
            unk1: read_array::<0x3F>(b, 0x180),
            title_key: read_array::<0x10>(b, 0x1BF),
            unk2: b[0x1CF],
            ticket_id: read_array::<8>(b, 0x1D0),
            console_id: read_be_u32(b, 0x1D8),
            title_id: read_array::<8>(b, 0x1DC),
            unk3: read_be_u16(b, 0x1E4),
            n_dlc: read_be_u16(b, 0x1E6),
            unk4: read_array::<0x09>(b, 0x1E8),
            common_key_index: b[0x1F1],
            unk5: read_array::<0x50>(b, 0x1F2),
            padding2: read_be_u16(b, 0x242),
            enable_time_limit: read_be_u32(b, 0x244),
            time_limit: read_be_u32(b, 0x248),
            fake_sign: read_array::<0x58>(b, 0x24C),
        }
    }

    /// Reads a ticket from the first 0x2A4 bytes of `slice`; fails when it
    /// is shorter.
    pub fn try_from_slice(slice: &[u8]) -> (r: Result<Ticket, WiiCryptoError>)
        ensures
            slice@.len() < TICKET_BLOCK_SIZE ==> (r matches Err(WiiCryptoError::ConvertError { name })
                && name@ == "Ticket"@),
            slice@.len() >= TICKET_BLOCK_SIZE ==> (r matches Ok(t) && ticket_decoded(t, slice@)),
    {
        if slice.len() < TICKET_BLOCK_SIZE {
            return Err(WiiCryptoError::ConvertError { name: String::from_str("Ticket") });
        }
        let buf = read_array::<0x2A4>(slice, 0);
        let t = Ticket::from_bytes(&buf);
        assert(buf@ =~= slice@.subrange(0, 0x2A4));
        proof {
            assert(ticket_decoded(t, slice@)) by {
                assert forall|i: int, j: int| 0 <= i <= j <= 0x2A4 implies buf@.subrange(i, j) =~= slice@.subrange(i, j) by {}
                assert(buf@[0x1CF] == slice@[0x1CF]);
                assert(buf@[0x1F1] == slice@[0x1F1]);
                assert(seq_be_u32(buf@, 0) == seq_be_u32(slice@, 0));
                assert(seq_be_u32(buf@, 0x1D8) == seq_be_u32(slice@, 0x1D8));
                assert(seq_be_u16(buf@, 0x1E4) == seq_be_u16(slice@, 0x1E4));
                assert(seq_be_u16(buf@, 0x1E6) == seq_be_u16(slice@, 0x1E6));
                assert(seq_be_u16(buf@, 0x242) == seq_be_u16(slice@, 0x242));
                assert(seq_be_u32(buf@, 0x244) == seq_be_u32(slice@, 0x244));
                assert(seq_be_u32(buf@, 0x248) == seq_be_u32(slice@, 0x248));
            }
        }
        Ok(t)
    }

    /// The 0x2A4 bytes that encode the ticket.
    pub fn to_bytes(&self) -> (r: [u8; 0x2A4])
        ensures
            r@ == ticket_bytes(*self),
    {
        let mut out: Vec<u8> = Vec::with_capacity(TICKET_BLOCK_SIZE);
        push_be_u32(&mut out, self.sig_type);
        push_bytes(&mut out, self.sig.as_slice());
        push_bytes(&mut out, self.sig_padding.as_slice());
        push_bytes(&mut out, self.sig_issuer.as_slice());
        push_bytes(&mut out, self.unk1.as_slice());
        push_bytes(&mut out, self.title_key.as_slice());
        out.push(self.unk2);
        push_bytes(&mut out, self.ticket_id.as_slice());
        push_be_u32(&mut out, self.console_id);
        push_bytes(&mut out, self.title_id.as_slice());
        push_be_u16(&mut out, self.unk3);
        push_be_u16(&mut out, self.n_dlc);
        push_bytes(&mut out, self.unk4.as_slice());
        out.push(self.common_key_index);
        push_bytes(&mut out, self.unk5.as_slice());
        push_be_u16(&mut out, self.padding2);
        push_be_u32(&mut out, self.enable_time_limit);
        push_be_u32(&mut out, self.time_limit);
        push_bytes(&mut out, self.fake_sign.as_slice());
        reveal(ticket_bytes);
        assert(out@ =~= ticket_bytes(*self));
        let r = read_array::<0x2A4>(out.as_slice(), 0);
        assert(r@ =~= ticket_bytes(*self));
        r
    }
}

impl Default for Ticket {
    fn default() -> (r: Self)
        ensures
            ticket_decoded(r, Seq::new(TICKET_BLOCK_SIZE as nat, |_i: int| 0u8)),
    {
        let z = [0u8; 0x2A4];
        assert(z@ =~= Seq::new(TICKET_BLOCK_SIZE as nat, |_i: int| 0u8));
        Ticket::from_bytes(&z)
    }
}

/// Encoding a ticket and reading it back gives the ticket.
#[verifier::spinoff_prover]
#[verifier::rlimit(60)]
pub proof fn lemma_ticket_roundtrip(t: Ticket, read: Ticket)
    requires
        ticket_decoded(read, ticket_bytes(t)),
    ensures
        same_ticket(read, t),
{
    reveal(ticket_bytes);
    let s = ticket_bytes(t);
    lemma_u32_roundtrip(t.sig_type);
    lemma_u32_roundtrip(t.console_id);
    lemma_u16_roundtrip(t.unk3);
    lemma_u16_roundtrip(t.n_dlc);
    lemma_u16_roundtrip(t.padding2);
    lemma_u32_roundtrip(t.enable_time_limit);
    lemma_u32_roundtrip(t.time_limit);
    assert(s.subrange(0, 4) =~= u32_be_bytes(t.sig_type));
    assert(s.subrange(0x4, 0x104) =~= t.sig@);
    assert(s.subrange(0x104, 0x140) =~= t.sig_padding@);
    assert(s.subrange(0x140, 0x180) =~= t.sig_issuer@);
    assert(s.subrange(0x180, 0x1BF) =~= t.unk1@);
    assert(s.subrange(0x1BF, 0x1CF) =~= t.title_key@);
    assert(s.subrange(0x1D0, 0x1D8) =~= t.ticket_id@);
    assert(s.subrange(0x1D8, 0x1DC) =~= u32_be_bytes(t.console_id));
    assert(s.subrange(0x1DC, 0x1E4) =~= t.title_id@);
    assert(s.subrange(0x1E4, 0x1E6) =~= u16_be_bytes(t.unk3));
    assert(s.subrange(0x1E6, 0x1E8) =~= u16_be_bytes(t.n_dlc));
    assert(s.subrange(0x1E8, 0x1F1) =~= t.unk4@);
    assert(s.subrange(0x1F2, 0x242) =~= t.unk5@);
    assert(s.subrange(0x242, 0x244) =~= u16_be_bytes(t.padding2));
    assert(s.subrange(0x244, 0x248) =~= u32_be_bytes(t.enable_time_limit));
    assert(s.subrange(0x248, 0x24C) =~= u32_be_bytes(t.time_limit));
    assert(s.subrange(0x24C, 0x2A4) =~= t.fake_sign@);
    assert(seq_be_u32(s, 0) == seq_be_u32(s.subrange(0, 4), 0));
    assert(seq_be_u32(s, 0x1D8) == seq_be_u32(s.subrange(0x1D8, 0x1DC), 0));
    assert(seq_be_u16(s, 0x1E4) == seq_be_u16(s.subrange(0x1E4, 0x1E6), 0));
    assert(seq_be_u16(s, 0x1E6) == seq_be_u16(s.subrange(0x1E6, 0x1E8), 0));
    assert(seq_be_u16(s, 0x242) == seq_be_u16(s.subrange(0x242, 0x244), 0));
    assert(seq_be_u32(s, 0x244) == seq_be_u32(s.subrange(0x244, 0x248), 0));
    assert(seq_be_u32(s, 0x248) == seq_be_u32(s.subrange(0x248, 0x24C), 0));
}


/// `t` with its signature, signature padding and fake-signing area cleared.
pub open spec fn ticket_cleared(t: Ticket, c: Ticket) -> bool {
    &&& c.sig@ == Seq::new(0x100, |_i: int| 0u8)
    &&& c.sig_padding@ == Seq::new(0x3C, |_i: int| 0u8)
    &&& c.fake_sign@ == Seq::new(0x58, |_i: int| 0u8)
    &&& c.sig_type == t.sig_type && c.sig_issuer == t.sig_issuer && c.unk1 == t.unk1
    &&& c.title_key == t.title_key && c.unk2 == t.unk2 && c.ticket_id == t.ticket_id
    &&& c.console_id == t.console_id && c.title_id == t.title_id && c.unk3 == t.unk3
    &&& c.n_dlc == t.n_dlc && c.unk4 == t.unk4 && c.common_key_index == t.common_key_index
    &&& c.unk5 == t.unk5 && c.padding2 == t.padding2 && c.enable_time_limit == t.enable_time_limit
}

/// The bytes that a ticket's signature covers when its time limit is `v`.
pub open spec fn ticket_signed_part(bytes: Seq<u8>, v: u32) -> Seq<u8> {
    splice(bytes, 0x248, u32_be_bytes(v)).subrange(0x140, TICKET_BLOCK_SIZE as int)
}

/// `v` is the value that the brute force stops at: the first whose hash
/// starts with a zero byte, or `u32::MAX` when none before it does.
pub open spec fn brute_force_stop(bytes: Seq<u8>, at: int, start: int, v: u32) -> bool {
    &&& forall|w: u32| w < v ==> #[trigger] sha1(splice(bytes, at, u32_be_bytes(w)).subrange(start, bytes.len() as int))[0] != 0
    &&& (sha1(splice(bytes, at, u32_be_bytes(v)).subrange(start, bytes.len() as int))[0] == 0 || v == u32::MAX)
}

/// Searches, from 0 up, the first value written big-endian at `at` for
/// which the SHA-1 of `buf[start..]` starts with a zero byte; stops at
/// `u32::MAX`. Returns the value, written into `buf`.
fn brute_force_zero_hash(buf: &mut Vec<u8>, at: usize, start: usize) -> (r: u32)
    requires
        at + 4 <= old(buf)@.len(),
        start <= old(buf)@.len(),
    ensures
        brute_force_stop(old(buf)@, at as int, start as int, r),
        final(buf)@ == splice(old(buf)@, at as int, u32_be_bytes(r)),
{
    let ghost b0 = buf@;
    let len = buf.len();
    let mut val: u32 = 0;
    loop
        invariant
            old(buf)@ == b0,
            at + 4 <= b0.len(),
            start <= b0.len(),
            len == b0.len(),
            buf@.len() == b0.len(),
            buf@ == (if val == 0 { b0 } else { splice(b0, at as int, u32_be_bytes((val - 1) as u32)) }),
            forall|w: u32| w < val ==> #[trigger] sha1(splice(b0, at as int, u32_be_bytes(w)).subrange(start as int, b0.len() as int))[0] != 0,
        decreases u32::MAX - val,
    {
        write_be_u32(buf.as_mut_slice(), at, val);
        let ghost written = buf@;
        assert(written =~= splice(b0, at as int, u32_be_bytes(val))) by {
            if val != 0 {
                assert(splice(splice(b0, at as int, u32_be_bytes((val - 1) as u32)), at as int, u32_be_bytes(val)) =~= splice(b0, at as int, u32_be_bytes(val)));
            }
        }
        let part = vstd::slice::slice_subrange(buf.as_slice(), start, len);
        assert(part@ == splice(b0, at as int, u32_be_bytes(val)).subrange(start as int, b0.len() as int));
        let hash = sha1_digest(part);
        if hash[0] == 0 {
            assert(buf@ == splice(b0, at as int, u32_be_bytes(val)));
            assert(sha1(splice(b0, at as int, u32_be_bytes(val)).subrange(start as int, b0.len() as int))[0] == 0);
            return val;
        }
        if val == u32::MAX {
            return val;
        }
        val = val + 1;
    }
}

/// `after` is the ticket `before` fake-signed: its signature, padding and
/// fake-signing area cleared, then its time limit brute-forced until the
/// SHA-1 of the signed part starts with a zero byte.
pub open spec fn ticket_fake_signed(before: Ticket, after: Ticket) -> bool {
    let c = Ticket { time_limit: before.time_limit, ..after };
    &&& ticket_cleared(before, c)
    &&& brute_force_stop(ticket_bytes(c), 0x248, 0x140, after.time_limit)
}

impl Ticket {
    /// Fake-signs the ticket: clears its signature, then brute-forces the
    /// time limit until the SHA-1 of the signed part starts with a zero byte
    /// (the check that a flawed signature test accepts).
    pub fn fake_sign(&mut self)
        ensures
            ticket_fake_signed(*old(self), *final(self)),
    {
        self.sig = [0u8; 0x100];
        self.sig_padding = [0u8; 0x3c];
        self.fake_sign = [0u8; 0x58];
        assert(self.sig@ =~= Seq::new(0x100, |_i: int| 0u8));
        assert(self.sig_padding@ =~= Seq::new(0x3C, |_i: int| 0u8));
        assert(self.fake_sign@ =~= Seq::new(0x58, |_i: int| 0u8));
        let bytes = self.to_bytes();
        let mut tik_buf = vstd::slice::slice_to_vec(bytes.as_slice());
        let val = brute_force_zero_hash(&mut tik_buf, 0x248, 0x140);
        self.time_limit = val;
    }
}


/// The header of a partition: its ticket, and where its TMD, certificate
/// chain, H3 table and data are.
#[derive(Debug, Clone, Copy)]
pub struct PartHeader {
    pub ticket: Ticket,
    pub tmd_size: usize,
    pub tmd_offset: u64,
    pub cert_size: usize,
    pub cert_offset: u64,
    pub h3_offset: u64,
    pub data_offset: u64,
    pub data_size: u64,
}

/// Size of an encoded [`PartHeader`].
pub const PART_HEADER_BLOCK_SIZE: usize = 0x2C0;

impl Unpackable for PartHeader {
    open spec fn block_size() -> nat {
        PART_HEADER_BLOCK_SIZE as nat
    }

    fn get_block_size() -> (r: usize) {
        PART_HEADER_BLOCK_SIZE
    }
}

/// `h` is the partition header that the 0x2C0 bytes `s` encode: sizes as
/// they are, offsets multiplied by four.
pub open spec fn part_header_decoded(h: PartHeader, s: Seq<u8>) -> bool {
    &&& ticket_decoded(h.ticket, s)
    &&& h.tmd_size == seq_be_u32(s, 0x2A4)
    &&& h.tmd_offset == seq_be_u32(s, 0x2A8) * 4
    &&& h.cert_size == seq_be_u32(s, 0x2AC)
    &&& h.cert_offset == seq_be_u32(s, 0x2B0) * 4
    &&& h.h3_offset == seq_be_u32(s, 0x2B4) * 4
    &&& h.data_offset == seq_be_u32(s, 0x2B8) * 4
    &&& h.data_size == seq_be_u32(s, 0x2BC) * 4
}

/// The 0x2C0 bytes that encode `h`: sizes cut to 32 bits, offsets divided
/// by four and cut to 32 bits.
pub open spec fn part_header_bytes(h: PartHeader) -> Seq<u8> {
    ticket_bytes(h.ticket) + u32_be_bytes(h.tmd_size as u32) + u32_be_bytes((h.tmd_offset / 4) as u32)
        + u32_be_bytes(h.cert_size as u32) + u32_be_bytes((h.cert_offset / 4) as u32) + u32_be_bytes(
        (h.h3_offset / 4) as u32,
    ) + u32_be_bytes((h.data_offset / 4) as u32) + u32_be_bytes((h.data_size / 4) as u32)
}

/// `v` divided by four, as `(v >> 2) as u32`.
fn quarter(v: u64) -> (r: u32)
    ensures
        r == (v / 4) as u32,
{
    let q = v >> 2u64;
    assert(q == v / 4) by (bit_vector)
        requires q == v >> 2u64;
    q as u32
}

/// `v` times four, as `(v as u64) << 2`.
fn times_four(v: u32) -> (r: u64)
    ensures
        r == v * 4,
{
    let w = v as u64;
    assert(w << 2u64 == w * 4) by (bit_vector)
        requires w <= 0xFFFF_FFFF;
    w << 2u64
}

impl PartHeader {
    /// Reads a partition header from its 0x2C0 bytes.
    pub fn from_bytes(buf: &[u8; 0x2C0]) -> (r: PartHeader)
        ensures
            part_header_decoded(r, buf@),
    {
        let b = buf.as_slice();
        let ticket = match Ticket::try_from_slice(vstd::slice::slice_subrange(b, 0, 0x2A4)) {
            Ok(t) => t,
            Err(_) => Ticket::default(),
        };
        proof {
            let sub = b@.subrange(0, 0x2A4);
            assert forall|i: int, j: int| 0 <= i <= j <= 0x2A4 implies sub.subrange(i, j) =~= b@.subrange(i, j) by {}
            assert(seq_be_u32(sub, 0) == seq_be_u32(b@, 0));
            assert(seq_be_u32(sub, 0x1D8) == seq_be_u32(b@, 0x1D8));
            assert(seq_be_u16(sub, 0x1E4) == seq_be_u16(b@, 0x1E4));
            assert(seq_be_u16(sub, 0x1E6) == seq_be_u16(b@, 0x1E6));
            assert(seq_be_u16(sub, 0x242) == seq_be_u16(b@, 0x242));
            assert(seq_be_u32(sub, 0x244) == seq_be_u32(b@, 0x244));
            assert(seq_be_u32(sub, 0x248) == seq_be_u32(b@, 0x248));
        }
        PartHeader {
            ticket,
            tmd_size: read_be_u32(b, 0x2A4) as usize,
            tmd_offset: times_four(read_be_u32(b, 0x2A8)),
            cert_size: read_be_u32(b, 0x2AC) as usize,
            cert_offset: times_four(read_be_u32(b, 0x2B0)),
            h3_offset: times_four(read_be_u32(b, 0x2B4)),
            data_offset: times_four(read_be_u32(b, 0x2B8)),
            data_size: times_four(read_be_u32(b, 0x2BC)),
        }
    }

    /// The 0x2C0 bytes that encode the header.
    pub fn to_bytes(&self) -> (r: [u8; 0x2C0])
        ensures
            r@ == part_header_bytes(*self),
    {
        let t = self.ticket.to_bytes();
        let mut out = vstd::slice::slice_to_vec(t.as_slice());
        push_be_u32(&mut out, self.tmd_size as u32);
        push_be_u32(&mut out, quarter(self.tmd_offset));
        push_be_u32(&mut out, self.cert_size as u32);
        push_be_u32(&mut out, quarter(self.cert_offset));
        push_be_u32(&mut out, quarter(self.h3_offset));
        push_be_u32(&mut out, quarter(self.data_offset));
        push_be_u32(&mut out, quarter(self.data_size));
        assert(out@ =~= part_header_bytes(*self));
        let r = read_array::<0x2C0>(out.as_slice(), 0);
        assert(r@ =~= part_header_bytes(*self));
        r
    }
}

/// A big-endian word read where its bytes stand.
proof fn lemma_be_u32_at(s: Seq<u8>, off: int, v: u32)
    requires
        0 <= off,
        off + 4 <= s.len(),
        s.subrange(off, off + 4) == u32_be_bytes(v),
    ensures
        seq_be_u32(s, off) == v,
{
    lemma_u32_roundtrip(v);
    assert(seq_be_u32(s, off) == seq_be_u32(s.subrange(off, off + 4), 0));
}

/// A ticket read from bytes is the ticket read from their first 0x2A4.
proof fn lemma_ticket_prefix(t: Ticket, s: Seq<u8>, prefix: Seq<u8>)
    requires
        s.len() >= TICKET_BLOCK_SIZE,
        prefix == s.subrange(0, TICKET_BLOCK_SIZE as int),
        ticket_decoded(t, s),
    ensures
        ticket_decoded(t, prefix),
{
    assert forall|i: int, j: int| 0 <= i <= j <= 0x2A4 implies prefix.subrange(i, j) =~= s.subrange(i, j) by {}
    assert(seq_be_u32(prefix, 0) == seq_be_u32(s, 0));
    assert(seq_be_u32(prefix, 0x1D8) == seq_be_u32(s, 0x1D8));
    assert(seq_be_u16(prefix, 0x1E4) == seq_be_u16(s, 0x1E4));
    assert(seq_be_u16(prefix, 0x1E6) == seq_be_u16(s, 0x1E6));
    assert(seq_be_u16(prefix, 0x242) == seq_be_u16(s, 0x242));
    assert(seq_be_u32(prefix, 0x244) == seq_be_u32(s, 0x244));
    assert(seq_be_u32(prefix, 0x248) == seq_be_u32(s, 0x248));
}

/// Encoding a partition header and reading it back gives the header, when
/// its sizes fit in 32 bits and its offsets are multiples of four below
/// 2^34.
pub proof fn lemma_part_header_roundtrip(h: PartHeader, read: PartHeader)
    requires
        part_header_decoded(read, part_header_bytes(h)),
        h.tmd_size <= u32::MAX && h.cert_size <= u32::MAX,
        h.tmd_offset % 4 == 0 && h.tmd_offset < 0x4_0000_0000,
        h.cert_offset % 4 == 0 && h.cert_offset < 0x4_0000_0000,
        h.h3_offset % 4 == 0 && h.h3_offset < 0x4_0000_0000,
        h.data_offset % 4 == 0 && h.data_offset < 0x4_0000_0000,
        h.data_size % 4 == 0 && h.data_size < 0x4_0000_0000,
    ensures
        same_ticket(read.ticket, h.ticket),
        read.tmd_size == h.tmd_size && read.tmd_offset == h.tmd_offset && read.cert_size
            == h.cert_size && read.cert_offset == h.cert_offset && read.h3_offset == h.h3_offset
            && read.data_offset == h.data_offset && read.data_size == h.data_size,
{
    let s = part_header_bytes(h);
    let tb = ticket_bytes(h.ticket);
    lemma_ticket_bytes_len(h.ticket);
    assert(s.subrange(0, 0x2A4) =~= tb);
    lemma_ticket_prefix(read.ticket, s, tb);
    lemma_ticket_roundtrip(h.ticket, read.ticket);
    lemma_ticket_bytes_len(h.ticket);
    lemma_words_after(
        tb,
        h.tmd_size as u32,
        (h.tmd_offset / 4) as u32,
        h.cert_size as u32,
        (h.cert_offset / 4) as u32,
        (h.h3_offset / 4) as u32,
        (h.data_offset / 4) as u32,
        (h.data_size / 4) as u32,
    );
}

/// An encoded ticket is 0x2A4 bytes long.
proof fn lemma_ticket_bytes_len(t: Ticket)
    ensures
        ticket_bytes(t).len() == TICKET_BLOCK_SIZE,
{
    reveal(ticket_bytes);
}

/// The seven words that follow a 0x2A4-byte prefix read back as written.
proof fn lemma_words_after(p: Seq<u8>, w0: u32, w1: u32, w2: u32, w3: u32, w4: u32, w5: u32, w6: u32)
    requires
        p.len() == TICKET_BLOCK_SIZE,
    ensures
        ({
            let s = p + u32_be_bytes(w0) + u32_be_bytes(w1) + u32_be_bytes(w2) + u32_be_bytes(w3)
                + u32_be_bytes(w4) + u32_be_bytes(w5) + u32_be_bytes(w6);
            &&& seq_be_u32(s, 0x2A4) == w0 && seq_be_u32(s, 0x2A8) == w1 && seq_be_u32(s, 0x2AC) == w2
            &&& seq_be_u32(s, 0x2B0) == w3 && seq_be_u32(s, 0x2B4) == w4 && seq_be_u32(s, 0x2B8) == w5
            &&& seq_be_u32(s, 0x2BC) == w6
        }),
{
    let s = p + u32_be_bytes(w0) + u32_be_bytes(w1) + u32_be_bytes(w2) + u32_be_bytes(w3)
        + u32_be_bytes(w4) + u32_be_bytes(w5) + u32_be_bytes(w6);
    assert(s.subrange(0x2A4, 0x2A8) =~= u32_be_bytes(w0));
    lemma_be_u32_at(s, 0x2A4, w0);
    assert(s.subrange(0x2A8, 0x2AC) =~= u32_be_bytes(w1));
    lemma_be_u32_at(s, 0x2A8, w1);
    assert(s.subrange(0x2AC, 0x2B0) =~= u32_be_bytes(w2));
    lemma_be_u32_at(s, 0x2AC, w2);
    assert(s.subrange(0x2B0, 0x2B4) =~= u32_be_bytes(w3));
    lemma_be_u32_at(s, 0x2B0, w3);
    assert(s.subrange(0x2B4, 0x2B8) =~= u32_be_bytes(w4));
    lemma_be_u32_at(s, 0x2B4, w4);
    assert(s.subrange(0x2B8, 0x2BC) =~= u32_be_bytes(w5));
    lemma_be_u32_at(s, 0x2B8, w5);
    assert(s.subrange(0x2BC, 0x2C0) =~= u32_be_bytes(w6));
    lemma_be_u32_at(s, 0x2BC, w6);
}


/// A content record of a title's metadata.
#[derive(Debug, Clone, Copy)]
pub struct TMDContent {
    pub content_id: u32,
    pub index: u16,
    pub content_type: u16,
    pub size: u64,
    pub hash: [u8; 20],
}

/// The metadata of a title (TMD).
#[derive(Debug, Clone)]
pub struct TitleMetaData {
    pub sig_type: u32,
    pub signature: [u8; 0x100],
    pub padding: [u8; 60],
    pub issuer: [u8; 0x40],
    pub version: u8,
    pub ca_crl_version: u8,
    pub signer_crl_version: u8,
    pub is_v_wii: bool,
    pub system_version: u64,
    pub title_id: [u8; 8],
    pub title_type: u32,
    pub group_id: u16,
    pub fake_sign: [u8; 0x3e],
    pub access_rights: u32,
    pub title_version: u16,
    pub n_content: u16,
    pub boot_index: u16,
    pub padding3: [u8; 2],
    pub contents: Vec<TMDContent>,
}

/// Size of a TMD header.
pub const TMD_HEADER_SIZE: usize = 0x1E4;
/// Size of a TMD content record.
pub const TMD_CONTENT_SIZE: usize = 36;

/// The 36 bytes that encode a content record.
pub open spec fn tmd_content_bytes(c: TMDContent) -> Seq<u8> {
    u32_be_bytes(c.content_id) + u16_be_bytes(c.index) + u16_be_bytes(c.content_type) + u64_be_bytes(c.size)
        + c.hash@
}

/// The records of `cs`, one after the other.
pub open spec fn tmd_contents_bytes(cs: Seq<TMDContent>) -> Seq<u8>
    decreases cs.len(),
{
    if cs.len() == 0 {
        Seq::empty()
    } else {
        tmd_contents_bytes(cs.drop_last()) + tmd_content_bytes(cs.last())
    }
}

/// The 0x1E4 header bytes of `t`, with the content count cut to 16 bits.
#[verifier::opaque]
pub open spec fn tmd_header_bytes(t: TitleMetaData) -> Seq<u8> {
    u32_be_bytes(t.sig_type) + t.signature@ + t.padding@ + t.issuer@ + seq![
        t.version,
        t.ca_crl_version,
        t.signer_crl_version,
        if t.is_v_wii { 1u8 } else { 0u8 },
    ] + u64_be_bytes(t.system_version) + t.title_id@ + u32_be_bytes(t.title_type) + u16_be_bytes(
        t.group_id,
    ) + t.fake_sign@ + u32_be_bytes(t.access_rights) + u16_be_bytes(t.title_version) + u16_be_bytes(
        t.contents@.len() as u16,
    ) + u16_be_bytes(t.boot_index) + t.padding3@
}

/// The bytes that encode `t`.
pub open spec fn tmd_bytes(t: TitleMetaData) -> Seq<u8> {
    tmd_header_bytes(t) + tmd_contents_bytes(t.contents@)
}

/// `c` is the content record at `off` in `s`.
pub open spec fn tmd_content_decoded(c: TMDContent, s: Seq<u8>, off: int) -> bool {
    &&& c.content_id == seq_be_u32(s, off)
    &&& c.index == seq_be_u16(s, off + 4)
    &&& c.content_type == seq_be_u16(s, off + 6)
    &&& c.size == seq_be_u64(s, off + 8)
    &&& c.hash@ == s.subrange(off + 16, off + 36)
}

/// `t` is the TMD that `s` encodes.
pub open spec fn tmd_decoded(t: TitleMetaData, s: Seq<u8>) -> bool {
    &&& t.sig_type == seq_be_u32(s, 0)
    &&& t.signature@ == s.subrange(0x4, 0x104)
    &&& t.padding@ == s.subrange(0x104, 0x140)
    &&& t.issuer@ == s.subrange(0x140, 0x180)
    &&& t.version == s[0x180]
    &&& t.ca_crl_version == s[0x181]
    &&& t.signer_crl_version == s[0x182]
    &&& t.is_v_wii == (s[0x183] != 0)
    &&& t.system_version == seq_be_u64(s, 0x184)
    &&& t.title_id@ == s.subrange(0x18c, 0x194)
    &&& t.title_type == seq_be_u32(s, 0x194)
    &&& t.group_id == seq_be_u16(s, 0x198)
    &&& t.fake_sign@ == s.subrange(0x19a, 0x1d8)
    &&& t.access_rights == seq_be_u32(s, 0x1d8)
    &&& t.title_version == seq_be_u16(s, 0x1dc)
    &&& t.n_content == seq_be_u16(s, 0x1de)
    &&& t.boot_index == seq_be_u16(s, 0x1e0)
    &&& t.padding3@ == s.subrange(0x1e2, 0x1e4)
    &&& t.contents@.len() == t.n_content
    &&& forall|i: int| 0 <= i < t.contents@.len() ==> tmd_content_decoded(#[trigger] t.contents@[i], s, TMD_HEADER_SIZE + TMD_CONTENT_SIZE * i)
}

/// The TMD at the start of `s` is all there.
pub open spec fn tmd_fits(s: Seq<u8>) -> bool {
    &&& s.len() >= TMD_HEADER_SIZE
    &&& s.len() >= TMD_HEADER_SIZE + TMD_CONTENT_SIZE * seq_be_u16(s, 0x1de)
}

/// The bytes of a content record.
fn push_tmd_content(out: &mut Vec<u8>, c: &TMDContent)
    ensures
        final(out)@ == old(out)@ + tmd_content_bytes(*c),
{
    push_be_u32(out, c.content_id);
    push_be_u16(out, c.index);
    push_be_u16(out, c.content_type);
    push_be_u64(out, c.size);
    push_bytes(out, c.hash.as_slice());
    assert(final(out)@ =~= old(out)@ + tmd_content_bytes(*c));
}

/// Reads the content record at `off`.
fn read_tmd_content(s: &[u8], off: usize) -> (r: TMDContent)
    requires
        off + TMD_CONTENT_SIZE <= s@.len(),
    ensures
        tmd_content_decoded(r, s@, off as int),
{
    let n = s.len();
    assert(off + 36 <= n);
    TMDContent {
        content_id: read_be_u32(s, off),
        index: read_be_u16(s, off + 4),
        content_type: read_be_u16(s, off + 6),
        size: read_be_u64(s, off + 8),
        hash: read_array::<20>(s, off + 16),
    }
}

impl TitleMetaData {
    /// Size of a TMD with `n_content` content records.
    pub fn get_size_n(n_content: u16) -> (r: usize)
        ensures
            r == TMD_HEADER_SIZE + TMD_CONTENT_SIZE * n_content,
    {
        0x1E4 + 36 * n_content as usize
    }

    /// Size of the TMD.
    pub fn get_size(&self) -> (r: usize)
        requires
            TMD_HEADER_SIZE + TMD_CONTENT_SIZE * self.contents@.len() <= usize::MAX,
        ensures
            r == TMD_HEADER_SIZE + TMD_CONTENT_SIZE * self.contents@.len(),
    {
        0x1E4 + 36 * self.contents.len()
    }

    /// The bytes that encode the TMD.
    pub fn encode(&self) -> (r: Vec<u8>)
        ensures
            r@ == tmd_bytes(*self),
    {
        let mut out: Vec<u8> = Vec::new();
        push_be_u32(&mut out, self.sig_type);
        push_bytes(&mut out, self.signature.as_slice());
        push_bytes(&mut out, self.padding.as_slice());
        push_bytes(&mut out, self.issuer.as_slice());
        out.push(self.version);
        out.push(self.ca_crl_version);
        out.push(self.signer_crl_version);
        out.push(if self.is_v_wii { 1 } else { 0 });
        push_be_u64(&mut out, self.system_version);
        push_bytes(&mut out, self.title_id.as_slice());
        push_be_u32(&mut out, self.title_type);
        push_be_u16(&mut out, self.group_id);
        push_bytes(&mut out, self.fake_sign.as_slice());
        push_be_u32(&mut out, self.access_rights);
        push_be_u16(&mut out, self.title_version);
        push_be_u16(&mut out, self.contents.len() as u16);
        push_be_u16(&mut out, self.boot_index);
        push_bytes(&mut out, self.padding3.as_slice());
        proof {
            reveal(tmd_header_bytes);
        }
        assert(out@ =~= tmd_header_bytes(*self));
        let ghost head = out@;
        let mut i: usize = 0;
        while i < self.contents.len()
            invariant
                i <= self.contents@.len(),
                out@ == head + tmd_contents_bytes(self.contents@.take(i as int)),
            decreases self.contents@.len() - i,
        {
            push_tmd_content(&mut out, &self.contents[i]);
            i = i + 1;
            assert(self.contents@.take(i as int).drop_last() =~= self.contents@.take(i - 1));
            assert(out@ =~= head + tmd_contents_bytes(self.contents@.take(i as int)));
        }
        assert(self.contents@.take(i as int) =~= self.contents@);
        out
    }
}


/// The records of `cs` take 36 bytes each, record `i` at `36 * i`.
proof fn lemma_tmd_contents_bytes(cs: Seq<TMDContent>)
    ensures
        tmd_contents_bytes(cs).len() == TMD_CONTENT_SIZE * cs.len(),
        forall|i: int| 0 <= i < cs.len() ==> tmd_contents_bytes(cs).subrange(
            TMD_CONTENT_SIZE * i,
            TMD_CONTENT_SIZE * i + TMD_CONTENT_SIZE,
        ) == tmd_content_bytes(#[trigger] cs[i]),
    decreases cs.len(),
{
    if cs.len() > 0 {
        let p = cs.drop_last();
        lemma_tmd_contents_bytes(p);
        let b = tmd_contents_bytes(cs);
        assert forall|i: int| 0 <= i < cs.len() implies b.subrange(
            TMD_CONTENT_SIZE * i,
            TMD_CONTENT_SIZE * i + TMD_CONTENT_SIZE,
        ) == tmd_content_bytes(#[trigger] cs[i]) by {
            if i < p.len() {
                assert(b.subrange(TMD_CONTENT_SIZE * i, TMD_CONTENT_SIZE * i + TMD_CONTENT_SIZE)
                    =~= tmd_contents_bytes(p).subrange(TMD_CONTENT_SIZE * i, TMD_CONTENT_SIZE * i + TMD_CONTENT_SIZE));
                assert(cs[i] == p[i]);
            } else {
                assert(b.subrange(TMD_CONTENT_SIZE * i, TMD_CONTENT_SIZE * i + TMD_CONTENT_SIZE)
                    =~= tmd_content_bytes(cs.last()));
            }
        }
    }
}

/// The header of a TMD is 0x1E4 bytes long.
proof fn lemma_tmd_header_len(t: TitleMetaData)
    ensures
        tmd_header_bytes(t).len() == TMD_HEADER_SIZE,
{
    reveal(tmd_header_bytes);
}

/// An encoded TMD is its header and 36 bytes per content record.
pub proof fn lemma_tmd_bytes_len(t: TitleMetaData)
    ensures
        tmd_bytes(t).len() == TMD_HEADER_SIZE + TMD_CONTENT_SIZE * t.contents@.len(),
{
    lemma_tmd_header_len(t);
    lemma_tmd_contents_bytes(t.contents@);
}

impl TitleMetaData {
    /// Reads the TMD that starts at `tmd_offset` in `partition`.
    pub fn from_partition(partition: &[u8], tmd_offset: usize) -> (r: TitleMetaData)
        requires
            tmd_offset <= partition@.len(),
            tmd_fits(partition@.skip(tmd_offset as int)),
        ensures
            tmd_decoded(r, partition@.skip(tmd_offset as int)),
    {
        let s = vstd::slice::slice_subrange(partition, tmd_offset, partition.len());
        assert(s@ =~= partition@.skip(tmd_offset as int));
        let n_content = read_be_u16(s, 0x1de);
        let mut contents: Vec<TMDContent> = Vec::with_capacity(n_content as usize);
        let mut i: usize = 0;
        while i < n_content as usize
            invariant
                i <= n_content,
                n_content == seq_be_u16(s@, 0x1de),
                tmd_fits(s@),
                contents@.len() == i,
                forall|k: int| 0 <= k < i ==> tmd_content_decoded(#[trigger] contents@[k], s@, TMD_HEADER_SIZE + TMD_CONTENT_SIZE * k),
            decreases n_content - i,
        {
            contents.push(read_tmd_content(s, TMD_HEADER_SIZE + i * TMD_CONTENT_SIZE));
            i = i + 1;
        }
        TitleMetaData {
            sig_type: read_be_u32(s, 0),
            signature: read_array::<0x100>(s, 0x4),
            padding: read_array::<60>(s, 0x104),
            issuer: read_array::<0x40>(s, 0x140),
            version: s[0x180],
            ca_crl_version: s[0x181],
            signer_crl_version: s[0x182],
            is_v_wii: s[0x183] != 0,
            system_version: read_be_u64(s, 0x184),
            title_id: read_array::<8>(s, 0x18c),
            title_type: read_be_u32(s, 0x194),
            group_id: read_be_u16(s, 0x198),
            fake_sign: read_array::<0x3e>(s, 0x19a),
            access_rights: read_be_u32(s, 0x1d8),
            title_version: read_be_u16(s, 0x1dc),
            n_content,
            boot_index: read_be_u16(s, 0x1e0),
            padding3: read_array::<2>(s, 0x1e2),
            contents,
        }
    }

    /// Writes the TMD at `tmd_offset` in `partition`.
    pub fn set_partition(partition: &mut [u8], tmd_offset: usize, tmd: &TitleMetaData)
        requires
            tmd_offset + TMD_HEADER_SIZE + TMD_CONTENT_SIZE * tmd.contents@.len() <= old(partition)@.len(),
        ensures
            final(partition)@ == splice(old(partition)@, tmd_offset as int, tmd_bytes(*tmd)),
    {
        proof {
            lemma_tmd_header_len(*tmd);
            lemma_tmd_contents_bytes(tmd.contents@);
        }
        let bytes = tmd.encode();
        write_bytes(partition, tmd_offset, bytes.as_slice());
    }
}

impl Default for TitleMetaData {
    fn default() -> (r: Self)
        ensures
            tmd_decoded(r, Seq::new(TMD_HEADER_SIZE as nat, |_i: int| 0u8)),
    {
        let z = [0u8; 0x1E4];
        assert(z@.skip(0) =~= Seq::new(TMD_HEADER_SIZE as nat, |_i: int| 0u8));
        TitleMetaData::from_partition(z.as_slice(), 0)
    }
}


/// Two content records hold the same fields.
pub open spec fn same_tmd_content(a: TMDContent, b: TMDContent) -> bool {
    a.content_id == b.content_id && a.index == b.index && a.content_type == b.content_type && a.size
        == b.size && a.hash@ == b.hash@
}

/// Two TMDs hold the same header fields and content records.
pub open spec fn same_tmd(a: TitleMetaData, b: TitleMetaData) -> bool {
    &&& a.sig_type == b.sig_type && a.signature@ == b.signature@ && a.padding@ == b.padding@
    &&& a.issuer@ == b.issuer@ && a.version == b.version && a.ca_crl_version == b.ca_crl_version
    &&& a.signer_crl_version == b.signer_crl_version && a.is_v_wii == b.is_v_wii
    &&& a.system_version == b.system_version && a.title_id@ == b.title_id@
    &&& a.title_type == b.title_type && a.group_id == b.group_id && a.fake_sign@ == b.fake_sign@
    &&& a.access_rights == b.access_rights && a.title_version == b.title_version
    &&& a.boot_index == b.boot_index && a.padding3@ == b.padding3@
    &&& a.contents@.len() == b.contents@.len()
    &&& forall|i: int| 0 <= i < a.contents@.len() ==> same_tmd_content(#[trigger] a.contents@[i], b.contents@[i])
}

/// A content record read back where it was written gives the record.
proof fn lemma_tmd_content_roundtrip(c: TMDContent, s: Seq<u8>, off: int, read: TMDContent)
    requires
        0 <= off,
        off + TMD_CONTENT_SIZE <= s.len(),
        s.subrange(off, off + TMD_CONTENT_SIZE) == tmd_content_bytes(c),
        tmd_content_decoded(read, s, off),
    ensures
        same_tmd_content(read, c),
{
    let b = tmd_content_bytes(c);
    lemma_u32_roundtrip(c.content_id);
    lemma_u16_roundtrip(c.index);
    lemma_u16_roundtrip(c.content_type);
    lemma_u64_roundtrip(c.size);
    assert(b.subrange(0, 4) =~= u32_be_bytes(c.content_id));
    assert(b.subrange(4, 6) =~= u16_be_bytes(c.index));
    assert(b.subrange(6, 8) =~= u16_be_bytes(c.content_type));
    assert(b.subrange(8, 16) =~= u64_be_bytes(c.size));
    assert(b.subrange(16, 36) =~= c.hash@);
    assert(seq_be_u32(s, off) == seq_be_u32(b.subrange(0, 4), 0));
    assert(seq_be_u16(s, off + 4) == seq_be_u16(b.subrange(4, 6), 0));
    assert(seq_be_u16(s, off + 6) == seq_be_u16(b.subrange(6, 8), 0));
    assert(seq_be_u64(s, off + 8) == seq_be_u64(b.subrange(8, 16), 0));
    assert(s.subrange(off + 16, off + 36) =~= b.subrange(16, 36));
}

/// The header fields of a TMD read back as written.
#[verifier::spinoff_prover]
#[verifier::rlimit(60)]
proof fn lemma_tmd_header_roundtrip(t: TitleMetaData, s: Seq<u8>, read: TitleMetaData)
    requires
        s.len() >= TMD_HEADER_SIZE,
        s.subrange(0, TMD_HEADER_SIZE as int) == tmd_header_bytes(t),
        tmd_decoded(read, s),
    ensures
        read.sig_type == t.sig_type && read.signature@ == t.signature@ && read.padding@ == t.padding@,
        read.issuer@ == t.issuer@ && read.version == t.version && read.ca_crl_version == t.ca_crl_version,
        read.signer_crl_version == t.signer_crl_version && read.is_v_wii == t.is_v_wii,
        read.system_version == t.system_version && read.title_id@ == t.title_id@,
        read.title_type == t.title_type && read.group_id == t.group_id && read.fake_sign@ == t.fake_sign@,
        read.access_rights == t.access_rights && read.title_version == t.title_version,
        read.boot_index == t.boot_index && read.padding3@ == t.padding3@,
        read.n_content == t.contents@.len() as u16,
{
    reveal(tmd_header_bytes);
    let h = tmd_header_bytes(t);
    lemma_u32_roundtrip(t.sig_type);
    lemma_u64_roundtrip(t.system_version);
    lemma_u32_roundtrip(t.title_type);
    lemma_u16_roundtrip(t.group_id);
    lemma_u32_roundtrip(t.access_rights);
    lemma_u16_roundtrip(t.title_version);
    lemma_u16_roundtrip(t.contents@.len() as u16);
    lemma_u16_roundtrip(t.boot_index);
    assert forall|i: int, j: int| 0 <= i <= j <= 0x1E4 implies s.subrange(i, j) =~= h.subrange(i, j) by {}
    assert(h.subrange(0, 4) =~= u32_be_bytes(t.sig_type));
    assert(h.subrange(0x4, 0x104) =~= t.signature@);
    assert(h.subrange(0x104, 0x140) =~= t.padding@);
    assert(h.subrange(0x140, 0x180) =~= t.issuer@);
    assert(h.subrange(0x184, 0x18c) =~= u64_be_bytes(t.system_version));
    assert(h.subrange(0x18c, 0x194) =~= t.title_id@);
    assert(h.subrange(0x194, 0x198) =~= u32_be_bytes(t.title_type));
    assert(h.subrange(0x198, 0x19a) =~= u16_be_bytes(t.group_id));
    assert(h.subrange(0x19a, 0x1d8) =~= t.fake_sign@);
    assert(h.subrange(0x1d8, 0x1dc) =~= u32_be_bytes(t.access_rights));
    assert(h.subrange(0x1dc, 0x1de) =~= u16_be_bytes(t.title_version));
    assert(h.subrange(0x1de, 0x1e0) =~= u16_be_bytes(t.contents@.len() as u16));
    assert(h.subrange(0x1e0, 0x1e2) =~= u16_be_bytes(t.boot_index));
    assert(h.subrange(0x1e2, 0x1e4) =~= t.padding3@);
    assert(seq_be_u32(s, 0) == seq_be_u32(h.subrange(0, 4), 0));
    assert(seq_be_u64(s, 0x184) == seq_be_u64(h.subrange(0x184, 0x18c), 0));
    assert(seq_be_u32(s, 0x194) == seq_be_u32(h.subrange(0x194, 0x198), 0));
    assert(seq_be_u16(s, 0x198) == seq_be_u16(h.subrange(0x198, 0x19a), 0));
    assert(seq_be_u32(s, 0x1d8) == seq_be_u32(h.subrange(0x1d8, 0x1dc), 0));
    assert(seq_be_u16(s, 0x1dc) == seq_be_u16(h.subrange(0x1dc, 0x1de), 0));
    assert(seq_be_u16(s, 0x1de) == seq_be_u16(h.subrange(0x1de, 0x1e0), 0));
    assert(seq_be_u16(s, 0x1e0) == seq_be_u16(h.subrange(0x1e0, 0x1e2), 0));
    assert(s[0x180] == h[0x180] && s[0x181] == h[0x181] && s[0x182] == h[0x182] && s[0x183] == h[0x183]);
}

/// Encoding a TMD and reading it back gives the TMD, when it has fewer than
/// 2^16 content records (the count is stored in 16 bits).
pub proof fn lemma_tmd_roundtrip(t: TitleMetaData, read: TitleMetaData)
    requires
        t.contents@.len() <= 0xFFFF,
        tmd_decoded(read, tmd_bytes(t)),
    ensures
        same_tmd(read, t),
{
    let s = tmd_bytes(t);
    lemma_tmd_header_len(t);
    lemma_tmd_contents_bytes(t.contents@);
    assert(s.subrange(0, TMD_HEADER_SIZE as int) =~= tmd_header_bytes(t));
    lemma_tmd_header_roundtrip(t, s, read);
    assert forall|i: int| 0 <= i < read.contents@.len() implies same_tmd_content(#[trigger] read.contents@[i], t.contents@[i]) by {
        let off = TMD_HEADER_SIZE + TMD_CONTENT_SIZE * i;
        assert(s.subrange(off, off + TMD_CONTENT_SIZE) =~= tmd_contents_bytes(t.contents@).subrange(
            TMD_CONTENT_SIZE * i,
            TMD_CONTENT_SIZE * i + TMD_CONTENT_SIZE,
        ));
        lemma_tmd_content_roundtrip(t.contents@[i], s, off, read.contents@[i]);
    }
}


/// `n` zero bytes.
pub open spec fn zeros(n: nat) -> Seq<u8> {
    Seq::new(n, |_i: int| 0u8)
}

/// The encoding of `t` with its signature, padding and fake-signing area
/// cleared.
pub open spec fn tmd_cleared_bytes(t: TitleMetaData) -> Seq<u8> {
    splice(splice(tmd_bytes(t), 4, zeros(0x13c)), 0x19a, zeros(0x3e))
}

/// The content count field of an encoded TMD.
proof fn lemma_tmd_count_field(t: TitleMetaData)
    ensures
        seq_be_u16(tmd_bytes(t), 0x1de) == t.contents@.len() as u16,
        tmd_bytes(t).len() == TMD_HEADER_SIZE + TMD_CONTENT_SIZE * t.contents@.len(),
{
    reveal(tmd_header_bytes);
    lemma_tmd_contents_bytes(t.contents@);
    let b = tmd_bytes(t);
    let h = tmd_header_bytes(t);
    lemma_u16_roundtrip(t.contents@.len() as u16);
    assert(b.subrange(0x1de, 0x1e0) =~= u16_be_bytes(t.contents@.len() as u16));
    assert(seq_be_u16(b, 0x1de) == seq_be_u16(b.subrange(0x1de, 0x1e0), 0));
}

/// Clearing the signature fields of a TMD clears their bytes.
proof fn lemma_tmd_cleared(t: TitleMetaData, c: TitleMetaData)
    requires
        c.signature@ == zeros(0x100),
        c.padding@ == zeros(60),
        c.fake_sign@ == zeros(0x3e),
        c.sig_type == t.sig_type && c.issuer == t.issuer && c.version == t.version,
        c.ca_crl_version == t.ca_crl_version && c.signer_crl_version == t.signer_crl_version,
        c.is_v_wii == t.is_v_wii && c.system_version == t.system_version && c.title_id == t.title_id,
        c.title_type == t.title_type && c.group_id == t.group_id && c.access_rights == t.access_rights,
        c.title_version == t.title_version && c.boot_index == t.boot_index && c.padding3 == t.padding3,
        c.contents@ == t.contents@,
    ensures
        tmd_bytes(c) == tmd_cleared_bytes(t),
{
    reveal(tmd_header_bytes);
    assert(tmd_header_bytes(c) =~= splice(splice(tmd_header_bytes(t), 4, zeros(0x13c)), 0x19a, zeros(0x3e)));
    assert(tmd_bytes(c) =~= tmd_cleared_bytes(t));
}

/// `after` is the TMD `before` fake-signed: its signature cleared, the
/// first four bytes of its fake-signing area brute-forced until the SHA-1
/// of the signed part starts with a zero byte, and read back.
pub open spec fn tmd_fake_signed(before: TitleMetaData, after: TitleMetaData) -> bool {
    exists|v: u32|
        brute_force_stop(tmd_cleared_bytes(before), 0x19a, 0x140, v) && tmd_decoded(
            after,
            splice(tmd_cleared_bytes(before), 0x19a, u32_be_bytes(v)),
        )
}

/// Fake-signing a TMD keeps its number of content records.
pub proof fn lemma_fake_signed_tmd_count(before: TitleMetaData, after: TitleMetaData)
    requires
        tmd_fake_signed(before, after),
        before.contents@.len() < 0x1_0000,
    ensures
        after.contents@.len() == before.contents@.len(),
{
    let v = choose|v: u32|
        brute_force_stop(tmd_cleared_bytes(before), 0x19a, 0x140, v) && tmd_decoded(
            after,
            splice(tmd_cleared_bytes(before), 0x19a, u32_be_bytes(v)),
        );
    lemma_tmd_count_field(before);
    let b = tmd_bytes(before);
    let c = tmd_cleared_bytes(before);
    let w = splice(c, 0x19a, u32_be_bytes(v));
    assert(w[0x1de] == b[0x1de] && w[0x1df] == b[0x1df]);
}

impl TitleMetaData {
    /// Fake-signs the TMD: clears its signature, then brute-forces the first
    /// four bytes of its fake-signing area until the SHA-1 of the signed
    /// part starts with a zero byte. The TMD is then read back from its
    /// bytes.
    pub fn fake_sign(&mut self)
        requires
            TMD_HEADER_SIZE + TMD_CONTENT_SIZE * old(self).contents@.len() <= usize::MAX,
        ensures
            tmd_fake_signed(*old(self), *final(self)),
    {
        let ghost t0 = *self;
        let size = self.get_size();
        let mut tmd_buf: Vec<u8> = vec![0u8; size];
        self.signature = [0u8; 0x100];
        self.padding = [0u8; 60];
        self.fake_sign = [0u8; 0x3e];
        proof {
            assert(self.signature@ =~= zeros(0x100));
            assert(self.padding@ =~= zeros(60));
            assert(self.fake_sign@ =~= zeros(0x3e));
            lemma_tmd_cleared(t0, *self);
            lemma_tmd_count_field(*self);
        }
        TitleMetaData::set_partition(tmd_buf.as_mut_slice(), 0, self);
        assert(tmd_buf@ =~= tmd_cleared_bytes(t0));
        let val = brute_force_zero_hash(&mut tmd_buf, 0x19a, 0x140);
        let ghost signed = tmd_buf@;
        proof {
            let c = tmd_cleared_bytes(t0);
            assert(signed.subrange(0x1de, 0x1e0) =~= c.subrange(0x1de, 0x1e0));
            assert(seq_be_u16(signed, 0x1de) == seq_be_u16(signed.subrange(0x1de, 0x1e0), 0));
            assert(seq_be_u16(c, 0x1de) == seq_be_u16(c.subrange(0x1de, 0x1e0), 0));
            assert(tmd_buf@.skip(0) =~= tmd_buf@);
        }
        *self = TitleMetaData::from_partition(tmd_buf.as_slice(), 0);
    }
}

/// The common key with the given index.
pub open spec fn common_key_seq(index: int) -> Seq<u8> {
    Seq::new(16, |j: int| common_key_byte(index, j))
}

/// The title key of a ticket: decrypted with the common key it names, the
/// title id (zero-extended) as IV.
pub open spec fn title_key_of(t: Ticket) -> Seq<u8> {
    aes128_cbc_decrypt(
        common_key_seq(t.common_key_index as int),
        t.title_id@ + zeros(8),
        t.title_key@ + zeros(240),
    ).take(16)
}

/// Decrypts the title key of a ticket.
pub fn decrypt_title_key(tik: &Ticket) -> (r: AesKey)
    requires
        tik.common_key_index < WII_CKEY_AMNT,
    ensures
        r@ == title_key_of(*tik),
{
    let key = common_key(tik.common_key_index as usize);
    assert(key@ =~= common_key_seq(tik.common_key_index as int));
    let mut iv = [0u8; 16];
    let mut block: Vec<u8> = vec![0u8; 256];
    let mut i: usize = 0;
    while i < 8
        invariant
            i <= 8,
            iv@.len() == 16,
            forall|k: int| 0 <= k < i ==> iv@[k] == tik.title_id@[k],
            forall|k: int| 8 <= k < 16 ==> iv@[k] == 0u8,
        decreases 8 - i,
    {
        iv.set(i, tik.title_id[i]);
        i = i + 1;
    }
    assert(iv@ =~= tik.title_id@ + zeros(8));
    let mut j: usize = 0;
    while j < 16
        invariant
            j <= 16,
            block@.len() == 256,
            forall|k: int| 0 <= k < j ==> block@[k] == tik.title_key@[k],
            forall|k: int| 16 <= k < 256 ==> block@[k] == 0u8,
        decreases 16 - j,
    {
        block.set(j, tik.title_key[j]);
        j = j + 1;
    }
    assert(block@ =~= tik.title_key@ + zeros(240));
    let _ = aes_decrypt_inplace(block.as_mut_slice(), &iv, &key);
    let first = vstd::slice::slice_subrange(block.as_slice(), 0, 16);
    assert(first@ =~= title_key_of(*tik));
    assert(fixed_field(first@, 16) =~= first@);
    AesKey::from_slice(first)
}


/// A partition of a Wii disc: its kind, where it starts, its header, its
/// title metadata and its certificate chain.
#[derive(Debug, Clone)]
pub struct WiiPartition {
    pub part_type: PartitionType,
    pub part_offset: u64,
    pub header: PartHeader,
    pub tmd: TitleMetaData,
    pub cert: Vec<u8>,
}

impl WiiPartition {
    /// The partition of the table entry `entry`, from its first bytes (its
    /// header, then its TMD) and its certificate chain.
    pub fn read(entry: &PartInfoEntry, bytes: &[u8], cert: Vec<u8>) -> (r: WiiPartition)
        requires
            bytes@.len() >= PART_HEADER_BLOCK_SIZE,
            tmd_fits(bytes@.skip(PART_HEADER_BLOCK_SIZE as int)),
        ensures
            r.part_type == partition_type_from_code(entry.part_type),
            r.part_offset == entry.offset,
            part_header_decoded(r.header, bytes@.take(PART_HEADER_BLOCK_SIZE as int)),
            tmd_decoded(r.tmd, bytes@.skip(PART_HEADER_BLOCK_SIZE as int)),
            r.cert@ == cert@,
    {
        let head = read_array::<0x2C0>(bytes, 0);
        assert(head@ =~= bytes@.take(PART_HEADER_BLOCK_SIZE as int));
        WiiPartition {
            part_type: PartitionType::from(entry.part_type),
            part_offset: entry.offset,
            header: PartHeader::from_bytes(&head),
            tmd: TitleMetaData::from_partition(bytes, PART_HEADER_BLOCK_SIZE),
            cert,
        }
    }
}

/// The partitions of a disc, the index of its game partition among them,
/// and its partition table.
#[derive(Debug, Clone, Default)]
pub struct WiiPartitions {
    pub data_idx: usize,
    pub part_info: PartInfo,
    pub partitions: Vec<WiiPartition>,
}

/// Index of the first data partition of `parts`, from `i` on.
pub open spec fn first_data_partition(parts: Seq<WiiPartition>, i: int) -> Option<int>
    decreases parts.len() - i,
{
    if i < 0 || i >= parts.len() {
        None
    } else if parts[i].part_type == PartitionType::Data {
        Some(i)
    } else {
        first_data_partition(parts, i + 1)
    }
}

impl WiiPartitions {
    /// Gathers the partitions of a disc, its game partition being the first
    /// data partition; fails when there is none.
    pub fn from_partitions(part_info: PartInfo, partitions: Vec<WiiPartition>) -> (r: Result<
        WiiPartitions,
        WiiCryptoError,
    >)
        ensures
            match first_data_partition(partitions@, 0) {
                Some(i) => r matches Ok(p) && p.data_idx == i && p.partitions@ == partitions@
                    && p.part_info.offset == part_info.offset && p.part_info.entries@ == part_info.entries@,
                None => r == Err::<WiiPartitions, WiiCryptoError>(WiiCryptoError::NoGamePartition),
            },
    {
        let mut i: usize = 0;
        while i < partitions.len()
            invariant
                i <= partitions@.len(),
                first_data_partition(partitions@, 0) == first_data_partition(partitions@, i as int),
            decreases partitions@.len() - i,
        {
            if partitions[i].part_type == PartitionType::Data {
                return Ok(WiiPartitions { data_idx: i, part_info, partitions });
            }
            i = i + 1;
        }
        Err(WiiCryptoError::NoGamePartition)
    }
}

/// A Wii disc: its header, its region block and its partitions.
#[derive(Debug, Clone)]
pub struct WiiDisc {
    pub disc_header: WiiDiscHeader,
    pub disc_region: WiiDiscRegion,
    pub partitions: WiiPartitions,
}

/// Where the byte `x` of a partition's data stands in its encrypted form:
/// each 0x7C00 bytes of data take a 0x8000-byte sector, after its 0x400-byte
/// hash block.
pub open spec fn encrypted_addr(x: int) -> int {
    (x / 0x7C00) * 0x8000 + x % 0x7C00 + 0x400
}

/// The byte of a partition's data that the encrypted address `y` holds;
/// addresses inside a hash block give the start of the sector's data.
pub open spec fn decrypted_addr(y: int) -> int {
    (y / 0x8000) * 0x7C00 + (if y % 0x8000 >= 0x400 { y % 0x8000 - 0x400 } else { 0 })
}

/// Translating a byte of the data to its encrypted address and back gives
/// the byte.
pub proof fn lemma_addr_roundtrip(x: int)
    requires
        0 <= x,
    ensures
        decrypted_addr(encrypted_addr(x)) == x,
{
    let q = x / 0x7C00;
    let r = x % 0x7C00;
    vstd::arithmetic::div_mod::lemma_fundamental_div_mod(x, 0x7C00);
    assert(0 <= r < 0x7C00);
    assert(q >= 0) by {
        vstd::arithmetic::div_mod::lemma_div_pos_is_pos(x, 0x7C00);
    }
    let y = encrypted_addr(x);
    assert(y == q * 0x8000 + (r + 0x400));
    vstd::arithmetic::div_mod::lemma_fundamental_div_mod_converse(y, 0x8000, q, r + 0x400);
}

/// `x` rounded up to the next multiple of `2^bit` strictly past `x - 1`.
pub open spec fn align_up(x: int, bit: nat) -> int {
    ((x - 1) / pow2(bit) as int) * pow2(bit) + pow2(bit)
}

/// Unsigned integers that partition addresses are computed in.
pub trait SectorAddress: Sized + Copy {
    /// The value of the address.
    spec fn addr(&self) -> int;

    /// The largest value of the type.
    spec fn max_addr() -> int;

    fn encrypted(self) -> (r: Self)
        requires
            0 <= self.addr() <= Self::max_addr(),
            encrypted_addr(self.addr()) <= Self::max_addr(),
        ensures
            r.addr() == encrypted_addr(self.addr()),
    ;

    fn decrypted(self) -> (r: Self)
        requires
            0 <= self.addr() <= Self::max_addr(),
        ensures
            r.addr() == decrypted_addr(self.addr()),
    ;
}

/// Unsigned integers that addresses are aligned in.
pub trait AlignAddress: Sized + Copy {
    /// The value of the address.
    spec fn align_value(&self) -> int;

    /// The largest value of the type.
    spec fn align_max() -> int;

    /// The width of the type.
    spec fn align_bits() -> nat;

    fn aligned(self, bit: usize) -> (r: Self)
        requires
            1 <= self.align_value() <= Self::align_max(),
            bit < Self::align_bits(),
            align_up(self.align_value(), bit as nat) <= Self::align_max(),
        ensures
            r.align_value() == align_up(self.align_value(), bit as nat),
    ;
}

impl SectorAddress for u16 {
    open spec fn addr(&self) -> int {
        *self as int
    }

    open spec fn max_addr() -> int {
        u16::MAX as int
    }

    fn encrypted(self) -> (r: Self) {
        (self / 0x7C00) * 0x8000 + self % 0x7C00 + 0x400
    }

    fn decrypted(self) -> (r: Self) {
        (self / 0x8000) * 0x7C00 + (self % 0x8000).saturating_sub(0x400)
    }
}

impl SectorAddress for u32 {
    open spec fn addr(&self) -> int {
        *self as int
    }

    open spec fn max_addr() -> int {
        u32::MAX as int
    }

    fn encrypted(self) -> (r: Self) {
        (self / 0x7C00) * 0x8000 + self % 0x7C00 + 0x400
    }

    fn decrypted(self) -> (r: Self) {
        (self / 0x8000) * 0x7C00 + (self % 0x8000).saturating_sub(0x400)
    }
}

impl SectorAddress for u64 {
    open spec fn addr(&self) -> int {
        *self as int
    }

    open spec fn max_addr() -> int {
        u64::MAX as int
    }

    fn encrypted(self) -> (r: Self) {
        (self / 0x7C00) * 0x8000 + self % 0x7C00 + 0x400
    }

    fn decrypted(self) -> (r: Self) {
        (self / 0x8000) * 0x7C00 + (self % 0x8000).saturating_sub(0x400)
    }
}

impl SectorAddress for u128 {
    open spec fn addr(&self) -> int {
        *self as int
    }

    open spec fn max_addr() -> int {
        u128::MAX as int
    }

    fn encrypted(self) -> (r: Self) {
        (self / 0x7C00) * 0x8000 + self % 0x7C00 + 0x400
    }

    fn decrypted(self) -> (r: Self) {
        (self / 0x8000) * 0x7C00 + (self % 0x8000).saturating_sub(0x400)
    }
}

impl SectorAddress for usize {
    open spec fn addr(&self) -> int {
        *self as int
    }

    open spec fn max_addr() -> int {
        usize::MAX as int
    }

    fn encrypted(self) -> (r: Self) {
        (self / 0x7C00) * 0x8000 + self % 0x7C00 + 0x400
    }

    fn decrypted(self) -> (r: Self) {
        (self / 0x8000) * 0x7C00 + (self % 0x8000).saturating_sub(0x400)
    }
}

impl AlignAddress for u32 {
    open spec fn align_value(&self) -> int {
        *self as int
    }

    open spec fn align_max() -> int {
        u32::MAX as int
    }

    open spec fn align_bits() -> nat {
        u32::BITS as nat
    }

    fn aligned(self, bit: usize) -> (r: Self) {
        proof {
            vstd::bits::lemma_u32_pow2_no_overflow(bit as nat);
            vstd::bits::lemma_u32_shl_is_mul(1, bit as u32);
            lemma_pow2_pos(bit as nat);
        }
        let p: u32 = 1 << (bit as u32);
        let a = self - 1;
        let q = a / p;
        assert(q * p <= a) by (nonlinear_arith)
            requires q == a / p, p > 0;
        q * p + p
    }
}

impl AlignAddress for u64 {
    open spec fn align_value(&self) -> int {
        *self as int
    }

    open spec fn align_max() -> int {
        u64::MAX as int
    }

    open spec fn align_bits() -> nat {
        u64::BITS as nat
    }

    fn aligned(self, bit: usize) -> (r: Self) {
        proof {
            vstd::bits::lemma_u64_pow2_no_overflow(bit as nat);
            vstd::bits::lemma_u64_shl_is_mul(1, bit as u64);
            lemma_pow2_pos(bit as nat);
        }
        let p: u64 = 1 << (bit as u64);
        let a = self - 1;
        let q = a / p;
        assert(q * p <= a) by (nonlinear_arith)
            requires q == a / p, p > 0;
        q * p + p
    }
}

impl AlignAddress for usize {
    open spec fn align_value(&self) -> int {
        *self as int
    }

    open spec fn align_max() -> int {
        usize::MAX as int
    }

    open spec fn align_bits() -> nat {
        usize::BITS as nat
    }

    fn aligned(self, bit: usize) -> (r: Self) {
        proof {
            vstd::bits::lemma_usize_pow2_no_overflow(bit as nat);
            vstd::bits::lemma_usize_shl_is_mul(1, bit as usize);
            lemma_pow2_pos(bit as nat);
        }
        let p: usize = 1 << (bit as usize);
        let a = self - 1;
        let q = a / p;
        assert(q * p <= a) by (nonlinear_arith)
            requires q == a / p, p > 0;
        q * p + p
    }
}

/// The address in the encrypted partition of the byte `size` of its data.
pub fn to_encrypted_addr<T: SectorAddress>(size: T) -> (r: T)
    requires
        0 <= size.addr() <= T::max_addr(),
        encrypted_addr(size.addr()) <= T::max_addr(),
    ensures
        r.addr() == encrypted_addr(size.addr()),
{
    size.encrypted()
}

/// The byte of the partition's data at the encrypted address `size`.
pub fn to_decrypted_addr<T: SectorAddress>(size: T) -> (r: T)
    requires
        0 <= size.addr() <= T::max_addr(),
    ensures
        r.addr() == decrypted_addr(size.addr()),
{
    size.decrypted()
}

/// Aligns the `addr` up so that every bits before the `bit`-th bit are 0.
pub fn align_addr<T: AlignAddress>(addr: T, bit: usize) -> (r: T)
    requires
        1 <= addr.align_value() <= T::align_max(),
        bit < T::align_bits(),
        align_up(addr.align_value(), bit as nat) <= T::align_max(),
    ensures
        r.align_value() == align_up(addr.align_value(), bit as nat),
{
    addr.aligned(bit)
}

/// Decrypting an encrypted address gives the address back.
pub proof fn lemma_decrypted_encrypted(x: int)
    requires
        0 <= x,
    ensures
        decrypted_addr(encrypted_addr(x)) == x,
{
    let q = x / 0x7C00;
    let r = x % 0x7C00;
    let y = encrypted_addr(x);
    assert(y == q * 0x8000 + (r + 0x400));
    assert(0 <= r + 0x400 < 0x8000);
    assert(y / 0x8000 == q && y % 0x8000 == r + 0x400) by (nonlinear_arith)
        requires y == q * 0x8000 + (r + 0x400), 0 <= r + 0x400 < 0x8000, q >= 0;
    assert(x == q * 0x7C00 + r) by (nonlinear_arith)
        requires q == x / 0x7C00, r == x % 0x7C00;
}

/// An aligned address is a multiple of `2^bit`, at least the address, and
/// less than `2^bit` past it.
pub proof fn lemma_align_up(x: int, bit: nat)
    requires
        1 <= x,
    ensures
        align_up(x, bit) % (pow2(bit) as int) == 0,
        x <= align_up(x, bit) < x + pow2(bit),
{
    lemma_pow2_pos(bit);
    let p = pow2(bit) as int;
    let q = (x - 1) / p;
    let r = (x - 1) % p;
    assert(x - 1 == q * p + r && 0 <= r < p) by (nonlinear_arith)
        requires q == (x - 1) / p, r == (x - 1) % p, p > 0;
    assert(align_up(x, bit) == (q + 1) * p) by (nonlinear_arith)
        requires align_up(x, bit) == q * p + p;
    assert(((q + 1) * p) % p == 0) by (nonlinear_arith)
        requires p > 0, q >= 0;
}

} // verus!
