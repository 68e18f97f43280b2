//! Writing a Wii disc: the system area before the game partition, the
//! layout of the partition's header, the hash tree and encryption of its
//! groups of sectors, and the fake-signed header written last.

use vstd::prelude::*;
use crate::bytes::{push_be_u32, push_bytes, push_zeros, splice, u32_be_bytes};
use crate::crypto::sha1::{sha1, sha1_digest};
use crate::iso::disc::{
    encrypted_addr, lemma_fake_signed_tmd_count, ticket_fake_signed, tmd_fake_signed,
    align_addr, align_up, disc_set_header, lemma_align_up, lemma_tmd_bytes_len, part_header_bytes, tmd_bytes, wii_disc_header_bytes,
    wii_disc_region_composed, zeros, PartHeader, TMDContent, TitleMetaData, WiiDiscHeader, WiiDiscRegion,
    WiiPartition, PART_HEADER_BLOCK_SIZE, TMD_CONTENT_SIZE, TMD_HEADER_SIZE, WII_DISC_HEADER_SIZE,
};
use vstd::arithmetic::power2::{lemma2_to64, pow2};
use crate::bytes::{copy_range, write_bytes};
use crate::crypto::aes::{aes128_cbc_encrypt, aes_encrypt_blocks_inplace};
use crate::crypto::keys::AesKey;
use crate::disc::read_array;
use crate::iso::read::{sector_at, sector_decrypted, zero_iv, SECTOR_DATA_SIZE, SECTOR_HASH_SIZE, SECTOR_IV_OFFSET, SECTOR_SIZE};

verus! {

/// Where the game partition starts on a written disc.
pub const GAME_PARTITION_OFFSET: u64 = 0x50000;
/// Where the region block is on a disc.
pub const REGION_OFFSET: usize = 0x4E000;
/// Where the magic word that ends the system area is.
pub const MAGIC_OFFSET: usize = 0x4FFFC;
/// The magic word that ends the system area.
pub const WII_END_MAGIC: u32 = 0xC3F81A8E;
/// Offset of the H3 table in a partition.
pub const H3_OFFSET: u64 = 0x8000;

/// The system area of a written disc, up to the game partition: the disc
/// header, the partition table with the one game partition at 0x50000,
/// the region block and the closing magic word, zeros between them.
pub open spec fn disc_preamble_spec(h: WiiDiscHeader, r: WiiDiscRegion, part_type: u32) -> Seq<u8> {
    wii_disc_header_bytes(h) + zeros((0x40000 - WII_DISC_HEADER_SIZE) as nat) + u32_be_bytes(1) + u32_be_bytes(
        0x10008,
    ) + zeros(0x18) + u32_be_bytes(0x14000) + u32_be_bytes(part_type) + zeros((REGION_OFFSET - 0x40028) as nat)
        + wii_disc_region_composed(r, zeros(0x20)) + zeros((MAGIC_OFFSET - (REGION_OFFSET + 0x20)) as nat)
        + u32_be_bytes(WII_END_MAGIC)
}

/// The bytes of the system area of a written disc (see `disc_preamble_spec`).
#[verifier::spinoff_prover]
#[verifier::rlimit(40)]
pub fn disc_preamble(h: &WiiDiscHeader, r: &WiiDiscRegion, part_type: u32) -> (out: Vec<u8>)
    ensures
        out@ == disc_preamble_spec(*h, *r, part_type),
        out@.len() == GAME_PARTITION_OFFSET,
{
    let mut head = vec![0u8; WII_DISC_HEADER_SIZE];
    disc_set_header(head.as_mut_slice(), h);
    let mut out = head;
    let ghost p0 = wii_disc_header_bytes(*h);
    assert(out@ =~= p0);
    push_zeros(&mut out, 0x40000 - WII_DISC_HEADER_SIZE);
    push_be_u32(&mut out, 1);
    // the entries follow at 0x40020, stored divided by four
    push_be_u32(&mut out, 0x10008);
    push_zeros(&mut out, 0x18);
    // the game partition at 0x50000, stored divided by four
    push_be_u32(&mut out, 0x14000);
    push_be_u32(&mut out, part_type);
    let ghost p1 = p0 + zeros((0x40000 - WII_DISC_HEADER_SIZE) as nat) + u32_be_bytes(1) + u32_be_bytes(0x10008)
        + zeros(0x18) + u32_be_bytes(0x14000) + u32_be_bytes(part_type);
    assert(out@ =~= p1);
    push_zeros(&mut out, REGION_OFFSET - 0x40028);
    let mut region = [0u8; 0x20];
    assert(region@ =~= zeros(0x20));
    r.compose_into(&mut region);
    push_bytes(&mut out, region.as_slice());
    let ghost p2 = p1 + zeros((REGION_OFFSET - 0x40028) as nat) + wii_disc_region_composed(*r, zeros(0x20));
    assert(out@ =~= p2);
    push_zeros(&mut out, MAGIC_OFFSET - (REGION_OFFSET + 0x20));
    push_be_u32(&mut out, WII_END_MAGIC);
    assert(out@ =~= p2 + zeros((MAGIC_OFFSET - (REGION_OFFSET + 0x20)) as nat) + u32_be_bytes(WII_END_MAGIC));
    out
}

/// `c` is the content record put in a TMD that has none: id and index 0,
/// type 1, 0x1E0000 bytes, a zero hash.
pub open spec fn is_default_content(c: TMDContent) -> bool {
    c.content_id == 0 && c.index == 0 && c.content_type == 1 && c.size == 0x1E0000 && c.hash@ == zeros(20)
}

/// The partition header as the writer lays it out: no data yet, the TMD
/// right after the header, the certificates after it, the H3 table at
/// 0x8000 or after the certificates, and the data at the next multiple of
/// 0x20000 after the certificates.
pub open spec fn laid_out(old_h: PartHeader, h: PartHeader, tmd_size: int) -> bool {
    &&& h.ticket == old_h.ticket
    &&& h.cert_size == old_h.cert_size
    &&& h.data_size == 0
    &&& header_laid_out(h, tmd_size)
}

/// The offsets of the partition header follow one another (see `laid_out`).
pub open spec fn header_laid_out(h: PartHeader, tmd_size: int) -> bool {
    &&& h.tmd_size == tmd_size
    &&& h.tmd_offset == PART_HEADER_BLOCK_SIZE
    &&& h.cert_offset == h.tmd_offset + h.tmd_size
    &&& h.h3_offset == (if H3_OFFSET >= h.cert_offset + h.cert_size {
        H3_OFFSET as int
    } else {
        h.cert_offset + h.cert_size
    })
    &&& h.data_offset == align_up(h.cert_offset + h.cert_size, 17)
}

impl WiiPartition {
    /// Lays out the partition at 0x50000 before its data is written: gives
    /// its TMD a content record when it has none, and lays out its header
    /// (see `laid_out`).
    pub fn lay_out(&mut self)
        requires
            old(self).tmd.contents@.len() + 1 < 0x1_0000,
            old(self).header.cert_size < 0x1_0000_0000,
        ensures
            final(self).part_offset == GAME_PARTITION_OFFSET,
            final(self).part_type == old(self).part_type,
            final(self).cert@ == old(self).cert@,
            old(self).tmd.contents@.len() == 0 ==> final(self).tmd.contents@.len() == 1
                && is_default_content(final(self).tmd.contents@[0]),
            old(self).tmd.contents@.len() != 0 ==> final(self).tmd.contents@ == old(self).tmd.contents@,
            final(self).tmd == (TitleMetaData { contents: final(self).tmd.contents, ..old(self).tmd }),
            laid_out(old(self).header, final(self).header, TMD_HEADER_SIZE + TMD_CONTENT_SIZE
                * final(self).tmd.contents@.len()),
    {
        self.part_offset = GAME_PARTITION_OFFSET;
        if self.tmd.contents.len() == 0 {
            let c = TMDContent { content_id: 0, index: 0, content_type: 1, size: 0x1E0000, hash: [0u8; 20] };
            assert(c.hash@ =~= zeros(20));
            self.tmd.contents.push(c);
        }
        let tmd_size = self.tmd.get_size();
        self.header.data_size = 0;
        self.header.tmd_size = tmd_size;
        self.header.tmd_offset = PART_HEADER_BLOCK_SIZE as u64;
        self.header.cert_offset = self.header.tmd_offset + tmd_size as u64;
        let cert_end = self.header.cert_offset + self.header.cert_size as u64;
        self.header.h3_offset = if H3_OFFSET >= cert_end { H3_OFFSET } else { cert_end };
        proof {
            lemma2_to64();
            lemma_align_up(cert_end as int, 17);
        }
        self.header.data_offset = align_addr(cert_end, 17);
    }
}

/// The bytes of the partition that the writer puts before its data: the
/// header, the TMD, the certificates, then zeros up to the data.
pub open spec fn partition_start_spec(p: WiiPartition) -> Seq<u8> {
    part_header_bytes(p.header) + tmd_bytes(p.tmd) + p.cert@ + zeros(
        (p.header.data_offset - (p.header.cert_offset + p.header.cert_size)) as nat,
    )
}

/// A laid-out partition whose certificates are as long as its header says.
pub open spec fn partition_ready(p: WiiPartition) -> bool {
    &&& header_laid_out(p.header, TMD_HEADER_SIZE + TMD_CONTENT_SIZE * p.tmd.contents@.len())
    &&& p.header.cert_size == p.cert@.len()
    &&& p.header.cert_offset + p.header.cert_size < 0x1_0000_0000
}

impl WiiPartition {
    /// The bytes of the partition before its data (see
    /// `partition_start_spec`): the header, the TMD and the certificates,
    /// then zeros after the H3 table's place up to the data, and more zeros
    /// where these do not reach it yet.
    pub fn start_bytes(&self) -> (r: Vec<u8>)
        requires
            partition_ready(*self),
        ensures
            r@ == partition_start_spec(*self),
            r@.len() == self.header.data_offset,
    {
        proof {
            lemma_tmd_bytes_len(self.tmd);
            lemma2_to64();
            lemma_align_up(self.header.cert_offset + self.header.cert_size, 17);
        }
        let header = self.header.to_bytes();
        let mut out = vstd::slice::slice_to_vec(header.as_slice());
        let mut tmd_buf = vec![0u8; self.header.tmd_size];
        TitleMetaData::set_partition(tmd_buf.as_mut_slice(), 0, &self.tmd);
        assert(tmd_buf@ =~= tmd_bytes(self.tmd));
        push_bytes(&mut out, tmd_buf.as_slice());
        push_bytes(&mut out, self.cert.as_slice());
        let data_offset = self.header.data_offset;
        let h3_offset = self.header.h3_offset;
        let padding = if data_offset > h3_offset { data_offset - h3_offset } else { 0 };
        push_zeros(&mut out, padding as usize);
        let pos = out.len() as u64;
        if data_offset > pos {
            push_zeros(&mut out, (data_offset - pos) as usize);
        }
        assert(out@ =~= partition_start_spec(*self));
        out
    }
}

/// The sector `s` encrypted: its hash block with a zero IV, then its data
/// with the IV that the encrypted hash block holds at 0x3D0.
pub open spec fn sector_encrypted(key: Seq<u8>, s: Seq<u8>) -> Seq<u8> {
    let h = aes128_cbc_encrypt(key, zero_iv(), s.take(SECTOR_HASH_SIZE as int));
    h + aes128_cbc_encrypt(
        key,
        h.subrange(SECTOR_IV_OFFSET as int, SECTOR_IV_OFFSET + 16),
        s.subrange(SECTOR_HASH_SIZE as int, SECTOR_SIZE as int),
    )
}

/// Encrypts a sector in place with the partition key; decrypting it gives
/// it back.
pub fn encrypt_sector(sector: &mut [u8], key: &AesKey)
    requires
        old(sector)@.len() == SECTOR_SIZE,
    ensures
        final(sector)@ == sector_encrypted(key@, old(sector)@),
        final(sector)@.len() == SECTOR_SIZE,
        sector_decrypted(key@, final(sector)@) == old(sector)@,
{
    let ghost s0 = sector@;
    let mut hash = copy_range(sector, 0, SECTOR_HASH_SIZE as usize);
    let zero = [0u8; 16];
    assert(zero@ =~= zero_iv());
    assert(hash@ =~= s0.take(SECTOR_HASH_SIZE as int));
    aes_encrypt_blocks_inplace(hash.as_mut_slice(), &zero, key.as_array());
    assert(hash@.take(0x400) =~= hash@);
    assert(s0.take(0x400).take(0x400) =~= s0.take(0x400));
    assert(s0.take(0x400).skip(0x400) =~= Seq::<u8>::empty());
    assert(hash@ =~= aes128_cbc_encrypt(key@, zero_iv(), s0.take(0x400)));
    let iv = read_array::<16>(hash.as_slice(), SECTOR_IV_OFFSET as usize);
    let mut data = copy_range(sector, SECTOR_HASH_SIZE as usize, SECTOR_DATA_SIZE as usize);
    let ghost d0 = data@;
    aes_encrypt_blocks_inplace(data.as_mut_slice(), &iv, key.as_array());
    assert(d0.take(0x7C00) =~= d0);
    assert(d0.skip(0x7C00) =~= Seq::<u8>::empty());
    assert(data@ =~= aes128_cbc_encrypt(key@, iv@, d0));
    write_bytes(sector, 0, hash.as_slice());
    write_bytes(sector, SECTOR_HASH_SIZE as usize, data.as_slice());
    assert(sector@ =~= sector_encrypted(key@, s0));
    assert(sector@.take(0x400) =~= hash@);
    assert(sector@.subrange(0x3D0, 0x3E0) =~= iv@);
    assert(sector@.subrange(0x400, 0x8000) =~= data@);
    assert(sector_decrypted(key@, sector@) =~= s0);
}

/// Encrypts the sectors of a run (a group of 64 when writing) in place;
/// decrypting each gives it back.
pub fn encrypt_sectors(run: &mut [u8], key: &AesKey)
    requires
        old(run)@.len() % (SECTOR_SIZE as nat) == 0,
    ensures
        final(run)@.len() == old(run)@.len(),
        forall|k: int|
            0 <= k < old(run)@.len() / (SECTOR_SIZE as nat) ==> #[trigger] sector_at(final(run)@, k)
                == sector_encrypted(key@, sector_at(old(run)@, k)) && sector_decrypted(key@, sector_at(final(run)@, k))
                == sector_at(old(run)@, k),
{
    let ghost r0 = run@;
    let len = run.len();
    let n = len / SECTOR_SIZE as usize;
    let mut k: usize = 0;
    while k < n
        invariant
            k <= n,
            n == r0.len() / (SECTOR_SIZE as nat),
            r0.len() % (SECTOR_SIZE as nat) == 0,
            run@.len() == r0.len(),
            len == r0.len(),
            forall|j: int| 0 <= j < k ==> #[trigger] sector_at(run@, j) == sector_encrypted(key@, sector_at(r0, j))
                && sector_decrypted(key@, sector_at(run@, j)) == sector_at(r0, j),
            forall|j: int| k <= j < n ==> #[trigger] sector_at(run@, j) == sector_at(r0, j),
        decreases n - k,
    {
        assert(sector_at(run@, k as int) == sector_at(r0, k as int));
        assert((k + 1) * 0x8000 <= run@.len()) by (nonlinear_arith)
            requires
                k < n,
                n == r0.len() / 0x8000,
                r0.len() % 0x8000 == 0,
                run@.len() == r0.len();
        let start = k * SECTOR_SIZE as usize;
        let mut sector = copy_range(run, start, SECTOR_SIZE as usize);
        encrypt_sector(sector.as_mut_slice(), key);
        let ghost before = run@;
        write_bytes(run, start, sector.as_slice());
        assert forall|j: int| 0 <= j < n implies #[trigger] sector_at(run@, j) == (if j == k {
            sector@
        } else {
            sector_at(before, j)
        }) by {
            if j < k {
                assert(sector_at(run@, j) =~= sector_at(before, j));
            } else if j > k {
                assert(sector_at(run@, j) =~= sector_at(before, j));
            } else {
                assert(sector_at(run@, j) =~= sector@);
            }
        }
        k = k + 1;
    }
}

/// Size of the H3 table of a partition.
pub const H3_SIZE: usize = 0x18000;

/// The hashes of `hs`, one after the other.
pub open spec fn flat_hashes(hs: Seq<[u8; 20]>) -> Seq<u8>
    decreases hs.len(),
{
    if hs.len() == 0 {
        Seq::empty()
    } else {
        flat_hashes(hs.drop_last()) + hs.last()@
    }
}

/// The H3 table of a partition: the hashes of its groups, then zeros up to
/// 0x18000 bytes.
pub open spec fn h3_spec(hs: Seq<[u8; 20]>) -> Seq<u8> {
    flat_hashes(hs) + zeros((H3_SIZE - 20 * hs.len()) as nat)
}

/// Builds the H3 table of a partition.
pub fn h3_table(hashes: &[[u8; 20]]) -> (r: Vec<u8>)
    requires
        20 * hashes@.len() <= H3_SIZE,
    ensures
        r@ == h3_spec(hashes@),
        r@.len() == H3_SIZE,
{
    let mut out: Vec<u8> = Vec::new();
    let mut i: usize = 0;
    while i < hashes.len()
        invariant
            i <= hashes@.len(),
            20 * hashes@.len() <= H3_SIZE,
            out@ == flat_hashes(hashes@.take(i as int)),
            out@.len() == 20 * i,
        decreases hashes@.len() - i,
    {
        push_bytes(&mut out, hashes[i].as_slice());
        assert(hashes@.take(i as int + 1).drop_last() =~= hashes@.take(i as int));
        i = i + 1;
    }
    assert(hashes@.take(hashes@.len() as int) =~= hashes@);
    push_zeros(&mut out, H3_SIZE - 20 * hashes.len());
    out
}

/// `after` is the TMD `before` with the hash of its first content record
/// set to `h`.
pub open spec fn tmd_with_h3_hash(before: TitleMetaData, after: TitleMetaData, h: Seq<u8>) -> bool {
    &&& after == (TitleMetaData { contents: after.contents, ..before })
    &&& after.contents@.len() == before.contents@.len()
    &&& after.contents@[0].hash@ == h
    &&& after.contents@[0] == (TMDContent { hash: after.contents@[0].hash, ..before.contents@[0] })
    &&& forall|i: int| 1 <= i < before.contents@.len() ==> #[trigger] after.contents@[i] == before.contents@[i]
}

impl WiiPartition {
    /// Fake-signs the partition once its data is written: the hash of the
    /// H3 table becomes that of the TMD's first content record, then the
    /// TMD and the ticket are fake-signed.
    pub fn fake_sign(&mut self, hashes: &[[u8; 20]])
        requires
            1 <= old(self).tmd.contents@.len() < 0x1_0000,
            20 * hashes@.len() <= H3_SIZE,
        ensures
            exists|t: TitleMetaData|
                tmd_with_h3_hash(old(self).tmd, t, sha1(h3_spec(hashes@))) && tmd_fake_signed(t, final(self).tmd),
            final(self).tmd.contents@.len() == old(self).tmd.contents@.len(),
            ticket_fake_signed(old(self).header.ticket, final(self).header.ticket),
            final(self).header == (PartHeader { ticket: final(self).header.ticket, ..old(self).header }),
            final(self).part_offset == old(self).part_offset,
            final(self).part_type == old(self).part_type,
            final(self).cert@ == old(self).cert@,
    {
        let h3 = h3_table(hashes);
        let digest = sha1_digest(h3.as_slice());
        let mut c = self.tmd.contents[0];
        c.hash = digest;
        self.tmd.contents.set(0, c);
        let ghost t = self.tmd;
        assert(tmd_with_h3_hash(old(self).tmd, t, sha1(h3_spec(hashes@))));
        self.tmd.fake_sign();
        proof {
            lemma_fake_signed_tmd_count(t, self.tmd);
        }
        self.header.ticket.fake_sign();
        assert(tmd_with_h3_hash(old(self).tmd, t, sha1(h3_spec(hashes@))) && tmd_fake_signed(t, self.tmd));
    }

    /// Fake-signs the partition (see `fake_sign`) and gives the bytes of
    /// its start as written last: the header, the TMD, zeros, and the H3
    /// table at its offset.
    pub fn prepare_header(&mut self, hashes: &[[u8; 20]]) -> (r: Vec<u8>)
        requires
            1 <= old(self).tmd.contents@.len() < 0x1_0000,
            20 * hashes@.len() <= H3_SIZE,
            PART_HEADER_BLOCK_SIZE + TMD_HEADER_SIZE + TMD_CONTENT_SIZE * old(self).tmd.contents@.len()
                <= old(self).header.h3_offset < 0x1_0000_0000,
        ensures
            exists|t: TitleMetaData|
                tmd_with_h3_hash(old(self).tmd, t, sha1(h3_spec(hashes@))) && tmd_fake_signed(t, final(self).tmd),
            ticket_fake_signed(old(self).header.ticket, final(self).header.ticket),
            final(self).header == (PartHeader { ticket: final(self).header.ticket, ..old(self).header }),
            final(self).part_offset == old(self).part_offset,
            final(self).part_type == old(self).part_type,
            final(self).cert@ == old(self).cert@,
            r@ == splice(
                part_header_bytes(final(self).header) + zeros((final(self).header.h3_offset - PART_HEADER_BLOCK_SIZE) as nat)
                    + h3_spec(hashes@),
                PART_HEADER_BLOCK_SIZE as int,
                tmd_bytes(final(self).tmd),
            ),
    {
        self.fake_sign(hashes);
        let header = self.header.to_bytes();
        let mut buf = vstd::slice::slice_to_vec(header.as_slice());
        let tmd_size = self.tmd.get_size();
        let h3_padding = self.header.h3_offset as usize - (PART_HEADER_BLOCK_SIZE + tmd_size);
        push_zeros(&mut buf, tmd_size + h3_padding);
        let h3 = h3_table(hashes);
        push_bytes(&mut buf, h3.as_slice());
        let ghost before = buf@;
        assert(before =~= part_header_bytes(self.header) + zeros((self.header.h3_offset - PART_HEADER_BLOCK_SIZE) as nat)
            + h3_spec(hashes@));
        proof {
            lemma_tmd_bytes_len(self.tmd);
        }
        TitleMetaData::set_partition(buf.as_mut_slice(), PART_HEADER_BLOCK_SIZE, &self.tmd);
        buf
    }
}

/// Number of sectors in a group.
pub const GROUP_SECTORS: u64 = 64;
/// Size of a group of sectors.
pub const GROUP_SIZE: u64 = 0x200000;
/// Size of the data of a group of sectors.
pub const GROUP_DATA_SIZE: u64 = 0x1F0000;

/// Where the byte of the partition's data at `v` stands in its group: in
/// the data of sector `v / 0x7C00` (counted in its group), at `v % 0x7C00`.
pub open spec fn group_pos(v: int) -> int {
    ((v / SECTOR_DATA_SIZE as int) % GROUP_SECTORS as int) * SECTOR_SIZE + SECTOR_HASH_SIZE + v % SECTOR_DATA_SIZE as int
}

/// Where byte `t` of data written at `cursor` stands in its group.
pub open spec fn data_pos(cursor: int, t: int) -> int {
    group_pos(cursor + t)
}

/// Caches data written at `cursor`, in the group `group_idx` that holds
/// it, into the group's sectors: as much of it as the group holds.
/// Returns how many bytes were taken; the rest of the group is left as it
/// is.
pub fn cache_in_group(group: &mut [u8], group_idx: u64, cursor: u64, data: &[u8]) -> (taken: usize)
    requires
        old(group)@.len() == GROUP_SIZE,
        group_idx * GROUP_DATA_SIZE <= cursor < (group_idx + 1) * GROUP_DATA_SIZE,
        cursor + data@.len() < 0x1_0000_0000_0000,
    ensures
        taken == (if data@.len() < (group_idx + 1) * GROUP_DATA_SIZE - cursor {
            data@.len() as int
        } else {
            (group_idx + 1) * GROUP_DATA_SIZE - cursor
        }),
        final(group)@.len() == GROUP_SIZE,
        forall|t: int| 0 <= t < taken ==> #[trigger] final(group)@[data_pos(cursor as int, t)] == data@[t],
        forall|b: int|
            0 <= b < GROUP_SIZE && !(exists|t: int| 0 <= t < taken && data_pos(cursor as int, t) == b)
                ==> #[trigger] final(group)@[b] == old(group)@[b],
{
    let ghost g0 = group@;
    let room = (group_idx + 1) * GROUP_DATA_SIZE - cursor;
    let taken: usize = if (data.len() as u64) < room { data.len() } else { room as usize };
    let mut t: usize = 0;
    while t < taken
        invariant
            t <= taken <= data@.len(),
            taken <= room,
            room == (group_idx + 1) * GROUP_DATA_SIZE - cursor,
            group_idx * GROUP_DATA_SIZE <= cursor,
            cursor + data@.len() < 0x1_0000_0000_0000,
            group@.len() == GROUP_SIZE,
            g0.len() == GROUP_SIZE,
            forall|k: int| 0 <= k < t ==> #[trigger] group@[data_pos(cursor as int, k)] == data@[k],
            forall|b: int|
                0 <= b < GROUP_SIZE && !(exists|k: int| 0 <= k < t && data_pos(cursor as int, k) == b)
                    ==> #[trigger] group@[b] == g0[b],
        decreases taken - t,
    {
        let v = cursor + t as u64;
        let blk = v / SECTOR_DATA_SIZE;
        let off = v % SECTOR_DATA_SIZE;
        let at = ((blk % GROUP_SECTORS) * SECTOR_SIZE + SECTOR_HASH_SIZE + off) as usize;
        proof {
            lemma_group_pos_inside(v as int);
            lemma_group_pos_injective_in_group(cursor as int, group_idx as int, t as int);
        }
        let ghost before = group@;
        group[at] = data[t];
        proof {
            assert(at == data_pos(cursor as int, t as int));
            assert forall|b: int|
                0 <= b < GROUP_SIZE && !(exists|k: int| 0 <= k < t + 1 && data_pos(cursor as int, k) == b)
                implies #[trigger] group@[b] == g0[b] by {
                if b == at {
                    assert(data_pos(cursor as int, t as int) == b);
                }
                assert(group@[b] == before[b]);
            }
            assert forall|k: int| 0 <= k < t + 1 implies #[trigger] group@[data_pos(cursor as int, k)] == data@[k] by {
                if k < t {
                    assert(data_pos(cursor as int, k) != data_pos(cursor as int, t as int));
                }
            }
        }
        t = t + 1;
    }
    taken
}

/// A byte's place in its group lies in the data of one of its sectors.
proof fn lemma_group_pos_inside(v: int)
    requires
        0 <= v,
    ensures
        SECTOR_HASH_SIZE <= group_pos(v) % (SECTOR_SIZE as int),
        0 <= group_pos(v) < GROUP_SIZE,
        group_pos(v) == ((v / 0x7C00) % 64) * 0x8000 + 0x400 + v % 0x7C00,
{
    let s = (v / 0x7C00) % 64;
    let o = v % 0x7C00;
    assert(0 <= s < 64 && 0 <= o < 0x7C00);
    assert(group_pos(v) == s * 0x8000 + 0x400 + o);
    assert((s * 0x8000 + 0x400 + o) % 0x8000 == 0x400 + o) by (nonlinear_arith)
        requires 0 <= s, 0 <= o < 0x7C00;
    assert(s * 0x8000 + 0x400 + o < 0x200000) by (nonlinear_arith)
        requires 0 <= s < 64, 0 <= o < 0x7C00;
}

/// Within a group, different bytes of data take different places.
proof fn lemma_group_pos_injective_in_group(cursor: int, group_idx: int, t: int)
    requires
        0 <= group_idx,
        group_idx * 0x1F0000 <= cursor,
        0 <= t,
        cursor + t < (group_idx + 1) * 0x1F0000,
    ensures
        forall|k: int| 0 <= k < t ==> #[trigger] data_pos(cursor, k) != data_pos(cursor, t),
{
    assert forall|k: int| 0 <= k < t implies #[trigger] data_pos(cursor, k) != data_pos(cursor, t) by {
        let a = cursor + k;
        let b = cursor + t;
        let base = group_idx * 64;
        assert(base <= a / 0x7C00 <= b / 0x7C00 < base + 64) by (nonlinear_arith)
            requires
                group_idx * 0x1F0000 <= a < b < (group_idx + 1) * 0x1F0000,
                base == group_idx * 64;
        assert((a / 0x7C00) % 64 == a / 0x7C00 - base) by (nonlinear_arith)
            requires base <= a / 0x7C00 < base + 64, base == group_idx * 64, group_idx >= 0;
        assert((b / 0x7C00) % 64 == b / 0x7C00 - base) by (nonlinear_arith)
            requires base <= b / 0x7C00 < base + 64, base == group_idx * 64, group_idx >= 0;
        assert(a == (a / 0x7C00) * 0x7C00 + a % 0x7C00 && b == (b / 0x7C00) * 0x7C00 + b % 0x7C00) by (nonlinear_arith);
        if a / 0x7C00 == b / 0x7C00 {
            assert(a % 0x7C00 != b % 0x7C00);
        }
        assert(group_pos(a) != group_pos(b)) by (nonlinear_arith)
            requires
                group_pos(a) == ((a / 0x7C00) % 64) * 0x8000 + 0x400 + a % 0x7C00,
                group_pos(b) == ((b / 0x7C00) % 64) * 0x8000 + 0x400 + b % 0x7C00,
                0 <= a % 0x7C00 < 0x7C00,
                0 <= b % 0x7C00 < 0x7C00,
                (a / 0x7C00) % 64 != (b / 0x7C00) % 64 || a % 0x7C00 != b % 0x7C00;
    }
}

/// What closing the partition takes: the size of its encrypted data,
/// rounded up to 2 MiB, the number of its groups and the index of the
/// last one, and whether the last group was left unfinished.
#[derive(Debug, Clone, Copy, PartialEq, Eq, Structural)]
pub struct ClosePlan {
    pub data_size: u64,
    pub n_group: u64,
    pub group_idx: u64,
    pub last_group_partial: bool,
}

/// Plans the closing of the partition once `cursor` bytes of data were
/// written.
pub fn close_plan(cursor: u64) -> (r: ClosePlan)
    requires
        cursor < 0x1_0000_0000_0000,
    ensures
        r.data_size == align_up(encrypted_addr(cursor as int), 21),
        r.n_group == r.data_size / SECTOR_SIZE / GROUP_SECTORS,
        r.group_idx == (r.data_size - 1) as int / 0x8000 / 64,
        r.last_group_partial == (cursor % GROUP_DATA_SIZE != 0),
        r.data_size % GROUP_SIZE == 0,
        r.n_group >= 1,
{
    let raw = crate::iso::disc::to_encrypted_addr(cursor);
    proof {
        lemma2_to64();
        lemma_align_up(raw as int, 21);
    }
    let data_size = align_addr(raw, 21);
    assert(data_size / 0x8000 / 64 >= 1) by (nonlinear_arith)
        requires data_size >= 0x200000;
    ClosePlan {
        data_size,
        n_group: data_size / SECTOR_SIZE / GROUP_SECTORS,
        group_idx: (data_size - 1) / SECTOR_SIZE / GROUP_SECTORS,
        last_group_partial: cursor % GROUP_DATA_SIZE != 0,
    }
}

/// The hashes of the first `n` chunks of `size` bytes of `s`, one after
/// the other.
pub open spec fn chunk_hashes(s: Seq<u8>, size: int, n: int) -> Seq<u8>
    decreases n,
{
    if n <= 0 {
        Seq::empty()
    } else {
        chunk_hashes(s, size, n - 1) + sha1(s.subrange((n - 1) * size, n * size))
    }
}

/// The H0 table of sector `s` of a group: the hashes of the 31 chunks of
/// 0x400 bytes of its data.
pub open spec fn h0_of(g: Seq<u8>, s: int) -> Seq<u8> {
    chunk_hashes(sector_at(g, s).subrange(SECTOR_HASH_SIZE as int, SECTOR_SIZE as int), 0x400, 31)
}

/// The hashes of the H0 tables of the first `n` sectors of subgroup `k`.
pub open spec fn h1_from(g: Seq<u8>, k: int, n: int) -> Seq<u8>
    decreases n,
{
    if n <= 0 {
        Seq::empty()
    } else {
        h1_from(g, k, n - 1) + sha1(h0_of(g, 8 * k + n - 1))
    }
}

/// The H1 table of subgroup `k` (sectors `8k..8k+8`) of a group.
pub open spec fn h1_of(g: Seq<u8>, k: int) -> Seq<u8> {
    h1_from(g, k, 8)
}

/// The hashes of the H1 tables of the first `n` subgroups.
pub open spec fn h2_from(g: Seq<u8>, n: int) -> Seq<u8>
    decreases n,
{
    if n <= 0 {
        Seq::empty()
    } else {
        h2_from(g, n - 1) + sha1(h1_of(g, n - 1))
    }
}

/// The H2 table of a group.
pub open spec fn h2_of(g: Seq<u8>) -> Seq<u8> {
    h2_from(g, 8)
}

/// Offset of the H1 table in a sector's hash block.
pub const H1_OFFSET: usize = 0x280;
/// Offset of the H2 table in a sector's hash block.
pub const H2_OFFSET: usize = 0x340;
/// Size of the H0 table: 31 hashes.
pub const H0_SIZE: usize = 0x26C;

/// Sector `s` of the group `g` once the group is hashed: its H0 table at
/// 0, the H1 table of its subgroup at 0x280, the group's H2 table at 0x340.
pub open spec fn sector_hashed(g: Seq<u8>, s: int) -> Seq<u8> {
    splice(
        splice(splice(sector_at(g, s), 0, h0_of(g, s)), H1_OFFSET as int, h1_of(g, s / 8)),
        H2_OFFSET as int,
        h2_of(g),
    )
}

/// The hashes of the first `n` chunks of `size` bytes of `data`.
fn hash_chunks(data: &[u8], size: usize, n: usize) -> (r: Vec<u8>)
    requires
        n * size <= data@.len(),
    ensures
        r@ == chunk_hashes(data@, size as int, n as int),
        r@.len() == 20 * n,
{
    let mut out: Vec<u8> = Vec::new();
    let dlen = data.len();
    let mut i: usize = 0;
    while i < n
        invariant
            i <= n,
            n * size <= dlen,
            dlen == data@.len(),
            out@ == chunk_hashes(data@, size as int, i as int),
            out@.len() == 20 * i,
        decreases n - i,
    {
        assert(i * size <= (i + 1) * size <= n * size) by (nonlinear_arith)
            requires i < n;
        let chunk = vstd::slice::slice_subrange(data, i * size, (i + 1) * size);
        let digest = sha1_digest(chunk);
        push_bytes(&mut out, digest.as_slice());
        i = i + 1;
    }
    out
}

/// Writes `bytes` at `off` in sector `s` of a group; the other sectors are
/// left as they are.
fn write_in_sector(g: &mut [u8], s: usize, off: usize, bytes: &[u8])
    requires
        old(g)@.len() == GROUP_SIZE,
        s < GROUP_SECTORS,
        off + bytes@.len() <= SECTOR_SIZE,
    ensures
        final(g)@.len() == GROUP_SIZE,
        sector_at(final(g)@, s as int) == splice(sector_at(old(g)@, s as int), off as int, bytes@),
        forall|t: int| 0 <= t < GROUP_SECTORS && t != s ==> #[trigger] sector_at(final(g)@, t) == sector_at(old(g)@, t),
{
    let ghost g0 = g@;
    assert(s * 0x8000 + 0x8000 <= 0x200000) by (nonlinear_arith)
        requires s < 64;
    write_bytes(g, s * SECTOR_SIZE as usize + off, bytes);
    assert(sector_at(g@, s as int) =~= splice(sector_at(g0, s as int), off as int, bytes@));
    assert forall|t: int| 0 <= t < GROUP_SECTORS && t != s implies #[trigger] sector_at(g@, t) == sector_at(g0, t) by {
        if t < s {
            assert((t + 1) * 0x8000 <= s * 0x8000) by (nonlinear_arith)
                requires t < s;
        } else {
            assert(s * 0x8000 + 0x8000 <= t * 0x8000) by (nonlinear_arith)
                requires s < t;
        }
        assert(sector_at(g@, t) =~= sector_at(g0, t));
    }
}

/// Builds the hash tree of a group of 64 sectors: each sector's H0 table
/// of its data, each subgroup's H1 table of the H0 tables of its 8
/// sectors, and the group's H2 table of the H1 tables, written into the
/// hash blocks (see `sector_hashed`). Returns the hash of the H2 table,
/// the group's entry of the H3 table.
#[verifier::spinoff_prover]
#[verifier::rlimit(60)]
pub fn hash_group(group: &mut [u8]) -> (r: [u8; 20])
    requires
        old(group)@.len() == GROUP_SIZE,
    ensures
        final(group)@.len() == GROUP_SIZE,
        forall|s: int| 0 <= s < GROUP_SECTORS ==> #[trigger] sector_at(final(group)@, s) == sector_hashed(old(group)@, s),
        r@ == sha1(h2_of(old(group)@)),
{
    let ghost g0 = group@;
    // H0: the hashes of each sector's data.
    let mut s: usize = 0;
    while s < GROUP_SECTORS as usize
        invariant
            s <= GROUP_SECTORS,
            group@.len() == GROUP_SIZE,
            g0.len() == GROUP_SIZE,
            forall|t: int| 0 <= t < s ==> #[trigger] sector_at(group@, t) == splice(sector_at(g0, t), 0, h0_of(g0, t))
                && h0_of(g0, t).len() == H0_SIZE,
            forall|t: int| s <= t < GROUP_SECTORS ==> #[trigger] sector_at(group@, t) == sector_at(g0, t),
        decreases GROUP_SECTORS - s,
    {
        assert(s * 0x8000 + 0x8000 <= 0x200000) by (nonlinear_arith)
            requires s < 64;
        assert(sector_at(group@, s as int) == sector_at(g0, s as int));
        let data = vstd::slice::slice_subrange(group, s * SECTOR_SIZE as usize + SECTOR_HASH_SIZE as usize, (s + 1) * SECTOR_SIZE as usize);
        assert(data@ =~= sector_at(g0, s as int).subrange(0x400, 0x8000));
        let h0 = hash_chunks(data, 0x400, 31);
        write_in_sector(group, s, 0, h0.as_slice());
        s = s + 1;
    }
    // H1: the hashes of the H0 tables of each subgroup.
    assert forall|t: int| 0 <= t < GROUP_SECTORS implies h0_of(g0, t).len() == H0_SIZE by {
        assert(sector_at(group@, t) == splice(sector_at(g0, t), 0, h0_of(g0, t)));
    }
    let mut k: usize = 0;
    while k < 8
        invariant
            k <= 8,
            group@.len() == GROUP_SIZE,
            g0.len() == GROUP_SIZE,
            forall|t: int| 0 <= t < GROUP_SECTORS ==> h0_of(g0, t).len() == H0_SIZE,
            forall|t: int|
                0 <= t < 8 * k ==> #[trigger] sector_at(group@, t) == splice(
                    splice(sector_at(g0, t), 0, h0_of(g0, t)),
                    H1_OFFSET as int,
                    h1_of(g0, t / 8),
                ) && h1_of(g0, t / 8).len() == 160,
            forall|t: int|
                8 * k <= t < GROUP_SECTORS ==> #[trigger] sector_at(group@, t) == splice(sector_at(g0, t), 0, h0_of(g0, t)),
        decreases 8 - k,
    {
        let mut h1: Vec<u8> = Vec::new();
        let mut j: usize = 0;
        while j < 8
            invariant
                j <= 8,
                k < 8,
                group@.len() == GROUP_SIZE,
                forall|t: int| 0 <= t < GROUP_SECTORS ==> h0_of(g0, t).len() == H0_SIZE,
                forall|t: int|
                    8 * k <= t < GROUP_SECTORS ==> #[trigger] sector_at(group@, t) == splice(
                        sector_at(g0, t),
                        0,
                        h0_of(g0, t),
                    ),
                h1@ == h1_from(g0, k as int, j as int),
                h1@.len() == 20 * j,
            decreases 8 - j,
        {
            let sec = 8 * k + j;
            assert(sec * 0x8000 + 0x8000 <= 0x200000) by (nonlinear_arith)
                requires sec < 64;
            let table = vstd::slice::slice_subrange(group, sec * SECTOR_SIZE as usize, sec * SECTOR_SIZE as usize + H0_SIZE);
            assert(sector_at(group@, sec as int) == splice(sector_at(g0, sec as int), 0, h0_of(g0, sec as int)));
            assert(table@ =~= h0_of(g0, sec as int));
            let digest = sha1_digest(table);
            push_bytes(&mut h1, digest.as_slice());
            j = j + 1;
        }
        let mut j: usize = 0;
        while j < 8
            invariant
                j <= 8,
                k < 8,
                group@.len() == GROUP_SIZE,
                h1@ == h1_of(g0, k as int),
                h1@.len() == 160,
                forall|t: int|
                    0 <= t < 8 * k + j ==> #[trigger] sector_at(group@, t) == splice(
                        splice(sector_at(g0, t), 0, h0_of(g0, t)),
                        H1_OFFSET as int,
                        h1_of(g0, t / 8),
                    ) && h1_of(g0, t / 8).len() == 160,
                forall|t: int|
                    8 * k + j <= t < GROUP_SECTORS ==> #[trigger] sector_at(group@, t) == splice(
                        sector_at(g0, t),
                        0,
                        h0_of(g0, t),
                    ),
            decreases 8 - j,
        {
            let sec = 8 * k + j;
            let ghost before = group@;
            write_in_sector(group, sec, H1_OFFSET, h1.as_slice());
            assert(sec as int / 8 == k as int);
            assert forall|t: int| 0 <= t < 8 * k + j + 1 implies #[trigger] sector_at(group@, t) == splice(
                splice(sector_at(g0, t), 0, h0_of(g0, t)),
                H1_OFFSET as int,
                h1_of(g0, t / 8),
            ) && h1_of(g0, t / 8).len() == 160 by {
                if t < sec {
                    assert(sector_at(group@, t) == sector_at(before, t));
                } else {
                    assert(t == sec);
                }
            }
            assert forall|t: int| 8 * k + j + 1 <= t < GROUP_SECTORS implies #[trigger] sector_at(group@, t) == splice(
                sector_at(g0, t),
                0,
                h0_of(g0, t),
            ) by {
                assert(sector_at(group@, t) == sector_at(before, t));
            }
            j = j + 1;
        }
        k = k + 1;
    }
    // H2: the hashes of the H1 tables of the subgroups.
    let mut h2: Vec<u8> = Vec::new();
    let mut i: usize = 0;
    while i < 8
        invariant
            i <= 8,
            group@.len() == GROUP_SIZE,
            g0.len() == GROUP_SIZE,
            forall|t: int| 0 <= t < GROUP_SECTORS ==> h0_of(g0, t).len() == H0_SIZE,
            forall|t: int|
                0 <= t < GROUP_SECTORS ==> #[trigger] sector_at(group@, t) == splice(
                    splice(sector_at(g0, t), 0, h0_of(g0, t)),
                    H1_OFFSET as int,
                    h1_of(g0, t / 8),
                ) && h1_of(g0, t / 8).len() == 160,
            h2@ == h2_from(g0, i as int),
            h2@.len() == 20 * i,
        decreases 8 - i,
    {
        let sec = 8 * i;
        assert(sec * 0x8000 + 0x8000 <= 0x200000) by (nonlinear_arith)
            requires sec < 64;
        let table = vstd::slice::slice_subrange(
            group,
            sec * SECTOR_SIZE as usize + H1_OFFSET,
            sec * SECTOR_SIZE as usize + H1_OFFSET + 160,
        );
        assert(sec as int / 8 == i as int);
        assert(sector_at(group@, sec as int) == splice(
            splice(sector_at(g0, sec as int), 0, h0_of(g0, sec as int)),
            H1_OFFSET as int,
            h1_of(g0, sec as int / 8),
        ));
        assert(h1_of(g0, i as int).len() == 160);
        assert(h0_of(g0, sec as int).len() == H0_SIZE);
        assert forall|x: int| 0 <= x < 160 implies table@[x] == h1_of(g0, i as int)[x] by {
            assert(table@[x] == group@[sec * 0x8000 + 0x280 + x]);
            assert(group@[sec * 0x8000 + 0x280 + x] == sector_at(group@, sec as int)[0x280 + x]);
        }
        assert(table@ =~= h1_of(g0, i as int));
        let digest = sha1_digest(table);
        push_bytes(&mut h2, digest.as_slice());
        i = i + 1;
    }
    let mut s: usize = 0;
    while s < GROUP_SECTORS as usize
        invariant
            s <= GROUP_SECTORS,
            group@.len() == GROUP_SIZE,
            g0.len() == GROUP_SIZE,
            h2@ == h2_of(g0),
            h2@.len() == 160,
            forall|t: int| 0 <= t < s ==> #[trigger] sector_at(group@, t) == sector_hashed(g0, t),
            forall|t: int|
                s <= t < GROUP_SECTORS ==> #[trigger] sector_at(group@, t) == splice(
                    splice(sector_at(g0, t), 0, h0_of(g0, t)),
                    H1_OFFSET as int,
                    h1_of(g0, t / 8),
                ),
        decreases GROUP_SECTORS - s,
    {
        let ghost before = group@;
        write_in_sector(group, s, H2_OFFSET, h2.as_slice());
        assert forall|t: int| 0 <= t < s + 1 implies #[trigger] sector_at(group@, t) == sector_hashed(g0, t) by {
            if t < s {
                assert(sector_at(group@, t) == sector_at(before, t));
            }
        }
        assert forall|t: int| s + 1 <= t < GROUP_SECTORS implies #[trigger] sector_at(group@, t) == splice(
            splice(sector_at(g0, t), 0, h0_of(g0, t)),
            H1_OFFSET as int,
            h1_of(g0, t / 8),
        ) by {
            assert(sector_at(group@, t) == sector_at(before, t));
        }
        s = s + 1;
    }
    sha1_digest(h2.as_slice())
}

} // verus!

verus! {

/// A group that a write filled: its hash, and its sectors hashed and
/// encrypted, ready to be written out.
pub struct FilledGroup {
    pub hash: [u8; 20],
    pub sectors: Vec<u8>,
}

/// `g1` is the group `g0` with the first `taken` bytes of `data`, written at
/// `cursor`, cached in it (see `cache_in_group`).
pub open spec fn cached_into(g0: Seq<u8>, g1: Seq<u8>, cursor: int, data: Seq<u8>, taken: int) -> bool {
    &&& g1.len() == GROUP_SIZE
    &&& forall|t: int| 0 <= t < taken ==> #[trigger] g1[data_pos(cursor, t)] == data[t]
    &&& forall|b: int|
        0 <= b < GROUP_SIZE && !(exists|t: int| 0 <= t < taken && data_pos(cursor, t) == b) ==> #[trigger] g1[b]
            == g0[b]
}

/// How many of `len` bytes written at `cursor` the group `group_idx` takes.
pub open spec fn group_take(group_idx: int, cursor: int, len: int) -> int {
    if len < (group_idx + 1) * GROUP_DATA_SIZE - cursor {
        len
    } else {
        (group_idx + 1) * GROUP_DATA_SIZE - cursor
    }
}

/// One step of writing `data` into a partition: the current group
/// `group_idx` takes what it holds of the data at `cursor`, and the cursor
/// moves past it. When that fills the group, the group is hashed and its
/// sectors encrypted and handed back to be written out, and the next group
/// starts empty; otherwise the group stays as cached.
pub fn write_step(group: &mut Vec<u8>, group_idx: &mut u64, cursor: &mut u64, data: &[u8], key: &AesKey) -> (r: (
    usize,
    Option<FilledGroup>,
))
    requires
        old(group)@.len() == GROUP_SIZE,
        *old(group_idx) * GROUP_DATA_SIZE <= *old(cursor) < (*old(group_idx) + 1) * GROUP_DATA_SIZE,
        *old(cursor) + data@.len() < 0x1_0000_0000_0000,
    ensures
        r.0 == group_take(*old(group_idx) as int, *old(cursor) as int, data@.len() as int),
        *final(cursor) == *old(cursor) + r.0,
        *final(group_idx) * GROUP_DATA_SIZE <= *final(cursor) < (*final(group_idx) + 1) * GROUP_DATA_SIZE,
        final(group)@.len() == GROUP_SIZE,
        *final(cursor) == (*old(group_idx) + 1) * GROUP_DATA_SIZE ==> {
            &&& *final(group_idx) == *old(group_idx) + 1
            &&& final(group)@ == Seq::new(GROUP_SIZE as nat, |_i: int| 0u8)
            &&& r.1 matches Some(f) && exists|c: Seq<u8>|
                cached_into(old(group)@, c, *old(cursor) as int, data@, r.0 as int) && f.hash@ == sha1(h2_of(c))
                    && f.sectors@.len() == GROUP_SIZE && forall|s: int|
                    0 <= s < GROUP_SECTORS ==> #[trigger] sector_at(f.sectors@, s) == sector_encrypted(
                        key@,
                        sector_hashed(c, s),
                    )
        },
        *final(cursor) != (*old(group_idx) + 1) * GROUP_DATA_SIZE ==> {
            &&& *final(group_idx) == *old(group_idx)
            &&& r.1 is None
            &&& cached_into(old(group)@, final(group)@, *old(cursor) as int, data@, r.0 as int)
        },
{
    let ghost g0 = group@;
    let taken = cache_in_group(group.as_mut_slice(), *group_idx, *cursor, data);
    let ghost c = group@;
    assert(cached_into(g0, c, *old(cursor) as int, data@, taken as int));
    *cursor = *cursor + taken as u64;
    if *cursor == (*group_idx + 1) * GROUP_DATA_SIZE {
        let hash = hash_group(group.as_mut_slice());
        let ghost h = group@;
        assert((GROUP_SIZE as nat) % (SECTOR_SIZE as nat) == 0);
        encrypt_sectors(group.as_mut_slice(), key);
        let sectors = group.clone();
        *group = vec![0u8; GROUP_SIZE as usize];
        assert(group@ =~= Seq::new(GROUP_SIZE as nat, |_i: int| 0u8));
        *group_idx = *group_idx + 1;
        proof {
            assert forall|s: int| 0 <= s < GROUP_SECTORS implies #[trigger] sector_at(sectors@, s) == sector_encrypted(
                key@,
                sector_hashed(c, s),
            ) by {
                assert(sector_at(h, s) == sector_hashed(c, s));
            }
        }
        (taken, Some(FilledGroup { hash, sectors }))
    } else {
        (taken, None)
    }
}

} // verus!
