//! Reading the game partition of a Wii disc as plain data: where a read
//! starts, how each sector is decrypted, which decrypted bytes a read
//! hands out, and where a seek moves the cursor.

use vstd::prelude::*;
use crate::bytes::{copy_range, splice, write_bytes};
use crate::crypto::aes::{aes128_cbc_decrypt, aes_decrypt_inplace};
use crate::crypto::keys::AesKey;
use crate::disc::read_array;

verus! {

/// Size of an encrypted sector.
pub const SECTOR_SIZE: u64 = 0x8000;
/// Size of the hash block that starts each sector.
pub const SECTOR_HASH_SIZE: u64 = 0x400;
/// Size of the data of a sector.
pub const SECTOR_DATA_SIZE: u64 = 0x7C00;
/// Offset, in a sector's hash block, of the IV of its data.
pub const SECTOR_IV_OFFSET: u64 = 0x3D0;

/// Sixteen zero bytes.
pub open spec fn zero_iv() -> Seq<u8> {
    Seq::new(16, |_i: int| 0u8)
}

/// The sector `s` decrypted: its hash block with a zero IV, its data with
/// the IV that the encrypted hash block holds at 0x3D0.
pub open spec fn sector_decrypted(key: Seq<u8>, s: Seq<u8>) -> Seq<u8> {
    aes128_cbc_decrypt(key, zero_iv(), s.take(SECTOR_HASH_SIZE as int)) + aes128_cbc_decrypt(
        key,
        s.subrange(SECTOR_IV_OFFSET as int, SECTOR_IV_OFFSET + 16),
        s.subrange(SECTOR_HASH_SIZE as int, SECTOR_SIZE as int),
    )
}

/// Decrypts a sector in place with the partition key.
pub fn decrypt_sector(sector: &mut [u8], key: &AesKey)
    requires
        old(sector)@.len() == SECTOR_SIZE,
    ensures
        final(sector)@ == sector_decrypted(key@, old(sector)@),
        final(sector)@.len() == SECTOR_SIZE,
{
    let ghost s0 = sector@;
    let iv = read_array::<16>(sector, SECTOR_IV_OFFSET as usize);
    let mut hash = copy_range(sector, 0, SECTOR_HASH_SIZE as usize);
    let mut data = copy_range(sector, SECTOR_HASH_SIZE as usize, SECTOR_DATA_SIZE as usize);
    let zero = [0u8; 16];
    assert(zero@ =~= zero_iv());
    let _ = aes_decrypt_inplace(hash.as_mut_slice(), &zero, key.as_array());
    let _ = aes_decrypt_inplace(data.as_mut_slice(), &iv, key.as_array());
    write_bytes(sector, 0, hash.as_slice());
    write_bytes(sector, SECTOR_HASH_SIZE as usize, data.as_slice());
    assert(s0.take(SECTOR_HASH_SIZE as int) =~= s0.subrange(0, SECTOR_HASH_SIZE as int));
    assert(sector@ =~= sector_decrypted(key@, s0));
}

/// Sector `k` of a run of sectors.
pub open spec fn sector_at(run: Seq<u8>, k: int) -> Seq<u8> {
    run.subrange(k * SECTOR_SIZE, (k + 1) * SECTOR_SIZE)
}

/// Decrypts every sector of a run in place.
pub fn decrypt_sectors(run: &mut [u8], key: &AesKey)
    requires
        old(run)@.len() % (SECTOR_SIZE as nat) == 0,
    ensures
        final(run)@.len() == old(run)@.len(),
        forall|k: int|
            0 <= k < old(run)@.len() / (SECTOR_SIZE as nat) ==> #[trigger] sector_at(final(run)@, k)
                == sector_decrypted(key@, sector_at(old(run)@, k)),
{
    let ghost r0 = run@;
    let len = run.len();
    let n = len / SECTOR_SIZE as usize;
    let mut k: usize = 0;
    while k < n
        invariant
            k <= n,
            n == r0.len() / (SECTOR_SIZE as nat),
            r0.len() % (SECTOR_SIZE as nat) == 0,
            run@.len() == r0.len(),
            len == r0.len(),
            forall|j: int| 0 <= j < k ==> #[trigger] sector_at(run@, j) == sector_decrypted(key@, sector_at(r0, j)),
            forall|j: int| k <= j < n ==> #[trigger] sector_at(run@, j) == sector_at(r0, j),
        decreases n - k,
    {
        assert(sector_at(run@, k as int) == sector_at(r0, k as int));
        assert((k + 1) * 0x8000 <= run@.len()) by (nonlinear_arith)
            requires
                k < n,
                n == r0.len() / 0x8000,
                r0.len() % 0x8000 == 0,
                run@.len() == r0.len();
        let start = k * SECTOR_SIZE as usize;
        let mut sector = copy_range(run, start, SECTOR_SIZE as usize);
        decrypt_sector(sector.as_mut_slice(), key);
        let ghost before = run@;
        write_bytes(run, start, sector.as_slice());
        assert forall|j: int| 0 <= j < n implies #[trigger] sector_at(run@, j) == (if j == k {
            sector@
        } else {
            sector_at(before, j)
        }) by {
            if j < k {
                assert(sector_at(run@, j) =~= sector_at(before, j));
            } else if j > k {
                assert(sector_at(run@, j) =~= sector_at(before, j));
            } else {
                assert(sector_at(run@, j) =~= sector@);
            }
        }
        k = k + 1;
    }
}

/// What a read of the partition's data takes: how many bytes, which
/// sectors, and where on the disc the first of them starts.
#[derive(Debug, Clone, Copy, PartialEq, Eq, Structural)]
pub struct ReadPlan {
    pub read_size: usize,
    pub start_blk: u64,
    pub end_blk: u64,
    pub seek_addr: u64,
}

/// Plans a read of `buf_len` bytes at the cursor, the decrypted data being
/// `decrypted_size` bytes long; none when nothing is left to read. The
/// offsets are those that 32-bit fields times four can hold.
pub fn plan_read(cursor: u64, buf_len: usize, decrypted_size: u64, part_offset: u64, data_offset: u64) -> (r:
    Option<ReadPlan>)
    requires
        decrypted_size < 0x4_0000_0000,
        part_offset < 0x4_0000_0000,
        data_offset < 0x4_0000_0000,
    ensures
        (buf_len == 0 || cursor >= decrypted_size) <==> r is None,
        r matches Some(p) ==> {
            &&& p.read_size == (if buf_len < decrypted_size - cursor { buf_len as int } else { decrypted_size - cursor })
            &&& p.start_blk == cursor / SECTOR_DATA_SIZE
            &&& p.end_blk == (cursor + p.read_size - 1) / SECTOR_DATA_SIZE as int
            &&& p.seek_addr == part_offset + data_offset + p.start_blk * SECTOR_SIZE
        },
{
    if buf_len == 0 || cursor >= decrypted_size {
        return None;
    }
    let left = decrypted_size - cursor;
    let read_size: usize = if (buf_len as u64) < left { buf_len } else { left as usize };
    let start_blk = cursor / SECTOR_DATA_SIZE;
    let end_blk = (cursor + read_size as u64 - 1) / SECTOR_DATA_SIZE;
    assert(start_blk * SECTOR_SIZE < 0x5_0000_0000) by (nonlinear_arith)
        requires start_blk == cursor / SECTOR_DATA_SIZE, cursor < 0x4_0000_0000;
    Some(
        ReadPlan {
            read_size,
            start_blk,
            end_blk,
            seek_addr: part_offset + data_offset + start_blk * SECTOR_SIZE,
        },
    )
}

/// The byte of the decrypted data at `v`, out of the decrypted run of
/// sectors that starts with sector `start_blk`.
pub open spec fn data_byte(decrypted: Seq<u8>, start_blk: int, v: int) -> u8 {
    decrypted[(v / SECTOR_DATA_SIZE as int - start_blk) * SECTOR_SIZE + SECTOR_HASH_SIZE + v % SECTOR_DATA_SIZE as int]
}

/// Copies the `read_size` bytes of decrypted data that start at `vstart`
/// into `buf`, out of the decrypted run of the sectors they lie in; the
/// rest of `buf` is left as it is.
pub fn copy_decrypted(decrypted: &[u8], start_blk: u64, vstart: u64, read_size: usize, buf: &mut [u8])
    requires
        1 <= read_size <= old(buf)@.len(),
        vstart + read_size < 0x8_0000_0000,
        start_blk == vstart / SECTOR_DATA_SIZE,
        decrypted@.len() == ((vstart + read_size - 1) / SECTOR_DATA_SIZE as int - start_blk + 1) * SECTOR_SIZE,
    ensures
        final(buf)@.len() == old(buf)@.len(),
        forall|j: int| 0 <= j < read_size ==> #[trigger] final(buf)@[j] == data_byte(decrypted@, start_blk as int, vstart + j),
        forall|j: int| read_size <= j < old(buf)@.len() ==> #[trigger] final(buf)@[j] == old(buf)@[j],
{
    let ghost b0 = buf@;
    let mut j: usize = 0;
    while j < read_size
        invariant
            j <= read_size <= buf@.len(),
            buf@.len() == b0.len(),
            vstart + read_size < 0x8_0000_0000,
            start_blk == vstart / SECTOR_DATA_SIZE,
            decrypted@.len() == ((vstart + read_size - 1) / SECTOR_DATA_SIZE as int - start_blk + 1) * SECTOR_SIZE,
            forall|k: int| 0 <= k < j ==> #[trigger] buf@[k] == data_byte(decrypted@, start_blk as int, vstart + k),
            forall|k: int| read_size <= k < b0.len() ==> #[trigger] buf@[k] == b0[k],
        decreases read_size - j,
    {
        let v = vstart + j as u64;
        let blk = v / SECTOR_DATA_SIZE;
        let off = v % SECTOR_DATA_SIZE;
        let last = (vstart + read_size as u64 - 1) / SECTOR_DATA_SIZE;
        assert(start_blk <= blk <= last) by (nonlinear_arith)
            requires
                start_blk == vstart / 0x7C00,
                blk == v / 0x7C00,
                last == (vstart + read_size - 1) / 0x7C00,
                vstart <= v <= vstart + read_size - 1;
        let dlen = decrypted.len();
        assert((blk - start_blk) * 0x8000 + 0x400 + off < dlen) by (nonlinear_arith)
            requires
                off < 0x7C00,
                start_blk <= blk <= last,
                dlen == (last - start_blk + 1) * 0x8000;
        let at = ((blk - start_blk) * SECTOR_SIZE + SECTOR_HASH_SIZE + off) as usize;
        buf[j] = decrypted[at];
        j = j + 1;
    }
}

/// The byte at `v` of the partition's data, out of the encrypted run of
/// sectors that starts with sector `start_blk`.
pub open spec fn plain_byte(key: Seq<u8>, run: Seq<u8>, start_blk: int, v: int) -> u8 {
    sector_decrypted(key, sector_at(run, v / SECTOR_DATA_SIZE as int - start_blk))[SECTOR_HASH_SIZE + v
        % SECTOR_DATA_SIZE as int]
}

/// Reads `read_size` bytes of the partition's data from `vstart` into
/// `buf`: decrypts the run of sectors that holds them, read from the disc,
/// and copies the bytes out of their data; the rest of `buf` is left as it
/// is.
#[verifier::spinoff_prover]
pub fn read_decrypted(run: &mut [u8], key: &AesKey, vstart: u64, read_size: usize, buf: &mut [u8])
    requires
        1 <= read_size <= old(buf)@.len(),
        vstart + read_size < 0x8_0000_0000,
        old(run)@.len() == ((vstart + read_size - 1) / SECTOR_DATA_SIZE as int - (vstart / SECTOR_DATA_SIZE) as int
            + 1) * SECTOR_SIZE,
    ensures
        final(buf)@.len() == old(buf)@.len(),
        forall|j: int|
            0 <= j < read_size ==> #[trigger] final(buf)@[j] == plain_byte(
                key@,
                old(run)@,
                (vstart / SECTOR_DATA_SIZE) as int,
                vstart + j,
            ),
        forall|j: int| read_size <= j < old(buf)@.len() ==> #[trigger] final(buf)@[j] == old(buf)@[j],
{
    let ghost r0 = run@;
    let start_blk = vstart / SECTOR_DATA_SIZE;
    assert(r0.len() % 0x8000 == 0) by (nonlinear_arith)
        requires
            r0.len() == ((vstart + read_size - 1) / 0x7C00 - vstart / 0x7C00 + 1) * 0x8000;
    decrypt_sectors(run, key);
    copy_decrypted(run, start_blk, vstart, read_size, buf);
    assert forall|j: int| 0 <= j < read_size implies #[trigger] buf@[j] == plain_byte(
        key@,
        r0,
        start_blk as int,
        vstart + j,
    ) by {
        let v = vstart + j;
        let k = v / 0x7C00 - start_blk;
        let off = v % 0x7C00;
        assert(0 <= k < r0.len() / 0x8000) by (nonlinear_arith)
            requires
                k == v / 0x7C00 - start_blk,
                start_blk == vstart / 0x7C00,
                vstart <= v <= vstart + read_size - 1,
                r0.len() == ((vstart + read_size - 1) / 0x7C00 - vstart / 0x7C00 + 1) * 0x8000;
        assert(sector_at(run@, k) == sector_decrypted(key@, sector_at(r0, k)));
        assert(k * 0x8000 + 0x400 + off < (k + 1) * 0x8000) by (nonlinear_arith)
            requires 0 <= off < 0x7C00;
        assert(sector_at(run@, k)[0x400 + off] == run@[k * 0x8000 + 0x400 + off]);
    }
}

/// Where a seek asks to go: from the start, from the end, or from the
/// cursor.
#[derive(Debug, Clone, Copy, PartialEq, Eq, Structural)]
pub enum SeekPos {
    Start(u64),
    End(i64),
    Current(i64),
}

/// The cursor after a seek in data of `size` bytes; none when the seek is
/// refused. A seek from the end is checked against the cursor moved by the
/// offset, then goes to the end moved by it.
pub open spec fn seek_spec(cursor: int, pos: SeekPos, size: int) -> Option<int> {
    match pos {
        SeekPos::Start(p) => if p > size {
            None
        } else {
            Some(p as int)
        },
        SeekPos::End(p) => if cursor + p < 0 || cursor + p > size {
            None
        } else {
            Some(size + p)
        },
        SeekPos::Current(p) => if cursor + p < 0 || cursor + p > size {
            None
        } else {
            Some(cursor + p)
        },
    }
}

/// Moves the cursor of the partition's data (see `seek_spec`).
pub fn seek_cursor(cursor: u64, pos: SeekPos, size: u64) -> (r: Option<u64>)
    requires
        cursor <= size <= 0x7FFF_FFFF_FFFF_FFFF,
    ensures
        match seek_spec(cursor as int, pos, size as int) {
            Some(c) => r == Some(c as u64),
            None => r is None,
        },
{
    match pos {
        SeekPos::Start(p) => if p > size {
            None
        } else {
            Some(p)
        },
        SeekPos::End(p) => {
            let moved = cursor as i128 + p as i128;
            if moved < 0 || moved > size as i128 {
                None
            } else {
                Some((size as i128 + p as i128) as u64)
            }
        },
        SeekPos::Current(p) => {
            let moved = cursor as i128 + p as i128;
            if moved < 0 || moved > size as i128 {
                None
            } else {
                Some(moved as u64)
            }
        },
    }
}

} // verus!
