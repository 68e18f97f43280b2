//! The GameCube / Wii disc header and the volume abstraction used to read discs.

use vstd::prelude::*;
use crate::bytes::{
    lemma_u16_roundtrip, lemma_u32_roundtrip, push_be_u16, push_be_u32, push_bytes, push_zeros,
    read_be_u16, read_be_u32, seq_be_u16, seq_be_u32, u16_be_bytes, u32_be_bytes,
};
use crate::endian::FromBytesBE;

verus! {

/// Offset of the DOL offset in the disc header.
pub const OFFSET_DOL_OFFSET: usize = 0x420;
/// Offset of the FST offset in the disc header.
pub const OFFSET_FST_OFFSET: usize = 0x424;
/// Offset of the FST size in the disc header.
pub const OFFSET_FST_SIZE: usize = 0x428;
/// Offset of the GameCube magic word.
pub const OFFSET_GC_MAGIC: usize = 0x01C;
/// Offset of the Wii magic word.
pub const OFFSET_WII_MAGIC: usize = 0x018;
/// Magic word of GameCube discs.
pub const GC_MAGIC: u32 = 0xC2339F3D;
/// Magic word of Wii discs.
pub const WII_MAGIC: u32 = 0x5D1C9EA3;
/// Length of the full disc header (boot.bin + bi2.bin).
pub const HEADER_LENGTH: usize = 0x2440;
/// Alignment, as a bit count, of the main executable on the disc.
pub const DOL_ALIGNMENT_BIT: usize = 8;
/// Alignment of the main executable on the disc.
pub const DOL_ALIGNMENT: usize = 256;
/// Alignment, as a bit count, of the file system table on the disc.
pub const FST_ALIGNMENT_BIT: usize = 8;
/// Alignment of the file system table on the disc.
pub const FST_ALIGNMENT: usize = 256;

/// Size in bytes of an encoded [`DiscHeader`].
pub const DISC_HEADER_SIZE: usize = 0x400;

/// Number of zero bytes that end an encoded [`DiscHeader`].
pub const DISC_HEADER_PADDING: usize = 0x39e;

/// The first block of a GameCube or Wii disc.
#[derive(Debug, Clone)]
pub struct DiscHeader {
    pub disc_id: u8,
    pub game_code: u16,
    pub region_code: u8,
    pub maker_code: u16,
    pub disc_number: u8,
    pub disc_version: u8,
    pub audio_streaming: bool,
    pub unk: [u8; 14],
    pub streaming_buffer_size: u8,
    pub is_wii: bool,
    pub game_title: [u8; 0x40],
    pub disable_hash_verification: bool,
    pub disable_disc_encryption: bool,
}

/// Errors of decoding a structure from bytes.
#[derive(Debug, Clone, Copy, PartialEq, Eq)]
pub enum DecodeError {
    /// The input ended before the structure was complete.
    UnexpectedEnd,
}

pub open spec fn bool_byte(b: bool) -> u8 {
    if b { 1 } else { 0 }
}

/// The bytes that encode `h`.
pub open spec fn disc_header_bytes(h: DiscHeader) -> Seq<u8> {
    seq![h.disc_id] + u16_be_bytes(h.game_code) + seq![h.region_code] + u16_be_bytes(h.maker_code)
        + seq![h.disc_number, h.disc_version, bool_byte(h.audio_streaming), h.streaming_buffer_size]
        + h.unk@ + u32_be_bytes(if h.is_wii { WII_MAGIC } else { 0 })
        + u32_be_bytes(if h.is_wii { 0 } else { GC_MAGIC }) + h.game_title@
        + seq![bool_byte(h.disable_hash_verification), bool_byte(h.disable_disc_encryption)]
        + Seq::new(DISC_HEADER_PADDING as nat, |_i: int| 0u8)
}

/// `h` is the header that the bytes `s` encode.
pub open spec fn disc_header_decoded(h: DiscHeader, s: Seq<u8>) -> bool {
    &&& h.disc_id == s[0]
    &&& h.game_code == seq_be_u16(s, 1)
    &&& h.region_code == s[3]
    &&& h.maker_code == seq_be_u16(s, 4)
    &&& h.disc_number == s[6]
    &&& h.disc_version == s[7]
    &&& h.audio_streaming == (s[8] != 0)
    &&& h.streaming_buffer_size == s[9]
    &&& h.unk@ == s.subrange(10, 24)
    &&& h.is_wii == (seq_be_u32(s, 24) == WII_MAGIC)
    &&& h.game_title@ == s.subrange(32, 96)
    &&& h.disable_hash_verification == (s[96] != 0)
    &&& h.disable_disc_encryption == (s[97] != 0)
}

/// Copies `N` bytes of `buf` starting at `off` into an array.
pub fn read_array<const N: usize>(buf: &[u8], off: usize) -> (r: [u8; N])
    requires
        off + N <= buf@.len(),
    ensures
        r@ == buf@.subrange(off as int, off + N),
{
    let mut r = [0u8; N];
    let n = buf.len();
    let mut i: usize = 0;
    while i < N
        invariant
            i <= N,
            off + N <= n,
            n == buf@.len(),
            r@.len() == N,
            forall|k: int| 0 <= k < i ==> r@[k] == buf@[off + k],
        decreases N - i,
    {
        r.set(i, buf[off + i]);
        i = i + 1;
    }
    assert(r@ =~= buf@.subrange(off as int, off + N));
    r
}

impl Default for DiscHeader {
    fn default() -> (r: Self)
        ensures
            r.disc_id == 0x47,
            r.game_code == 0,
            r.region_code == 0x4a,
            r.maker_code == 0,
            r.disc_number == 0,
            r.disc_version == 0,
            !r.audio_streaming,
            r.streaming_buffer_size == 0,
            r.unk@ == Seq::new(14, |_i: int| 0u8),
            !r.is_wii,
            r.game_title@ == Seq::new(0x40, |_i: int| 0u8),
            !r.disable_hash_verification,
            !r.disable_disc_encryption,
    {
        let r = Self {
            // 'G' for a GameCube game
            disc_id: 0x47,
            game_code: 0,
            // 'J' for Japan
            region_code: 0x4a,
            maker_code: 0,
            disc_number: 0,
            disc_version: 0,
            audio_streaming: false,
            unk: [0u8; 14],
            streaming_buffer_size: 0,
            is_wii: false,
            game_title: [0u8; 0x40],
            disable_hash_verification: false,
            disable_disc_encryption: false,
        };
        assert(r.unk@ =~= Seq::new(14, |_i: int| 0u8));
        assert(r.game_title@ =~= Seq::new(0x40, |_i: int| 0u8));
        r
    }
}

impl DiscHeader {
    /// Encodes the header into its on-disc form of `DISC_HEADER_SIZE` bytes.
    pub fn encode(&self) -> (r: Vec<u8>)
        ensures
            r@ == disc_header_bytes(*self),
            r@.len() == DISC_HEADER_SIZE,
    {
        let mut out: Vec<u8> = Vec::with_capacity(DISC_HEADER_SIZE);
        out.push(self.disc_id);
        push_be_u16(&mut out, self.game_code);
        out.push(self.region_code);
        push_be_u16(&mut out, self.maker_code);
        out.push(self.disc_number);
        out.push(self.disc_version);
        out.push(if self.audio_streaming { 1 } else { 0 });
        out.push(self.streaming_buffer_size);
        push_bytes(&mut out, self.unk.as_slice());
        push_be_u32(&mut out, if self.is_wii { WII_MAGIC } else { 0 });
        push_be_u32(&mut out, if self.is_wii { 0 } else { GC_MAGIC });
        push_bytes(&mut out, self.game_title.as_slice());
        out.push(if self.disable_hash_verification { 1 } else { 0 });
        out.push(if self.disable_disc_encryption { 1 } else { 0 });
        push_zeros(&mut out, DISC_HEADER_PADDING);
        assert(out@ =~= disc_header_bytes(*self));
        out
    }

    /// Decodes a header from the first `DISC_HEADER_SIZE` bytes of `bytes`.
    /// Fails, leaving `self` unchanged, when fewer bytes are given.
    pub fn decode(&mut self, bytes: &[u8]) -> (r: Result<(), DecodeError>)
        ensures
            r is Ok <==> bytes@.len() >= DISC_HEADER_SIZE,
            r is Ok ==> disc_header_decoded(*final(self), bytes@),
            r is Err ==> *final(self) == *old(self),
    {
        if bytes.len() < DISC_HEADER_SIZE {
            return Err(DecodeError::UnexpectedEnd);
        }
        self.disc_id = bytes[0];
        self.game_code = read_be_u16(bytes, 1);
        self.region_code = bytes[3];
        self.maker_code = read_be_u16(bytes, 4);
        self.disc_number = bytes[6];
        self.disc_version = bytes[7];
        self.audio_streaming = bytes[8] != 0;
        self.streaming_buffer_size = bytes[9];
        self.unk = read_array::<14>(bytes, 10);
        let wii_magic = read_be_u32(bytes, 24);
        self.is_wii = wii_magic == WII_MAGIC;
        self.game_title = read_array::<0x40>(bytes, 32);
        self.disable_hash_verification = bytes[96] != 0;
        self.disable_disc_encryption = bytes[97] != 0;
        Ok(())
    }
}

/// Decoding an encoded header gives the same header back.
pub proof fn lemma_disc_header_roundtrip(h: DiscHeader, decoded: DiscHeader)
    requires
        disc_header_decoded(decoded, disc_header_bytes(h)),
    ensures
        decoded == h,
{
    broadcast use vstd::array::group_array_axioms;

    let s = disc_header_bytes(h);
    lemma_u16_roundtrip(h.game_code);
    lemma_u16_roundtrip(h.maker_code);
    lemma_u32_roundtrip(if h.is_wii { WII_MAGIC } else { 0 });
    assert(s.subrange(1, 3) =~= u16_be_bytes(h.game_code));
    assert(s.subrange(4, 6) =~= u16_be_bytes(h.maker_code));
    assert(s.subrange(24, 28) =~= u32_be_bytes(if h.is_wii { WII_MAGIC } else { 0 }));
    assert(seq_be_u16(s, 1) == seq_be_u16(s.subrange(1, 3), 0));
    assert(seq_be_u16(s, 4) == seq_be_u16(s.subrange(4, 6), 0));
    assert(seq_be_u32(s, 24) == seq_be_u32(s.subrange(24, 28), 0));
    assert(s.subrange(10, 24) =~= h.unk@);
    assert(s.subrange(32, 96) =~= h.game_title@);
    assert(decoded.unk@ =~= h.unk@);
    assert(decoded.game_title@ =~= h.game_title@);
    assert(decoded.unk =~= h.unk);
    assert(decoded.game_title =~= h.game_title);
}

/// Kinds of Wii partitions.
#[derive(Copy, Clone, Debug, Default, PartialEq, Eq)]
pub enum PartitionType {
    Data,
    Update,
    ChannelInstaller,
    #[default]
    Unknown,
}

/// A partition of a volume, given by its offset, if any.
pub type Partition = Option<u64>;

/// Errors of reading from a [`Volume`].
#[derive(Debug, Clone, Copy, PartialEq, Eq)]
pub enum VolumeError {
    /// The underlying reader failed or ended early.
    Io,
}

/// A readable disc image.
pub trait Volume {
    /// The `n` bytes that the next read of `n` bytes yields; left open unless
    /// an implementation states it.
    open spec fn next_bytes(&self, n: nat) -> Seq<u8> {
        vstd::pervasive::arbitrary()
    }

    /// Number of bits by which offsets stored on this volume are shifted;
    /// none unless an implementation states otherwise.
    open spec fn offset_shift(&self) -> u8 {
        0
    }

    /// Reads the next `n` bytes of the volume; reading leaves the offset
    /// shift as it was.
    fn read_bytes(&mut self, n: usize) -> (r: Result<Vec<u8>, VolumeError>)
        ensures
            final(self).offset_shift() == old(self).offset_shift(),
            r matches Ok(v) ==> v@ == old(self).next_bytes(n as nat) && v@.len() == n,
    ;

    /// Reads a big-endian integer at the current position: the value that
    /// the next `T::N` bytes denote.
    fn read_swapped<T: FromBytesBE>(&mut self) -> (r: Result<T, VolumeError>)
        ensures
            final(self).offset_shift() == old(self).offset_shift(),
            r matches Ok(t) ==> t == T::spec_from_be(old(self).next_bytes(T::N as nat)),
    {
        let buf = self.read_bytes(T::N)?;
        Ok(T::from_bytes_be(buf.as_slice()))
    }

    /// Reads a big-endian offset at the current position and scales it by
    /// the volume's offset shift.
    fn read_swapped_and_shifted<T: FromBytesBE>(&mut self) -> (r: Result<T, VolumeError>)
        ensures
            final(self).offset_shift() == old(self).offset_shift(),
            r matches Ok(t) ==> t == T::spec_from_be(old(self).next_bytes(T::N as nat)).shifted_by(
                old(self).offset_shift(),
            ),
    {
        let v = self.read_swapped::<T>()?;
        let shift = self.get_offset_shift();
        Ok(v.shl_bits(shift))
    }

    /// Number of bits by which offsets stored on this volume are shifted.
    fn get_offset_shift(&self) -> (r: u8)
        ensures
            r == self.offset_shift(),
            r < 8,
    ;

    fn has_wii_hashes(&self) -> bool;

    fn has_wii_encryption(&self) -> bool;

    fn get_partitions(&self) -> Vec<Partition> {
        Vec::new()
    }

    fn get_game_partition(&self) -> Partition {
        None
    }

    fn get_partition_type(&self, partition: &Partition) -> Option<u32> {
        None
    }

    fn get_title_id(&self, partition: Option<&Partition>) -> Option<u64>;
}

} // verus!
