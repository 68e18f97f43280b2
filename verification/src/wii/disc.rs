//! Regions, languages, age ratings and partition tables of Wii discs.

use vstd::prelude::*;
use crate::bytes::{lemma_u32_roundtrip, push_be_u32, push_zeros, read_be_u32, seq_be_u32, u32_be_bytes};
use crate::disc::DecodeError;

verus! {

/// Age ratings of a Wii disc, one byte per rating board.
#[derive(Debug, Clone, Copy, Default, PartialEq, Eq, Structural)]
pub struct WiiDiscRegionsAgeRating {
    pub jp: u8,
    pub us: u8,
    pub unknown1: u8,
    pub de: u8,
    pub pegi: u8,
    pub fi: u8,
    pub pt: u8,
    pub gb: u8,
    pub au: u8,
    pub kr: u8,
}

/// Region of a disc or title.
#[derive(Debug, Clone, Copy, Default, PartialEq, Eq, Structural)]
pub enum Region {
    /// Japan and Taiwan (and South Korea for GameCube only).
    NTSCJ,
    /// Mainly North America.
    NTSCU,
    /// Mainly Europe and Oceania.
    PAL,
    /// Region free, or a region that is not known.
    #[default]
    Unknown,
    /// South Korea (Wii only).
    KOR,
}

/// Languages of the console settings.
#[derive(Debug, Clone, Copy, Default, PartialEq, Eq, Structural)]
pub enum Language {
    #[default]
    Japanese,
    English,
    German,
    Frenc,
    Spanish,
    Italian,
    Dutch,
    SimplifiedChinese,
    TraditionalChinese,
    Korean,
    Unknown,
}

/// The region that the code `v` stands for.
pub open spec fn region_from_code(v: u32) -> Region {
    if v == 0 {
        Region::NTSCJ
    } else if v == 1 {
        Region::NTSCU
    } else if v == 2 {
        Region::PAL
    } else if v == 4 {
        Region::KOR
    } else {
        Region::Unknown
    }
}

/// The code of the region `r`.
pub open spec fn region_code(r: Region) -> u32 {
    match r {
        Region::NTSCJ => 0,
        Region::NTSCU => 1,
        Region::PAL => 2,
        Region::Unknown => 3,
        Region::KOR => 4,
    }
}

impl From<u32> for Region {
    fn from(value: u32) -> (r: Self) {
        if value == 0 {
            Region::NTSCJ
        } else if value == 1 {
            Region::NTSCU
        } else if value == 2 {
            Region::PAL
        } else if value == 4 {
            Region::KOR
        } else {
            Region::Unknown
        }
    }
}

impl vstd::std_specs::convert::FromSpecImpl<u32> for Region {
    open spec fn obeys_from_spec() -> bool {
        true
    }

    open spec fn from_spec(v: u32) -> Region {
        region_from_code(v)
    }
}

impl From<u16> for Region {
    fn from(value: u16) -> (r: Self) {
        Region::from(value as u32)
    }
}

impl vstd::std_specs::convert::FromSpecImpl<u16> for Region {
    open spec fn obeys_from_spec() -> bool {
        true
    }

    open spec fn from_spec(v: u16) -> Region {
        region_from_code(v as u32)
    }
}

impl From<Region> for u32 {
    fn from(value: Region) -> (r: Self) {
        match value {
            Region::NTSCJ => 0,
            Region::NTSCU => 1,
            Region::PAL => 2,
            Region::Unknown => 3,
            Region::KOR => 4,
        }
    }
}

impl vstd::std_specs::convert::FromSpecImpl<Region> for u32 {
    open spec fn obeys_from_spec() -> bool {
        true
    }

    open spec fn from_spec(v: Region) -> u32 {
        region_code(v)
    }
}

impl From<Region> for u16 {
    fn from(value: Region) -> (r: Self) {
        let code: u32 = u32::from(value);
        code as u16
    }
}

impl vstd::std_specs::convert::FromSpecImpl<Region> for u16 {
    open spec fn obeys_from_spec() -> bool {
        true
    }

    open spec fn from_spec(v: Region) -> u16 {
        region_code(v) as u16
    }
}

/// A region code read back gives the region.
pub proof fn lemma_region_code_roundtrip(r: Region)
    ensures
        region_from_code(region_code(r)) == r,
{
}

/// Region and age ratings of a Wii disc.
#[derive(Debug, Clone, Copy, Default, PartialEq, Eq, Structural)]
pub struct WiiDiscRegion {
    pub region: Region,
    pub age_rating: WiiDiscRegionsAgeRating,
}

/// Size of an encoded [`WiiDiscRegion`].
pub const WII_DISC_REGION_SIZE: usize = 32;

/// The ten age-rating bytes in their on-disc order.
pub open spec fn age_rating_bytes(a: WiiDiscRegionsAgeRating) -> Seq<u8> {
    seq![a.jp, a.us, a.unknown1, a.de, a.pegi, a.fi, a.pt, a.gb, a.au, a.kr]
}

/// The encoding of `r`: the big-endian region code, twelve zero bytes, the
/// age ratings and six zero bytes.
pub open spec fn wii_disc_region_bytes(r: WiiDiscRegion) -> Seq<u8> {
    u32_be_bytes(region_code(r.region)) + Seq::new(12, |_i: int| 0u8) + age_rating_bytes(r.age_rating)
        + Seq::new(6, |_i: int| 0u8)
}

/// `r` is what the first 32 bytes of `s` encode.
pub open spec fn wii_disc_region_decoded(r: WiiDiscRegion, s: Seq<u8>) -> bool {
    &&& r.region == region_from_code(seq_be_u32(s, 0))
    &&& age_rating_bytes(r.age_rating) == s.subrange(16, 26)
}

impl WiiDiscRegion {
    /// Encodes the region block into `WII_DISC_REGION_SIZE` bytes.
    pub fn encode(&self) -> (r: Vec<u8>)
        ensures
            r@ == wii_disc_region_bytes(*self),
            r@.len() == WII_DISC_REGION_SIZE,
    {
        let mut out: Vec<u8> = Vec::new();
        push_be_u32(&mut out, u32::from(self.region));
        push_zeros(&mut out, 12);
        out.push(self.age_rating.jp);
        out.push(self.age_rating.us);
        out.push(self.age_rating.unknown1);
        out.push(self.age_rating.de);
        out.push(self.age_rating.pegi);
        out.push(self.age_rating.fi);
        out.push(self.age_rating.pt);
        out.push(self.age_rating.gb);
        out.push(self.age_rating.au);
        out.push(self.age_rating.kr);
        push_zeros(&mut out, 6);
        assert(out@ =~= wii_disc_region_bytes(*self));
        out
    }

    /// Decodes the region block from the first `WII_DISC_REGION_SIZE` bytes
    /// of `bytes`. Fails, leaving `self` unchanged, when fewer are given.
    pub fn decode(&mut self, bytes: &[u8]) -> (r: Result<(), DecodeError>)
        ensures
            r is Ok <==> bytes@.len() >= WII_DISC_REGION_SIZE,
            r is Ok ==> wii_disc_region_decoded(*final(self), bytes@),
            r is Err ==> *final(self) == *old(self),
    {
        if bytes.len() < WII_DISC_REGION_SIZE {
            return Err(DecodeError::UnexpectedEnd);
        }
        self.region = Region::from(read_be_u32(bytes, 0));
        self.age_rating.jp = bytes[16];
        self.age_rating.us = bytes[17];
        self.age_rating.unknown1 = bytes[18];
        self.age_rating.de = bytes[19];
        self.age_rating.pegi = bytes[20];
        self.age_rating.fi = bytes[21];
        self.age_rating.pt = bytes[22];
        self.age_rating.gb = bytes[23];
        self.age_rating.au = bytes[24];
        self.age_rating.kr = bytes[25];
        assert(age_rating_bytes(self.age_rating) =~= bytes@.subrange(16, 26));
        Ok(())
    }
}

/// Decoding an encoded region block gives the same block back.
pub proof fn lemma_wii_disc_region_roundtrip(r: WiiDiscRegion, decoded: WiiDiscRegion)
    requires
        wii_disc_region_decoded(decoded, wii_disc_region_bytes(r)),
    ensures
        decoded == r,
{
    let s = wii_disc_region_bytes(r);
    lemma_u32_roundtrip(region_code(r.region));
    assert(s.subrange(0, 4) =~= u32_be_bytes(region_code(r.region)));
    assert(seq_be_u32(s, 0) == seq_be_u32(s.subrange(0, 4), 0));
    assert(s.subrange(16, 26) =~= age_rating_bytes(r.age_rating));
    let a = decoded.age_rating;
    let b = r.age_rating;
    assert(age_rating_bytes(a) == age_rating_bytes(b));
    assert(a.jp == age_rating_bytes(a)[0] && a.us == age_rating_bytes(a)[1]);
    assert(a.unknown1 == age_rating_bytes(a)[2] && a.de == age_rating_bytes(a)[3]);
    assert(a.pegi == age_rating_bytes(a)[4] && a.fi == age_rating_bytes(a)[5]);
    assert(a.pt == age_rating_bytes(a)[6] && a.gb == age_rating_bytes(a)[7]);
    assert(a.au == age_rating_bytes(a)[8] && a.kr == age_rating_bytes(a)[9]);
}

/// One entry of the partition table: the partition's kind and offset.
#[derive(Debug, Clone, Copy, Default, PartialEq, Eq, Structural)]
pub struct PartitionInfoEntry {
    pub partition_type: u32,
    pub offset: u64,
}

/// A partition table and the offset at which it is stored.
#[derive(Debug, Clone, Default)]
pub struct PartitionInfo {
    pub offset: u64,
    pub entries: Vec<PartitionInfoEntry>,
}

} // verus!
