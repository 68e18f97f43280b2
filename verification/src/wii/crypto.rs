//! Titles, tickets, title metadata (TMD) and certificates: the signed blobs
//! of the Wii, read in place from their big-endian bytes.

use vstd::prelude::*;
use crate::bytes::{read_be_u16, read_be_u32, read_be_u64, seq_be_u16, seq_be_u32, seq_be_u64};
use crate::crypto::sha1::{sha1, sha1_digest};
use crate::disc::read_array;
use crate::iosc::{
    SignatureRSA2048, SignatureType, PublicKeyType, public_key_type_from, public_key_type_value, CERT_ECC_SIZE,
    CERT_HEADER_SIZE, CERT_RSA2048_ECC_SIZE, CERT_RSA2048_RSA2048_SIZE, CERT_RSA4096_RSA2048_SIZE,
    ECC_PUBLIC_KEY_SIZE, RSA2048_PUBLIC_KEY_SIZE, SIGNATURE_ECC_SIZE, SIGNATURE_RSA2048_SIZE,
    SIGNATURE_RSA4096_SIZE,
};
use crate::text::{bytes_eq, c_str_bytes, c_str_prefix, c_string_from_slice, hex_lower, push_hex};
use crate::iosc::hle::{
    compute_shared_key_spec, create_object_spec, crypt_result, default_state, has_ownership_spec, import_public_key_spec,
    iosc_wf, lemma_first_free, ConsoleType, DefaultHandle, Iosc, IoscError, IoscView, ObjectSubType,
    ObjectType, COMMON_KEY_RETAIL, COMMON_KEY_RVT, NEW_COMMON_KEY, default_entry,
};
use crate::crypto::aes::aes128_cbc_decrypt;
use crate::wii::disc::{region_from_code, Region};

verus! {

/// Title ids of system titles.
pub const BOOT2: u64 = 0x0000000100000001;
pub const SYSTEM_MENU: u64 = 0x0000000100000002;
pub const SHOP: u64 = 0x0001000248414241;
pub const KOREAN_SHOP: u64 = 0x000100024841424b;
pub const FORECAST_CHANNEL_NTSC_U: u64 = 0x0001000248414645;
pub const FORECAST_CHANNEL_NTSC_J: u64 = 0x000100024841464a;
pub const FORECAST_CHANNEL_PAL: u64 = 0x0001000248414650;
pub const NINTENDO_CHANNEL_NTSC_U: u64 = 0x0001000148415445;
pub const NINTENDO_CHANNEL_NTSC_J: u64 = 0x000100014841544a;
pub const NINTENDO_CHANNEL_PAL: u64 = 0x0001000148415450;
pub const NEWS_CHANNEL_NTSC_U: u64 = 0x0001000248414745;
pub const NEWS_CHANNEL_NTSC_J: u64 = 0x000100024841474a;
pub const NEWS_CHANNEL_PAL: u64 = 0x0001000248414750;
pub const EVERYBODY_VOTES_CHANNEL_NTSC_U: u64 = 0x0001000148414a45;
pub const EVERYBODY_VOTES_CHANNEL_NTSC_J: u64 = 0x0001000148414a4a;
pub const EVERYBODY_VOTES_CHANNEL_PAL: u64 = 0x0001000148414a50;
pub const REGION_SELECT_CHANNEL_NTSC_U: u64 = 0x0001000848414c45;
pub const REGION_SELECT_CHANNEL_NTSC_J: u64 = 0x0001000848414c4a;
pub const REGION_SELECT_CHANNEL_PAL: u64 = 0x0001000848414c50;
/// IOS used by the latest System Menu (4.3): IOS80.
pub const SYSTEM_MENU_IOS: u64 = 0x0000000100000050;
/// The BC title (IOS 0x100).
pub const BC: u64 = 0x0000000100000100;
/// The MIOS title (IOS 0x101).
pub const MIOS: u64 = 0x0000000100000101;

/// The title id of the IOS with the given major version.
pub fn ios(major_version: u32) -> (r: u64)
    ensures
        r == 0x0000000100000000u64 + major_version,
{
    0x0000000100000000u64 + major_version as u64
}

/// Kinds of titles, named by the upper half of their title id.
#[derive(Debug, Clone, Copy, Default, PartialEq, Eq, PartialOrd, Ord, Structural)]
pub enum TitleType {
    #[default]
    System,
    Game,
    Channel,
    SystemChannel,
    GameWithChannel,
    DLC,
    HiddenChannel,
}

/// The upper half of the title ids of a kind of titles.
pub open spec fn title_type_value(t: TitleType) -> u32 {
    match t {
        TitleType::System => 0x00000001,
        TitleType::Game => 0x00010000,
        TitleType::Channel => 0x00010001,
        TitleType::SystemChannel => 0x00010002,
        TitleType::GameWithChannel => 0x00010004,
        TitleType::DLC => 0x00010005,
        TitleType::HiddenChannel => 0x00010008,
    }
}

/// The title id is of the given kind.
pub open spec fn is_title_type_spec(title_id: u64, t: TitleType) -> bool {
    title_id / 0x1_0000_0000 == title_type_value(t)
}

/// The title is a disc game.
pub open spec fn is_disc_title_spec(title_id: u64) -> bool {
    is_title_type_spec(title_id, TitleType::Game) || is_title_type_spec(title_id, TitleType::GameWithChannel)
}

/// The title is a channel (the System Menu included).
pub open spec fn is_channel_spec(title_id: u64) -> bool {
    title_id == SYSTEM_MENU || is_title_type_spec(title_id, TitleType::Channel)
        || is_title_type_spec(title_id, TitleType::SystemChannel)
        || is_title_type_spec(title_id, TitleType::GameWithChannel)
        || is_title_type_spec(title_id, TitleType::HiddenChannel)
}

impl TitleType {
    /// The upper half of the title ids of this kind.
    pub fn value(self) -> (r: u32)
        ensures
            r == title_type_value(self),
    {
        match self {
            TitleType::System => 0x00000001,
            TitleType::Game => 0x00010000,
            TitleType::Channel => 0x00010001,
            TitleType::SystemChannel => 0x00010002,
            TitleType::GameWithChannel => 0x00010004,
            TitleType::DLC => 0x00010005,
            TitleType::HiddenChannel => 0x00010008,
        }
    }

    pub fn is_title_type(title_id: u64, title_type: TitleType) -> (r: bool)
        ensures
            r == is_title_type_spec(title_id, title_type),
    {
        let upper = title_id >> 32u64;
        assert(title_id >> 32u64 == title_id / 0x1_0000_0000) by (bit_vector);
        upper as u32 == title_type.value()
    }

    pub fn is_disc_title(title_id: u64) -> (r: bool)
        ensures
            r == is_disc_title_spec(title_id),
    {
        TitleType::is_title_type(title_id, TitleType::Game) || TitleType::is_title_type(
            title_id,
            TitleType::GameWithChannel,
        )
    }

    pub fn is_channel(title_id: u64) -> (r: bool)
        ensures
            r == is_channel_spec(title_id),
    {
        title_id == SYSTEM_MENU || TitleType::is_title_type(title_id, TitleType::Channel)
            || TitleType::is_title_type(title_id, TitleType::SystemChannel)
            || TitleType::is_title_type(title_id, TitleType::GameWithChannel)
            || TitleType::is_title_type(title_id, TitleType::HiddenChannel)
    }
}

/// Flags of a title.
#[derive(Debug, Clone, Copy, Default, PartialEq, Eq, Structural)]
pub enum TitleFlags {
    /// All official titles have this flag set.
    #[default]
    TitleTypeDefault,
    /// Unknown.
    TitleType0x4,
    /// Used for DLC titles.
    TitleTypeData,
    /// Unknown.
    TitleType0x10,
    /// Appears to be used for WFS titles.
    TitleTypeWfsMaybe,
    /// Unknown.
    TitleTypeCT,
}

/// The bit of a title flag.
pub open spec fn title_flags_value(f: TitleFlags) -> u32 {
    match f {
        TitleFlags::TitleTypeDefault => 0x1,
        TitleFlags::TitleType0x4 => 0x4,
        TitleFlags::TitleTypeData => 0x08,
        TitleFlags::TitleType0x10 => 0x10,
        TitleFlags::TitleTypeWfsMaybe => 0x20,
        TitleFlags::TitleTypeCT => 0x40,
    }
}

impl TitleFlags {
    /// The bit of the flag.
    pub fn value(self) -> (r: u32)
        ensures
            r == title_flags_value(self),
    {
        match self {
            TitleFlags::TitleTypeDefault => 0x1,
            TitleFlags::TitleType0x4 => 0x4,
            TitleFlags::TitleTypeData => 0x08,
            TitleFlags::TitleType0x10 => 0x10,
            TitleFlags::TitleTypeWfsMaybe => 0x20,
            TitleFlags::TitleTypeCT => 0x40,
        }
    }
}

/// The header of a title's metadata (TMD), before its content records.
#[derive(Debug, Clone, Copy)]
pub struct TMDHeader {
    pub signature: SignatureRSA2048,
    pub tmd_version: u8,
    pub ca_crl_version: u8,
    pub signer_crl_version: u8,
    /// Usually a zero padding byte, set to 1 on vWii TMDs.
    pub is_vwii: u8,
    pub ios_id: u64,
    pub title_id: u64,
    pub title_flags: u32,
    pub group_id: u16,
    pub zero: u16,
    pub region: u16,
    pub ratings: [u8; 16],
    pub reserved: [u8; 12],
    pub ipc_mask: [u8; 12],
    pub reserved2: [u8; 18],
    pub access_rights: u32,
    pub title_version: u16,
    pub num_contents: u16,
    pub boot_index: u16,
    pub fill2: u16,
}

/// Size of an encoded [`TMDHeader`].
pub const TMD_HEADER_SIZE: usize = 0x1e4;

/// A content record of a TMD.
#[derive(Debug, Clone, Copy, Default, PartialEq, Eq, PartialOrd, Ord)]
pub struct Content {
    pub id: u32,
    pub index: u16,
    pub content_type: u16,
    pub size: u64,
    pub sha1: [u8; 20],
}

/// Size of an encoded [`Content`].
pub const TMD_CONTENT_SIZE: usize = 36;

impl Content {
    /// The content is shared between titles.
    pub fn is_shared(&self) -> (r: bool)
        ensures
            r == (self.content_type & 0x8000 != 0),
    {
        (self.content_type & 0x8000) != 0
    }

    /// The content may be missing.
    pub fn is_optional(&self) -> (r: bool)
        ensures
            r == (self.content_type & 0x4000 != 0),
    {
        (self.content_type & 0x4000) != 0
    }
}

/// A time limit of a ticket.
#[derive(Debug, Clone, Copy, Default, PartialEq, Eq, Structural)]
pub struct TimeLimit {
    pub enabled: u32,
    pub seconds: u32,
}

/// The part of a ticket that IOS hands out to titles.
#[derive(Debug, Clone, Copy)]
pub struct TicketView {
    pub version: u8,
    pub _padding1: [u8; 3],
    pub ticket_id: u64,
    pub device_id: u32,
    pub title_id: u64,
    pub access_mask: u16,
    pub _padding2: u16,
    pub permitted_title_id: u32,
    pub permitted_title_mask: u32,
    pub title_export_allowed: u8,
    pub common_key_index: u8,
    pub unknown2: [u8; 0x30],
    pub content_access_permissions: [u8; 0x40],
    pub _padding3: u16,
    pub time_limits: [TimeLimit; 8],
}

/// Size of an encoded [`TicketView`].
pub const TICKET_VIEW_SIZE: usize = 0xd8;

impl Default for TicketView {
    fn default() -> (r: Self)
        ensures
            r.version == 0 && r.ticket_id == 0 && r.device_id == 0 && r.title_id == 0,
            r.access_mask == 0 && r.permitted_title_id == 0 && r.permitted_title_mask == 0,
            r.title_export_allowed == 0 && r.common_key_index == 0,
            r.unknown2@ == Seq::new(0x30, |_i: int| 0u8),
            r.content_access_permissions@ == Seq::new(0x40, |_i: int| 0u8),
            r.time_limits@ == Seq::new(8, |_i: int| TimeLimit { enabled: 0, seconds: 0 }),
    {
        let r = TicketView {
            version: 0,
            _padding1: [0u8; 3],
            ticket_id: 0,
            device_id: 0,
            title_id: 0,
            access_mask: 0,
            _padding2: 0,
            permitted_title_id: 0,
            permitted_title_mask: 0,
            title_export_allowed: 0,
            common_key_index: 0,
            unknown2: [0u8; 0x30],
            content_access_permissions: [0u8; 0x40],
            _padding3: 0,
            time_limits: [TimeLimit { enabled: 0, seconds: 0 }; 8],
        };
        assert(r.unknown2@ =~= Seq::new(0x30, |_i: int| 0u8));
        assert(r.content_access_permissions@ =~= Seq::new(0x40, |_i: int| 0u8));
        assert(r.time_limits@ =~= Seq::new(8, |_i: int| TimeLimit { enabled: 0, seconds: 0 }));
        r
    }
}

/// Header of a v1 ticket, after the v0 part.
#[derive(Debug, Clone, Copy, Default, PartialEq, Eq, Structural)]
pub struct V1TicketHeader {
    pub version: u16,
    pub header_size: u16,
    pub v1_ticket_size: u32,
    pub section_header_table_offset: u32,
    pub number_of_section_headers: u16,
    pub section_header_size: u16,
    pub flags: u32,
}

/// Largest TMD that IOS accepts.
pub const MAX_TMD_SIZE: u32 = 0x49e4;

/// Whether a TMD of `size` bytes is small enough.
pub fn is_valid_tmd_size(size: usize) -> (r: bool)
    ensures
        r == (size <= MAX_TMD_SIZE),
{
    size <= MAX_TMD_SIZE as usize
}


/// The kind of signature that starts the signed blob `b`.
pub open spec fn signature_type_of(b: Seq<u8>) -> Option<SignatureType> {
    let v = seq_be_u32(b, 0);
    if v == 0x00010000 {
        Some(SignatureType::RSA4096)
    } else if v == 0x00010001 {
        Some(SignatureType::RSA2048)
    } else if v == 0x00010002 {
        Some(SignatureType::ECC)
    } else {
        None
    }
}

/// Offset of the issuer in a blob signed with the given kind of signature.
pub open spec fn issuer_offset(t: Option<SignatureType>) -> usize {
    match t {
        Some(SignatureType::RSA4096) => 0x240,
        Some(SignatureType::RSA2048) => 0x140,
        Some(SignatureType::ECC) => 0x80,
        None => 0,
    }
}

/// Size of the signature itself.
pub open spec fn signature_size_of(t: SignatureType) -> usize {
    match t {
        SignatureType::RSA4096 => 0x200,
        SignatureType::RSA2048 => 0x100,
        SignatureType::ECC => 0x3c,
    }
}

/// Size of the whole signature block (type, signature, fill and issuer).
pub open spec fn signature_block_size(t: SignatureType) -> usize {
    match t {
        SignatureType::RSA4096 => 0x280,
        SignatureType::RSA2048 => 0x180,
        SignatureType::ECC => 0xc0,
    }
}

/// The blob starts with a known kind of signature block, all there.
pub open spec fn signature_valid_spec(b: Seq<u8>) -> bool {
    &&& b.len() >= 4
    &&& signature_type_of(b) matches Some(t)
    &&& b.len() >= signature_block_size(t)
}

/// Reads the kind of signature that starts `bytes`.
fn read_signature_type(bytes: &[u8]) -> (r: Option<SignatureType>)
    requires
        bytes@.len() >= 4,
    ensures
        r == signature_type_of(bytes@),
{
    let v = read_be_u32(bytes, 0);
    if v == 0x00010000 {
        Some(SignatureType::RSA4096)
    } else if v == 0x00010001 {
        Some(SignatureType::RSA2048)
    } else if v == 0x00010002 {
        Some(SignatureType::ECC)
    } else {
        None
    }
}

fn get_issuer_offset(signature_type: Option<SignatureType>) -> (r: usize)
    ensures
        r == issuer_offset(signature_type),
{
    match signature_type {
        Some(SignatureType::RSA4096) => 0x240,
        Some(SignatureType::RSA2048) => 0x140,
        Some(SignatureType::ECC) => 0x80,
        None => 0x0,
    }
}

fn detail_get_signature_size(signature_type: SignatureType) -> (r: usize)
    ensures
        r == signature_size_of(signature_type),
{
    match signature_type {
        SignatureType::RSA4096 => 0x200,
        SignatureType::RSA2048 => 0x100,
        SignatureType::ECC => 0x3c,
    }
}

fn detail_get_signature_data(signature_type: SignatureType, data: &[u8]) -> (r: Vec<u8>)
    requires
        data@.len() >= 4 + signature_size_of(signature_type),
    ensures
        r@ == data@.subrange(4, 4 + signature_size_of(signature_type)),
{
    let signature_size = detail_get_signature_size(signature_type);
    vstd::slice::slice_to_vec(vstd::slice::slice_subrange(data, 4, 4 + signature_size))
}

fn detail_get_issuer(signature_type: Option<SignatureType>, data: &[u8]) -> (r: Vec<u8>)
    requires
        issuer_offset(signature_type) <= data@.len(),
    ensures
        r@ == c_str_bytes(data@.skip(issuer_offset(signature_type) as int)),
{
    let issuer_offset = get_issuer_offset(signature_type);
    let rest = vstd::slice::slice_subrange(data, issuer_offset, data.len());
    assert(rest@ =~= data@.skip(issuer_offset as int));
    c_str_prefix(rest)
}

/// A signed blob: a signature block, then the signed data.
pub trait SignedReader {
    /// The bytes of the blob.
    spec fn blob(&self) -> Seq<u8>;

    fn get_bytes(&self) -> (r: &[u8])
        ensures
            r@ == self.blob(),
    ;

    fn set_bytes(&mut self, bytes: &[u8])
        ensures
            final(self).blob() == bytes@,
    ;

    /// Get the SHA1 hash for this signed blob (starting at the issuer).
    fn get_sha1(&self) -> (r: [u8; 20])
        requires
            self.blob().len() >= 4,
            issuer_offset(signature_type_of(self.blob())) <= self.blob().len(),
        ensures
            r@ == sha1(self.blob().skip(issuer_offset(signature_type_of(self.blob())) as int)),
    {
        let skip = get_issuer_offset(self.get_signature_type());
        let bytes = self.get_bytes();
        let signed = vstd::slice::slice_subrange(bytes, skip, bytes.len());
        assert(signed@ =~= self.blob().skip(skip as int));
        sha1_digest(signed)
    }

    /// Only checks whether the signature data could be parsed. The signature is not verified.
    fn is_signature_valid(&self) -> (r: bool)
        ensures
            r == signature_valid_spec(self.blob()),
    {
        let bytes = self.get_bytes();
        if bytes.len() < 4 {
            return false;
        }
        match self.get_signature_size() {
            None => false,
            Some(size) => bytes.len() >= size,
        }
    }

    fn get_signature_type(&self) -> (r: Option<SignatureType>)
        requires
            self.blob().len() >= 4,
        ensures
            r == signature_type_of(self.blob()),
    {
        read_signature_type(self.get_bytes())
    }

    fn get_signature_data(&self) -> (r: Option<Vec<u8>>)
        requires
            self.blob().len() >= 4,
            signature_type_of(self.blob()) matches Some(t) ==> self.blob().len() >= 4
                + signature_size_of(t),
        ensures
            match signature_type_of(self.blob()) {
                Some(t) => r matches Some(d) && d@ == self.blob().subrange(4, 4 + signature_size_of(t)),
                None => r is None,
            },
    {
        match self.get_signature_type() {
            Some(t) => Some(detail_get_signature_data(t, self.get_bytes())),
            None => None,
        }
    }

    fn get_signature_size(&self) -> (r: Option<usize>)
        requires
            self.blob().len() >= 4,
        ensures
            match signature_type_of(self.blob()) {
                Some(t) => r == Some(signature_block_size(t)),
                None => r is None,
            },
    {
        match self.get_signature_type() {
            Some(SignatureType::RSA4096) => Some(0x280),
            Some(SignatureType::RSA2048) => Some(0x180),
            Some(SignatureType::ECC) => Some(0xc0),
            None => None,
        }
    }

    /// Returns the whole issuer chain.
    /// Example: Root-CA00000001 if the blob was signed by CA00000001, which is signed by the Root.
    fn get_issuer(&self) -> (r: Option<Vec<u8>>)
        requires
            self.blob().len() >= 4,
            issuer_offset(signature_type_of(self.blob())) <= self.blob().len(),
        ensures
            r matches Some(s) && s@ == c_str_bytes(
                self.blob().skip(issuer_offset(signature_type_of(self.blob())) as int),
            ),
    {
        Some(detail_get_issuer(self.get_signature_type(), self.get_bytes()))
    }
}

/// A signed blob of any kind.
#[derive(Debug, Clone)]
pub struct SignedBlobReader {
    bytes: Vec<u8>,
}

impl View for SignedBlobReader {
    type V = Seq<u8>;

    closed spec fn view(&self) -> Seq<u8> {
        self.bytes@
    }
}

impl Default for SignedBlobReader {
    fn default() -> (r: Self)
        ensures
            r@ == Seq::<u8>::empty(),
    {
        SignedBlobReader { bytes: Vec::new() }
    }
}

impl SignedReader for SignedBlobReader {
    open spec fn blob(&self) -> Seq<u8> {
        self@
    }

    fn get_bytes(&self) -> (r: &[u8]) {
        self.bytes.as_slice()
    }

    fn set_bytes(&mut self, bytes: &[u8]) {
        self.bytes = vstd::slice::slice_to_vec(bytes);
    }
}


/// Size of the view of a content record: the record without its hash.
pub const CONTENT_VIEW_SIZE: usize = 0x10;
/// Offset of the title id in a TMD.
pub const TITLE_ID_OFFSET: usize = 0x18c;
/// Offset of the title version in a TMD.
pub const TITLE_VERSION_OFFSET: usize = 0x1dc;
/// Offset of the group id in a TMD.
pub const GROUP_ID_OFFSET: usize = 0x198;

/// Number of content records that the TMD `b` declares.
pub open spec fn tmd_num_contents(b: Seq<u8>) -> u16 {
    seq_be_u16(b, 0x1de)
}

/// The TMD `b` is signed and holds its header and all its content records.
pub open spec fn tmd_valid_spec(b: Seq<u8>) -> bool {
    &&& signature_valid_spec(b)
    &&& b.len() >= TMD_HEADER_SIZE
    &&& b.len() >= TMD_HEADER_SIZE + tmd_num_contents(b) * TMD_CONTENT_SIZE
}

/// The views of the first `n` content records of the TMD `b`.
pub open spec fn content_views(b: Seq<u8>, n: nat) -> Seq<u8>
    decreases n,
{
    if n == 0 {
        Seq::empty()
    } else {
        let start = TMD_HEADER_SIZE + (n - 1) * TMD_CONTENT_SIZE;
        content_views(b, (n - 1) as nat) + b.subrange(start, start + CONTENT_VIEW_SIZE)
    }
}

/// The raw view of the TMD `b` that IOS hands out: the base fields, the
/// title version and content count, then each content record's view.
pub open spec fn tmd_raw_view(b: Seq<u8>) -> Seq<u8> {
    b.subrange(0x180, 0x1d8) + b.subrange(0x1dc, 0x1e0) + content_views(b, tmd_num_contents(b) as nat)
}

/// The TMD `b` holds all the bytes that its raw view is made of.
pub open spec fn tmd_raw_view_fits(b: Seq<u8>) -> bool {
    &&& b.len() >= 0x1e0
    &&& tmd_num_contents(b) > 0 ==> b.len() >= TMD_HEADER_SIZE + (tmd_num_contents(b) - 1)
        * TMD_CONTENT_SIZE + CONTENT_VIEW_SIZE
}

/// Where content record `i` of a TMD starts.
pub open spec fn tmd_record_at(i: int) -> int {
    TMD_HEADER_SIZE + i * TMD_CONTENT_SIZE
}

/// `c` is content record `i` of the TMD `b`: its id, index, type, size and
/// hash, read from where the record starts.
pub open spec fn is_tmd_content_record(c: Content, b: Seq<u8>, i: int) -> bool {
    let o = tmd_record_at(i);
    &&& c.id == seq_be_u32(b, o)
    &&& c.index == seq_be_u16(b, o + 4)
    &&& c.content_type == seq_be_u16(b, o + 6)
    &&& c.size == seq_be_u64(b, o + 8)
    &&& c.sha1@ == b.subrange(o + 0x10, o + 0x24)
}

/// The TMD `b` holds its header and every content record it declares.
pub open spec fn tmd_records_fit(b: Seq<u8>) -> bool {
    &&& b.len() >= TMD_HEADER_SIZE
    &&& b.len() >= tmd_record_at(tmd_num_contents(b) as int)
}

/// The index of the first content record of `b` from `i` on whose id is
/// `id`.
pub open spec fn first_content_with_id(b: Seq<u8>, id: u32, i: int) -> Option<int>
    decreases tmd_num_contents(b) - i,
{
    if i < 0 || i >= tmd_num_contents(b) {
        None
    } else if seq_be_u32(b, tmd_record_at(i)) == id {
        Some(i)
    } else {
        first_content_with_id(b, id, i + 1)
    }
}

/// The record that `first_content_with_id` finds from `i` on is the first
/// there with the id: its id is `id` and no record before it from `i` on
/// has it; when it finds none, no record from `i` on has it.
pub proof fn lemma_first_content_with_id(b: Seq<u8>, id: u32, i: int)
    requires
        0 <= i,
    ensures
        first_content_with_id(b, id, i) matches Some(k) ==> i <= k < tmd_num_contents(b) && seq_be_u32(
            b,
            tmd_record_at(k),
        ) == id && forall|j: int| i <= j < k ==> #[trigger] seq_be_u32(b, tmd_record_at(j)) != id,
        first_content_with_id(b, id, i) is None ==> forall|j: int|
            i <= j < tmd_num_contents(b) ==> #[trigger] seq_be_u32(b, tmd_record_at(j)) != id,
    decreases tmd_num_contents(b) - i,
{
    if i < tmd_num_contents(b) && seq_be_u32(b, tmd_record_at(i)) != id {
        lemma_first_content_with_id(b, id, i + 1);
    }
}

/// The metadata of a title: its header and content records.
#[derive(Debug, Clone)]
pub struct TMDReader {
    bytes: Vec<u8>,
}

impl View for TMDReader {
    type V = Seq<u8>;

    closed spec fn view(&self) -> Seq<u8> {
        self.bytes@
    }
}

impl Default for TMDReader {
    fn default() -> (r: Self)
        ensures
            r@ == Seq::<u8>::empty(),
    {
        TMDReader { bytes: Vec::new() }
    }
}

impl SignedReader for TMDReader {
    open spec fn blob(&self) -> Seq<u8> {
        self@
    }

    fn get_bytes(&self) -> (r: &[u8]) {
        self.bytes.as_slice()
    }

    fn set_bytes(&mut self, bytes: &[u8]) {
        self.bytes = vstd::slice::slice_to_vec(bytes);
    }
}

impl TMDReader {
    pub fn is_valid(&self) -> (r: bool)
        ensures
            r == tmd_valid_spec(self@),
    {
        if !self.is_signature_valid() {
            return false;
        }
        if self.bytes.len() < TMD_HEADER_SIZE {
            // TMD is too small to contain all its base fields.
            return false;
        }
        if self.bytes.len() < TMD_HEADER_SIZE + self.get_num_contents() as usize * TMD_CONTENT_SIZE {
            // TMD is too small to contain all its expected content entries.
            return false;
        }
        true
    }

    pub fn get_num_contents(&self) -> (r: u16)
        requires
            self@.len() >= 0x1e0,
        ensures
            r == tmd_num_contents(self@),
    {
        read_be_u16(self.bytes.as_slice(), 0x1de)
    }

    #[verifier::spinoff_prover]
    pub fn get_raw_view(&self) -> (r: Vec<u8>)
        requires
            tmd_raw_view_fits(self@),
        ensures
            r@ == tmd_raw_view(self@),
    {
        let b = self.bytes.as_slice();
        // Copy the base fields (from tmd_version [inclusive] to access_rights [exclusive]).
        let mut view = vstd::slice::slice_to_vec(vstd::slice::slice_subrange(b, 0x180, 0x1d8));
        // Copy both title_version and num_contents after the base fields.
        let tail = vstd::slice::slice_subrange(b, TITLE_VERSION_OFFSET, 0x1e0);
        let mut j: usize = 0;
        while j < 4
            invariant
                j <= 4,
                b@.len() >= 0x1e0,
                tail@ == b@.subrange(0x1dc, 0x1e0),
                view@ == b@.subrange(0x180, 0x1d8) + tail@.take(j as int),
            decreases 4 - j,
        {
            view.push(tail[j]);
            j = j + 1;
            assert(view@ =~= b@.subrange(0x180, 0x1d8) + tail@.take(j as int));
        }
        let n = self.get_num_contents();
        let ghost prefix = b@.subrange(0x180, 0x1d8) + b@.subrange(0x1dc, 0x1e0);
        assert(view@ =~= prefix + content_views(b@, 0));
        let mut i: u16 = 0;
        while i < n
            invariant
                i <= n,
                n == tmd_num_contents(b@),
                b@ == self@,
                tmd_raw_view_fits(b@),
                view@ == prefix + content_views(b@, i as nat),
            decreases n - i,
        {
            let content_start = TMD_HEADER_SIZE + (i as usize) * TMD_CONTENT_SIZE;
            let record = vstd::slice::slice_subrange(b, content_start, content_start + CONTENT_VIEW_SIZE);
            let mut k: usize = 0;
            let ghost before = view@;
            while k < CONTENT_VIEW_SIZE
                invariant
                    k <= CONTENT_VIEW_SIZE,
                    record@.len() == CONTENT_VIEW_SIZE,
                    view@ == before + record@.take(k as int),
                decreases CONTENT_VIEW_SIZE - k,
            {
                view.push(record[k]);
                k = k + 1;
                assert(view@ =~= before + record@.take(k as int));
            }
            i = i + 1;
            assert(view@ =~= prefix + content_views(b@, i as nat));
        }
        view
    }

    pub fn get_boot_index(&self) -> (r: u16)
        requires
            self@.len() >= 0x1e2,
        ensures
            r == seq_be_u16(self@, 0x1e0),
    {
        read_be_u16(self.bytes.as_slice(), 0x1e0)
    }

    pub fn get_ios_id(&self) -> (r: u64)
        requires
            self@.len() >= 0x18c,
        ensures
            r == seq_be_u64(self@, 0x184),
    {
        read_be_u64(self.bytes.as_slice(), 0x184)
    }

    pub fn get_title_id(&self) -> (r: u64)
        requires
            self@.len() >= 0x194,
        ensures
            r == seq_be_u64(self@, TITLE_ID_OFFSET as int),
    {
        read_be_u64(self.bytes.as_slice(), TITLE_ID_OFFSET)
    }

    pub fn get_title_flags(&self) -> (r: u32)
        requires
            self@.len() >= 0x198,
        ensures
            r == seq_be_u32(self@, 0x194),
    {
        read_be_u32(self.bytes.as_slice(), 0x194)
    }

    pub fn get_title_version(&self) -> (r: u16)
        requires
            self@.len() >= 0x1de,
        ensures
            r == seq_be_u16(self@, TITLE_VERSION_OFFSET as int),
    {
        read_be_u16(self.bytes.as_slice(), TITLE_VERSION_OFFSET)
    }

    pub fn get_group_id(&self) -> (r: u16)
        requires
            self@.len() >= 0x19a,
        ensures
            r == seq_be_u16(self@, GROUP_ID_OFFSET as int),
    {
        read_be_u16(self.bytes.as_slice(), GROUP_ID_OFFSET)
    }

    /// The region of a channel: from the title version for the System Menu,
    /// from the region field for the others; unknown for other titles.
    pub fn get_region(&self) -> (r: Region)
        requires
            self@.len() >= 0x194,
            is_channel_spec(seq_be_u64(self@, TITLE_ID_OFFSET as int)) ==> self@.len() >= 0x1de,
        ensures
            r == ({
                let tid = seq_be_u64(self@, TITLE_ID_OFFSET as int);
                if !is_channel_spec(tid) {
                    Region::Unknown
                } else if tid == SYSTEM_MENU {
                    region_from_code((seq_be_u16(self@, TITLE_VERSION_OFFSET as int) & 0xf) as u32)
                } else {
                    region_from_code(seq_be_u16(self@, 0x1a4) as u32)
                }
            }),
    {
        if !TitleType::is_channel(self.get_title_id()) {
            return Region::Unknown;
        }
        if self.get_title_id() == SYSTEM_MENU {
            return Region::from(self.get_title_version() & 0xf);
        }
        Region::from(read_be_u16(self.bytes.as_slice(), 0x1a4))
    }

    pub fn is_vwii(&self) -> (r: bool)
        requires
            self@.len() > 0x183,
        ensures
            r == (self@[0x183] != 0),
    {
        self.bytes[0x183] != 0
    }

    /// The game id: the last four bytes of the title id and the group id, as
    /// text. Where a NUL byte stands among them, the title id in hexadecimal.
    #[verifier::spinoff_prover]
    pub fn get_game_id(&self) -> (r: Vec<u8>)
        requires
            self@.len() >= 0x19a,
        ensures
            ({
                let id = self@.subrange(0x190, 0x194) + self@.subrange(0x198, 0x19a);
                if forall|i: int| 0 <= i < 6 ==> id[i] != 0 {
                    r@ == id
                } else {
                    r@ == hex_lower(seq_be_u64(self@, TITLE_ID_OFFSET as int) as nat, 16)
                }
            }),
    {
        let b = self.bytes.as_slice();
        let mut game_id: Vec<u8> = vstd::slice::slice_to_vec(vstd::slice::slice_subrange(b, TITLE_ID_OFFSET + 4, TITLE_ID_OFFSET + 8));
        game_id.push(b[GROUP_ID_OFFSET]);
        game_id.push(b[GROUP_ID_OFFSET + 1]);
        let ghost id = self@.subrange(0x190, 0x194) + self@.subrange(0x198, 0x19a);
        assert(game_id@ =~= id);
        match c_string_from_slice(game_id.as_slice()) {
            Ok(s) => s,
            Err(_) => {
                let mut out: Vec<u8> = Vec::new();
                push_hex(&mut out, self.get_title_id(), 16);
                assert(out@ =~= hex_lower(seq_be_u64(self@, TITLE_ID_OFFSET as int) as nat, 16));
                out
            },
        }
    }

    /// The first four bytes of the title id as text. Where a NUL byte stands
    /// among them, the title id in hexadecimal.
    pub fn get_game_tbdid(&self) -> (r: Vec<u8>)
        requires
            self@.len() >= 0x194,
        ensures
            ({
                let id = self@.subrange(0x18c, 0x190);
                if forall|i: int| 0 <= i < 4 ==> id[i] != 0 {
                    r@ == id
                } else {
                    r@ == hex_lower(seq_be_u64(self@, TITLE_ID_OFFSET as int) as nat, 16)
                }
            }),
    {
        let b = self.bytes.as_slice();
        let buf = vstd::slice::slice_subrange(b, TITLE_ID_OFFSET, TITLE_ID_OFFSET + 4);
        match c_string_from_slice(buf) {
            Ok(s) => s,
            Err(_) => {
                let mut out: Vec<u8> = Vec::new();
                push_hex(&mut out, self.get_title_id(), 16);
                assert(out@ =~= hex_lower(seq_be_u64(self@, TITLE_ID_OFFSET as int) as nat, 16));
                out
            },
        }
    }

    /// The content record `index`; none past the declared count. The
    /// record's fields are read from the start of the TMD.
    pub fn get_content(&self, index: u16) -> (r: Option<Content>)
        requires
            self@.len() >= 0x1e0,
            index < tmd_num_contents(self@) ==> tmd_record_at(index + 1) <= self@.len(),
        ensures
            index >= tmd_num_contents(self@) ==> r is None,
            index < tmd_num_contents(self@) ==> (r matches Some(c) && is_tmd_content_record(c, self@, index as int)),
    {
        if index >= self.get_num_contents() {
            return None;
        }
        let b = self.bytes.as_slice();
        let o = TMD_HEADER_SIZE + TMD_CONTENT_SIZE * index as usize;
        let content = Content {
            id: read_be_u32(b, o),
            index: read_be_u16(b, o + 4),
            content_type: read_be_u16(b, o + 6),
            size: read_be_u64(b, o + 8),
            sha1: read_array::<20>(b, o + 0x10),
        };
        Some(content)
    }

    /// One content record per declared content, each read where it starts.
    #[verifier::spinoff_prover]
    pub fn get_contents(&self) -> (r: Vec<Content>)
        requires
            tmd_records_fit(self@),
        ensures
            r@.len() == tmd_num_contents(self@),
            forall|i: int| 0 <= i < r@.len() ==> is_tmd_content_record(#[trigger] r@[i], self@, i),
    {
        let n = self.get_num_contents();
        let mut contents: Vec<Content> = Vec::with_capacity(n as usize);
        let mut i: u16 = 0;
        while i < n
            invariant
                i <= n,
                n == tmd_num_contents(self@),
                tmd_records_fit(self@),
                contents@.len() == i,
                forall|k: int| 0 <= k < contents@.len() ==> is_tmd_content_record(#[trigger] contents@[k], self@, k),
            decreases n - i,
        {
            match self.get_content(i) {
                Some(content) => contents.push(content),
                None => {},
            }
            i = i + 1;
        }
        contents
    }

    /// The first content record with the id `id`.
    #[verifier::spinoff_prover]
    pub fn find_content_by_id(&self, id: u32) -> (r: Option<Content>)
        requires
            tmd_records_fit(self@),
        ensures
            match first_content_with_id(self@, id, 0) {
                Some(i) => r matches Some(c) && is_tmd_content_record(c, self@, i),
                None => r is None,
            },
    {
        let n = self.get_num_contents();
        let mut index: u16 = 0;
        while index < n
            invariant
                index <= n,
                n == tmd_num_contents(self@),
                tmd_records_fit(self@),
                first_content_with_id(self@, id, 0) == first_content_with_id(self@, id, index as int),
            decreases n - index,
        {
            match self.get_content(index) {
                Some(content) => {
                    if content.id == id {
                        return Some(content);
                    }
                },
                None => {},
            }
            index = index + 1;
        }
        None
    }
}


/// Size of a v0 ticket.
pub const TICKET_SIZE: usize = 0x2a4;
/// Offset of the ECDH public key of the ticket server.
pub const TICKET_SERVER_PUBLIC_KEY_OFFSET: usize = 0x180;
/// Offset of the ticket's format version.
pub const TICKET_VERSION_OFFSET: usize = 0x1bc;
/// Offset of the encrypted title key.
pub const TICKET_TITLE_KEY_OFFSET: usize = 0x1bf;
/// Offset of the ticket id.
pub const TICKET_ID_OFFSET: usize = 0x1d0;
/// Offset of the console id.
pub const TICKET_DEVICE_ID_OFFSET: usize = 0x1d8;
/// Offset of the title id.
pub const TICKET_TITLE_ID_OFFSET: usize = 0x1dc;
/// Offset of the common key index.
pub const TICKET_COMMON_KEY_INDEX_OFFSET: usize = 0x1f1;
/// Offset of the size field of a v1 ticket.
pub const V1_TICKET_SIZE_OFFSET: usize = 0x2a8;

/// The ticket `b` is a v1 ticket.
pub open spec fn is_v1_spec(b: Seq<u8>) -> bool {
    b[TICKET_VERSION_OFFSET as int] == 1
}

/// Size of one ticket of `b`.
pub open spec fn ticket_size_spec(b: Seq<u8>) -> int {
    if is_v1_spec(b) {
        seq_be_u32(b, V1_TICKET_SIZE_OFFSET as int) + TICKET_SIZE
    } else {
        TICKET_SIZE as int
    }
}

/// The version and, for v1 tickets, the size field are there, and the size
/// fits in 32 bits.
pub open spec fn ticket_size_readable(b: Seq<u8>) -> bool {
    &&& b.len() > TICKET_VERSION_OFFSET
    &&& is_v1_spec(b) ==> b.len() >= V1_TICKET_SIZE_OFFSET + 4 && ticket_size_spec(b) <= u32::MAX
}

/// Number of tickets in `b`.
pub open spec fn number_of_tickets_spec(b: Seq<u8>) -> int {
    if is_v1_spec(b) {
        1
    } else {
        b.len() as int / (TICKET_SIZE as int)
    }
}

/// All the tickets of `b` are there.
pub open spec fn tickets_readable(b: Seq<u8>) -> bool {
    &&& ticket_size_readable(b)
    &&& b.len() >= ticket_size_spec(b) * number_of_tickets_spec(b)
}

/// The ticket is signed and made of whole tickets.
pub open spec fn ticket_valid_spec(b: Seq<u8>) -> bool {
    &&& signature_valid_spec(b)
    &&& b.len() != 0
    &&& if is_v1_spec(b) {
        b.len() == ticket_size_spec(b)
    } else {
        b.len() as int % (TICKET_SIZE as int) == 0
    }
}

/// Ticket `i` of `b`.
pub open spec fn ticket_at(b: Seq<u8>, i: int) -> Seq<u8> {
    b.subrange(ticket_size_spec(b) * i, ticket_size_spec(b) * i + ticket_size_spec(b))
}

/// Id of ticket `i` of `b`.
pub open spec fn ticket_id_at(b: Seq<u8>, i: int) -> u64 {
    seq_be_u64(b, ticket_size_spec(b) * i + TICKET_ID_OFFSET)
}

/// The first of tickets `i..` of `b` with the id `id`; empty when none has.
pub open spec fn find_ticket(b: Seq<u8>, id: u64, i: int) -> Seq<u8>
    decreases number_of_tickets_spec(b) - i,
{
    if i < 0 || i >= number_of_tickets_spec(b) {
        Seq::empty()
    } else if ticket_id_at(b, i) == id {
        ticket_at(b, i)
    } else {
        find_ticket(b, id, i + 1)
    }
}

/// The first `n` tickets of `b`, but those with the id `id`.
pub open spec fn kept_tickets(b: Seq<u8>, id: u64, n: int) -> Seq<u8>
    decreases n,
{
    if n <= 0 {
        Seq::empty()
    } else if ticket_id_at(b, n - 1) != id {
        kept_tickets(b, id, n - 1) + ticket_at(b, n - 1)
    } else {
        kept_tickets(b, id, n - 1)
    }
}

/// Process id of the ES module of IOS.
pub const PID_ES: u32 = 1;
/// Process id of the file-system module of IOS.
pub const PID_FS: u32 = 2;

/// Handle of the common key with the given index; index 0 past the known ones.
pub open spec fn common_key_handle(index: u8) -> u32 {
    if index == 1 {
        11
    } else {
        4
    }
}

/// The IV of a title key: the title id, then eight zero bytes.
pub open spec fn title_key_iv(b: Seq<u8>) -> Seq<u8> {
    b.subrange(TICKET_TITLE_ID_OFFSET as int, TICKET_TITLE_ID_OFFSET + 8) + Seq::new(8, |_i: int| 0u8)
}

/// The encrypted title key of the ticket `b`.
pub open spec fn encrypted_title_key(b: Seq<u8>) -> Seq<u8> {
    b.subrange(TICKET_TITLE_KEY_OFFSET as int, TICKET_TITLE_KEY_OFFSET + 16)
}

/// The title key that the engine `v` decrypts from the ticket `b`; the
/// encrypted key itself where the engine refuses.
pub open spec fn title_key_spec(v: IoscView, b: Seq<u8>) -> Seq<u8> {
    match crypt_result(
        v,
        false,
        common_key_handle(b[TICKET_COMMON_KEY_INDEX_OFFSET as int]),
        title_key_iv(b),
        encrypted_title_key(b),
        PID_ES,
    ) {
        Ok(key) => key,
        Err(_) => encrypted_title_key(b),
    }
}

/// The common key of a ticket on a fresh engine of the console kind `ct`:
/// the Korean common key for index 1, otherwise the console kind's common
/// key (retail or development).
pub open spec fn ticket_common_key(index: u8, ct: ConsoleType) -> Seq<u8> {
    if index == 1 {
        NEW_COMMON_KEY@
    } else if ct == ConsoleType::Retail {
        COMMON_KEY_RETAIL@
    } else {
        COMMON_KEY_RVT@
    }
}

/// On a fresh engine the title key of a ticket is its encrypted title key
/// decrypted with AES-128-CBC under the common key that its index names
/// (the Korean common key for index 1, the console kind's common key
/// otherwise), with the title id (bytes 0x1DC to 0x1E4) and eight zero bytes
/// as IV; the encrypted key is bytes 0x1BF to 0x1CF and the index byte 0x1F1.
pub proof fn lemma_title_key_fresh_engine(v: IoscView, ct: ConsoleType, b: Seq<u8>)
    requires
        default_state(v, ct),
        b.len() > 0x1f1,
    ensures
        title_key_spec(v, b) == aes128_cbc_decrypt(
            ticket_common_key(b[0x1f1], ct),
            b.subrange(0x1dc, 0x1e4) + Seq::new(8, |_i: int| 0u8),
            b.subrange(0x1bf, 0x1cf),
        ),
{
    assert(title_key_iv(b) =~= b.subrange(0x1dc, 0x1e4) + Seq::new(8, |_i: int| 0u8));
    assert(encrypted_title_key(b) =~= b.subrange(0x1bf, 0x1cf));
    let idx = b[TICKET_COMMON_KEY_INDEX_OFFSET as int];
    let h = common_key_handle(idx);
    assert(v.entries[h as int] == default_entry(ct, h as int));
    assert((1u32 << 1u32) & 3u32 != 0u32) by (bit_vector);
    let input = encrypted_title_key(b);
    assert(input.len() == 16);
    assert(input.take(16) =~= input);
    let d = aes128_cbc_decrypt(ticket_common_key(idx, ct), title_key_iv(b), input);
    assert(d + input.skip(16) =~= d);
}

/// A ticket whose common-key index is unknown (neither 0 nor 1) gets the
/// title key that the first common key gives, as if its index were 0.
pub proof fn lemma_title_key_unknown_index(v: IoscView, b: Seq<u8>)
    requires
        b.len() > TICKET_COMMON_KEY_INDEX_OFFSET,
        b[TICKET_COMMON_KEY_INDEX_OFFSET as int] > 1,
    ensures
        title_key_spec(v, b) == title_key_spec(v, b.update(TICKET_COMMON_KEY_INDEX_OFFSET as int, 0)),
{
    let b0 = b.update(TICKET_COMMON_KEY_INDEX_OFFSET as int, 0);
    assert(title_key_iv(b) =~= title_key_iv(b0));
    assert(encrypted_title_key(b) =~= encrypted_title_key(b0));
}

/// `Root-CA00000002-XS00000006`: the issuer of the tickets of development
/// consoles.
pub const RVT_TICKET_ISSUER: [u8; 26] = [
    0x52, 0x6f, 0x6f, 0x74, 0x2d, 0x43, 0x41, 0x30, 0x30, 0x30, 0x30, 0x30, 0x30, 0x30, 0x32, 0x2d,
    0x58, 0x53, 0x30, 0x30, 0x30, 0x30, 0x30, 0x30, 0x30, 0x36,
];

/// The issuer of the blob `b` (see `SignedReader::get_issuer`).
pub open spec fn issuer_spec(b: Seq<u8>) -> Seq<u8> {
    c_str_bytes(b.skip(issuer_offset(signature_type_of(b)) as int))
}

/// The issuer of the blob `b` can be read.
pub open spec fn issuer_readable(b: Seq<u8>) -> bool {
    b.len() >= 4 && issuer_offset(signature_type_of(b)) <= b.len()
}

/// The kind of console that the ticket `b` was issued for.
pub open spec fn console_type_spec(b: Seq<u8>) -> ConsoleType {
    if issuer_spec(b) == RVT_TICKET_ISSUER@ {
        ConsoleType::RVT
    } else {
        ConsoleType::Retail
    }
}

/// One or more tickets of a title.
#[derive(Debug, Clone)]
pub struct TicketReader {
    bytes: Vec<u8>,
}

impl View for TicketReader {
    type V = Seq<u8>;

    closed spec fn view(&self) -> Seq<u8> {
        self.bytes@
    }
}

impl Default for TicketReader {
    fn default() -> (r: Self)
        ensures
            r@ == Seq::<u8>::empty(),
    {
        TicketReader { bytes: Vec::new() }
    }
}

impl SignedReader for TicketReader {
    open spec fn blob(&self) -> Seq<u8> {
        self@
    }

    fn get_bytes(&self) -> (r: &[u8]) {
        self.bytes.as_slice()
    }

    fn set_bytes(&mut self, bytes: &[u8]) {
        self.bytes = vstd::slice::slice_to_vec(bytes);
    }
}

proof fn lemma_ticket_bounds(b: Seq<u8>, i: int)
    requires
        tickets_readable(b),
        0 <= i < number_of_tickets_spec(b),
    ensures
        0 <= ticket_size_spec(b) * i,
        ticket_size_spec(b) * i + ticket_size_spec(b) <= b.len(),
        TICKET_SIZE <= ticket_size_spec(b),
{
    let s = ticket_size_spec(b);
    let n = number_of_tickets_spec(b);
    assert(s >= TICKET_SIZE);
    assert(0 <= s * i) by (nonlinear_arith)
        requires s >= 0, i >= 0;
    assert(s * i + s <= s * n) by (nonlinear_arith)
        requires s >= 0, i + 1 <= n;
}

impl TicketReader {
    pub fn is_valid(&self) -> (r: bool)
        requires
            signature_valid_spec(self@) ==> ticket_size_readable(self@),
        ensures
            r == ticket_valid_spec(self@),
    {
        if !self.is_signature_valid() || self.bytes.len() == 0 {
            return false;
        }
        if self.is_v1_ticket() {
            return self.bytes.len() == self.get_ticket_size() as usize;
        }
        self.bytes.len() % TICKET_SIZE == 0
    }

    /// Version can only be 0 or 1.
    pub fn is_v1_ticket(&self) -> (r: bool)
        requires
            self@.len() > TICKET_VERSION_OFFSET,
        ensures
            r == is_v1_spec(self@),
    {
        self.get_version() == 1
    }

    pub fn get_number_of_tickets(&self) -> (r: usize)
        requires
            self@.len() > TICKET_VERSION_OFFSET,
        ensures
            r == number_of_tickets_spec(self@),
    {
        if self.is_v1_ticket() {
            return 1;
        }
        self.bytes.len() / TICKET_SIZE
    }

    pub fn get_ticket_size(&self) -> (r: u32)
        requires
            ticket_size_readable(self@),
        ensures
            r == ticket_size_spec(self@),
    {
        if self.is_v1_ticket() {
            return read_be_u32(self.bytes.as_slice(), V1_TICKET_SIZE_OFFSET) + TICKET_SIZE as u32;
        }
        TICKET_SIZE as u32
    }

    /// The ticket with the id `ticket_id_to_find`; empty when there is none.
    #[verifier::spinoff_prover]
    pub fn get_raw_ticket(&self, ticket_id_to_find: u64) -> (r: Vec<u8>)
        requires
            tickets_readable(self@),
        ensures
            r@ == find_ticket(self@, ticket_id_to_find, 0),
    {
        let n = self.get_number_of_tickets();
        let size = self.get_ticket_size() as usize;
        let len = self.bytes.len();
        let mut i: usize = 0;
        while i < n
            invariant
                i <= n,
                len == self@.len(),
                n == number_of_tickets_spec(self@),
                size == ticket_size_spec(self@),
                tickets_readable(self@),
                find_ticket(self@, ticket_id_to_find, 0) == find_ticket(self@, ticket_id_to_find, i as int),
            decreases n - i,
        {
            proof {
                lemma_ticket_bounds(self@, i as int);
            }
            let ticket_begin = size * i;
            let ticket_id = read_be_u64(self.bytes.as_slice(), ticket_begin + TICKET_ID_OFFSET);
            if ticket_id == ticket_id_to_find {
                return vstd::slice::slice_to_vec(
                    vstd::slice::slice_subrange(self.bytes.as_slice(), ticket_begin, ticket_begin + size),
                );
            }
            i = i + 1;
        }
        Vec::new()
    }

    /// The view of ticket `ticket_num`: the version, three zero bytes and the
    /// ticket from its id on.
    #[verifier::spinoff_prover]
    pub fn get_raw_ticket_view(&self, ticket_num: u32) -> (r: Vec<u8>)
        requires
            self@.len() > TICKET_VERSION_OFFSET,
            TICKET_SIZE * ticket_num + TICKET_ID_OFFSET + (TICKET_VIEW_SIZE - 4) <= self@.len(),
        ensures
            r@ == seq![self@[TICKET_VERSION_OFFSET as int], 0u8, 0u8, 0u8] + self@.subrange(
                TICKET_SIZE * ticket_num + TICKET_ID_OFFSET,
                TICKET_SIZE * ticket_num + TICKET_ID_OFFSET + (TICKET_VIEW_SIZE - 4),
            ),
    {
        let len = self.bytes.len();
        assert(len == self@.len());
        let ticket_start = TICKET_SIZE * ticket_num as usize;
        let view_start = ticket_start + TICKET_ID_OFFSET;
        let mut view: Vec<u8> = vec![0u8; 4];
        view.set(0, self.get_version());
        let rest = vstd::slice::slice_subrange(self.bytes.as_slice(), view_start, view_start + (TICKET_VIEW_SIZE - 4));
        let mut k: usize = 0;
        let ghost head = view@;
        while k < TICKET_VIEW_SIZE - 4
            invariant
                k <= TICKET_VIEW_SIZE - 4,
                rest@.len() == TICKET_VIEW_SIZE - 4,
                view@ == head + rest@.take(k as int),
            decreases TICKET_VIEW_SIZE - 4 - k,
        {
            view.push(rest[k]);
            k = k + 1;
            assert(view@ =~= head + rest@.take(k as int));
        }
        assert(head =~= seq![self@[TICKET_VERSION_OFFSET as int], 0u8, 0u8, 0u8]);
        view
    }

    pub fn get_version(&self) -> (r: u8)
        requires
            self@.len() > TICKET_VERSION_OFFSET,
        ensures
            r == self@[TICKET_VERSION_OFFSET as int],
    {
        self.bytes[TICKET_VERSION_OFFSET]
    }

    pub fn get_device_id(&self) -> (r: u32)
        requires
            self@.len() >= TICKET_DEVICE_ID_OFFSET + 4,
        ensures
            r == seq_be_u32(self@, TICKET_DEVICE_ID_OFFSET as int),
    {
        read_be_u32(self.bytes.as_slice(), TICKET_DEVICE_ID_OFFSET)
    }

    pub fn get_title_id(&self) -> (r: u64)
        requires
            self@.len() >= TICKET_TITLE_ID_OFFSET + 8,
        ensures
            r == seq_be_u64(self@, TICKET_TITLE_ID_OFFSET as int),
    {
        read_be_u64(self.bytes.as_slice(), TICKET_TITLE_ID_OFFSET)
    }

    pub fn get_common_key_index(&self) -> (r: u8)
        requires
            self@.len() > TICKET_COMMON_KEY_INDEX_OFFSET,
        ensures
            r == self@[TICKET_COMMON_KEY_INDEX_OFFSET as int],
    {
        self.bytes[TICKET_COMMON_KEY_INDEX_OFFSET]
    }

    /// The kind of console the ticket was issued for: development consoles
    /// by `Root-CA00000002-XS00000006`, retail consoles otherwise.
    #[verifier::spinoff_prover]
    pub fn get_console_type(&self) -> (r: ConsoleType)
        requires
            issuer_readable(self@),
        ensures
            r == console_type_spec(self@),
    {
        match self.get_issuer() {
            Some(issuer) => if bytes_eq(issuer.as_slice(), RVT_TICKET_ISSUER.as_slice()) {
                ConsoleType::RVT
            } else {
                ConsoleType::Retail
            },
            None => ConsoleType::Retail,
        }
    }

    /// The title key as the engine `engine` decrypts it.
    #[verifier::spinoff_prover]
    fn title_key_with(&self, engine: &Iosc) -> (r: [u8; 16])
        requires
            self@.len() > TICKET_COMMON_KEY_INDEX_OFFSET,
        ensures
            r@ == title_key_spec(engine@, self@),
    {
        let b = self.bytes.as_slice();
        let mut iv = [0u8; 16];
        let mut k: usize = 0;
        while k < 8
            invariant
                k <= 8,
                b@.len() > TICKET_COMMON_KEY_INDEX_OFFSET,
                iv@.len() == 16,
                forall|j: int| 0 <= j < k ==> iv@[j] == b@[TICKET_TITLE_ID_OFFSET + j],
                forall|j: int| 8 <= j < 16 ==> iv@[j] == 0u8,
            decreases 8 - k,
        {
            iv.set(k, b[TICKET_TITLE_ID_OFFSET + k]);
            k = k + 1;
        }
        assert(iv@ =~= title_key_iv(b@));
        let index = self.get_common_key_index();
        let common_key = if index == 1 {
            DefaultHandle::HandleNewCommonKey
        } else {
            DefaultHandle::HandleCommonKey
        };
        let encrypted = vstd::slice::slice_subrange(b, TICKET_TITLE_KEY_OFFSET, TICKET_TITLE_KEY_OFFSET + 16);
        assert(encrypted@ =~= encrypted_title_key(b@));
        let mut output = read_array::<16>(encrypted, 0);
        assert(output@ =~= encrypted_title_key(b@));
        let handle = common_key.handle();
        assert(handle.id() == common_key_handle(self@[TICKET_COMMON_KEY_INDEX_OFFSET as int]));
        let decrypted = engine.decrypt(handle, iv.as_slice(), encrypted, PID_ES);
        match decrypted {
            Ok(data) => {
                output = read_array::<16>(data.as_slice(), 0);
                assert(output@ =~= data@);
            },
            Err(_) => {},
        }
        output
    }

    /// The title key, decrypted with the common key that the ticket names
    /// (the first one when the index is unknown), by `iosc` or by a fresh
    /// engine for the ticket's console kind. Where the engine refuses, the
    /// encrypted key.
    pub fn get_title_key(&self, iosc: Option<&Iosc>) -> (r: [u8; 16])
        requires
            self@.len() > TICKET_COMMON_KEY_INDEX_OFFSET,
            iosc is None ==> issuer_readable(self@),
        ensures
            match iosc {
                Some(i) => r@ == title_key_spec(i@, self@),
                None => exists|v: IoscView| default_state(v, console_type_spec(self@)) && r@
                    == title_key_spec(v, self@),
            },
    {
        match iosc {
            Some(engine) => self.title_key_with(engine),
            None => {
                let engine = Iosc::new(self.get_console_type());
                self.title_key_with(&engine)
            },
        }
    }

    /// Removes the tickets with the id `ticket_id_to_delete`.
    #[verifier::spinoff_prover]
    pub fn delete_ticket(&mut self, ticket_id_to_delete: u64)
        requires
            tickets_readable(old(self)@),
        ensures
            final(self)@ == kept_tickets(
                old(self)@,
                ticket_id_to_delete,
                number_of_tickets_spec(old(self)@),
            ),
    {
        let mut new_ticket: Vec<u8> = Vec::new();
        let num_tickets = self.get_number_of_tickets();
        let size = self.get_ticket_size() as usize;
        let len = self.bytes.len();
        let mut i: usize = 0;
        while i < num_tickets
            invariant
                i <= num_tickets,
                len == self@.len(),
                num_tickets == number_of_tickets_spec(self@),
                size == ticket_size_spec(self@),
                tickets_readable(self@),
                new_ticket@ == kept_tickets(self@, ticket_id_to_delete, i as int),
            decreases num_tickets - i,
        {
            proof {
                lemma_ticket_bounds(self@, i as int);
            }
            let ticket_start = size * i;
            let ticket_id = read_be_u64(self.bytes.as_slice(), ticket_start + TICKET_ID_OFFSET);
            if ticket_id != ticket_id_to_delete {
                let t = vstd::slice::slice_subrange(self.bytes.as_slice(), ticket_start, ticket_start + size);
                let mut k: usize = 0;
                let ghost before = new_ticket@;
                while k < size
                    invariant
                        k <= size,
                        t@.len() == size,
                        new_ticket@ == before + t@.take(k as int),
                    decreases size - k,
                {
                    new_ticket.push(t[k]);
                    k = k + 1;
                    assert(new_ticket@ =~= before + t@.take(k as int));
                }
                assert(t@.take(size as int) =~= t@);
            }
            i = i + 1;
        }
        self.set_bytes(new_ticket.as_slice());
    }

    pub fn overwrite_common_key_index(&mut self, index: u8)
        requires
            old(self)@.len() > TICKET_COMMON_KEY_INDEX_OFFSET,
        ensures
            final(self)@ == old(self)@.update(TICKET_COMMON_KEY_INDEX_OFFSET as int, index),
    {
        self.bytes.set(TICKET_COMMON_KEY_INDEX_OFFSET, index);
    }
}


/// Size of the signature block of the certificate `b`; zero for an unknown
/// kind of signature.
pub open spec fn cert_signature_size(b: Seq<u8>) -> int {
    match signature_type_of(b) {
        Some(t) => signature_block_size(t) as int,
        None => 0,
    }
}

/// Kind of the public key that the certificate `b` holds.
pub open spec fn cert_public_key_type(b: Seq<u8>) -> Result<PublicKeyType, u32> {
    public_key_type_from(seq_be_u32(b, cert_signature_size(b)))
}

/// Size of the certificate that `b` starts with, by its kinds of signature
/// and key; none for other kinds or when `b` is too short.
pub open spec fn cert_size_spec(b: Seq<u8>) -> Option<int> {
    let st = signature_type_of(b);
    if b.len() >= CERT_RSA4096_RSA2048_SIZE && st == Some(SignatureType::RSA4096)
        && cert_public_key_type(b) == Ok::<PublicKeyType, u32>(PublicKeyType::RSA2048) {
        Some(CERT_RSA4096_RSA2048_SIZE as int)
    } else if b.len() >= CERT_RSA2048_RSA2048_SIZE && st == Some(SignatureType::RSA2048)
        && cert_public_key_type(b) == Ok::<PublicKeyType, u32>(PublicKeyType::RSA2048) {
        Some(CERT_RSA2048_RSA2048_SIZE as int)
    } else if b.len() >= CERT_RSA2048_ECC_SIZE && st == Some(SignatureType::RSA2048)
        && cert_public_key_type(b) == Ok::<PublicKeyType, u32>(PublicKeyType::ECC) {
        Some(CERT_RSA2048_ECC_SIZE as int)
    } else if b.len() >= CERT_ECC_SIZE && st == Some(SignatureType::ECC) && cert_public_key_type(b)
        == Ok::<PublicKeyType, u32>(PublicKeyType::ECC) {
        Some(CERT_ECC_SIZE as int)
    } else {
        None
    }
}

/// The certificate that `b` starts with, cut to its size.
pub open spec fn parse_cert_spec(b: Seq<u8>) -> Option<Seq<u8>> {
    if !signature_valid_spec(b) {
        None
    } else {
        match cert_size_spec(b) {
            Some(n) => Some(b.take(n)),
            None => None,
        }
    }
}

/// The name field of the certificate `b`.
pub open spec fn cert_name_field(b: Seq<u8>) -> Seq<u8> {
    b.subrange(cert_signature_size(b) + 4, cert_signature_size(b) + 0x44)
}

/// The name of the certificate `b` as `get_name` reads it: the name field
/// when it holds no NUL byte, else empty.
pub open spec fn cert_name_spec(b: Seq<u8>) -> Seq<u8> {
    if forall|i: int| 0 <= i < 0x40 ==> cert_name_field(b)[i] != 0 {
        cert_name_field(b)
    } else {
        Seq::empty()
    }
}

/// The public key of the certificate `b`.
pub open spec fn cert_public_key_spec(b: Seq<u8>) -> Option<Seq<u8>> {
    match signature_type_of(b) {
        Some(SignatureType::RSA4096) => Some(
            b.subrange(
                (SIGNATURE_RSA4096_SIZE + CERT_HEADER_SIZE) as int,
                (SIGNATURE_RSA4096_SIZE + CERT_HEADER_SIZE + RSA2048_PUBLIC_KEY_SIZE) as int,
            ),
        ),
        Some(SignatureType::RSA2048) => {
            let size = if cert_public_key_type(b) == Ok::<PublicKeyType, u32>(PublicKeyType::RSA2048) {
                RSA2048_PUBLIC_KEY_SIZE
            } else {
                ECC_PUBLIC_KEY_SIZE
            };
            Some(
                b.subrange(
                    (SIGNATURE_RSA2048_SIZE + CERT_HEADER_SIZE) as int,
                    (SIGNATURE_RSA2048_SIZE + CERT_HEADER_SIZE + size) as int,
                ),
            )
        },
        Some(SignatureType::ECC) => Some(
            b.subrange(
                (SIGNATURE_ECC_SIZE + CERT_HEADER_SIZE) as int,
                (SIGNATURE_ECC_SIZE + CERT_HEADER_SIZE + ECC_PUBLIC_KEY_SIZE) as int,
            ),
        ),
        None => None,
    }
}

/// The public key of the certificate `b` is there.
pub open spec fn cert_public_key_readable(b: Seq<u8>) -> bool {
    &&& b.len() >= 4
    &&& signature_type_of(b) == Some(SignatureType::RSA4096) ==> b.len() >= SIGNATURE_RSA4096_SIZE
        + CERT_HEADER_SIZE + RSA2048_PUBLIC_KEY_SIZE
    &&& signature_type_of(b) == Some(SignatureType::RSA2048) ==> b.len() >= SIGNATURE_RSA2048_SIZE
        + CERT_HEADER_SIZE + RSA2048_PUBLIC_KEY_SIZE || (b.len() >= SIGNATURE_RSA2048_SIZE + 4
        && cert_public_key_type(b) != Ok::<PublicKeyType, u32>(PublicKeyType::RSA2048) && b.len()
        >= SIGNATURE_RSA2048_SIZE + CERT_HEADER_SIZE + ECC_PUBLIC_KEY_SIZE)
    &&& signature_type_of(b) == Some(SignatureType::ECC) ==> b.len() >= SIGNATURE_ECC_SIZE
        + CERT_HEADER_SIZE + ECC_PUBLIC_KEY_SIZE
}

/// A certificate.
#[derive(Debug, Clone)]
pub struct CertReader {
    bytes: Vec<u8>,
}

impl View for CertReader {
    type V = Seq<u8>;

    closed spec fn view(&self) -> Seq<u8> {
        self.bytes@
    }
}

impl Default for CertReader {
    fn default() -> (r: Self)
        ensures
            r@ == Seq::<u8>::empty(),
    {
        CertReader { bytes: Vec::new() }
    }
}

impl SignedReader for CertReader {
    open spec fn blob(&self) -> Seq<u8> {
        self@
    }

    fn get_bytes(&self) -> (r: &[u8]) {
        self.bytes.as_slice()
    }

    fn set_bytes(&mut self, bytes: &[u8]) {
        self.bytes = vstd::slice::slice_to_vec(bytes);
    }
}

/// A parsed certificate holds its header and public key.
pub proof fn lemma_parsed_cert_readable(b: Seq<u8>)
    requires
        parse_cert_spec(b) is Some,
    ensures
        ({
            let c = parse_cert_spec(b).unwrap();
            &&& c.len() >= CERT_ECC_SIZE
            &&& signature_type_of(c) == signature_type_of(b)
            &&& cert_signature_size(c) == cert_signature_size(b)
            &&& cert_public_key_type(c) == cert_public_key_type(b)
            &&& c.len() >= 4 && cert_signature_size(c) + CERT_HEADER_SIZE <= c.len()
            &&& cert_public_key_readable(c)
            &&& cert_public_key_spec(c) == cert_public_key_spec(b)
            &&& cert_name_spec(c) == cert_name_spec(b)
        }),
{
    let c = parse_cert_spec(b).unwrap();
    let n = cert_size_spec(b).unwrap();
    assert(c.subrange(0, 4) =~= b.subrange(0, 4));
    assert(seq_be_u32(c, 0) == seq_be_u32(b, 0));
    let off = cert_signature_size(b);
    assert(seq_be_u32(c, off) == seq_be_u32(b, off));
    assert(cert_name_field(c) =~= cert_name_field(b));
    assert(cert_public_key_spec(c) =~= cert_public_key_spec(b)) by {
        match signature_type_of(b) {
            Some(SignatureType::RSA2048) => {
                if cert_public_key_type(b) == Ok::<PublicKeyType, u32>(PublicKeyType::RSA2048) {
                    assert(c.subrange(0x1c8, 0x2c8) =~= b.subrange(0x1c8, 0x2c8));
                } else {
                    assert(c.subrange(0x1c8, 0x204) =~= b.subrange(0x1c8, 0x204));
                }
            },
            Some(SignatureType::RSA4096) => {
                assert(c.subrange(0x2c8, 0x3c8) =~= b.subrange(0x2c8, 0x3c8));
            },
            Some(SignatureType::ECC) => {
                assert(c.subrange(0x108, 0x144) =~= b.subrange(0x108, 0x144));
            },
            None => {},
        }
    }
}

impl CertReader {
    /// The certificate that `bytes` starts with, cut to its size; none when
    /// the kinds of its signature and key make no known certificate or the
    /// bytes are too few.
    #[verifier::spinoff_prover]
    pub fn parse(bytes: Vec<u8>) -> (r: Option<Self>)
        ensures
            match parse_cert_spec(bytes@) {
                Some(c) => r matches Some(cert) && cert@ == c,
                None => r is None,
            },
    {
        let mut this = CertReader { bytes };
        if !this.is_signature_valid() {
            return None;
        }
        let len = this.bytes.len();
        let st = this.get_signature_type();
        let size: usize = if len >= CERT_RSA4096_RSA2048_SIZE && st == Some(SignatureType::RSA4096)
            && matches!(this.get_public_key_type(), Ok(PublicKeyType::RSA2048)) {
            CERT_RSA4096_RSA2048_SIZE
        } else if len >= CERT_RSA2048_RSA2048_SIZE && st == Some(SignatureType::RSA2048)
            && matches!(this.get_public_key_type(), Ok(PublicKeyType::RSA2048)) {
            CERT_RSA2048_RSA2048_SIZE
        } else if len >= CERT_RSA2048_ECC_SIZE && st == Some(SignatureType::RSA2048)
            && matches!(this.get_public_key_type(), Ok(PublicKeyType::ECC)) {
            CERT_RSA2048_ECC_SIZE
        } else if len >= CERT_ECC_SIZE && st == Some(SignatureType::ECC) && matches!(this.get_public_key_type(), Ok(PublicKeyType::ECC)) {
            CERT_ECC_SIZE
        } else {
            return None;
        };
        this.bytes.truncate(size);
        assert(this.bytes@ =~= bytes@.take(size as int));
        Some(this)
    }

    pub fn get_id(&self) -> (r: u32)
        requires
            self@.len() >= 4,
            cert_signature_size(self@) + CERT_HEADER_SIZE <= self@.len(),
        ensures
            r == seq_be_u32(self@, cert_signature_size(self@) + 0x44),
    {
        let offset = match self.get_signature_size() {
            Some(s) => s,
            None => 0,
        } + 0x44;
        read_be_u32(self.bytes.as_slice(), offset)
    }

    /// The name of the certificate; empty when its 64-byte field holds a
    /// NUL byte, for the field is read as a string without one.
    pub fn get_name(&self) -> (r: Vec<u8>)
        requires
            self@.len() >= 4,
            cert_signature_size(self@) + 0x44 <= self@.len(),
        ensures
            r@ == cert_name_spec(self@),
    {
        let offset = match self.get_signature_size() {
            Some(s) => s,
            None => 0,
        } + 4;
        let name_slice = vstd::slice::slice_subrange(self.bytes.as_slice(), offset, offset + 0x40);
        assert(name_slice@ =~= cert_name_field(self@));
        match c_string_from_slice(name_slice) {
            Ok(s) => s,
            Err(_) => Vec::new(),
        }
    }

    pub fn get_public_key_type(&self) -> (r: Result<PublicKeyType, u32>)
        requires
            self@.len() >= 4,
            cert_signature_size(self@) + 4 <= self@.len(),
        ensures
            r == cert_public_key_type(self@),
    {
        let offset = match self.get_signature_size() {
            Some(s) => s,
            None => 0,
        };
        PublicKeyType::try_from_value(read_be_u32(self.bytes.as_slice(), offset))
    }

    pub fn get_public_key(&self) -> (r: Option<Vec<u8>>)
        requires
            cert_public_key_readable(self@),
        ensures
            match cert_public_key_spec(self@) {
                Some(k) => r matches Some(v) && v@ == k,
                None => r is None,
            },
    {
        let b = self.bytes.as_slice();
        match self.get_signature_type() {
            Some(SignatureType::RSA4096) => Some(
                vstd::slice::slice_to_vec(
                    vstd::slice::slice_subrange(
                        b,
                        SIGNATURE_RSA4096_SIZE + CERT_HEADER_SIZE,
                        SIGNATURE_RSA4096_SIZE + CERT_HEADER_SIZE + RSA2048_PUBLIC_KEY_SIZE,
                    ),
                ),
            ),
            Some(SignatureType::RSA2048) => {
                let public_key_size = if b.len() >= SIGNATURE_RSA2048_SIZE + CERT_HEADER_SIZE + RSA2048_PUBLIC_KEY_SIZE {
                    if matches!(self.get_public_key_type(), Ok(PublicKeyType::RSA2048)) {
                        RSA2048_PUBLIC_KEY_SIZE
                    } else {
                        ECC_PUBLIC_KEY_SIZE
                    }
                } else {
                    ECC_PUBLIC_KEY_SIZE
                };
                Some(
                    vstd::slice::slice_to_vec(
                        vstd::slice::slice_subrange(
                            b,
                            SIGNATURE_RSA2048_SIZE + CERT_HEADER_SIZE,
                            SIGNATURE_RSA2048_SIZE + CERT_HEADER_SIZE + public_key_size,
                        ),
                    ),
                )
            },
            Some(SignatureType::ECC) => Some(
                vstd::slice::slice_to_vec(
                    vstd::slice::slice_subrange(
                        b,
                        SIGNATURE_ECC_SIZE + CERT_HEADER_SIZE,
                        SIGNATURE_ECC_SIZE + CERT_HEADER_SIZE + ECC_PUBLIC_KEY_SIZE,
                    ),
                ),
            ),
            None => None,
        }
    }
}


/// The certificates of the chain `chain`, by name, added to `acc`: each
/// certificate in turn, a later one replacing an earlier one of the same
/// name, until the bytes left are no certificate.
pub open spec fn cert_chain_spec(chain: Seq<u8>, acc: Map<Seq<u8>, Seq<u8>>) -> Map<Seq<u8>, Seq<u8>>
    decreases chain.len(),
{
    match parse_cert_spec(chain) {
        Some(c) => if 0 < c.len() <= chain.len() {
            cert_chain_spec(chain.skip(c.len() as int), acc.insert(cert_name_spec(c), c))
        } else {
            acc
        },
        None => acc,
    }
}

/// The certificates of a list of named certificates, by name.
pub open spec fn named_certs_map(v: Seq<(Vec<u8>, CertReader)>) -> Map<Seq<u8>, Seq<u8>>
    decreases v.len(),
{
    if v.len() == 0 {
        Map::empty()
    } else {
        named_certs_map(v.drop_last()).insert(v.last().0@, v.last().1@)
    }
}

/// No two certificates of the list share a name.
pub open spec fn names_unique(v: Seq<(Vec<u8>, CertReader)>) -> bool {
    forall|i: int, j: int| 0 <= i < j < v.len() ==> v[i].0@ != v[j].0@
}

proof fn lemma_named_certs_update(v: Seq<(Vec<u8>, CertReader)>, j: int, p: (Vec<u8>, CertReader))
    requires
        names_unique(v),
        0 <= j < v.len(),
        v[j].0@ == p.0@,
    ensures
        named_certs_map(v.update(j, p)) == named_certs_map(v).insert(p.0@, p.1@),
        names_unique(v.update(j, p)),
    decreases v.len(),
{
    let w = v.update(j, p);
    if j == v.len() - 1 {
        assert(w.drop_last() =~= v.drop_last());
        assert(named_certs_map(w) =~= named_certs_map(v).insert(p.0@, p.1@));
    } else {
        assert(w.drop_last() =~= v.drop_last().update(j, p));
        lemma_named_certs_update(v.drop_last(), j, p);
        assert(v.last().0@ != p.0@);
        assert(named_certs_map(w) =~= named_certs_map(v).insert(p.0@, p.1@));
    }
}

proof fn lemma_named_certs_key(v: Seq<(Vec<u8>, CertReader)>, k: Seq<u8>)
    requires
        forall|i: int| 0 <= i < v.len() ==> v[i].0@ != k,
    ensures
        !named_certs_map(v).dom().contains(k),
    decreases v.len(),
{
    if v.len() > 0 {
        lemma_named_certs_key(v.drop_last(), k);
    }
}

/// Adds `cert` under `name`, replacing a certificate of the same name.
fn insert_named_cert(certs: &mut Vec<(Vec<u8>, CertReader)>, name: Vec<u8>, cert: CertReader)
    requires
        names_unique(old(certs)@),
    ensures
        names_unique(final(certs)@),
        named_certs_map(final(certs)@) == named_certs_map(old(certs)@).insert(name@, cert@),
{
    let mut j: usize = 0;
    while j < certs.len()
        invariant
            j <= certs@.len(),
            certs@ == old(certs)@,
            names_unique(certs@),
            forall|i: int| 0 <= i < j ==> certs@[i].0@ != name@,
        decreases certs@.len() - j,
    {
        if bytes_eq(certs[j].0.as_slice(), name.as_slice()) {
            let ghost p = (name, cert);
            proof {
                lemma_named_certs_update(certs@, j as int, (name, cert));
            }
            certs.set(j, (name, cert));
            return;
        }
        j = j + 1;
    }
    proof {
        lemma_named_certs_key(certs@, name@);
    }
    let ghost before = certs@;
    certs.push((name, cert));
    assert(certs@.drop_last() =~= before);
}

/// The certificates of a chain by name (see `cert_chain_spec`); no two
/// share a name.
#[verifier::spinoff_prover]
pub fn parse_cert_chain(chain: &[u8]) -> (r: Vec<(Vec<u8>, CertReader)>)
    ensures
        names_unique(r@),
        named_certs_map(r@) == cert_chain_spec(chain@, Map::empty()),
{
    let mut certs: Vec<(Vec<u8>, CertReader)> = Vec::new();
    let mut rest: &[u8] = chain;
    assert(named_certs_map(certs@) =~= Map::<Seq<u8>, Seq<u8>>::empty());
    loop
        invariant
            names_unique(certs@),
            cert_chain_spec(chain@, Map::empty()) == cert_chain_spec(rest@, named_certs_map(certs@)),
        decreases rest@.len(),
    {
        let parsed = CertReader::parse(vstd::slice::slice_to_vec(rest));
        match parsed {
            Some(cert) => {
                proof {
                    lemma_parsed_cert_readable(rest@);
                }
                let n = cert.bytes.len();
                let name = cert.get_name();
                let next = vstd::slice::slice_subrange(rest, n, rest.len());
                assert(next@ =~= rest@.skip(n as int));
                insert_named_cert(&mut certs, name, cert);
                rest = next;
            },
            None => {
                return certs;
            },
        }
    }
}


/// The IV that a personalised title key was encrypted with: the ticket id,
/// then eight zero bytes.
pub open spec fn personal_key_iv(b: Seq<u8>) -> Seq<u8> {
    b.subrange(TICKET_ID_OFFSET as int, TICKET_ID_OFFSET + 8) + Seq::new(8, |_i: int| 0u8)
}

/// What `unpersonalise` does: the outcome, the engine after it and the
/// ticket after it. Acting as ES, the engine creates an ECC object for the
/// server's key, imports the key, creates an AES object, derives the
/// shared key into it from the console key, and decrypts the title key
/// with it; the first step that fails ends the sequence.
pub open spec fn unpersonalise_spec(v: IoscView, b: Seq<u8>) -> (Result<(), IoscError>, IoscView, Seq<u8>) {
    match create_object_spec(v, ObjectType::TypePublicKey, ObjectSubType::ECC233, PID_ES) {
        Err(e) => (Err(e), v, b),
        Ok((ph, v1)) => match import_public_key_spec(
            v1,
            ph,
            b.subrange(TICKET_SERVER_PUBLIC_KEY_OFFSET as int, TICKET_SERVER_PUBLIC_KEY_OFFSET + 60),
            None,
            PID_ES,
        ) {
            Err(e) => (Err(e), v1, b),
            Ok(v2) => match create_object_spec(v2, ObjectType::TypeSecretKey, ObjectSubType::AES128, PID_ES) {
                Err(e) => (Err(e), v2, b),
                Ok((kh, v3)) => match compute_shared_key_spec(v3, kh, 0, ph, PID_ES) {
                    Err(e) => (Err(e), v3, b),
                    Ok(v4) => match crypt_result(
                        v4,
                        false,
                        kh,
                        personal_key_iv(b),
                        encrypted_title_key(b),
                        PID_ES,
                    ) {
                        Err(e) => (Err(e), v4, b),
                        Ok(k) => (
                            Ok(()),
                            v4,
                            b.take(TICKET_TITLE_KEY_OFFSET as int) + k + b.skip(TICKET_TITLE_KEY_OFFSET + 16),
                        ),
                    },
                },
            },
        },
    }
}

/// The engine can unpersonalise a ticket: ES may use the console's private
/// key and two key slots are free.
pub open spec fn unpersonalise_ready(v: IoscView) -> bool {
    &&& has_ownership_spec(v, 0, PID_ES)
    &&& exists|i: int, j: int| 0 <= i < j < v.entries.len() && !v.entries[i].in_use && !v.entries[j].in_use
}

impl TicketReader {
    /// IOS uses IOSC to compute an AES key from the peer public key and the
    /// device's private ECC key, which is used to the decrypt the title key.
    /// The IV is the ticket ID (8 bytes), zero extended. It succeeds on an
    /// engine where ES may use the console key and two slots are free.
    #[verifier::spinoff_prover]
    #[verifier::rlimit(30)]
    pub fn unpersonalise(&mut self, iosc: &mut Iosc) -> (r: Result<(), IoscError>)
        requires
            old(self)@.len() >= TICKET_DEVICE_ID_OFFSET,
            iosc_wf(old(iosc)@),
        ensures
            iosc_wf(final(iosc)@),
            (r, final(iosc)@, final(self)@) == unpersonalise_spec(old(iosc)@, old(self)@),
            unpersonalise_ready(old(iosc)@) ==> r is Ok,
    {
        let ghost v = iosc@;
        let ghost b = self@;
        proof {
            lemma_first_free(v.entries, 0);
            assert((1u32 << 1u32) & (1u32 << 1u32) != 0u32) by (bit_vector);
            if unpersonalise_ready(v) {
                let (i, j) = choose|i: int, j: int|
                    0 <= i < j < v.entries.len() && !v.entries[i].in_use && !v.entries[j].in_use;
                assert(!v.entries[i].in_use);
            }
        }
        let public_handle = match iosc.create_object(ObjectType::TypePublicKey, ObjectSubType::ECC233, PID_ES) {
            Ok(h) => h,
            Err(e) => return Err(e),
        };
        proof {
            lemma_first_free(v.entries, 0);
        }
        let ghost v1 = iosc@;
        let server_key = vstd::slice::slice_subrange(
            self.bytes.as_slice(),
            TICKET_SERVER_PUBLIC_KEY_OFFSET,
            TICKET_SERVER_PUBLIC_KEY_OFFSET + 60,
        );
        match iosc.import_public_key(public_handle, server_key, None, PID_ES) {
            Ok(()) => {},
            Err(e) => return Err(e),
        }
        let ghost v2 = iosc@;
        proof {
            lemma_first_free(v2.entries, 0);
            if unpersonalise_ready(v) {
                let (i, j) = choose|i: int, j: int|
                    0 <= i < j < v.entries.len() && !v.entries[i].in_use && !v.entries[j].in_use;
                if i != public_handle.id() as int {
                    assert(!v2.entries[i].in_use);
                } else {
                    assert(!v2.entries[j].in_use);
                }
            }
        }
        let key_handle = match iosc.create_object(ObjectType::TypeSecretKey, ObjectSubType::AES128, PID_ES) {
            Ok(h) => h,
            Err(e) => return Err(e),
        };
        proof {
            lemma_first_free(v2.entries, 0);
            assert(key_handle.id() != public_handle.id());
            assert(v.entries[0] == iosc@.entries[0]);
        }
        match iosc.compute_shared_key(key_handle, DefaultHandle::HandleConsoleKey.handle(), public_handle, PID_ES) {
            Ok(()) => {},
            Err(e) => return Err(e),
        }
        let mut iv = [0u8; 16];
        let mut k: usize = 0;
        while k < 8
            invariant
                k <= 8,
                self@ == b,
                b.len() >= TICKET_DEVICE_ID_OFFSET,
                iv@.len() == 16,
                forall|j: int| 0 <= j < k ==> iv@[j] == b[TICKET_ID_OFFSET + j],
                forall|j: int| 8 <= j < 16 ==> iv@[j] == 0u8,
            decreases 8 - k,
        {
            iv.set(k, self.bytes[TICKET_ID_OFFSET + k]);
            k = k + 1;
        }
        assert(iv@ =~= personal_key_iv(b));
        let encrypted = vstd::slice::slice_subrange(
            self.bytes.as_slice(),
            TICKET_TITLE_KEY_OFFSET,
            TICKET_TITLE_KEY_OFFSET + 16,
        );
        assert(encrypted@ =~= encrypted_title_key(b));
        let key = match iosc.decrypt(key_handle, iv.as_slice(), encrypted, PID_ES) {
            Ok(key) => key,
            Err(e) => return Err(e),
        };
        let mut j: usize = 0;
        while j < 16
            invariant
                j <= 16,
                key@.len() == 16,
                self@.len() == b.len(),
                b.len() >= TICKET_DEVICE_ID_OFFSET,
                forall|i: int| 0 <= i < b.len() && !(TICKET_TITLE_KEY_OFFSET <= i < TICKET_TITLE_KEY_OFFSET + j) ==> self@[i] == b[i],
                forall|i: int| TICKET_TITLE_KEY_OFFSET <= i < TICKET_TITLE_KEY_OFFSET + j ==> self@[i] == key@[i - TICKET_TITLE_KEY_OFFSET],
            decreases 16 - j,
        {
            self.bytes.set(TICKET_TITLE_KEY_OFFSET + j, key[j]);
            j = j + 1;
        }
        assert(self@ =~= b.take(TICKET_TITLE_KEY_OFFSET as int) + key@ + b.skip(TICKET_TITLE_KEY_OFFSET + 16));
        Ok(())
    }
}

} // verus!
