//! The virtual file system of a disc: its errors, and the layout of the
//! file system table (FST) and system area that are written back.

use vstd::prelude::*;
use crate::bytes::{lemma_u32_roundtrip, push_be_u32, push_bytes, read_be_u32, seq_be_u32, u32_be_bytes};
use crate::iso::disc::{align_addr, align_up, lemma_align_up};
use vstd::arithmetic::power2::{lemma2_to64, pow2};
use crate::disc::{HEADER_LENGTH, OFFSET_DOL_OFFSET, OFFSET_FST_OFFSET, OFFSET_FST_SIZE};
use crate::iso::{
    fst_node_type_from, fst_tag, name_ends_at, name_terminated, utf8_decode, FstEntry, FstEntryView, FstError,
    FstNode, FstNodeType, FST_ENTRY_SIZE,
};

pub mod file;
pub mod tree;
pub mod gecko_fs;
pub mod fst_image;

verus! {

/// Errors of files of the virtual file system.
#[derive(Debug, Clone, Copy, PartialEq, Eq, Structural)]
pub enum FsFileError {
    StatusLockError,
    DataLockError,
}

impl FsFileError {
    /// The description of the error.
    pub fn message(&self) -> &'static str {
        match self {
            FsFileError::StatusLockError => "Failed to lock the file status",
            FsFileError::DataLockError => "Failed to lock the file data",
        }
    }
}

/// Errors of nodes of the virtual file system; paths are given as text.
#[derive(Debug, Clone, PartialEq, Eq)]
pub enum FsNodeError {
    NodeIsNotADirectory(String, String),
    NodeIsNotAFile(String),
    FsFileError(FsFileError),
}

/// Errors of the virtual file system; paths and outside errors are given
/// as text.
#[derive(Debug, Clone, PartialEq, Eq)]
pub enum GeckoFSError {
    ReadError(String),
    FsNodeError(FsNodeError),
    FsFileError(FsFileError),
    FileNotFount(String),
    InvalidNode,
    BufferTooLarge,
    InvalidPath(String),
    NodeNotFound(String),
    FstEntryError(FstError),
    DirStackUnderflow,
    UpdaterError(String),
    NodeIsAFile(String),
}

/// Offsets on Wii discs are stored divided by four.
pub open spec fn offset_mult(is_wii: bool) -> int {
    if is_wii {
        4
    } else {
        1
    }
}

/// A 32-bit offset field, multiplied by four on Wii discs.
fn stored_offset(v: u32, is_wii: bool) -> (r: u64)
    ensures
        r == v * offset_mult(is_wii),
{
    let w = v as u64;
    if is_wii {
        assert(w << 2u64 == w * 4) by (bit_vector)
            requires w <= 0xFFFF_FFFF;
        w << 2u64
    } else {
        w
    }
}

/// Where the system files of a disc are: the main executable and the file
/// system table, and the table's size.
#[derive(Debug, Clone, Copy, PartialEq, Eq, Structural)]
pub struct FsHeader {
    pub dol_offset: u64,
    pub fst_offset: u64,
    pub fst_size: u64,
}

/// Reads the offsets of the main executable and of the file system table,
/// and the table's size, from the disc header.
pub fn read_fs_header(hdr: &[u8], is_wii: bool) -> (r: FsHeader)
    requires
        hdr@.len() >= OFFSET_FST_SIZE + 4,
    ensures
        r.dol_offset == seq_be_u32(hdr@, OFFSET_DOL_OFFSET as int) * offset_mult(is_wii),
        r.fst_offset == seq_be_u32(hdr@, OFFSET_FST_OFFSET as int) * offset_mult(is_wii),
        r.fst_size == seq_be_u32(hdr@, OFFSET_FST_SIZE as int) * offset_mult(is_wii),
{
    FsHeader {
        dol_offset: stored_offset(read_be_u32(hdr, OFFSET_DOL_OFFSET), is_wii),
        fst_offset: stored_offset(read_be_u32(hdr, OFFSET_FST_OFFSET), is_wii),
        fst_size: stored_offset(read_be_u32(hdr, OFFSET_FST_SIZE), is_wii),
    }
}

/// `node` is the file `name` at `offset` of `size` bytes.
pub open spec fn is_file_node(node: FstNode, name: Seq<char>, offset: u64, size: usize) -> bool {
    node matches FstNode::File { relative_file_name, file_offset, file_size } && relative_file_name@ == name
        && file_offset == offset && file_size == size
}

/// The system files of a disc: its header, the apploader up to the main
/// executable, the executable up to the file system table, and the table.
pub fn system_files(h: &FsHeader) -> (r: Vec<FstNode>)
    requires
        HEADER_LENGTH <= h.dol_offset <= h.fst_offset,
    ensures
        r@.len() == 4,
        is_file_node(r@[0], "iso.hdr"@, 0, HEADER_LENGTH),
        is_file_node(r@[1], "AppLoader.ldr"@, HEADER_LENGTH as u64, (h.dol_offset - HEADER_LENGTH) as usize),
        is_file_node(r@[2], "Start.dol"@, h.dol_offset, (h.fst_offset - h.dol_offset) as usize),
        is_file_node(r@[3], "Game.toc"@, h.fst_offset, h.fst_size as usize),
{
    let mut files: Vec<FstNode> = Vec::new();
    files.push(
        FstNode::File { relative_file_name: String::from_str("iso.hdr"), file_offset: 0, file_size: HEADER_LENGTH },
    );
    files.push(
        FstNode::File {
            relative_file_name: String::from_str("AppLoader.ldr"),
            file_offset: HEADER_LENGTH as u64,
            file_size: (h.dol_offset - HEADER_LENGTH as u64) as usize,
        },
    );
    files.push(
        FstNode::File {
            relative_file_name: String::from_str("Start.dol"),
            file_offset: h.dol_offset,
            file_size: (h.fst_offset - h.dol_offset) as usize,
        },
    );
    files.push(
        FstNode::File {
            relative_file_name: String::from_str("Game.toc"),
            file_offset: h.fst_offset,
            file_size: h.fst_size as usize,
        },
    );
    files
}

/// Entry `i` of a file system table.
pub open spec fn fst_entry_at(fst: Seq<u8>, i: int) -> FstEntryView {
    FstEntryView {
        node_type_file_name_offset: seq_be_u32(fst, 12 * i),
        file_offset_parent_dir: seq_be_u32(fst, 12 * i + 4),
        file_size_next_dir_index: seq_be_u32(fst, 12 * i + 8),
    }
}

/// Number of entries of a file system table: the next index of its root.
pub open spec fn fst_count(fst: Seq<u8>) -> int {
    seq_be_u32(fst, 8) as int
}

/// The name of an entry in the string table: the bytes from its offset up
/// to the next NUL byte.
pub open spec fn fst_name_bytes(e: FstEntryView, table: Seq<u8>) -> Seq<u8> {
    let pos = (e.node_type_file_name_offset % 0x100_0000) as int;
    table.subrange(pos, choose|end: int| name_ends_at(table, pos, end))
}

/// The string table of a file system table: the bytes after its entries.
pub open spec fn fst_table(fst: Seq<u8>) -> Seq<u8> {
    fst.skip(12 * fst_count(fst))
}

/// Each entry of the table has a known kind, and its name ends in the
/// string table.
pub open spec fn fst_readable(fst: Seq<u8>) -> bool {
    &&& fst.len() >= 12
    &&& 12 * fst_count(fst) <= fst.len()
    &&& forall|i: int|
        0 <= i < fst_count(fst) ==> #[trigger] fst_node_type_from(fst_tag(fst_entry_at(fst, i))) is Some
            && name_terminated(fst_table(fst), (fst_entry_at(fst, i).node_type_file_name_offset % 0x100_0000) as int)
}

/// The position of the last NUL byte of `table`, if any.
fn last_nul(table: &[u8]) -> (r: Option<usize>)
    ensures
        match r {
            Some(e) => e < table@.len() && table@[e as int] == 0 && forall|k: int|
                e < k < table@.len() ==> table@[k] != 0,
            None => forall|k: int| 0 <= k < table@.len() ==> table@[k] != 0,
        },
{
    let mut i: usize = table.len();
    while i > 0
        invariant
            i <= table@.len(),
            forall|k: int| i <= k < table@.len() ==> table@[k] != 0,
        decreases i,
    {
        if table[i - 1] == 0 {
            return Some(i - 1);
        }
        i = i - 1;
    }
    None
}

/// Whether the file system table can be read (see `fst_readable`).
pub fn fst_readable_check(fst: &[u8]) -> (r: bool)
    ensures
        r == fst_readable(fst@),
{
    let len = fst.len();
    if len < 12 {
        return false;
    }
    let n = read_be_u32(fst, 8) as usize;
    assert(n == fst_count(fst@));
    if n > len / 12 {
        return false;
    }
    let table = vstd::slice::slice_subrange(fst, 12 * n, len);
    assert(table@ =~= fst_table(fst@));
    let last = last_nul(table);
    let mut i: usize = 0;
    while i < n
        invariant
            i <= n,
            n == fst_count(fst@),
            12 * n <= len == fst@.len(),
            table@ == fst_table(fst@),
            match last {
                Some(e) => e < table@.len() && table@[e as int] == 0 && forall|k: int|
                    e < k < table@.len() ==> table@[k] != 0,
                None => forall|k: int| 0 <= k < table@.len() ==> table@[k] != 0,
            },
            forall|j: int|
                0 <= j < i ==> #[trigger] fst_node_type_from(fst_tag(fst_entry_at(fst@, j))) is Some && name_terminated(
                    fst_table(fst@),
                    (fst_entry_at(fst@, j).node_type_file_name_offset % 0x100_0000) as int,
                ),
        decreases n - i,
    {
        let w = read_be_u32(fst, 12 * i);
        assert(w == fst_entry_at(fst@, i as int).node_type_file_name_offset);
        let tag = w / 0x100_0000;
        let pos = w % 0x100_0000;
        assert(fst_tag(fst_entry_at(fst@, i as int)) == tag as u8);
        if tag > 1 {
            assert(fst_node_type_from(fst_tag(fst_entry_at(fst@, i as int))) is None);
            return false;
        }
        match last {
            None => {
                assert(!name_terminated(fst_table(fst@), pos as int));
                assert(fst_node_type_from(fst_tag(fst_entry_at(fst@, i as int))) is Some);
                return false;
            },
            Some(e) => {
                if pos as usize > e {
                    assert(!name_terminated(fst_table(fst@), pos as int));
                    assert(fst_node_type_from(fst_tag(fst_entry_at(fst@, i as int))) is Some);
                    return false;
                }
                assert(name_terminated(fst_table(fst@), pos as int));
            },
        }
        i = i + 1;
    }
    true
}

/// `node` is the entry `e`, its name resolved in `table` and its offset
/// (or parent) multiplied by four on Wii discs.
pub open spec fn fst_node_read(node: FstNode, e: FstEntryView, table: Seq<u8>, is_wii: bool) -> bool {
    match utf8_decode(fst_name_bytes(e, table)) {
        None => false,
        Some(name) => match fst_node_type_from(fst_tag(e)) {
            Some(FstNodeType::File) => node matches FstNode::File { relative_file_name, file_offset, file_size }
                && relative_file_name@ == name && file_offset == e.file_offset_parent_dir * offset_mult(is_wii)
                && file_size == e.file_size_next_dir_index,
            Some(FstNodeType::Directory) => node matches FstNode::Directory {
                relative_file_name,
                parent_dir,
                next_dir_index,
            } && relative_file_name@ == name && parent_dir == e.file_offset_parent_dir * offset_mult(is_wii)
                && next_dir_index == e.file_size_next_dir_index,
            None => false,
        },
    }
}

/// Some name of the table is not UTF-8.
pub open spec fn fst_has_bad_name(fst: Seq<u8>) -> bool {
    exists|i: int| 0 <= i < fst_count(fst) && #[trigger] utf8_decode(fst_name_bytes(fst_entry_at(fst, i), fst_table(fst))) is None
}

/// Reads the entries of a file system table (the `Game.toc` file): as many
/// as its root says, their names resolved in the string table that follows
/// them. Fails when a name is not UTF-8.
#[verifier::spinoff_prover]
pub fn parse_fst(fst: &[u8], is_wii: bool) -> (r: Result<Vec<FstNode>, FstError>)
    requires
        fst_readable(fst@),
    ensures
        fst_has_bad_name(fst@) ==> r == Err::<Vec<FstNode>, FstError>(FstError::InvalidFileName),
        !fst_has_bad_name(fst@) ==> (r matches Ok(nodes) && nodes@.len() == fst_count(fst@) && forall|i: int|
            0 <= i < nodes@.len() ==> fst_node_read(#[trigger] nodes@[i], fst_entry_at(fst@, i), fst_table(fst@), is_wii)),
{
    let n = read_be_u32(fst, 8) as usize;
    assert(n == fst_count(fst@));
    let flen = fst.len();
    assert(12 * fst_count(fst@) <= flen);
    let table = vstd::slice::slice_subrange(fst, 12 * n, flen);
    assert(table@ =~= fst_table(fst@));
    let mut nodes: Vec<FstNode> = Vec::new();
    let mut i: usize = 0;
    while i < n
        invariant
            i <= n,
            n == fst_count(fst@),
            fst_readable(fst@),
            12 * n <= flen,
            flen == fst@.len(),
            table@ == fst_table(fst@),
            nodes@.len() == i,
            forall|k: int| 0 <= k < i ==> fst_node_read(#[trigger] nodes@[k], fst_entry_at(fst@, k), table@, is_wii),
            forall|k: int| 0 <= k < i ==> utf8_decode(#[trigger] fst_name_bytes(fst_entry_at(fst@, k), table@)) is Some,
        decreases n - i,
    {
        let chunk = vstd::slice::slice_subrange(fst, 12 * i, 12 * i + 12);
        let ghost ev = fst_entry_at(fst@, i as int);
        assert(seq_be_u32(chunk@, 0) == ev.node_type_file_name_offset);
        assert(seq_be_u32(chunk@, 4) == ev.file_offset_parent_dir);
        assert(seq_be_u32(chunk@, 8) == ev.file_size_next_dir_index);
        assert(fst_node_type_from(fst_tag(ev)) is Some);
        let entry = match FstEntry::try_from_bytes(chunk) {
            Ok(e) => e,
            Err(_) => {
                assert(false);
                return Err(FstError::InvalidFileName);
            },
        };
        assert(entry@ == ev);
        let node = match FstNode::from_fstnode(&entry, table) {
            Ok(node) => node,
            Err(e) => {
                proof {
                    assert(utf8_decode(fst_name_bytes(ev, table@)) is None);
                    assert(fst_has_bad_name(fst@));
                }
                return Err(FstError::InvalidFileName);
            },
        };
        let shifted = match node {
            FstNode::File { relative_file_name, file_offset, file_size } => FstNode::File {
                relative_file_name,
                file_offset: stored_offset(file_offset as u32, is_wii),
                file_size,
            },
            FstNode::Directory { relative_file_name, parent_dir, next_dir_index } => FstNode::Directory {
                relative_file_name,
                parent_dir: stored_offset(parent_dir as u32, is_wii),
                next_dir_index,
            },
        };
        nodes.push(shifted);
        i = i + 1;
    }
    proof {
        if fst_has_bad_name(fst@) {
            let k = choose|k: int| 0 <= k < fst_count(fst@) && #[trigger] utf8_decode(fst_name_bytes(fst_entry_at(fst@, k), fst_table(fst@))) is None;
            assert(utf8_decode(fst_name_bytes(fst_entry_at(fst@, k), table@)) is Some);
        }
    }
    Ok(nodes)
}

/// Where the main executable and the file system table go when the system
/// files are written back: each after the one before, rounded up to 256
/// bytes, with the zero padding that this takes.
#[derive(Debug, Clone, Copy, PartialEq, Eq, Structural)]
pub struct SystemLayout {
    pub dol_offset: u64,
    pub dol_padding: u64,
    pub fst_list_offset: u64,
    pub fst_list_padding: u64,
    pub fst_len: u64,
}

/// Lays out the system files: the header and apploader, then the main
/// executable and the file system table of `fst_len` bytes.
pub fn system_layout(header_size: u64, apploader_size: u64, dol_size: u64, fst_len: u64) -> (r: SystemLayout)
    requires
        1 <= header_size + apploader_size,
        header_size + apploader_size + dol_size + fst_len <= 0x7FFF_FFFF_FFFF_FFFF,
    ensures
        r.dol_offset == align_up(header_size + apploader_size, 8),
        r.dol_padding == r.dol_offset - (header_size + apploader_size),
        r.fst_list_offset == align_up(r.dol_offset + dol_size, 8),
        r.fst_list_padding == r.fst_list_offset - (r.dol_offset + dol_size),
        r.fst_len == fst_len,
        r.fst_list_offset + fst_len <= 0x7FFF_FFFF_FFFF_FFFF + 0x200,
{
    proof {
        lemma2_to64();
        lemma_align_up(header_size + apploader_size, 8);
    }
    let dol_offset_raw = header_size + apploader_size;
    let dol_offset = align_addr(dol_offset_raw, 8);
    let fst_list_offset_raw = dol_offset + dol_size;
    proof {
        lemma_align_up(fst_list_offset_raw as int, 8);
    }
    let fst_list_offset = align_addr(fst_list_offset_raw, 8);
    SystemLayout {
        dol_offset,
        dol_padding: dol_offset - dol_offset_raw,
        fst_list_offset,
        fst_list_padding: fst_list_offset - fst_list_offset_raw,
        fst_len,
    }
}

/// The sixteen bytes that the layout puts at 0x420 in the disc header: the
/// offsets of the main executable and of the table (divided by four on Wii
/// discs, cut to 32 bits), then the table's size twice.
pub open spec fn layout_header_bytes(l: SystemLayout, is_wii: bool) -> Seq<u8> {
    u32_be_bytes((l.dol_offset / offset_mult(is_wii) as u64) as u32) + u32_be_bytes(
        (l.fst_list_offset / offset_mult(is_wii) as u64) as u32,
    ) + u32_be_bytes(l.fst_len as u32) + u32_be_bytes(l.fst_len as u32)
}

/// An offset stored in a 32-bit field: divided by four on Wii discs.
fn stored_field(v: u64, is_wii: bool) -> (r: u32)
    ensures
        r == (v / offset_mult(is_wii) as u64) as u32,
{
    if is_wii {
        let q = v >> 2u64;
        assert(q == v / 4) by (bit_vector)
            requires q == v >> 2u64;
        q as u32
    } else {
        assert(offset_mult(is_wii) as u64 == 1u64);
        assert(v / 1u64 == v) by (nonlinear_arith);
        v as u32
    }
}

/// An offset that a disc of the kind can store: a multiple of four on Wii
/// discs, and, once divided as the disc kind stores it, below 2^32.
pub open spec fn offset_storable(v: u64, is_wii: bool) -> bool {
    &&& v % (offset_mult(is_wii) as u64) == 0
    &&& v / (offset_mult(is_wii) as u64) < 0x1_0000_0000
}

/// Reading back a header with a layout written into it (as `read_fs_header`
/// reads it) gives the layout's offsets of the main executable and of the
/// file system table, on GameCube and Wii discs alike, when the disc kind
/// can store them; the rest of the header is kept. A GameCube header holds
/// the offsets themselves, a Wii header holds them divided by four.
pub proof fn lemma_layout_header_readback(hdr: Seq<u8>, l: SystemLayout, is_wii: bool)
    requires
        hdr.len() >= OFFSET_DOL_OFFSET + 0x10,
    ensures
        ({
            let h = hdr.take(OFFSET_DOL_OFFSET as int) + layout_header_bytes(l, is_wii) + hdr.skip(OFFSET_DOL_OFFSET + 0x10);
            &&& h.len() == hdr.len()
            &&& offset_storable(l.dol_offset, is_wii) ==> seq_be_u32(h, OFFSET_DOL_OFFSET as int) * offset_mult(is_wii)
                == l.dol_offset
            &&& offset_storable(l.fst_list_offset, is_wii) ==> seq_be_u32(h, OFFSET_FST_OFFSET as int) * offset_mult(
                is_wii,
            ) == l.fst_list_offset
            &&& l.fst_len < 0x1_0000_0000 ==> seq_be_u32(h, OFFSET_FST_SIZE as int) == l.fst_len
                && seq_be_u32(h, OFFSET_FST_SIZE + 4) == l.fst_len
            &&& forall|i: int|
                0 <= i < hdr.len() && !(OFFSET_DOL_OFFSET <= i < OFFSET_DOL_OFFSET + 0x10) ==> #[trigger] h[i] == hdr[i]
            &&& !is_wii && l.dol_offset < 0x1_0000_0000 ==> seq_be_u32(h, OFFSET_DOL_OFFSET as int) == l.dol_offset
            &&& !is_wii && l.fst_list_offset < 0x1_0000_0000 ==> seq_be_u32(h, OFFSET_FST_OFFSET as int)
                == l.fst_list_offset
            &&& is_wii && l.dol_offset % 4 == 0 && l.dol_offset < 0x4_0000_0000 ==> seq_be_u32(
                h,
                OFFSET_DOL_OFFSET as int,
            ) * 4 == l.dol_offset
            &&& is_wii && l.fst_list_offset % 4 == 0 && l.fst_list_offset < 0x4_0000_0000 ==> seq_be_u32(
                h,
                OFFSET_FST_OFFSET as int,
            ) * 4 == l.fst_list_offset
        }),
{
    let h = hdr.take(OFFSET_DOL_OFFSET as int) + layout_header_bytes(l, is_wii) + hdr.skip(OFFSET_DOL_OFFSET + 0x10);
    let m = offset_mult(is_wii) as u64;
    let a = (l.dol_offset / m) as u32;
    let b = (l.fst_list_offset / m) as u32;
    lemma_u32_roundtrip(a);
    lemma_u32_roundtrip(b);
    assert(h.subrange(0x420, 0x424) =~= u32_be_bytes(a));
    assert(h.subrange(0x424, 0x428) =~= u32_be_bytes(b));
    assert(seq_be_u32(h, 0x420) == seq_be_u32(h.subrange(0x420, 0x424), 0));
    assert(seq_be_u32(h, 0x424) == seq_be_u32(h.subrange(0x424, 0x428), 0));
    lemma_u32_roundtrip(l.fst_len as u32);
    assert(h.subrange(0x428, 0x42C) =~= u32_be_bytes(l.fst_len as u32));
    assert(h.subrange(0x42C, 0x430) =~= u32_be_bytes(l.fst_len as u32));
    assert(seq_be_u32(h, 0x428) == seq_be_u32(h.subrange(0x428, 0x42C), 0));
    assert(seq_be_u32(h, 0x42C) == seq_be_u32(h.subrange(0x42C, 0x430), 0));
    if offset_storable(l.dol_offset, is_wii) {
        vstd::arithmetic::div_mod::lemma_fundamental_div_mod(l.dol_offset as int, m as int);
    }
    if offset_storable(l.fst_list_offset, is_wii) {
        vstd::arithmetic::div_mod::lemma_fundamental_div_mod(l.fst_list_offset as int, m as int);
    }
}

/// The disc header with the layout written at 0x420 (see
/// `lemma_layout_header_readback` for what reading it back gives).
pub fn patch_system_header(hdr: &[u8], l: &SystemLayout, is_wii: bool) -> (r: Vec<u8>)
    requires
        hdr@.len() >= OFFSET_DOL_OFFSET + 0x10,
    ensures
        r@ == hdr@.take(OFFSET_DOL_OFFSET as int) + layout_header_bytes(*l, is_wii) + hdr@.skip(
            OFFSET_DOL_OFFSET + 0x10,
        ),
        offset_storable(l.dol_offset, is_wii) ==> seq_be_u32(r@, OFFSET_DOL_OFFSET as int) * offset_mult(is_wii)
            == l.dol_offset,
        offset_storable(l.fst_list_offset, is_wii) ==> seq_be_u32(r@, OFFSET_FST_OFFSET as int) * offset_mult(is_wii)
            == l.fst_list_offset,
{
    proof {
        lemma_layout_header_readback(hdr@, *l, is_wii);
    }
    let mut out = vstd::slice::slice_to_vec(vstd::slice::slice_subrange(hdr, 0, OFFSET_DOL_OFFSET));
    push_be_u32(&mut out, stored_field(l.dol_offset, is_wii));
    push_be_u32(&mut out, stored_field(l.fst_list_offset, is_wii));
    push_be_u32(&mut out, l.fst_len as u32);
    push_be_u32(&mut out, l.fst_len as u32);
    push_bytes(&mut out, vstd::slice::slice_subrange(hdr, OFFSET_DOL_OFFSET + 0x10, hdr.len()));
    assert(out@ =~= hdr@.take(OFFSET_DOL_OFFSET as int) + layout_header_bytes(*l, is_wii) + hdr@.skip(
        OFFSET_DOL_OFFSET + 0x10,
    ));
    out
}

/// The zero padding after the last file: up to the next multiple of 256
/// bytes, or the one after it when that leaves fewer than 0x20 bytes.
pub open spec fn end_padding_spec(offset: int) -> int {
    let next = align_up(offset, 8);
    if next - offset < 0x20 {
        align_up(offset + 0x20, 8) - offset
    } else {
        next - offset
    }
}

/// Computes the padding after the last file (see `end_padding_spec`).
pub fn end_padding(offset: u64) -> (r: u64)
    requires
        1 <= offset <= 0xFFFF_FFFF_FFFF_FE00,
    ensures
        r == end_padding_spec(offset as int),
{
    proof {
        lemma2_to64();
        lemma_align_up(offset as int, 8);
        lemma_align_up(offset + 0x20, 8);
    }
    let next = align_addr(offset, 8);
    if next - offset < 0x20 {
        align_addr(offset + 0x20, 8) - offset
    } else {
        next - offset
    }
}

/// The written disc ends at a multiple of 256 bytes, at least 0x20 and
/// less than 0x120 bytes past its last file.
pub proof fn lemma_end_padding(offset: int)
    requires
        1 <= offset,
    ensures
        (offset + end_padding_spec(offset)) % 256 == 0,
        0x20 <= end_padding_spec(offset) < 0x120,
{
    lemma2_to64();
    lemma_align_up(offset, 8);
    lemma_align_up(offset + 0x20, 8);
}

/// One step of a depth-first walk of a file tree, the root left out.
#[derive(Debug, Clone)]
pub enum FsWalkEvent {
    /// A file: its name and length.
    File { name: Vec<u8>, len: u64 },
    /// The start of a directory: its name.
    DirStart { name: Vec<u8> },
    /// The end of the directory last started.
    DirEnd,
}

/// Size of the file system table of a walk: twelve bytes per entry (the
/// root's included) and each name with its NUL byte.
pub open spec fn fst_len_spec(events: Seq<FsWalkEvent>, n: int) -> int
    decreases n,
{
    if n <= 0 {
        12
    } else {
        fst_len_spec(events, n - 1) + match events[n - 1] {
            FsWalkEvent::File { name, .. } => 13 + name@.len(),
            FsWalkEvent::DirStart { name } => 13 + name@.len(),
            FsWalkEvent::DirEnd => 0,
        }
    }
}

/// Computes the size of the file system table of a walk.
pub fn fst_len(events: &[FsWalkEvent]) -> (r: u64)
    requires
        fst_len_spec(events@, events@.len() as int) <= u64::MAX,
    ensures
        r == fst_len_spec(events@, events@.len() as int),
{
    let mut acc: u64 = 12;
    let mut i: usize = 0;
    while i < events.len()
        invariant
            i <= events@.len(),
            acc == fst_len_spec(events@, i as int),
            fst_len_spec(events@, events@.len() as int) <= u64::MAX,
        decreases events@.len() - i,
    {
        proof {
            lemma_fst_len_grows(events@, i as int + 1, events@.len() as int);
        }
        match &events[i] {
            FsWalkEvent::File { name, .. } => {
                acc = acc + 13 + name.len() as u64;
            },
            FsWalkEvent::DirStart { name } => {
                acc = acc + 13 + name.len() as u64;
            },
            FsWalkEvent::DirEnd => {},
        }
        i = i + 1;
    }
    acc
}

/// The size of the file system table of a walk, when it fits in 64 bits.
pub fn fst_len_checked(events: &[FsWalkEvent]) -> (r: Option<u64>)
    ensures
        match r {
            Some(v) => v == fst_len_spec(events@, events@.len() as int),
            None => fst_len_spec(events@, events@.len() as int) > u64::MAX,
        },
{
    let mut acc: u64 = 12;
    let mut i: usize = 0;
    while i < events.len()
        invariant
            i <= events@.len(),
            acc == fst_len_spec(events@, i as int),
        decreases events@.len() - i,
    {
        let add: Option<u64> = match &events[i] {
            FsWalkEvent::File { name, .. } => (name.len() as u64).checked_add(13),
            FsWalkEvent::DirStart { name } => (name.len() as u64).checked_add(13),
            FsWalkEvent::DirEnd => Some(0),
        };
        let next = match add {
            Some(a) => acc.checked_add(a),
            None => None,
        };
        match next {
            Some(v) => {
                assert(fst_len_spec(events@, i + 1) == v);
                acc = v;
            },
            None => {
                proof {
                    assert(fst_len_spec(events@, i + 1) > u64::MAX);
                    lemma_fst_len_grows(events@, i as int + 1, events@.len() as int);
                }
                return None;
            },
        }
        i = i + 1;
    }
    Some(acc)
}

/// Whether every file of the walk is shorter than 2^63 bytes.
pub fn walk_files_fit_check(events: &[FsWalkEvent]) -> (r: bool)
    ensures
        r == walk_files_fit(events@),
{
    let mut i: usize = 0;
    while i < events.len()
        invariant
            i <= events@.len(),
            forall|k: int| 0 <= k < i ==> match #[trigger] events@[k] {
                FsWalkEvent::File { len, .. } => len <= 0x7FFF_FFFF_FFFF_FFFF,
                _ => true,
            },
        decreases events@.len() - i,
    {
        match &events[i] {
            FsWalkEvent::File { len, .. } => {
                if *len > 0x7FFF_FFFF_FFFF_FFFF {
                    assert(!walk_files_fit(events@)) by {
                        assert(match events@[i as int] {
                            FsWalkEvent::File { len, .. } => len > 0x7FFF_FFFF_FFFF_FFFF,
                            _ => false,
                        });
                    }
                    return false;
                }
            },
            _ => {},
        }
        i = i + 1;
    }
    true
}

/// The size of the table only grows along the walk.
proof fn lemma_fst_len_grows(events: Seq<FsWalkEvent>, m: int, n: int)
    requires
        0 <= m <= n,
    ensures
        fst_len_spec(events, m) <= fst_len_spec(events, n),
    decreases n - m,
{
    if m < n {
        lemma_fst_len_grows(events, m, n - 1);
    }
}

/// What building the table has made so far: its entries, its string
/// table, the positions of the files (by their index in the walk), the
/// offset past the last file, and the open directories.
pub struct FstBuild {
    pub entries: Seq<FstEntryView>,
    pub bank: Seq<u8>,
    pub files: Seq<(usize, u64)>,
    pub offset: u64,
    pub stack: Seq<usize>,
}

/// The entry of a file whose name starts at `name_at` in the string table.
pub open spec fn file_entry(name_at: int, pos: u64, len: u64, is_wii: bool) -> FstEntryView {
    FstEntryView {
        node_type_file_name_offset: (name_at as u32) % 0x100_0000,
        file_offset_parent_dir: (if is_wii { pos / 4 } else { pos % 0x1_0000_0000 }) as u32,
        file_size_next_dir_index: len as u32,
    }
}

/// The entry of a directory whose name starts at `name_at`, its next index
/// still zero.
pub open spec fn dir_entry(name_at: int, parent: u64, is_wii: bool) -> FstEntryView {
    FstEntryView {
        node_type_file_name_offset: (0x100_0000 + (name_at as u32) % 0x100_0000) as u32,
        file_offset_parent_dir: (if is_wii { parent / 4 } else { parent % 0x1_0000_0000 }) as u32,
        file_size_next_dir_index: 0,
    }
}

/// `e` with its next index (or file size) set to `v`.
pub open spec fn with_next(e: FstEntryView, v: u32) -> FstEntryView {
    FstEntryView { file_size_next_dir_index: v, ..e }
}

/// The start of the build: the root directory, and file data from `start`.
pub open spec fn fst_init(start: u64, is_wii: bool) -> FstBuild {
    FstBuild {
        entries: seq![dir_entry(0, 0, is_wii)],
        bank: Seq::empty(),
        files: Seq::empty(),
        offset: start,
        stack: seq![0usize],
    }
}

/// One step of the build. A file is placed at the offset rounded up to 32
/// bytes, and the offset moves past it, rounded up to 4 bytes; a directory
/// is entered under the innermost open one; the end of a directory sets
/// its next index to the number of entries made.
pub open spec fn fst_step(s: FstBuild, ev: FsWalkEvent, idx: int, is_wii: bool) -> Result<FstBuild, GeckoFSError> {
    match ev {
        FsWalkEvent::File { name, len } => {
            let pos = align_up(s.offset as int, 5);
            if pos > 0x3_FFFF_FFFC {
                Err(GeckoFSError::FstEntryError(FstError::OffsetTooLarge { offset: pos as u64 }))
            } else {
                Ok(
                    FstBuild {
                        entries: s.entries.push(file_entry(s.bank.len() as int, pos as u64, len, is_wii)),
                        bank: s.bank + name@ + seq![0u8],
                        files: s.files.push((idx as usize, pos as u64)),
                        offset: align_up(pos + len, 2) as u64,
                        stack: s.stack,
                    },
                )
            }
        },
        FsWalkEvent::DirStart { name } => {
            if s.stack.len() == 0 {
                Err(GeckoFSError::DirStackUnderflow)
            } else if s.stack.last() > 0x3_FFFF_FFFC {
                Err(GeckoFSError::FstEntryError(FstError::OffsetTooLarge { offset: s.stack.last() as u64 }))
            } else {
                Ok(
                    FstBuild {
                        entries: s.entries.push(dir_entry(s.bank.len() as int, s.stack.last() as u64, is_wii)),
                        bank: s.bank + name@ + seq![0u8],
                        files: s.files,
                        offset: s.offset,
                        stack: s.stack.push(s.entries.len() as usize),
                    },
                )
            }
        },
        FsWalkEvent::DirEnd => {
            if s.stack.len() == 0 {
                Err(GeckoFSError::DirStackUnderflow)
            } else {
                let i = s.stack.last() as int;
                Ok(
                    FstBuild {
                        entries: s.entries.update(i, with_next(s.entries[i], s.entries.len() as u32)),
                        bank: s.bank,
                        files: s.files,
                        offset: s.offset,
                        stack: s.stack.drop_last(),
                    },
                )
            }
        },
    }
}

/// The build after the first `n` steps of the walk.
pub open spec fn fst_walk(events: Seq<FsWalkEvent>, n: int, start: u64, is_wii: bool) -> Result<FstBuild, GeckoFSError>
    decreases n,
{
    if n <= 0 {
        Ok(fst_init(start, is_wii))
    } else {
        match fst_walk(events, n - 1, start, is_wii) {
            Ok(s) => fst_step(s, events[n - 1], n - 1, is_wii),
            Err(e) => Err(e),
        }
    }
}

/// The entries of a finished build: the root's next index is the number
/// of entries.
pub open spec fn fst_finished(s: FstBuild) -> Seq<FstEntryView> {
    s.entries.update(0, with_next(s.entries[0], s.entries.len() as u32))
}

/// The table of a file tree, and where its files go.
pub struct FstImage {
    /// The entries, the root first.
    pub entries: Vec<FstEntry>,
    /// The string table.
    pub name_bank: Vec<u8>,
    /// For each file, its index in the walk and its offset on the disc.
    pub files: Vec<(usize, u64)>,
}

/// The views of a list of entries.
pub open spec fn entries_view(v: Seq<FstEntry>) -> Seq<FstEntryView> {
    v.map_values(|e: FstEntry| e@)
}

/// Every file of the walk is shorter than 2^63 bytes.
pub open spec fn walk_files_fit(events: Seq<FsWalkEvent>) -> bool {
    forall|i: int| 0 <= i < events.len() ==> match #[trigger] events[i] {
        FsWalkEvent::File { len, .. } => len <= 0x7FFF_FFFF_FFFF_FFFF,
        _ => true,
    }
}

/// Builds the file system table of a walk of the file tree, the file data
/// starting at `start`: the entries in the order of the walk, the string
/// table, and the offset of each file.
#[verifier::spinoff_prover]
#[verifier::rlimit(50)]
pub fn build_fst(events: &[FsWalkEvent], start: u64, is_wii: bool) -> (r: Result<FstImage, GeckoFSError>)
    requires
        1 <= start <= 0x7FFF_FFFF_FFFF_FFFF,
        walk_files_fit(events@),
    ensures
        match fst_walk(events@, events@.len() as int, start, is_wii) {
            Ok(s) => r matches Ok(img) && entries_view(img.entries@) == fst_finished(s) && img.name_bank@
                == s.bank && img.files@ == s.files,
            Err(e) => r == Err::<FstImage, GeckoFSError>(e),
        },
{
    let mut entries: Vec<FstEntry> = Vec::new();
    let root = match FstEntry::new_directory(0, 0, 0, is_wii) {
        Ok(e) => e,
        Err(e) => return Err(GeckoFSError::FstEntryError(e)),
    };
    entries.push(root);
    let mut bank: Vec<u8> = Vec::new();
    let mut files: Vec<(usize, u64)> = Vec::new();
    let mut offset: u64 = start;
    let mut stack: Vec<usize> = Vec::new();
    stack.push(0);
    proof {
        lemma2_to64();
        assert(entries_view(entries@) =~= fst_init(start, is_wii).entries);
        assert(stack@ =~= seq![0usize]);
    }
    let mut i: usize = 0;
    while i < events.len()
        invariant
            i <= events@.len(),
            walk_files_fit(events@),
            pow2(5) == 32 && pow2(2) == 4,
            1 <= offset <= 0x8000_0004_0000_0000,
            forall|k: int| 0 <= k < stack@.len() ==> #[trigger] stack@[k] < entries@.len(),
            entries@.len() >= 1,
            fst_walk(events@, i as int, start, is_wii) == Ok::<FstBuild, GeckoFSError>(
                FstBuild {
                    entries: entries_view(entries@),
                    bank: bank@,
                    files: files@,
                    offset: offset,
                    stack: stack@,
                },
            ),
        decreases events@.len() - i,
    {
        let ghost s = FstBuild { entries: entries_view(entries@), bank: bank@, files: files@, offset: offset, stack: stack@ };
        match &events[i] {
            FsWalkEvent::File { name, len } => {
                proof {
                    lemma_align_up(offset as int, 5);
                }
                let pos = align_addr(offset, 5);
                let entry = match FstEntry::new_file(bank.len() as u32, pos, *len as u32, is_wii) {
                    Ok(e) => e,
                    Err(e) => {
                        proof {
                            lemma_walk_step(events@, i as int, start, is_wii, s);
                            lemma_walk_err_stays(events@, i as int + 1, events@.len() as int, start, is_wii, fst_walk(events@, i as int + 1, start, is_wii)->Err_0);
                        }
                        return Err(GeckoFSError::FstEntryError(e));
                    },
                };
                let ghost name_at = bank@.len();
                push_bytes(&mut bank, name.as_slice());
                bank.push(0);
                proof {
                    assert(*len <= 0x7FFF_FFFF_FFFF_FFFF);
                    lemma_align_up(pos + *len, 2);
                }
                let end = pos + *len;
                offset = align_addr(end, 2);
                entries.push(entry);
                files.push((i, pos));
                proof {
                    lemma_walk_step(events@, i as int, start, is_wii, s);
                    assert(entry@ == file_entry(name_at as int, pos, *len, is_wii));
                    assert(entries_view(entries@) =~= s.entries.push(entry@));
                    assert(bank@ =~= s.bank + name@ + seq![0u8]);
                    assert(files@ =~= s.files.push((i, pos)));
                    assert(offset == align_up(pos + *len, 2));
                }
            },
            FsWalkEvent::DirStart { name } => {
                if stack.len() == 0 {
                    proof {
                        lemma_walk_step(events@, i as int, start, is_wii, s);
                            lemma_walk_err_stays(events@, i as int + 1, events@.len() as int, start, is_wii, fst_walk(events@, i as int + 1, start, is_wii)->Err_0);
                    }
                    return Err(GeckoFSError::DirStackUnderflow);
                }
                let parent = stack[stack.len() - 1];
                let entry = match FstEntry::new_directory(bank.len() as u32, parent as u64, 0, is_wii) {
                    Ok(e) => e,
                    Err(e) => {
                        proof {
                            lemma_walk_step(events@, i as int, start, is_wii, s);
                            lemma_walk_err_stays(events@, i as int + 1, events@.len() as int, start, is_wii, fst_walk(events@, i as int + 1, start, is_wii)->Err_0);
                        }
                        return Err(GeckoFSError::FstEntryError(e));
                    },
                };
                let ghost name_at = bank@.len();
                push_bytes(&mut bank, name.as_slice());
                bank.push(0);
                let this_dir_index = entries.len();
                entries.push(entry);
                stack.push(this_dir_index);
                proof {
                    lemma_walk_step(events@, i as int, start, is_wii, s);
                    assert(entry@ == dir_entry(name_at as int, parent as u64, is_wii));
                    assert(entries_view(entries@) =~= s.entries.push(entry@));
                    assert(bank@ =~= s.bank + name@ + seq![0u8]);
                    assert(stack@ =~= s.stack.push(this_dir_index));
                }
            },
            FsWalkEvent::DirEnd => {
                let top = match stack.pop() {
                    Some(t) => t,
                    None => {
                        proof {
                            lemma_walk_step(events@, i as int, start, is_wii, s);
                            lemma_walk_err_stays(events@, i as int + 1, events@.len() as int, start, is_wii, fst_walk(events@, i as int + 1, start, is_wii)->Err_0);
                        }
                        return Err(GeckoFSError::DirStackUnderflow);
                    },
                };
                let count = entries.len() as u32;
                let mut e = entries[top];
                e.set_file_size_next_dir_index(count);
                entries.set(top, e);
                proof {
                    lemma_walk_step(events@, i as int, start, is_wii, s);
                    assert(e@ == with_next(s.entries[top as int], count));
                    assert(entries_view(entries@) =~= s.entries.update(top as int, with_next(s.entries[top as int], count)));
                    assert(stack@ =~= s.stack.drop_last());
                }
            },
        }
        i = i + 1;
    }
    let count = entries.len() as u32;
    let mut e = entries[0];
    e.set_file_size_next_dir_index(count);
    let ghost before = entries_view(entries@);
    entries.set(0, e);
    assert(entries_view(entries@) =~= before.update(0, with_next(before[0], count)));
    Ok(FstImage { entries, name_bank: bank, files })
}

/// Length of a step of the walk: a file's length, zero otherwise.
pub open spec fn event_len(ev: FsWalkEvent) -> int {
    match ev {
        FsWalkEvent::File { len, .. } => len as int,
        _ => 0,
    }
}

/// The files are placed in the order of the walk, each at a multiple of
/// 32 bytes from `start` on, after the end of the one before, and all of
/// them end by `end`.
pub open spec fn files_laid_out(events: Seq<FsWalkEvent>, files: Seq<(usize, u64)>, start: int, end: int) -> bool {
    &&& forall|k: int|
        0 <= k < files.len() ==> (#[trigger] files[k]).0 < events.len() && events[files[k].0 as int] is File
            && files[k].1 % 32 == 0 && files[k].1 >= start
    &&& forall|k: int|
        0 <= k && k + 1 < files.len() ==> #[trigger] files[k + 1].1 >= files[k].1 + event_len(
            events[files[k].0 as int],
        )
    &&& files.len() > 0 ==> end >= files.last().1 + event_len(events[files.last().0 as int])
    &&& end >= start
}

/// A table that was built is as long as its entries and names, which is
/// the size that `fst_len` gives, and its files are laid out one after the
/// other (see `files_laid_out`).
pub proof fn lemma_fst_walk_layout(events: Seq<FsWalkEvent>, n: int, start: u64, is_wii: bool)
    requires
        0 <= n <= events.len(),
        events.len() <= usize::MAX,
        1 <= start,
        walk_files_fit(events),
        fst_walk(events, n, start, is_wii) is Ok,
    ensures
        ({
            let s = fst_walk(events, n, start, is_wii)->Ok_0;
            &&& 12 * s.entries.len() + s.bank.len() == fst_len_spec(events, n)
            &&& files_laid_out(events, s.files, start as int, s.offset as int)
            &&& forall|k: int| 0 <= k < s.files.len() ==> (#[trigger] s.files[k]).0 < n
            &&& forall|k: int| 0 <= k < s.stack.len() ==> (#[trigger] s.stack[k]) < s.entries.len()
        }),
    decreases n,
{
    if n > 0 {
        let prev = fst_walk(events, n - 1, start, is_wii);
        if prev is Err {
            lemma_walk_err_stays(events, n - 1, n, start, is_wii, prev->Err_0);
        }
        lemma_fst_walk_layout(events, n - 1, start, is_wii);
        let p = prev->Ok_0;
        let s = fst_walk(events, n, start, is_wii)->Ok_0;
        assert(s == fst_step(p, events[n - 1], n - 1, is_wii)->Ok_0);
        match events[n - 1] {
            FsWalkEvent::File { name, len } => {
                lemma2_to64();
                lemma_align_up(p.offset as int, 5);
                let pos = align_up(p.offset as int, 5);
                assert(len <= 0x7FFF_FFFF_FFFF_FFFF);
                lemma_align_up(pos + len, 2);
                assert(s.files == p.files.push(((n - 1) as usize, pos as u64)));
                assert(event_len(events[n - 1]) == len);
                assert forall|k: int| 0 <= k && k + 1 < s.files.len() implies #[trigger] s.files[k + 1].1
                    >= s.files[k].1 + event_len(events[s.files[k].0 as int]) by {
                    if k + 1 < p.files.len() {
                        assert(s.files[k + 1] == p.files[k + 1]);
                        assert(s.files[k] == p.files[k]);
                    } else {
                        assert(s.files[k] == p.files.last());
                    }
                }
                assert forall|k: int| 0 <= k < s.files.len() implies (#[trigger] s.files[k]).0 < events.len()
                    && events[s.files[k].0 as int] is File && s.files[k].1 % 32 == 0 && s.files[k].1 >= start by {
                    if k < p.files.len() {
                        assert(s.files[k] == p.files[k]);
                    }
                }
                assert(s.entries.len() == p.entries.len() + 1);
                assert(s.bank.len() == p.bank.len() + name@.len() + 1);
                assert(fst_len_spec(events, n) == fst_len_spec(events, n - 1) + 13 + name@.len());
                assert forall|k: int| 0 <= k < s.files.len() implies (#[trigger] s.files[k]).0 < n by {
                    if k < p.files.len() {
                        assert(s.files[k] == p.files[k]);
                    }
                }
            },
            FsWalkEvent::DirStart { name } => {
                assert(s.files == p.files);
                assert(s.offset == p.offset);
                assert(s.entries.len() == p.entries.len() + 1);
                assert(s.bank.len() == p.bank.len() + name@.len() + 1);
                assert(fst_len_spec(events, n) == fst_len_spec(events, n - 1) + 13 + name@.len());
                assert forall|k: int| 0 <= k < s.stack.len() implies (#[trigger] s.stack[k]) < s.entries.len() by {
                    if k < p.stack.len() {
                        assert(s.stack[k] == p.stack[k]);
                    }
                }
            },
            FsWalkEvent::DirEnd => {
                assert(s.files == p.files);
                assert(s.offset == p.offset);
                assert(p.stack.last() == p.stack[p.stack.len() - 1]);
                assert(s.entries.len() == p.entries.len());
                assert(s.bank == p.bank);
                assert forall|k: int| 0 <= k < s.stack.len() implies (#[trigger] s.stack[k]) < s.entries.len() by {
                    assert(s.stack[k] == p.stack[k]);
                }
                assert(fst_len_spec(events, n) == fst_len_spec(events, n - 1));
            },
        }
        assert(12 * s.entries.len() + s.bank.len() == fst_len_spec(events, n));
        assert(files_laid_out(events, s.files, start as int, s.offset as int));
    } else {
        let s = fst_walk(events, n, start, is_wii)->Ok_0;
        assert(s == fst_init(start, is_wii));
        assert(12 * s.entries.len() + s.bank.len() == fst_len_spec(events, n));
    }
}

/// Once the build fails, it fails with the same error to the end.
proof fn lemma_walk_err_stays(events: Seq<FsWalkEvent>, j: int, n: int, start: u64, is_wii: bool, e: GeckoFSError)
    requires
        0 <= j <= n,
        fst_walk(events, j, start, is_wii) == Err::<FstBuild, GeckoFSError>(e),
    ensures
        fst_walk(events, n, start, is_wii) == Err::<FstBuild, GeckoFSError>(e),
    decreases n - j,
{
    if j < n {
        lemma_walk_err_stays(events, j, n - 1, start, is_wii, e);
    }
}

/// The walk after `i + 1` steps is one step after `i` steps.
proof fn lemma_walk_step(events: Seq<FsWalkEvent>, i: int, start: u64, is_wii: bool, s: FstBuild)
    requires
        0 <= i < events.len(),
        fst_walk(events, i, start, is_wii) == Ok::<FstBuild, GeckoFSError>(s),
    ensures
        fst_walk(events, i + 1, start, is_wii) == fst_step(s, events[i], i, is_wii),
{
}

/// The index after the last entry of the directory `i` of the table; zero
/// for a file.
pub open spec fn dir_next(nodes: Seq<FstNode>, i: int) -> int {
    match nodes[i] {
        FstNode::Directory { next_dir_index, .. } => next_dir_index as int,
        FstNode::File { .. } => 0,
    }
}

/// Every directory of the table ends after itself and at most at its end:
/// `1 <= next_dir_index <= nodes.len()`.
pub open spec fn dirs_bounded(nodes: Seq<FstNode>) -> bool {
    forall|i: int|
        0 <= i < nodes.len() && (#[trigger] nodes[i]) is Directory ==> 1 <= dir_next(nodes, i) <= nodes.len()
}

/// The directories of `stack` that are still open at entry `i`: those on
/// top that end at or before `i` are closed.
pub open spec fn close_dirs(nodes: Seq<FstNode>, stack: Seq<usize>, i: int) -> Seq<usize>
    decreases stack.len(),
{
    if stack.len() > 0 && i >= dir_next(nodes, stack.last() as int) {
        close_dirs(nodes, stack.drop_last(), i)
    } else {
        stack
    }
}

/// The parents of the entries `i..` of the table, given the directories
/// open before entry `i`: the innermost open directory, or the root (0).
pub open spec fn parents_from(nodes: Seq<FstNode>, i: int, stack: Seq<usize>) -> Seq<usize>
    decreases nodes.len() - i,
{
    if i < 1 || i >= nodes.len() {
        Seq::empty()
    } else {
        let open = close_dirs(nodes, stack, i);
        let parent: usize = if open.len() > 0 { open.last() } else { 0 };
        let next_open = if nodes[i] is Directory { open.push(i as usize) } else { open };
        seq![parent] + parents_from(nodes, i + 1, next_open)
    }
}

/// The parent of each entry of the table: the root entry is its own, the
/// others are placed in the directories that enclose them.
pub open spec fn fst_parents_spec(nodes: Seq<FstNode>) -> Seq<usize> {
    if nodes.len() == 0 {
        Seq::empty()
    } else {
        seq![0usize] + parents_from(nodes, 1, Seq::empty())
    }
}

/// The directory tree of a file system table: the index of the parent of
/// each entry, the root (entry 0) standing for itself. Each entry is placed
/// in the innermost directory before it whose range it lies in.
pub fn fst_parents(nodes: &[FstNode]) -> (r: Vec<usize>)
    requires
        dirs_bounded(nodes@),
    ensures
        r@ == fst_parents_spec(nodes@),
{
    let n = nodes.len();
    let mut parents: Vec<usize> = Vec::new();
    if n == 0 {
        return parents;
    }
    parents.push(0);
    let mut stack: Vec<usize> = Vec::new();
    let mut i: usize = 1;
    while i < n
        invariant
            1 <= i <= n,
            n == nodes@.len(),
            parents@ + parents_from(nodes@, i as int, stack@) == fst_parents_spec(nodes@),
            forall|k: int| 0 <= k < stack@.len() ==> stack@[k] < i,
        decreases n - i,
    {
        let ghost before = stack@;
        loop
            invariant
                close_dirs(nodes@, stack@, i as int) == close_dirs(nodes@, before, i as int),
                forall|k: int| 0 <= k < stack@.len() ==> stack@[k] < i,
                i < n,
                n == nodes@.len(),
            ensures
                close_dirs(nodes@, stack@, i as int) == close_dirs(nodes@, before, i as int),
                close_dirs(nodes@, stack@, i as int) == stack@,
                forall|k: int| 0 <= k < stack@.len() ==> stack@[k] < i,
            decreases stack@.len(),
        {
            if stack.len() == 0 {
                break;
            }
            let top = stack[stack.len() - 1];
            let closes = match &nodes[top] {
                FstNode::Directory { next_dir_index, .. } => i >= *next_dir_index,
                FstNode::File { .. } => true,
            };
            if !closes {
                break;
            }
            stack.pop();
        }
        let ghost open = stack@;
        assert(open == close_dirs(nodes@, before, i as int));
        let parent = if stack.len() > 0 { stack[stack.len() - 1] } else { 0 };
        let is_dir = match &nodes[i] {
            FstNode::Directory { .. } => true,
            FstNode::File { .. } => false,
        };
        if is_dir {
            stack.push(i);
        }
        let ghost rest = parents_from(nodes@, i as int + 1, stack@);
        assert(parents_from(nodes@, i as int, before) == seq![parent] + rest);
        parents.push(parent);
        assert(parents@ + rest =~= parents@.drop_last() + (seq![parent] + rest));
        i = i + 1;
    }
    assert(parents_from(nodes@, n as int, stack@) =~= Seq::<usize>::empty());
    assert(parents@ + Seq::<usize>::empty() =~= parents@);
    parents
}

/// Closing directories keeps a prefix of the stack, whose top, if any, is
/// still open at `i`.
proof fn lemma_close_dirs(nodes: Seq<FstNode>, stack: Seq<usize>, i: int)
    ensures
        close_dirs(nodes, stack, i).len() <= stack.len(),
        close_dirs(nodes, stack, i) == stack.take(close_dirs(nodes, stack, i).len() as int),
        close_dirs(nodes, stack, i).len() > 0 ==> i < dir_next(nodes, close_dirs(nodes, stack, i).last() as int),
    decreases stack.len(),
{
    if stack.len() > 0 && i >= dir_next(nodes, stack.last() as int) {
        lemma_close_dirs(nodes, stack.drop_last(), i);
        let c = close_dirs(nodes, stack.drop_last(), i);
        assert(c =~= stack.take(c.len() as int));
    } else {
        assert(stack =~= stack.take(stack.len() as int));
    }
}

/// The entries from `j` on are placed in open directories that enclose them.
proof fn lemma_parents_from(nodes: Seq<FstNode>, j: int, stack: Seq<usize>)
    requires
        1 <= j,
        nodes.len() <= usize::MAX,
        forall|k: int| 0 <= k < stack.len() ==> 1 <= #[trigger] stack[k] < j && stack[k] < nodes.len()
            && nodes[stack[k] as int] is Directory,
    ensures
        parents_from(nodes, j, stack).len() == (if j < nodes.len() { nodes.len() - j } else { 0 }),
        forall|k: int| 0 <= k < parents_from(nodes, j, stack).len() ==> {
            let p = #[trigger] parents_from(nodes, j, stack)[k] as int;
            p == 0 || (p < j + k && nodes[p] is Directory && j + k < dir_next(nodes, p))
        },
    decreases nodes.len() - j,
{
    if j < nodes.len() {
        let open = close_dirs(nodes, stack, j);
        lemma_close_dirs(nodes, stack, j);
        assert forall|k: int| 0 <= k < open.len() implies 1 <= #[trigger] open[k] < j && open[k] < nodes.len()
            && nodes[open[k] as int] is Directory by {
            assert(open[k] == stack[k]);
        }
        let next_open = if nodes[j] is Directory { open.push(j as usize) } else { open };
        assert forall|k: int| 0 <= k < next_open.len() implies 1 <= #[trigger] next_open[k] < j + 1
            && next_open[k] < nodes.len() && nodes[next_open[k] as int] is Directory by {
            if k < open.len() {
                assert(next_open[k] == open[k]);
            }
        }
        lemma_parents_from(nodes, j + 1, next_open);
        let pf = parents_from(nodes, j, stack);
        let rest = parents_from(nodes, j + 1, next_open);
        assert(pf == seq![(if open.len() > 0 { open.last() } else { 0usize })] + rest);
        assert forall|k: int| 0 <= k < pf.len() implies {
            let p = #[trigger] pf[k] as int;
            p == 0 || (p < j + k && nodes[p] is Directory && j + k < dir_next(nodes, p))
        } by {
            if k > 0 {
                assert(pf[k] == rest[k - 1]);
            } else if open.len() > 0 {
                assert(open.last() == open[open.len() - 1]);
            }
        }
    }
}

/// Every entry but the root is placed in the root (0) or in a directory
/// before it whose range holds it.
pub proof fn lemma_parent_encloses(nodes: Seq<FstNode>, i: int)
    requires
        1 <= i < nodes.len(),
        nodes.len() <= usize::MAX,
    ensures
        fst_parents_spec(nodes).len() == nodes.len(),
        ({
            let p = fst_parents_spec(nodes)[i] as int;
            p == 0 || (p < i && nodes[p] is Directory && i < dir_next(nodes, p))
        }),
{
    lemma_parents_from(nodes, 1, Seq::empty());
    let pf = parents_from(nodes, 1, Seq::empty());
    assert(fst_parents_spec(nodes)[i] == pf[i - 1]);
}

} // verus!
