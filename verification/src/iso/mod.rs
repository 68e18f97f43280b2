//! The file system table (FST) of GameCube and Wii discs, and the Wii disc
//! structures in [`disc`].

use vstd::prelude::*;
use crate::bytes::{push_be_u32, read_be_u32, seq_be_u32, u32_be_bytes, lemma_u32_roundtrip};
use crate::crypto::keys::Unpackable;

pub mod builder;
pub mod disc;
pub mod read;
pub mod write;

verus! {

/// Kinds of FST entries.
#[derive(Debug, Copy, Clone, PartialEq, Eq, PartialOrd, Ord, Default, Structural)]
pub enum FstNodeType {
    #[default]
    File,
    Directory,
}

/// The FST node type with the tag `v`.
pub open spec fn fst_node_type_from(v: u8) -> Option<FstNodeType> {
    if v == 0 {
        Some(FstNodeType::File)
    } else if v == 1 {
        Some(FstNodeType::Directory)
    } else {
        None
    }
}

/// The tag of an FST node type.
pub open spec fn fst_node_type_tag(t: FstNodeType) -> u8 {
    match t {
        FstNodeType::File => 0,
        FstNodeType::Directory => 1,
    }
}

/// Errors of reading and building FST entries.
#[derive(Debug, Clone, Copy, PartialEq, Eq, Structural)]
pub enum FstError {
    /// The node type tag is neither 0 (file) nor 1 (directory).
    InvalidNodeType { value: u8 },
    /// Fewer than twelve bytes were given.
    InvalidLength { length: usize },
    /// The file offset does not fit in the entry.
    OffsetTooLarge { offset: u64 },
    /// A file name is not UTF-8.
    InvalidFileName,
}

impl FstNodeType {
    /// The node type with the tag `value`.
    pub fn try_from_u8(value: u8) -> (r: Result<FstNodeType, FstError>)
        ensures
            match fst_node_type_from(value) {
                Some(t) => r == Ok::<FstNodeType, FstError>(t),
                None => r == Err::<FstNodeType, FstError>(FstError::InvalidNodeType { value }),
            },
    {
        match value {
            0 => Ok(FstNodeType::File),
            1 => Ok(FstNodeType::Directory),
            n => Err(FstError::InvalidNodeType { value: n }),
        }
    }

    /// The tag of the node type.
    pub fn tag(self) -> (r: u8)
        ensures
            r == fst_node_type_tag(self),
    {
        match self {
            FstNodeType::File => 0,
            FstNodeType::Directory => 1,
        }
    }
}

/// Size of an encoded FST entry.
pub const FST_ENTRY_SIZE: usize = 0xC;

/// An entry of the FST: a file or a directory.
#[derive(Debug, Clone, Copy, Default, PartialEq, Eq, Structural)]
pub struct FstEntry {
    node_type_file_name_offset: u32,
    file_offset_parent_dir: u32,
    file_size_next_dir_index: u32,
}

/// Abstract content of an FST entry: its three big-endian words.
pub struct FstEntryView {
    pub node_type_file_name_offset: u32,
    pub file_offset_parent_dir: u32,
    pub file_size_next_dir_index: u32,
}

impl View for FstEntry {
    type V = FstEntryView;

    closed spec fn view(&self) -> FstEntryView {
        FstEntryView {
            node_type_file_name_offset: self.node_type_file_name_offset,
            file_offset_parent_dir: self.file_offset_parent_dir,
            file_size_next_dir_index: self.file_size_next_dir_index,
        }
    }
}

/// The encoding of an FST entry.
pub open spec fn fst_entry_bytes(e: FstEntryView) -> Seq<u8> {
    u32_be_bytes(e.node_type_file_name_offset) + u32_be_bytes(e.file_offset_parent_dir)
        + u32_be_bytes(e.file_size_next_dir_index)
}

/// The node type tag of an entry: its top byte.
pub open spec fn fst_tag(e: FstEntryView) -> u8 {
    (e.node_type_file_name_offset / 0x100_0000) as u8
}

/// Shift of the file offsets stored in an entry: Wii discs store them
/// divided by four.
pub open spec fn offset_shift(is_wii: bool) -> nat {
    if is_wii {
        2
    } else {
        0
    }
}

impl Unpackable for FstEntry {
    open spec fn block_size() -> nat {
        FST_ENTRY_SIZE as nat
    }

    fn get_block_size() -> (r: usize) {
        FST_ENTRY_SIZE
    }
}

impl FstEntry {
    /// Reads an entry from its first twelve bytes; the node type must be
    /// known.
    pub fn try_from_bytes(value: &[u8]) -> (r: Result<FstEntry, FstError>)
        ensures
            value@.len() < FST_ENTRY_SIZE ==> r == Err::<FstEntry, FstError>(
                FstError::InvalidLength { length: value@.len() as usize },
            ),
            value@.len() >= FST_ENTRY_SIZE ==> ({
                let w0 = seq_be_u32(value@, 0);
                let tag = (w0 / 0x100_0000) as u8;
                match fst_node_type_from(tag) {
                    None => r == Err::<FstEntry, FstError>(FstError::InvalidNodeType { value: tag }),
                    Some(_) => r matches Ok(e) && e@ == (FstEntryView {
                        node_type_file_name_offset: w0,
                        file_offset_parent_dir: seq_be_u32(value@, 4),
                        file_size_next_dir_index: seq_be_u32(value@, 8),
                    }),
                }
            }),
    {
        if value.len() < FST_ENTRY_SIZE {
            return Err(FstError::InvalidLength { length: value.len() });
        }
        let node_type_file_name_offset = read_be_u32(value, 0);
        let tag = (node_type_file_name_offset >> 24u32) as u8;
        assert(node_type_file_name_offset >> 24u32 == node_type_file_name_offset / 0x100_0000) by (bit_vector);
        match FstNodeType::try_from_u8(tag) {
            Ok(_) => {},
            Err(e) => return Err(e),
        }
        let file_offset_parent_dir = read_be_u32(value, 4);
        let file_size_next_dir_index = read_be_u32(value, 8);
        Ok(FstEntry { node_type_file_name_offset, file_offset_parent_dir, file_size_next_dir_index })
    }

    /// The twelve bytes of the entry.
    pub fn pack(&self) -> (r: Vec<u8>)
        ensures
            r@ == fst_entry_bytes(self@),
    {
        let mut buf: Vec<u8> = Vec::new();
        push_be_u32(&mut buf, self.node_type_file_name_offset);
        push_be_u32(&mut buf, self.file_offset_parent_dir);
        push_be_u32(&mut buf, self.file_size_next_dir_index);
        assert(buf@ =~= fst_entry_bytes(self@));
        buf
    }

    pub fn get_node_type(&self) -> (r: FstNodeType)
        requires
            fst_node_type_from(fst_tag(self@)) is Some,
        ensures
            Some(r) == fst_node_type_from(fst_tag(self@)),
    {
        let w = self.node_type_file_name_offset;
        let tag = (w >> 24u32) as u8;
        assert(w >> 24u32 == w / 0x100_0000) by (bit_vector);
        if tag == 0 {
            FstNodeType::File
        } else {
            FstNodeType::Directory
        }
    }

    pub fn set_node_type(&mut self, node_type: FstNodeType)
        ensures
            final(self)@.node_type_file_name_offset == old(self)@.node_type_file_name_offset % 0x100_0000
                + fst_node_type_tag(node_type) * 0x100_0000,
            final(self)@.file_offset_parent_dir == old(self)@.file_offset_parent_dir,
            final(self)@.file_size_next_dir_index == old(self)@.file_size_next_dir_index,
    {
        let v = self.node_type_file_name_offset;
        let t = node_type.tag() as u32;
        assert(t <= 1);
        assert((v & 0x00FFFFFFu32) | (t << 24u32) == v % 0x100_0000 + t * 0x100_0000) by (bit_vector)
            requires t <= 1;
        self.node_type_file_name_offset = (v & 0x00FFFFFF) | (t << 24u32);
    }

    pub fn get_file_name_offset(&self) -> (r: u32)
        ensures
            r == self@.node_type_file_name_offset % 0x100_0000,
    {
        let v = self.node_type_file_name_offset;
        assert(v & 0x00FFFFFFu32 == v % 0x100_0000) by (bit_vector);
        v & 0x00FFFFFF
    }

    pub fn set_file_name_offset(&mut self, file_name_offset: u32)
        ensures
            final(self)@.node_type_file_name_offset == old(self)@.node_type_file_name_offset
                - old(self)@.node_type_file_name_offset % 0x100_0000 + file_name_offset % 0x100_0000,
            final(self)@.file_offset_parent_dir == old(self)@.file_offset_parent_dir,
            final(self)@.file_size_next_dir_index == old(self)@.file_size_next_dir_index,
    {
        let v = self.node_type_file_name_offset;
        assert((v & 0xFF000000u32) | (file_name_offset & 0x00FFFFFFu32) == v - v % 0x100_0000
            + file_name_offset % 0x100_0000) by (bit_vector);
        self.node_type_file_name_offset = (v & 0xFF000000) | (file_name_offset & 0x00FFFFFF);
    }

    /// The file offset (or parent directory), shifted back on Wii discs.
    pub fn get_file_offset(&self, is_wii: bool) -> (r: u64)
        ensures
            r == self@.file_offset_parent_dir * (if is_wii { 4int } else { 1int }),
    {
        let v = self.file_offset_parent_dir as u64;
        if is_wii {
            assert(v << 2u64 == v * 4) by (bit_vector)
                requires v <= 0xFFFF_FFFF;
            v << 2u64
        } else {
            v
        }
    }

    /// Stores a file offset (or parent directory), divided by four on Wii
    /// discs; fails on offsets past `u32::MAX << 2`. On GameCube discs an
    /// offset past `u32::MAX` is cut to its low 32 bits.
    pub fn set_file_offset_parent_dir(&mut self, file_offset_parent_dir: u64, is_wii: bool) -> (r:
        Result<(), FstError>)
        ensures
            file_offset_parent_dir > 0x3_FFFF_FFFC ==> r == Err::<(), FstError>(
                FstError::OffsetTooLarge { offset: file_offset_parent_dir },
            ) && *final(self) == *old(self),
            file_offset_parent_dir <= 0x3_FFFF_FFFC ==> r is Ok && final(self)@.file_offset_parent_dir
                == (if is_wii {
                file_offset_parent_dir / 4
            } else {
                file_offset_parent_dir % 0x1_0000_0000
            }) && final(self)@.node_type_file_name_offset == old(self)@.node_type_file_name_offset
                && final(self)@.file_size_next_dir_index == old(self)@.file_size_next_dir_index,
    {
        if file_offset_parent_dir > 0x3_FFFF_FFFC {
            return Err(FstError::OffsetTooLarge { offset: file_offset_parent_dir });
        }
        let v = file_offset_parent_dir;
        if is_wii {
            assert((v >> 2u64) as u32 == v / 4) by (bit_vector)
                requires v <= 0x3_FFFF_FFFC;
            self.file_offset_parent_dir = (v >> 2u64) as u32;
        } else {
            assert(v as u32 == v % 0x1_0000_0000) by (bit_vector);
            self.file_offset_parent_dir = v as u32;
        }
        Ok(())
    }

    pub fn get_file_size_next_dir_index(&self) -> (r: u32)
        ensures
            r == self@.file_size_next_dir_index,
    {
        self.file_size_next_dir_index
    }

    pub fn set_file_size_next_dir_index(&mut self, file_size_next_dir_index: u32)
        ensures
            final(self)@.file_size_next_dir_index == file_size_next_dir_index,
            final(self)@.node_type_file_name_offset == old(self)@.node_type_file_name_offset,
            final(self)@.file_offset_parent_dir == old(self)@.file_offset_parent_dir,
    {
        self.file_size_next_dir_index = file_size_next_dir_index;
    }

    /// A file entry.
    pub fn new_file(file_name_offset: u32, file_offset: u64, file_size: u32, is_wii: bool) -> (r:
        Result<FstEntry, FstError>)
        ensures
            file_offset > 0x3_FFFF_FFFC ==> r == Err::<FstEntry, FstError>(
                FstError::OffsetTooLarge { offset: file_offset },
            ),
            file_offset <= 0x3_FFFF_FFFC ==> (r matches Ok(e) && e@ == (FstEntryView {
                node_type_file_name_offset: file_name_offset % 0x100_0000,
                file_offset_parent_dir: (if is_wii {
                    file_offset / 4
                } else {
                    file_offset % 0x1_0000_0000
                }) as u32,
                file_size_next_dir_index: file_size,
            })),
    {
        let mut node = FstEntry { node_type_file_name_offset: 0, file_offset_parent_dir: 0, file_size_next_dir_index: 0 };
        node.set_node_type(FstNodeType::File);
        node.set_file_name_offset(file_name_offset);
        match node.set_file_offset_parent_dir(file_offset, is_wii) {
            Ok(()) => {},
            Err(e) => return Err(e),
        }
        node.set_file_size_next_dir_index(file_size);
        Ok(node)
    }

    /// A directory entry.
    pub fn new_directory(file_name_offset: u32, parent_dir: u64, next_dir_index: u32, is_wii: bool) -> (r:
        Result<FstEntry, FstError>)
        ensures
            parent_dir > 0x3_FFFF_FFFC ==> r == Err::<FstEntry, FstError>(
                FstError::OffsetTooLarge { offset: parent_dir },
            ),
            parent_dir <= 0x3_FFFF_FFFC ==> (r matches Ok(e) && e@ == (FstEntryView {
                node_type_file_name_offset: (0x100_0000 + file_name_offset % 0x100_0000) as u32,
                file_offset_parent_dir: (if is_wii {
                    parent_dir / 4
                } else {
                    parent_dir % 0x1_0000_0000
                }) as u32,
                file_size_next_dir_index: next_dir_index,
            })),
    {
        let mut node = FstEntry { node_type_file_name_offset: 0, file_offset_parent_dir: 0, file_size_next_dir_index: 0 };
        node.set_node_type(FstNodeType::Directory);
        node.set_file_name_offset(file_name_offset);
        match node.set_file_offset_parent_dir(parent_dir, is_wii) {
            Ok(()) => {},
            Err(e) => return Err(e),
        }
        node.set_file_size_next_dir_index(next_dir_index);
        Ok(node)
    }
}

/// Reading back the bytes of an entry of a known node type gives the entry.
pub proof fn lemma_fst_entry_roundtrip(e: FstEntryView)
    ensures
        seq_be_u32(fst_entry_bytes(e), 0) == e.node_type_file_name_offset,
        seq_be_u32(fst_entry_bytes(e), 4) == e.file_offset_parent_dir,
        seq_be_u32(fst_entry_bytes(e), 8) == e.file_size_next_dir_index,
        fst_entry_bytes(e).len() == FST_ENTRY_SIZE,
{
    let s = fst_entry_bytes(e);
    lemma_u32_roundtrip(e.node_type_file_name_offset);
    lemma_u32_roundtrip(e.file_offset_parent_dir);
    lemma_u32_roundtrip(e.file_size_next_dir_index);
    assert(s.subrange(0, 4) =~= u32_be_bytes(e.node_type_file_name_offset));
    assert(s.subrange(4, 8) =~= u32_be_bytes(e.file_offset_parent_dir));
    assert(s.subrange(8, 12) =~= u32_be_bytes(e.file_size_next_dir_index));
    assert(seq_be_u32(s, 0) == seq_be_u32(s.subrange(0, 4), 0));
    assert(seq_be_u32(s, 4) == seq_be_u32(s.subrange(4, 8), 0));
    assert(seq_be_u32(s, 8) == seq_be_u32(s.subrange(8, 12), 0));
}

/// A Wii file offset that is a multiple of four, stored and read back, is
/// the offset itself; on GameCube discs any offset below 2^32 is.
pub proof fn lemma_file_offset_roundtrip(offset: u64, is_wii: bool)
    requires
        offset <= 0x3_FFFF_FFFC,
        is_wii ==> offset % 4 == 0,
        !is_wii ==> offset < 0x1_0000_0000,
    ensures
        ((if is_wii { offset / 4 } else { offset % 0x1_0000_0000 }) as u32) * (if is_wii {
            4int
        } else {
            1int
        }) == offset,
{
}


/// The characters that the bytes `bytes` decode to as UTF-8; none when
/// they are not UTF-8.
pub uninterp spec fn utf8_decode(bytes: Seq<u8>) -> Option<Seq<char>>;

/// Decodes UTF-8 with `String::from_utf8`. Trusted: the string is the named
/// decoding of the bytes, and it fails exactly when that decoding does.
#[verifier::external_body]
fn string_from_utf8(bytes: Vec<u8>) -> (r: Option<String>)
    ensures
        match utf8_decode(bytes@) {
            Some(cs) => r matches Some(s) && s@ == cs,
            None => r is None,
        },
{
    String::from_utf8(bytes).ok()
}

/// An FST entry with its name resolved.
#[derive(Debug, Clone)]
pub enum FstNode {
    File {
        /// Name of the file.
        relative_file_name: String,
        /// File offset.
        file_offset: u64,
        /// File size.
        file_size: usize,
    },
    Directory {
        /// Name of the directory.
        relative_file_name: String,
        /// Parent directory.
        parent_dir: u64,
        /// Index of the entry after the directory's last one.
        next_dir_index: usize,
    },
}

impl Default for FstNode {
    fn default() -> (r: Self)
        ensures
            r matches FstNode::File { relative_file_name, file_offset, file_size } && relative_file_name@
                == Seq::<char>::empty() && file_offset == 0 && file_size == 0,
    {
        FstNode::File { relative_file_name: String::new(), file_offset: 0, file_size: 0 }
    }
}

/// The name that starts at `pos` in the table: the bytes up to the next NUL
/// byte, which stands at `end`.
pub open spec fn name_ends_at(table: Seq<u8>, pos: int, end: int) -> bool {
    &&& pos <= end < table.len()
    &&& table[end] == 0
    &&& forall|k: int| pos <= k < end ==> table[k] != 0
}

/// A NUL byte stands in the table at or after `pos`.
pub open spec fn name_terminated(table: Seq<u8>, pos: int) -> bool {
    exists|end: int| pos <= end < table.len() && table[end] == 0
}

impl FstNode {
    /// Resolves the entry `node` with the names of `file_name_table`. Fails
    /// when the name is not UTF-8 or the node type is unknown.
    pub fn from_fstnode(node: &FstEntry, file_name_table: &[u8]) -> (r: Result<FstNode, FstError>)
        requires
            name_terminated(file_name_table@, (node@.node_type_file_name_offset % 0x100_0000) as int),
        ensures
            ({
                let pos = (node@.node_type_file_name_offset % 0x100_0000) as int;
                let end = choose|end: int| name_ends_at(file_name_table@, pos, end);
                match utf8_decode(file_name_table@.subrange(pos, end)) {
                    None => r == Err::<FstNode, FstError>(FstError::InvalidFileName),
                    Some(name) => match fst_node_type_from(fst_tag(node@)) {
                        None => r == Err::<FstNode, FstError>(
                            FstError::InvalidNodeType { value: fst_tag(node@) },
                        ),
                        Some(FstNodeType::File) => r matches Ok(
                            FstNode::File { relative_file_name, file_offset, file_size },
                        ) && relative_file_name@ == name && file_offset
                            == node@.file_offset_parent_dir && file_size
                            == node@.file_size_next_dir_index,
                        Some(FstNodeType::Directory) => r matches Ok(
                            FstNode::Directory { relative_file_name, parent_dir, next_dir_index },
                        ) && relative_file_name@ == name && parent_dir
                            == node@.file_offset_parent_dir && next_dir_index
                            == node@.file_size_next_dir_index,
                    },
                }
            }),
    {
        let pos = node.get_file_name_offset() as usize;
        let mut end = pos;
        let ghost e0 = choose|end: int| pos <= end < file_name_table@.len() && file_name_table@[end] == 0;
        while file_name_table[end] != 0
            invariant
                pos <= end <= e0 < file_name_table@.len(),
                file_name_table@[e0] == 0,
                forall|k: int| pos <= k < end ==> file_name_table@[k] != 0,
            decreases e0 - end,
        {
            end = end + 1;
        }
        proof {
            let c = choose|c: int| name_ends_at(file_name_table@, pos as int, c);
            assert(name_ends_at(file_name_table@, pos as int, end as int));
            if c < end {
                assert(file_name_table@[c] != 0);
            } else if c > end {
                assert(file_name_table@[end as int] != 0);
            }
            assert(c == end);
        }
        let str_buf = vstd::slice::slice_to_vec(vstd::slice::slice_subrange(file_name_table, pos, end));
        let relative_file_name = match string_from_utf8(str_buf) {
            Some(s) => s,
            None => return Err(FstError::InvalidFileName),
        };
        let w = node.node_type_file_name_offset;
        assert(w >> 24u32 == w / 0x100_0000) by (bit_vector);
        match FstNodeType::try_from_u8((w >> 24u32) as u8) {
            Ok(FstNodeType::File) => Ok(
                FstNode::File {
                    relative_file_name,
                    file_offset: node.file_offset_parent_dir as u64,
                    file_size: node.file_size_next_dir_index as usize,
                },
            ),
            Ok(FstNodeType::Directory) => Ok(
                FstNode::Directory {
                    relative_file_name,
                    parent_dir: node.file_offset_parent_dir as u64,
                    next_dir_index: node.file_size_next_dir_index as usize,
                },
            ),
            Err(e) => Err(e),
        }
    }

    pub fn get_relative_file_name(&self) -> (r: &str)
        ensures
            r@ == (match self {
                FstNode::File { relative_file_name, .. } => relative_file_name@,
                FstNode::Directory { relative_file_name, .. } => relative_file_name@,
            }),
    {
        match self {
            FstNode::File { relative_file_name, .. } => relative_file_name.as_str(),
            FstNode::Directory { relative_file_name, .. } => relative_file_name.as_str(),
        }
    }

    pub fn get_file_offset(&self) -> (r: Option<u64>)
        ensures
            r == (match self {
                FstNode::File { file_offset, .. } => Some(*file_offset),
                _ => None,
            }),
    {
        match self {
            FstNode::File { file_offset, .. } => Some(*file_offset),
            _ => None,
        }
    }

    pub fn get_file_size(&self) -> (r: Option<usize>)
        ensures
            r == (match self {
                FstNode::File { file_size, .. } => Some(*file_size),
                _ => None,
            }),
    {
        match self {
            FstNode::File { file_size, .. } => Some(*file_size),
            _ => None,
        }
    }

    pub fn get_parent_dir(&self) -> (r: Option<u64>)
        ensures
            r == (match self {
                FstNode::Directory { parent_dir, .. } => Some(*parent_dir),
                _ => None,
            }),
    {
        match self {
            FstNode::Directory { parent_dir, .. } => Some(*parent_dir),
            _ => None,
        }
    }

    pub fn get_next_dir_index(&self) -> (r: Option<usize>)
        ensures
            r == (match self {
                FstNode::Directory { next_dir_index, .. } => Some(*next_dir_index),
                _ => None,
            }),
    {
        match self {
            FstNode::Directory { next_dir_index, .. } => Some(*next_dir_index),
            _ => None,
        }
    }

    pub fn is_file(&self) -> (r: bool)
        ensures
            r == (self is File),
    {
        match self {
            FstNode::File { .. } => true,
            _ => false,
        }
    }

    pub fn is_directory(&self) -> (r: bool)
        ensures
            r == (self is Directory),
    {
        match self {
            FstNode::Directory { .. } => true,
            _ => false,
        }
    }

    pub fn get_file_offset_mut(&mut self) -> (r: Option<&mut u64>)
        ensures
            match *old(self) {
                FstNode::File { relative_file_name, file_offset, file_size } => r matches Some(x)
                    && *x == file_offset && *final(self) == (FstNode::File {
                    relative_file_name,
                    file_offset: *final(x),
                    file_size,
                }),
                FstNode::Directory { .. } => r is None && *final(self) == *old(self),
            },
    {
        match self {
            FstNode::File { file_offset, .. } => Some(file_offset),
            _ => None,
        }
    }

    pub fn get_file_size_mut(&mut self) -> (r: Option<&mut usize>)
        ensures
            match *old(self) {
                FstNode::File { relative_file_name, file_offset, file_size } => r matches Some(x)
                    && *x == file_size && *final(self) == (FstNode::File {
                    relative_file_name,
                    file_offset,
                    file_size: *final(x),
                }),
                FstNode::Directory { .. } => r is None && *final(self) == *old(self),
            },
    {
        match self {
            FstNode::File { file_size, .. } => Some(file_size),
            _ => None,
        }
    }

    pub fn get_parent_dir_mut(&mut self) -> (r: Option<&mut u64>)
        ensures
            match *old(self) {
                FstNode::Directory { relative_file_name, parent_dir, next_dir_index } => r matches Some(
                    x,
                ) && *x == parent_dir && *final(self) == (FstNode::Directory {
                    relative_file_name,
                    parent_dir: *final(x),
                    next_dir_index,
                }),
                FstNode::File { .. } => r is None && *final(self) == *old(self),
            },
    {
        match self {
            FstNode::Directory { parent_dir, .. } => Some(parent_dir),
            _ => None,
        }
    }

    pub fn get_next_dir_index_mut(&mut self) -> (r: Option<&mut usize>)
        ensures
            match *old(self) {
                FstNode::Directory { relative_file_name, parent_dir, next_dir_index } => r matches Some(
                    x,
                ) && *x == next_dir_index && *final(self) == (FstNode::Directory {
                    relative_file_name,
                    parent_dir,
                    next_dir_index: *final(x),
                }),
                FstNode::File { .. } => r is None && *final(self) == *old(self),
            },
    {
        match self {
            FstNode::Directory { next_dir_index, .. } => Some(next_dir_index),
            _ => None,
        }
    }

    pub fn get_relative_file_name_mut(&mut self) -> (r: &mut String)
        ensures
            match *old(self) {
                FstNode::File { relative_file_name, file_offset, file_size } => *r == relative_file_name
                    && *final(self) == (FstNode::File {
                    relative_file_name: *final(r),
                    file_offset,
                    file_size,
                }),
                FstNode::Directory { relative_file_name, parent_dir, next_dir_index } => *r
                    == relative_file_name && *final(self) == (FstNode::Directory {
                    relative_file_name: *final(r),
                    parent_dir,
                    next_dir_index,
                }),
            },
    {
        match self {
            FstNode::File { relative_file_name, .. } => relative_file_name,
            FstNode::Directory { relative_file_name, .. } => relative_file_name,
        }
    }
}

} // verus!
