//! Files of the virtual file system: where their data comes from, how a
//! seek moves their cursor and what a read hands out.

use vstd::prelude::*;
use crate::iso::FstNode;
use crate::iso::read::SeekPos;

verus! {

/// Where the data of a file comes from: a file of the disc, read through
/// `reader` at the place its FST node gives, or bytes held in memory.
pub enum FileDataSource<R> {
    Reader { reader: R, fst: FstNode },
    Box { data: Vec<u8>, name: String },
}

impl<R> FileDataSource<R> {
    /// A source reads from the disc only through a node of a file.
    pub open spec fn wf(&self) -> bool {
        match self {
            FileDataSource::Reader { fst, .. } => fst is File,
            FileDataSource::Box { .. } => true,
        }
    }

    /// The size of the file's data.
    pub open spec fn len_spec(&self) -> nat {
        match self {
            FileDataSource::Reader { fst, .. } => match fst {
                FstNode::File { file_size, .. } => *file_size as nat,
                FstNode::Directory { .. } => 0,
            },
            FileDataSource::Box { data, .. } => data@.len(),
        }
    }

    /// The name of the file.
    pub fn name(&self) -> (r: String)
        ensures
            r@ == (match self {
                FileDataSource::Reader { fst, .. } => match fst {
                    FstNode::File { relative_file_name, .. } => relative_file_name@,
                    FstNode::Directory { relative_file_name, .. } => relative_file_name@,
                },
                FileDataSource::Box { name, .. } => name@,
            }),
    {
        match self {
            FileDataSource::Reader { fst, .. } => fst.get_relative_file_name().to_owned(),
            FileDataSource::Box { name, .. } => name.clone(),
        }
    }

    /// The size of the file's data.
    pub fn len(&self) -> (r: usize)
        requires
            self.wf(),
        ensures
            r == self.len_spec(),
    {
        match self {
            FileDataSource::Reader { fst, .. } => match fst.get_file_size() {
                Some(size) => size,
                None => 0,
            },
            FileDataSource::Box { data, .. } => data.len(),
        }
    }

    /// Whether the file holds no data.
    pub fn is_empty(&self) -> (r: bool)
        requires
            self.wf(),
        ensures
            r == (self.len_spec() == 0),
    {
        self.len() == 0
    }
}

/// The cursor of a file of `len` bytes after a seek; none when the seek is
/// refused. A seek from the start may reach the end and no further; one from
/// the end takes no positive offset and stays in the file; one from the
/// cursor stays between the start and the end.
pub open spec fn file_seek_spec(cursor: int, pos: SeekPos, len: int) -> Option<int> {
    match pos {
        SeekPos::Start(p) => if p > len {
            None
        } else {
            Some(p as int)
        },
        SeekPos::End(p) => if len + p < 0 || p > 0 {
            None
        } else {
            Some(len + p)
        },
        SeekPos::Current(p) => if cursor + p < 0 || cursor + p > len {
            None
        } else {
            Some(cursor + p)
        },
    }
}

/// Moves the cursor of a file of `len` bytes (see `file_seek_spec`).
pub fn file_seek(cursor: u64, pos: SeekPos, len: u64) -> (r: Option<u64>)
    ensures
        match file_seek_spec(cursor as int, pos, len as int) {
            Some(c) => r == Some(c as u64),
            None => r is None,
        },
        r matches Some(c) ==> c <= len,
{
    match pos {
        SeekPos::Start(p) => if p > len {
            None
        } else {
            Some(p)
        },
        SeekPos::End(p) => {
            let moved = len as i128 + p as i128;
            if moved < 0 || p > 0 {
                None
            } else {
                Some(moved as u64)
            }
        },
        SeekPos::Current(p) => {
            let moved = cursor as i128 + p as i128;
            if moved < 0 || moved > len as i128 {
                None
            } else {
                Some(moved as u64)
            }
        },
    }
}

/// Reads from data held in memory at `cursor` into `buf`: as many bytes as
/// `buf` holds or the data has left, whichever is fewer. Refused (none)
/// when the cursor is past the end; the bytes of `buf` after the count read
/// stay as they were.
pub fn read_from_memory(data: &[u8], cursor: u64, buf: &mut [u8]) -> (r: Option<usize>)
    ensures
        match r {
            None => cursor > data@.len() && final(buf)@ == old(buf)@,
            Some(n) => {
                &&& cursor <= data@.len()
                &&& n == if old(buf)@.len() < data@.len() - cursor {
                    old(buf)@.len() as int
                } else {
                    data@.len() - cursor
                }
                &&& final(buf)@.len() == old(buf)@.len()
                &&& final(buf)@.take(n as int) == data@.subrange(cursor as int, cursor + n)
                &&& final(buf)@.skip(n as int) == old(buf)@.skip(n as int)
            },
        },
{
    let len = data.len();
    if cursor > len as u64 {
        return None;
    }
    let start = cursor as usize;
    let left = len - start;
    let n = if buf.len() < left {
        buf.len()
    } else {
        left
    };
    let mut i: usize = 0;
    while i < n
        invariant
            0 <= i <= n,
            start + n <= len == data@.len(),
            n <= buf@.len() == old(buf)@.len(),
            forall|k: int| 0 <= k < i ==> buf@[k] == data@[start + k],
            forall|k: int| i <= k < buf@.len() ==> buf@[k] == old(buf)@[k],
        decreases n - i,
    {
        buf[i] = data[start + i];
        i = i + 1;
    }
    assert(buf@.take(n as int) =~= data@.subrange(cursor as int, cursor + n));
    assert(buf@.skip(n as int) =~= old(buf)@.skip(n as int));
    Some(n)
}

/// The state of a read of a file of the disc: the disc reader is first
/// moved to the file's cursor, then read from.
#[derive(Debug, Clone, Copy, PartialEq, Eq, Structural)]
pub enum FileState {
    Init,
    Seeking,
    Reading,
}

/// What a read of a file of the disc asks of the disc reader next.
#[derive(Debug, Clone, Copy, PartialEq, Eq, Structural)]
pub enum FileReadAction {
    /// Nothing yet: ask to be polled again.
    Wake,
    /// Move the disc reader to this position.
    SeekDisc(u64),
    /// Read at most this many bytes from the disc reader.
    ReadDisc(usize),
}

/// The step of a read of a file that starts at `offset` on the disc and
/// holds `len` bytes, with its cursor at `cursor`, for a buffer of
/// `buf_len` bytes: the action, and the state once the action succeeded.
/// A state from which an action failed is `Seeking`.
pub fn file_read_step(state: FileState, offset: u64, len: usize, cursor: u64, buf_len: usize) -> (r: (
    FileState,
    FileReadAction,
))
    requires
        cursor <= len,
        offset + cursor <= u64::MAX,
    ensures
        r == (match state {
            FileState::Init => (FileState::Seeking, FileReadAction::Wake),
            FileState::Seeking => (FileState::Reading, FileReadAction::SeekDisc((offset + cursor) as u64)),
            FileState::Reading => (
                FileState::Seeking,
                FileReadAction::ReadDisc(
                    if buf_len < len - cursor {
                        buf_len
                    } else {
                        (len - cursor) as usize
                    },
                ),
            ),
        }),
{
    match state {
        FileState::Init => (FileState::Seeking, FileReadAction::Wake),
        FileState::Seeking => (FileState::Reading, FileReadAction::SeekDisc(offset + cursor)),
        FileState::Reading => {
            let left = (len as u64 - cursor) as usize;
            let n = if buf_len < left {
                buf_len
            } else {
                left
            };
            (FileState::Seeking, FileReadAction::ReadDisc(n))
        },
    }
}

/// The disc position a seek of a file that starts at `offset` moves the
/// disc reader to, for the new cursor `cursor` (see `file_seek`).
pub fn disc_seek_target(offset: u64, cursor: u64) -> (r: Option<u64>)
    ensures
        r == (if offset + cursor <= u64::MAX {
            Some((offset + cursor) as u64)
        } else {
            None::<u64>
        }),
{
    offset.checked_add(cursor)
}

} // verus!
