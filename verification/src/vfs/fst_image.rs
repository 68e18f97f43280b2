//! The bytes of a file system table that was built from a walk of a file
//! tree, and what reading them back gives: the entries that were built,
//! the string table, and for each step of the walk its kind, its name and,
//! for a file, its offset and size.

use vstd::prelude::*;
use crate::bytes::{push_bytes, seq_be_u32};
use crate::iso::{fst_entry_bytes, fst_tag, lemma_fst_entry_roundtrip, name_ends_at, FstEntryView, FstNode};
use crate::iso::disc::{align_up, lemma_align_up};
use crate::vfs::{
    dir_entry, file_entry, fst_count, fst_init, fst_name_bytes, fst_node_read, offset_mult, fst_entry_at, fst_finished, fst_step, fst_table, fst_walk, with_next, FsWalkEvent,
    FstBuild, FstImage, GeckoFSError, entries_view,
};
use vstd::arithmetic::power2::{lemma2_to64, pow2};
use crate::vfs::gecko_fs::events_of;
use crate::vfs::tree::{event_is, tree_wf, FsTree, WalkItem};

verus! {

/// The bytes of the entries `e`, twelve each, one after the other.
pub open spec fn fst_entries_bytes(e: Seq<FstEntryView>) -> Seq<u8>
    decreases e.len(),
{
    if e.len() == 0 {
        Seq::empty()
    } else {
        fst_entries_bytes(e.drop_last()) + fst_entry_bytes(e.last())
    }
}

/// The bytes of a file system table: its entries, then its string table.
pub open spec fn fst_image_bytes(e: Seq<FstEntryView>, bank: Seq<u8>) -> Seq<u8> {
    fst_entries_bytes(e) + bank
}

proof fn lemma_entries_bytes(e: Seq<FstEntryView>)
    ensures
        fst_entries_bytes(e).len() == 12 * e.len(),
        forall|i: int, j: int|
            0 <= i < e.len() && 0 <= j < 12 ==> #[trigger] fst_entries_bytes(e)[12 * i + j] == fst_entry_bytes(
                e[i],
            )[j],
    decreases e.len(),
{
    if e.len() > 0 {
        let p = e.drop_last();
        lemma_entries_bytes(p);
        lemma_fst_entry_roundtrip(e.last());
        assert forall|i: int, j: int| 0 <= i < e.len() && 0 <= j < 12 implies #[trigger] fst_entries_bytes(e)[12 * i
            + j] == fst_entry_bytes(e[i])[j] by {
            if i < e.len() - 1 {
                assert(fst_entries_bytes(p)[12 * i + j] == fst_entry_bytes(p[i])[j]);
            }
        }
    }
}

/// Reading the entries of a table back: entry `i` is the `i`-th entry
/// written, the count is what the root says, and the string table follows
/// the entries.
pub proof fn lemma_fst_image_entries(e: Seq<FstEntryView>, bank: Seq<u8>)
    requires
        e.len() >= 1,
        e[0].file_size_next_dir_index == e.len(),
    ensures
        fst_count(fst_image_bytes(e, bank)) == e.len(),
        fst_table(fst_image_bytes(e, bank)) == bank,
        forall|i: int| 0 <= i < e.len() ==> #[trigger] fst_entry_at(fst_image_bytes(e, bank), i) == e[i],
{
    let img = fst_image_bytes(e, bank);
    lemma_entries_bytes(e);
    assert forall|i: int| 0 <= i < e.len() implies #[trigger] fst_entry_at(img, i) == e[i] by {
        let b = fst_entry_bytes(e[i]);
        lemma_fst_entry_roundtrip(e[i]);
        assert forall|j: int| 0 <= j < 12 implies img[12 * i + j] == #[trigger] b[j] by {
            assert(fst_entries_bytes(e)[12 * i + j] == b[j]);
        }
        assert(img[12 * i] == b[0] && img[12 * i + 1] == b[1] && img[12 * i + 2] == b[2] && img[12 * i + 3] == b[3]);
        assert(img[12 * i + 4] == b[4] && img[12 * i + 5] == b[5] && img[12 * i + 6] == b[6] && img[12 * i + 7] == b[7]);
        assert(img[12 * i + 8] == b[8] && img[12 * i + 9] == b[9] && img[12 * i + 10] == b[10] && img[12 * i + 11]
            == b[11]);
        assert(seq_be_u32(img, 12 * i) == seq_be_u32(b, 0));
        assert(seq_be_u32(img, 12 * i + 4) == seq_be_u32(b, 4));
        assert(seq_be_u32(img, 12 * i + 8) == seq_be_u32(b, 8));
    }
    assert(fst_entry_at(img, 0) == e[0]);
    assert(fst_table(img) =~= bank);
}

/// The name of a step of a walk; none for the end of a directory.
pub open spec fn event_name(ev: FsWalkEvent) -> Seq<u8> {
    match ev {
        FsWalkEvent::File { name, .. } => name@,
        FsWalkEvent::DirStart { name } => name@,
        FsWalkEvent::DirEnd => Seq::empty(),
    }
}

/// Number of entries made by the first `k` steps of a walk, the root's
/// included: the index of the entry of step `k`.
pub open spec fn walk_entry_count(events: Seq<FsWalkEvent>, k: int) -> int
    decreases k,
{
    if k <= 0 {
        1
    } else {
        walk_entry_count(events, k - 1) + (if events[k - 1] is DirEnd {
            0int
        } else {
            1int
        })
    }
}

/// Length of the string table after the first `k` steps of a walk: where
/// the name of step `k` starts.
pub open spec fn walk_bank_len(events: Seq<FsWalkEvent>, k: int) -> int
    decreases k,
{
    if k <= 0 {
        0
    } else {
        walk_bank_len(events, k - 1) + (if events[k - 1] is DirEnd {
            0int
        } else {
            event_name(events[k - 1]).len() + 1int
        })
    }
}

/// The name `name`, then a NUL byte, stands at `at` in `bank`.
pub open spec fn name_stored(bank: Seq<u8>, at: int, name: Seq<u8>) -> bool {
    &&& 0 <= at
    &&& at + name.len() < bank.len()
    &&& bank.subrange(at, at + name.len()) == name
    &&& bank[at + name.len()] == 0
}

/// The file that step `f.0` of the walk placed at `f.1` has, among the
/// `entries`, the entry it was made with, at an offset that an entry can
/// hold and that is a multiple of 32.
pub open spec fn file_built(events: Seq<FsWalkEvent>, entries: Seq<FstEntryView>, n: int, f: (usize, u64), is_wii: bool) -> bool {
    &&& 0 <= f.0 < n
    &&& events[f.0 as int] is File
    &&& entries[walk_entry_count(events, f.0 as int)] == file_entry(
        walk_bank_len(events, f.0 as int),
        f.1,
        events[f.0 as int]->File_len,
        is_wii,
    )
    &&& f.1 <= 0x3_FFFF_FFFC
    &&& f.1 % 32 == 0
}

/// The first word of the entry of the step `ev` whose name starts at `at`:
/// its kind, then where its name is.
pub open spec fn kind_and_name(ev: FsWalkEvent, at: int) -> u32 {
    if ev is DirStart {
        dir_entry(at, 0, false).node_type_file_name_offset
    } else {
        file_entry(at, 0, 0, false).node_type_file_name_offset
    }
}

/// What the first `n` steps of a walk have built into `s`: as many entries
/// and names as they make; each name stored where its step put it; each
/// directory's entry marked as one; each file's entry as it was made; the
/// open directories all directory entries.
pub open spec fn walk_built(events: Seq<FsWalkEvent>, n: int, s: FstBuild, is_wii: bool) -> bool {
    &&& s.entries.len() == walk_entry_count(events, n)
    &&& s.bank.len() == walk_bank_len(events, n)
    &&& forall|x: int|
        0 <= x < s.stack.len() ==> #[trigger] s.stack[x] < s.entries.len() && s.entries[s.stack[x] as int].node_type_file_name_offset
            >= 0x100_0000
    &&& forall|k: int|
        0 <= k < n && !(events[k] is DirEnd) ==> name_stored(
            s.bank,
            #[trigger] walk_bank_len(events, k),
            event_name(events[k]),
        )
    &&& forall|k: int|
        0 <= k < n && !(events[k] is DirEnd) ==> s.entries[#[trigger] walk_entry_count(
            events,
            k,
        )].node_type_file_name_offset == kind_and_name(events[k], walk_bank_len(events, k))
    &&& forall|j: int| 0 <= j < s.files.len() ==> file_built(events, s.entries, n, #[trigger] s.files[j], is_wii)
}

proof fn lemma_walk_counts_grow(events: Seq<FsWalkEvent>, k: int, n: int)
    requires
        0 <= k < n,
        !(events[k] is DirEnd),
    ensures
        1 <= walk_entry_count(events, k) < walk_entry_count(events, n),
        0 <= walk_bank_len(events, k),
        walk_bank_len(events, k) + event_name(events[k]).len() + 1 <= walk_bank_len(events, n),
    decreases n - k,
{
    lemma_walk_count_pos(events, k);
    if k < n - 1 {
        lemma_walk_counts_grow(events, k, n - 1);
    }
}

proof fn lemma_walk_count_pos(events: Seq<FsWalkEvent>, k: int)
    ensures
        walk_entry_count(events, k) >= 1,
        k >= 0 ==> walk_entry_count(events, k) <= k + 1,
        walk_bank_len(events, k) >= 0,
    decreases k,
{
    if k > 0 {
        lemma_walk_count_pos(events, k - 1);
    }
}

/// The names already stored stay where they are when a step appends to
/// the string table, and the step's own name is stored after them.
proof fn lemma_step_names(events: Seq<FsWalkEvent>, n: int, s: FstBuild, t: FstBuild)
    requires
        0 <= n < events.len(),
        s.bank.len() == walk_bank_len(events, n),
        forall|k: int|
            0 <= k < n && !(events[k] is DirEnd) ==> name_stored(
                s.bank,
                #[trigger] walk_bank_len(events, k),
                event_name(events[k]),
            ),
        events[n] is DirEnd ==> t.bank == s.bank,
        !(events[n] is DirEnd) ==> t.bank == s.bank + event_name(events[n]) + seq![0u8],
    ensures
        forall|k: int|
            0 <= k < n + 1 && !(events[k] is DirEnd) ==> name_stored(
                t.bank,
                #[trigger] walk_bank_len(events, k),
                event_name(events[k]),
            ),
{
    assert forall|k: int| 0 <= k < n + 1 && !(events[k] is DirEnd) implies name_stored(
        t.bank,
        #[trigger] walk_bank_len(events, k),
        event_name(events[k]),
    ) by {
        let at = walk_bank_len(events, k);
        let nm = event_name(events[k]);
        lemma_walk_count_pos(events, k);
        if k < n {
            lemma_walk_counts_grow(events, k, n);
            assert(name_stored(s.bank, at, nm));
            assert(t.bank.subrange(at, at + nm.len()) =~= s.bank.subrange(at, at + nm.len()));
        } else {
            assert(t.bank.subrange(at, at + nm.len()) =~= nm);
        }
    }
}

proof fn lemma_step_file(events: Seq<FsWalkEvent>, n: int, s: FstBuild, t: FstBuild, is_wii: bool)
    requires
        0 <= n < events.len(),
        events.len() < usize::MAX,
        events[n] is File,
        walk_built(events, n, s, is_wii),
        fst_step(s, events[n], n, is_wii) == Ok::<FstBuild, GeckoFSError>(t),
    ensures
        walk_built(events, n + 1, t, is_wii),
{
    lemma2_to64();
    let len = events[n]->File_len;
    let pos = align_up(s.offset as int, 5);
    assert(pow2(5) == 32);
    assert(pos % 32 == 0) by {
        if s.offset >= 1 {
            lemma_align_up(s.offset as int, 5);
        } else {
            assert((0int - 1) / 32 == -1);
        }
    }
    assert(pos <= 0x3_FFFF_FFFC);
    assert(t.entries == s.entries.push(file_entry(s.bank.len() as int, pos as u64, len, is_wii)));
    assert(t.files == s.files.push((n as usize, pos as u64)));
    assert(t.stack == s.stack);
    lemma_step_names(events, n, s, t);
    assert forall|j: int| 0 <= j < t.files.len() implies file_built(events, t.entries, n + 1, #[trigger] t.files[j], is_wii) by {
        if j < s.files.len() {
            let f = s.files[j];
            assert(t.files[j] == f);
            assert(file_built(events, s.entries, n, f, is_wii));
            lemma_walk_counts_grow(events, f.0 as int, n);
        } else {
            assert(t.files[j] == (n as usize, pos as u64));
        }
    }
    assert forall|k: int| 0 <= k < n + 1 && !(events[k] is DirEnd) implies t.entries[#[trigger] walk_entry_count(
        events,
        k,
    )].node_type_file_name_offset == kind_and_name(events[k], walk_bank_len(events, k)) by {
        if k < n {
            lemma_walk_counts_grow(events, k, n);
        }
    }
}

proof fn lemma_step_dir_start(events: Seq<FsWalkEvent>, n: int, s: FstBuild, t: FstBuild, is_wii: bool)
    requires
        0 <= n < events.len(),
        events.len() < usize::MAX,
        events[n] is DirStart,
        walk_built(events, n, s, is_wii),
        fst_step(s, events[n], n, is_wii) == Ok::<FstBuild, GeckoFSError>(t),
    ensures
        walk_built(events, n + 1, t, is_wii),
{
    let e = dir_entry(s.bank.len() as int, s.stack.last() as u64, is_wii);
    assert(t.entries == s.entries.push(e));
    assert(t.files == s.files);
    assert(t.stack == s.stack.push(s.entries.len() as usize));
    assert(e.node_type_file_name_offset >= 0x100_0000);
    lemma_walk_count_pos(events, n);
    assert(s.entries.len() as usize == s.entries.len());
    lemma_step_names(events, n, s, t);
    assert forall|j: int| 0 <= j < t.files.len() implies file_built(events, t.entries, n + 1, #[trigger] t.files[j], is_wii) by {
        let f = s.files[j];
        assert(t.files[j] == f);
        assert(file_built(events, s.entries, n, f, is_wii));
        lemma_walk_counts_grow(events, f.0 as int, n);
        let ix = walk_entry_count(events, f.0 as int);
        assert(ix < s.entries.len());
        assert(t.entries[ix] == s.entries[ix]);
    }
    assert forall|k: int| 0 <= k < n + 1 && !(events[k] is DirEnd) implies t.entries[#[trigger] walk_entry_count(
        events,
        k,
    )].node_type_file_name_offset == kind_and_name(events[k], walk_bank_len(events, k)) by {
        if k < n {
            lemma_walk_counts_grow(events, k, n);
        }
    }
    assert forall|x: int| 0 <= x < t.stack.len() implies #[trigger] t.stack[x] < t.entries.len()
        && t.entries[t.stack[x] as int].node_type_file_name_offset >= 0x100_0000 by {
        if x < s.stack.len() {
            assert(t.stack[x] == s.stack[x]);
        }
    }
}

proof fn lemma_step_dir_end(events: Seq<FsWalkEvent>, n: int, s: FstBuild, t: FstBuild, is_wii: bool)
    requires
        0 <= n < events.len(),
        events.len() < usize::MAX,
        events[n] is DirEnd,
        walk_built(events, n, s, is_wii),
        fst_step(s, events[n], n, is_wii) == Ok::<FstBuild, GeckoFSError>(t),
    ensures
        walk_built(events, n + 1, t, is_wii),
{
    let top = s.stack.last() as int;
    assert(s.stack[s.stack.len() - 1] == s.stack.last());
    assert(t.entries == s.entries.update(top, with_next(s.entries[top], s.entries.len() as u32)));
    assert(t.files == s.files);
    assert(t.stack == s.stack.drop_last());
    lemma_step_names(events, n, s, t);
    assert forall|j: int| 0 <= j < t.files.len() implies file_built(events, t.entries, n + 1, #[trigger] t.files[j], is_wii) by {
        let f = s.files[j];
        assert(file_built(events, s.entries, n, f, is_wii));
        lemma_walk_counts_grow(events, f.0 as int, n);
        let ix = walk_entry_count(events, f.0 as int);
        assert(s.entries[ix].node_type_file_name_offset < 0x100_0000);
        assert(ix != top);
    }
    assert forall|k: int| 0 <= k < n + 1 && !(events[k] is DirEnd) implies t.entries[#[trigger] walk_entry_count(
        events,
        k,
    )].node_type_file_name_offset == kind_and_name(events[k], walk_bank_len(events, k)) by {
        lemma_walk_counts_grow(events, k, n);
    }
    assert forall|x: int| 0 <= x < t.stack.len() implies #[trigger] t.stack[x] < t.entries.len()
        && t.entries[t.stack[x] as int].node_type_file_name_offset >= 0x100_0000 by {
        assert(t.stack[x] == s.stack[x]);
    }
}

proof fn lemma_walk_built(events: Seq<FsWalkEvent>, n: int, start: u64, is_wii: bool)
    requires
        0 <= n <= events.len(),
        events.len() < usize::MAX,
        fst_walk(events, n, start, is_wii) is Ok,
    ensures
        walk_built(events, n, fst_walk(events, n, start, is_wii)->Ok_0, is_wii),
    decreases n,
{
    if n == 0 {
        let s = fst_init(start, is_wii);
        assert(s.stack[0] == 0usize);
        assert(s.entries[0].node_type_file_name_offset >= 0x100_0000);
    } else {
        lemma_walk_built(events, n - 1, start, is_wii);
        let s = fst_walk(events, n - 1, start, is_wii)->Ok_0;
        let t = fst_walk(events, n, start, is_wii)->Ok_0;
        match events[n - 1] {
            FsWalkEvent::File { .. } => lemma_step_file(events, n - 1, s, t, is_wii),
            FsWalkEvent::DirStart { .. } => lemma_step_dir_start(events, n - 1, s, t, is_wii),
            FsWalkEvent::DirEnd => lemma_step_dir_end(events, n - 1, s, t, is_wii),
        }
    }
}

/// No name of the walk holds a NUL byte.
pub open spec fn walk_names_plain(events: Seq<FsWalkEvent>) -> bool {
    forall|k: int, i: int|
        0 <= k < events.len() && 0 <= i < event_name(events[k]).len() ==> #[trigger] event_name(events[k])[i] != 0
}

/// The name found at `at` in a table where `name` is stored there, free of
/// NUL bytes, is `name`.
proof fn lemma_name_found(table: Seq<u8>, at: int, name: Seq<u8>)
    requires
        name_stored(table, at, name),
        forall|i: int| 0 <= i < name.len() ==> name[i] != 0,
    ensures
        table.subrange(at, choose|end: int| name_ends_at(table, at, end)) == name,
{
    let stop = at + name.len();
    assert forall|k: int| at <= k < stop implies table[k] != 0 by {
        assert(table.subrange(at, stop)[k - at] == name[k - at]);
    }
    assert(name_ends_at(table, at, stop));
    let end = choose|end: int| name_ends_at(table, at, end);
    if end < stop {
        assert(table[end] != 0);
    } else if end > stop {
        assert(table[stop] != 0);
    }
}

/// Stored offset of a file placed at `pos`, times the multiplier of the
/// disc kind, is `pos`, when the disc kind can hold it.
proof fn lemma_pos_stored(pos: u64, is_wii: bool)
    requires
        pos <= 0x3_FFFF_FFFC,
        pos % 32 == 0,
        is_wii || pos < 0x1_0000_0000,
    ensures
        ((if is_wii { pos / 4 } else { pos % 0x1_0000_0000 }) as u32) * offset_mult(is_wii) == pos,
{
}

/// The build of a whole walk, and the bytes of its table.
pub open spec fn walk_build(events: Seq<FsWalkEvent>, start: u64, is_wii: bool) -> FstBuild {
    fst_walk(events, events.len() as int, start, is_wii)->Ok_0
}

/// The bytes of the table built from a whole walk.
pub open spec fn walk_image(events: Seq<FsWalkEvent>, start: u64, is_wii: bool) -> Seq<u8> {
    let s = walk_build(events, start, is_wii);
    fst_image_bytes(fst_finished(s), s.bank)
}

/// The walk builds a table whose string table is below 16 MiB, with fewer
/// than 2^32 entries, from names without NUL bytes.
pub open spec fn walk_table_ok(events: Seq<FsWalkEvent>, start: u64, is_wii: bool) -> bool {
    &&& events.len() < usize::MAX
    &&& walk_names_plain(events)
    &&& fst_walk(events, events.len() as int, start, is_wii) matches Ok(s) && s.bank.len() < 0x100_0000
        && s.entries.len() < 0x1_0000_0000
}

/// The entry of step `k` of the walk, read back from the table's bytes.
pub open spec fn step_entry(events: Seq<FsWalkEvent>, start: u64, is_wii: bool, k: int) -> FstEntryView {
    fst_entry_at(walk_image(events, start, is_wii), walk_entry_count(events, k))
}

/// Step `k` comes back from the table's bytes: its entry is counted, and
/// has the step's name and kind.
pub open spec fn step_reads_back(events: Seq<FsWalkEvent>, start: u64, is_wii: bool, k: int) -> bool {
    let img = walk_image(events, start, is_wii);
    let x = step_entry(events, start, is_wii, k);
    &&& walk_entry_count(events, k) < fst_count(img)
    &&& fst_name_bytes(x, fst_table(img)) == event_name(events[k])
    &&& fst_tag(x) == (if events[k] is DirStart {
        1u8
    } else {
        0u8
    })
}

/// Placed file `j` comes back from the table's bytes: its entry has its
/// size, cut to 32 bits, and, where the disc kind can hold it, its offset;
/// a node that reading the table makes of it is a file of that size and
/// offset.
pub open spec fn file_reads_back(events: Seq<FsWalkEvent>, start: u64, is_wii: bool, j: int) -> bool {
    let (k, pos) = walk_build(events, start, is_wii).files[j];
    let x = step_entry(events, start, is_wii, k as int);
    let len = events[k as int]->File_len;
    &&& events[k as int] is File
    &&& x.file_size_next_dir_index == len as u32
    &&& (is_wii || pos < 0x1_0000_0000) ==> x.file_offset_parent_dir * offset_mult(is_wii) == pos
    &&& forall|node: FstNode|
        fst_node_read(node, x, fst_table(walk_image(events, start, is_wii)), is_wii) ==> (node matches FstNode::File {
            file_offset,
            file_size,
            ..
        } && file_size == len as u32 && ((is_wii || pos < 0x1_0000_0000) ==> file_offset == pos))
}

proof fn lemma_table_read(events: Seq<FsWalkEvent>, start: u64, is_wii: bool)
    requires
        walk_table_ok(events, start, is_wii),
    ensures
        ({
            let s = walk_build(events, start, is_wii);
            let e = fst_finished(s);
            let img = walk_image(events, start, is_wii);
            &&& walk_built(events, events.len() as int, s, is_wii)
            &&& e.len() == s.entries.len()
            &&& fst_count(img) == e.len()
            &&& fst_table(img) == s.bank
            &&& forall|i: int| 0 <= i < e.len() ==> #[trigger] fst_entry_at(img, i) == e[i]
        }),
{
    let n = events.len() as int;
    let s = walk_build(events, start, is_wii);
    let e = fst_finished(s);
    lemma_walk_built(events, n, start, is_wii);
    lemma_walk_count_pos(events, n);
    assert(e[0].file_size_next_dir_index == e.len());
    lemma_fst_image_entries(e, s.bank);
}

proof fn lemma_step_read(events: Seq<FsWalkEvent>, start: u64, is_wii: bool, k: int)
    requires
        walk_table_ok(events, start, is_wii),
        0 <= k < events.len(),
        !(events[k] is DirEnd),
    ensures
        step_reads_back(events, start, is_wii, k),
{
    let n = events.len() as int;
    let s = walk_build(events, start, is_wii);
    let e = fst_finished(s);
    lemma_table_read(events, start, is_wii);
    lemma_walk_counts_grow(events, k, n);
    let ix = walk_entry_count(events, k);
    let at = walk_bank_len(events, k);
    let x = step_entry(events, start, is_wii, k);
    assert(x == e[ix]);
    assert(e[ix] == s.entries[ix]);
    assert(x.node_type_file_name_offset == kind_and_name(events[k], at));
    assert(0 <= at < 0x100_0000);
    assert(((at as u32) % 0x100_0000) as int == at);
    assert(x.node_type_file_name_offset % 0x100_0000 == at);
    assert forall|i: int| 0 <= i < event_name(events[k]).len() implies event_name(events[k])[i] != 0 by {
        assert(event_name(events[k])[i] != 0);
    }
    lemma_name_found(s.bank, at, event_name(events[k]));
}

proof fn lemma_file_read(events: Seq<FsWalkEvent>, start: u64, is_wii: bool, j: int)
    requires
        walk_table_ok(events, start, is_wii),
        0 <= j < walk_build(events, start, is_wii).files.len(),
    ensures
        file_reads_back(events, start, is_wii, j),
{
    let n = events.len() as int;
    let s = walk_build(events, start, is_wii);
    let e = fst_finished(s);
    lemma_table_read(events, start, is_wii);
    let f = s.files[j];
    assert(file_built(events, s.entries, n, f, is_wii));
    let k = f.0 as int;
    let pos = f.1;
    lemma_step_read(events, start, is_wii, k);
    lemma_walk_counts_grow(events, k, n);
    let ix = walk_entry_count(events, k);
    let x = step_entry(events, start, is_wii, k);
    assert(x == e[ix]);
    assert(e[ix] == s.entries[ix]);
    if is_wii || pos < 0x1_0000_0000 {
        lemma_pos_stored(pos, is_wii);
    }
}

/// The bytes of a table built from a walk read back as the walk: the count
/// of entries, the entries themselves and the string table come back; the
/// entry of each step (a file or the start of a directory) has the step's
/// kind and name; the entry of each placed file has its size (cut to 32
/// bits) and, where the disc kind can hold it, its offset, so a node that
/// reading the table makes of that entry is that file. It needs names
/// without NUL bytes, a string table below 16 MiB and fewer than 2^32
/// entries (see `walk_table_ok`).
pub proof fn lemma_fst_roundtrip(events: Seq<FsWalkEvent>, start: u64, is_wii: bool)
    requires
        walk_table_ok(events, start, is_wii),
    ensures
        ({
            let s = walk_build(events, start, is_wii);
            let e = fst_finished(s);
            let img = walk_image(events, start, is_wii);
            &&& fst_count(img) == e.len()
            &&& fst_table(img) == s.bank
            &&& forall|i: int| 0 <= i < e.len() ==> #[trigger] fst_entry_at(img, i) == e[i]
        }),
        forall|k: int|
            0 <= k < events.len() && !(events[k] is DirEnd) ==> #[trigger] step_reads_back(events, start, is_wii, k),
        forall|j: int|
            0 <= j < walk_build(events, start, is_wii).files.len() ==> #[trigger] file_reads_back(
                events,
                start,
                is_wii,
                j,
            ),
{
    assert({
        let s = walk_build(events, start, is_wii);
        let e = fst_finished(s);
        let img = walk_image(events, start, is_wii);
        &&& fst_count(img) == e.len()
        &&& fst_table(img) == s.bank
        &&& forall|i: int| 0 <= i < e.len() ==> #[trigger] fst_entry_at(img, i) == e[i]
    }) by {
        lemma_table_read(events, start, is_wii);
    }
    assert forall|k: int| 0 <= k < events.len() && !(events[k] is DirEnd) implies #[trigger] step_reads_back(
        events,
        start,
        is_wii,
        k,
    ) by {
        lemma_step_read(events, start, is_wii, k);
    }
    assert forall|j: int| 0 <= j < walk_build(events, start, is_wii).files.len() implies #[trigger] file_reads_back(
        events,
        start,
        is_wii,
        j,
    ) by {
        lemma_file_read(events, start, is_wii, j);
    }
}

/// The steps of the directories still open after the first `n` steps of a
/// walk, outermost first (the root left out).
pub open spec fn open_dirs(events: Seq<FsWalkEvent>, n: int) -> Seq<int>
    decreases n,
{
    if n <= 0 {
        Seq::empty()
    } else {
        let o = open_dirs(events, n - 1);
        if events[n - 1] is DirStart {
            o.push(n - 1)
        } else if events[n - 1] is DirEnd && o.len() > 0 {
            o.drop_last()
        } else {
            o
        }
    }
}

/// Every end of a directory in the walk closes one that is open.
pub open spec fn walk_well_nested(events: Seq<FsWalkEvent>) -> bool {
    forall|m: int| 0 <= m < events.len() && events[m] is DirEnd ==> #[trigger] open_dirs(events, m).len() > 0
}

/// The entry of the directory that encloses step `k`: the root's, or that
/// of the innermost directory open there.
pub open spec fn parent_entry(events: Seq<FsWalkEvent>, k: int) -> int {
    let o = open_dirs(events, k);
    if o.len() == 0 {
        0
    } else {
        walk_entry_count(events, o.last())
    }
}

/// The next index of the directory started at step `k`, after the first
/// `n` steps: the number of entries made before the step that closes it;
/// zero while it is open.
pub open spec fn next_after(events: Seq<FsWalkEvent>, k: int, n: int) -> int
    decreases n,
{
    if n <= 0 {
        0
    } else if events[n - 1] is DirEnd && open_dirs(events, n - 1).len() > 0 && open_dirs(events, n - 1).last() == k {
        walk_entry_count(events, n - 1)
    } else {
        next_after(events, k, n - 1)
    }
}

/// The open directories and the directory entries after the first `n`
/// steps of a walk: the stack holds the root and the entries of the open
/// directories; each directory's entry has its next index and the entry of
/// its parent.
pub open spec fn walk_nesting(events: Seq<FsWalkEvent>, n: int, s: FstBuild, is_wii: bool) -> bool {
    let o = open_dirs(events, n);
    &&& s.stack.len() == o.len() + 1
    &&& s.stack[0] == 0
    &&& forall|x: int| 0 <= x < o.len() ==> s.stack[x + 1] == #[trigger] walk_entry_count(events, o[x])
    &&& forall|x: int| 0 <= x < o.len() ==> 0 <= #[trigger] o[x] < n && events[o[x]] is DirStart
    &&& forall|k: int|
        0 <= k < n && events[k] is DirStart ==> {
            &&& s.entries[#[trigger] walk_entry_count(events, k)].file_size_next_dir_index == next_after(events, k, n) as u32
            &&& s.entries[walk_entry_count(events, k)].file_offset_parent_dir == dir_entry(
                0,
                parent_entry(events, k) as u64,
                is_wii,
            ).file_offset_parent_dir
        }
}

proof fn lemma_next_after_early(events: Seq<FsWalkEvent>, k: int, m: int)
    requires
        0 <= k,
        m <= k + 1,
        events[k] is DirStart,
        forall|x: int| 0 <= x < open_dirs(events, k).len() ==> #[trigger] open_dirs(events, k)[x] < k,
    ensures
        next_after(events, k, m) == 0,
    decreases m,
{
    if m > 0 {
        if m - 1 == k {
        } else {
            if open_dirs(events, m - 1).len() > 0 && open_dirs(events, m - 1).last() == k {
                lemma_open_dirs_below(events, m - 1);
            }
        }
        lemma_next_after_early(events, k, m - 1);
    }
}

proof fn lemma_open_dirs_below(events: Seq<FsWalkEvent>, n: int)
    ensures
        forall|x: int| 0 <= x < open_dirs(events, n).len() ==> 0 <= #[trigger] open_dirs(events, n)[x] < n,
        forall|x: int| 0 <= x < open_dirs(events, n).len() ==> events[#[trigger] open_dirs(events, n)[x]] is DirStart,
    decreases n,
{
    if n > 0 {
        lemma_open_dirs_below(events, n - 1);
        let o = open_dirs(events, n - 1);
        assert forall|x: int| 0 <= x < open_dirs(events, n).len() implies 0 <= #[trigger] open_dirs(events, n)[x] < n by {
            if x < o.len() {
                assert(open_dirs(events, n)[x] == o[x]);
            }
        }
        assert forall|x: int| 0 <= x < open_dirs(events, n).len() implies events[#[trigger] open_dirs(events, n)[x]] is DirStart by {
            if x < o.len() {
                assert(open_dirs(events, n)[x] == o[x]);
            }
        }
    }
}

proof fn lemma_nest_old_dirs(events: Seq<FsWalkEvent>, n: int, s: FstBuild, t: FstBuild, is_wii: bool)
    requires
        0 <= n < events.len(),
        !(events[n] is DirEnd),
        walk_built(events, n, s, is_wii),
        walk_nesting(events, n, s, is_wii),
        t.entries.len() >= s.entries.len(),
        forall|i: int| 0 <= i < s.entries.len() ==> #[trigger] t.entries[i] == s.entries[i],
    ensures
        forall|k: int|
            0 <= k < n && events[k] is DirStart ==> {
                &&& t.entries[#[trigger] walk_entry_count(events, k)].file_size_next_dir_index == next_after(
                    events,
                    k,
                    n + 1,
                ) as u32
                &&& t.entries[walk_entry_count(events, k)].file_offset_parent_dir == dir_entry(
                    0,
                    parent_entry(events, k) as u64,
                    is_wii,
                ).file_offset_parent_dir
            },
{
    assert forall|k: int| 0 <= k < n && events[k] is DirStart implies {
        &&& t.entries[#[trigger] walk_entry_count(events, k)].file_size_next_dir_index == next_after(events, k, n + 1) as u32
        &&& t.entries[walk_entry_count(events, k)].file_offset_parent_dir == dir_entry(
            0,
            parent_entry(events, k) as u64,
            is_wii,
        ).file_offset_parent_dir
    } by {
        lemma_walk_counts_grow(events, k, n);
        assert(t.entries[walk_entry_count(events, k)] == s.entries[walk_entry_count(events, k)]);
    }
}

proof fn lemma_nest_file(events: Seq<FsWalkEvent>, n: int, s: FstBuild, t: FstBuild, is_wii: bool)
    requires
        0 <= n < events.len(),
        events.len() < usize::MAX,
        events[n] is File,
        walk_built(events, n, s, is_wii),
        walk_nesting(events, n, s, is_wii),
        fst_step(s, events[n], n, is_wii) == Ok::<FstBuild, GeckoFSError>(t),
    ensures
        walk_nesting(events, n + 1, t, is_wii),
{
    let len = events[n]->File_len;
    let pos = align_up(s.offset as int, 5);
    assert(t.entries == s.entries.push(file_entry(s.bank.len() as int, pos as u64, len, is_wii)));
    assert(t.stack == s.stack);
    assert(open_dirs(events, n + 1) == open_dirs(events, n));
    lemma_nest_old_dirs(events, n, s, t, is_wii);
}

proof fn lemma_nest_dir_start(events: Seq<FsWalkEvent>, n: int, s: FstBuild, t: FstBuild, is_wii: bool)
    requires
        0 <= n < events.len(),
        events.len() < usize::MAX,
        events[n] is DirStart,
        walk_built(events, n, s, is_wii),
        walk_nesting(events, n, s, is_wii),
        fst_step(s, events[n], n, is_wii) == Ok::<FstBuild, GeckoFSError>(t),
    ensures
        walk_nesting(events, n + 1, t, is_wii),
{
    let o = open_dirs(events, n);
    let parent = s.stack.last();
    let e = dir_entry(s.bank.len() as int, parent as u64, is_wii);
    assert(t.entries == s.entries.push(e));
    assert(t.stack == s.stack.push(s.entries.len() as usize));
    assert(open_dirs(events, n + 1) == o.push(n));
    lemma_walk_count_pos(events, n);
    lemma_nest_old_dirs(events, n, s, t, is_wii);
    lemma_open_dirs_below(events, n);
    lemma_next_after_early(events, n, n + 1);
    assert(parent == parent_entry(events, n)) by {
        if o.len() > 0 {
            assert(s.stack[s.stack.len() - 1] == s.stack[o.len() as int - 1 + 1]);
        }
    }
    assert(t.entries[walk_entry_count(events, n)] == e);
    let o2 = open_dirs(events, n + 1);
    assert forall|x: int| 0 <= x < o2.len() implies t.stack[x + 1] == #[trigger] walk_entry_count(events, o2[x]) by {
        if x < o.len() {
            assert(o2[x] == o[x]);
            assert(t.stack[x + 1] == s.stack[x + 1]);
        }
    }
    assert forall|x: int| 0 <= x < o2.len() implies 0 <= #[trigger] o2[x] < n + 1 && events[o2[x]] is DirStart by {
        if x < o.len() {
            assert(o2[x] == o[x]);
        }
    }
}

proof fn lemma_nest_dir_end(events: Seq<FsWalkEvent>, n: int, s: FstBuild, t: FstBuild, is_wii: bool)
    requires
        0 <= n < events.len(),
        events.len() < usize::MAX,
        events[n] is DirEnd,
        open_dirs(events, n).len() > 0,
        walk_built(events, n, s, is_wii),
        walk_nesting(events, n, s, is_wii),
        fst_step(s, events[n], n, is_wii) == Ok::<FstBuild, GeckoFSError>(t),
    ensures
        walk_nesting(events, n + 1, t, is_wii),
{
    let o = open_dirs(events, n);
    let last = o.last();
    let top = s.stack.last() as int;
    assert(s.stack[s.stack.len() - 1] == s.stack.last());
    assert(s.stack[o.len() - 1 + 1] == walk_entry_count(events, o[o.len() - 1]));
    assert(top == walk_entry_count(events, last));
    assert(t.entries == s.entries.update(top, with_next(s.entries[top], s.entries.len() as u32)));
    assert(t.stack == s.stack.drop_last());
    assert(open_dirs(events, n + 1) == o.drop_last());
    let o2 = open_dirs(events, n + 1);
    assert forall|k: int| 0 <= k < n + 1 && events[k] is DirStart implies {
        &&& t.entries[#[trigger] walk_entry_count(events, k)].file_size_next_dir_index == next_after(events, k, n + 1) as u32
        &&& t.entries[walk_entry_count(events, k)].file_offset_parent_dir == dir_entry(
            0,
            parent_entry(events, k) as u64,
            is_wii,
        ).file_offset_parent_dir
    } by {
        lemma_walk_counts_grow(events, k, n);
        if k != last {
            if k < last {
                lemma_walk_counts_grow(events, k, last);
            } else {
                lemma_walk_counts_grow(events, last, k);
            }
            assert(walk_entry_count(events, k) != top);
        } else {
            assert(walk_entry_count(events, n) == s.entries.len());
        }
    }
    assert forall|x: int| 0 <= x < o2.len() implies t.stack[x + 1] == #[trigger] walk_entry_count(events, o2[x]) by {
        assert(o2[x] == o[x]);
        assert(t.stack[x + 1] == s.stack[x + 1]);
    }
    assert forall|x: int| 0 <= x < o2.len() implies 0 <= #[trigger] o2[x] < n + 1 && events[o2[x]] is DirStart by {
        assert(o2[x] == o[x]);
    }
}

proof fn lemma_walk_nesting(events: Seq<FsWalkEvent>, n: int, start: u64, is_wii: bool)
    requires
        0 <= n <= events.len(),
        events.len() < usize::MAX,
        walk_well_nested(events),
        fst_walk(events, n, start, is_wii) is Ok,
    ensures
        walk_nesting(events, n, fst_walk(events, n, start, is_wii)->Ok_0, is_wii),
    decreases n,
{
    if n == 0 {
        let s = fst_init(start, is_wii);
        assert(s.stack[0] == 0usize);
    } else {
        lemma_walk_nesting(events, n - 1, start, is_wii);
        lemma_walk_built(events, n - 1, start, is_wii);
        let s = fst_walk(events, n - 1, start, is_wii)->Ok_0;
        let t = fst_walk(events, n, start, is_wii)->Ok_0;
        match events[n - 1] {
            FsWalkEvent::File { .. } => lemma_nest_file(events, n - 1, s, t, is_wii),
            FsWalkEvent::DirStart { .. } => lemma_nest_dir_start(events, n - 1, s, t, is_wii),
            FsWalkEvent::DirEnd => {
                assert(open_dirs(events, n - 1).len() > 0);
                lemma_nest_dir_end(events, n - 1, s, t, is_wii)
            },
        }
    }
}

/// The directory started at step `k` comes back from the table's bytes:
/// its entry has as next index the number of entries made before the step
/// that closes it (cut to 32 bits), and as parent the entry of the
/// directory around it, stored as the disc kind stores it; a node that
/// reading the table makes of it is a directory with that next index.
pub open spec fn dir_reads_back(events: Seq<FsWalkEvent>, start: u64, is_wii: bool, k: int) -> bool {
    let x = step_entry(events, start, is_wii, k);
    let next = next_after(events, k, events.len() as int) as u32;
    &&& x.file_size_next_dir_index == next
    &&& x.file_offset_parent_dir == dir_entry(0, parent_entry(events, k) as u64, is_wii).file_offset_parent_dir
    &&& forall|node: FstNode|
        fst_node_read(node, x, fst_table(walk_image(events, start, is_wii)), is_wii) ==> (node matches FstNode::Directory {
            next_dir_index,
            ..
        } && next_dir_index == next)
}

proof fn lemma_dir_read(events: Seq<FsWalkEvent>, start: u64, is_wii: bool, k: int)
    requires
        walk_table_ok(events, start, is_wii),
        walk_well_nested(events),
        0 <= k < events.len(),
        events[k] is DirStart,
    ensures
        dir_reads_back(events, start, is_wii, k),
{
    let n = events.len() as int;
    let s = walk_build(events, start, is_wii);
    let e = fst_finished(s);
    lemma_table_read(events, start, is_wii);
    lemma_walk_nesting(events, n, start, is_wii);
    lemma_step_read(events, start, is_wii, k);
    lemma_walk_counts_grow(events, k, n);
    let ix = walk_entry_count(events, k);
    let x = step_entry(events, start, is_wii, k);
    assert(x == e[ix]);
    assert(e[ix] == s.entries[ix]);
}

/// The directories of a well-nested walk come back from the bytes of the
/// table built from it (see `dir_reads_back`): with the entries, kinds,
/// names, sizes and offsets of `lemma_fst_roundtrip`, this is the nesting
/// that reading the table rebuilds the tree from. The walk of a file tree
/// is well nested (`lemma_tree_walk_well_nested`).
pub proof fn lemma_fst_dirs_roundtrip(events: Seq<FsWalkEvent>, start: u64, is_wii: bool)
    requires
        walk_table_ok(events, start, is_wii),
        walk_well_nested(events),
    ensures
        forall|k: int| 0 <= k < events.len() && events[k] is DirStart ==> #[trigger] dir_reads_back(events, start, is_wii, k),
{
    assert forall|k: int| 0 <= k < events.len() && events[k] is DirStart implies #[trigger] dir_reads_back(
        events,
        start,
        is_wii,
        k,
    ) by {
        lemma_dir_read(events, start, is_wii, k);
    }
}

/// Number of directories open after the first `n` steps of a walk.
pub open spec fn open_count(events: Seq<FsWalkEvent>, n: int) -> int {
    open_dirs(events, n).len() as int
}

/// `e` is a step of the same kind as the step `w` of a tree's walk.
pub open spec fn same_kind(e: FsWalkEvent, w: WalkItem) -> bool {
    &&& (e is File <==> w is File)
    &&& (e is DirStart <==> w is DirStart)
    &&& (e is DirEnd <==> w is DirEnd)
}

/// The steps of `events` from `i` on have the kinds of the steps `w`.
pub open spec fn kinds_from(events: Seq<FsWalkEvent>, i: int, w: Seq<WalkItem>) -> bool {
    &&& 0 <= i
    &&& i + w.len() <= events.len()
    &&& forall|j: int| 0 <= j < w.len() ==> #[trigger] same_kind(events[i + j], w[j])
}

proof fn lemma_open_count_step(events: Seq<FsWalkEvent>, n: int)
    requires
        0 <= n,
    ensures
        events[n] is DirStart ==> open_count(events, n + 1) == open_count(events, n) + 1,
        events[n] is File ==> open_count(events, n + 1) == open_count(events, n),
        events[n] is DirEnd && open_count(events, n) > 0 ==> open_count(events, n + 1) == open_count(events, n) - 1,
{
}

proof fn lemma_node_walk_nested<R>(t: FsTree<R>, c: int, events: Seq<FsWalkEvent>, i: int)
    requires
        tree_wf(t@),
        0 <= c < t@.len(),
        kinds_from(events, i, t.node_walk(c)),
    ensures
        open_count(events, i + t.node_walk(c).len()) == open_count(events, i),
        forall|m: int|
            i <= m < i + t.node_walk(c).len() && events[m] is DirEnd ==> #[trigger] open_count(events, m) > open_count(
                events,
                i,
            ),
    decreases t@.len() - c, t@[c].children.len() + 1,
{
    let w = t.node_walk(c);
    if !t@[c].is_dir {
        assert(same_kind(events[i + 0], w[0]));
        lemma_open_count_step(events, i);
    } else {
        let cw = t.children_walk(c, t@[c].children.len() as int);
        let cl = cw.len() as int;
        assert(w == seq![WalkItem::DirStart { name: t@[c].name, node: c }] + cw + seq![WalkItem::DirEnd { node: c }]);
        assert(same_kind(events[i + 0], w[0]));
        lemma_open_count_step(events, i);
        assert(kinds_from(events, i + 1, cw)) by {
            assert forall|j: int| 0 <= j < cw.len() implies #[trigger] same_kind(events[i + 1 + j], cw[j]) by {
                assert(same_kind(events[i + (1 + j)], w[1 + j]));
                assert(w[1 + j] == cw[j]);
            }
        }
        lemma_children_walk_nested(t, c, t@[c].children.len() as int, events, i + 1);
        assert(same_kind(events[i + (1 + cl)], w[1 + cl]));
        lemma_open_count_step(events, i + 1 + cl);
    }
}

proof fn lemma_children_walk_nested<R>(t: FsTree<R>, d: int, k: int, events: Seq<FsWalkEvent>, i: int)
    requires
        tree_wf(t@),
        0 <= d < t@.len(),
        kinds_from(events, i, t.children_walk(d, k)),
    ensures
        open_count(events, i + t.children_walk(d, k).len()) == open_count(events, i),
        forall|m: int|
            i <= m < i + t.children_walk(d, k).len() && events[m] is DirEnd ==> #[trigger] open_count(events, m)
                > open_count(events, i),
    decreases t@.len() - d, k,
{
    if k <= 0 || k > t@[d].children.len() {
    } else {
        let c = t@[d].children[k - 1] as int;
        let first = t.children_walk(d, k - 1);
        let fl = first.len() as int;
        let w = t.children_walk(d, k);
        if d < c < t@.len() {
            let nw = t.node_walk(c);
            assert(w == first + nw);
            assert(kinds_from(events, i, first)) by {
                assert forall|j: int| 0 <= j < first.len() implies #[trigger] same_kind(events[i + j], first[j]) by {
                    assert(same_kind(events[i + j], w[j]));
                }
            }
            assert(kinds_from(events, i + fl, nw)) by {
                assert forall|j: int| 0 <= j < nw.len() implies #[trigger] same_kind(events[i + fl + j], nw[j]) by {
                    assert(same_kind(events[i + (fl + j)], w[fl + j]));
                }
            }
            lemma_children_walk_nested(t, d, k - 1, events, i);
            lemma_node_walk_nested(t, c, events, i + fl);
        } else {
            lemma_children_walk_nested(t, d, k - 1, events, i);
        }
    }
}

/// The walk of a file tree (the steps under its root) is well nested: each
/// end of a directory closes one that is open.
pub proof fn lemma_tree_walk_well_nested<R>(t: FsTree<R>, events: Seq<FsWalkEvent>)
    requires
        tree_wf(t@),
        events_of(events, t.children_walk(0, t@[0].children.len() as int)),
    ensures
        walk_well_nested(events),
{
    let w = t.children_walk(0, t@[0].children.len() as int);
    assert(kinds_from(events, 0, w)) by {
        assert forall|j: int| 0 <= j < w.len() implies #[trigger] same_kind(events[0 + j], w[j]) by {
            assert(event_is(events[j], w[j]));
        }
    }
    lemma_children_walk_nested(t, 0, t@[0].children.len() as int, events, 0);
    assert forall|m: int| 0 <= m < events.len() && events[m] is DirEnd implies #[trigger] open_dirs(events, m).len() > 0 by {
        assert(open_count(events, m) > open_count(events, 0));
    }
}

/// The bytes of a built table: its entries, then its string table (see
/// `lemma_fst_roundtrip` for what reading them back gives).
pub fn fst_image_to_bytes(img: &FstImage) -> (r: Vec<u8>)
    ensures
        r@ == fst_image_bytes(entries_view(img.entries@), img.name_bank@),
{
    let mut r: Vec<u8> = Vec::new();
    let mut i: usize = 0;
    while i < img.entries.len()
        invariant
            i <= img.entries@.len(),
            r@ == fst_entries_bytes(entries_view(img.entries@).take(i as int)),
        decreases img.entries@.len() - i,
    {
        let packed = img.entries[i].pack();
        push_bytes(&mut r, packed.as_slice());
        proof {
            let v = entries_view(img.entries@);
            assert(v.take(i + 1).drop_last() =~= v.take(i as int));
            assert(v.take(i + 1).last() == img.entries@[i as int]@);
        }
        i = i + 1;
    }
    assert(entries_view(img.entries@).take(i as int) =~= entries_view(img.entries@));
    push_bytes(&mut r, img.name_bank.as_slice());
    r
}

} // verus!
