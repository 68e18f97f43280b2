//! What a patched disc changed against the original: which files were
//! deleted, which were added and which both hold, to be compared.

use vstd::prelude::*;
use std::io::{Read, Write};

verus! {

/// Whether `path` is one of `paths`.
pub open spec fn path_listed(paths: Seq<Seq<u8>>, path: Seq<u8>) -> bool {
    exists|j: int| 0 <= j < paths.len() && paths[j] == path
}

/// The views of a list of paths.
pub open spec fn paths_view(paths: Seq<Vec<u8>>) -> Seq<Seq<u8>> {
    Seq::new(paths.len(), |i: int| paths[i]@)
}

/// The indices below `n`, in increasing order, of the paths of `from` that
/// are (`listed`) or are not in `other`.
pub open spec fn indices_by_presence(from: Seq<Seq<u8>>, other: Seq<Seq<u8>>, n: nat, listed: bool) -> Seq<usize>
    decreases n,
{
    if n == 0 {
        Seq::empty()
    } else {
        let prev = indices_by_presence(from, other, (n - 1) as nat, listed);
        if path_listed(other, from[n - 1]) == listed {
            prev.push((n - 1) as usize)
        } else {
            prev
        }
    }
}

/// The indices picked by `indices_by_presence` are those below `n` whose
/// path's presence in `other` is the one asked for, in increasing order.
pub proof fn lemma_indices_by_presence(from: Seq<Seq<u8>>, other: Seq<Seq<u8>>, n: nat, listed: bool)
    requires
        n <= from.len(),
        n <= usize::MAX,
    ensures
        ({
            let r = indices_by_presence(from, other, n, listed);
            &&& forall|a: int| 0 <= a < r.len() ==> r[a] < n
            &&& forall|a: int, b: int| 0 <= a < b < r.len() ==> r[a] < r[b]
            &&& forall|k: int|
                0 <= k < n ==> (r.contains(k as usize) <==> path_listed(other, #[trigger] from[k]) == listed)
        }),
    decreases n,
{
    if n > 0 {
        let m = (n - 1) as nat;
        lemma_indices_by_presence(from, other, m, listed);
        let prev = indices_by_presence(from, other, m, listed);
        let r = indices_by_presence(from, other, n, listed);
        assert forall|k: int| 0 <= k < n implies (r.contains(k as usize) <==> path_listed(
            other,
            #[trigger] from[k],
        ) == listed) by {
            if k < m {
                if r.contains(k as usize) {
                    let a = choose|a: int| 0 <= a < r.len() && r[a] == k as usize;
                    if a < prev.len() {
                        assert(prev[a] == k as usize);
                    }
                } else if prev.contains(k as usize) {
                    let a = choose|a: int| 0 <= a < prev.len() && prev[a] == k as usize;
                    assert(r[a] == k as usize);
                }
            } else {
                if path_listed(other, from[k]) == listed {
                    assert(r[r.len() - 1] == k as usize);
                } else if r.contains(k as usize) {
                    let a = choose|a: int| 0 <= a < r.len() && r[a] == k as usize;
                    assert(prev[a] < m);
                }
            }
        }
    }
}

/// Each path of the original is either kept (its index is among those of
/// the paths the patched list also holds) or deleted, never both; each path
/// of the patched list is an addition exactly when the original lacks it.
pub proof fn lemma_file_lists_partition(original: Seq<Seq<u8>>, patched: Seq<Seq<u8>>)
    requires
        original.len() <= usize::MAX,
        patched.len() <= usize::MAX,
    ensures
        forall|i: int|
            0 <= i < original.len() ==> {
                &&& indices_by_presence(original, patched, original.len(), true).contains(i as usize)
                    == path_listed(patched, #[trigger] original[i])
                &&& indices_by_presence(original, patched, original.len(), false).contains(i as usize)
                    == !path_listed(patched, original[i])
            },
        forall|j: int|
            0 <= j < patched.len() ==> (indices_by_presence(patched, original, patched.len(), false).contains(
                j as usize,
            ) <==> !path_listed(original, #[trigger] patched[j])),
{
    lemma_indices_by_presence(original, patched, original.len(), true);
    lemma_indices_by_presence(original, patched, original.len(), false);
    lemma_indices_by_presence(patched, original, patched.len(), false);
}

/// How two lists of file paths differ: indices of the original's paths
/// that the patched list also holds (`common`) or lacks (`deletions`), and
/// indices of the patched list's paths that the original lacks
/// (`additions`), each in the order of its list.
#[derive(Debug, Clone, PartialEq, Eq)]
pub struct FileListDiff {
    pub common: Vec<usize>,
    pub deletions: Vec<usize>,
    pub additions: Vec<usize>,
}

/// Whether two byte strings are equal.
pub fn bytes_equal(a: &[u8], b: &[u8]) -> (r: bool)
    ensures
        r == (a@ == b@),
{
    if a.len() != b.len() {
        return false;
    }
    let mut i: usize = 0;
    while i < a.len()
        invariant
            i <= a.len() == b.len(),
            a@.take(i as int) == b@.take(i as int),
        decreases a.len() - i,
    {
        if a[i] != b[i] {
            assert(a@[i as int] != b@[i as int]);
            return false;
        }
        assert(a@.take(i + 1) == a@.take(i as int).push(a@[i as int]));
        assert(b@.take(i + 1) == b@.take(i as int).push(b@[i as int]));
        i = i + 1;
    }
    assert(a@ == a@.take(i as int));
    assert(b@ == b@.take(i as int));
    true
}

/// Whether `path` is one of `paths`.
pub fn contains_path(paths: &Vec<Vec<u8>>, path: &Vec<u8>) -> (r: bool)
    ensures
        r == path_listed(paths_view(paths@), path@),
{
    let ghost pv = paths_view(paths@);
    let mut j: usize = 0;
    while j < paths.len()
        invariant
            j <= paths.len(),
            pv == paths_view(paths@),
            forall|k: int| 0 <= k < j ==> pv[k] != path@,
        decreases paths.len() - j,
    {
        if bytes_equal(paths[j].as_slice(), path.as_slice()) {
            assert(pv[j as int] == path@);
            return true;
        }
        j = j + 1;
    }
    assert forall|k: int| 0 <= k < pv.len() implies pv[k] != path@ by {}
    false
}

/// The indices, in order, of the paths of `from` that are (`listed`) or are
/// not in `other`.
fn indices_where_listed(from: &Vec<Vec<u8>>, other: &Vec<Vec<u8>>, listed: bool) -> (r: Vec<usize>)
    ensures
        r@ == indices_by_presence(paths_view(from@), paths_view(other@), from@.len(), listed),
{
    let ghost fv = paths_view(from@);
    let ghost ov = paths_view(other@);
    let mut r: Vec<usize> = Vec::new();
    let mut i: usize = 0;
    while i < from.len()
        invariant
            i <= from.len(),
            fv == paths_view(from@),
            ov == paths_view(other@),
            r@ == indices_by_presence(fv, ov, i as nat, listed),
        decreases from.len() - i,
    {
        let found = contains_path(other, &from[i]);
        assert(fv[i as int] == from@[i as int]@);
        if found == listed {
            r.push(i);
        }
        i = i + 1;
    }
    r
}

/// Sorts out two lists of file paths: which paths of the original the
/// patched list also holds, which it lacks, and which paths of the patched
/// list are new (see `FileListDiff`).
pub fn diff_file_lists(original: &Vec<Vec<u8>>, patched: &Vec<Vec<u8>>) -> (r: FileListDiff)
    ensures
        r.common@ == indices_by_presence(paths_view(original@), paths_view(patched@), original@.len(), true),
        r.deletions@ == indices_by_presence(paths_view(original@), paths_view(patched@), original@.len(), false),
        r.additions@ == indices_by_presence(paths_view(patched@), paths_view(original@), patched@.len(), false),
{
    FileListDiff {
        common: indices_where_listed(original, patched, true),
        deletions: indices_where_listed(original, patched, false),
        additions: indices_where_listed(patched, original, false),
    }
}

/// The patch that the `bsdiff` crate makes from `old` to `new`.
pub uninterp spec fn bsdiff_of(old: Seq<u8>, new: Seq<u8>) -> Seq<u8>;

/// What the `bsdiff` crate makes of `old` with the patch `patch`.
pub uninterp spec fn bspatch_of(old: Seq<u8>, patch: Seq<u8>) -> Seq<u8>;

/// The bzip2 stream, best compression, that the `deko` crate makes of
/// `data`.
pub uninterp spec fn bzip2_of(data: Seq<u8>) -> Seq<u8>;

/// What the `deko` crate decompresses `data` to, its format found by its
/// first bytes.
pub uninterp spec fn decompressed_of(data: Seq<u8>) -> Seq<u8>;

/// The compressed patch from `old` to `new`: the bzip2 stream of the bsdiff
/// patch. `diff` makes it and `patch` applies it.
pub open spec fn compressed_patch(old: Seq<u8>, new: Seq<u8>) -> Seq<u8> {
    bzip2_of(bsdiff_of(old, new))
}

/// `bsdiff::diff` from `old` to `new`, into a vector. It fails only when
/// its writer does, and writing into a vector does not fail. A patch made
/// by it gives `new` back when `bsdiff::patch` applies it to `old` (see
/// `bspatch`).
#[verifier::external_body]
fn bsdiff(old: &[u8], new: &[u8]) -> (r: Vec<u8>)
    ensures
        r@ == bsdiff_of(old@, new@),
{
    let mut out = Vec::new();
    bsdiff::diff(old, new, &mut out).expect("writing into a vector does not fail");
    out
}

/// `bsdiff::patch`: applies `patch` to `old`. On a patch that
/// `bsdiff::diff` made from `old` to some `new`, it succeeds with `new`.
#[verifier::external_body]
fn bspatch(old: &[u8], patch: &[u8]) -> (r: Result<Vec<u8>, String>)
    ensures
        r matches Ok(n) ==> n@ == bspatch_of(old@, patch@),
        forall|new: Seq<u8>| patch@ == #[trigger] bsdiff_of(old@, new) ==> r is Ok && r.unwrap()@ == new,
{
    let mut reader = patch;
    let mut out = Vec::new();
    match bsdiff::patch(old, &mut reader, &mut out) {
        Ok(()) => Ok(out),
        Err(e) => Err(e.to_string()),
    }
}

/// `deko::write::AnyEncoder` with the bzip2 format and the best
/// compression: `new`, `write_all` of `data`, `finish`, over a vector.
/// Making the encoder does not fail for this format, and its writes fail
/// only when the vector does, which does not happen.
#[verifier::external_body]
fn bzip2_compress(data: &[u8]) -> (r: Vec<u8>)
    ensures
        r@ == bzip2_of(data@),
{
    let mut encoder = deko::write::AnyEncoder::new(Vec::new(), deko::Format::Bz, deko::write::Compression::Best)
        .expect("a bzip2 encoder over a vector is made");
    encoder.write_all(data).expect("writing into a vector does not fail");
    encoder.finish().expect("writing into a vector does not fail")
}

/// `deko::AnyDecoder` over `data`, read to the end. What
/// `deko::write::AnyEncoder` compressed it decompresses back.
#[verifier::external_body]
fn decompress(data: &[u8]) -> (r: Result<Vec<u8>, String>)
    ensures
        r matches Ok(d) ==> d@ == decompressed_of(data@),
        forall|x: Seq<u8>| data@ == #[trigger] bzip2_of(x) ==> r is Ok && r.unwrap()@ == x,
{
    let mut decoder = deko::AnyDecoder::new(data);
    let mut out = Vec::new();
    match decoder.read_to_end(&mut out) {
        Ok(_) => Ok(out),
        Err(e) => Err(e.to_string()),
    }
}

/// An error of the outside code that makes or applies a patch, as text.
#[derive(Debug, Clone, PartialEq, Eq)]
pub enum DiffError {
    Io(String),
}

/// The compressed patch from `original` to `patched`; none when they are
/// equal.
pub fn diff(original: &[u8], patched: &[u8]) -> (r: Result<Option<Vec<u8>>, DiffError>)
    ensures
        original@ == patched@ ==> r == Ok::<Option<Vec<u8>>, DiffError>(None),
        original@ != patched@ ==> (r matches Ok(Some(d)) && d@ == compressed_patch(original@, patched@)),
{
    if original.len() == patched.len() && bytes_equal(original, patched) {
        return Ok(None);
    }
    let raw = bsdiff(original, patched);
    Ok(Some(bzip2_compress(raw.as_slice())))
}

/// Applies the compressed patch `data` to `original`. A patch that `diff`
/// made from `original` to some `new` gives `new` back.
pub fn patch(original: &[u8], data: &[u8]) -> (r: Result<Vec<u8>, DiffError>)
    ensures
        r matches Ok(n) ==> n@ == bspatch_of(original@, decompressed_of(data@)),
        forall|new: Seq<u8>| data@ == #[trigger] compressed_patch(original@, new) ==> (r matches Ok(n) && n@ == new),
{
    let raw = match decompress(data) {
        Ok(d) => d,
        Err(e) => return Err(DiffError::Io(e)),
    };
    match bspatch(original, raw.as_slice()) {
        Ok(n) => Ok(n),
        Err(e) => Err(DiffError::Io(e)),
    }
}

/// Whether the data of a file changed: the comparison that decides whether
/// a change is recorded for a file both lists hold.
pub fn file_changed(original: &[u8], patched: &[u8]) -> (r: bool)
    ensures
        r == (original@ != patched@),
{
    !bytes_equal(original, patched)
}

} // verus!
