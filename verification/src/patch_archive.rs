//! The layout of a patch archive made from two discs: which entries it
//! holds, under which names, and what its configuration lists.

use vstd::prelude::*;
use vstd::utf8::encode_utf8;
use crate::bytes::push_bytes;
use crate::changes::paths_view;
use crate::text::bytes_eq;

verus! {

/// Where the data of an entry of a patch archive comes from.
#[derive(Debug, Clone, Copy, PartialEq, Eq, Structural)]
pub enum ArchiveSource {
    /// The compressed patch of the system-file change with this index.
    SysChange(usize),
    /// The compressed patch of the file change with this index.
    RootChange(usize),
    /// The data of the added file with this index.
    Addition(usize),
}

/// An entry of a patch archive: its name and where its data comes from.
#[derive(Debug, Clone)]
pub struct ArchiveEntry {
    pub name: Vec<u8>,
    pub source: ArchiveSource,
}

/// What a patch archive holds and what its configuration says.
#[derive(Debug, Clone)]
pub struct ArchivePlan {
    /// The entries, in the order they are written.
    pub entries: Vec<ArchiveEntry>,
    /// Each added file's path in the game, with the name of its entry.
    pub files: Vec<(Vec<u8>, Vec<u8>)>,
    /// The paths in the game of the deleted files.
    pub deletions: Vec<Vec<u8>>,
    /// Each changed file's path in the game, with the name of its patch.
    pub changes: Vec<(Vec<u8>, Vec<u8>)>,
    /// The name of the patch of the main executable, if it changed.
    pub dol: Option<Vec<u8>>,
    /// The name of the patch of the apploader, if it changed.
    pub loader: Option<Vec<u8>>,
}

/// The decimal digits of `n`, in ASCII.
pub open spec fn decimal(n: nat) -> Seq<u8>
    decreases n,
{
    if n < 10 {
        seq![(48 + n) as u8]
    } else {
        decimal(n / 10).push((48 + n % 10) as u8)
    }
}

/// Name of the patch of the main executable.
pub open spec fn dol_entry_name() -> Seq<u8> {
    encode_utf8("start_dol.bs.gz2"@)
}

/// Name of the patch of the apploader.
pub open spec fn loader_entry_name() -> Seq<u8> {
    encode_utf8("apploader.bs.gz2"@)
}

/// Name of the patch of file change `i`.
pub open spec fn change_entry_name(i: nat) -> Seq<u8> {
    encode_utf8("change"@) + decimal(i) + encode_utf8(".bs.gz2"@)
}

/// Name of the data of added file `i`.
pub open spec fn replace_entry_name(i: nat) -> Seq<u8> {
    encode_utf8("replace"@) + decimal(i) + encode_utf8(".dat"@)
}

/// The first change, from index `i` on, of the file at `path`.
pub open spec fn first_change_at(c: Seq<(Vec<u8>, Vec<u8>)>, path: Seq<u8>, i: int) -> Option<int>
    decreases c.len() - i,
{
    if i < 0 || i >= c.len() {
        None
    } else if c[i].0@ == path {
        Some(i)
    } else {
        first_change_at(c, path, i + 1)
    }
}

/// The entries of a plan as names and sources.
pub open spec fn archive_entries_view(v: Seq<ArchiveEntry>) -> Seq<(Seq<u8>, ArchiveSource)> {
    Seq::new(v.len(), |i: int| (v[i].name@, v[i].source))
}

/// Pairs of byte strings as views.
pub open spec fn pairs_view(v: Seq<(Vec<u8>, Vec<u8>)>) -> Seq<(Seq<u8>, Seq<u8>)> {
    Seq::new(v.len(), |i: int| (v[i].0@, v[i].1@))
}

/// The entries of an archive: the patch of the main executable when system
/// change `d` is one, then that of the apploader when `l` is, then the
/// `nc` file patches, then the `na` added files.
pub open spec fn planned_entries(d: Option<int>, l: Option<int>, nc: nat, na: nat) -> Seq<(Seq<u8>, ArchiveSource)> {
    (match d {
        Some(i) => seq![(dol_entry_name(), ArchiveSource::SysChange(i as usize))],
        None => Seq::empty(),
    }) + (match l {
        Some(i) => seq![(loader_entry_name(), ArchiveSource::SysChange(i as usize))],
        None => Seq::empty(),
    }) + Seq::new(nc, |i: int| (change_entry_name(i as nat), ArchiveSource::RootChange(i as usize))) + Seq::new(
        na,
        |i: int| (replace_entry_name(i as nat), ArchiveSource::Addition(i as usize)),
    )
}

/// Appends the decimal digits of `n`.
fn push_decimal(out: &mut Vec<u8>, n: usize)
    ensures
        final(out)@ == old(out)@ + decimal(n as nat),
    decreases n,
{
    if n >= 10 {
        push_decimal(out, n / 10);
    }
    let ghost before = out@;
    out.push((48 + n % 10) as u8);
    proof {
        if n >= 10 {
            assert(out@ =~= old(out)@ + decimal((n / 10) as nat).push((48 + n % 10) as u8));
        } else {
            assert(out@ =~= old(out)@ + decimal(n as nat));
        }
    }
}

/// `prefix`, the digits of `i`, then `suffix`.
fn numbered_name(prefix: &str, i: usize, suffix: &str) -> (r: Vec<u8>)
    ensures
        r@ == encode_utf8(prefix@) + decimal(i as nat) + encode_utf8(suffix@),
{
    let mut r = vstd::slice::slice_to_vec(prefix.as_bytes());
    push_decimal(&mut r, i);
    push_bytes(&mut r, suffix.as_bytes());
    r
}

/// The first system change of the file at `path`.
fn find_change(c: &[(Vec<u8>, Vec<u8>)], path: &[u8]) -> (r: Option<usize>)
    ensures
        match first_change_at(c@, path@, 0) {
            Some(i) => r == Some(i as usize),
            None => r is None,
        },
{
    let mut i: usize = c.len();
    let mut found: Option<usize> = None;
    while i > 0
        invariant
            i <= c@.len(),
            match found {
                Some(j) => i <= j < c@.len() && first_change_at(c@, path@, i as int) == Some(j as int),
                None => first_change_at(c@, path@, i as int) is None,
            },
        decreases i,
    {
        i = i - 1;
        if bytes_eq(c[i].0.as_slice(), path) {
            found = Some(i);
        }
    }
    found
}

/// Lays out the patch archive of two discs from their differences: the
/// changes of the system files and of the other files (each a path and
/// its compressed patch), the added and the deleted files. The patch of
/// Start.dol becomes `start_dol.bs.gz2` and that of AppLoader.ldr
/// `apploader.bs.gz2`; file change `i` becomes `change{i}.bs.gz2` and
/// added file `i` `replace{i}.dat`.
pub fn patch_archive_plan(
    sys_changes: &[(Vec<u8>, Vec<u8>)],
    root_changes: &[(Vec<u8>, Vec<u8>)],
    additions: &[Vec<u8>],
    deletions: &[Vec<u8>],
) -> (r: ArchivePlan)
    ensures
        ({
            let d = first_change_at(sys_changes@, encode_utf8("Start.dol"@), 0);
            let l = first_change_at(sys_changes@, encode_utf8("AppLoader.ldr"@), 0);
            &&& archive_entries_view(r.entries@) == planned_entries(d, l, root_changes@.len(), additions@.len())
            &&& (r.dol is Some <==> d is Some) && (r.dol matches Some(n) ==> n@ == dol_entry_name())
            &&& (r.loader is Some <==> l is Some) && (r.loader matches Some(n) ==> n@ == loader_entry_name())
        }),
        pairs_view(r.changes@) == Seq::new(
            root_changes@.len(),
            |i: int| (root_changes@[i].0@, change_entry_name(i as nat)),
        ),
        pairs_view(r.files@) == Seq::new(additions@.len(), |i: int| (additions@[i]@, replace_entry_name(i as nat))),
        paths_view(r.deletions@) == paths_view(deletions@),
{
    let ghost d = first_change_at(sys_changes@, encode_utf8("Start.dol"@), 0);
    let ghost l = first_change_at(sys_changes@, encode_utf8("AppLoader.ldr"@), 0);
    let mut entries: Vec<ArchiveEntry> = Vec::new();
    let mut dol: Option<Vec<u8>> = None;
    let mut loader: Option<Vec<u8>> = None;
    match find_change(sys_changes, "Start.dol".as_bytes()) {
        Some(i) => {
            let name = vstd::slice::slice_to_vec("start_dol.bs.gz2".as_bytes());
            entries.push(ArchiveEntry { name: vstd::slice::slice_to_vec(name.as_slice()), source: ArchiveSource::SysChange(i) });
            dol = Some(name);
        },
        None => {},
    }
    match find_change(sys_changes, "AppLoader.ldr".as_bytes()) {
        Some(i) => {
            let name = vstd::slice::slice_to_vec("apploader.bs.gz2".as_bytes());
            entries.push(ArchiveEntry { name: vstd::slice::slice_to_vec(name.as_slice()), source: ArchiveSource::SysChange(i) });
            loader = Some(name);
        },
        None => {},
    }
    let ghost head = archive_entries_view(entries@);
    assert(head =~= planned_entries(d, l, 0, 0));
    let mut changes: Vec<(Vec<u8>, Vec<u8>)> = Vec::new();
    let mut i: usize = 0;
    while i < root_changes.len()
        invariant
            i <= root_changes@.len(),
            archive_entries_view(entries@) == head + Seq::new(
                i as nat,
                |k: int| (change_entry_name(k as nat), ArchiveSource::RootChange(k as usize)),
            ),
            pairs_view(changes@) == Seq::new(i as nat, |k: int| (root_changes@[k].0@, change_entry_name(k as nat))),
        decreases root_changes@.len() - i,
    {
        let name = numbered_name("change", i, ".bs.gz2");
        let ghost e0 = entries@;
        let ghost c0 = changes@;
        let entry = ArchiveEntry { name: vstd::slice::slice_to_vec(name.as_slice()), source: ArchiveSource::RootChange(i) };
        let path = vstd::slice::slice_to_vec(root_changes[i].0.as_slice());
        assert(entry.name@ == change_entry_name(i as nat));
        assert(path@ == root_changes@[i as int].0@);
        entries.push(entry);
        changes.push((path, name));
        assert(archive_entries_view(e0).len() == e0.len());
        assert(pairs_view(c0).len() == c0.len());
        assert forall|x: int| 0 <= x < entries@.len() implies #[trigger] archive_entries_view(entries@)[x] == (head
            + Seq::new((i + 1) as nat, |k: int| (change_entry_name(k as nat), ArchiveSource::RootChange(k as usize))))[x] by {
            if x < e0.len() {
                assert(entries@[x] == e0[x]);
                assert(archive_entries_view(e0)[x] == (head + Seq::new(
                    i as nat,
                    |k: int| (change_entry_name(k as nat), ArchiveSource::RootChange(k as usize)),
                ))[x]);
            }
        }
        assert forall|x: int| 0 <= x < changes@.len() implies #[trigger] pairs_view(changes@)[x] == Seq::new(
            (i + 1) as nat,
            |k: int| (root_changes@[k].0@, change_entry_name(k as nat)),
        )[x] by {
            if x < c0.len() {
                assert(changes@[x] == c0[x]);
                assert(pairs_view(c0)[x] == Seq::new(i as nat, |k: int| (root_changes@[k].0@, change_entry_name(k as nat)))[x]);
            }
        }
        assert(archive_entries_view(entries@) =~= head + Seq::new(
            (i + 1) as nat,
            |k: int| (change_entry_name(k as nat), ArchiveSource::RootChange(k as usize)),
        ));
        assert(pairs_view(changes@) =~= Seq::new(
            (i + 1) as nat,
            |k: int| (root_changes@[k].0@, change_entry_name(k as nat)),
        ));
        i = i + 1;
    }
    let ghost mid = archive_entries_view(entries@);
    let mut files: Vec<(Vec<u8>, Vec<u8>)> = Vec::new();
    let mut j: usize = 0;
    while j < additions.len()
        invariant
            j <= additions@.len(),
            archive_entries_view(entries@) == mid + Seq::new(
                j as nat,
                |k: int| (replace_entry_name(k as nat), ArchiveSource::Addition(k as usize)),
            ),
            pairs_view(files@) == Seq::new(j as nat, |k: int| (additions@[k]@, replace_entry_name(k as nat))),
        decreases additions@.len() - j,
    {
        let name = numbered_name("replace", j, ".dat");
        let ghost e0 = entries@;
        let ghost f0 = files@;
        let entry = ArchiveEntry { name: vstd::slice::slice_to_vec(name.as_slice()), source: ArchiveSource::Addition(j) };
        let path = vstd::slice::slice_to_vec(additions[j].as_slice());
        assert(entry.name@ == replace_entry_name(j as nat));
        assert(path@ == additions@[j as int]@);
        entries.push(entry);
        files.push((path, name));
        assert(archive_entries_view(e0).len() == e0.len());
        assert(pairs_view(f0).len() == f0.len());
        assert forall|x: int| 0 <= x < entries@.len() implies #[trigger] archive_entries_view(entries@)[x] == (mid
            + Seq::new((j + 1) as nat, |k: int| (replace_entry_name(k as nat), ArchiveSource::Addition(k as usize))))[x] by {
            if x < e0.len() {
                assert(entries@[x] == e0[x]);
                assert(archive_entries_view(e0)[x] == (mid + Seq::new(
                    j as nat,
                    |k: int| (replace_entry_name(k as nat), ArchiveSource::Addition(k as usize)),
                ))[x]);
            }
        }
        assert forall|x: int| 0 <= x < files@.len() implies #[trigger] pairs_view(files@)[x] == Seq::new(
            (j + 1) as nat,
            |k: int| (additions@[k]@, replace_entry_name(k as nat)),
        )[x] by {
            if x < f0.len() {
                assert(files@[x] == f0[x]);
                assert(pairs_view(f0)[x] == Seq::new(j as nat, |k: int| (additions@[k]@, replace_entry_name(k as nat)))[x]);
            }
        }
        assert(archive_entries_view(entries@) =~= mid + Seq::new(
            (j + 1) as nat,
            |k: int| (replace_entry_name(k as nat), ArchiveSource::Addition(k as usize)),
        ));
        assert(pairs_view(files@) =~= Seq::new((j + 1) as nat, |k: int| (additions@[k]@, replace_entry_name(k as nat))));
        j = j + 1;
    }
    assert(archive_entries_view(entries@) =~= planned_entries(d, l, root_changes@.len(), additions@.len()));
    let mut dels: Vec<Vec<u8>> = Vec::new();
    let mut k: usize = 0;
    while k < deletions.len()
        invariant
            k <= deletions@.len(),
            paths_view(dels@) == paths_view(deletions@).take(k as int),
        decreases deletions@.len() - k,
    {
        let ghost d0 = dels@;
        let p = vstd::slice::slice_to_vec(deletions[k].as_slice());
        assert(p@ == deletions@[k as int]@);
        dels.push(p);
        assert(paths_view(d0).len() == d0.len());
        assert(d0.len() == k);
        assert forall|x: int| 0 <= x < k + 1 implies #[trigger] paths_view(dels@)[x] == paths_view(deletions@).take(
            k + 1,
        )[x] by {
            if x < k {
                assert(dels@[x] == d0[x]);
                assert(paths_view(d0)[x] == paths_view(deletions@).take(k as int)[x]);
            }
        }
        assert(paths_view(dels@) =~= paths_view(deletions@).take(k + 1));
        k = k + 1;
    }
    assert(paths_view(deletions@).take(k as int) =~= paths_view(deletions@));
    ArchivePlan { entries, files, deletions: dels, changes, dol, loader }
}

} // verus!
