//! Building a modified disc: the files of a project put into the disc's file
//! system, and the disc's main executable patched.

use vstd::prelude::*;
use vstd::utf8::encode_utf8;
use crate::changes::paths_view;
use crate::dol::{
    data_len, dol_file_bytes, opt_data, opt_text, parse_dol_spec, patch_instructions, patched, patches_fit, DolError,
    DolFile, Instruction, SectionView, DOL_HEADER_SIZE,
};
use crate::vfs::gecko_fs::GeckoFS;
use crate::vfs::file::FileDataSource;
use crate::vfs::tree::{
    copy_path, lemma_resolve_descends, FsTree, lemma_extends_trans, lemma_resolve_extends, TreeNodeView, lemma_resolve_injective, names_file, resolve_from, tree_extends, tree_wf, TreeError,
};

verus! {

/// The path of entry `i` of a file map: its directories, then its name.
pub open spec fn file_map_path(m: Seq<(Vec<Vec<u8>>, String, Vec<u8>)>, i: int) -> Seq<Seq<u8>> {
    paths_view(m[i].0@).push(encode_utf8(m[i].1@))
}

/// The path names, from the root of `t`, a file that holds `data` in
/// memory.
pub open spec fn tree_holds_data<R>(t: FsTree<R>, path: Seq<Seq<u8>>, data: Seq<u8>) -> bool {
    match resolve_from(t@, 0, path) {
        Some(n) => {
            &&& !t@[n as int].is_dir
            &&& t.source(n as int) matches Some(FileDataSource::Box { data: x, .. })
            &&& x@ == data
        },
        None => false,
    }
}

/// Node `n` of the tree `v` is what the path of one of the first `k`
/// entries of a file map names.
pub open spec fn mapped_node(v: Seq<TreeNodeView>, m: Seq<(Vec<Vec<u8>>, String, Vec<u8>)>, k: int, n: int) -> bool {
    exists|j: int| 0 <= j < k && #[trigger] resolve_from(v, 0, file_map_path(m, j)) == Some(n as usize)
}

/// An entry of the first `k` after entry `i` has the same path.
pub open spec fn file_map_overridden(m: Seq<(Vec<Vec<u8>>, String, Vec<u8>)>, i: int, k: int) -> bool {
    exists|j: int| i < j < k && #[trigger] file_map_path(m, j) == file_map_path(m, i)
}

/// The most nodes that the first `k` entries of a file map can add to a
/// tree: each its directories and its file.
pub open spec fn file_map_growth(m: Seq<(Vec<Vec<u8>>, String, Vec<u8>)>, k: int) -> int
    decreases k,
{
    if k <= 0 {
        0
    } else {
        file_map_growth(m, k - 1) + m[k - 1].0@.len() + 1
    }
}

/// Entry `k` of a file map cannot be put into the tree `v`: its path names
/// a directory, or a prefix of its directories names a file.
pub open spec fn file_map_entry_refused(v: Seq<TreeNodeView>, m: Seq<(Vec<Vec<u8>>, String, Vec<u8>)>, k: int) -> bool {
    ||| resolve_from(v, 0, file_map_path(m, k)) matches Some(n) && v[n as int].is_dir
    ||| exists|j: int| 0 < j <= m[k].0@.len() && #[trigger] names_file(v, 0, paths_view(m[k].0@).take(j))
}

proof fn lemma_mapped_prefix(v: Seq<TreeNodeView>, m: Seq<(Vec<Vec<u8>>, String, Vec<u8>)>, a: int, b: int)
    requires
        a <= b,
    ensures
        forall|n: int| #[trigger] mapped_node(v, m, a, n) ==> mapped_node(v, m, b, n),
{
    assert forall|n: int| #[trigger] mapped_node(v, m, a, n) implies mapped_node(v, m, b, n) by {
        let j = choose|j: int| 0 <= j < a && #[trigger] resolve_from(v, 0, file_map_path(m, j)) == Some(n as usize);
        assert(resolve_from(v, 0, file_map_path(m, j)) == Some(n as usize));
    }
}

proof fn lemma_growth_mono(m: Seq<(Vec<Vec<u8>>, String, Vec<u8>)>, a: int, b: int)
    requires
        0 <= a <= b,
    ensures
        file_map_growth(m, a) <= file_map_growth(m, b),
    decreases b - a,
{
    if a < b {
        lemma_growth_mono(m, a, b - 1);
    }
}

/// Puts the files of `map` into the root of `fs`, in order: each entry gives
/// directories, a name and the data of a file (see `FsTree::put_file`).
/// Stops at the first entry whose path names a directory (`NotAFile`) or
/// goes through a file (`NotADirectory`); the entries before it stay put.
/// On success every path of the map names a file holding the data of the
/// last entry with that path.
pub fn apply_file_map<R>(fs: &mut GeckoFS<R>, map: &[(Vec<Vec<u8>>, String, Vec<u8>)]) -> (r: Result<(), TreeError>)
    requires
        old(fs).wf(),
        old(fs).root@.len() + file_map_growth(map@, map@.len() as int) < usize::MAX,
    ensures
        final(fs).wf(),
        final(fs).sys == old(fs).sys,
        tree_extends(old(fs).root@, final(fs).root@),
        r is Ok ==> forall|i: int|
            0 <= i < map@.len() && !file_map_overridden(map@, i, map@.len() as int) ==> tree_holds_data(final(fs).root, file_map_path(map@, i), map@[i].2@),
        r is Err ==> exists|k: int| 0 <= k < map@.len() && #[trigger] file_map_entry_refused(final(fs).root@, map@, k),
        r matches Err(e) ==> e == TreeError::NotAFile || e == TreeError::NotADirectory,
        forall|n: int|
            0 <= n < old(fs).root@.len() && !mapped_node(final(fs).root@, map@, map@.len() as int, n)
                ==> #[trigger] final(fs).root.source(n) == old(fs).root.source(n),
{
    let mut i: usize = 0;
    while i < map.len()
        invariant
            i <= map@.len(),
            fs.wf(),
            tree_wf(old(fs).root@),
            fs.sys == old(fs).sys,
            tree_extends(old(fs).root@, fs.root@),
            fs.root@.len() <= old(fs).root@.len() + file_map_growth(map@, i as int),
            old(fs).root@.len() + file_map_growth(map@, map@.len() as int) < usize::MAX,
            forall|k: int|
                0 <= k < i && !file_map_overridden(map@, k, i as int) ==> tree_holds_data(fs.root, file_map_path(map@, k), map@[k].2@),
            forall|n: int|
                0 <= n < old(fs).root@.len() && !mapped_node(fs.root@, map@, i as int, n)
                    ==> #[trigger] fs.root.source(n) == old(fs).root.source(n),
        decreases map@.len() - i,
    {
        let (dirs, name, data) = &map[i];
        proof {
            lemma_growth_mono(map@, i + 1, map@.len() as int);
        }
        let mut path: Vec<Vec<u8>> = copy_path(dirs.as_slice());
        path.push(vstd::slice::slice_to_vec(name.as_str().as_bytes()));
        assert(paths_view(path@) =~= file_map_path(map@, i as int));
        match fs.root.resolve(0, path.as_slice()) {
            Some(n) => {
                if fs.root.is_dir(n) {
                    assert(file_map_entry_refused(fs.root@, map@, i as int));
                    proof {
                        lemma_mapped_prefix(fs.root@, map@, i as int, map@.len() as int);
                    }
                    return Err(TreeError::NotAFile);
                }
            },
            None => {},
        }
        let ghost before = fs.root@;
        let ghost src_before = fs.root;
        match fs.root.put_file(0, dirs.as_slice(), name.clone(), data.clone()) {
            Ok(n) => {
                proof {
                    lemma_extends_trans(old(fs).root@, before, fs.root@);
                    assert forall|k: int|
                        0 <= k < i + 1 && !file_map_overridden(map@, k, i + 1) implies tree_holds_data(fs.root, file_map_path(map@, k), map@[k].2@) by {
                        if k < i {
                            assert(!file_map_overridden(map@, k, i as int));
                            assert(file_map_path(map@, i as int) != file_map_path(map@, k));
                            let m = resolve_from(before, 0, file_map_path(map@, k)).unwrap();
                            lemma_resolve_extends(before, fs.root@, 0, file_map_path(map@, k));
                            lemma_resolve_descends(before, 0, file_map_path(map@, k), m);
                            if m == n {
                                lemma_resolve_injective(fs.root@, 0, file_map_path(map@, k), file_map_path(map@, i as int));
                            }
                            assert(fs.root.source(m as int) == src_before.source(m as int));
                        }
                    }
                    assert forall|x: int|
                        0 <= x < old(fs).root@.len() && !mapped_node(fs.root@, map@, i + 1, x) implies #[trigger] fs.root.source(
                        x,
                    ) == old(fs).root.source(x) by {
                        assert(resolve_from(fs.root@, 0, file_map_path(map@, i as int)) == Some(n));
                        if mapped_node(before, map@, i as int, x) {
                            let j = choose|j: int|
                                0 <= j < i && #[trigger] resolve_from(before, 0, file_map_path(map@, j)) == Some(
                                    x as usize,
                                );
                            lemma_resolve_extends(before, fs.root@, 0, file_map_path(map@, j));
                            assert(resolve_from(fs.root@, 0, file_map_path(map@, j)) == Some(x as usize));
                        }
                        assert(x != n);
                    }
                }
            },
            Err(e) => {
                assert(file_map_entry_refused(fs.root@, map@, i as int));
                proof {
                    lemma_mapped_prefix(fs.root@, map@, i as int, map@.len() as int);
                }
                return Err(e);
            },
        }
        i = i + 1;
    }
    Ok(())
}

/// The path of the main executable in the system tree.
pub open spec fn main_dol_path() -> Seq<Seq<u8>> {
    seq![encode_utf8("Start.dol"@)]
}

/// The text sections `t` and data sections `d` can be patched with `ins`
/// and written back as a DOL (see `patch_instructions`).
pub open spec fn dol_patch_ok(t: Seq<SectionView>, d: Seq<SectionView>, ins: Seq<Instruction>) -> bool {
    &&& patches_fit(t + d, ins)
    &&& t.len() <= 7 && d.len() <= 11
    &&& DOL_HEADER_SIZE + data_len(t, t.len() as int) + data_len(d, d.len() as int) <= usize::MAX
}

/// `new` is `old` with the file at `path` holding `data` in memory and every
/// other file as it was.
pub open spec fn file_replaced<R>(new: FsTree<R>, old: FsTree<R>, path: Seq<Seq<u8>>, data: Seq<u8>) -> bool {
    match resolve_from(old@, 0, path) {
        Some(n) => {
            &&& new.source(n as int) matches Some(FileDataSource::Box { data: x, .. })
            &&& x@ == data
            &&& forall|i: int| 0 <= i < old@.len() && i != n ==> new.source(i) == old.source(i)
        },
        None => false,
    }
}

/// Patches the main executable of `fs`, whose bytes are `dol`: appends the
/// linked code `intermediate`, when there is some, applies the patches and
/// makes Start.dol hold the resulting DOL (see `patch_instructions`). Fails,
/// with `fs` unchanged, when the system tree has no Start.dol file
/// (`NotFound`), when `dol` is no DOL (`UnexpectedEnd`) or when a patch
/// finds no section (`PatchNotApplied`).
pub fn patch_main_dol<R>(fs: &mut GeckoFS<R>, dol: &[u8], intermediate: Option<DolFile>, instructions: &[Instruction]) -> (r:
    Result<(), DolError>)
    requires
        old(fs).wf(),
        parse_dol_spec(dol@) matches Some((t0, d0, _, _, _)) ==> dol_patch_ok(
            t0 + opt_text(intermediate),
            d0 + opt_data(intermediate),
            instructions@,
        ),
    ensures
        final(fs).wf(),
        final(fs).root == old(fs).root,
        final(fs).sys@ == old(fs).sys@,
        r is Err ==> *final(fs) == *old(fs),
        !names_file(old(fs).sys@, 0, main_dol_path()) ==> r == Err::<(), DolError>(DolError::NotFound),
        names_file(old(fs).sys@, 0, main_dol_path()) ==> match parse_dol_spec(dol@) {
            None => r == Err::<(), DolError>(DolError::UnexpectedEnd),
            Some((t0, d0, bss_address, bss_size, entry_point)) => {
                let t = t0 + opt_text(intermediate);
                let d = d0 + opt_data(intermediate);
                let (res, ok) = patched(t + d, instructions@, instructions@.len() as int);
                &&& !ok ==> r == Err::<(), DolError>(DolError::PatchNotApplied)
                &&& ok ==> r is Ok && file_replaced(
                    final(fs).sys,
                    old(fs).sys,
                    main_dol_path(),
                    dol_file_bytes(res.take(t.len() as int), res.skip(t.len() as int), bss_address, bss_size, entry_point),
                )
            },
        },
{
    let path: Vec<Vec<u8>> = vec![vstd::slice::slice_to_vec("Start.dol".as_bytes())];
    assert(paths_view(path@) =~= main_dol_path());
    let n = match fs.sys.get_file(0, path.as_slice()) {
        Ok(n) => n,
        Err(_) => return Err(DolError::NotFound),
    };
    let original = match DolFile::parse(dol) {
        Ok(f) => f,
        Err(e) => return Err(e),
    };
    let bytes = match patch_instructions(original, intermediate, instructions) {
        Ok(b) => b,
        Err(e) => return Err(e),
    };
    proof {
        lemma_resolve_descends(fs.sys@, 0, main_dol_path(), n);
    }
    fs.sys.set_data(n, bytes);
    Ok(())
}

} // verus!
