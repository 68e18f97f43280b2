//! The file system of a disc: the tree of its files and the tree of its
//! system files, built from the disc's tables and laid out to be written
//! back.

use vstd::prelude::*;
use vstd::utf8::encode_utf8;
use crate::disc::HEADER_LENGTH;
use crate::iso::disc::align_up;
use crate::iso::FstNode;
use crate::vfs::file::FileDataSource;
use crate::changes::paths_view;
use crate::vfs::tree::{
    child_named, event_is, fst_dirs_in_range, has_child_named, lemma_with_child, resolve_from, tree_build, tree_wf,
    walk_matches, with_child, FsTree, TreeNodeView, WalkItem,
};
use crate::vfs::{
    build_fst, entries_view, fst_finished, fst_len_checked, fst_len_spec, fst_step, fst_walk, is_file_node,
    system_files, system_layout, walk_files_fit, walk_files_fit_check, FsHeader, FsWalkEvent, FstBuild, FstImage,
    GeckoFSError, SystemLayout,
};

verus! {

/// The file system of a disc: its files under `root`, and the system files
/// (header, apploader, main executable, file system table) under `sys`.
pub struct GeckoFS<R> {
    pub root: FsTree<R>,
    pub sys: FsTree<R>,
}

/// Name of the directory of the system files.
pub open spec fn sys_dir_name() -> Seq<u8> {
    encode_utf8("&&systemdata"@)
}

/// Name of system file `k`: the header, the apploader, the main executable
/// and the file system table.
pub open spec fn sys_file_name(k: int) -> Seq<char> {
    if k == 0 {
        "iso.hdr"@
    } else if k == 1 {
        "AppLoader.ldr"@
    } else if k == 2 {
        "Start.dol"@
    } else {
        "Game.toc"@
    }
}

/// Where system file `k` starts on the disc.
pub open spec fn sys_file_offset(h: FsHeader, k: int) -> u64 {
    if k == 0 {
        0
    } else if k == 1 {
        HEADER_LENGTH as u64
    } else if k == 2 {
        h.dol_offset
    } else {
        h.fst_offset
    }
}

/// The size of system file `k`.
pub open spec fn sys_file_size(h: FsHeader, k: int) -> usize {
    if k == 0 {
        HEADER_LENGTH
    } else if k == 1 {
        (h.dol_offset - HEADER_LENGTH) as usize
    } else if k == 2 {
        (h.fst_offset - h.dol_offset) as usize
    } else {
        h.fst_size as usize
    }
}

/// An empty directory named `name`.
pub open spec fn empty_dir(name: Seq<u8>) -> TreeNodeView {
    TreeNodeView { name, parent: 0, children: Seq::empty(), is_dir: true }
}

/// `ev` are the events of the steps `w`.
pub open spec fn events_of(ev: Seq<FsWalkEvent>, w: Seq<WalkItem>) -> bool {
    &&& ev.len() == w.len()
    &&& forall|i: int| 0 <= i < w.len() ==> event_is(#[trigger] ev[i], w[i])
}

/// The layout of the system files as `system_layout` makes it.
pub open spec fn layout_spec(header_size: int, apploader_size: int, dol_size: int, fst_len: int) -> SystemLayout {
    let dol_offset = align_up(header_size + apploader_size, 8);
    let fst_list_offset = align_up(dol_offset + dol_size, 8);
    SystemLayout {
        dol_offset: dol_offset as u64,
        dol_padding: (dol_offset - (header_size + apploader_size)) as u64,
        fst_list_offset: fst_list_offset as u64,
        fst_list_padding: (fst_list_offset - (dol_offset + dol_size)) as u64,
        fst_len: fst_len as u64,
    }
}

/// What laying out a file system gives for system files of the given
/// sizes and the walk `ev` of its files: sizes that do not fit in 63 bits
/// are refused; the files start right after the file system table.
pub open spec fn serialize_outcome(
    header_size: nat,
    apploader_size: nat,
    dol_size: nat,
    ev: Seq<FsWalkEvent>,
    is_wii: bool,
) -> Result<(SystemLayout, FstBuild), GeckoFSError> {
    let fl = fst_len_spec(ev, ev.len() as int);
    if fl > u64::MAX || header_size + apploader_size + dol_size + fl > 0x7FFF_FFFF_FFFF_FFFF || !walk_files_fit(ev) {
        Err(GeckoFSError::BufferTooLarge)
    } else {
        let l = layout_spec(header_size as int, apploader_size as int, dol_size as int, fl);
        let start = l.fst_list_offset + fl;
        if start > 0x7FFF_FFFF_FFFF_FFFF {
            Err(GeckoFSError::BufferTooLarge)
        } else {
            match fst_walk(ev, ev.len() as int, start as u64, is_wii) {
                Ok(s) => Ok((l, s)),
                Err(e) => Err(e),
            }
        }
    }
}

/// How a file system is written back: the layout of the system files, the
/// walk of its files (events and nodes), and the file system table.
pub struct SerializePlan {
    pub layout: SystemLayout,
    pub events: Vec<FsWalkEvent>,
    pub nodes: Vec<usize>,
    pub image: FstImage,
}

/// Two event lists of one walk have the same table size, fit alike and
/// build the same table.
pub proof fn lemma_events_alike(ev1: Seq<FsWalkEvent>, ev2: Seq<FsWalkEvent>, w: Seq<WalkItem>, start: u64, is_wii: bool)
    requires
        events_of(ev1, w),
        events_of(ev2, w),
    ensures
        fst_len_spec(ev1, ev1.len() as int) == fst_len_spec(ev2, ev2.len() as int),
        walk_files_fit(ev1) == walk_files_fit(ev2),
        fst_walk(ev1, ev1.len() as int, start, is_wii) == fst_walk(ev2, ev2.len() as int, start, is_wii),
{
    lemma_events_alike_upto(ev1, ev2, w, start, is_wii, w.len() as int);
    assert(walk_files_fit(ev1) == walk_files_fit(ev2)) by {
        assert forall|i: int| 0 <= i < ev1.len() implies (match #[trigger] ev1[i] {
            FsWalkEvent::File { len, .. } => len <= 0x7FFF_FFFF_FFFF_FFFF,
            _ => true,
        }) == (match ev2[i] {
            FsWalkEvent::File { len, .. } => len <= 0x7FFF_FFFF_FFFF_FFFF,
            _ => true,
        }) by {
            assert(event_is(ev1[i], w[i]));
            assert(event_is(ev2[i], w[i]));
        }
        if walk_files_fit(ev1) {
            assert forall|i: int| 0 <= i < ev2.len() implies match #[trigger] ev2[i] {
                FsWalkEvent::File { len, .. } => len <= 0x7FFF_FFFF_FFFF_FFFF,
                _ => true,
            } by {
                assert(event_is(ev1[i], w[i]));
                assert(event_is(ev2[i], w[i]));
                let _ = ev1[i];
            }
        }
        if walk_files_fit(ev2) {
            assert forall|i: int| 0 <= i < ev1.len() implies match #[trigger] ev1[i] {
                FsWalkEvent::File { len, .. } => len <= 0x7FFF_FFFF_FFFF_FFFF,
                _ => true,
            } by {
                assert(event_is(ev1[i], w[i]));
                assert(event_is(ev2[i], w[i]));
                let _ = ev2[i];
            }
        }
    }
}

proof fn lemma_events_alike_upto(
    ev1: Seq<FsWalkEvent>,
    ev2: Seq<FsWalkEvent>,
    w: Seq<WalkItem>,
    start: u64,
    is_wii: bool,
    n: int,
)
    requires
        events_of(ev1, w),
        events_of(ev2, w),
        0 <= n <= w.len(),
    ensures
        fst_len_spec(ev1, n) == fst_len_spec(ev2, n),
        fst_walk(ev1, n, start, is_wii) == fst_walk(ev2, n, start, is_wii),
    decreases n,
{
    if n > 0 {
        lemma_events_alike_upto(ev1, ev2, w, start, is_wii, n - 1);
        assert(event_is(ev1[n - 1], w[n - 1]));
        assert(event_is(ev2[n - 1], w[n - 1]));
        match fst_walk(ev1, n - 1, start, is_wii) {
            Ok(s) => {
                assert(fst_step(s, ev1[n - 1], n - 1, is_wii) == fst_step(s, ev2[n - 1], n - 1, is_wii));
            },
            Err(_) => {},
        }
    }
}

impl<R> GeckoFS<R> {
    /// Both trees are well formed and their files read what they should.
    pub open spec fn wf(&self) -> bool {
        &&& tree_wf(self.root@)
        &&& tree_wf(self.sys@)
        &&& self.root.sources_wf()
        &&& self.sys.sources_wf()
    }

    /// The size of the system file named `name`; none when there is no
    /// such file.
    pub open spec fn sys_size(&self, name: Seq<char>) -> Option<nat> {
        match resolve_from(self.sys@, 0, seq![encode_utf8(name)]) {
            Some(n) => if self.sys@[n as int].is_dir {
                None
            } else {
                Some(self.sys.file_len(n as int))
            },
            None => None,
        }
    }

    /// The system tree holds the four system files of the disc header `h`,
    /// in order, each reading its part of the disc.
    pub open spec fn holds_system_files(&self, h: FsHeader) -> bool {
        &&& self.sys@.len() == 5
        &&& forall|k: int|
            0 <= k < 4 ==> {
                &&& #[trigger] child_named(self.sys@, 0, encode_utf8(sys_file_name(k))) == Some((k + 1) as usize)
                &&& self.sys.source(k + 1) matches Some(FileDataSource::Reader { fst: f, .. }) && is_file_node(
                    f,
                    sys_file_name(k),
                    sys_file_offset(h, k),
                    sys_file_size(h, k),
                )
            }
    }

    /// An empty file system: a root named "" and the system directory.
    pub fn new() -> (r: Self)
        ensures
            r.wf(),
            r.root@ == seq![empty_dir(Seq::empty())],
            r.sys@ == seq![empty_dir(sys_dir_name())],
    {
        let root_name: Vec<u8> = Vec::new();
        let sys_name = vstd::slice::slice_to_vec("&&systemdata".as_bytes());
        GeckoFS { root: FsTree::new(root_name), sys: FsTree::new(sys_name) }
    }

    /// The size of the system file `name`.
    fn sys_file_size_of(&self, name: &str) -> (r: Result<u64, GeckoFSError>)
        requires
            self.wf(),
        ensures
            match self.sys_size(name@) {
                Some(n) => n <= usize::MAX && r == Ok::<u64, GeckoFSError>(n as u64),
                None => r matches Err(GeckoFSError::FileNotFount(s)) && s@ == name@,
            },
    {
        let path = vec![vstd::slice::slice_to_vec(name.as_bytes())];
        assert(paths_view(path@) =~= seq![encode_utf8(name@)]);
        match self.sys.get_file(0, path.as_slice()) {
            Ok(n) => match self.sys.file(n) {
                Some(f) => Ok(f.len() as u64),
                None => Err(GeckoFSError::FileNotFount(name.to_owned())),
            },
            Err(_) => Err(GeckoFSError::FileNotFount(name.to_owned())),
        }
    }

    /// Lays the file system out to be written back: the system files'
    /// places from their sizes, the walk of the files under the root, and
    /// the file system table, the files starting right after it (see
    /// `serialize_outcome`). A missing system file is refused, naming it.
    pub fn plan_serialize(&self, is_wii: bool) -> (r: Result<SerializePlan, GeckoFSError>)
        requires
            self.wf(),
            self.sys_size("iso.hdr"@) is Some && self.sys_size("AppLoader.ldr"@) is Some ==> self.sys_size(
                "iso.hdr"@,
            ).unwrap() + self.sys_size("AppLoader.ldr"@).unwrap() >= 1,
        ensures
            match (self.sys_size("iso.hdr"@), self.sys_size("AppLoader.ldr"@), self.sys_size("Start.dol"@)) {
                (Some(hs), Some(ls), Some(ds)) => {
                    let w = self.root.children_walk(0, self.root@[0].children.len() as int);
                    &&& r matches Ok(p) ==> walk_matches(p.events@, p.nodes@, w)
                    &&& forall|ev: Seq<FsWalkEvent>|
                        #[trigger] events_of(ev, w) ==> match serialize_outcome(hs, ls, ds, ev, is_wii) {
                            Ok((l, s)) => r matches Ok(p) && p.layout == l && entries_view(p.image.entries@)
                                == fst_finished(s) && p.image.name_bank@ == s.bank && p.image.files@ == s.files,
                            Err(e) => r == Err::<SerializePlan, GeckoFSError>(e),
                        }
                },
                (None, _, _) => r matches Err(GeckoFSError::FileNotFount(s)) && s@ == "iso.hdr"@,
                (Some(_), None, _) => r matches Err(GeckoFSError::FileNotFount(s)) && s@ == "AppLoader.ldr"@,
                (Some(_), Some(_), None) => r matches Err(GeckoFSError::FileNotFount(s)) && s@ == "Start.dol"@,
            },
    {
        let hs = match self.sys_file_size_of("iso.hdr") {
            Ok(v) => v,
            Err(e) => return Err(e),
        };
        let ls = match self.sys_file_size_of("AppLoader.ldr") {
            Ok(v) => v,
            Err(e) => return Err(e),
        };
        let ds = match self.sys_file_size_of("Start.dol") {
            Ok(v) => v,
            Err(e) => return Err(e),
        };
        let ghost w = self.root.children_walk(0, self.root@[0].children.len() as int);
        let (events, nodes) = self.root.walk(0);
        assert(events_of(events@, w));
        let ghost fl_spec = fst_len_spec(events@, events@.len() as int);
        let fl = match fst_len_checked(events.as_slice()) {
            Some(v) => v,
            None => {
                proof {
                    assert forall|ev: Seq<FsWalkEvent>| #[trigger] events_of(ev, w) implies serialize_outcome(
                        hs as nat,
                        ls as nat,
                        ds as nat,
                        ev,
                        is_wii,
                    ) == Err::<(SystemLayout, FstBuild), GeckoFSError>(GeckoFSError::BufferTooLarge) by {
                        lemma_events_alike(ev, events@, w, 1, is_wii);
                    }
                }
                return Err(GeckoFSError::BufferTooLarge);
            },
        };
        let fits = walk_files_fit_check(events.as_slice());
        let total = match hs.checked_add(ls) {
            Some(a) => match a.checked_add(ds) {
                Some(b) => b.checked_add(fl),
                None => None,
            },
            None => None,
        };
        let total_ok = match total {
            Some(t) => t <= 0x7FFF_FFFF_FFFF_FFFF,
            None => false,
        };
        if !fits || !total_ok {
            proof {
                assert forall|ev: Seq<FsWalkEvent>| #[trigger] events_of(ev, w) implies serialize_outcome(
                    hs as nat,
                    ls as nat,
                    ds as nat,
                    ev,
                    is_wii,
                ) == Err::<(SystemLayout, FstBuild), GeckoFSError>(GeckoFSError::BufferTooLarge) by {
                    lemma_events_alike(ev, events@, w, 1, is_wii);
                }
            }
            return Err(GeckoFSError::BufferTooLarge);
        }
        let layout = system_layout(hs, ls, ds, fl);
        assert(layout == layout_spec(hs as int, ls as int, ds as int, fl as int));
        let start = layout.fst_list_offset + fl;
        if start > 0x7FFF_FFFF_FFFF_FFFF {
            proof {
                assert forall|ev: Seq<FsWalkEvent>| #[trigger] events_of(ev, w) implies serialize_outcome(
                    hs as nat,
                    ls as nat,
                    ds as nat,
                    ev,
                    is_wii,
                ) == Err::<(SystemLayout, FstBuild), GeckoFSError>(GeckoFSError::BufferTooLarge) by {
                    lemma_events_alike(ev, events@, w, 1, is_wii);
                }
            }
            return Err(GeckoFSError::BufferTooLarge);
        }
        let image = match build_fst(events.as_slice(), start, is_wii) {
            Ok(img) => img,
            Err(e) => {
                proof {
                    assert forall|ev: Seq<FsWalkEvent>| #[trigger] events_of(ev, w) implies serialize_outcome(
                        hs as nat,
                        ls as nat,
                        ds as nat,
                        ev,
                        is_wii,
                    ) == Err::<(SystemLayout, FstBuild), GeckoFSError>(e) by {
                        lemma_events_alike(ev, events@, w, start, is_wii);
                    }
                }
                return Err(e);
            },
        };
        let p = SerializePlan { layout, events, nodes, image };
        proof {
            assert forall|ev: Seq<FsWalkEvent>| #[trigger] events_of(ev, w) implies match serialize_outcome(
                hs as nat,
                ls as nat,
                ds as nat,
                ev,
                is_wii,
            ) {
                Ok((l, s)) => p.layout == l && entries_view(p.image.entries@) == fst_finished(s) && p.image.name_bank@
                    == s.bank && p.image.files@ == s.files,
                Err(e) => false,
            } by {
                lemma_events_alike(ev, p.events@, w, start, is_wii);
            }
        }
        Ok(p)
    }

    /// Adds system file `node` under the system directory.
    fn add_system_file(&mut self, node: FstNode, reader: &R) -> (r: usize) where R: Clone
        requires
            tree_wf(old(self).sys@),
            old(self).sys.sources_wf(),
            old(self).sys@.len() < 5,
            node is File,
            !has_child_named(old(self).sys@, 0, match node {
                FstNode::File { relative_file_name, .. } => encode_utf8(relative_file_name@),
                FstNode::Directory { relative_file_name, .. } => encode_utf8(relative_file_name@),
            }),
        ensures
            final(self).root == old(self).root,
            tree_wf(final(self).sys@),
            final(self).sys.sources_wf(),
            r == old(self).sys@.len(),
            final(self).sys@ == with_child(old(self).sys@, 0, match node {
                FstNode::File { relative_file_name, .. } => encode_utf8(relative_file_name@),
                FstNode::Directory { relative_file_name, .. } => encode_utf8(relative_file_name@),
            }, false),
            forall|i: int| 0 <= i < old(self).sys@.len() ==> final(self).sys.source(i) == old(self).sys.source(i),
            final(self).sys.source(r as int) matches Some(FileDataSource::Reader { fst: f, .. }) && f == node,
    {
        let name = match &node {
            FstNode::File { relative_file_name, .. } => vstd::slice::slice_to_vec(relative_file_name.as_str().as_bytes()),
            FstNode::Directory { relative_file_name, .. } => vstd::slice::slice_to_vec(
                relative_file_name.as_str().as_bytes(),
            ),
        };
        let source = FileDataSource::Reader { reader: reader.clone(), fst: node };
        self.sys.add_file(0, name, source)
    }

    /// Builds the file system of a disc from the offsets in its header and
    /// the nodes of its file system table: the system files under the
    /// system directory, and the table's nodes under the root (see
    /// `FsTree::add_fst`). Each file reads the disc through a clone of
    /// `reader`.
    pub fn from_disc(h: &FsHeader, fst: &[FstNode], reader: &R) -> (r: Result<Self, crate::vfs::tree::TreeError>) where
        R: Clone,
        requires
            HEADER_LENGTH <= h.dol_offset <= h.fst_offset,
            fst_dirs_in_range(fst@),
            fst@.len() + 1 < usize::MAX,
        ensures
            match tree_build(seq![empty_dir(Seq::empty())], 0, fst@, fst@.len() as int) {
                Ok(st) => r matches Ok(fs) && fs.wf() && fs.root@ == st.tree && fs.root.holds_fst_files(st.files, fst@)
                    && fs.holds_system_files(*h),
                Err(e) => r == Err::<Self, crate::vfs::tree::TreeError>(e),
            },
    {
        let mut fs = GeckoFS::new();
        let mut files = system_files(h);
        let ghost sf = files@;
        proof {
            reveal_strlit("iso.hdr");
            reveal_strlit("AppLoader.ldr");
            reveal_strlit("Start.dol");
            reveal_strlit("Game.toc");
            assert(vstd::utf8::is_ascii_chars("iso.hdr"@));
            assert(vstd::utf8::is_ascii_chars("AppLoader.ldr"@));
            assert(vstd::utf8::is_ascii_chars("Start.dol"@));
            assert(vstd::utf8::is_ascii_chars("Game.toc"@));
            vstd::utf8::is_ascii_chars_encode_utf8("iso.hdr"@);
            vstd::utf8::is_ascii_chars_encode_utf8("AppLoader.ldr"@);
            vstd::utf8::is_ascii_chars_encode_utf8("Start.dol"@);
            vstd::utf8::is_ascii_chars_encode_utf8("Game.toc"@);
        }
        let ghost n0 = encode_utf8(sys_file_name(0));
        let ghost n1 = encode_utf8(sys_file_name(1));
        let ghost n2 = encode_utf8(sys_file_name(2));
        let ghost n3 = encode_utf8(sys_file_name(3));
        assert(n0.len() == 7 && n1.len() == 13 && n2.len() == 9 && n3.len() == 8);
        let toc = files.pop().unwrap();
        let dol = files.pop().unwrap();
        let ldr = files.pop().unwrap();
        let hdr = files.pop().unwrap();
        assert(hdr == sf[0] && ldr == sf[1] && dol == sf[2] && toc == sf[3]);
        let ghost t0 = fs.sys@;
        fs.add_system_file(hdr, reader);
        let ghost t1 = fs.sys@;
        proof {
            lemma_with_child(t0, 0, n0, false);
            assert(t1[0].children =~= seq![1usize]);
            assert(!has_child_named(t1, 0, n1)) by {
                if has_child_named(t1, 0, n1) {
                    let k = choose|k: int| 0 <= k < t1[0].children.len() && #[trigger] t1[t1[0].children[k] as int].name == n1;
                    assert(t1[1].name == n0);
                }
            }
        }
        fs.add_system_file(ldr, reader);
        let ghost t2 = fs.sys@;
        proof {
            lemma_with_child(t1, 0, n1, false);
            assert(t2[0].children =~= seq![1usize, 2usize]);
            assert(!has_child_named(t2, 0, n2)) by {
                if has_child_named(t2, 0, n2) {
                    let k = choose|k: int| 0 <= k < t2[0].children.len() && #[trigger] t2[t2[0].children[k] as int].name == n2;
                    assert(t2[1].name == n0 && t2[2].name == n1);
                }
            }
        }
        fs.add_system_file(dol, reader);
        let ghost t3 = fs.sys@;
        proof {
            lemma_with_child(t2, 0, n2, false);
            assert(t3[0].children =~= seq![1usize, 2usize, 3usize]);
            assert(!has_child_named(t3, 0, n3)) by {
                if has_child_named(t3, 0, n3) {
                    let k = choose|k: int| 0 <= k < t3[0].children.len() && #[trigger] t3[t3[0].children[k] as int].name == n3;
                    assert(t3[1].name == n0 && t3[2].name == n1 && t3[3].name == n2);
                }
            }
        }
        fs.add_system_file(toc, reader);
        proof {
            let t4 = fs.sys@;
            lemma_with_child(t3, 0, n3, false);
            assert(has_child_named(t1, 0, n0)) by {
                assert(t1[t1[0].children[0] as int].name == n0);
            }
            assert(has_child_named(t2, 0, n1)) by {
                assert(t2[t2[0].children[1] as int].name == n1);
            }
            assert(has_child_named(t3, 0, n2)) by {
                assert(t3[t3[0].children[2] as int].name == n2);
            }
            assert(child_named(t4, 0, n0) == Some(1usize));
            assert(child_named(t4, 0, n1) == Some(2usize));
            assert(child_named(t4, 0, n2) == Some(3usize));
            assert(child_named(t4, 0, n3) == Some(4usize));
            assert forall|k: int| 0 <= k < 4 implies {
                &&& #[trigger] child_named(fs.sys@, 0, encode_utf8(sys_file_name(k))) == Some((k + 1) as usize)
                &&& fs.sys.source(k + 1) matches Some(FileDataSource::Reader { fst: f, .. }) && is_file_node(
                    f,
                    sys_file_name(k),
                    sys_file_offset(*h, k),
                    sys_file_size(*h, k),
                )
            } by {
                if k == 0 {
                } else if k == 1 {
                } else if k == 2 {
                } else {
                }
            }
        }
        match fs.root.add_fst(0, fst, reader) {
            Ok(()) => Ok(fs),
            Err(e) => Err(e),
        }
    }
}

} // verus!
