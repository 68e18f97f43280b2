use geckolib::iso::{FstNode, FstNodeType};
use geckolib::vfs::file::FileDataSource;
use geckolib::vfs::tree::{FsTree, TreeError};
use geckolib::vfs::gecko_fs::GeckoFS;
use geckolib::vfs::{build_fst, fst_len, FsHeader, FsWalkEvent, GeckoFSError};

fn p(parts: &[&str]) -> Vec<Vec<u8>> {
    parts.iter().map(|s| s.as_bytes().to_vec()).collect()
}

fn mem(name: &str, data: &[u8]) -> FileDataSource<()> {
    FileDataSource::Box { data: data.to_vec(), name: name.to_string() }
}

#[test]
fn mkdirs_makes_each_missing_directory_once() {
    let mut t: FsTree<()> = FsTree::new(Vec::new());
    let a = t.mkdirs(0, &p(&["a", "b", "c"])).unwrap();
    assert_eq!(t.len(), 4);
    assert_eq!(t.get_dir(0, &p(&["a", "b", "c"])), Ok(a));
    assert_eq!(t.mkdirs(0, &p(&["a", "b", "c"])), Ok(a));
    assert_eq!(t.len(), 4);
    let d = t.mkdirs(0, &p(&["a", "d"])).unwrap();
    assert_eq!(t.len(), 5);
    assert_eq!(t.resolve(0, &p(&["a", "d"])), Some(d));
    assert_eq!(t.resolve(0, &p(&[])), Some(0));
}

#[test]
fn files_are_found_by_path_and_never_replaced() {
    let mut t: FsTree<()> = FsTree::new(Vec::new());
    let dir = t.mkdir(0, b"files".to_vec());
    assert_eq!(t.mkdir(0, b"files".to_vec()), dir);
    let f = t.add_file(dir, b"x.bin".to_vec(), mem("x.bin", &[1, 2, 3]));
    let again = t.add_file(dir, b"x.bin".to_vec(), mem("x.bin", &[9]));
    assert_eq!(again, f);
    match t.file(f) {
        Some(FileDataSource::Box { data, .. }) => assert_eq!(data, &vec![1, 2, 3]),
        _ => panic!("not a file held in memory"),
    }
    assert_eq!(t.get_file(0, &p(&["files", "x.bin"])), Ok(f));
    assert_eq!(t.get_file(0, &p(&["files"])), Err(TreeError::NotAFile));
    assert_eq!(t.get_dir(0, &p(&["files", "x.bin"])), Err(TreeError::NotADirectory));
    assert_eq!(t.get_file(0, &p(&["files", "y.bin"])), Err(TreeError::NotFound));
    assert_eq!(t.resolve(0, &p(&["files", "x.bin", "z"])), None);
    assert_eq!(t.mkdirs(0, &p(&["files", "x.bin", "z"])), Err(TreeError::NotADirectory));
    assert_eq!(t.len(), 3);
}

#[test]
fn walk_lists_children_in_order_depth_first() {
    let mut t: FsTree<()> = FsTree::new(Vec::new());
    let a = t.mkdir(0, b"a".to_vec());
    t.add_file(a, b"one".to_vec(), mem("one", &[0; 5]));
    t.add_file(0, b"two".to_vec(), FileDataSource::Reader {
        reader: (),
        fst: FstNode::File { relative_file_name: "two".to_string(), file_offset: 0x100, file_size: 7 },
    });
    let (events, nodes) = t.walk(0);
    assert_eq!(events.len(), 4);
    assert!(matches!(&events[0], FsWalkEvent::DirStart { name } if name == b"a"));
    assert!(matches!(&events[1], FsWalkEvent::File { name, len: 5 } if name == b"one"));
    assert!(matches!(&events[2], FsWalkEvent::DirEnd));
    assert!(matches!(&events[3], FsWalkEvent::File { name, len: 7 } if name == b"two"));
    assert_eq!(nodes, vec![a, 2, a, 3]);
    assert_eq!(fst_len(&events), 12 + 14 + 16 + 16);
}

fn dir(name: &str, parent: u64, next: usize) -> FstNode {
    FstNode::Directory { relative_file_name: name.to_string(), parent_dir: parent, next_dir_index: next }
}

fn file(name: &str, offset: u64, size: usize) -> FstNode {
    FstNode::File { relative_file_name: name.to_string(), file_offset: offset, file_size: size }
}

fn sample_fst() -> Vec<FstNode> {
    vec![
        dir("", 0, 6),
        dir("a", 0, 4),
        file("x", 0x1000, 3),
        file("y", 0x2000, 4),
        file("z", 0x3000, 5),
        file("w", 0x4000, 6),
    ]
}

#[test]
fn table_nodes_nest_as_the_table_says() {
    let mut t: FsTree<u8> = FsTree::new(Vec::new());
    assert_eq!(t.add_fst(0, &sample_fst(), &7u8), Ok(()));
    assert_eq!(t.len(), 6);
    let x = t.get_file(0, &p(&["a", "x"])).unwrap();
    let y = t.get_file(0, &p(&["a", "y"])).unwrap();
    let z = t.get_file(0, &p(&["z"])).unwrap();
    let w = t.get_file(0, &p(&["w"])).unwrap();
    match t.file(y) {
        Some(FileDataSource::Reader { reader: 7, fst: FstNode::File { file_offset: 0x2000, file_size: 4, .. } }) => {},
        _ => panic!("y does not read its table entry"),
    }
    assert_eq!(t.iter_recurse(0), vec![x, y, z, w]);
    assert_eq!(t.iter_recurse(t.get_dir(0, &p(&["a"])).unwrap()), vec![x, y]);
}

#[test]
fn a_table_name_taken_by_the_other_kind_is_refused() {
    let mut t: FsTree<u8> = FsTree::new(Vec::new());
    let clash = vec![dir("", 0, 3), file("a", 0x10, 1), dir("a", 0, 3)];
    assert_eq!(t.add_fst(0, &clash, &0u8), Err(TreeError::NotADirectory));
    let mut t: FsTree<u8> = FsTree::new(Vec::new());
    let clash = vec![dir("", 0, 3), dir("a", 0, 2), file("a", 0x10, 1)];
    assert_eq!(t.add_fst(0, &clash, &0u8), Err(TreeError::NotAFile));
}

#[test]
fn walking_a_table_tree_rebuilds_its_shape() {
    let mut t: FsTree<u8> = FsTree::new(Vec::new());
    t.add_fst(0, &sample_fst(), &0u8).unwrap();
    let (events, _) = t.walk(0);
    let image = build_fst(&events, 0x10_0000, false).unwrap();
    assert_eq!(image.entries.len(), 6);
    assert_eq!(image.entries[0].get_file_size_next_dir_index(), 6);
    assert_eq!(image.entries[1].get_node_type(), FstNodeType::Directory);
    assert_eq!(image.entries[1].get_file_size_next_dir_index(), 4);
    assert_eq!(image.entries[3].get_node_type(), FstNodeType::File);
    assert_eq!(image.entries[3].get_file_size_next_dir_index(), 4);
    assert_eq!(image.entries[5].get_file_size_next_dir_index(), 6);
    assert_eq!(&image.name_bank[..], b"a\0x\0y\0z\0w\0");
}

#[test]
fn disc_file_system_lays_out_its_files_after_the_table() {
    let h = FsHeader { dol_offset: 0x2600, fst_offset: 0x3000, fst_size: 0x40 };
    let fs: GeckoFS<u8> = GeckoFS::from_disc(&h, &sample_fst(), &1u8).unwrap();
    assert_eq!(fs.sys.len(), 5);
    let dol = fs.sys.get_file(0, &p(&["Start.dol"])).unwrap();
    match fs.sys.file(dol) {
        Some(FileDataSource::Reader { fst: FstNode::File { file_offset: 0x2600, file_size: 0xA00, .. }, .. }) => {},
        _ => panic!("Start.dol does not read the executable"),
    }
    let x = fs.root.get_file(0, &p(&["a", "x"])).unwrap();
    let plan = fs.plan_serialize(false).unwrap();
    assert_eq!(plan.layout.dol_offset, 0x2600);
    assert_eq!(plan.layout.fst_list_offset, 0x3000);
    assert_eq!(plan.layout.fst_len, 12 + 5 * 14);
    assert_eq!(plan.image.files[0], (1, 0x3060));
    assert_eq!(plan.image.files[1], (2, 0x3080));
    assert_eq!(plan.nodes[1], x);
    let empty: GeckoFS<u8> = GeckoFS::new();
    assert!(matches!(empty.plan_serialize(false), Err(GeckoFSError::FileNotFount(n)) if n == "iso.hdr"));
}

#[test]
fn put_file_replaces_data_or_adds_the_file() {
    let mut t: FsTree<u8> = FsTree::new(Vec::new());
    t.add_fst(0, &sample_fst(), &0u8).unwrap();
    let x = t.get_file(0, &p(&["a", "x"])).unwrap();
    assert_eq!(t.put_file(0, &p(&["a"]), "x".to_string(), vec![4, 5]), Ok(x));
    match t.file(x) {
        Some(FileDataSource::Box { data, name }) => {
            assert_eq!(data, &vec![4, 5]);
            assert_eq!(name, "x");
        },
        _ => panic!("x does not hold its new data"),
    }
    let n = t.put_file(0, &p(&["new", "dir"]), "f.bin".to_string(), vec![1]).unwrap();
    assert_eq!(t.get_file(0, &p(&["new", "dir", "f.bin"])), Ok(n));
    assert_eq!(t.put_file(0, &p(&["z", "q"]), "f".to_string(), vec![]), Err(TreeError::NotADirectory));
}

#[test]
fn set_data_keeps_the_name_of_the_source() {
    let mut t: FsTree<u8> = FsTree::new(Vec::new());
    t.add_fst(0, &sample_fst(), &0u8).unwrap();
    let w = t.get_file(0, &p(&["w"])).unwrap();
    t.set_data(w, vec![7; 3]);
    match t.file(w) {
        Some(f) => {
            assert_eq!(f.name(), "w");
            assert_eq!(f.len(), 3);
        },
        None => panic!("w is a file"),
    }
}

#[test]
fn node_paths_join_names_from_the_root() {
    let mut t: FsTree<u8> = FsTree::new(Vec::new());
    t.add_fst(0, &sample_fst(), &0u8).unwrap();
    let x = t.get_file(0, &p(&["a", "x"])).unwrap();
    let z = t.get_file(0, &p(&["z"])).unwrap();
    assert_eq!(t.node_path(x), b"a/x".to_vec());
    assert_eq!(t.node_path(z), b"z".to_vec());
    assert_eq!(t.node_path(0), Vec::<u8>::new());
    assert_eq!(t.parent(x), t.get_dir(0, &p(&["a"])).unwrap());
}
