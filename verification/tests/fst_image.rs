use geckolib::iso::FstNode;
use geckolib::vfs::fst_image::fst_image_to_bytes;
use geckolib::vfs::{build_fst, fst_readable_check, parse_fst, FsWalkEvent};

fn file(name: &str, len: u64) -> FsWalkEvent {
    FsWalkEvent::File { name: name.as_bytes().to_vec(), len }
}

fn dir(name: &str) -> FsWalkEvent {
    FsWalkEvent::DirStart { name: name.as_bytes().to_vec() }
}

fn file_of(node: &FstNode) -> (String, u64, usize) {
    match node {
        FstNode::File { relative_file_name, file_offset, file_size } => {
            (relative_file_name.clone(), *file_offset, *file_size)
        },
        _ => panic!("not a file"),
    }
}

#[test]
fn a_built_table_reads_back_as_its_walk() {
    for is_wii in [false, true] {
        let walk = vec![file("a.bin", 5), dir("sub"), file("b.bin", 40), FsWalkEvent::DirEnd, file("c.bin", 0)];
        let img = build_fst(&walk, 0x1001, is_wii).unwrap();
        let bytes = fst_image_to_bytes(&img);
        assert_eq!(bytes.len(), 12 * 5 + img.name_bank.len());
        assert!(fst_readable_check(&bytes));
        let nodes = parse_fst(&bytes, is_wii).unwrap();
        assert_eq!(nodes.len(), 5);
        assert_eq!(file_of(&nodes[1]), ("a.bin".to_string(), 0x1020, 5));
        match &nodes[2] {
            FstNode::Directory { relative_file_name, next_dir_index, parent_dir } => {
                assert_eq!(relative_file_name, "sub");
                assert_eq!(*next_dir_index, 4);
                assert_eq!(*parent_dir, 0);
            },
            _ => panic!("sub is not a directory"),
        }
        assert_eq!(file_of(&nodes[3]), ("b.bin".to_string(), 0x1040, 40));
        assert_eq!(file_of(&nodes[4]), ("c.bin".to_string(), 0x1080, 0));
    }
}
