use geckolib::iso::{FstEntry, FstError, FstNode, FstNodeType};

#[test]
fn node_type_tags() {
    assert_eq!(FstNodeType::try_from_u8(0), Ok(FstNodeType::File));
    assert_eq!(FstNodeType::try_from_u8(1), Ok(FstNodeType::Directory));
    assert_eq!(FstNodeType::try_from_u8(2), Err(FstError::InvalidNodeType { value: 2 }));
    assert_eq!(FstNodeType::Directory.tag(), 1);
    assert_eq!(FstNodeType::default(), FstNodeType::File);
}

#[test]
fn entry_is_read_from_twelve_bytes() {
    let bytes = [1, 0, 0, 0x10, 0, 0, 0, 2, 0, 0, 0, 9, 0xFF];
    let e = FstEntry::try_from_bytes(&bytes).unwrap();
    assert_eq!(e.get_node_type(), FstNodeType::Directory);
    assert_eq!(e.get_file_name_offset(), 0x10);
    assert_eq!(e.get_file_offset(false), 2);
    assert_eq!(e.get_file_offset(true), 8);
    assert_eq!(e.get_file_size_next_dir_index(), 9);
    assert_eq!(e.pack(), bytes[..12].to_vec());
}

#[test]
fn bad_entries_are_refused() {
    assert_eq!(FstEntry::try_from_bytes(&[0u8; 11]), Err(FstError::InvalidLength { length: 11 }));
    let bytes = [3, 0, 0, 0, 0, 0, 0, 0, 0, 0, 0, 0];
    assert_eq!(FstEntry::try_from_bytes(&bytes), Err(FstError::InvalidNodeType { value: 3 }));
}

#[test]
fn new_file_stores_wii_offsets_divided_by_four() {
    let e = FstEntry::new_file(0x123456, 0x1_0000_0000, 77, true).unwrap();
    assert_eq!(e.pack(), vec![0, 0x12, 0x34, 0x56, 0x40, 0, 0, 0, 0, 0, 0, 77]);
    assert_eq!(e.get_file_offset(true), 0x1_0000_0000);
    let gc = FstEntry::new_file(5, 0x8000, 3, false).unwrap();
    assert_eq!(gc.get_file_offset(false), 0x8000);
    assert_eq!(gc.get_node_type(), FstNodeType::File);
}

#[test]
fn new_directory_sets_the_directory_tag() {
    let e = FstEntry::new_directory(0x01FF_FFFF, 0, 12, false).unwrap();
    // the name offset keeps its low 24 bits only
    assert_eq!(e.get_file_name_offset(), 0xFF_FFFF);
    assert_eq!(e.get_node_type(), FstNodeType::Directory);
    assert_eq!(e.get_file_size_next_dir_index(), 12);
}

#[test]
fn too_large_offsets_are_refused() {
    assert_eq!(
        FstEntry::new_file(0, 0x4_0000_0000, 0, true),
        Err(FstError::OffsetTooLarge { offset: 0x4_0000_0000 })
    );
    let mut e = FstEntry::new_file(0, 4, 0, true).unwrap();
    let before = e.clone();
    assert_eq!(e.set_file_offset_parent_dir(0x3_FFFF_FFFD, true), Err(FstError::OffsetTooLarge { offset: 0x3_FFFF_FFFD }));
    assert_eq!(e, before);
    assert_eq!(e.set_file_offset_parent_dir(0x3_FFFF_FFFC, true), Ok(()));
    assert_eq!(e.get_file_offset(true), 0x3_FFFF_FFFC);
    // GameCube offsets past 32 bits are cut to their low word
    assert_eq!(e.set_file_offset_parent_dir(0x1_0000_0010, false), Ok(()));
    assert_eq!(e.get_file_offset(false), 0x10);
}

#[test]
fn setters_touch_only_their_field() {
    let mut e = FstEntry::new_file(7, 8, 9, false).unwrap();
    e.set_node_type(FstNodeType::Directory);
    assert_eq!(e.get_file_name_offset(), 7);
    e.set_file_name_offset(0x0A00_0042);
    assert_eq!(e.get_node_type(), FstNodeType::Directory);
    assert_eq!(e.get_file_name_offset(), 0x42);
    e.set_file_size_next_dir_index(100);
    assert_eq!(e.pack(), vec![1, 0, 0, 0x42, 0, 0, 0, 8, 0, 0, 0, 100]);
}

#[test]
fn nodes_take_their_names_from_the_table() {
    let table = b"\0opening.bnm\0sys\0";
    let f = FstEntry::new_file(1, 0x2440, 0x100, false).unwrap();
    let node = FstNode::from_fstnode(&f, table).unwrap();
    assert!(node.is_file());
    assert!(!node.is_directory());
    assert_eq!(node.get_relative_file_name(), "opening.bnm");
    assert_eq!(node.get_file_offset(), Some(0x2440));
    assert_eq!(node.get_file_size(), Some(0x100));
    assert_eq!(node.get_parent_dir(), None);

    let d = FstEntry::new_directory(13, 0, 5, false).unwrap();
    let mut dir = FstNode::from_fstnode(&d, table).unwrap();
    assert!(dir.is_directory());
    assert_eq!(dir.get_relative_file_name(), "sys");
    assert_eq!(dir.get_next_dir_index(), Some(5));
    assert_eq!(dir.get_parent_dir(), Some(0));
    assert_eq!(dir.get_file_offset(), None);
    *dir.get_next_dir_index_mut().unwrap() = 6;
    dir.get_relative_file_name_mut().push_str("tem");
    assert_eq!(dir.get_next_dir_index(), Some(6));
    assert_eq!(dir.get_relative_file_name(), "system");
}

#[test]
fn names_that_are_not_utf8_are_refused() {
    let table = [0xFFu8, 0xFE, 0];
    let f = FstEntry::new_file(0, 0, 0, false).unwrap();
    assert!(matches!(FstNode::from_fstnode(&f, &table), Err(FstError::InvalidFileName)));
}

#[test]
fn default_node_is_an_empty_file() {
    let n = FstNode::default();
    assert!(n.is_file());
    assert_eq!(n.get_relative_file_name(), "");
    assert_eq!(n.get_file_offset(), Some(0));
}
