use geckolib::iso::read::SeekPos;
use geckolib::iso::{FstEntry, FstError, FstNode};
use geckolib::vfs::file::{file_read_step, file_seek, read_from_memory, FileDataSource, FileReadAction, FileState};
use geckolib::vfs::{
    build_fst, end_padding, fst_len, fst_parents, parse_fst, patch_system_header, read_fs_header, system_files,
    system_layout, FsFileError, FsWalkEvent, GeckoFSError,
};

fn file(name: &str, len: u64) -> FsWalkEvent {
    FsWalkEvent::File { name: name.as_bytes().to_vec(), len }
}

fn dir(name: &str) -> FsWalkEvent {
    FsWalkEvent::DirStart { name: name.as_bytes().to_vec() }
}

/// root/{a.bin (5 bytes), sub/{b.bin (40 bytes)}, c.bin (0 bytes)}
fn sample_walk() -> Vec<FsWalkEvent> {
    vec![file("a.bin", 5), dir("sub"), file("b.bin", 40), FsWalkEvent::DirEnd, file("c.bin", 0)]
}

fn fst_bytes(entries: &[FstEntry], bank: &[u8]) -> Vec<u8> {
    let mut out = Vec::new();
    for e in entries {
        out.extend_from_slice(&e.pack());
    }
    out.extend_from_slice(bank);
    out
}

#[test]
fn table_size_counts_entries_and_names() {
    let walk = sample_walk();
    // five entries of 12 bytes (root included), names with their NUL bytes
    assert_eq!(fst_len(&walk), 12 * 5 + 6 + 4 + 6 + 6);
    assert_eq!(fst_len(&[]), 12);
}

#[test]
fn fst_is_built_in_walk_order() {
    let walk = sample_walk();
    let img = build_fst(&walk, 0x1001, false).unwrap();
    assert_eq!(img.entries.len(), 5);
    assert_eq!(img.name_bank, b"a.bin\0sub\0b.bin\0c.bin\0".to_vec());
    // root: directory, next index = number of entries
    assert_eq!(img.entries[0].pack(), vec![1, 0, 0, 0, 0, 0, 0, 0, 0, 0, 0, 5]);
    // a.bin at 0x1001 rounded up to 32 bytes
    assert_eq!(img.entries[1].pack(), vec![0, 0, 0, 0, 0, 0, 0x10, 0x20, 0, 0, 0, 5]);
    // sub: name at 6, parent 0, next index 4
    assert_eq!(img.entries[2].pack(), vec![1, 0, 0, 6, 0, 0, 0, 0, 0, 0, 0, 4]);
    // b.bin: after a.bin, rounded up to 32 bytes
    assert_eq!(img.entries[3].pack(), vec![0, 0, 0, 10, 0, 0, 0x10, 0x40, 0, 0, 0, 40]);
    assert_eq!(img.entries[4].pack(), vec![0, 0, 0, 16, 0, 0, 0x10, 0x80, 0, 0, 0, 0]);
    assert_eq!(img.files, vec![(0, 0x1020), (2, 0x1040), (4, 0x1080)]);
}

#[test]
fn wii_tables_store_offsets_divided_by_four() {
    let img = build_fst(&[file("x", 1)], 0x40, true).unwrap();
    assert_eq!(img.entries[1].pack(), vec![0, 0, 0, 0, 0, 0, 0, 0x10, 0, 0, 0, 1]);
    assert_eq!(img.files, vec![(0, 0x40)]);
}

#[test]
fn unbalanced_walks_are_refused() {
    let walk = vec![FsWalkEvent::DirEnd, dir("x")];
    assert!(matches!(build_fst(&walk, 1, false), Err(GeckoFSError::DirStackUnderflow)));
    let walk = vec![FsWalkEvent::DirEnd, FsWalkEvent::DirEnd];
    assert!(matches!(build_fst(&walk, 1, false), Err(GeckoFSError::DirStackUnderflow)));
}

#[test]
fn files_past_the_addressable_range_are_refused() {
    let walk = vec![file("big", 0x4_0000_0000), file("next", 1)];
    assert!(matches!(
        build_fst(&walk, 1, true),
        Err(GeckoFSError::FstEntryError(FstError::OffsetTooLarge { offset: 0x4_0000_0020 }))
    ));
}

#[test]
fn built_table_parses_back() {
    let walk = sample_walk();
    let img = build_fst(&walk, 0x2000, false).unwrap();
    let bytes = fst_bytes(&img.entries, &img.name_bank);
    assert_eq!(bytes.len() as u64, fst_len(&walk));
    let nodes = parse_fst(&bytes, false).unwrap();
    assert_eq!(nodes.len(), 5);
    assert!(nodes[0].is_directory());
    // the root's name offset is 0, the start of the string table
    assert_eq!(nodes[0].get_relative_file_name(), "a.bin");
    assert_eq!(nodes[1].get_relative_file_name(), "a.bin");
    assert_eq!(nodes[1].get_file_offset(), Some(0x2000));
    assert_eq!(nodes[1].get_file_size(), Some(5));
    assert_eq!(nodes[2].get_relative_file_name(), "sub");
    assert_eq!(nodes[2].get_next_dir_index(), Some(4));
    assert_eq!(nodes[3].get_relative_file_name(), "b.bin");
    assert_eq!(nodes[4].get_relative_file_name(), "c.bin");
    assert_eq!(fst_parents(&nodes), vec![0, 0, 0, 2, 0]);
}

#[test]
fn wii_offsets_are_multiplied_back() {
    let img = build_fst(&[file("x", 1)], 0x80, true).unwrap();
    let nodes = parse_fst(&fst_bytes(&img.entries, &img.name_bank), true).unwrap();
    assert_eq!(nodes[1].get_file_offset(), Some(0x80));
}

#[test]
fn bad_names_are_refused() {
    let img = build_fst(&[file("x", 1)], 0x80, false).unwrap();
    let mut bytes = fst_bytes(&img.entries, &img.name_bank);
    let at = bytes.len() - 2;
    bytes[at] = 0xFF;
    assert!(matches!(parse_fst(&bytes, false), Err(FstError::InvalidFileName)));
}

fn node_dir(next: usize) -> FstNode {
    FstNode::Directory { relative_file_name: String::new(), parent_dir: 0, next_dir_index: next }
}

fn node_file() -> FstNode {
    FstNode::File { relative_file_name: String::new(), file_offset: 0, file_size: 0 }
}

#[test]
fn parents_follow_directory_ranges() {
    // root, d1 (to 5), f, d2 (to 5), f, f
    let nodes = vec![node_dir(6), node_dir(5), node_file(), node_dir(5), node_file(), node_file()];
    assert_eq!(fst_parents(&nodes), vec![0, 0, 1, 1, 3, 0]);
    // an empty directory holds nothing
    let nodes = vec![node_dir(3), node_dir(2), node_file()];
    assert_eq!(fst_parents(&nodes), vec![0, 0, 0]);
    assert!(fst_parents(&[]).is_empty());
}

#[test]
fn header_fields_and_system_files() {
    let mut hdr = vec![0u8; 0x440];
    hdr[0x420..0x424].copy_from_slice(&0x2_4000u32.to_be_bytes());
    hdr[0x424..0x428].copy_from_slice(&0x4_0000u32.to_be_bytes());
    hdr[0x428..0x42C].copy_from_slice(&0x100u32.to_be_bytes());
    let gc = read_fs_header(&hdr, false);
    assert_eq!((gc.dol_offset, gc.fst_offset, gc.fst_size), (0x2_4000, 0x4_0000, 0x100));
    let wii = read_fs_header(&hdr, true);
    assert_eq!((wii.dol_offset, wii.fst_offset, wii.fst_size), (0x9_0000, 0x10_0000, 0x400));
    let sys = system_files(&gc);
    let names: Vec<&str> = sys.iter().map(|n| n.get_relative_file_name()).collect();
    assert_eq!(names, vec!["iso.hdr", "AppLoader.ldr", "Start.dol", "Game.toc"]);
    assert_eq!(sys[0].get_file_size(), Some(0x2440));
    assert_eq!(sys[1].get_file_offset(), Some(0x2440));
    assert_eq!(sys[1].get_file_size(), Some(0x2_4000 - 0x2440));
    assert_eq!(sys[2].get_file_offset(), Some(0x2_4000));
    assert_eq!(sys[2].get_file_size(), Some(0x1_C000));
    assert_eq!(sys[3].get_file_offset(), Some(0x4_0000));
    assert_eq!(sys[3].get_file_size(), Some(0x100));
}

#[test]
fn system_layout_rounds_up_to_256_bytes() {
    let l = system_layout(0x2440, 0x1_0001, 0x100, 0x50);
    assert_eq!(l.dol_offset, 0x1_2500);
    assert_eq!(l.dol_padding, 0x1_2500 - 0x1_2441);
    assert_eq!(l.fst_list_offset, 0x1_2600);
    assert_eq!(l.fst_list_padding, 0);
    let hdr: Vec<u8> = (0..0x440u32).map(|i| i as u8).collect();
    let patched = patch_system_header(&hdr, &l, true);
    assert_eq!(patched.len(), hdr.len());
    assert_eq!(&patched[..0x420], &hdr[..0x420]);
    assert_eq!(&patched[0x420..0x430], &[0, 0, 0x49, 0x40, 0, 0, 0x49, 0x80, 0, 0, 0, 0x50, 0, 0, 0, 0x50]);
    assert_eq!(&patched[0x430..], &hdr[0x430..]);
}

#[test]
fn disc_end_is_padded() {
    assert_eq!(end_padding(0x100), 0x100);
    assert_eq!(end_padding(0x101), 0xFF);
    assert_eq!(end_padding(0x1F0), 0x110);
    assert_eq!(end_padding(0x1E0), 0x20);
}

#[test]
fn error_messages() {
    assert_eq!(FsFileError::StatusLockError.message(), "Failed to lock the file status");
    assert_eq!(FsFileError::DataLockError.message(), "Failed to lock the file data");
}

#[test]
fn file_seeks_stay_inside_the_file() {
    assert_eq!(file_seek(3, SeekPos::Start(10), 10), Some(10));
    assert_eq!(file_seek(3, SeekPos::Start(11), 10), None);
    assert_eq!(file_seek(3, SeekPos::End(-4), 10), Some(6));
    assert_eq!(file_seek(3, SeekPos::End(1), 10), None);
    assert_eq!(file_seek(3, SeekPos::End(-11), 10), None);
    assert_eq!(file_seek(3, SeekPos::Current(7), 10), Some(10));
    assert_eq!(file_seek(3, SeekPos::Current(-4), 10), None);
    assert_eq!(file_seek(3, SeekPos::Current(8), 10), None);
}

#[test]
fn memory_file_reads_what_is_left() {
    let data = [1u8, 2, 3, 4, 5];
    let mut buf = [9u8; 4];
    assert_eq!(read_from_memory(&data, 3, &mut buf), Some(2));
    assert_eq!(buf, [4, 5, 9, 9]);
    let mut buf = [9u8; 2];
    assert_eq!(read_from_memory(&data, 0, &mut buf), Some(2));
    assert_eq!(buf, [1, 2]);
    assert_eq!(read_from_memory(&data, 5, &mut buf), Some(0));
    assert_eq!(read_from_memory(&data, 6, &mut buf), None);
}

#[test]
fn disc_file_read_seeks_then_reads() {
    assert_eq!(file_read_step(FileState::Init, 0x100, 50, 10, 64), (FileState::Seeking, FileReadAction::Wake));
    assert_eq!(
        file_read_step(FileState::Seeking, 0x100, 50, 10, 64),
        (FileState::Reading, FileReadAction::SeekDisc(0x10A))
    );
    assert_eq!(
        file_read_step(FileState::Reading, 0x100, 50, 10, 64),
        (FileState::Seeking, FileReadAction::ReadDisc(40))
    );
    assert_eq!(
        file_read_step(FileState::Reading, 0x100, 50, 10, 8),
        (FileState::Seeking, FileReadAction::ReadDisc(8))
    );
}

#[test]
fn data_sources_name_and_size() {
    let b: FileDataSource<()> = FileDataSource::Box { data: vec![1, 2, 3], name: "x.bin".to_string() };
    assert_eq!(b.name(), "x.bin");
    assert_eq!(b.len(), 3);
    assert!(!b.is_empty());
    let r: FileDataSource<()> = FileDataSource::Reader {
        reader: (),
        fst: FstNode::File { relative_file_name: "y.dat".to_string(), file_offset: 0x40, file_size: 0 },
    };
    assert_eq!(r.name(), "y.dat");
    assert!(r.is_empty());
}
