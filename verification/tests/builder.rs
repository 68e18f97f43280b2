use geckolib::dol::{DolError, DolFile, Instruction, Section};
use geckolib::iso::builder::{apply_file_map, patch_main_dol};
use geckolib::vfs::file::FileDataSource;
use geckolib::vfs::gecko_fs::GeckoFS;
use geckolib::vfs::tree::TreeError;

fn p(parts: &[&str]) -> Vec<Vec<u8>> {
    parts.iter().map(|s| s.as_bytes().to_vec()).collect()
}

fn data_at(fs: &GeckoFS<()>, path: &[&str]) -> Vec<u8> {
    let n = fs.root.get_file(0, &p(path)).unwrap();
    match fs.root.file(n) {
        Some(FileDataSource::Box { data, .. }) => data.clone(),
        _ => panic!("the file is not held in memory"),
    }
}

fn sample_dol() -> DolFile {
    DolFile {
        text_sections: vec![Section { address: 0x8000_3100, data: vec![0; 8] }],
        data_sections: vec![Section { address: 0x8010_0000, data: vec![0xAB; 4] }],
        bss_address: 0x8020_0000,
        bss_size: 0x40,
        entry_point: 0x8000_3100,
    }
}

fn fs_with_dol(dol: &[u8]) -> GeckoFS<()> {
    let mut fs: GeckoFS<()> = GeckoFS::new();
    fs.sys.add_file(0, b"Start.dol".to_vec(), FileDataSource::Box { data: dol.to_vec(), name: "Start.dol".to_string() });
    fs
}

#[test]
fn file_map_puts_each_file_and_the_last_entry_wins() {
    let mut fs: GeckoFS<()> = GeckoFS::new();
    let map = vec![
        (p(&["files", "a"]), "x.bin".to_string(), vec![1, 2]),
        (p(&[]), "top".to_string(), vec![3]),
        (p(&["files", "a"]), "x.bin".to_string(), vec![9]),
    ];
    assert_eq!(apply_file_map(&mut fs, &map), Ok(()));
    assert_eq!(data_at(&fs, &["files", "a", "x.bin"]), vec![9]);
    assert_eq!(data_at(&fs, &["top"]), vec![3]);
    assert_eq!(fs.root.len(), 5);
    assert_eq!(fs.sys.len(), 1);
}

#[test]
fn file_map_refuses_a_path_through_a_file_or_onto_a_directory() {
    let mut fs: GeckoFS<()> = GeckoFS::new();
    let through = vec![(p(&[]), "f".to_string(), vec![1]), (p(&["f"]), "g".to_string(), vec![2])];
    assert_eq!(apply_file_map(&mut fs, &through), Err(TreeError::NotADirectory));
    assert_eq!(data_at(&fs, &["f"]), vec![1]);
    let onto = vec![(p(&["d"]), "e".to_string(), vec![1]), (p(&[]), "d".to_string(), vec![2])];
    assert_eq!(apply_file_map(&mut fs, &onto), Err(TreeError::NotAFile));
}

#[test]
fn main_dol_is_patched_in_place() {
    let dol = sample_dol().to_bytes();
    let mut fs = fs_with_dol(&dol);
    let ins = [Instruction { address: 0x8000_3104, data: 0x6000_0000 }];
    assert_eq!(patch_main_dol(&mut fs, &dol, None, &ins), Ok(()));
    let n = fs.sys.get_file(0, &p(&["Start.dol"])).unwrap();
    let patched = match fs.sys.file(n) {
        Some(FileDataSource::Box { data, .. }) => data.clone(),
        _ => panic!("Start.dol is not held in memory"),
    };
    let mut expected = sample_dol();
    expected.text_sections[0].data = vec![0, 0, 0, 0, 0x60, 0, 0, 0];
    assert_eq!(patched, expected.to_bytes());
    assert_ne!(patched, dol);
}

#[test]
fn main_dol_gets_the_linked_sections() {
    let dol = sample_dol().to_bytes();
    let mut fs = fs_with_dol(&dol);
    let linked = DolFile {
        text_sections: vec![Section { address: 0x8040_0000, data: vec![7; 4] }],
        data_sections: vec![],
        bss_address: 0,
        bss_size: 0,
        entry_point: 0,
    };
    let ins = [Instruction { address: 0x8040_0000, data: 0x0102_0304 }];
    assert_eq!(patch_main_dol(&mut fs, &dol, Some(linked), &ins), Ok(()));
    let n = fs.sys.get_file(0, &p(&["Start.dol"])).unwrap();
    let bytes = match fs.sys.file(n) {
        Some(FileDataSource::Box { data, .. }) => data.clone(),
        _ => panic!("Start.dol is not held in memory"),
    };
    let back = DolFile::parse(&bytes).unwrap();
    assert_eq!(back.text_sections.len(), 2);
    assert_eq!(back.text_sections[1].data, vec![1, 2, 3, 4]);
    assert_eq!(back.entry_point, 0x8000_3100);
}

#[test]
fn main_dol_errors_leave_the_disc_as_it_was() {
    let dol = sample_dol().to_bytes();
    let mut empty: GeckoFS<()> = GeckoFS::new();
    assert_eq!(patch_main_dol(&mut empty, &dol, None, &[]), Err(DolError::NotFound));
    let mut fs = fs_with_dol(&dol);
    assert_eq!(patch_main_dol(&mut fs, &dol[..0x20], None, &[]), Err(DolError::UnexpectedEnd));
    let missing = [Instruction { address: 0x9000_0000, data: 1 }];
    assert_eq!(patch_main_dol(&mut fs, &dol, None, &missing), Err(DolError::PatchNotApplied));
    let n = fs.sys.get_file(0, &p(&["Start.dol"])).unwrap();
    match fs.sys.file(n) {
        Some(FileDataSource::Box { data, .. }) => assert_eq!(data, &dol),
        _ => panic!("Start.dol is not held in memory"),
    }
}

#[test]
fn configuration_defaults_are_empty() {
    let c = geckolib::config::Config::default();
    assert!(c.files.is_empty());
    assert!(c.link.is_none() && c.diffs.is_none());
    assert_eq!(c.src.iso, "");
    assert_eq!(c.info.version, None);
    let d = geckolib::config::Diffs { deletions: vec!["a.bin".to_string()], ..Default::default() };
    assert_eq!(d.deletions.len(), 1);
    assert!(d.changes.is_empty());
}
