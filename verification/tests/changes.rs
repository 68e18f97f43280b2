use geckolib::changes::{bytes_equal, diff, diff_file_lists, file_changed, patch};

fn paths(list: &[&str]) -> Vec<Vec<u8>> {
    list.iter().map(|p| p.as_bytes().to_vec()).collect()
}

#[test]
fn file_lists_sort_into_kept_deleted_and_added() {
    let original = paths(&["a/b.bin", "c.txt", "d/e.dat"]);
    let patched = paths(&["c.txt", "new.bin", "a/b.bin", "z"]);
    let d = diff_file_lists(&original, &patched);
    assert_eq!(d.common, vec![0, 1]);
    assert_eq!(d.deletions, vec![2]);
    assert_eq!(d.additions, vec![1, 3]);
}

#[test]
fn identical_lists_have_no_deletions_or_additions() {
    let original = paths(&["x", "y"]);
    let d = diff_file_lists(&original, &original.clone());
    assert_eq!(d.common, vec![0, 1]);
    assert!(d.deletions.is_empty());
    assert!(d.additions.is_empty());
    let empty: Vec<Vec<u8>> = Vec::new();
    let d = diff_file_lists(&empty, &original);
    assert!(d.common.is_empty());
    assert_eq!(d.additions, vec![0, 1]);
}

#[test]
fn a_file_changed_only_when_its_bytes_differ() {
    assert!(!file_changed(b"abc", b"abc"));
    assert!(file_changed(b"abc", b"abd"));
    assert!(file_changed(b"abc", b"ab"));
    assert!(bytes_equal(b"", b""));
}

#[test]
fn patch_undoes_diff() {
    let original: Vec<u8> = (0..4000u32).map(|i| (i * 7 % 251) as u8).collect();
    let mut patched = original.clone();
    patched[100] = 1;
    patched.extend_from_slice(b"appended");
    let d = diff(&original, &patched).unwrap().unwrap();
    assert_eq!(&d[..3], b"BZh");
    assert_eq!(patch(&original, &d).unwrap(), patched);
    assert_eq!(diff(&original, &original.clone()).unwrap(), None);
    assert!(patch(&original, b"not a patch at all").is_err());
}
