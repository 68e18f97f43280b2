use geckolib::checksum::calculate_checksum;
use sha3::Digest;

fn expected(files: &[&[u8]]) -> [u8; 32] {
    let mut sum = setsum::Setsum::default();
    for f in files {
        let h: [u8; 32] = sha3::Sha3_256::digest(f).into();
        sum.insert(&h);
    }
    sum.digest()
}

#[test]
fn checksum_is_the_setsum_of_the_file_digests() {
    let files = vec![b"abc".to_vec(), vec![], vec![0u8; 1000]];
    assert_eq!(calculate_checksum(&files), expected(&[b"abc", b"", &[0u8; 1000]]));
    assert_eq!(calculate_checksum(&[]), setsum::Setsum::default().digest());
}

#[test]
fn checksum_ignores_the_order_of_the_files() {
    let a = vec![b"one".to_vec(), b"two".to_vec(), b"three".to_vec()];
    let b = vec![b"three".to_vec(), b"one".to_vec(), b"two".to_vec()];
    assert_eq!(calculate_checksum(&a), calculate_checksum(&b));
    let c = vec![b"one".to_vec(), b"two".to_vec(), b"four".to_vec()];
    assert_ne!(calculate_checksum(&a), calculate_checksum(&c));
}
