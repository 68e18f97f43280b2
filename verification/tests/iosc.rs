use aes::cipher::{BlockEncryptMut, KeyIvInit};
use geckolib::crypto::ec::{compute_shared_secret, priv_to_pub, sign_with_nonce, verify_signature};
use geckolib::iosc::hle::{
    ConsoleType, DefaultHandle, Handle, Iosc, IoscError, ObjectSubType, ObjectType, DEFAULT_DEVICE_ID,
    DEFAULT_KEY_ID, DEFAULT_PRIVATE_KEY, DEFAULT_PUBLIC_KEY, DEFAULT_SIGNATURE, ROOT_HANDLE,
};
use geckolib::iosc::key_dump::BootMiiKeyDump;
use geckolib::iosc::{PublicKeyType, SignatureType};
use geckolib::wii::crypto::{CertReader, SYSTEM_MENU};
use sha1::Digest;

const AES_KEY: [u8; 16] = [0, 1, 2, 3, 4, 5, 6, 7, 8, 9, 10, 11, 12, 13, 14, 15];
const AES_PLAIN: [u8; 16] = [
    0x00, 0x11, 0x22, 0x33, 0x44, 0x55, 0x66, 0x77, 0x88, 0x99, 0xaa, 0xbb, 0xcc, 0xdd, 0xee, 0xff,
];
const AES_CIPHER: [u8; 16] = [
    0x69, 0xc4, 0xe0, 0xd8, 0x6a, 0x7b, 0x04, 0x30, 0xd8, 0xcd, 0xb7, 0x80, 0x70, 0xb4, 0xc5, 0x5a,
];

#[test]
fn default_private_public_key_are_coherent() {
    let mut private_key = [0u8; 30];
    private_key.copy_from_slice(&DEFAULT_PRIVATE_KEY);
    let public_key = priv_to_pub(private_key);
    assert_eq!(public_key, DEFAULT_PUBLIC_KEY);
}

#[test]
fn check_iosc_sign() {
    const DATA: [u8; 20] = [89, 88, 252, 243, 48, 242, 210, 85, 215, 137, 104, 205, 76, 41, 234, 35, 95, 121, 87, 77];
    let iosc = Iosc::new(ConsoleType::Retail);
    let (cert, signature) = iosc.sign(SYSTEM_MENU, &DATA);
    println!("Cert: {:?}; Signature: {:?}", cert, signature);
}

#[test]
fn signed_data_verifies_with_the_title_key() {
    let data = [7u8; 33];
    let iosc = Iosc::new(ConsoleType::Retail);
    let (cert, signature) = iosc.sign(SYSTEM_MENU, &data);
    let mut ap_priv = [0u8; 30];
    ap_priv[29] = 1;
    let digest: [u8; 20] = sha1::Sha1::digest(&data).into();
    assert!(verify_signature(priv_to_pub(ap_priv), signature, digest));
    // The certificate is signed by the console key over its part from the issuer on.
    let cert_digest: [u8; 20] = sha1::Sha1::digest(&cert[0x80..]).into();
    let mut sig = [0u8; 60];
    sig.copy_from_slice(&cert[4..64]);
    assert!(verify_signature(DEFAULT_PUBLIC_KEY, sig, cert_digest));
    assert_eq!(&cert[0x80..0x80 + 26], b"Root-CA00000001-MS00000002");
    assert_eq!(&cert[0xc4..0xc4 + 18], b"AP0000000100000002");
}

#[test]
fn fresh_engine_uses_the_default_ids() {
    let iosc = Iosc::new(ConsoleType::Retail);
    assert!(iosc.is_using_default_id());
    assert_eq!(iosc.get_device_id(), DEFAULT_DEVICE_ID);
    assert_eq!(iosc.get_ownership(DefaultHandle::HandleConsoleKey.handle()), Ok(3));
    assert_eq!(iosc.get_ownership(DefaultHandle::HandleConsoleId.handle()), Ok(0xFFFFFFF));
    assert_eq!(iosc.get_ownership(Handle::new(12)), Err(IoscError::IoscEInval));
    assert_eq!(iosc.get_ownership(Handle::new(ROOT_HANDLE)), Err(IoscError::IoscEInval));
    assert_eq!(iosc.get_ownership(Handle::new(40)), Err(IoscError::IoscEInval));
}

#[test]
fn created_objects_take_the_first_free_slot() {
    let mut iosc = Iosc::new(ConsoleType::Retail);
    let h = iosc.create_object(ObjectType::TypeSecretKey, ObjectSubType::AES128, 2).unwrap();
    assert_eq!(h.value(), 12);
    assert_eq!(iosc.get_ownership(h), Ok(1 << 2));
    let h2 = iosc.create_object(ObjectType::TypeData, ObjectSubType::Data, 3).unwrap();
    assert_eq!(h2.value(), 13);
    for _ in 14..32 {
        iosc.create_object(ObjectType::TypeData, ObjectSubType::Data, 0).unwrap();
    }
    assert_eq!(
        iosc.create_object(ObjectType::TypeData, ObjectSubType::Data, 0).map(|h| h.value()),
        Err(IoscError::IoscFailAlloc)
    );
}

#[test]
fn built_in_objects_cannot_be_deleted() {
    let mut iosc = Iosc::new(ConsoleType::Retail);
    for h in 0..12 {
        assert_eq!(iosc.delete_object(Handle::new(h), 5), Err(IoscError::IoscEInval));
    }
    assert_eq!(iosc.delete_object(Handle::new(ROOT_HANDLE), 5), Err(IoscError::IoscEInval));
    assert_eq!(iosc.get_ownership(Handle::new(4)), Ok(3));
}

#[test]
fn delete_is_granted_to_the_owner_and_refused_to_others() {
    let mut iosc = Iosc::new(ConsoleType::Retail);
    let h = iosc.create_object(ObjectType::TypeSecretKey, ObjectSubType::AES128, 1).unwrap();
    assert_eq!(h.value(), 12);
    assert_eq!(iosc.delete_object(h, 2), Err(IoscError::IoscEInval));
    assert_eq!(iosc.delete_object(h, 1), Ok(()));
    assert_eq!(iosc.get_ownership(h), Err(IoscError::IoscEInval));
    let again = iosc.create_object(ObjectType::TypeSecretKey, ObjectSubType::AES128, 1).unwrap();
    assert_eq!(again.value(), h.value());
    assert_eq!(iosc.delete_object(Handle::new(40), 1), Err(IoscError::IoscEInval));
}

#[test]
fn set_ownership_keeps_the_caller() {
    let mut iosc = Iosc::new(ConsoleType::Retail);
    let h = iosc.create_object(ObjectType::TypeSecretKey, ObjectSubType::AES128, 2).unwrap();
    assert_eq!(iosc.set_ownership(h, 0xFF, 2), Ok(()));
    assert_eq!(iosc.get_ownership(h), Ok(0xFC));
    // Now shared: the owner can no longer change it.
    assert_eq!(iosc.set_ownership(h, 0, 2), Err(IoscError::IoscEAccess));
    assert_eq!(iosc.set_ownership(h, 0, 0), Err(IoscError::IoscEAccess));
    assert_eq!(iosc.set_ownership(Handle::new(ROOT_HANDLE), 0, 0), Err(IoscError::IoscEInval));
}

fn engine_with_key(key: &[u8; 16], pid: u32) -> (Iosc, Handle) {
    let mut iosc = Iosc::new(ConsoleType::Retail);
    let h = iosc.create_object(ObjectType::TypeSecretKey, ObjectSubType::AES128, pid).unwrap();
    iosc.import_secret_key(h, None, key, pid).unwrap();
    (iosc, h)
}

#[test]
fn encrypt_matches_the_aes_test_vector() {
    let (iosc, h) = engine_with_key(&AES_KEY, 1);
    let out = iosc.encrypt(h, &[0u8; 16], &AES_PLAIN, 1).unwrap();
    assert_eq!(out, AES_CIPHER.to_vec());
    let back = iosc.decrypt(h, &[0u8; 16], &AES_CIPHER, 1).unwrap();
    assert_eq!(back, AES_PLAIN.to_vec());
}

#[test]
fn decrypt_undoes_encrypt_and_keeps_the_tail() {
    let (iosc, h) = engine_with_key(&AES_KEY, 1);
    let iv = [9u8; 16];
    let data: Vec<u8> = (0..37u8).collect();
    let enc = iosc.encrypt(h, &iv, &data, 1).unwrap();
    assert_eq!(enc.len(), 37);
    assert_ne!(enc[..32], data[..32]);
    assert_eq!(enc[32..], data[32..]);
    assert_eq!(iosc.decrypt(h, &iv, &enc, 1).unwrap(), data);
}

#[test]
fn crypt_errors() {
    let (iosc, h) = engine_with_key(&AES_KEY, 1);
    assert_eq!(iosc.encrypt(h, &[0u8; 16], &AES_PLAIN, 2), Err(IoscError::IoscEAccess));
    assert_eq!(
        iosc.encrypt(DefaultHandle::HandleConsoleKey.handle(), &[0u8; 16], &AES_PLAIN, 0),
        Err(IoscError::IoscInvalidObjtype)
    );
    assert_eq!(iosc.decrypt(Handle::new(ROOT_HANDLE), &[0u8; 16], &AES_PLAIN, 0), Err(IoscError::IoscEInval));
    let mut iosc = Iosc::new(ConsoleType::Retail);
    let empty = iosc.create_object(ObjectType::TypeSecretKey, ObjectSubType::AES128, 1).unwrap();
    assert_eq!(iosc.encrypt(empty, &[0u8; 16], &AES_PLAIN, 1), Err(IoscError::IoscFailInteral));
}

#[test]
fn import_secret_key_checks() {
    let mut iosc = Iosc::new(ConsoleType::Retail);
    assert_eq!(
        iosc.import_secret_key(DefaultHandle::HandleCommonKey.handle(), None, &AES_KEY, 0),
        Err(IoscError::IoscEAccess)
    );
    let d = iosc.create_object(ObjectType::TypeData, ObjectSubType::Data, 1).unwrap();
    assert_eq!(iosc.import_secret_key(d, None, &AES_KEY, 1), Err(IoscError::IoscInvalidObjtype));
    // A key decrypted with another key on the way in.
    let (mut iosc, k) = engine_with_key(&AES_KEY, 1);
    let dest = iosc.create_object(ObjectType::TypeSecretKey, ObjectSubType::AES128, 1).unwrap();
    iosc.import_secret_key(dest, Some((k, &[0u8; 16][..])), &AES_CIPHER, 1).unwrap();
    let probe = iosc.encrypt(dest, &[0u8; 16], &[0u8; 16], 1).unwrap();
    let (reference, r) = engine_with_key(&AES_PLAIN, 1);
    assert_eq!(probe, reference.encrypt(r, &[0u8; 16], &[0u8; 16], 1).unwrap());
}

#[test]
fn ecc_signatures_verify_through_imported_keys() {
    let mut iosc = Iosc::new(ConsoleType::Retail);
    let pk = iosc.create_object(ObjectType::TypePublicKey, ObjectSubType::ECC233, 1).unwrap();
    iosc.import_public_key(pk, &DEFAULT_PUBLIC_KEY, None, 1).unwrap();
    let hash = [0x42u8; 20];
    let mut nonce = [0u8; 30];
    nonce[29] = 5;
    let sig = sign_with_nonce(DEFAULT_PRIVATE_KEY, hash, nonce);
    assert_eq!(iosc.verify_public_key_sign(hash, pk, &sig, 1), Ok(()));
    assert_eq!(iosc.verify_public_key_sign([0x43u8; 20], pk, &sig, 1), Err(IoscError::IoscFailCheckvalue));
    assert_eq!(iosc.verify_public_key_sign(hash, pk, &sig, 2), Err(IoscError::IoscEAccess));
    assert_eq!(
        iosc.verify_public_key_sign(hash, DefaultHandle::HandleCommonKey.handle(), &sig, 0),
        Err(IoscError::IoscInvalidObjtype)
    );
}

#[test]
fn rsa_signatures_against_the_root_key_fail_on_garbage() {
    let iosc = Iosc::new(ConsoleType::Retail);
    let sig = [1u8; 0x200];
    assert_eq!(
        iosc.verify_public_key_sign([0u8; 20], Handle::new(ROOT_HANDLE), &sig, 0),
        Err(IoscError::IoscFailCheckvalue)
    );
}

#[test]
fn shared_key_is_the_hash_of_the_ecdh_point() {
    let mut iosc = Iosc::new(ConsoleType::Retail);
    let peer_priv = {
        let mut k = [0u8; 30];
        k[29] = 7;
        k
    };
    let peer_pub = priv_to_pub(peer_priv);
    let pk = iosc.create_object(ObjectType::TypePublicKey, ObjectSubType::ECC233, 0).unwrap();
    iosc.import_public_key(pk, &peer_pub, None, 0).unwrap();
    let dest = iosc.create_object(ObjectType::TypeSecretKey, ObjectSubType::AES128, 0).unwrap();
    assert_eq!(iosc.compute_shared_key(dest, DefaultHandle::HandleConsoleKey.handle(), pk, 0), Ok(()));
    let shared = compute_shared_secret(DEFAULT_PRIVATE_KEY, peer_pub);
    let digest: [u8; 20] = sha1::Sha1::digest(&shared[..30]).into();
    let mut key = [0u8; 16];
    key.copy_from_slice(&digest[..16]);
    let mut block = [0u8; 16];
    cbc::Encryptor::<aes::Aes128>::new(&key.into(), &[0u8; 16].into())
        .encrypt_padded_mut::<aes::cipher::block_padding::NoPadding>(&mut block, 16)
        .unwrap();
    assert_eq!(iosc.encrypt(dest, &[0u8; 16], &[0u8; 16], 0), Ok(block.to_vec()));
    // A built-in destination is refused.
    assert_eq!(
        iosc.compute_shared_key(DefaultHandle::HandleFsKey.handle(), DefaultHandle::HandleConsoleKey.handle(), pk, 0),
        Err(IoscError::IoscEAccess)
    );
}

#[test]
fn device_certificate_holds_the_console_identity() {
    let iosc = Iosc::new(ConsoleType::Retail);
    let cert = iosc.get_device_certificate();
    assert_eq!(cert.signature.sig_type, SignatureType::ECC);
    assert_eq!(cert.signature.sig, DEFAULT_SIGNATURE);
    assert_eq!(&cert.signature.issuer[..26], b"Root-CA00000001-MS00000002");
    assert!(cert.signature.issuer[26..].iter().all(|b| *b == 0));
    assert_eq!(&cert.header.name[..10], b"NG0403ac68");
    assert_eq!(cert.header.public_key_type, PublicKeyType::ECC);
    assert_eq!(cert.header.id, DEFAULT_KEY_ID);
    assert_eq!(cert.public_key.0, DEFAULT_PUBLIC_KEY);
    let rvt = Iosc::new(ConsoleType::RVT).get_device_certificate();
    assert_eq!(&rvt.signature.issuer[..26], b"Root-CA00000002-MS00000003");
}

#[test]
fn certificates_import_into_public_key_objects() {
    let mut iosc = Iosc::new(ConsoleType::Retail);
    let bytes = iosc.get_device_certificate().encode();
    let cert = CertReader::parse(bytes).unwrap();
    let dest = iosc.create_object(ObjectType::TypePublicKey, ObjectSubType::ECC233, 1).unwrap();
    assert_eq!(iosc.import_certificate(&cert, Handle::new(ROOT_HANDLE), dest, 1), Ok(()));
    let hash = [3u8; 20];
    let mut nonce = [0u8; 30];
    nonce[0] = 1;
    let sig = sign_with_nonce(DEFAULT_PRIVATE_KEY, hash, nonce);
    assert_eq!(iosc.verify_public_key_sign(hash, dest, &sig, 1), Ok(()));
    assert_eq!(
        iosc.import_certificate(&cert, Handle::new(ROOT_HANDLE), dest, 2),
        Err(IoscError::IoscEAccess)
    );
}

#[test]
fn error_codes_and_messages() {
    assert_eq!(IoscError::IoscEAccess.code(), -2000);
    assert_eq!(IoscError::IoscEInval.code(), -2002);
    assert_eq!(IoscError::IoscInvalidObjtype.code(), -2005);
    assert_eq!(IoscError::IoscFailCheckvalue.code(), -2011);
    assert_eq!(IoscError::IoscFailInteral.code(), -2012);
    assert_eq!(IoscError::IoscFailAlloc.code(), -2013);
    assert_eq!(IoscError::IoscEInval.message(), "IOSC_EINVAL ; Invalid value");
}

fn sample_key_dump() -> Vec<u8> {
    let mut b: Vec<u8> = (0..0x400u32).map(|i| (i % 251) as u8).collect();
    b[0x124..0x128].copy_from_slice(&0x0BAD_F00Du32.to_be_bytes());
    b[0x158..0x168].copy_from_slice(&[0x11; 16]);
    b[0x200..0x204].copy_from_slice(&2u32.to_be_bytes());
    b[0x204..0x208].copy_from_slice(&1u32.to_be_bytes());
    b[0x208..0x20C].copy_from_slice(&0x1234_5678u32.to_be_bytes());
    b[0x20C..0x248].copy_from_slice(&[0x5A; 60]);
    b[0x248] = 7;
    b
}

#[test]
fn key_dump_fields_sit_at_their_offsets() {
    let bytes = sample_key_dump();
    assert!(BootMiiKeyDump::decode(&bytes[..0x3FF]).is_none());
    let d = BootMiiKeyDump::decode(&bytes).unwrap();
    assert_eq!(d.ng_id, 0x0BAD_F00D);
    assert_eq!(d.ms_id, 2);
    assert_eq!(d.ca_id, 1);
    assert_eq!(d.ng_key_id, 0x1234_5678);
    assert_eq!(d.nand_key, vec![0x11; 16]);
    assert_eq!(d.ng_sig, vec![0x5A; 60]);
    assert_eq!(d.counters[0].boot2version, 7);
    assert_eq!(d.union_data, bytes[0x128..0x158].to_vec());
    assert_eq!(d.crack_pad, bytes[0x300..0x400].to_vec());
    assert_eq!(d.prng_seed[0], u16::from_be_bytes([bytes[0x2F8], bytes[0x2F9]]));
}

#[test]
fn loaded_key_dump_gives_the_console_identity() {
    let d = BootMiiKeyDump::decode(&sample_key_dump()).unwrap();
    let mut iosc = Iosc::new(ConsoleType::Retail);
    iosc.load_key_dump(&d);
    assert_eq!(iosc.get_device_id(), 0x0BAD_F00D);
    assert!(!iosc.is_using_default_id());
    let cert = iosc.get_device_certificate();
    assert_eq!(cert.signature.sig, [0x5A; 60]);
    assert!(cert.signature.issuer.starts_with(b"Root-CA00000001-MS00000002"));
    assert_eq!(cert.header.id, 0x1234_5678);
}
