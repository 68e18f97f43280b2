use aes::cipher::block_padding::NoPadding;
use aes::cipher::{BlockDecryptMut, KeyIvInit};
use geckolib::crypto::ec::{compute_shared_secret, priv_to_pub};
use geckolib::iosc::hle::{ConsoleType, Iosc, COMMON_KEY_RETAIL, DEFAULT_PRIVATE_KEY};
use sha1::Digest;
use geckolib::iosc::{PublicKeyType, SignatureType};
use geckolib::wii::crypto::{
    ios, is_valid_tmd_size, parse_cert_chain, CertReader, Content, SignedBlobReader, SignedReader, TMDReader,
    TicketReader, TitleFlags, TitleType, RVT_TICKET_ISSUER, SYSTEM_MENU,
};
use geckolib::wii::disc::Region;

const RSA2048: [u8; 4] = [0, 1, 0, 1];
const ECC: [u8; 4] = [0, 1, 0, 2];

fn put_u16(b: &mut [u8], off: usize, v: u16) {
    b[off..off + 2].copy_from_slice(&v.to_be_bytes());
}

fn put_u32(b: &mut [u8], off: usize, v: u32) {
    b[off..off + 4].copy_from_slice(&v.to_be_bytes());
}

fn put_u64(b: &mut [u8], off: usize, v: u64) {
    b[off..off + 8].copy_from_slice(&v.to_be_bytes());
}

fn tmd_bytes(title_id: u64, n_contents: u16) -> Vec<u8> {
    let mut b = vec![0u8; 0x1e4 + 36 * n_contents as usize];
    b[..4].copy_from_slice(&RSA2048);
    b[0x140..0x14a].copy_from_slice(b"Root-CA001");
    put_u64(&mut b, 0x184, 0x0000_0001_0000_0038);
    put_u64(&mut b, 0x18c, title_id);
    put_u32(&mut b, 0x194, 1);
    b[0x198..0x19a].copy_from_slice(b"01");
    put_u16(&mut b, 0x1a4, 2);
    put_u16(&mut b, 0x1dc, 0x1a2);
    put_u16(&mut b, 0x1de, n_contents);
    put_u16(&mut b, 0x1e0, 1);
    for i in 0..n_contents as usize {
        let at = 0x1e4 + 36 * i;
        put_u32(&mut b, at, 0x10 + i as u32);
        put_u16(&mut b, at + 4, i as u16);
    }
    b
}

fn ticket_bytes(ticket_id: u64, common_key_index: u8) -> Vec<u8> {
    let mut b = vec![0u8; 0x2a4];
    b[..4].copy_from_slice(&RSA2048);
    b[0x140..0x140 + 26].copy_from_slice(b"Root-CA00000001-XS00000003");
    for (i, x) in b[0x1bf..0x1cf].iter_mut().enumerate() {
        *x = 0x30 + i as u8;
    }
    put_u64(&mut b, 0x1d0, ticket_id);
    put_u32(&mut b, 0x1d8, 0x0403AC68);
    put_u64(&mut b, 0x1dc, 0x0001_0000_5253_4245);
    b[0x1f1] = common_key_index;
    b
}

fn ecc_cert(name: &[u8], id: u32) -> Vec<u8> {
    let mut b = vec![0u8; 0x180];
    b[..4].copy_from_slice(&ECC);
    b[0x80..0x80 + 18].copy_from_slice(b"Root-CA00000001-MS");
    put_u32(&mut b, 0xc0, 2);
    b[0xc4..0xc4 + name.len()].copy_from_slice(name);
    put_u32(&mut b, 0x104, id);
    for (i, x) in b[0x108..0x144].iter_mut().enumerate() {
        *x = i as u8;
    }
    b
}

#[test]
fn title_types_and_ids() {
    assert_eq!(ios(58), 0x0000_0001_0000_003a);
    assert_eq!(TitleType::Game.value(), 0x0001_0000);
    assert_eq!(TitleFlags::TitleTypeData.value(), 8);
    assert!(TitleType::is_disc_title(0x0001_0000_5253_4245));
    assert!(TitleType::is_disc_title(0x0001_0004_5253_4245));
    assert!(!TitleType::is_disc_title(0x0001_0001_4841_4241));
    assert!(TitleType::is_channel(SYSTEM_MENU));
    assert!(TitleType::is_channel(0x0001_0008_4841_4c45));
    assert!(!TitleType::is_channel(0x0000_0001_0000_0050));
    assert!(TitleType::is_title_type(0x0001_0005_0000_0000, TitleType::DLC));
    assert!(is_valid_tmd_size(0x49e4));
    assert!(!is_valid_tmd_size(0x49e5));
}

#[test]
fn content_flags() {
    let c = Content { id: 1, index: 0, content_type: 0xC001, size: 0, sha1: [0; 20] };
    assert!(c.is_shared());
    assert!(c.is_optional());
    let d = Content { content_type: 1, ..c };
    assert!(!d.is_shared());
    assert!(!d.is_optional());
}

#[test]
fn signed_blob_fields() {
    let mut r = SignedBlobReader::default();
    assert!(!r.is_signature_valid());
    r.set_bytes(&tmd_bytes(0x0001_0000_5253_4245, 10));
    assert!(r.is_signature_valid());
    assert_eq!(r.get_signature_type(), Some(SignatureType::RSA2048));
    assert_eq!(r.get_signature_size(), Some(0x180));
    assert_eq!(r.get_signature_data().unwrap().len(), 0x100);
    assert_eq!(r.get_issuer().unwrap(), b"Root-CA001".to_vec());
    let bytes = r.get_bytes().to_vec();
    let expected = sha1_smol::Sha1::from(&bytes[0x140..]).digest().bytes();
    assert_eq!(r.get_sha1(), expected);
    let mut bad = bytes.clone();
    bad[3] = 9;
    r.set_bytes(&bad);
    assert_eq!(r.get_signature_type(), None);
    assert!(!r.is_signature_valid());
}

#[test]
fn tmd_reader_fields() {
    let mut tmd = TMDReader::default();
    tmd.set_bytes(&tmd_bytes(0x0001_0000_5253_4245, 2));
    assert!(tmd.is_valid());
    assert_eq!(tmd.get_num_contents(), 2);
    assert_eq!(tmd.get_ios_id(), 0x0000_0001_0000_0038);
    assert_eq!(tmd.get_title_id(), 0x0001_0000_5253_4245);
    assert_eq!(tmd.get_title_flags(), 1);
    assert_eq!(tmd.get_title_version(), 0x1a2);
    assert_eq!(tmd.get_group_id(), 0x3031);
    assert_eq!(tmd.get_boot_index(), 1);
    assert!(!tmd.is_vwii());
    assert_eq!(tmd.get_game_id(), b"RSBE01".to_vec());
    // a disc game is no channel: its region is unknown
    assert_eq!(tmd.get_region(), Region::Unknown);
    let view = tmd.get_raw_view();
    assert_eq!(view.len(), 0x58 + 4 + 2 * 0x10);
    assert_eq!(&view[0x58..0x5c], &[0x01, 0xa2, 0, 2]);
    assert_eq!(&view[0x5c..0x60], &[0, 0, 0, 0x10]);
}

#[test]
fn tmd_region_of_channels() {
    let mut tmd = TMDReader::default();
    tmd.set_bytes(&tmd_bytes(0x0001_0001_4841_4241, 0));
    assert_eq!(tmd.get_region(), Region::PAL);
    let mut menu = tmd_bytes(SYSTEM_MENU, 0);
    put_u16(&mut menu, 0x1dc, 0x1a1);
    tmd.set_bytes(&menu);
    // the System Menu's region is the low nibble of its version
    assert_eq!(tmd.get_region(), Region::NTSCU);
}

#[test]
fn tmd_game_id_falls_back_to_hex() {
    let mut tmd = TMDReader::default();
    tmd.set_bytes(&tmd_bytes(0x0000_0001_0000_0002, 0));
    assert_eq!(tmd.get_game_id(), b"0000000100000002".to_vec());
    assert_eq!(tmd.get_game_tbdid(), b"0000000100000002".to_vec());
    tmd.set_bytes(&tmd_bytes(0x5253_4245_0000_0000, 0));
    assert_eq!(tmd.get_game_tbdid(), b"RSBE".to_vec());
}

#[test]
fn tmd_contents_are_counted_and_bounded() {
    let mut tmd = TMDReader::default();
    let mut b = tmd_bytes(0x0001_0000_5253_4245, 2);
    put_u32(&mut b, 0, 0x0001_0001);
    tmd.set_bytes(&b);
    assert!(tmd.get_content(2).is_none());
    let c = tmd.get_content(1).unwrap();
    // each record is read where it starts: 0x1e4 + 36 * index
    assert_eq!(c.id, 0x11);
    assert_eq!(c.index, 1);
    let all = tmd.get_contents();
    assert_eq!(all.len(), 2);
    assert_eq!(all[0].id, 0x10);
    assert_eq!(all[1], c);
    assert_eq!(tmd.find_content_by_id(0x11), Some(c));
    assert_eq!(tmd.find_content_by_id(0x0001_0001), None);
    b.truncate(0x1e4 + 36);
    tmd.set_bytes(&b);
    assert!(!tmd.is_valid());
}

#[test]
fn ticket_reader_fields() {
    let mut t = TicketReader::default();
    let mut both = ticket_bytes(7, 0);
    both.extend_from_slice(&ticket_bytes(9, 0));
    t.set_bytes(&both);
    assert!(t.is_valid());
    assert!(!t.is_v1_ticket());
    assert_eq!(t.get_number_of_tickets(), 2);
    assert_eq!(t.get_ticket_size(), 0x2a4);
    assert_eq!(t.get_version(), 0);
    assert_eq!(t.get_device_id(), 0x0403AC68);
    assert_eq!(t.get_title_id(), 0x0001_0000_5253_4245);
    assert_eq!(t.get_common_key_index(), 0);
    assert_eq!(t.get_console_type(), ConsoleType::Retail);
    assert_eq!(t.get_raw_ticket(9), ticket_bytes(9, 0));
    assert!(t.get_raw_ticket(8).is_empty());
    let view = t.get_raw_ticket_view(1);
    assert_eq!(view.len(), 0xd8);
    assert_eq!(&view[..4], &[0, 0, 0, 0]);
    assert_eq!(&view[4..12], &9u64.to_be_bytes());
}

#[test]
fn tickets_are_deleted_by_id() {
    let mut t = TicketReader::default();
    let mut all = ticket_bytes(7, 0);
    all.extend_from_slice(&ticket_bytes(9, 0));
    all.extend_from_slice(&ticket_bytes(7, 0));
    t.set_bytes(&all);
    t.delete_ticket(7);
    assert_eq!(t.get_bytes(), &ticket_bytes(9, 0)[..]);
    t.overwrite_common_key_index(1);
    assert_eq!(t.get_common_key_index(), 1);
}

#[test]
fn rvt_tickets_are_recognised() {
    let mut b = ticket_bytes(1, 0);
    b[0x140..0x180].fill(0);
    b[0x140..0x140 + 26].copy_from_slice(&RVT_TICKET_ISSUER);
    let mut t = TicketReader::default();
    t.set_bytes(&b);
    assert_eq!(t.get_console_type(), ConsoleType::RVT);
}

#[test]
fn title_key_is_decrypted_with_the_retail_common_key() {
    let mut t = TicketReader::default();
    let bytes = ticket_bytes(1, 0);
    t.set_bytes(&bytes);
    let key = t.get_title_key(None);

    let mut iv = [0u8; 16];
    iv[..8].copy_from_slice(&bytes[0x1dc..0x1e4]);
    let mut block = [0u8; 16];
    block.copy_from_slice(&bytes[0x1bf..0x1cf]);
    cbc::Decryptor::<aes::Aes128>::new(&COMMON_KEY_RETAIL.into(), &iv.into())
        .decrypt_padded_mut::<NoPadding>(&mut block)
        .unwrap();
    assert_eq!(key, block);
    let engine = Iosc::new(ConsoleType::Retail);
    assert_eq!(t.get_title_key(Some(&engine)), block);
}

#[test]
fn unknown_common_key_index_falls_back_to_the_first_key() {
    let mut first = TicketReader::default();
    first.set_bytes(&ticket_bytes(1, 0));
    let mut unknown = TicketReader::default();
    unknown.set_bytes(&ticket_bytes(1, 7));
    let mut korean = TicketReader::default();
    korean.set_bytes(&ticket_bytes(1, 1));
    let engine = Iosc::new(ConsoleType::Retail);
    assert_eq!(unknown.get_title_key(Some(&engine)), first.get_title_key(Some(&engine)));
    assert_ne!(korean.get_title_key(Some(&engine)), first.get_title_key(Some(&engine)));
}

#[test]
fn title_key_without_an_engine_uses_a_fresh_one() {
    let mut t = TicketReader::default();
    t.set_bytes(&ticket_bytes(3, 1));
    let fresh = Iosc::new(t.get_console_type());
    assert_eq!(t.get_title_key(None), t.get_title_key(Some(&fresh)));
}

#[test]
fn unpersonalise_re_encrypts_the_title_key_with_the_shared_key() {
    let mut t = TicketReader::default();
    let mut bytes = ticket_bytes(0x1122_3344_5566_7788, 0);
    let mut server_priv = [0u8; 30];
    server_priv[29] = 9;
    let server_pub = priv_to_pub(server_priv);
    bytes[0x180..0x1bc].copy_from_slice(&server_pub);
    t.set_bytes(&bytes);
    let mut engine = Iosc::new(ConsoleType::Retail);
    assert_eq!(t.unpersonalise(&mut engine), Ok(()));

    let shared = compute_shared_secret(DEFAULT_PRIVATE_KEY, server_pub);
    let digest: [u8; 20] = sha1::Sha1::digest(&shared[..30]).into();
    let mut key = [0u8; 16];
    key.copy_from_slice(&digest[..16]);
    let mut iv = [0u8; 16];
    iv[..8].copy_from_slice(&bytes[0x1d0..0x1d8]);
    let mut block = [0u8; 16];
    block.copy_from_slice(&bytes[0x1bf..0x1cf]);
    cbc::Decryptor::<aes::Aes128>::new(&key.into(), &iv.into())
        .decrypt_padded_mut::<NoPadding>(&mut block)
        .unwrap();
    let after = t.get_bytes();
    assert_eq!(&after[0x1bf..0x1cf], &block[..]);
    assert_eq!(&after[..0x1bf], &bytes[..0x1bf]);
    assert_eq!(&after[0x1cf..], &bytes[0x1cf..]);
}

#[test]
fn certificates_are_parsed_and_cut_to_size() {
    let mut name = [b'N'; 0x40];
    name[..4].copy_from_slice(b"AP00");
    let mut bytes = ecc_cert(&name, 0x1234);
    bytes.extend_from_slice(&[0xEE; 16]);
    let cert = CertReader::parse(bytes.clone()).unwrap();
    assert_eq!(cert.get_bytes().len(), 0x180);
    assert_eq!(cert.get_id(), 0x1234);
    assert_eq!(cert.get_name(), name.to_vec());
    assert_eq!(cert.get_public_key_type(), Ok(PublicKeyType::ECC));
    assert_eq!(cert.get_public_key().unwrap(), bytes[0x108..0x144].to_vec());
    // a name that ends before its field does is read as no name
    let short = CertReader::parse(ecc_cert(b"MS00000002", 1)).unwrap();
    assert!(short.get_name().is_empty());
    assert!(CertReader::parse(bytes[..0x17f].to_vec()).is_none());
    let mut wrong_key = ecc_cert(&name, 1);
    put_u32(&mut wrong_key, 0xc0, 1);
    assert!(CertReader::parse(wrong_key).is_none());
}

#[test]
fn cert_chain_is_keyed_by_name() {
    let a = [b'A'; 0x40];
    let b = [b'B'; 0x40];
    let mut chain = ecc_cert(&a, 1);
    chain.extend_from_slice(&ecc_cert(&b, 2));
    chain.extend_from_slice(&ecc_cert(&a, 3));
    chain.extend_from_slice(&[0u8; 8]);
    let certs = parse_cert_chain(&chain);
    assert_eq!(certs.len(), 2);
    let find = |n: &[u8]| certs.iter().find(|(k, _)| k.as_slice() == n).map(|(_, c)| c.get_id());
    assert_eq!(find(&a), Some(3));
    assert_eq!(find(&b), Some(2));
    assert!(parse_cert_chain(&[]).is_empty());
}
