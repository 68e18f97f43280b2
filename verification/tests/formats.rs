use geckolib::bytes::{copy_range, push_be_u16, push_be_u64, read_be_u16, read_be_u64, write_be_u16, write_be_u64};
use geckolib::crypto::keys::{AesKey, DecryptedBlock};
use geckolib::endian::{FromBytesBE, FromBytesLE};
use geckolib::text::{bytes_eq, c_str_prefix, c_string_from_slice, fill_field, hex_u32, push_hex, IntoCStringError};
use geckolib::update::{ProgressReport, UpdaterType, WebProgressBar};
use geckolib::wii::disc::{Region, WiiDiscRegion, WiiDiscRegionsAgeRating, WII_DISC_REGION_SIZE};

#[test]
fn region_codes() {
    assert_eq!(Region::from(0u32), Region::NTSCJ);
    assert_eq!(Region::from(1u16), Region::NTSCU);
    assert_eq!(Region::from(2u32), Region::PAL);
    assert_eq!(Region::from(4u32), Region::KOR);
    assert_eq!(Region::from(3u32), Region::Unknown);
    assert_eq!(Region::from(99u32), Region::Unknown);
    for r in [Region::NTSCJ, Region::NTSCU, Region::PAL, Region::Unknown, Region::KOR] {
        assert_eq!(Region::from(u32::from(r)), r);
        assert_eq!(Region::from(u16::from(r)), r);
    }
}

#[test]
fn wii_disc_region_encodes_and_decodes() {
    let region = WiiDiscRegion {
        region: Region::PAL,
        age_rating: WiiDiscRegionsAgeRating {
            jp: 1,
            us: 2,
            unknown1: 3,
            de: 4,
            pegi: 5,
            fi: 6,
            pt: 7,
            gb: 8,
            au: 9,
            kr: 10,
        },
    };
    let bytes = region.encode();
    assert_eq!(bytes.len(), WII_DISC_REGION_SIZE);
    assert_eq!(&bytes[..4], &[0, 0, 0, 2]);
    assert!(bytes[4..16].iter().all(|&b| b == 0));
    assert_eq!(&bytes[16..26], &[1, 2, 3, 4, 5, 6, 7, 8, 9, 10]);
    assert!(bytes[26..].iter().all(|&b| b == 0));
    let mut back = WiiDiscRegion::default();
    assert!(back.decode(&bytes).is_ok());
    assert_eq!(back, region);
    let mut untouched = WiiDiscRegion::default();
    assert!(untouched.decode(&bytes[..31]).is_err());
    assert_eq!(untouched, WiiDiscRegion::default());
}

fn report(title: &str, progress: Option<(usize, usize)>) -> ProgressReport {
    ProgressReport { title: title.to_string(), progress }
}

#[test]
fn progress_bar_reports_each_event() {
    let mut bar = WebProgressBar::new();
    assert_eq!(bar.on_title_cb("Extracting".to_string()), report("Extracting", None));
    assert_eq!(bar.init_cb(Some(200)), report("Extracting", None));
    assert_eq!(bar.on_type_cb(UpdaterType::Progress), report("Extracting", Some((0, 200))));
    assert_eq!(bar.inc_cb(50), report("Extracting", Some((50, 200))));
    assert_eq!(bar.inc_cb(25), report("Extracting", Some((75, 200))));
    assert_eq!(bar.set_pos_cb(180), report("Extracting", Some((180, 200))));
    assert_eq!(bar.init_cb(None), report("Extracting", Some((0, 200))));
    assert_eq!(bar.finish_cb(), report("", Some((0, 200))));
    assert_eq!(bar.on_title_cb("Again".to_string()), report("Again", Some((0, 200))));
    assert_eq!(bar.reset_cb(), report("", Some((0, 200))));
    let mut d = WebProgressBar::default();
    assert_eq!(d.inc_cb(1), report("", None));
    assert_eq!(UpdaterType::default(), UpdaterType::Spinner);
}

#[test]
fn hex_and_c_strings() {
    assert_eq!(hex_u32(0xdead_beef), b"deadbeef".to_vec());
    assert_eq!(hex_u32(0x2a), b"0000002a".to_vec());
    let mut out = b"id:".to_vec();
    push_hex(&mut out, 0x1_0000_0002, 16);
    assert_eq!(out, b"id:0000000100000002".to_vec());
    assert_eq!(c_str_prefix(b"Root\0junk"), b"Root".to_vec());
    assert_eq!(c_str_prefix(b"noend"), b"noend".to_vec());
    assert_eq!(c_string_from_slice(b"abc"), Ok(b"abc".to_vec()));
    assert_eq!(c_string_from_slice(b"ab\0"), Err(IntoCStringError::FromVecWithNull));
    let f: [u8; 4] = fill_field(b"ab");
    assert_eq!(f, [b'a', b'b', 0, 0]);
    let g: [u8; 2] = fill_field(b"abcd");
    assert_eq!(g, [b'a', b'b']);
    assert!(bytes_eq(b"xy", b"xy"));
    assert!(!bytes_eq(b"xy", b"xz"));
    assert!(!bytes_eq(b"xy", b"xyz"));
}

#[test]
fn big_endian_helpers() {
    let mut v = Vec::new();
    push_be_u16(&mut v, 0x1234);
    push_be_u64(&mut v, 0x0102_0304_0506_0708);
    assert_eq!(v, vec![0x12, 0x34, 1, 2, 3, 4, 5, 6, 7, 8]);
    assert_eq!(read_be_u16(&v, 0), 0x1234);
    assert_eq!(read_be_u64(&v, 2), 0x0102_0304_0506_0708);
    write_be_u16(&mut v, 8, 0xAABB);
    write_be_u64(&mut v, 0, 0xFFFF_0000_FFFF_0000);
    assert_eq!(v, vec![0xFF, 0xFF, 0, 0, 0xFF, 0xFF, 0, 0, 0xAA, 0xBB]);
    assert_eq!(copy_range(&v, 8, 2), vec![0xAA, 0xBB]);
}

#[test]
fn endian_decoding() {
    let buf = [1u8, 2, 3, 4, 5, 6, 7, 8, 9, 10, 11, 12, 13, 14, 15, 16];
    assert_eq!(u16::from_bytes_le(&buf), 0x0201);
    assert_eq!(u32::from_bytes_le(&buf), 0x0403_0201);
    assert_eq!(u32::from_bytes_be(&buf), 0x0102_0304);
    assert_eq!(u64::from_bytes_be(&buf), 0x0102_0304_0506_0708);
    assert_eq!(u128::from_bytes_be(&buf), 0x0102_0304_0506_0708_090a_0b0c_0d0e_0f10);
    assert_eq!(i16::from_bytes_be(&[0xFF, 0xFE]), -2);
}

#[test]
fn key_and_block_containers() {
    let mut key = AesKey::from_array([7u8; 16]);
    key.set(0, 1);
    assert_eq!(key.as_array()[0], 1);
    assert_eq!(key.as_array()[1], 7);
    let k2 = AesKey::from_slice(&[9u8; 16]);
    assert_eq!(k2.as_array(), &[9u8; 16]);
    assert_eq!(AesKey::default().as_array(), &[0u8; 16]);
    let block = DecryptedBlock::from_slice(&[3u8; 0x7C00]);
    assert_eq!(block.as_slice().len(), 0x7C00);
    assert_eq!(block.as_slice()[0x7BFF], 3);
    assert_eq!(DecryptedBlock::default().as_slice(), &[0u8; 0x7C00][..]);
}
