use geckolib::disc::{DiscHeader, Partition, Volume, VolumeError, DISC_HEADER_SIZE, WII_MAGIC};

struct VolumeTest;

impl Volume for VolumeTest {
    fn read_bytes(&mut self, n: usize) -> Result<Vec<u8>, VolumeError> {
        Ok((0..n).map(|i| i as u8).collect())
    }

    fn get_offset_shift(&self) -> u8 {
        2
    }

    fn has_wii_hashes(&self) -> bool {
        false
    }

    fn has_wii_encryption(&self) -> bool {
        false
    }

    fn get_title_id(&self, _partition: Option<&Partition>) -> Option<u64> {
        None
    }
}

#[test]
fn read_swapped_accept_numbers() {
    let mut volume = VolumeTest;
    let value: u32 = volume.read_swapped().unwrap();
    assert_eq!(value, 0x00010203);
}

#[test]
fn read_swapped_and_shifted_accept_number() {
    let mut volume = VolumeTest;
    let value: u32 = volume.read_swapped_and_shifted().unwrap();
    assert_eq!(value, 0x0004080C);
}

#[test]
fn it_works() {}

#[test]
fn read_swapped_other_widths() {
    let mut volume = VolumeTest;
    let a: u16 = volume.read_swapped().unwrap();
    assert_eq!(a, 0x0001);
    let b: u64 = volume.read_swapped().unwrap();
    assert_eq!(b, 0x0001020304050607);
    let c: i8 = volume.read_swapped_and_shifted().unwrap();
    assert_eq!(c, 0);
}

#[test]
fn disc_header_default_is_gamecube_japan() {
    let h = DiscHeader::default();
    assert_eq!(h.disc_id, b'G');
    assert_eq!(h.region_code, b'J');
    assert!(!h.is_wii);
    let bytes = h.encode();
    assert_eq!(bytes.len(), DISC_HEADER_SIZE);
    // GameCube magic at 0x1c, no Wii magic at 0x18.
    assert_eq!(&bytes[0x18..0x1c], &[0, 0, 0, 0]);
    assert_eq!(&bytes[0x1c..0x20], &[0xC2, 0x33, 0x9F, 0x3D]);
}

#[test]
fn disc_header_roundtrip() {
    let mut h = DiscHeader::default();
    h.disc_id = b'R';
    h.game_code = 0x5A45;
    h.region_code = b'E';
    h.maker_code = 0x3031;
    h.disc_number = 1;
    h.disc_version = 2;
    h.audio_streaming = true;
    h.streaming_buffer_size = 7;
    h.unk[3] = 9;
    h.is_wii = true;
    h.game_title[0] = b'Z';
    h.disable_hash_verification = true;
    let bytes = h.encode();
    assert_eq!(&bytes[0x18..0x1c], &WII_MAGIC.to_be_bytes());
    assert_eq!(bytes[1], 0x5A);
    let mut d = DiscHeader::default();
    assert!(d.decode(&bytes).is_ok());
    assert_eq!(d.disc_id, b'R');
    assert_eq!(d.game_code, 0x5A45);
    assert_eq!(d.maker_code, 0x3031);
    assert_eq!(d.disc_number, 1);
    assert_eq!(d.disc_version, 2);
    assert!(d.audio_streaming);
    assert_eq!(d.streaming_buffer_size, 7);
    assert_eq!(d.unk[3], 9);
    assert!(d.is_wii);
    assert_eq!(d.game_title[0], b'Z');
    assert!(d.disable_hash_verification);
    assert!(!d.disable_disc_encryption);
}

#[test]
fn disc_header_decode_short_input_fails() {
    let mut d = DiscHeader::default();
    assert!(d.decode(&[0u8; 10]).is_err());
    assert_eq!(d.disc_id, b'G');
}
