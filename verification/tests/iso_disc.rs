use aes::cipher::block_padding::NoPadding;
use aes::cipher::{BlockDecryptMut, KeyIvInit};
use geckolib::crypto::keys::common_key;
use geckolib::iso::disc::{
    align_addr, decrypt_title_key, disc_get_header, disc_set_header, disc_set_part_info, to_decrypted_addr,
    to_encrypted_addr, PartHeader, PartInfo, PartInfoEntry, PartitionType, Ticket, TitleMetaData, TMDContent,
    WiiDiscRegion,
};

#[test]
fn works_normally() {
    assert_eq!(to_decrypted_addr(0x400u16), 0x0);
    assert_eq!(to_decrypted_addr(0x400u32), 0x0);
    assert_eq!(to_decrypted_addr(0x400u64), 0x0);
    assert_eq!(to_decrypted_addr(0x400u128), 0x0);
    assert_eq!(to_decrypted_addr(0x400usize), 0x0);

    assert_eq!(to_decrypted_addr(0x600u16), 0x200);
    assert_eq!(to_decrypted_addr(0x600u32), 0x200);
    assert_eq!(to_decrypted_addr(0x600u64), 0x200);
    assert_eq!(to_decrypted_addr(0x600u128), 0x200);
    assert_eq!(to_decrypted_addr(0x600usize), 0x200);

    assert_eq!(to_decrypted_addr(0x7fffu16), 0x7BFF);
    assert_eq!(to_decrypted_addr(0x7fffu32), 0x7BFF);
    assert_eq!(to_decrypted_addr(0x7fffu64), 0x7BFF);
    assert_eq!(to_decrypted_addr(0x7fffu128), 0x7BFF);
    assert_eq!(to_decrypted_addr(0x7fffusize), 0x7BFF);

    assert_eq!(to_decrypted_addr(0x8401u16), 0x7C01);
    assert_eq!(to_decrypted_addr(0x8401u32), 0x7C01);
    assert_eq!(to_decrypted_addr(0x8401u64), 0x7C01);
    assert_eq!(to_decrypted_addr(0x8401u128), 0x7C01);
    assert_eq!(to_decrypted_addr(0x8401usize), 0x7C01);
}

#[test]
fn hash_address_goes_to_start_of_data() {
    assert_eq!(to_decrypted_addr(0x0u16), 0x0);
    assert_eq!(to_decrypted_addr(0x0u32), 0x0);
    assert_eq!(to_decrypted_addr(0x0u64), 0x0);
    assert_eq!(to_decrypted_addr(0x0u128), 0x0);
    assert_eq!(to_decrypted_addr(0x0usize), 0x0);

    assert_eq!(to_decrypted_addr(0x1u16), 0x0);
    assert_eq!(to_decrypted_addr(0x1u32), 0x0);
    assert_eq!(to_decrypted_addr(0x1u64), 0x0);
    assert_eq!(to_decrypted_addr(0x1u128), 0x0);
    assert_eq!(to_decrypted_addr(0x1usize), 0x0);

    assert_eq!(to_decrypted_addr(0x3FFu16), 0x0);
    assert_eq!(to_decrypted_addr(0x3FFu32), 0x0);
    assert_eq!(to_decrypted_addr(0x3FFu64), 0x0);
    assert_eq!(to_decrypted_addr(0x3FFu128), 0x0);
    assert_eq!(to_decrypted_addr(0x3FFusize), 0x0);

    assert_eq!(to_decrypted_addr(0x8000u16), 0x7C00);
    assert_eq!(to_decrypted_addr(0x8000u32), 0x7C00);
    assert_eq!(to_decrypted_addr(0x8000u64), 0x7C00);
    assert_eq!(to_decrypted_addr(0x8000u128), 0x7C00);
    assert_eq!(to_decrypted_addr(0x8000usize), 0x7C00);

    assert_eq!(to_decrypted_addr(0x83ffu16), 0x7C00);
    assert_eq!(to_decrypted_addr(0x83ffu32), 0x7C00);
    assert_eq!(to_decrypted_addr(0x83ffu64), 0x7C00);
    assert_eq!(to_decrypted_addr(0x83ffu128), 0x7C00);
    assert_eq!(to_decrypted_addr(0x83ffusize), 0x7C00);
}

#[test]
fn decrypted_address_idempotent() {
    assert_eq!(to_decrypted_addr(to_encrypted_addr(0x1u16)), 0x1);
    assert_eq!(to_decrypted_addr(to_encrypted_addr(0x1u32)), 0x1);
    assert_eq!(to_decrypted_addr(to_encrypted_addr(0x1u64)), 0x1);
    assert_eq!(to_decrypted_addr(to_encrypted_addr(0x1u128)), 0x1);
    assert_eq!(to_decrypted_addr(to_encrypted_addr(0x1usize)), 0x1);

    assert_eq!(to_decrypted_addr(to_encrypted_addr(0x0u16)), 0x0);
    assert_eq!(to_decrypted_addr(to_encrypted_addr(0x0u32)), 0x0);
    assert_eq!(to_decrypted_addr(to_encrypted_addr(0x0u64)), 0x0);
    assert_eq!(to_decrypted_addr(to_encrypted_addr(0x0u128)), 0x0);
    assert_eq!(to_decrypted_addr(to_encrypted_addr(0x0usize)), 0x0);

    assert_eq!(to_decrypted_addr(to_encrypted_addr(0x7C00u16)), 0x7C00);
    assert_eq!(to_decrypted_addr(to_encrypted_addr(0x7C00u32)), 0x7C00);
    assert_eq!(to_decrypted_addr(to_encrypted_addr(0x7C00u64)), 0x7C00);
    assert_eq!(to_decrypted_addr(to_encrypted_addr(0x7C00u128)), 0x7C00);
    assert_eq!(to_decrypted_addr(to_encrypted_addr(0x7C00usize)), 0x7C00);
}

#[test]
fn encrypted_addresses_skip_the_hash_blocks() {
    assert_eq!(to_encrypted_addr(0u64), 0x400);
    assert_eq!(to_encrypted_addr(0x7BFFu64), 0x7FFF);
    assert_eq!(to_encrypted_addr(0x7C00u64), 0x8400);
    assert_eq!(to_encrypted_addr(0x1_0000u32), 0x1_0000 / 0x7C00 * 0x8000 + 0x1_0000 % 0x7C00 + 0x400);
    for x in [0usize, 1, 0x7BFF, 0x7C00, 0x12345, 0xF800 * 3 + 17] {
        assert_eq!(to_decrypted_addr(to_encrypted_addr(x)), x);
    }
}

#[test]
fn align_addr_rounds_up_to_the_power_of_two() {
    assert_eq!(align_addr(1u32, 4), 16);
    assert_eq!(align_addr(16u32, 4), 16);
    assert_eq!(align_addr(17u64, 4), 32);
    assert_eq!(align_addr(0x8001usize, 15), 0x10000);
    assert_eq!(align_addr(5usize, 0), 5);
}

#[test]
fn disc_header_is_written_and_read_back() {
    let mut buf = vec![0xAAu8; 0x100];
    buf[0] = b'R';
    buf[1] = b'Z';
    buf[2] = b'D';
    buf[3] = b'E';
    buf[4] = b'0';
    buf[5] = b'1';
    buf[8] = 1;
    buf[0x18..0x1C].copy_from_slice(&[0x5D, 0x1C, 0x9E, 0xA3]);
    buf[0x20..0x25].copy_from_slice(b"Zelda");
    let h = disc_get_header(&buf);
    assert_eq!(h.disc_id, b'R');
    assert_eq!(&h.game_code, b"ZD");
    assert_eq!(h.region_code, b'E');
    assert_eq!(&h.maker_code, b"01");
    assert!(h.audio_streaming);
    assert_eq!(h.wii_magic, 0x5D1C9EA3);
    assert_eq!(h.gc_magic, 0xAAAAAAAA);
    assert_eq!(&h.game_title[..5], b"Zelda");

    let mut out = vec![0u8; 0x100];
    disc_set_header(&mut out, &h);
    assert_eq!(&out[..0x62], &buf[..0x62]);
    assert!(out[0x62..].iter().all(|&b| b == 0));
}

#[test]
fn region_block_round_trips() {
    let mut raw = [0u8; 0x20];
    raw[..4].copy_from_slice(&[0, 0, 0, 1]);
    for (i, b) in raw[0x10..0x1a].iter_mut().enumerate() {
        *b = i as u8 + 1;
    }
    let region = WiiDiscRegion::parse(&raw);
    assert_eq!(region.region, 1);
    assert_eq!(region.age_rating.jp, 1);
    assert_eq!(region.age_rating.us, 2);
    assert_eq!(region.age_rating.de, 4);
    assert_eq!(region.age_rating.kr, 10);
    let mut out = [0u8; 0x20];
    region.compose_into(&mut out);
    assert_eq!(WiiDiscRegion::parse(&out), region);
    // The byte at 0x12 is not part of the block.
    assert_eq!(out[0x12], 0);
}

#[test]
fn partition_table_is_written_with_quartered_offsets() {
    let mut buf = vec![0u8; 0x40040];
    let pi = PartInfo {
        offset: 0x40020,
        entries: vec![
            PartInfoEntry { part_type: 1, offset: 0x50000 },
            PartInfoEntry { part_type: 0, offset: 0xF800000 },
        ],
    };
    disc_set_part_info(&mut buf, &pi);
    assert_eq!(&buf[0x40000..0x40008], &[0, 0, 0, 2, 0, 0x01, 0, 0x08]);
    assert_eq!(&buf[0x40020..0x40030], &[0, 0x01, 0x40, 0, 0, 0, 0, 1, 0x03, 0xE0, 0, 0, 0, 0, 0, 0]);
}

#[test]
fn partition_type_codes() {
    assert_eq!(u32::from(PartitionType::Data), 0);
    assert_eq!(u32::from(PartitionType::Update), 1);
    assert_eq!(u32::from(PartitionType::ChannelInstaller), 2);
    assert_eq!(u32::from(PartitionType::Unknown), 0xFFFF_FFFF);
    assert_eq!(PartitionType::from(1u32), PartitionType::Update);
    assert_eq!(PartitionType::from(7u32), PartitionType::Unknown);
    assert_eq!(PartitionType::default(), PartitionType::Unknown);
}

fn sample_ticket_bytes() -> [u8; 0x2A4] {
    let mut buf = [0u8; 0x2A4];
    for (i, b) in buf.iter_mut().enumerate() {
        *b = (i * 7 % 251) as u8;
    }
    buf
}

#[test]
fn ticket_round_trips() {
    let buf = sample_ticket_bytes();
    let t = Ticket::from_bytes(&buf);
    assert_eq!(t.sig_type, u32::from_be_bytes([buf[0], buf[1], buf[2], buf[3]]));
    assert_eq!(&t.title_key, &buf[0x1BF..0x1CF]);
    assert_eq!(t.common_key_index, buf[0x1F1]);
    assert_eq!(t.time_limit, u32::from_be_bytes([buf[0x248], buf[0x249], buf[0x24A], buf[0x24B]]));
    assert_eq!(t.to_bytes(), buf);
    assert!(Ticket::try_from_slice(&buf[..0x2A3]).is_err());
    let t2 = Ticket::try_from_slice(&buf).unwrap();
    assert_eq!(t2.to_bytes(), buf);
    assert_eq!(Ticket::default().to_bytes(), [0u8; 0x2A4]);
}

#[test]
fn fake_signed_ticket_hashes_to_a_zero_byte() {
    let mut t = Ticket::from_bytes(&sample_ticket_bytes());
    let title_key = t.title_key;
    t.fake_sign();
    assert!(t.sig.iter().all(|&b| b == 0));
    assert!(t.fake_sign.iter().all(|&b| b == 0));
    assert_eq!(t.title_key, title_key);
    let bytes = t.to_bytes();
    let hash = sha1_smol::Sha1::from(&bytes[0x140..]).digest().bytes();
    assert_eq!(hash[0], 0);
}

#[test]
fn part_header_round_trips() {
    let mut buf = [0u8; 0x2C0];
    buf[..0x2A4].copy_from_slice(&sample_ticket_bytes());
    buf[0x2A4..0x2A8].copy_from_slice(&0x208u32.to_be_bytes());
    buf[0x2A8..0x2AC].copy_from_slice(&0xB0u32.to_be_bytes());
    buf[0x2B8..0x2BC].copy_from_slice(&0x8000u32.to_be_bytes());
    let h = PartHeader::from_bytes(&buf);
    assert_eq!(h.tmd_size, 0x208);
    assert_eq!(h.tmd_offset, 0x2C0);
    assert_eq!(h.data_offset, 0x20000);
    assert_eq!(h.to_bytes(), buf);
}

#[test]
fn tmd_encodes_and_reads_back() {
    let mut tmd = TitleMetaData::default();
    tmd.sig_type = 0x10001;
    tmd.title_id = [0, 1, 0, 0, b'R', b'Z', b'D', b'E'];
    tmd.n_content = 1;
    tmd.contents = vec![TMDContent { content_id: 9, index: 0, content_type: 1, size: 0x1234, hash: [3u8; 20] }];
    assert_eq!(TitleMetaData::get_size_n(1), 0x1E4 + 36);
    assert_eq!(tmd.get_size(), 0x1E4 + 36);
    let bytes = tmd.encode();
    assert_eq!(bytes.len(), 0x1E4 + 36);
    let mut part = vec![0u8; 0x300];
    TitleMetaData::set_partition(&mut part, 0x10, &tmd);
    assert_eq!(&part[0x10..0x10 + bytes.len()], &bytes[..]);
    let back = TitleMetaData::from_partition(&part, 0x10);
    assert_eq!(back.sig_type, 0x10001);
    assert_eq!(back.title_id, tmd.title_id);
    assert_eq!(back.n_content, 1);
    assert_eq!(back.contents.len(), 1);
    assert_eq!(back.contents[0].content_id, 9);
    assert_eq!(back.contents[0].size, 0x1234);
    assert_eq!(back.contents[0].hash, [3u8; 20]);
}

#[test]
fn fake_signed_tmd_hashes_to_a_zero_byte() {
    let mut tmd = TitleMetaData::default();
    tmd.signature = [0x55; 0x100];
    tmd.title_version = 3;
    tmd.fake_sign();
    assert!(tmd.signature.iter().all(|&b| b == 0));
    assert_eq!(tmd.title_version, 3);
    let bytes = tmd.encode();
    let hash = sha1_smol::Sha1::from(&bytes[0x140..]).digest().bytes();
    assert_eq!(hash[0], 0);
}

#[test]
fn common_key_zero_is_the_retail_key() {
    assert_eq!(
        common_key(0),
        [0xeb, 0xe4, 0x2a, 0x22, 0x5e, 0x85, 0x93, 0xe4, 0x48, 0xd9, 0xc5, 0x45, 0x73, 0x81, 0xaa, 0xf7]
    );
    assert_eq!(common_key(1), [0u8; 16]);
}

#[test]
fn title_key_is_decrypted_with_the_common_key() {
    let mut t = Ticket::from_bytes(&sample_ticket_bytes());
    t.common_key_index = 0;
    let key = decrypt_title_key(&t);

    let mut iv = [0u8; 16];
    iv[..8].copy_from_slice(&t.title_id);
    let mut block = [0u8; 16];
    block.copy_from_slice(&t.title_key);
    let ck = common_key(0);
    cbc::Decryptor::<aes::Aes128>::new(&ck.into(), &iv.into())
        .decrypt_padded_mut::<NoPadding>(&mut block)
        .unwrap();
    assert_eq!(key.as_array(), &block);
    assert_ne!(&block, &t.title_key);
}
