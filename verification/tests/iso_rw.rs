use aes::cipher::block_padding::NoPadding;
use aes::cipher::{BlockDecryptMut, BlockEncryptMut, KeyIvInit};
use geckolib::crypto::aes::WiiCryptoError;
use geckolib::crypto::keys::AesKey;
use geckolib::iso::disc::{
    disc_get_part_info, disc_set_part_info, PartHeader, PartInfo, PartInfoEntry, PartitionType, Ticket,
    TitleMetaData, TMDContent, WiiDiscHeader, WiiDiscRegion, WiiPartition, WiiPartitions,
};
use geckolib::iso::read::{copy_decrypted, decrypt_sector, plan_read, read_decrypted, seek_cursor, SeekPos};
use geckolib::iso::write::{
    cache_in_group, close_plan, disc_preamble, encrypt_sector, encrypt_sectors, h3_table, hash_group, write_step,
    GROUP_DATA_SIZE, GROUP_SIZE,
};

const KEY: [u8; 16] = [7, 1, 2, 3, 4, 5, 6, 7, 8, 9, 10, 11, 12, 13, 14, 15];

fn cbc_decrypt(key: &[u8; 16], iv: &[u8; 16], data: &mut [u8]) {
    cbc::Decryptor::<aes::Aes128>::new(key.into(), iv.into()).decrypt_padded_mut::<NoPadding>(data).unwrap();
}

fn cbc_encrypt(key: &[u8; 16], iv: &[u8; 16], data: &mut [u8]) {
    let len = data.len();
    cbc::Encryptor::<aes::Aes128>::new(key.into(), iv.into()).encrypt_padded_mut::<NoPadding>(data, len).unwrap();
}

fn sha1(data: &[u8]) -> [u8; 20] {
    sha1_smol::Sha1::from(data).digest().bytes()
}

fn sample_sector(seed: u8) -> Vec<u8> {
    (0..0x8000usize).map(|i| (i as u8).wrapping_mul(31).wrapping_add(seed)).collect()
}

fn header() -> PartHeader {
    PartHeader {
        ticket: Ticket::default(),
        tmd_size: 0,
        tmd_offset: 0,
        cert_size: 0x100,
        cert_offset: 0,
        h3_offset: 0,
        data_offset: 0,
        data_size: 0x1234,
    }
}

#[test]
fn partition_table_reads_back_what_was_written() {
    let mut buf = vec![0u8; 0x40100];
    let pi = PartInfo {
        offset: 0x40020,
        entries: vec![
            PartInfoEntry { part_type: 1, offset: 0x50000 },
            PartInfoEntry { part_type: 0, offset: 0xF80_0000 },
        ],
    };
    disc_set_part_info(&mut buf, &pi);
    let back = disc_get_part_info(&buf);
    assert_eq!(back.offset, pi.offset);
    assert_eq!(back.entries, pi.entries);
}

#[test]
fn game_partition_is_the_first_data_partition() {
    let mut buf = vec![0u8; 0x2C0 + 0x1E4];
    buf[0x2A4..0x2A8].copy_from_slice(&0x1E4u32.to_be_bytes());
    buf[0x2A8..0x2AC].copy_from_slice(&(0x2C0u32 / 4).to_be_bytes());
    let update = WiiPartition::read(&PartInfoEntry { part_type: 1, offset: 0x50000 }, &buf, vec![1, 2]);
    assert_eq!(update.part_type, PartitionType::Update);
    assert_eq!(update.part_offset, 0x50000);
    assert_eq!(update.header.tmd_size, 0x1E4);
    assert_eq!(update.header.tmd_offset, 0x2C0);
    assert_eq!(update.cert, vec![1, 2]);
    let data = WiiPartition::read(&PartInfoEntry { part_type: 0, offset: 0xF80_0000 }, &buf, vec![]);
    let info = PartInfo { offset: 0x40020, entries: vec![] };
    let parts = WiiPartitions::from_partitions(info.clone(), vec![update.clone(), data.clone(), data]).unwrap();
    assert_eq!(parts.data_idx, 1);
    assert_eq!(parts.partitions.len(), 3);
    assert!(matches!(
        WiiPartitions::from_partitions(info, vec![update]),
        Err(WiiCryptoError::NoGamePartition)
    ));
}

#[test]
fn sectors_decrypt_with_the_iv_of_their_hash_block() {
    let sector = sample_sector(3);
    let mut dec = sector.clone();
    decrypt_sector(&mut dec, &AesKey::from_array(KEY));
    let mut hash = sector[..0x400].to_vec();
    cbc_decrypt(&KEY, &[0u8; 16], &mut hash);
    let mut iv = [0u8; 16];
    iv.copy_from_slice(&sector[0x3D0..0x3E0]);
    let mut data = sector[0x400..].to_vec();
    cbc_decrypt(&KEY, &iv, &mut data);
    assert_eq!(&dec[..0x400], &hash[..]);
    assert_eq!(&dec[0x400..], &data[..]);
}

#[test]
fn encrypted_sectors_decrypt_back() {
    let plain = sample_sector(9);
    let mut enc = plain.clone();
    let key = AesKey::from_array(KEY);
    encrypt_sector(&mut enc, &key);
    let mut hash = plain[..0x400].to_vec();
    cbc_encrypt(&KEY, &[0u8; 16], &mut hash);
    assert_eq!(&enc[..0x400], &hash[..]);
    let mut dec = enc.clone();
    decrypt_sector(&mut dec, &key);
    assert_eq!(dec, plain);
    let mut run = [sample_sector(1), sample_sector(2)].concat();
    let orig = run.clone();
    encrypt_sectors(&mut run, &key);
    assert_ne!(run, orig);
    for k in 0..2 {
        let mut s = run[k * 0x8000..(k + 1) * 0x8000].to_vec();
        decrypt_sector(&mut s, &key);
        assert_eq!(&s[..], &orig[k * 0x8000..(k + 1) * 0x8000]);
    }
}

#[test]
fn reads_are_planned_by_sector() {
    assert_eq!(plan_read(0, 0, 0x10000, 0x50000, 0x20000), None);
    assert_eq!(plan_read(0x10000, 4, 0x10000, 0x50000, 0x20000), None);
    let p = plan_read(0x7BF0, 0x20, 0x10000, 0x50000, 0x20000).unwrap();
    assert_eq!(p.read_size, 0x20);
    assert_eq!(p.start_blk, 0);
    assert_eq!(p.end_blk, 1);
    assert_eq!(p.seek_addr, 0x70000);
    let q = plan_read(0xFFF0, 0x100, 0x10000, 0x50000, 0x20000).unwrap();
    assert_eq!(q.read_size, 0x10);
    assert_eq!(q.start_blk, 2);
    assert_eq!(q.seek_addr, 0x70000 + 2 * 0x8000);
}

#[test]
fn reads_give_the_decrypted_data_at_the_cursor() {
    let key = AesKey::from_array(KEY);
    // two plain sectors whose data are 0..0x7C00 and 0x7C00..0xF800 (mod 251)
    let mut plain = Vec::new();
    for k in 0..2usize {
        let mut s = sample_sector(k as u8);
        for i in 0..0x7C00usize {
            s[0x400 + i] = ((k * 0x7C00 + i) % 251) as u8;
        }
        plain.push(s);
    }
    let mut run = Vec::new();
    for s in &plain {
        let mut e = s.clone();
        encrypt_sector(&mut e, &key);
        run.extend_from_slice(&e);
    }
    // read 0x20 bytes across the boundary, into a longer buffer
    let mut buf = vec![0xEEu8; 0x30];
    read_decrypted(&mut run.clone(), &key, 0x7BF0, 0x20, &mut buf);
    for j in 0..0x20usize {
        assert_eq!(buf[j], ((0x7BF0 + j) % 251) as u8);
    }
    assert!(buf[0x20..].iter().all(|&b| b == 0xEE));
    // copying out of already decrypted sectors
    let decrypted = plain.concat();
    let mut out = vec![0u8; 4];
    copy_decrypted(&decrypted[0x8000..], 1, 0x7C02, 4, &mut out);
    assert_eq!(out, vec![(0x7C02 % 251) as u8, (0x7C03 % 251) as u8, (0x7C04 % 251) as u8, (0x7C05 % 251) as u8]);
}

#[test]
fn seeks_stay_within_the_data() {
    assert_eq!(seek_cursor(5, SeekPos::Start(10), 100), Some(10));
    assert_eq!(seek_cursor(5, SeekPos::Start(101), 100), None);
    assert_eq!(seek_cursor(50, SeekPos::Current(-50), 100), Some(0));
    assert_eq!(seek_cursor(50, SeekPos::Current(-51), 100), None);
    assert_eq!(seek_cursor(50, SeekPos::Current(50), 100), Some(100));
    assert_eq!(seek_cursor(50, SeekPos::Current(51), 100), None);
    // a seek from the end is checked against the cursor
    assert_eq!(seek_cursor(50, SeekPos::End(-10), 100), Some(90));
    assert_eq!(seek_cursor(5, SeekPos::End(-10), 100), None);
}

#[test]
fn preamble_holds_the_system_area() {
    let h = WiiDiscHeader::default();
    let mut region = WiiDiscRegion::default();
    region.region = 2;
    let out = disc_preamble(&h, &region, 0);
    assert_eq!(out.len(), 0x50000);
    assert_eq!(&out[0x40000..0x40008], &[0, 0, 0, 1, 0, 1, 0, 8]);
    assert_eq!(&out[0x40020..0x40028], &[0, 1, 0x40, 0, 0, 0, 0, 0]);
    assert_eq!(&out[0x4E000..0x4E004], &[0, 0, 0, 2]);
    assert_eq!(&out[0x4FFFC..], &[0xC3, 0xF8, 0x1A, 0x8E]);
    assert!(out[0x62..0x40000].iter().all(|&b| b == 0));
}

#[test]
fn partition_is_laid_out_before_its_data() {
    let mut part = WiiPartition {
        part_type: PartitionType::Data,
        part_offset: 0,
        header: header(),
        tmd: TitleMetaData::default(),
        cert: vec![0xCE; 0x100],
    };
    part.lay_out();
    assert_eq!(part.part_offset, 0x50000);
    assert_eq!(part.tmd.contents.len(), 1);
    assert_eq!(part.tmd.contents[0].size, 0x1E0000);
    assert_eq!(part.header.data_size, 0);
    assert_eq!(part.header.tmd_size, 0x1E4 + 36);
    assert_eq!(part.header.tmd_offset, 0x2C0);
    assert_eq!(part.header.cert_offset, 0x2C0 + 0x1E4 + 36);
    assert_eq!(part.header.h3_offset, 0x8000);
    assert_eq!(part.header.data_offset, 0x20000);
    let start = part.start_bytes();
    assert_eq!(start.len(), 0x20000);
    assert_eq!(&start[..0x2C0], &part.header.to_bytes()[..]);
    let cert_at = part.header.cert_offset as usize;
    assert_eq!(&start[cert_at..cert_at + 0x100], &[0xCE; 0x100][..]);
    assert!(start[cert_at + 0x100..].iter().all(|&b| b == 0));
}

#[test]
fn h3_table_and_fake_signed_header() {
    let hashes = [[1u8; 20], [2u8; 20]];
    let h3 = h3_table(&hashes);
    assert_eq!(h3.len(), 0x18000);
    assert_eq!(&h3[..20], &[1u8; 20]);
    assert_eq!(&h3[20..40], &[2u8; 20]);
    assert!(h3[40..].iter().all(|&b| b == 0));

    let mut part = WiiPartition {
        part_type: PartitionType::Data,
        part_offset: 0,
        header: header(),
        tmd: TitleMetaData::default(),
        cert: vec![0; 0x100],
    };
    part.lay_out();
    let buf = part.prepare_header(&hashes);
    assert_eq!(part.tmd.contents[0].hash, sha1(&h3));
    assert_eq!(buf.len(), 0x8000 + 0x18000);
    assert_eq!(&buf[..0x2C0], &part.header.to_bytes()[..]);
    assert_eq!(&buf[0x2C0..0x2C0 + 0x1E4 + 36], &part.tmd.encode()[..]);
    assert_eq!(&buf[0x8000..], &h3[..]);
    // both the TMD and the ticket hash to a zero byte
    assert_eq!(sha1(&part.tmd.encode()[0x140..])[0], 0);
    assert_eq!(sha1(&part.header.ticket.to_bytes()[0x140..])[0], 0);
}

#[test]
fn data_is_cached_in_its_group() {
    let mut group = vec![0u8; GROUP_SIZE as usize];
    let data: Vec<u8> = (1..=0x20u8).collect();
    let taken = cache_in_group(&mut group, 0, 0x7BF0, &data);
    assert_eq!(taken, 0x20);
    assert_eq!(&group[0x400 + 0x7BF0..0x8000], &data[..0x10]);
    assert_eq!(&group[0x8000 + 0x400..0x8000 + 0x410], &data[0x10..]);
    // only what the group holds is taken
    let mut group2 = vec![0u8; GROUP_SIZE as usize];
    let taken = cache_in_group(&mut group2, 1, 0x1F0000 * 2 - 4, &data);
    assert_eq!(taken, 4);
    assert_eq!(&group2[63 * 0x8000 + 0x400 + 0x7BFC..64 * 0x8000], &data[..4]);
}

#[test]
fn close_plan_rounds_up_to_whole_groups() {
    let p = close_plan(0x7C00);
    assert_eq!(p.data_size, 0x200000);
    assert_eq!(p.n_group, 1);
    assert_eq!(p.group_idx, 0);
    assert!(p.last_group_partial);
    let q = close_plan(0x1F0000);
    assert_eq!(q.data_size, 0x400000);
    assert_eq!(q.n_group, 2);
    assert_eq!(q.group_idx, 1);
    assert!(!q.last_group_partial);
}

#[test]
fn group_hash_tree() {
    let mut group: Vec<u8> = (0..GROUP_SIZE as usize).map(|i| (i % 253) as u8).collect();
    let orig = group.clone();
    let h3 = hash_group(&mut group);
    // H0 of sector 5, chunk 3
    let s = 5 * 0x8000;
    assert_eq!(&group[s + 60..s + 80], &sha1(&orig[s + 0x400 + 3 * 0x400..s + 0x400 + 4 * 0x400]));
    // H1 of subgroup 0: hashes of the H0 tables of sectors 0..8
    let h1: Vec<u8> = (0..8).flat_map(|j| sha1(&group[j * 0x8000..j * 0x8000 + 0x26C])).collect();
    assert_eq!(&group[0x280..0x320], &h1[..]);
    assert_eq!(&group[7 * 0x8000 + 0x280..7 * 0x8000 + 0x320], &h1[..]);
    // H2: hashes of the H1 tables of the subgroups
    let h2: Vec<u8> = (0..8).flat_map(|i| sha1(&group[i * 8 * 0x8000 + 0x280..i * 8 * 0x8000 + 0x320])).collect();
    assert_eq!(&group[63 * 0x8000 + 0x340..63 * 0x8000 + 0x3E0], &h2[..]);
    assert_eq!(h3, sha1(&h2));
    // data and padding are kept
    assert_eq!(&group[0x400..0x8000], &orig[0x400..0x8000]);
    assert_eq!(&group[0x26C..0x280], &orig[0x26C..0x280]);
    assert_eq!(&group[0x3E0..0x400], &orig[0x3E0..0x400]);
}

#[test]
fn tmd_content_defaults() {
    let c = TMDContent { content_id: 1, index: 0, content_type: 1, size: 5, hash: [0; 20] };
    assert_eq!(c.size, 5);
}

#[test]
fn a_write_that_fills_a_group_hands_it_out_hashed_and_encrypted() {
    let key = AesKey::from_array(KEY);
    let mut group = vec![0u8; GROUP_SIZE as usize];
    let mut idx = 0u64;
    let mut cursor = GROUP_DATA_SIZE - 10;
    let data = [0x5Au8; 20];
    let (taken, filled) = write_step(&mut group, &mut idx, &mut cursor, &data, &key);
    assert_eq!(taken, 10);
    assert_eq!(idx, 1);
    assert_eq!(cursor, GROUP_DATA_SIZE);
    assert!(group.iter().all(|b| *b == 0));
    let f = filled.expect("the group is full");
    let mut expected = vec![0u8; GROUP_SIZE as usize];
    let n = cache_in_group(&mut expected, 0, GROUP_DATA_SIZE - 10, &data);
    assert_eq!(n, 10);
    let hash = hash_group(&mut expected);
    encrypt_sectors(&mut expected, &key);
    assert_eq!(f.hash, hash);
    assert_eq!(f.sectors, expected);
    let (taken, filled) = write_step(&mut group, &mut idx, &mut cursor, &data[10..], &key);
    assert_eq!(taken, 10);
    assert!(filled.is_none());
    assert_eq!(idx, 1);
    assert_eq!(cursor, GROUP_DATA_SIZE + 10);
}
