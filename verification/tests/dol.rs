use geckolib::dol::{patch_instructions, DolError, DolFile, DolHeader, Instruction, Section, DOL_HEADER_SIZE};

fn be(bytes: &[u8], off: usize) -> u32 {
    u32::from_be_bytes([bytes[off], bytes[off + 1], bytes[off + 2], bytes[off + 3]])
}

fn sample() -> DolFile {
    DolFile {
        text_sections: vec![
            Section { address: 0x8000_3100, data: vec![1, 2, 3, 4, 5, 6, 7, 8] },
            Section { address: 0x8000_4000, data: vec![9; 12] },
        ],
        data_sections: vec![Section { address: 0x8010_0000, data: vec![0xAB; 4] }],
        bss_address: 0x8020_0000,
        bss_size: 0x1000,
        entry_point: 0x8000_3154,
    }
}

#[test]
fn empty_header_is_all_zeros() {
    let h = DolHeader::new();
    assert_eq!(h.to_bytes(), vec![0u8; DOL_HEADER_SIZE]);
}

#[test]
fn dol_is_written_header_then_sections() {
    let bytes = sample().to_bytes();
    assert_eq!(bytes.len(), 256 + 8 + 12 + 4);
    // text offsets, then data offsets
    assert_eq!(be(&bytes, 0x00), 256);
    assert_eq!(be(&bytes, 0x04), 264);
    assert_eq!(be(&bytes, 0x08), 0);
    assert_eq!(be(&bytes, 0x1c), 276);
    // addresses and sizes
    assert_eq!(be(&bytes, 0x48), 0x8000_3100);
    assert_eq!(be(&bytes, 0x4c), 0x8000_4000);
    assert_eq!(be(&bytes, 0x64), 0x8010_0000);
    assert_eq!(be(&bytes, 0x90), 8);
    assert_eq!(be(&bytes, 0x94), 12);
    assert_eq!(be(&bytes, 0xac), 4);
    assert_eq!(be(&bytes, 0xd8), 0x8020_0000);
    assert_eq!(be(&bytes, 0xdc), 0x1000);
    assert_eq!(be(&bytes, 0xe0), 0x8000_3154);
    assert!(bytes[0xe4..256].iter().all(|&b| b == 0));
    assert_eq!(&bytes[256..264], &[1, 2, 3, 4, 5, 6, 7, 8]);
    assert_eq!(&bytes[276..280], &[0xAB; 4]);
}

#[test]
fn dol_round_trips_through_its_bytes() {
    let original = sample();
    let parsed = DolFile::parse(&original.to_bytes()).unwrap();
    assert_eq!(parsed.text_sections.len(), 2);
    assert_eq!(parsed.data_sections.len(), 1);
    for (a, b) in parsed.text_sections.iter().zip(original.text_sections.iter()) {
        assert_eq!(a.address, b.address);
        assert_eq!(a.data, b.data);
    }
    assert_eq!(parsed.data_sections[0].address, 0x8010_0000);
    assert_eq!(parsed.data_sections[0].data, vec![0xAB; 4]);
    assert_eq!(parsed.bss_address, 0x8020_0000);
    assert_eq!(parsed.bss_size, 0x1000);
    assert_eq!(parsed.entry_point, 0x8000_3154);
}

#[test]
fn truncated_dol_is_refused() {
    let bytes = sample().to_bytes();
    assert_eq!(DolFile::parse(&bytes[..0x20]).map(|_| ()), Err(DolError::UnexpectedEnd));
    assert_eq!(DolFile::parse(&bytes[..bytes.len() - 1]).map(|_| ()), Err(DolError::UnexpectedEnd));
    assert_eq!(DolFile::parse(&[]).map(|_| ()), Err(DolError::UnexpectedEnd));
}

#[test]
fn empty_dol_parses_to_no_sections() {
    let parsed = DolFile::parse(&[0u8; 256]).unwrap();
    assert!(parsed.text_sections.is_empty());
    assert!(parsed.data_sections.is_empty());
    assert_eq!(parsed.entry_point, 0);
}

#[test]
fn patches_write_big_endian_words() {
    let mut dol = sample();
    let patches = [
        Instruction { address: 0x8000_3104, data: 0x6000_0000 },
        Instruction { address: 0x8010_0000, data: 0x1122_3344 },
    ];
    assert_eq!(dol.patch(&patches), Ok(()));
    assert_eq!(dol.text_sections[0].data, vec![1, 2, 3, 4, 0x60, 0, 0, 0]);
    assert_eq!(dol.data_sections[0].data, vec![0x11, 0x22, 0x33, 0x44]);
    assert_eq!(dol.text_sections[1].data, vec![9; 12]);
}

#[test]
fn patch_outside_every_section_is_refused() {
    let mut dol = sample();
    let patches = [
        Instruction { address: 0x8000_4000, data: 0xDEAD_BEEF },
        Instruction { address: 0x9000_0000, data: 0 },
        Instruction { address: 0x8000_3100, data: 0 },
    ];
    assert_eq!(dol.patch(&patches), Err(DolError::PatchNotApplied));
    // the first patch stays applied, the third is never reached
    assert_eq!(&dol.text_sections[1].data[..4], &[0xDE, 0xAD, 0xBE, 0xEF]);
    assert_eq!(dol.text_sections[0].data, vec![1, 2, 3, 4, 5, 6, 7, 8]);
}

#[test]
fn append_keeps_the_order_of_sections() {
    let mut dol = sample();
    let other = DolFile {
        text_sections: vec![Section { address: 0x8100_0000, data: vec![5; 4] }],
        data_sections: vec![],
        bss_address: 1,
        bss_size: 2,
        entry_point: 3,
    };
    dol.append(other);
    assert_eq!(dol.text_sections.len(), 3);
    assert_eq!(dol.text_sections[2].address, 0x8100_0000);
    assert_eq!(dol.data_sections.len(), 1);
    assert_eq!(dol.entry_point, 0x8000_3154);
    let d = DolFile::default();
    assert!(d.text_sections.is_empty() && d.entry_point == 0);
}

#[test]
fn patched_game_dol_holds_the_linked_sections_and_the_patches() {
    let linked = DolFile {
        text_sections: vec![Section { address: 0x8100_0000, data: vec![7; 4] }],
        data_sections: vec![],
        bss_address: 0,
        bss_size: 0,
        entry_point: 0,
    };
    let patches = [
        Instruction { address: 0x8000_3100, data: 0x4800_0000 },
        Instruction { address: 0x8100_0000, data: 0x0102_0304 },
    ];
    let bytes = patch_instructions(sample(), Some(linked), &patches).unwrap();
    let parsed = DolFile::parse(&bytes).unwrap();
    assert_eq!(parsed.text_sections.len(), 3);
    assert_eq!(parsed.text_sections[0].data, vec![0x48, 0, 0, 0, 5, 6, 7, 8]);
    assert_eq!(parsed.text_sections[2].address, 0x8100_0000);
    assert_eq!(parsed.text_sections[2].data, vec![1, 2, 3, 4]);
    assert_eq!(parsed.entry_point, 0x8000_3154);
    assert_eq!(parsed.bss_size, 0x1000);

    let missing = [Instruction { address: 0x9000_0000, data: 0 }];
    assert_eq!(patch_instructions(sample(), None, &missing), Err(DolError::PatchNotApplied));
}
