use winfsp_fs_skeleton::device::BlockSource;
use winfsp_fs_skeleton::partition::{
    classify_gpt_guid, decode_utf16le, format_guid, has_gpt_protective, list_from_source,
    parse_gpt_entries, parse_gpt_header, parse_mbr, GptHeader, Partition, PartitionError,
    GPT_SIG, GUID_EFI_SYSTEM, GUID_LINUX_FS, GUID_LINUX_SWAP, GUID_MS_BASIC, MBR_PART_OFF, SECTOR,
};

/// A disk image in memory. Reads beyond its end fail, as on a short file.
struct Image(Vec<u8>);

impl BlockSource for Image {
    fn read_at(&self, offset: u64, buf: &mut [u8]) -> std::io::Result<()> {
        let end = offset.checked_add(buf.len() as u64);
        match end {
            Some(end) if end <= self.0.len() as u64 => {
                buf.copy_from_slice(&self.0[offset as usize..end as usize]);
                Ok(())
            }
            _ => Err(std::io::Error::new(
                std::io::ErrorKind::UnexpectedEof,
                "image too short",
            )),
        }
    }

    fn size(&self) -> u64 {
        self.0.len() as u64
    }
}

fn list(image: &[u8]) -> Result<Vec<Partition>, PartitionError> {
    list_from_source(&Image(image.to_vec()))
}

fn build_mbr_with(parts: &[(u8, u32, u32)]) -> [u8; 512] {
    let mut mbr = [0u8; 512];
    mbr[510] = 0x55;
    mbr[511] = 0xAA;
    for (i, &(kind, lba, len)) in parts.iter().enumerate() {
        let off = MBR_PART_OFF + i * 16;
        mbr[off + 4] = kind;
        mbr[off + 8..off + 12].copy_from_slice(&lba.to_le_bytes());
        mbr[off + 12..off + 16].copy_from_slice(&len.to_le_bytes());
    }
    mbr
}

#[test]
fn rejects_missing_signature() {
    let err = list(&[0u8; 1024]).unwrap_err();
    assert!(err.to_string().contains("no MBR signature"));
    assert!(matches!(err, PartitionError::NoMbrSignature));
}

#[test]
fn parses_plain_mbr() {
    let mbr = build_mbr_with(&[(0x83, 2048, 1_000_000), (0x07, 1_002_048, 500_000)]);
    let parts = list(&mbr).unwrap();
    assert_eq!(parts.len(), 2);
    assert_eq!(parts[0].start_lba, 2048);
    assert_eq!(parts[0].num_sectors, 1_000_000);
    assert_eq!(parts[0].kind, "MBR:0x83");
    assert_eq!(parts[1].kind, "MBR:0x07");
}

#[test]
fn skips_empty_mbr_slots() {
    let mbr = build_mbr_with(&[(0x83, 2048, 1000)]);
    let parts = list(&mbr).unwrap();
    assert_eq!(parts.len(), 1);
}

/// LBA 0: protective MBR (0xEE entry). LBA 1: GPT header. LBA 2..: the
/// partition entry array, with room for three entries.
fn build_gpt() -> Vec<u8> {
    let mut img = vec![0u8; SECTOR as usize * 64];

    // Protective MBR.
    img[510] = 0x55;
    img[511] = 0xAA;
    img[MBR_PART_OFF + 4] = 0xEE;
    let total_sectors = (img.len() / 512) as u32 - 1;
    img[MBR_PART_OFF + 8..MBR_PART_OFF + 12].copy_from_slice(&1u32.to_le_bytes());
    img[MBR_PART_OFF + 12..MBR_PART_OFF + 16].copy_from_slice(&total_sectors.to_le_bytes());

    // GPT header.
    let hdr_off = SECTOR as usize;
    img[hdr_off..hdr_off + 8].copy_from_slice(&GPT_SIG);
    img[hdr_off + 12..hdr_off + 16].copy_from_slice(&92u32.to_le_bytes()); // header size
    img[hdr_off + 72..hdr_off + 80].copy_from_slice(&2u64.to_le_bytes()); // entry array LBA
    img[hdr_off + 80..hdr_off + 84].copy_from_slice(&3u32.to_le_bytes()); // n entries
    img[hdr_off + 84..hdr_off + 88].copy_from_slice(&128u32.to_le_bytes()); // entry size

    // Entries: [linux fs, EFI system, empty]
    let arr_off = SECTOR as usize * 2;
    // Entry 0: Linux fs at LBA 2048..=4047 (2000 sectors).
    img[arr_off..arr_off + 16].copy_from_slice(&GUID_LINUX_FS);
    img[arr_off + 32..arr_off + 40].copy_from_slice(&2048u64.to_le_bytes());
    img[arr_off + 40..arr_off + 48].copy_from_slice(&4047u64.to_le_bytes());
    // Name "rootfs" UTF-16LE.
    for (i, c) in "rootfs".encode_utf16().enumerate() {
        img[arr_off + 56 + i * 2..arr_off + 56 + i * 2 + 2].copy_from_slice(&c.to_le_bytes());
    }

    // Entry 1: EFI system at LBA 4048..=5047.
    let e1 = arr_off + 128;
    img[e1..e1 + 16].copy_from_slice(&GUID_EFI_SYSTEM);
    img[e1 + 32..e1 + 40].copy_from_slice(&4048u64.to_le_bytes());
    img[e1 + 40..e1 + 48].copy_from_slice(&5047u64.to_le_bytes());
    img
}

#[test]
fn parses_gpt() {
    let parts = list(&build_gpt()).unwrap();
    assert_eq!(parts.len(), 2, "got {parts:?}");
    assert_eq!(parts[0].kind, "GPT:linux");
    assert_eq!(parts[0].start_lba, 2048);
    assert_eq!(parts[0].num_sectors, 2000);
    assert_eq!(parts[0].name.as_deref(), Some("rootfs"));
    assert_eq!(parts[1].kind, "GPT:efi");
    assert_eq!(parts[1].start_lba, 4048);
    assert_eq!(parts[1].num_sectors, 1000);
}

#[test]
fn unknown_gpt_guid_falls_back_to_hex() {
    let g = [
        0x11, 0x22, 0x33, 0x44, 0x55, 0x66, 0x77, 0x88, 0x99, 0xAA, 0xBB, 0xCC, 0xDD, 0xEE, 0xFF,
        0x00,
    ];
    let s = classify_gpt_guid(&g);
    assert!(s.starts_with("GPT:"));
    assert!(s.contains('-'));
    assert_eq!(s, "GPT:44332211-6655-8877-99AA-BBCCDDEEFF00");
}

#[test]
fn known_types_are_named() {
    assert_eq!(classify_gpt_guid(&GUID_LINUX_FS), "GPT:linux");
    assert_eq!(classify_gpt_guid(&GUID_EFI_SYSTEM), "GPT:efi");
    assert_eq!(classify_gpt_guid(&GUID_MS_BASIC), "GPT:msbasic");
    assert_eq!(classify_gpt_guid(&GUID_LINUX_SWAP), "GPT:swap");
}

#[test]
fn guids_are_written_mixed_endian() {
    assert_eq!(format_guid(&GUID_LINUX_FS), "0FC63DAF-8483-4772-8E79-3D69D8477DE4");
    assert_eq!(format_guid(&GUID_EFI_SYSTEM), "C12A7328-F81F-11D2-BA4B-00A0C93EC93B");
    assert_eq!(format_guid(&GUID_MS_BASIC), "EBD0A0A2-B9E5-4433-87C0-68B6B72699C7");
    assert_eq!(format_guid(&GUID_LINUX_SWAP), "0657FD6D-A4AB-43C4-84E5-0933C84B4F4F");
}

#[test]
fn mbr_slots_need_a_type_and_a_length() {
    let mbr = build_mbr_with(&[(0x83, 1, 0), (0, 2, 5), (0xab, 3, 7), (0x0c, u32::MAX, u32::MAX)]);
    let parts = parse_mbr(&mbr);
    assert_eq!(
        parts,
        vec![
            Partition { start_lba: 3, num_sectors: 7, kind: "MBR:0xab".into(), name: None },
            Partition {
                start_lba: u32::MAX as u64,
                num_sectors: u32::MAX as u64,
                kind: "MBR:0x0c".into(),
                name: None,
            },
        ]
    );
}

#[test]
fn any_slot_can_be_protective() {
    assert!(!has_gpt_protective(&build_mbr_with(&[(0x83, 1, 1)])));
    assert!(has_gpt_protective(&build_mbr_with(&[(0x83, 1, 1), (0, 0, 0), (0, 0, 0), (0xEE, 0, 0)])));
}

#[test]
fn a_disk_without_a_whole_first_sector_cannot_be_read() {
    let err = list(&[0u8; 511]).unwrap_err();
    assert!(matches!(err, PartitionError::ReadMbr(_)));
    assert_eq!(err.chain_text(), "reading MBR sector: image too short");
}

#[test]
fn a_missing_gpt_header_is_a_read_error() {
    let err = list(&build_mbr_with(&[(0xEE, 1, 1)])).unwrap_err();
    assert!(matches!(err, PartitionError::ReadGptHeader(_)));
    assert_eq!(err.chain_text(), "parsing GPT: reading GPT header sector: image too short");
}

#[test]
fn a_missing_gpt_array_is_a_read_error() {
    let mut img = build_gpt();
    img[512 + 72..512 + 80].copy_from_slice(&64u64.to_le_bytes());
    let err = list(&img).unwrap_err();
    assert!(matches!(err, PartitionError::ReadGptEntries(_)));
    assert_eq!(err.chain_text(), "parsing GPT: reading GPT entries: image too short");
}

#[test]
fn gpt_header_checks_come_in_order() {
    let good = build_gpt();
    let with = |edits: &[(usize, u32)]| {
        let mut img = good.clone();
        for &(at, v) in edits {
            img[512 + at..512 + at + 4].copy_from_slice(&v.to_le_bytes());
        }
        list(&img).unwrap_err()
    };
    let err = with(&[(0, 0), (12, 0), (80, 5000), (84, 1)]);
    assert!(matches!(err, PartitionError::GptSignatureMissing));
    assert_eq!(
        err.chain_text(),
        "parsing GPT: GPT header signature missing (expected \"EFI PART\")"
    );
    let err = with(&[(12, 91), (80, 5000), (84, 1)]);
    assert!(matches!(err, PartitionError::GptHeaderSize(91)));
    assert_eq!(err.chain_text(), "parsing GPT: implausible GPT header size: 91");
    assert!(matches!(with(&[(12, 513)]), PartitionError::GptHeaderSize(513)));
    let err = with(&[(80, 5000), (84, 127)]);
    assert!(matches!(err, PartitionError::GptEntrySize(127)));
    assert_eq!(err.chain_text(), "parsing GPT: implausible GPT entry size: 127");
    assert!(matches!(with(&[(84, 4097)]), PartitionError::GptEntrySize(4097)));
    let err = with(&[(80, 4097)]);
    assert!(matches!(err, PartitionError::GptEntryCount(4097)));
    assert_eq!(err.chain_text(), "parsing GPT: implausible GPT entry count: 4097");
}

#[test]
fn a_gpt_array_beyond_64_bit_addresses_is_refused() {
    let mut img = build_gpt();
    img[512 + 72..512 + 80].copy_from_slice(&(1u64 << 55).to_le_bytes());
    let err = list(&img).unwrap_err();
    assert!(matches!(err, PartitionError::GptEntryArrayLba(n) if n == 1 << 55));
    assert_eq!(
        err.chain_text(),
        "parsing GPT: implausible GPT entry array LBA: 36028797018963968"
    );
}

#[test]
fn a_gpt_header_is_read_field_by_field() {
    let mut hdr = [0u8; 512];
    hdr.copy_from_slice(&build_gpt()[512..1024]);
    hdr[12..16].copy_from_slice(&512u32.to_le_bytes());
    hdr[72..80].copy_from_slice(&0x0102_0304_0506_0708u64.to_le_bytes());
    hdr[80..84].copy_from_slice(&4096u32.to_le_bytes());
    hdr[84..88].copy_from_slice(&4096u32.to_le_bytes());
    assert_eq!(
        parse_gpt_header(&hdr).unwrap(),
        GptHeader { part_array_lba: 0x0102_0304_0506_0708, n_entries: 4096, entry_size: 4096 }
    );
}

fn one_entry(start: u64, end: u64, name: &[u16]) -> (Vec<u8>, GptHeader) {
    let mut e = vec![0u8; 128];
    e[0] = 1;
    e[32..40].copy_from_slice(&start.to_le_bytes());
    e[40..48].copy_from_slice(&end.to_le_bytes());
    for (i, u) in name.iter().enumerate() {
        e[56 + 2 * i..58 + 2 * i].copy_from_slice(&u.to_le_bytes());
    }
    (e, GptHeader { part_array_lba: 2, n_entries: 1, entry_size: 128 })
}

#[test]
fn gpt_entries_that_end_before_they_start_are_skipped() {
    let (e, h) = one_entry(10, 9, &[]);
    assert_eq!(parse_gpt_entries(&e, h).unwrap(), vec![]);
    let (e, h) = one_entry(10, 10, &[]);
    assert_eq!(
        parse_gpt_entries(&e, h).unwrap(),
        vec![Partition {
            start_lba: 10,
            num_sectors: 1,
            kind: "GPT:00000001-0000-0000-0000-000000000000".into(),
            name: None,
        }]
    );
}

#[test]
fn a_gpt_entry_over_all_sectors_is_refused() {
    let (e, h) = one_entry(0, u64::MAX, &[]);
    let err = parse_gpt_entries(&e, h).unwrap_err();
    assert!(matches!(err, PartitionError::GptPartitionLength));
    assert_eq!(err.chain_text(), "parsing GPT: implausible GPT partition length");
    let (e, h) = one_entry(1, u64::MAX, &[]);
    assert_eq!(parse_gpt_entries(&e, h).unwrap()[0].num_sectors, u64::MAX);
}

#[test]
fn gpt_names_fill_their_field_or_end_at_a_nul() {
    let full: Vec<u16> = (0..36).map(|i| 0x41 + (i % 26) as u16).collect();
    let (e, h) = one_entry(1, 1, &full);
    let name = parse_gpt_entries(&e, h).unwrap().remove(0).name.unwrap();
    assert_eq!(name, "ABCDEFGHIJKLMNOPQRSTUVWXYZABCDEFGHIJ");
    let (e, h) = one_entry(1, 1, &[0x41, 0, 0x42]);
    assert_eq!(parse_gpt_entries(&e, h).unwrap()[0].name.as_deref(), Some("A"));
    let (e, h) = one_entry(1, 1, &[0, 0x42]);
    assert_eq!(parse_gpt_entries(&e, h).unwrap()[0].name, None);
}

#[test]
fn names_are_decoded_as_utf16le() {
    assert_eq!(decode_utf16le(&[0xfc, 0x00, 0xac, 0x20, 0x7a]), "\u{fc}\u{20ac}");
    assert_eq!(decode_utf16le(&[0x3d, 0xd8, 0x00, 0xde]), "\u{1F600}");
    assert_eq!(decode_utf16le(&[0x61, 0, 0x3d, 0xd8, 0x00, 0xde, 0x62, 0]), "a\u{1F600}b");
    assert_eq!(decode_utf16le(&[]), "");
    let (e, h) = one_entry(1, 1, &[0xd83d, 0xde00]);
    assert_eq!(parse_gpt_entries(&e, h).unwrap()[0].name.as_deref(), Some("\u{1F600}"));
}

#[test]
fn unpaired_surrogates_in_names_are_left_out() {
    assert_eq!(decode_utf16le(&[0x61, 0, 0x3d, 0xd8, 0x62, 0, 0x00, 0xde]), "ab");
    let (e, h) = one_entry(1, 1, &[0xd83d]);
    assert_eq!(parse_gpt_entries(&e, h).unwrap()[0].name, None);
}

/// A disk whose first sector reads, and nothing behind it; every other read fails
/// with misleading words.
struct Misleading([u8; 512]);

impl BlockSource for Misleading {
    fn read_at(&self, offset: u64, buf: &mut [u8]) -> std::io::Result<()> {
        if offset == 0 {
            buf.copy_from_slice(&self.0);
            return Ok(());
        }
        Err(std::io::Error::new(std::io::ErrorKind::Other, "no MBR signature"))
    }

    fn size(&self) -> u64 {
        512
    }
}

#[test]
fn only_a_missing_signature_is_called_one() {
    let err = list_from_source(&Misleading(build_mbr_with(&[(0xee, 1, 1)]))).unwrap_err();
    assert!(matches!(err, PartitionError::ReadGptHeader(_)));
    assert_eq!(err.to_string(), "parsing GPT");
    assert_eq!(
        err.chain_text(),
        "parsing GPT: reading GPT header sector: no MBR signature"
    );
    let err = list_from_source(&Misleading([0; 512])).unwrap_err();
    assert_eq!(
        err.to_string(),
        "no MBR signature at offset 510 \u{2014} not a partitioned device"
    );
    assert_eq!(err.chain_text(), err.to_string());
    assert_eq!(err.detail_text(), None);
}

#[test]
fn the_text_of_an_error_is_its_outermost_words() {
    let err = list(&[0; 100]).unwrap_err();
    assert_eq!(err.to_string(), "reading MBR sector");
    assert_eq!(err.detail_text().as_deref(), Some("image too short"));
    for err in [
        PartitionError::GptSignatureMissing,
        PartitionError::GptHeaderSize(91),
        PartitionError::GptEntrySize(127),
        PartitionError::GptEntryCount(4097),
        PartitionError::GptEntryArrayLba(u64::MAX),
        PartitionError::GptPartitionLength,
    ] {
        assert_eq!(err.to_string(), "parsing GPT");
        assert_eq!(
            err.chain_text(),
            format!("parsing GPT: {}", err.detail_text().unwrap())
        );
    }
}

#[test]
fn the_same_image_lists_the_same() {
    let img = build_gpt();
    assert_eq!(list(&img).unwrap(), list(&img).unwrap());
}
