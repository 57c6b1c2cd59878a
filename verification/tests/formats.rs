use std::io::Write;

use vitadecompiler::elf::{
    is_elf, is_self, load_binary_from_bytes, load_segment, parse_self_header, ElfError, ElfPhdr,
    LoadedBinary,
};
use vitadecompiler::relocate::{is_short, read_u32_le, relocate, relocate_binary};
use vitadecompiler::yaml_db::{parse_nid, DbFunctionEntry, YamlDb};

fn put16(b: &mut [u8], off: usize, v: u16) {
    b[off..off + 2].copy_from_slice(&v.to_le_bytes());
}

fn put32(b: &mut [u8], off: usize, v: u32) {
    b[off..off + 4].copy_from_slice(&v.to_le_bytes());
}

/// A little 32-bit ARM ELF with `phnum` loadable segments: the text (8
/// bytes in the file, 16 in memory) and the data (4 bytes).
fn tiny_elf(phnum: u16) -> Vec<u8> {
    let mut b = vec![0u8; 0xA0];
    b[0..4].copy_from_slice(&[0x7f, b'E', b'L', b'F']);
    b[4] = 1;
    b[5] = 1;
    b[6] = 1;
    put16(&mut b, 16, 2);
    put16(&mut b, 18, 40);
    put32(&mut b, 20, 1);
    put32(&mut b, 24, 0x8100_0001);
    put32(&mut b, 28, 52);
    put16(&mut b, 40, 52);
    put16(&mut b, 42, 32);
    put16(&mut b, 44, phnum);
    put16(&mut b, 46, 40);
    // text
    put32(&mut b, 52, 1);
    put32(&mut b, 56, 0x80);
    put32(&mut b, 60, 0x8100_0000);
    put32(&mut b, 64, 0x8100_0000);
    put32(&mut b, 68, 8);
    put32(&mut b, 72, 16);
    // data
    put32(&mut b, 84, 1);
    put32(&mut b, 88, 0x90);
    put32(&mut b, 92, 0x8101_0000);
    put32(&mut b, 96, 0x8101_0000);
    put32(&mut b, 100, 4);
    put32(&mut b, 104, 4);
    b[0x80..0x88].copy_from_slice(&[1, 2, 3, 4, 5, 6, 7, 8]);
    b[0x90..0x94].copy_from_slice(&[0xAA, 0xBB, 0xCC, 0xDD]);
    b
}

fn phdr(p_type: u32, p_offset: u32, p_vaddr: u32, p_filesz: u32, p_memsz: u32) -> ElfPhdr {
    ElfPhdr { p_type, p_offset, p_vaddr, p_filesz, p_memsz }
}

#[test]
fn magic_checks() {
    assert!(is_elf(&tiny_elf(2)));
    assert!(!is_elf(b"\x7fELF"));
    assert!(!is_elf(b"hello world"));
    assert!(is_self(b"SCE\0rest"));
    assert!(!is_self(b"SCE"));
    assert!(!is_self(&tiny_elf(2)));
}

#[test]
fn self_header_fields() {
    let mut b = vec![0u8; 0x1000];
    b[0..4].copy_from_slice(b"SCE\0");
    b[0x40..0x48].copy_from_slice(&0x1234u64.to_le_bytes());
    b[0x48..0x50].copy_from_slice(&0x5678u64.to_le_bytes());
    b[0x58..0x60].copy_from_slice(&0x9ABCu64.to_le_bytes());
    let h = parse_self_header(&b).unwrap();
    assert_eq!(h.elf_offset, 0x1234);
    assert_eq!(h.phdr_offset, 0x5678);
    assert_eq!(h.section_info_offset, 0x9ABC);
    assert!(matches!(parse_self_header(&b[..0xFFF]), Err(ElfError::SelfTooSmall)));
}

#[test]
fn loads_a_plain_elf() {
    let l = load_binary_from_bytes(tiny_elf(2)).unwrap();
    assert_eq!(l.text_seg, vec![1, 2, 3, 4, 5, 6, 7, 8, 0, 0, 0, 0, 0, 0, 0, 0]);
    assert_eq!(l.data_seg, vec![0xAA, 0xBB, 0xCC, 0xDD]);
    assert_eq!(l.text_addr, 0x8100_0000);
    assert_eq!(l.data_addr, 0x8101_0000);
    assert_eq!(l.entry_point, 0x8100_0001);
    assert_eq!(l.phdrs.len(), 2);
    assert_eq!(l.segment_infos, vec![(0x80, 8, 1), (0x90, 4, 1)]);
    assert_eq!(l.load_segment_raw(0).unwrap(), l.text_seg);
    assert_eq!(l.load_segment_by_index(1).unwrap(), l.data_seg);
}

#[test]
fn load_errors() {
    assert!(matches!(load_binary_from_bytes(b"hello world".to_vec()), Err(ElfError::NotElfOrSelf)));
    let mut small_self = vec![0u8; 0x100];
    small_self[0..4].copy_from_slice(b"SCE\0");
    assert!(matches!(load_binary_from_bytes(small_self), Err(ElfError::SelfTooSmall)));
    let mut far_self = vec![0u8; 0x1000];
    far_self[0..4].copy_from_slice(b"SCE\0");
    far_self[0x40..0x48].copy_from_slice(&0x2000u64.to_le_bytes());
    assert!(matches!(load_binary_from_bytes(far_self), Err(ElfError::OutOfBounds)));
    let mut bad_class = tiny_elf(2);
    bad_class[4] = 9;
    assert!(matches!(load_binary_from_bytes(bad_class), Err(ElfError::BadElf)));
    assert!(matches!(load_binary_from_bytes(tiny_elf(0)), Err(ElfError::NoProgramHeaders)));
    assert!(matches!(load_binary_from_bytes(tiny_elf(1)), Err(ElfError::TooFewSegments(1))));
    let l = load_binary_from_bytes(tiny_elf(2)).unwrap();
    assert!(matches!(l.load_segment_raw(5), Err(ElfError::SegmentIndex(5))));
}

#[test]
fn segment_is_copied_and_padded() {
    let buf = [9u8, 8, 7, 6, 5, 4];
    let p = phdr(1, 2, 0, 3, 5);
    assert_eq!(load_segment(&buf, &p, None).unwrap(), vec![7, 6, 5, 0, 0]);
    // a file too short for the segment leaves it all zero
    let p = phdr(1, 4, 0, 8, 8);
    assert_eq!(load_segment(&buf, &p, None).unwrap(), vec![0; 8]);
}

#[test]
fn compressed_segment_is_inflated() {
    let plain: Vec<u8> = (0..64u8).collect();
    let mut enc = flate2::write::ZlibEncoder::new(Vec::new(), flate2::Compression::default());
    enc.write_all(&plain).unwrap();
    let z = enc.finish().unwrap();
    let mut buf = vec![0u8; 16];
    buf.extend_from_slice(&z);
    // the segment is inflated into a zero buffer of its memory size
    let p = phdr(1, 0, 0, z.len() as u32, 128);
    let info = (16u64, z.len() as u64, 2u64);
    let mut expected = plain.clone();
    expected.resize(128, 0);
    assert_eq!(load_segment(&buf, &p, Some(&info)).unwrap(), expected);
    let garbage = vec![0x55u8; 32];
    let info = (0u64, 32u64, 2u64);
    let p = phdr(1, 0, 0, 32, 64);
    assert!(matches!(load_segment(&garbage, &p, Some(&info)), Err(ElfError::Decompress)));
}

#[test]
fn relocation_entry_kinds() {
    assert!(is_short(0x0040_0201));
    assert!(!is_short(0x0040_0200));
    assert_eq!(read_u32_le(&[0x78, 0x56, 0x34, 0x12, 0xFF], 0), 0x1234_5678);
    assert_eq!(read_u32_le(&[0, 0x78, 0x56, 0x34, 0x12], 1), 0x1234_5678);
}

fn short_abs32_entry(offset: u32, addend: u32) -> Vec<u8> {
    // short entry, symbol segment 0, R_ARM_ABS32, patched segment 0
    let r_type: u32 = 1 | (2 << 8) | ((offset & 0xFFF) << 20);
    let opt2: u32 = (offset >> 12) | (addend << 10);
    let mut v = r_type.to_le_bytes().to_vec();
    v.extend_from_slice(&opt2.to_le_bytes());
    v
}

#[test]
fn abs32_relocation_patches_four_bytes() {
    let phdrs = vec![phdr(1, 0, 0x8100_0000, 16, 16), phdr(1, 0, 0x8101_0000, 4, 4)];
    let mut text = vec![0xEEu8; 16];
    let mut data = vec![0x11u8; 4];
    relocate(&short_abs32_entry(4, 0x10), &phdrs, &mut text, &mut data);
    assert_eq!(
        text,
        vec![0xEE, 0xEE, 0xEE, 0xEE, 0x10, 0x00, 0x00, 0x81, 0xEE, 0xEE, 0xEE, 0xEE, 0xEE, 0xEE, 0xEE, 0xEE]
    );
    assert_eq!(data, vec![0x11; 4]);
}

#[test]
fn short_relocation_table_changes_nothing() {
    let phdrs = vec![phdr(1, 0, 0x8100_0000, 16, 16), phdr(1, 0, 0x8101_0000, 4, 4)];
    let mut text = vec![0xEEu8; 16];
    let mut data = vec![0x11u8; 4];
    let entry = short_abs32_entry(4, 0x10);
    relocate(&entry[..7], &phdrs, &mut text, &mut data);
    assert_eq!(text, vec![0xEE; 16]);
    assert_eq!(data, vec![0x11; 4]);
}

#[test]
fn relocation_past_the_segment_is_skipped_and_lengths_stay() {
    let phdrs = vec![phdr(1, 0, 0x8100_0000, 16, 16), phdr(1, 0, 0x8101_0000, 4, 4)];
    let mut text = vec![0xEEu8; 16];
    let mut data = vec![0x11u8; 4];
    relocate(&short_abs32_entry(14, 0x10), &phdrs, &mut text, &mut data);
    assert_eq!(text.len(), 16);
    assert_eq!(text, vec![0xEE; 16]);
    assert_eq!(data.len(), 4);
}

#[test]
fn binary_relocation_uses_sce_rela_segments() {
    let entry = short_abs32_entry(0, 0x20);
    let mut buf = vec![0u8; 0x40];
    buf[0x30..0x38].copy_from_slice(&entry);
    let mut loaded = LoadedBinary {
        text_seg: vec![0u8; 8],
        data_seg: vec![0u8; 4],
        text_addr: 0x8100_0000,
        data_addr: 0x8101_0000,
        entry_point: 0x8100_0000,
        phdrs: vec![
            phdr(1, 0, 0x8100_0000, 8, 8),
            phdr(1, 0x10, 0x8101_0000, 4, 4),
            phdr(0x6000_0000, 0x30, 0, 8, 8),
        ],
        segment_infos: vec![(0, 8, 1), (0x10, 4, 1), (0x30, 8, 1)],
        buf,
    };
    let used = relocate_binary(&mut loaded);
    assert_eq!(used, vec![2]);
    assert_eq!(loaded.text_seg, vec![0x20, 0x00, 0x00, 0x81, 0, 0, 0, 0]);
    assert_eq!(loaded.data_seg, vec![0u8; 4]);
}

#[test]
fn nid_strings() {
    assert_eq!(parse_nid("0x1234ABCD"), 0x1234_ABCD);
    assert_eq!(parse_nid("  0X0000001f \n"), 0x1F);
    assert_eq!(parse_nid("deadbeef"), 0xDEAD_BEEF);
    assert_eq!(parse_nid("0x0x10"), 0x10);
    assert_eq!(parse_nid("zz"), 0);
    assert_eq!(parse_nid(""), 0);
    assert_eq!(parse_nid("0x123456789"), 0);
}

#[test]
fn written_nids_read_back() {
    for v in [0u32, 1, 0x10, 0x1234_ABCD, 0xFFFF_FFFF, 0x8000_0000] {
        assert_eq!(parse_nid(&format!("0x{:08X}", v)), v);
    }
}

#[test]
fn database_lookup() {
    let mut db = YamlDb::new();
    assert_eq!(db.lookup("SceLibKernel", 0x10), None);
    db.insert("SceLibKernel".to_string(), 0x10, "sceKernelFoo".to_string());
    db.insert("SceLibKernel".to_string(), 0x20, "sceKernelBar".to_string());
    assert_eq!(db.lookup("SceLibKernel", 0x10), Some("sceKernelFoo"));
    assert_eq!(db.lookup("SceLibKernel", 0x30), None);
    assert_eq!(db.lookup("SceLibOther", 0x10), None);
    db.insert("SceLibKernel".to_string(), 0x10, "sceKernelBaz".to_string());
    assert_eq!(db.lookup("SceLibKernel", 0x10), Some("sceKernelBaz"));
}

#[test]
fn database_from_entries_knows_library_and_module() {
    let entries = vec![
        DbFunctionEntry {
            module_name: "SceKernelModule".to_string(),
            lib_name: "SceLibKernel".to_string(),
            func_name: "sceKernelFoo".to_string(),
            nid: "0x0000ABCD".to_string(),
        },
        DbFunctionEntry {
            module_name: "SceKernelModule".to_string(),
            lib_name: "SceSysmem".to_string(),
            func_name: "sceSysmemBar".to_string(),
            nid: "0x00001234".to_string(),
        },
    ];
    let db = YamlDb::from_entries(&entries);
    assert_eq!(db.lookup("SceLibKernel", 0xABCD), Some("sceKernelFoo"));
    assert_eq!(db.lookup("SceKernelModule", 0xABCD), Some("sceKernelFoo"));
    assert_eq!(db.lookup("SceSysmem", 0x1234), Some("sceSysmemBar"));
    assert_eq!(db.lookup("SceKernelModule", 0x1234), Some("sceSysmemBar"));
    assert_eq!(db.lookup("SceSysmem", 0xABCD), None);
}

#[test]
fn relocating_a_joined_table_is_relocating_in_turn() {
    let phdrs = vec![phdr(1, 0, 0x8100_0000, 16, 16), phdr(1, 0, 0x8101_0000, 4, 4)];
    let first = short_abs32_entry(0, 0x4);
    let second = short_abs32_entry(8, 0x8);
    let mut joined = first.clone();
    joined.extend_from_slice(&second);
    let mut t1 = vec![0u8; 16];
    let mut d1 = vec![0u8; 4];
    relocate(&joined, &phdrs, &mut t1, &mut d1);
    let mut t2 = vec![0u8; 16];
    let mut d2 = vec![0u8; 4];
    relocate(&first, &phdrs, &mut t2, &mut d2);
    relocate(&second, &phdrs, &mut t2, &mut d2);
    assert_eq!(t1, t2);
    assert_eq!(d1, d2);
    assert_eq!(&t1[0..4], &[0x04, 0x00, 0x00, 0x81]);
    assert_eq!(&t1[8..12], &[0x08, 0x00, 0x00, 0x81]);
}

#[test]
fn a_unique_database_entry_is_found_again() {
    let entries = vec![DbFunctionEntry {
        module_name: "SceMod".to_string(),
        lib_name: "SceLib".to_string(),
        func_name: "sceOnly".to_string(),
        nid: "0x00000042".to_string(),
    }];
    let db = YamlDb::from_entries(&entries);
    assert_eq!(db.lookup("SceLib", 0x42), Some("sceOnly"));
    assert_eq!(db.lookup("SceMod", 0x42), Some("sceOnly"));
    assert_eq!(db.lookup("SceLib", 0x43), None);
}
