use vitadecompiler::disasm::Shift;
use vitadecompiler::instructions::{get_instruction_code, get_shift_op, handle_shift};
use vitadecompiler::vita::{
    analyze_module, find_by_magic, find_entry_point, is_ascii_name, read_sce_module_info,
    read_str_at, read_u16, read_u32, ModuleError, Symbol, SYMBOL_EXPORT, SYMBOL_IMPORT,
    SYMBOL_LABEL, SYMBOL_SUBROUTINE,
};
use vitadecompiler::yaml_db::YamlDb;

const BASE: u32 = 0x8100_0000;

fn put16(b: &mut [u8], off: usize, v: u16) {
    b[off..off + 2].copy_from_slice(&v.to_le_bytes());
}

fn put32(b: &mut [u8], off: usize, v: u32) {
    b[off..off + 4].copy_from_slice(&v.to_le_bytes());
}

const MAGIC: [u8; 16] = [
    0xE0, 0xE3, 0x1E, 0xFF, 0x2F, 0xE1, 0x00, 0x00, 0xA0, 0xE1, 0x00, 0x00, 0x00, 0x00, 0x00, 0x00,
];

#[test]
fn shift_operators() {
    assert_eq!(get_shift_op("lsl"), Some("<<"));
    assert_eq!(get_shift_op("asr"), Some(">>"));
    assert_eq!(get_shift_op("rrx"), Some("__builtin_rrx"));
    assert_eq!(get_shift_op("foo"), None);
}

#[test]
fn instruction_templates() {
    assert_eq!(get_instruction_code("add", 3), Some("op0 = op1 + op2;"));
    assert_eq!(get_instruction_code("add", 2), Some("op0 = op0 + op1;"));
    assert_eq!(get_instruction_code("mov", 2), Some("op0 = op1;"));
    assert_eq!(get_instruction_code("bl", 1), Some("a1 = symbol(...);"));
    assert_eq!(get_instruction_code("bogus", 1), None);
}

#[test]
fn shifted_registers() {
    assert_eq!(handle_shift(b"a1", &Shift::Lsl(2)), b"(a1 << 2)".to_vec());
    assert_eq!(handle_shift(b"a1", &Shift::Asr(5)), b"(a1 >> 5)".to_vec());
    assert_eq!(handle_shift(b"a1", &Shift::Lsr(3)), b"((unsigned)a1 >> 3)".to_vec());
    assert_eq!(handle_shift(b"a1", &Shift::Ror(4)), b"__builtin_ror(a1, 4)".to_vec());
    assert_eq!(handle_shift(b"a1", &Shift::AsrReg(67)), b"(a1 >> a2)".to_vec());
    assert_eq!(handle_shift(b"a1", &Shift::RrxReg(67)), b"__builtin_rrx(a1)".to_vec());
    assert_eq!(handle_shift(b"a1", &Shift::Lsl(0)), b"a1".to_vec());
    assert_eq!(handle_shift(b"a1", &Shift::Invalid), b"a1".to_vec());
}

#[test]
fn little_endian_reads() {
    let d = [0x34, 0x12, 0x78, 0x56, 0xAA];
    assert_eq!(read_u16(&d, 0), 0x1234);
    assert_eq!(read_u32(&d, 0), 0x5678_1234);
    assert_eq!(read_u32(&d, 1), 0xAA56_7812);
}

#[test]
fn symbol_kinds() {
    let s = Symbol::new("f".to_string(), SYMBOL_SUBROUTINE | SYMBOL_EXPORT);
    assert!(s.is_subroutine() && s.is_export());
    assert!(!s.is_label() && !s.is_import());
    assert_eq!(s.n_args, 0);
    assert_eq!(s.args_stats, [0; 11]);
    let l = Symbol::new("l".to_string(), SYMBOL_LABEL);
    assert!(l.is_label() && !l.is_subroutine());
    let i = Symbol::new("i".to_string(), SYMBOL_IMPORT);
    assert!(i.is_import());
}

#[test]
fn module_names() {
    assert!(is_ascii_name(b"test_module\0\0\0"));
    assert!(!is_ascii_name(b"\0abc"));
    assert!(!is_ascii_name(b"ab\x01c"));
    assert!(!is_ascii_name(b"ab\xC3\xA9"));
    assert!(is_ascii_name(b""));
}

#[test]
fn magic_pattern_finds_module_info() {
    let mut seg = vec![0u8; 0x40];
    seg[0x20..0x30].copy_from_slice(&MAGIC);
    assert_eq!(find_by_magic(&seg, BASE), BASE + 0x2E);
    assert_eq!(find_by_magic(&vec![0u8; 0x40], BASE), BASE);
    // the initial entry holds no name, so the pattern decides
    assert_eq!(find_entry_point(&seg, BASE, BASE + 0x30), BASE + 0x2E);
    let mut named = seg.clone();
    named[0x4..0x8].copy_from_slice(b"abcd");
    assert_eq!(find_entry_point(&named, BASE, BASE), BASE);
}

#[test]
fn strings_at_addresses() {
    let seg = b"xxhello\0yy".to_vec();
    assert_eq!(read_str_at(&seg, BASE, BASE + 2), b"hello".to_vec());
    assert_eq!(read_str_at(&seg, BASE, BASE + 8), b"yy".to_vec());
    assert_eq!(read_str_at(&seg, BASE, BASE + 20), Vec::<u8>::new());
}

fn module_text() -> Vec<u8> {
    let mut t = vec![0u8; 0x100];
    // module info
    put16(&mut t, 0, 0);
    put16(&mut t, 2, 0x0101);
    t[4..15].copy_from_slice(b"test_module");
    put32(&mut t, 36, 0x50);
    put32(&mut t, 40, 0x70);
    put32(&mut t, 44, 0x70);
    put32(&mut t, 48, 0x94);
    put32(&mut t, 52, 0x1234_5678);
    // export table
    put16(&mut t, 0x50, 0x20);
    put16(&mut t, 0x54, 0);
    put16(&mut t, 0x56, 1);
    put32(&mut t, 0x58, 0);
    put32(&mut t, 0x60, 0xAABB_CCDD);
    put32(&mut t, 0x64, BASE + 0xC0);
    put32(&mut t, 0x68, BASE + 0xD0);
    put32(&mut t, 0x6C, BASE + 0xD4);
    // import table (0x24 bytes)
    put16(&mut t, 0x70, 0x24);
    put16(&mut t, 0x76, 1);
    put32(&mut t, 0x7C, 0x0102_0304);
    put32(&mut t, 0x80, BASE + 0xE0);
    put32(&mut t, 0x84, BASE + 0xF0);
    put32(&mut t, 0x88, BASE + 0xF4);
    t[0xC0..0xCA].copy_from_slice(b"SceLibTest");
    put32(&mut t, 0xD0, 0x1122_3344);
    put32(&mut t, 0xD4, BASE + 0xA1);
    t[0xE0..0xE6].copy_from_slice(b"SceImp");
    put32(&mut t, 0xF0, 0x5566_7788);
    put32(&mut t, 0xF4, BASE + 0xB0);
    t
}

#[test]
fn module_info_fields() {
    let t = module_text();
    let m = read_sce_module_info(&t, 0);
    assert_eq!(m.ver, 0x0101);
    assert_eq!(&m.name[..11], b"test_module");
    assert_eq!(m.exp_top, 0x50);
    assert_eq!(m.exp_btm, 0x70);
    assert_eq!(m.imp_top, 0x70);
    assert_eq!(m.imp_btm, 0x94);
    assert_eq!(m.nid, 0x1234_5678);
}

#[test]
fn module_exports_and_imports() {
    let t = module_text();
    let mut db = YamlDb::new();
    db.insert("SceLibTest".to_string(), 0x1122_3344, "sceTestFunc".to_string());
    let r = analyze_module(&t, BASE, 0x100, BASE, &db, "3.60").unwrap();
    assert_eq!(r.analysis.module_name, "test_module");
    assert_eq!(r.analysis.module_nid, 0x1234_5678);
    assert_eq!(r.analysis.mod_info_offset, 0);
    assert_eq!(r.analysis.opt_ver, "3.60");
    assert_eq!(
        r.nids_text,
        "//EXPORTS:\n\n//SceLibTest:AABBCCDD\n//0: sceTestFunc 11223344 @OFF: 000000A1 VADDR: 810000A1\n//IMPORTS:\n\n//SceImp:01020304\n//0: SceImp_55667788 55667788 @OFF: 000000B0 VADDR: 810000B0\n"
    );
    assert_eq!(
        r.yml_text,
        "version: 0x2\nfirmware: 3.60\nmodules:\n  test_module:\n     nid: 0x12345678\n     libraries:\n      SceLibTest:\n        nid: 0xAABBCCDD\n        kernel: true\n        functions:\n          SceLibTest_11223344: 0x11223344\n"
    );
    assert_eq!(r.analysis.symbols.len(), 2);
    let e = &r.analysis.symbols[&(BASE + 0xA0)];
    assert_eq!(e.name, "sceTestFunc");
    assert_eq!(e.sym_type, SYMBOL_SUBROUTINE | SYMBOL_EXPORT);
    let i = &r.analysis.symbols[&(BASE + 0xB0)];
    assert_eq!(i.name, "SceImp_55667788");
    assert_eq!(i.sym_type, SYMBOL_SUBROUTINE | SYMBOL_IMPORT);
}

#[test]
fn module_without_tables() {
    let mut t = vec![0u8; 0x80];
    t[4..8].copy_from_slice(b"mod1");
    put32(&mut t, 52, 0xCAFE_F00D);
    let r = analyze_module(&t, BASE, 0x80, BASE, &YamlDb::new(), "3.65").unwrap();
    assert_eq!(r.nids_text, "//EXPORTS:\n//IMPORTS:\n");
    assert_eq!(
        r.yml_text,
        "version: 0x2\nfirmware: 3.65\nmodules:\n  mod1:\n     nid: 0xCAFEF00D\n     libraries:\n"
    );
    assert!(r.analysis.symbols.is_empty());
}

#[test]
fn module_info_past_the_text_is_refused() {
    let mut t = vec![0u8; 0x40];
    t[4..8].copy_from_slice(b"mod1");
    assert!(matches!(
        analyze_module(&t, BASE, 0x40, BASE, &YamlDb::new(), "3.60"),
        Err(ModuleError::OutOfBounds)
    ));
}
