use std::collections::HashMap;

use vitadecompiler::analyze::{
    arguments_pass, code_pass, get_cond_info, get_reg_name, symbols_pass1, symbols_pass2, Context,
    ARM_REG_R0, ARM_REG_R1,
};
use vitadecompiler::disasm::{disassemble, ArmDetail, Operand, OperandKind, Shift, ThumbInsn};
use vitadecompiler::translate::{
    decompile_insns, follow_dword_chain, get_args_decl, get_args_use_n, get_imm_string,
    handle_unknown, rename_regs_in_str,
};
use vitadecompiler::vita::{Symbol, SYMBOL_EXPORT, SYMBOL_IMPORT, SYMBOL_LABEL, SYMBOL_SUBROUTINE};

const BASE: u32 = 0x8100_0000;

fn insn(address: u32, mnemonic: &str, op_str: &str, update_flags: bool, ops: Vec<OperandKind>) -> ThumbInsn {
    ThumbInsn {
        address: address as u64,
        mnemonic: mnemonic.as_bytes().to_vec(),
        op_str: op_str.as_bytes().to_vec(),
        detail: Some(ArmDetail {
            cc: 15,
            update_flags,
            operands: ops.into_iter().map(|kind| Operand { kind, shift: Shift::Invalid }).collect(),
        }),
    }
}

fn context(text_seg: Vec<u8>, symbols: HashMap<u32, Symbol>) -> Context {
    let size = text_seg.len() as u32;
    Context::new(text_seg, vec![0u8; 16], BASE, size, 0x8101_0000, 16, 0, symbols)
}

fn sub(name: &str) -> Symbol {
    Symbol::new(name.to_string(), SYMBOL_SUBROUTINE)
}

#[test]
fn register_names() {
    assert_eq!(get_reg_name(ARM_REG_R0), "a1");
    assert_eq!(get_reg_name(ARM_REG_R1), "a2");
    assert_eq!(get_reg_name(12), "sp");
    assert_eq!(get_reg_name(10), "lr");
    assert_eq!(get_reg_name(999), "unk");
}

#[test]
fn condition_suffixes() {
    let (base, cond) = get_cond_info(1, b"beq");
    assert_eq!(base, b"b");
    assert_eq!(cond, Some(("if (Z == 1) // ==", "if (COND_X == COND_Y)")));
    let (base, cond) = get_cond_info(15, b"beq");
    assert_eq!(base, b"beq");
    assert_eq!(cond, None);
    let (base, cond) = get_cond_info(2, b"beq");
    assert_eq!(base, b"beq");
    assert_eq!(cond, None);
}

#[test]
fn immediates() {
    assert_eq!(get_imm_string(5, false), b"5".to_vec());
    assert_eq!(get_imm_string(10, false), b"0xA".to_vec());
    assert_eq!(get_imm_string(0xFFFF_FFF8, false), b"-8".to_vec());
    assert_eq!(get_imm_string(0xFFFF_FF00, false), b"0xFFFFFF00".to_vec());
    assert_eq!(get_imm_string(0xFFFF_FF00, true), b"-256".to_vec());
}

#[test]
fn register_lists_get_apcs_names() {
    assert_eq!(rename_regs_in_str(b"{r0, r1, r12}"), b"{a1, a2, ip}".to_vec());
    assert_eq!(rename_regs_in_str(b"r4!, {r5-r11}"), b"v1!, {v2-fp}".to_vec());
}

#[test]
fn instructions_without_template() {
    let bx = ThumbInsn { address: 0, mnemonic: b"bx".to_vec(), op_str: b"lr".to_vec(), detail: None };
    assert_eq!(handle_unknown(&bx), b"\treturn a1;\n".to_vec());
    let pop = ThumbInsn { address: 0, mnemonic: b"pop.w".to_vec(), op_str: b"{r4, pc}".to_vec(), detail: None };
    assert_eq!(handle_unknown(&pop), b"\treturn a1; // pop.w {r4, pc}\n".to_vec());
    let stm = ThumbInsn { address: 0, mnemonic: b"stm".to_vec(), op_str: b"r0!, {r1, r2}".to_vec(), detail: None };
    assert_eq!(handle_unknown(&stm), b"\t// stm a1!, {a2, a3}\n".to_vec());
    let it = ThumbInsn { address: 0, mnemonic: b"ite".to_vec(), op_str: b"eq".to_vec(), detail: None };
    assert_eq!(handle_unknown(&it), Vec::<u8>::new());
    let vfp = ThumbInsn { address: 0, mnemonic: b"vmov".to_vec(), op_str: b"s0, r0".to_vec(), detail: None };
    assert_eq!(handle_unknown(&vfp), b"\t// vfp: vmov s0, r0\n".to_vec());
    let other = ThumbInsn { address: 0, mnemonic: b"svc".to_vec(), op_str: b"#0".to_vec(), detail: None };
    assert_eq!(handle_unknown(&other), b"\tasm(\"svc #0\\n\");\n".to_vec());
}

#[test]
fn argument_lists() {
    let mut s = sub("f");
    s.n_args = 3;
    assert_eq!(get_args_decl(&s), b"int arg1, int arg2, int arg3".to_vec());
    s.n_args = 0;
    assert_eq!(get_args_decl(&s), Vec::<u8>::new());
    s.n_args = 40;
    let decl = String::from_utf8(get_args_decl(&s)).unwrap();
    assert!(decl.ends_with("int arg11"));
    let ctx = context(vec![0u8; 16], HashMap::new());
    assert_eq!(get_args_use_n(6, &ctx), b"a1, a2, a3, a4, *(sp+0), *(sp+4)".to_vec());
}

#[test]
fn pointer_chains() {
    let mut seg = vec![0u8; 16];
    seg[4..8].copy_from_slice(&(BASE + 8).to_le_bytes());
    seg[8..12].copy_from_slice(&0x1234_5678u32.to_le_bytes());
    assert_eq!(follow_dword_chain(&seg, BASE, 16, BASE + 4), 0x1234_5678);
    // the start of the segment is not followed
    assert_eq!(follow_dword_chain(&seg, BASE, 16, BASE), BASE);
    // a chain that loops is cut
    let mut looped = vec![0u8; 16];
    looped[4..8].copy_from_slice(&(BASE + 4).to_le_bytes());
    assert_eq!(follow_dword_chain(&looped, BASE, 16, BASE + 4), BASE + 4);
}

#[test]
fn disassembles_thumb_code() {
    // movs r0, #1 ; bx lr
    let insns = disassemble(&[0x01, 0x20, 0x70, 0x47], BASE as u64).unwrap();
    assert_eq!(insns.len(), 2);
    assert_eq!(insns[0].address, BASE as u64);
    assert_eq!(insns[0].mnemonic, b"movs".to_vec());
    assert_eq!(insns[0].op_str, b"r0, #1".to_vec());
    let d = insns[0].detail.as_ref().unwrap();
    assert_eq!(d.operands.len(), 2);
    assert_eq!(d.operands[0].kind, OperandKind::Reg(ARM_REG_R0));
    assert_eq!(d.operands[1].kind, OperandKind::Imm(1));
    assert_eq!(insns[1].address, BASE as u64 + 2);
    assert_eq!(insns[1].mnemonic, b"bx".to_vec());
    assert_eq!(insns[1].op_str, b"lr".to_vec());
}

#[test]
fn branch_targets_become_symbols() {
    let mut symbols = HashMap::new();
    symbols.insert(BASE, sub("start"));
    let mut ctx = context(vec![0u8; 0x40], symbols);
    let insns = vec![
        insn(BASE, "bl", "#0x81000020", false, vec![OperandKind::Imm((BASE + 0x20) as i32)]),
        insn(BASE + 4, "b", "#0x81000010", false, vec![OperandKind::Imm((BASE + 0x10) as i32)]),
        insn(BASE + 6, "bl", "#0x82000000", false, vec![OperandKind::Imm(0x8200_0000u32 as i32)]),
    ];
    symbols_pass1(&mut ctx, &insns);
    assert_eq!(ctx.symbols[&BASE].name, "start");
    assert_eq!(ctx.symbols[&(BASE + 0x20)].name, "sub_81000020");
    assert!(ctx.symbols[&(BASE + 0x20)].is_subroutine());
    assert_eq!(ctx.symbols[&(BASE + 0x10)].name, "loc_81000010");
    assert!(ctx.symbols[&(BASE + 0x10)].is_label());
    assert!(!ctx.symbols.contains_key(&0x8200_0000));
    assert_eq!(ctx.symbols.len(), 3);
}

#[test]
fn movw_movt_string_becomes_a_symbol() {
    let mut text = vec![0u8; 0x40];
    text[0x30..0x35].copy_from_slice(b"Hey!\0");
    let mut ctx = context(text, HashMap::new());
    let insns = vec![
        insn(BASE, "movw", "r1, #0x30", false, vec![OperandKind::Reg(ARM_REG_R1), OperandKind::Imm(0x30)]),
        insn(BASE + 4, "movt", "r1, #0x8100", false, vec![OperandKind::Reg(ARM_REG_R1), OperandKind::Imm(0x8100)]),
    ];
    symbols_pass1(&mut ctx, &insns);
    assert_eq!(ctx.symbols[&(BASE + 0x30)].name, "Hey!");
}

#[test]
fn function_boundaries_become_subroutines() {
    let mut ctx = context(vec![0u8; 0x40], HashMap::new());
    let insns = vec![
        insn(BASE, "push", "{r4, lr}", false, vec![]),
        insn(BASE + 2, "pop", "{r4, pc}", false, vec![]),
        insn(BASE + 4, "nop", "", false, vec![]),
        insn(BASE + 6, "bx", "lr", false, vec![OperandKind::Reg(10)]),
    ];
    symbols_pass2(&mut ctx, &insns);
    assert_eq!(ctx.symbols[&BASE].name, "sub_81000000");
    assert_eq!(ctx.symbols[&(BASE + 4)].name, "sub_81000004");
    assert_eq!(ctx.symbols[&(BASE + 6)].name, "sub_81000006");
    assert_eq!(ctx.symbols.len(), 3);
    // a second run changes nothing
    symbols_pass2(&mut ctx, &insns);
    assert_eq!(ctx.symbols.len(), 3);
    assert_eq!(ctx.symbols[&(BASE + 4)].name, "sub_81000004");
}

fn call_program() -> Vec<ThumbInsn> {
    vec![
        insn(BASE, "mov", "r0, #5", false, vec![OperandKind::Reg(ARM_REG_R0), OperandKind::Imm(5)]),
        insn(BASE + 2, "bl", "#0x81000020", false, vec![OperandKind::Imm((BASE + 0x20) as i32)]),
        insn(BASE + 6, "bx", "lr", false, vec![OperandKind::Reg(10)]),
    ]
}

#[test]
fn argument_counts_come_from_calls() {
    let mut symbols = HashMap::new();
    symbols.insert(BASE, sub("sub_81000000"));
    symbols.insert(BASE + 0x20, sub("callee"));
    let mut ctx = context(vec![0u8; 0x40], symbols);
    arguments_pass(&mut ctx, &call_program());
    // only the argument counts change
    assert_eq!(ctx.symbols.len(), 2);
    assert_eq!(ctx.symbols[&(BASE + 0x20)].name, "callee");
    assert!(ctx.symbols[&(BASE + 0x20)].is_subroutine());
    assert_eq!(ctx.symbols[&(BASE + 0x20)].n_args, 1);
    assert_eq!(ctx.symbols[&(BASE + 0x20)].args_stats[1], 1);
    assert_eq!(ctx.symbols[&BASE].n_args, 0);
}

#[test]
fn call_folds_its_argument_and_renders() {
    let mut symbols = HashMap::new();
    symbols.insert(BASE, sub("sub_81000000"));
    symbols.insert(BASE + 0x20, sub("callee"));
    let mut ctx = context(vec![0u8; 0x40], symbols);
    let program = call_program();
    symbols_pass1(&mut ctx, &program);
    symbols_pass2(&mut ctx, &program);
    arguments_pass(&mut ctx, &program);
    code_pass(&mut ctx, &program);
    assert_eq!(ctx.ignore_map.get(&BASE), Some(&true));
    let names_before: Vec<(u32, String)> = {
        let mut v: Vec<(u32, String)> = ctx.symbols.iter().map(|(a, s)| (*a, s.name.clone())).collect();
        v.sort();
        v
    };
    let (c, h) = decompile_insns(&mut ctx, &program);
    assert_eq!(
        String::from_utf8(c).unwrap(),
        "//VADDR: 81000000 OFF: 00000000\nint sub_81000000()\n{\n\ta1 = callee(5);\n}\n\n//VADDR: 81000006 OFF: 00000006\nint sub_81000006()\n{\n\treturn a1;\n}\n"
    );
    assert_eq!(String::from_utf8(h).unwrap(), "int sub_81000000();\nint sub_81000006();\n");
    let mut names_after: Vec<(u32, String)> = ctx.symbols.iter().map(|(a, s)| (*a, s.name.clone())).collect();
    names_after.sort();
    assert_eq!(names_before, names_after);
}

#[test]
fn movt_constant_renders_as_string() {
    let mut text = vec![0u8; 0x40];
    text[0x10..0x15].copy_from_slice(b"Hi!!\0");
    let mut symbols = HashMap::new();
    symbols.insert(BASE, sub("sub_81000000"));
    let mut ctx = context(text, symbols);
    let program = vec![
        insn(BASE, "movw", "r0, #0x10", false, vec![OperandKind::Reg(ARM_REG_R0), OperandKind::Imm(0x10)]),
        insn(BASE + 4, "movt", "r0, #0x8100", false, vec![OperandKind::Reg(ARM_REG_R0), OperandKind::Imm(0x8100)]),
    ];
    code_pass(&mut ctx, &program);
    // pass 4 leaves the symbols and the segments alone
    assert_eq!(ctx.symbols.len(), 1);
    assert_eq!(ctx.symbols[&BASE].name, "sub_81000000");
    assert_eq!(&ctx.text_seg[0x10..0x14], b"Hi!!");
    assert_eq!(ctx.ignore_map.get(&BASE), Some(&true));
    let r0 = ctx.reg_assign_map.get(&ARM_REG_R0).unwrap().as_ref().unwrap();
    assert_eq!(r0.assign, b"0x81000010".to_vec());
    let (c, _) = decompile_insns(&mut ctx, &program);
    assert_eq!(
        String::from_utf8(c).unwrap(),
        "//VADDR: 81000000 OFF: 00000000\nint sub_81000000()\n{\n\ta1 = /*s_text_81000010*/ \"Hi!!\";\n}\n"
    );
}

#[test]
fn imports_and_labels_render() {
    let mut symbols = HashMap::new();
    symbols.insert(BASE, Symbol::new("main".to_string(), SYMBOL_SUBROUTINE | SYMBOL_EXPORT));
    symbols.insert(BASE + 2, Symbol::new("loop".to_string(), SYMBOL_LABEL));
    let mut imp = Symbol::new("sceFoo".to_string(), SYMBOL_SUBROUTINE | SYMBOL_IMPORT);
    imp.n_args = 2;
    symbols.insert(BASE + 4, imp);
    let mut ctx = context(vec![0u8; 0x40], symbols);
    let program = vec![
        insn(BASE, "nop", "", false, vec![]),
        insn(BASE + 2, "b", "#0x81000002", false, vec![OperandKind::Imm((BASE + 2) as i32)]),
        insn(BASE + 4, "mov", "r12, r12", false, vec![]),
        insn(BASE + 6, "mov", "r12, r12", false, vec![]),
    ];
    let (c, h) = decompile_insns(&mut ctx, &program);
    assert_eq!(
        String::from_utf8(c).unwrap(),
        "//VADDR: 81000000 OFF: 00000000\n// Exported\nint main()\n{\n\nloop:\n//VADDR: 81000002 OFF: 00000002\n\tgoto loop;\n}\n\nint sceFoo(int arg1, int arg2);\n}\n"
    );
    assert_eq!(String::from_utf8(h).unwrap(), "int main();\nint sceFoo(int arg1, int arg2);\n");
}

#[test]
fn conditional_and_multi_statement_render() {
    let mut symbols = HashMap::new();
    symbols.insert(BASE, sub("sub_81000000"));
    let mut ctx = context(vec![0u8; 0x40], symbols);
    let mut moveq = insn(BASE + 2, "moveq", "r0, #1", false, vec![OperandKind::Reg(ARM_REG_R0), OperandKind::Imm(1)]);
    moveq.detail.as_mut().unwrap().cc = 1;
    let program = vec![
        insn(BASE, "cmp", "r0, #0", true, vec![OperandKind::Reg(ARM_REG_R0), OperandKind::Imm(0)]),
        moveq,
        insn(
            BASE + 4,
            "ldrd",
            "r0, r1, [sp, #8]",
            false,
            vec![
                OperandKind::Reg(ARM_REG_R0),
                OperandKind::Reg(ARM_REG_R1),
                OperandKind::Mem { base: 12, index: 0, disp: 8 },
            ],
        ),
    ];
    let (c, _) = decompile_insns(&mut ctx, &program);
    assert_eq!(
        String::from_utf8(c).unwrap(),
        "//VADDR: 81000000 OFF: 00000000\nint sub_81000000()\n{\n\tFLAGS = a1 - 0;\n\tif (Z == 1) // ==\n\t\ta1 = 1;\n\ta1 = *(uint32_t *)(sp + 8);\n\ta2 = *(uint32_t *)(sp + 8 + 0x4);\n}\n"
    );
    assert_eq!(ctx.condition_reg_1, b"a1".to_vec());
    // only register operands are remembered as compared
    assert_eq!(ctx.condition_reg_2, Vec::<u8>::new());
}

#[test]
fn stack_stores_count_as_arguments() {
    let mut symbols = HashMap::new();
    symbols.insert(BASE, sub("sub_81000000"));
    symbols.insert(BASE + 0x20, sub("callee"));
    let mut ctx = context(vec![0u8; 0x40], symbols);
    let program = vec![
        insn(
            BASE,
            "str",
            "r0, [sp, #4]",
            false,
            vec![OperandKind::Reg(ARM_REG_R0), OperandKind::Mem { base: 12, index: 0, disp: 4 }],
        ),
        insn(BASE + 4, "bl", "#0x81000020", false, vec![OperandKind::Imm((BASE + 0x20) as i32)]),
    ];
    arguments_pass(&mut ctx, &program);
    assert_eq!(ctx.symbols[&(BASE + 0x20)].n_args, 6);
    assert_eq!(get_args_use_n(6, &ctx), b"a1, a2, a3, a4, *(sp+0), *(sp+4)".to_vec());
}

#[test]
fn invalid_utf8_in_strings_is_replaced() {
    assert_eq!(vitadecompiler::analyze::read_cstr(b"a\xFFb\0c", 0), "a\u{FFFD}b");
    assert_eq!(vitadecompiler::analyze::read_cstr(b"abc", 1), "bc");
}
