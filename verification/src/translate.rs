//! Rendering of the analysed text segment as pseudo-C: the source file
//! with one function per subroutine, and the header of declarations.
use vstd::prelude::*;
use crate::text::{replace_str, spec_starts_with, starts_with_bytes, bytes_eq, lit, dec_signed, dec_digits, hex_digits, hex8, push_dec_signed, push_dec, push_hex, push_hex8, push_str, push_bytes, utf8_lossy, spec_replace, replace_bytes, first_token, first_word, strip_0x, strip_0x_start, parse_u32_hex, parse_hex_u32, spec_is_hex_or_dec, is_hex_or_dec};
use crate::bytes::{le32, get_u32_le};
use crate::disasm::{ThumbInsn, ThumbInsnView, ArmDetail, DetailView, Operand, OperandKind, DisasmError, thumb_listing, insns_view};
use crate::instructions::{spec_instruction_code, instruction_code};
use crate::text::{spec_contains, contains_bytes};
use vstd::wrapping::u32_specs::wrapping_sub;
use crate::vita::{Symbol, SymbolView, cstr_from, is_printable, SYMBOL_SUBROUTINE, SYMBOL_LABEL, SYMBOL_IMPORT, SYMBOL_EXPORT};
use crate::analyze::{same_frame, lemma_operands_fold_frame, RegisterAssignment, operands_fold, substitute_operands, assign_text, set_assign, set_assign_exec, assign_text_exec, spec_reg_name, reg_name, clear_arg_regs, strip_flag_suffix, strip_flag_suffix_exec, spec_cond_info, get_cond_info, regs_view, code_of, disassemble_code, trim_w_len, trim_w, trimmed_mnemonic, is_mnemonic, Context, ContextView, AssignView, ARM_REG_R0, printable4, movw_value, movw_value_exec, read_cstr};
use vstd::utf8::encode_utf8;
use vstd::wrapping::u32_specs::wrapping_add;

verus! {

/// How an immediate is written: small values (from -9 to 9), and negative
/// memory displacements, in signed decimal; all others as `0x` and upper
/// case hexadecimal.
pub open spec fn imm_text(imm: u32, is_mem: bool) -> Seq<u8> {
    let s = imm as i32;
    if (-9 <= s < 0) || (0 <= s <= 9) || (is_mem && imm & 0x8000_0000 != 0) {
        dec_signed(s as int)
    } else {
        lit("0x") + hex_digits(imm as nat)
    }
}

/// Writes an immediate: small values (from -9 to 9), and negative memory
/// displacements, in signed decimal; all others as `0x` and upper case
/// hexadecimal.
pub fn get_imm_string(imm: u32, is_mem: bool) -> (r: Vec<u8>)
    ensures
        r@ == imm_text(imm, is_mem),
{
    let s = imm as i32;
    let mut out: Vec<u8> = Vec::new();
    if (-9 <= s && s < 0) || (0 <= s && s <= 9) || (is_mem && (imm & 0x8000_0000) != 0) {
        push_dec_signed(&mut out, s);
    } else {
        push_str(&mut out, "0x");
        push_hex(&mut out, imm);
    }
    assert(out@ =~= imm_text(imm, is_mem));
    out
}

/// The address a chain of pointers ends at: while the address lies
/// inside the segment (strictly after its start) with four bytes there,
/// the 32-bit little-endian word stored there is the next address. The
/// walk takes at most `fuel` steps.
pub open spec fn dword_chain(seg: Seq<u8>, base: u32, size: u32, a: u32, fuel: nat) -> u32
    decreases fuel,
{
    if fuel > 0 && a > base && a < wrapping_add(base, size) && (a - base) + 4 <= seg.len() {
        dword_chain(seg, base, size, le32(seg, (a - base) as int), (fuel - 1) as nat)
    } else {
        a
    }
}

/// Where the pointer chain from `a` ends. A chain that is still inside the
/// segment after one step more than the segment has bytes has revisited an
/// offset, and goes round forever; it is cut there.
pub open spec fn chain_end(seg: Seq<u8>, base: u32, size: u32, a: u32) -> u32 {
    dword_chain(seg, base, size, a, seg.len() + 1)
}

/// Follows the pointer chain from `addr` through a segment loaded at
/// `base` with `size` bytes mapped.
pub fn follow_dword_chain(seg: &[u8], base: u32, size: u32, addr: u32) -> (r: u32)
    ensures
        r == chain_end(seg@, base, size, addr),
{
    let len = seg.len();
    let mut fuel: u128 = len as u128 + 1;
    let mut a = addr;
    while fuel > 0 && a > base && a < base.wrapping_add(size) && len >= 4 && ((a - base) as usize) <= len - 4
        invariant
            len == seg@.len(),
            fuel <= seg@.len() + 1,
            dword_chain(seg@, base, size, a, fuel as nat) == chain_end(seg@, base, size, addr),
        decreases fuel,
    {
        a = get_u32_le(seg, (a - base) as usize);
        fuel = fuel - 1;
    }
    a
}

/// Where the pointer chain from `addr` ends in the text segment.
pub fn check_dword_chain(ctx: &Context, addr: u32) -> (r: u32)
    ensures
        r == chain_end(ctx.text_seg@, ctx.text_addr, ctx.text_size, addr),
{
    follow_dword_chain(ctx.text_seg.as_slice(), ctx.text_addr, ctx.text_size, addr)
}

/// Where the pointer chain from `addr` ends in the data segment.
pub fn check_dword_chain_data(ctx: &Context, addr: u32) -> (r: u32)
    ensures
        r == chain_end(ctx.data_seg@, ctx.data_addr, ctx.data_size, addr),
{
    follow_dword_chain(ctx.data_seg.as_slice(), ctx.data_addr, ctx.data_size, addr)
}

/// A line feed.
pub open spec fn line_feed() -> Seq<u8> {
    seq![10u8]
}

/// A line feed as a C escape: a backslash and `n`.
pub open spec fn escaped_line_feed() -> Seq<u8> {
    seq![92u8, 110u8]
}

/// A C string literal's body: the string read at `off` (invalid UTF-8
/// replaced), with its line feeds escaped.
pub open spec fn quoted_cstr(seg: Seq<u8>, off: int) -> Seq<u8> {
    spec_replace(encode_utf8(utf8_lossy(cstr_from(seg, off))), line_feed(), escaped_line_feed())
}

/// Whether a value is a virtual address of a segment.
pub open spec fn in_segment(v: u32, base: u32, size: u32) -> bool {
    v >= base && v < wrapping_add(base, size)
}

/// What a MOVT that completes a MOVW constant is written as: a string
/// literal where the constant points at four printable bytes of the text or
/// data segment, the name of the subroutine that a pointer chain in the
/// text segment leads to, else the constant with the end of its pointer
/// chain. Where the register holds no numeric MOVW value, or the high half
/// does not parse, the assignment stays as it is.
pub open spec fn movt_text(c: ContextView, reg: u32, a: Seq<u8>) -> Seq<u8> {
    let tok = match first_token(a) {
        Some(t) => t,
        None => Seq::empty(),
    };
    if c.regs.contains_key(reg) && c.regs[reg] is Some && spec_is_hex_or_dec(c.regs[reg].unwrap().assign)
        && parse_u32_hex(strip_0x(tok)) is Some {
        let value = parse_u32_hex(strip_0x(tok)).unwrap() | movw_value(c.regs[reg].unwrap().assign);
        if in_segment(value, c.text_addr, c.text_size) {
            let off = (value - c.text_addr) as int;
            if off + 4 <= c.text_seg.len() && printable4(c.text_seg, off) {
                lit("/*s_text_") + hex8(value) + lit("*/ \"") + quoted_cstr(c.text_seg, off) + lit("\"")
            } else {
                let fv = chain_end(c.text_seg, c.text_addr, c.text_size, value);
                let k = fv & 0xFFFF_FFFEu32;
                if fv != value && c.symbols.contains_key(k) && c.symbols[k].sym_type & SYMBOL_SUBROUTINE != 0 {
                    encode_utf8(c.symbols[k].name)
                } else {
                    lit("/*text_") + hex8(value) + lit("*/ 0x") + hex8(fv)
                }
            }
        } else if in_segment(value, c.data_addr, c.data_size) {
            let off = (value - c.data_addr) as int;
            if off + 4 <= c.data_seg.len() && printable4(c.data_seg, off) {
                lit("/*s_data_") + hex8(value) + lit("*/ \"") + quoted_cstr(c.data_seg, off) + lit("\"")
            } else {
                lit("/*data_") + hex8(value) + lit("*/ 0x") + hex8(chain_end(c.data_seg, c.data_addr, c.data_size, value))
            }
        } else {
            lit("/*data_") + hex8(value) + lit("*/")
        }
    } else {
        a
    }
}

fn printable_at(seg: &[u8], off: usize) -> (r: bool)
    requires
        off + 4 <= seg@.len(),
    ensures
        r == printable4(seg@, off as int),
{
    let ok = |b: u8| -> (r: bool)
        ensures
            r == is_printable(b),
        { 0x20 <= b && b <= 0x7E };
    ok(seg[off]) && ok(seg[off + 1]) && ok(seg[off + 2]) && ok(seg[off + 3])
}

fn quote_cstr(seg: &[u8], off: usize) -> (r: Vec<u8>)
    requires
        off <= seg@.len(),
    ensures
        r@ == quoted_cstr(seg@, off as int),
{
    let s = read_cstr(seg, off);
    let lf: [u8; 1] = [10u8];
    let esc: [u8; 2] = [92u8, 110u8];
    assert(lf@ =~= line_feed());
    assert(esc@ =~= escaped_line_feed());
    replace_bytes(s.as_str().as_bytes(), lf.as_slice(), esc.as_slice())
}

/// Writes what a MOVT that completes a MOVW constant stands for (see
/// `movt_text`).
pub fn compose_movt_value(ctx: &Context, reg_id: u32, assign: &[u8]) -> (r: Vec<u8>)
    ensures
        r@ == movt_text(ctx@, reg_id, assign@),
{
    let empty: Vec<u8> = Vec::new();
    let tok: &[u8] = match first_word(assign) {
        Some(t) => t,
        None => empty.as_slice(),
    };
    let k = strip_0x_start(tok);
    let hi = parse_hex_u32(vstd::slice::slice_subrange(tok, k, tok.len()));
    let mut keep = true;
    let mut value: u32 = 0;
    match ctx.reg_assign_map.get(&reg_id) {
        Some(Some(prev)) => {
            if is_hex_or_dec(prev.assign.as_slice()) {
                match hi {
                    Some(h) => {
                        value = h | movw_value_exec(prev.assign.as_slice());
                        keep = false;
                    },
                    None => {},
                }
            }
        },
        _ => {},
    }
    let mut out: Vec<u8> = Vec::new();
    if keep {
        push_bytes(&mut out, assign);
        return out;
    }
    if value >= ctx.text_addr && value < ctx.text_addr.wrapping_add(ctx.text_size) {
        let off = (value - ctx.text_addr) as usize;
        let len = ctx.text_seg.len();
        if len >= 4 && off <= len - 4 && printable_at(ctx.text_seg.as_slice(), off) {
            push_str(&mut out, "/*s_text_");
            push_hex8(&mut out, value);
            push_str(&mut out, "*/ \"");
            let q = quote_cstr(ctx.text_seg.as_slice(), off);
            push_bytes(&mut out, q.as_slice());
            push_str(&mut out, "\"");
            return out;
        }
        let fv = check_dword_chain(ctx, value);
        let k = fv & 0xFFFF_FFFE;
        if fv != value {
            match ctx.symbols.get(&k) {
                Some(sym) => {
                    if sym.is_subroutine() {
                        push_str(&mut out, sym.name.as_str());
                        return out;
                    }
                },
                None => {},
            }
        }
        push_str(&mut out, "/*text_");
        push_hex8(&mut out, value);
        push_str(&mut out, "*/ 0x");
        push_hex8(&mut out, fv);
        return out;
    }
    if value >= ctx.data_addr && value < ctx.data_addr.wrapping_add(ctx.data_size) {
        let off = (value - ctx.data_addr) as usize;
        let len = ctx.data_seg.len();
        if len >= 4 && off <= len - 4 && printable_at(ctx.data_seg.as_slice(), off) {
            push_str(&mut out, "/*s_data_");
            push_hex8(&mut out, value);
            push_str(&mut out, "*/ \"");
            let q = quote_cstr(ctx.data_seg.as_slice(), off);
            push_bytes(&mut out, q.as_slice());
            push_str(&mut out, "\"");
            return out;
        }
        let fv = check_dword_chain_data(ctx, value);
        push_str(&mut out, "/*data_");
        push_hex8(&mut out, value);
        push_str(&mut out, "*/ 0x");
        push_hex8(&mut out, fv);
        return out;
    }
    push_str(&mut out, "/*data_");
    push_hex8(&mut out, value);
    push_str(&mut out, "*/");
    out
}

/// The declaration of parameter `i` (counted from 1).
pub open spec fn arg_decl(i: nat) -> Seq<u8> {
    lit("int arg") + dec_digits(i)
}

/// The declarations of the first `k` parameters, separated by `, `.
pub open spec fn args_decl_upto(k: nat) -> Seq<u8>
    decreases k,
{
    if k == 0 {
        Seq::empty()
    } else if k == 1 {
        arg_decl(1)
    } else {
        args_decl_upto((k - 1) as nat) + lit(", ") + arg_decl(k)
    }
}

/// The parameter list of a subroutine with `n_args` arguments (at most
/// eleven).
pub open spec fn args_decl(n_args: u32) -> Seq<u8> {
    args_decl_upto(if n_args < 11 { n_args as nat } else { 11 })
}

/// Writes the parameter list of a symbol: `int arg1, int arg2, ...`, one
/// per argument (at most eleven).
pub fn get_args_decl(sym: &Symbol) -> (r: Vec<u8>)
    ensures
        r@ == args_decl(sym.n_args),
{
    let n: u32 = if sym.n_args < 11 {
        sym.n_args
    } else {
        11
    };
    let mut out: Vec<u8> = Vec::new();
    let mut i: u32 = 0;
    while i < n
        invariant
            i <= n <= 11,
            n as nat == (if sym.n_args < 11 { sym.n_args as nat } else { 11 }),
            out@ == args_decl_upto(i as nat),
        decreases n - i,
    {
        if i > 0 {
            push_str(&mut out, ", ");
        }
        push_str(&mut out, "int arg");
        push_dec(&mut out, (i + 1) as u64);
        i = i + 1;
    }
    out
}

/// Argument `i` (from 0) of a call: for the first four, the expression last
/// assigned to its register, or the register's name; then the stack slots.
pub open spec fn arg_use(c: ContextView, i: nat) -> Seq<u8> {
    if i < 4 {
        let r = (ARM_REG_R0 + i) as u32;
        if c.regs.contains_key(r) && c.regs[r] is Some {
            c.regs[r].unwrap().assign
        } else {
            lit("a") + dec_digits(i + 1)
        }
    } else {
        lit("*(sp+") + dec_digits(((i - 4) * 4) as nat) + lit(")")
    }
}

/// The first `k` arguments of a call, separated by `, `.
pub open spec fn args_use_upto(c: ContextView, k: nat) -> Seq<u8>
    decreases k,
{
    if k == 0 {
        Seq::empty()
    } else if k == 1 {
        arg_use(c, 0)
    } else {
        args_use_upto(c, (k - 1) as nat) + lit(", ") + arg_use(c, (k - 1) as nat)
    }
}

/// The argument list of a call to a subroutine with `n_args` arguments (at
/// most eleven).
pub open spec fn args_use(c: ContextView, n_args: u32) -> Seq<u8> {
    args_use_upto(c, if n_args < 11 { n_args as nat } else { 11 })
}

fn arg_use_exec(ctx: &Context, i: u32) -> (r: Vec<u8>)
    requires
        i < 11,
    ensures
        r@ == arg_use(ctx@, i as nat),
{
    let mut out: Vec<u8> = Vec::new();
    if i < 4 {
        match ctx.reg_assign_map.get(&(ARM_REG_R0 + i)) {
            Some(Some(e)) => {
                push_bytes(&mut out, e.assign.as_slice());
                return out;
            },
            _ => {},
        }
        push_str(&mut out, "a");
        push_dec(&mut out, (i + 1) as u64);
    } else {
        push_str(&mut out, "*(sp+");
        push_dec(&mut out, ((i - 4) * 4) as u64);
        push_str(&mut out, ")");
    }
    out
}

/// Writes the argument list of a call: the values of r0-r3 (or their
/// names), then the stack slots, one per argument (at most eleven).
pub fn get_args_use_n(n_args: u32, ctx: &Context) -> (r: Vec<u8>)
    ensures
        r@ == args_use(ctx@, n_args),
{
    let n: u32 = if n_args < 11 {
        n_args
    } else {
        11
    };
    let mut out: Vec<u8> = Vec::new();
    let mut i: u32 = 0;
    while i < n
        invariant
            i <= n <= 11,
            n as nat == (if n_args < 11 { n_args as nat } else { 11 }),
            out@ == args_use_upto(ctx@, i as nat),
        decreases n - i,
    {
        if i > 0 {
            push_str(&mut out, ", ");
        }
        let part = arg_use_exec(ctx, i);
        push_bytes(&mut out, part.as_slice());
        i = i + 1;
    }
    out
}

/// A register list with the registers r0-r12 renamed to their APCS names
/// (from r12 down, so that `r1` does not match inside `r12`).
pub open spec fn rename_regs(s: Seq<u8>) -> Seq<u8> {
    let s = spec_replace(s, lit("r12"), lit("ip"));
    let s = spec_replace(s, lit("r11"), lit("fp"));
    let s = spec_replace(s, lit("r10"), lit("sl"));
    let s = spec_replace(s, lit("r9"), lit("sb"));
    let s = spec_replace(s, lit("r8"), lit("v5"));
    let s = spec_replace(s, lit("r7"), lit("v4"));
    let s = spec_replace(s, lit("r6"), lit("v3"));
    let s = spec_replace(s, lit("r5"), lit("v2"));
    let s = spec_replace(s, lit("r4"), lit("v1"));
    let s = spec_replace(s, lit("r3"), lit("a4"));
    let s = spec_replace(s, lit("r2"), lit("a3"));
    let s = spec_replace(s, lit("r1"), lit("a2"));
    spec_replace(s, lit("r0"), lit("a1"))
}

/// Renames the registers r0-r12 of a register list to their APCS names.
pub fn rename_regs_in_str(s: &[u8]) -> (r: Vec<u8>)
    ensures
        r@ == rename_regs(s@),
{
    proof {
        reveal_strlit("r12");
        reveal_strlit("r11");
        reveal_strlit("r10");
        reveal_strlit("r9");
        reveal_strlit("r8");
        reveal_strlit("r7");
        reveal_strlit("r6");
        reveal_strlit("r5");
        reveal_strlit("r4");
        reveal_strlit("r3");
        reveal_strlit("r2");
        reveal_strlit("r1");
        reveal_strlit("r0");
    }
    let r = replace_str(s, "r12", "ip");
    let r = replace_str(r.as_slice(), "r11", "fp");
    let r = replace_str(r.as_slice(), "r10", "sl");
    let r = replace_str(r.as_slice(), "r9", "sb");
    let r = replace_str(r.as_slice(), "r8", "v5");
    let r = replace_str(r.as_slice(), "r7", "v4");
    let r = replace_str(r.as_slice(), "r6", "v3");
    let r = replace_str(r.as_slice(), "r5", "v2");
    let r = replace_str(r.as_slice(), "r4", "v1");
    let r = replace_str(r.as_slice(), "r3", "a4");
    let r = replace_str(r.as_slice(), "r2", "a3");
    let r = replace_str(r.as_slice(), "r1", "a2");
    replace_str(r.as_slice(), "r0", "a1")
}

/// The line written for an instruction without a template: `return a1;`
/// for `bx lr` and POP, comments for PUSH, LDM/STM (with APCS register
/// names) and VFP instructions, nothing for NOP and IT, and inline
/// assembly for the rest.
pub open spec fn unknown_text(insn: ThumbInsnView) -> Seq<u8> {
    let raw = insn.mnemonic;
    let m = trim_w(raw);
    let ops = insn.op_str;
    if m == lit("bx") && ops == lit("lr") {
        lit("\treturn a1;\n")
    } else if m == lit("pop") {
        lit("\treturn a1; // ") + raw + lit(" ") + ops + lit("\n")
    } else if m == lit("push") {
        lit("\t// ") + raw + lit(" ") + ops + lit("\n")
    } else if spec_starts_with(m, lit("stm")) || spec_starts_with(m, lit("ldm")) {
        lit("\t// ") + raw + lit(" ") + rename_regs(ops) + lit("\n")
    } else if m == lit("nop") || spec_starts_with(m, lit("it")) {
        Seq::empty()
    } else if spec_starts_with(m, lit("v")) {
        lit("\t// vfp: ") + raw + lit(" ") + ops + lit("\n")
    } else {
        lit("\tasm(\"") + raw + lit(" ") + ops + lit("\\n\");\n")
    }
}

/// Writes the line for an instruction without a template (see
/// `unknown_text`).
pub fn handle_unknown(insn: &ThumbInsn) -> (r: Vec<u8>)
    ensures
        r@ == unknown_text(insn@),
{
    let raw = insn.mnemonic.as_slice();
    let m = trimmed_mnemonic(insn);
    let ops = insn.op_str.as_slice();
    let mut out: Vec<u8> = Vec::new();
    if is_mnemonic(&m, "bx") && bytes_eq(ops, "lr".as_bytes()) {
        push_str(&mut out, "\treturn a1;\n");
    } else if is_mnemonic(&m, "pop") {
        push_str(&mut out, "\treturn a1; // ");
        push_bytes(&mut out, raw);
        push_str(&mut out, " ");
        push_bytes(&mut out, ops);
        push_str(&mut out, "\n");
    } else if is_mnemonic(&m, "push") {
        push_str(&mut out, "\t// ");
        push_bytes(&mut out, raw);
        push_str(&mut out, " ");
        push_bytes(&mut out, ops);
        push_str(&mut out, "\n");
    } else if starts_with_bytes(m.as_slice(), "stm".as_bytes()) || starts_with_bytes(m.as_slice(), "ldm".as_bytes()) {
        push_str(&mut out, "\t// ");
        push_bytes(&mut out, raw);
        push_str(&mut out, " ");
        let renamed = rename_regs_in_str(ops);
        push_bytes(&mut out, renamed.as_slice());
        push_str(&mut out, "\n");
    } else if is_mnemonic(&m, "nop") || starts_with_bytes(m.as_slice(), "it".as_bytes()) {
    } else if starts_with_bytes(m.as_slice(), "v".as_bytes()) {
        push_str(&mut out, "\t// vfp: ");
        push_bytes(&mut out, raw);
        push_str(&mut out, " ");
        push_bytes(&mut out, ops);
        push_str(&mut out, "\n");
    } else {
        push_str(&mut out, "\tasm(\"");
        push_bytes(&mut out, raw);
        push_str(&mut out, " ");
        push_bytes(&mut out, ops);
        push_str(&mut out, "\\n\");\n");
    }
    assert(out@ =~= unknown_text(insn@));
    out
}

/// The assignment phase of rendering an instruction: a conditional assignment to a
/// register makes its value unknown; an assignment records the assigned
/// expression, and a MOVT that completes a numeric MOVW records, and is
/// written as, what the constant stands for (see `movt_text`), which ends
/// the rendering early with that line.
pub open spec fn translate_assign(
    c: ContextView,
    code: Seq<u8>,
    base: Seq<u8>,
    ops: Seq<Operand>,
    is_cond: bool,
    addr: u32,
    update_flags: bool,
) -> (ContextView, Option<Seq<u8>>) {
    if code.len() > 3 && code[3] == 0x3Du8 && !spec_contains(code, lit(" = symbol")) {
        if is_cond {
            if ops.len() > 0 && ops[0].kind is Reg {
                (ContextView { regs: c.regs.remove(ops[0].kind->Reg_0), ..c }, None)
            } else {
                (c, None)
            }
        } else {
            match assign_text(code) {
                None => (c, None),
                Some(a) => if ops.len() > 0 && ops[0].kind is Reg {
                    let reg = ops[0].kind->Reg_0;
                    if base == lit("movt") && c.regs.contains_key(reg) && c.regs[reg] is Some
                        && spec_is_hex_or_dec(c.regs[reg].unwrap().assign) {
                        let composed = movt_text(c, reg, a);
                        (
                            set_assign(c, reg, AssignView { assign: composed, addr, update_flags }),
                            Some(encode_utf8(spec_reg_name(reg)) + lit(" = ") + composed + lit(";")),
                        )
                    } else {
                        (set_assign(c, reg, AssignView { assign: a, addr, update_flags }), None)
                    }
                } else {
                    (c, None)
                },
            }
        }
    } else {
        (c, None)
    }
}

/// One of the first two operands in the symbol phase: the address of a
/// known subroutine or label names the `symbol` of the template, and a
/// subroutine's arguments fill its `...`; the second operand, where it
/// names no symbol, is written as capstone prints the operands.
pub open spec fn symbol_operand(c: ContextView, code: Seq<u8>, op: Operand, i: nat, op_str: Seq<u8>) -> Seq<u8> {
    match op.kind {
        OperandKind::Imm(imm) => {
            let t = imm as u32;
            if c.symbols.contains_key(t) {
                let s = c.symbols[t];
                if s.sym_type & SYMBOL_SUBROUTINE != 0 || s.sym_type & SYMBOL_LABEL != 0 {
                    let code1 = spec_replace(code, lit("symbol"), encode_utf8(s.name));
                    if s.sym_type & SYMBOL_SUBROUTINE != 0 {
                        spec_replace(code1, lit("..."), args_use(c, s.n_args))
                    } else {
                        code1
                    }
                } else {
                    code
                }
            } else if i == 1 {
                spec_replace(code, lit("symbol"), op_str)
            } else {
                code
            }
        },
        _ => code,
    }
}

/// The symbol phase over the first `k` operands.
pub open spec fn symbol_operands(c: ContextView, code: Seq<u8>, ops: Seq<Operand>, k: nat, op_str: Seq<u8>) -> Seq<u8>
    decreases k,
{
    if k == 0 {
        code
    } else {
        symbol_operand(c, symbol_operands(c, code, ops, (k - 1) as nat, op_str), ops[k - 1], (k - 1) as nat, op_str)
    }
}

/// The pseudo-C of one instruction with a template: its operands
/// substituted (registers composed with their known values unless they are
/// the destination), the assignment phase, then the symbols and call
/// arguments; a call clobbers r0-r3 and the flags.
#[verifier::opaque]
pub open spec fn translate_spec(
    c: ContextView,
    insn: ThumbInsnView,
    d: DetailView,
    base: Seq<u8>,
    addr: u32,
    tmpl: Seq<u8>,
) -> (ContextView, Seq<u8>) {
    let ops = d.operands;
    let (c1, code) = operands_fold(c, tmpl, tmpl, ops, ops.len(), base == lit("cmp"), false, true);
    let (c2, early) = translate_assign(c1, code, base, ops, d.cc != 15, addr, d.update_flags);
    match early {
        Some(line) => (c2, line),
        None => {
            let code3 = symbol_operands(c2, code, ops, if ops.len() < 2 { ops.len() } else { 2 }, insn.op_str);
            if base == lit("bl") || base == lit("blx") {
                (ContextView { regs: clear_arg_regs(c2.regs), use_flags: false, ..c2 }, code3)
            } else {
                (c2, code3)
            }
        },
    }
}

fn holds_numeric(ctx: &Context, reg: u32) -> (r: bool)
    ensures
        r == (ctx@.regs.contains_key(reg) && ctx@.regs[reg] is Some && spec_is_hex_or_dec(ctx@.regs[reg].unwrap().assign)),
{
    match ctx.reg_assign_map.get(&reg) {
        Some(Some(e)) => is_hex_or_dec(e.assign.as_slice()),
        _ => false,
    }
}

fn translate_assign_exec(
    ctx: &mut Context,
    code: &Vec<u8>,
    base: &Vec<u8>,
    ops: &Vec<Operand>,
    is_cond: bool,
    addr: u32,
    update_flags: bool,
) -> (r: Option<Vec<u8>>)
    ensures
        ({
            let (c2, early) = translate_assign(old(ctx)@, code@, base@, ops@, is_cond, addr, update_flags);
            &&& final(ctx)@ == c2
            &&& match r {
                Some(v) => early == Some(v@),
                None => early is None,
            }
        }),
{
    if !(code.len() > 3 && code[3] == 0x3Du8 && !contains_bytes(code.as_slice(), " = symbol".as_bytes())) {
        return None;
    }
    if is_cond {
        if ops.len() > 0 {
            match ops[0].kind {
                OperandKind::Reg(reg) => {
                    ctx.reg_assign_map.remove(&reg);
                    assert(regs_view(ctx.reg_assign_map@) =~= old(ctx)@.regs.remove(reg));
                },
                _ => {},
            }
        }
        return None;
    }
    let a = match assign_text_exec(code.as_slice()) {
        None => return None,
        Some(a) => a,
    };
    if ops.len() == 0 {
        return None;
    }
    match ops[0].kind {
        OperandKind::Reg(reg) => {
            if is_mnemonic(base, "movt") && holds_numeric(ctx, reg) {
                let composed = compose_movt_value(ctx, reg, a.as_slice());
                let mut line: Vec<u8> = Vec::new();
                push_str(&mut line, reg_name(reg));
                push_str(&mut line, " = ");
                push_bytes(&mut line, composed.as_slice());
                push_str(&mut line, ";");
                set_assign_exec(ctx, reg, RegisterAssignment { assign: composed, addr, update_flags });
                Some(line)
            } else {
                set_assign_exec(ctx, reg, RegisterAssignment { assign: a, addr, update_flags });
                None
            }
        },
        _ => None,
    }
}

fn symbol_phase(ctx: &Context, code: Vec<u8>, ops: &Vec<Operand>, op_str: &[u8]) -> (r: Vec<u8>)
    ensures
        r@ == symbol_operands(ctx@, code@, ops@, if ops@.len() < 2 { ops@.len() } else { 2 }, op_str@),
{
    let lim: usize = if ops.len() < 2 {
        ops.len()
    } else {
        2
    };
    let ghost code0 = code@;
    let mut code = code;
    let mut i: usize = 0;
    while i < lim
        invariant
            i <= lim <= ops@.len(),
            lim == (if ops@.len() < 2 { ops@.len() } else { 2 }),
            code@ == symbol_operands(ctx@, code0, ops@, i as nat, op_str@),
        decreases lim - i,
    {
        proof {
            reveal_strlit("symbol");
            reveal_strlit("...");
        }
        match ops[i].kind {
            OperandKind::Imm(imm) => {
                let t = imm as u32;
                match ctx.symbols.get(&t) {
                    Some(sym) => {
                        if sym.is_subroutine() || sym.is_label() {
                            code = replace_str(code.as_slice(), "symbol", sym.name.as_str());
                            if sym.is_subroutine() {
                                let args = get_args_use_n(sym.n_args, ctx);
                                proof {
                                    crate::text::lemma_encode_utf8_nonempty("..."@);
                                }
                                code = replace_bytes(code.as_slice(), "...".as_bytes(), args.as_slice());
                            }
                        }
                    },
                    None => {
                        if i == 1 {
                            proof {
                                crate::text::lemma_encode_utf8_nonempty("symbol"@);
                            }
                            code = replace_bytes(code.as_slice(), "symbol".as_bytes(), op_str);
                        }
                    },
                }
            },
            _ => {},
        }
        i = i + 1;
    }
    code
}

/// Renders one instruction with its template `code` as pseudo-C (see
/// `translate_spec`).
pub fn translate_instruction(
    insn: &ThumbInsn,
    d: &ArmDetail,
    ctx: &mut Context,
    base: &Vec<u8>,
    addr: u32,
    code: &str,
) -> (r: Vec<u8>)
    ensures
        (final(ctx)@, r@) == translate_spec(old(ctx)@, insn@, d@, base@, addr, encode_utf8(code@)),
{
    proof {
        reveal(translate_spec);
    }
    let mut out: Vec<u8> = Vec::new();
    push_str(&mut out, code);
    let is_compare = is_mnemonic(base, "cmp");
    substitute_operands(ctx, &mut out, code.as_bytes(), &d.operands, is_compare, false, true);
    match translate_assign_exec(ctx, &out, base, &d.operands, d.cc != 15, addr, d.update_flags) {
        Some(line) => {
            return line;
        },
        None => {},
    }
    let r = symbol_phase(ctx, out, &d.operands, insn.op_str.as_slice());
    if is_mnemonic(base, "bl") || is_mnemonic(base, "blx") {
        ctx.clear_regs_after_branch();
        ctx.use_flags = false;
    }
    r
}

/// The flag test a conditional instruction is written under, where its
/// mnemonic carries a condition with one.
pub open spec fn cond_header(insn: ThumbInsnView, d: DetailView) -> Option<Seq<char>> {
    match spec_cond_info(d.cc, trim_w(insn.mnemonic)).1 {
        Some(ci) => if ci.0.len() > 0 {
            Some(ci.0)
        } else {
            None
        },
        None => None,
    }
}

/// The lines an instruction's pseudo-C `tr` gives: the flag test it
/// stands under, if any, then the pseudo-C indented once (twice under a
/// flag test), its multi-statement breaks (`\`) turned into indented line
/// breaks and `()n` into an escaped line feed; the pseudo-C is left out
/// where the instruction is folded into a later use.
pub open spec fn emit_line(tr: Seq<u8>, header: Option<Seq<char>>, ignored: bool) -> Seq<u8> {
    let head = match header {
        Some(cf) => lit("\t") + encode_utf8(cf) + lit("\n"),
        None => Seq::empty(),
    };
    let indent = if header is Some {
        lit("\t\t")
    } else {
        lit("\t")
    };
    let tr2 = spec_replace(spec_replace(tr, lit("\\"), lit("\n") + indent), lit("()n"), lit("\\n"));
    if ignored {
        head
    } else {
        head + indent + tr2 + lit("\n")
    }
}

fn emit(tr: &[u8], header: Option<&str>, ignored: bool) -> (r: Vec<u8>)
    ensures
        r@ == emit_line(
            tr@,
            match header {
                Some(h) => Some(h@),
                None => None,
            },
            ignored,
        ),
{
    let mut out: Vec<u8> = Vec::new();
    let mut indent: Vec<u8> = Vec::new();
    match header {
        Some(cf) => {
            push_str(&mut out, "\t");
            push_str(&mut out, cf);
            push_str(&mut out, "\n");
            push_str(&mut indent, "\t\t");
        },
        None => {
            push_str(&mut indent, "\t");
        },
    }
    if ignored {
        return out;
    }
    proof {
        reveal_strlit("\\");
        reveal_strlit("()n");
        crate::text::lemma_encode_utf8_nonempty("\\"@);
    }
    let mut sep: Vec<u8> = Vec::new();
    push_str(&mut sep, "\n");
    push_bytes(&mut sep, indent.as_slice());
    let t1 = replace_bytes(tr, "\\".as_bytes(), sep.as_slice());
    let t2 = replace_str(t1.as_slice(), "()n", "\\n");
    push_bytes(&mut out, indent.as_slice());
    push_bytes(&mut out, t2.as_slice());
    push_str(&mut out, "\n");
    out
}

/// What one instruction adds to the source file: the line of pseudo-C
/// from its template (see `emit_line`), under the flag test of its
/// condition where it has one. An instruction without details or template
/// is written as `unknown_text` says.
#[verifier::opaque]
pub open spec fn pseudo_spec(c: ContextView, insn: ThumbInsnView) -> (ContextView, Seq<u8>) {
    let addr = insn.address as u32;
    match insn.detail {
        None => (c, unknown_text(insn)),
        Some(d) => {
            let c1 = if d.cc != 15 {
                ContextView { use_flags: true, ..c }
            } else {
                c
            };
            let c2 = if d.update_flags {
                ContextView { use_flags: false, cond_reg_1: Seq::empty(), cond_reg_2: Seq::empty(), ..c1 }
            } else {
                c1
            };
            let base = strip_flag_suffix(spec_cond_info(d.cc, trim_w(insn.mnemonic)).0, d.update_flags);
            match spec_instruction_code(base, d.operands.len() as u8) {
                None => (c2, unknown_text(insn)),
                Some(t) => if t.len() == 0 {
                    (c2, unknown_text(insn))
                } else {
                    let (c3, tr) = translate_spec(c2, insn, d, base, addr, encode_utf8(t));
                    (c3, emit_line(tr, cond_header(insn, d), c3.ignore.contains_key(addr) && c3.ignore[addr]))
                },
            }
        },
    }
}

fn header_of(cc: u32, m: &[u8]) -> (r: Option<&'static str>)
    ensures
        match spec_cond_info(cc, m@).1 {
            Some(ci) => if ci.0.len() > 0 {
                r matches Some(h) && h@ == ci.0
            } else {
                r is None
            },
            None => r is None,
        },
{
    let (_, ci) = get_cond_info(cc, m);
    match ci {
        Some((cf, _)) => {
            let b = cf.as_bytes();
            proof {
                if cf@.len() == 0 {
                    assert(encode_utf8(cf@) =~= Seq::<u8>::empty());
                } else {
                    crate::text::lemma_encode_utf8_nonempty(cf@);
                }
            }
            if b.len() > 0 {
                Some(cf)
            } else {
                None
            }
        },
        None => None,
    }
}

/// Renders one instruction as the lines it adds to the source file
/// (see `pseudo_spec`).
pub fn pseudo_code(insn: &ThumbInsn, ctx: &mut Context) -> (r: Vec<u8>)
    ensures
        (final(ctx)@, r@) == pseudo_spec(old(ctx)@, insn@),
{
    proof {
        reveal(pseudo_spec);
    }
    let addr = insn.address as u32;
    let d = match &insn.detail {
        None => return handle_unknown(insn),
        Some(d) => d,
    };
    if d.cc != 15 {
        ctx.use_flags = true;
    }
    if d.update_flags {
        ctx.use_flags = false;
        ctx.condition_reg_1 = Vec::new();
        ctx.condition_reg_2 = Vec::new();
    }
    let n = trim_w_len(insn.mnemonic.as_slice());
    let m = vstd::slice::slice_subrange(insn.mnemonic.as_slice(), 0, n);
    assert(m@ =~= trim_w(insn.mnemonic@));
    let (mb, _) = get_cond_info(d.cc, m);
    let header = header_of(d.cc, m);
    let mut mbv: Vec<u8> = Vec::new();
    push_bytes(&mut mbv, mb);
    let base = strip_flag_suffix_exec(mbv, d.update_flags);
    let code = match instruction_code(base.as_slice(), d.operands.len() as u8) {
        None => return handle_unknown(insn),
        Some(t) => t,
    };
    proof {
        if code@.len() == 0 {
            assert(encode_utf8(code@) =~= Seq::<u8>::empty());
        } else {
            crate::text::lemma_encode_utf8_nonempty(code@);
        }
    }
    if code.as_bytes().len() == 0 {
        return handle_unknown(insn);
    }
    let translated = translate_instruction(insn, d, ctx, &base, addr, code);
    let ignored = match ctx.ignore_map.get(&addr) {
        Some(b) => *b,
        None => false,
    };
    emit(translated.as_slice(), header, ignored)
}

/// The state of the rendering: the analysis state, the source and
/// header files written so far, whether no function has been opened yet,
/// and whether no import stub has been written yet.
pub struct EmitState {
    pub ctx: ContextView,
    pub c: Seq<u8>,
    pub h: Seq<u8>,
    pub first: bool,
    pub first_import: bool,
}

/// The `//VADDR: ... OFF: ...` comment of an address.
pub open spec fn vaddr_line(addr: u32, text_addr: u32) -> Seq<u8> {
    lit("//VADDR: ") + hex8(addr) + lit(" OFF: ") + hex8(wrapping_sub(addr, text_addr)) + lit("\n")
}

/// The prototype of a symbol: `int name(int arg1, ...)`.
pub open spec fn prototype(s: SymbolView) -> Seq<u8> {
    lit("int ") + encode_utf8(s.name) + lit("(") + args_decl(s.n_args) + lit(")")
}

/// What the symbol at `addr` (if any) opens, in the source and the header:
/// a subroutine closes the function before it (unless it is the first),
/// and opens a function with its address, its kind and its prototype,
/// declared in the header too; a label writes its name and address.
pub open spec fn symbol_header(c: ContextView, addr: u32, first: bool) -> (Seq<u8>, Seq<u8>, bool) {
    if c.symbols.contains_key(addr) {
        let s = c.symbols[addr];
        if s.sym_type & SYMBOL_SUBROUTINE != 0 {
            let close = if first {
                Seq::empty()
            } else {
                lit("}\n\n")
            };
            let tag = if s.sym_type & SYMBOL_IMPORT != 0 {
                lit("// Imported\n")
            } else if s.sym_type & SYMBOL_EXPORT != 0 {
                lit("// Exported\n")
            } else {
                Seq::empty()
            };
            (
                close + vaddr_line(addr, c.text_addr) + tag + prototype(s) + lit("\n{\n"),
                prototype(s) + lit(";\n"),
                false,
            )
        } else if s.sym_type & SYMBOL_LABEL != 0 {
            (lit("\n") + encode_utf8(s.name) + lit(":\n") + vaddr_line(addr, c.text_addr), Seq::empty(), first)
        } else {
            (Seq::empty(), Seq::empty(), first)
        }
    } else {
        (Seq::empty(), Seq::empty(), first)
    }
}

/// The rendering of one instruction: a symbol starts a new block with
/// no known register values; an import is written as a prototype in both
/// files (closing the last function before the first import) and skips
/// its four-instruction stub (the `bool` says so); otherwise the symbol's
/// header and the instruction's pseudo-C follow.
pub open spec fn decompile_step(st: EmitState, insn: ThumbInsnView) -> (EmitState, bool) {
    let addr = insn.address as u32;
    let c0 = if st.ctx.symbols.contains_key(addr) {
        ContextView { regs: Map::empty(), use_flags: false, ..st.ctx }
    } else {
        st.ctx
    };
    if c0.symbols.contains_key(addr) && c0.symbols[addr].sym_type & SYMBOL_IMPORT != 0 {
        let line = prototype(c0.symbols[addr]) + lit(";\n");
        let c1 = if st.first_import {
            st.c + lit("}\n\n")
        } else {
            st.c
        };
        (EmitState { ctx: c0, c: c1 + line, h: st.h + line, first: st.first, first_import: false }, true)
    } else {
        let (hc, hh, first) = symbol_header(c0, addr, st.first);
        let (c2, code) = pseudo_spec(c0, insn);
        (EmitState { ctx: c2, c: st.c + hc + code, h: st.h + hh, first, first_import: st.first_import }, false)
    }
}

/// The rendering from instruction `i` on.
pub open spec fn decompile_from(st: EmitState, insns: Seq<ThumbInsnView>, i: int) -> EmitState
    decreases insns.len() - i,
{
    if 0 <= i < insns.len() {
        let (st1, import) = decompile_step(st, insns[i]);
        let next: int = if !import {
            i + 1
        } else if i + 4 < insns.len() {
            i + 4
        } else {
            insns.len() as int
        };
        decompile_from(st1, insns, next)
    } else {
        st
    }
}

/// The rendering of a listing: the final analysis state, the source file
/// (its last function closed) and the header file.
pub open spec fn decompile_spec(c: ContextView, insns: Seq<ThumbInsnView>) -> (ContextView, Seq<u8>, Seq<u8>) {
    let st = decompile_from(EmitState { ctx: c, c: Seq::empty(), h: Seq::empty(), first: true, first_import: true }, insns, 0);
    (st.ctx, if st.first { st.c } else { st.c + lit("}\n") }, st.h)
}

fn write_prototype(out: &mut Vec<u8>, sym: &Symbol)
    ensures
        final(out)@ == old(out)@ + prototype(sym@),
{
    push_str(out, "int ");
    push_str(out, sym.name.as_str());
    push_str(out, "(");
    let args = get_args_decl(sym);
    push_bytes(out, args.as_slice());
    push_str(out, ")");
}

fn write_vaddr(out: &mut Vec<u8>, addr: u32, text_addr: u32)
    ensures
        final(out)@ == old(out)@ + vaddr_line(addr, text_addr),
{
    push_str(out, "//VADDR: ");
    push_hex8(out, addr);
    push_str(out, " OFF: ");
    push_hex8(out, addr.wrapping_sub(text_addr));
    push_str(out, "\n");
}

fn header_texts(ctx: &Context, addr: u32, first: bool) -> (r: (Vec<u8>, Vec<u8>, bool))
    ensures
        (r.0@, r.1@, r.2) == symbol_header(ctx@, addr, first),
{
    let mut hc: Vec<u8> = Vec::new();
    let mut hh: Vec<u8> = Vec::new();
    let mut f = first;
    match ctx.symbols.get(&addr) {
        Some(sym) => {
            if sym.is_subroutine() {
                if first {
                    f = false;
                } else {
                    push_str(&mut hc, "}\n\n");
                }
                write_vaddr(&mut hc, addr, ctx.text_addr);
                if sym.is_import() {
                    push_str(&mut hc, "// Imported\n");
                } else if sym.is_export() {
                    push_str(&mut hc, "// Exported\n");
                }
                let mut proto: Vec<u8> = Vec::new();
                write_prototype(&mut proto, sym);
                push_bytes(&mut hh, proto.as_slice());
                push_str(&mut hh, ";\n");
                push_bytes(&mut hc, proto.as_slice());
                push_str(&mut hc, "\n{\n");
            } else if sym.is_label() {
                push_str(&mut hc, "\n");
                push_str(&mut hc, sym.name.as_str());
                push_str(&mut hc, ":\n");
                write_vaddr(&mut hc, addr, ctx.text_addr);
            }
        },
        None => {},
    }
    proof {
        let (a, b, c) = symbol_header(ctx@, addr, first);
        assert(hc@ =~= a);
        assert(hh@ =~= b);
    }
    (hc, hh, f)
}

fn emit_insn(
    ctx: &mut Context,
    insn: &ThumbInsn,
    c_out: &mut Vec<u8>,
    h_out: &mut Vec<u8>,
    first: &mut bool,
    first_import: &mut bool,
) -> (import: bool)
    ensures
        decompile_step(
            EmitState { ctx: old(ctx)@, c: old(c_out)@, h: old(h_out)@, first: *old(first), first_import: *old(first_import) },
            insn@,
        ) == (EmitState { ctx: final(ctx)@, c: final(c_out)@, h: final(h_out)@, first: *final(first), first_import: *final(first_import) }, import),
{
    let addr = insn.address as u32;
    if ctx.symbols.contains_key(&addr) {
        ctx.free_reg_assign_map();
        ctx.use_flags = false;
    }
    let mut import_line: Option<Vec<u8>> = None;
    match ctx.symbols.get(&addr) {
        Some(sym) => {
            if sym.is_import() {
                let mut line: Vec<u8> = Vec::new();
                write_prototype(&mut line, sym);
                push_str(&mut line, ";\n");
                import_line = Some(line);
            }
        },
        None => {},
    }
    match import_line {
        Some(line) => {
            if *first_import {
                push_str(c_out, "}\n\n");
                *first_import = false;
            }
            push_bytes(c_out, line.as_slice());
            push_bytes(h_out, line.as_slice());
            return true;
        },
        None => {},
    }
    let (hc, hh, f) = header_texts(ctx, addr, *first);
    *first = f;
    let code = pseudo_code(insn, ctx);
    push_bytes(c_out, hc.as_slice());
    push_bytes(c_out, code.as_slice());
    push_bytes(h_out, hh.as_slice());
    assert(c_out@ =~= old(c_out)@ + hc@ + code@);
    false
}

/// Renders a listing as the source and header files (see
/// `decompile_spec`).
pub fn decompile_insns(ctx: &mut Context, insns: &Vec<ThumbInsn>) -> (r: (Vec<u8>, Vec<u8>))
    ensures
        (final(ctx)@, r.0@, r.1@) == decompile_spec(old(ctx)@, insns_view(insns@)),
{
    let ghost all = insns_view(insns@);
    let ghost init = EmitState { ctx: old(ctx)@, c: Seq::empty(), h: Seq::empty(), first: true, first_import: true };
    let mut c_out: Vec<u8> = Vec::new();
    let mut h_out: Vec<u8> = Vec::new();
    let mut first = true;
    let mut first_import = true;
    let len = insns.len();
    let mut i: usize = 0;
    while i < len
        invariant
            len == insns@.len(),
            i <= len,
            all == insns_view(insns@),
            decompile_from(
                EmitState { ctx: ctx@, c: c_out@, h: h_out@, first, first_import },
                all,
                i as int,
            ) == decompile_from(init, all, 0),
        decreases len - i,
    {
        let ghost i_old = i as int;
        let import = emit_insn(ctx, &insns[i], &mut c_out, &mut h_out, &mut first, &mut first_import);
        if import {
            i = if len - i > 4 {
                i + 4
            } else {
                len
            };
            assert(i as int == (if i_old + 4 < len { i_old + 4 } else { len as int }));
        } else {
            i = i + 1;
        }
    }
    if !first {
        push_str(&mut c_out, "}\n");
    }
    (c_out, h_out)
}

/// Renders the text segment up to the module info as pseudo-C: the
/// source file and the header file, as bytes.
pub fn decompile(ctx: &mut Context) -> (r: Result<(Vec<u8>, Vec<u8>), DisasmError>)
    requires
        old(ctx).mod_info_offset <= old(ctx).text_seg@.len(),
    ensures
        match r {
            Ok(files) => thumb_listing(code_of(old(ctx)@), old(ctx).text_addr as u64) matches Some(l)
                && (final(ctx)@, files.0@, files.1@) == decompile_spec(old(ctx)@, l),
            Err(e) => final(ctx)@ == old(ctx)@ && (e == DisasmError::Disasm ==> thumb_listing(
                code_of(old(ctx)@),
                old(ctx).text_addr as u64,
            ) is None),
        },
{
    let insns = match disassemble_code(ctx) {
        Ok(v) => v,
        Err(e) => return Err(e),
    };
    Ok(decompile_insns(ctx, &insns))
}

/// Whether a rendering step left the symbols, the segments and the
/// folded instructions as they were.
pub open spec fn same_analysis(c1: ContextView, c2: ContextView) -> bool {
    same_frame(c1, c2) && c2.ignore == c1.ignore
}

proof fn lemma_pseudo_keeps(c: ContextView, insn: ThumbInsnView)
    ensures
        same_analysis(c, pseudo_spec(c, insn).0),
{
    reveal(pseudo_spec);
    reveal(translate_spec);
    let addr = insn.address as u32;
    match insn.detail {
        None => {},
        Some(d) => {
            let c1 = if d.cc != 15 {
                ContextView { use_flags: true, ..c }
            } else {
                c
            };
            let c2 = if d.update_flags {
                ContextView { use_flags: false, cond_reg_1: Seq::empty(), cond_reg_2: Seq::empty(), ..c1 }
            } else {
                c1
            };
            let base = strip_flag_suffix(spec_cond_info(d.cc, trim_w(insn.mnemonic)).0, d.update_flags);
            match spec_instruction_code(base, d.operands.len() as u8) {
                None => {},
                Some(t) => {
                    let tmpl = encode_utf8(t);
                    let ops = d.operands;
                    lemma_operands_fold_frame(c2, tmpl, tmpl, ops, ops.len(), base == lit("cmp"), false, true);
                    let (c3, code) = operands_fold(c2, tmpl, tmpl, ops, ops.len(), base == lit("cmp"), false, true);
                    let (c4, early) = translate_assign(c3, code, base, ops, d.cc != 15, addr, d.update_flags);
                    assert(same_analysis(c3, c4));
                },
            }
        },
    }
}

proof fn lemma_decompile_from_keeps(st: EmitState, insns: Seq<ThumbInsnView>, i: int)
    ensures
        same_analysis(st.ctx, decompile_from(st, insns, i).ctx),
    decreases insns.len() - i,
{
    if 0 <= i < insns.len() {
        let insn = insns[i];
        let addr = insn.address as u32;
        let c0 = if st.ctx.symbols.contains_key(addr) {
            ContextView { regs: Map::empty(), use_flags: false, ..st.ctx }
        } else {
            st.ctx
        };
        lemma_pseudo_keeps(c0, insn);
        let (st1, import) = decompile_step(st, insn);
        let next: int = if !import {
            i + 1
        } else if i + 4 < insns.len() {
            i + 4
        } else {
            insns.len() as int
        };
        lemma_decompile_from_keeps(st1, insns, next);
    }
}

/// Rendering changes neither the symbols, nor the segments, nor the
/// set of instructions folded away by the analysis.
pub proof fn lemma_decompile_keeps_analysis(c: ContextView, insns: Seq<ThumbInsnView>)
    ensures
        same_analysis(c, decompile_spec(c, insns).0),
{
    lemma_decompile_from_keeps(
        EmitState { ctx: c, c: Seq::empty(), h: Seq::empty(), first: true, first_import: true },
        insns,
        0,
    );
}

/// Whether the pointer walk goes on from `a`: it lies strictly after the
/// segment's start, before its end, with four bytes there.
pub open spec fn chain_goes_on(seg: Seq<u8>, base: u32, size: u32, a: u32) -> bool {
    a > base && a < wrapping_add(base, size) && (a - base) + 4 <= seg.len()
}

proof fn lemma_chain_compose(seg: Seq<u8>, base: u32, size: u32, a: u32, m: nat, n: nat)
    ensures
        dword_chain(seg, base, size, a, m + n) == dword_chain(
            seg,
            base,
            size,
            dword_chain(seg, base, size, a, m),
            n,
        ),
    decreases m,
{
    if m > 0 && chain_goes_on(seg, base, size, a) {
        let next = le32(seg, (a - base) as int);
        lemma_chain_compose(seg, base, size, next, (m - 1) as nat, n);
        assert((m + n - 1) as nat == (m - 1) as nat + n);
    } else if m > 0 {
        assert(dword_chain(seg, base, size, a, n) == a);
    }
}

proof fn lemma_chain_prefix_goes_on(seg: Seq<u8>, base: u32, size: u32, a: u32, k: nat, l: nat)
    requires
        k <= l,
        chain_goes_on(seg, base, size, dword_chain(seg, base, size, a, l)),
    ensures
        chain_goes_on(seg, base, size, dword_chain(seg, base, size, a, k)),
{
    lemma_chain_compose(seg, base, size, a, k, (l - k) as nat);
    let xk = dword_chain(seg, base, size, a, k);
    if !chain_goes_on(seg, base, size, xk) {
        assert(dword_chain(seg, base, size, xk, (l - k) as nat) == xk);
        assert(k + (l - k) as nat == l);
    }
}

proof fn lemma_chain_repeats(seg: Seq<u8>, base: u32, size: u32, a: u32) -> (r: (nat, nat))
    requires
        chain_goes_on(seg, base, size, chain_end(seg, base, size, a)),
    ensures
        r.0 < r.1 <= seg.len() + 1,
        dword_chain(seg, base, size, a, r.0) == dword_chain(seg, base, size, a, r.1),
{
    let l: nat = seg.len() + 1;
    let offs = Seq::new(l + 1, |k: int| (dword_chain(seg, base, size, a, k as nat) - base) as int);
    assert forall|k: int| 0 <= k < offs.len() implies 1 <= #[trigger] offs[k] && offs[k] + 4 <= seg.len() by {
        lemma_chain_prefix_goes_on(seg, base, size, a, k as nat, l);
    }
    assert(seg.len() >= 5) by {
        lemma_chain_prefix_goes_on(seg, base, size, a, 0, l);
    }
    if offs.no_duplicates() {
        offs.unique_seq_to_set();
        vstd::set_lib::lemma_int_range(1, seg.len() - 3);
        assert(offs.to_set().subset_of(vstd::set_lib::set_int_range(1, seg.len() - 3))) by {
            assert forall|v: int| offs.to_set().contains(v) implies vstd::set_lib::set_int_range(1, seg.len() - 3).contains(v) by {
                let k = choose|k: int| 0 <= k < offs.len() && offs[k] == v;
            }
        }
        vstd::set_lib::lemma_len_subset(offs.to_set(), vstd::set_lib::set_int_range(1, seg.len() - 3));
        assert(false);
    }
    let (i, j) = choose|i: int, j: int| 0 <= i < offs.len() && 0 <= j < offs.len() && i != j && offs[i] == offs[j];
    let lo = if i < j { i } else { j };
    let hi = if i < j { j } else { i };
    assert(offs[lo] == offs[hi]);
    (lo as nat, hi as nat)
}

/// A pointer chain that the walk cuts (one that is still inside the
/// segment after one step more than the segment has bytes) never leaves the
/// segment: followed step by step, it goes round forever.
pub proof fn lemma_cut_chain_never_ends(seg: Seq<u8>, base: u32, size: u32, a: u32, n: nat)
    requires
        chain_goes_on(seg, base, size, chain_end(seg, base, size, a)),
    ensures
        chain_goes_on(seg, base, size, dword_chain(seg, base, size, a, n)),
    decreases n,
{
    let l: nat = seg.len() + 1;
    if n <= l {
        lemma_chain_prefix_goes_on(seg, base, size, a, n, l);
    } else {
        let (i, j) = lemma_chain_repeats(seg, base, size, a);
        let p = (j - i) as nat;
        lemma_chain_compose(seg, base, size, a, j, (n - j) as nat);
        lemma_chain_compose(seg, base, size, a, i, (n - j) as nat);
        assert(j + (n - j) as nat == n);
        assert(i + (n - j) as nat == (n - p) as nat);
        lemma_cut_chain_never_ends(seg, base, size, a, (n - p) as nat);
    }
}

} // verus!
