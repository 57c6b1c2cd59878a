//! The analysis passes over the disassembled text segment: symbol
//! discovery, argument counts and register assignments.
use vstd::prelude::*;
use std::collections::HashMap;
use crate::vita::{Symbol, SymbolView, symbols_view, add_symbol, insert_symbol_if_absent, in_text, cstr_from, is_printable, SYMBOL_LABEL, SYMBOL_STRING, SYMBOL_SUBROUTINE};
use crate::text::{lit, hex8_text, append_hex8, utf8_lossy, lossy_string, bytes_eq};
use crate::disasm::{ThumbInsn, ThumbInsnView, Operand, OperandKind, DisasmError, disassemble, thumb_listing, insns_view};
use crate::instructions::{condition, spec_condition, instruction_code, spec_instruction_code};
use crate::text::{occurs_at, spec_contains, contains_bytes, spec_starts_with, spec_ends_with, starts_with_bytes, ends_with_bytes, spec_replace, replace_bytes, spec_find, find_bytes, push_bytes, push_str, push_dec, dec_digits, hex8, push_hex8, first_token, first_word, strip_0x, strip_0x_start, parse_u32_hex, parse_hex_u32, parse_i32_dec, parse_dec_i32, spec_is_hex_or_dec, is_hex_or_dec};
use crate::instructions::{spec_handle_shift, handle_shift};
use crate::translate::{imm_text, get_imm_string};
use vstd::utf8::encode_utf8;
use vstd::wrapping::u32_specs::wrapping_add;
use vstd::std_specs::iter::IteratorSpec;

verus! {

pub const ARM_REG_LR: u32 = 10;

pub const ARM_REG_PC: u32 = 11;

pub const ARM_REG_SP: u32 = 12;

pub const ARM_REG_R0: u32 = 66;

pub const ARM_REG_R1: u32 = 67;

pub const ARM_REG_R2: u32 = 68;

pub const ARM_REG_R3: u32 = 69;

pub const ARM_REG_R4: u32 = 70;

pub const ARM_REG_R5: u32 = 71;

pub const ARM_REG_R6: u32 = 72;

pub const ARM_REG_R7: u32 = 73;

pub const ARM_REG_R8: u32 = 74;

pub const ARM_REG_R9: u32 = 75;

pub const ARM_REG_R10: u32 = 76;

pub const ARM_REG_R11: u32 = 77;

pub const ARM_REG_R12: u32 = 78;

/// The APCS name of a register (capstone's numbering), `unk` for any other.
pub open spec fn spec_reg_name(reg_id: u32) -> Seq<char> {
    if reg_id == ARM_REG_R0 {
        "a1"@
    } else if reg_id == ARM_REG_R1 {
        "a2"@
    } else if reg_id == ARM_REG_R2 {
        "a3"@
    } else if reg_id == ARM_REG_R3 {
        "a4"@
    } else if reg_id == ARM_REG_R4 {
        "v1"@
    } else if reg_id == ARM_REG_R5 {
        "v2"@
    } else if reg_id == ARM_REG_R6 {
        "v3"@
    } else if reg_id == ARM_REG_R7 {
        "v4"@
    } else if reg_id == ARM_REG_R8 {
        "v5"@
    } else if reg_id == ARM_REG_R9 {
        "sb"@
    } else if reg_id == ARM_REG_R10 {
        "sl"@
    } else if reg_id == ARM_REG_R11 {
        "fp"@
    } else if reg_id == ARM_REG_R12 {
        "ip"@
    } else if reg_id == ARM_REG_SP {
        "sp"@
    } else if reg_id == ARM_REG_LR {
        "lr"@
    } else if reg_id == ARM_REG_PC {
        "pc"@
    } else {
        "unk"@
    }
}

/// The APCS name of a register.
pub fn reg_name(reg_id: u32) -> (r: &'static str)
    ensures
        r@ == spec_reg_name(reg_id),
{
    if reg_id == ARM_REG_R0 {
        "a1"
    } else if reg_id == ARM_REG_R1 {
        "a2"
    } else if reg_id == ARM_REG_R2 {
        "a3"
    } else if reg_id == ARM_REG_R3 {
        "a4"
    } else if reg_id == ARM_REG_R4 {
        "v1"
    } else if reg_id == ARM_REG_R5 {
        "v2"
    } else if reg_id == ARM_REG_R6 {
        "v3"
    } else if reg_id == ARM_REG_R7 {
        "v4"
    } else if reg_id == ARM_REG_R8 {
        "v5"
    } else if reg_id == ARM_REG_R9 {
        "sb"
    } else if reg_id == ARM_REG_R10 {
        "sl"
    } else if reg_id == ARM_REG_R11 {
        "fp"
    } else if reg_id == ARM_REG_R12 {
        "ip"
    } else if reg_id == ARM_REG_SP {
        "sp"
    } else if reg_id == ARM_REG_LR {
        "lr"
    } else if reg_id == ARM_REG_PC {
        "pc"
    } else {
        "unk"
    }
}

/// The APCS name of a register (capstone's numbering): `a1`-`a4` for
/// r0-r3, `v1`-`v5` for r4-r8, `sb`, `sl`, `fp`, `ip`, `sp`, `lr`, `pc`,
/// and `unk` for any other.
pub fn get_reg_name(reg_id: u32) -> (r: String)
    ensures
        r@ == spec_reg_name(reg_id),
{
    String::from_str(reg_name(reg_id))
}


broadcast use vstd::std_specs::hash::group_hash_axioms;

/// The most recent value assigned to a register: its pseudo-C expression,
/// the address of the instruction that assigned it, and whether that
/// instruction updated the flags.
#[derive(Clone, Debug)]
pub struct RegisterAssignment {
    pub assign: Vec<u8>,
    pub addr: u32,
    pub update_flags: bool,
}

/// A register assignment, as plain values.
pub struct AssignView {
    pub assign: Seq<u8>,
    pub addr: u32,
    pub update_flags: bool,
}

impl View for RegisterAssignment {
    type V = AssignView;

    open spec fn view(&self) -> AssignView {
        AssignView { assign: self.assign@, addr: self.addr, update_flags: self.update_flags }
    }
}

/// The state of the analysis: the symbols, the MOVW values seen per
/// register, the addresses whose instruction is folded into a later one,
/// the current register assignments, whether the flags are live, the two
/// registers of the last comparison, and the segments.
pub struct Context {
    pub symbols: HashMap<u32, Symbol>,
    pub movw_map: HashMap<u32, u32>,
    pub ignore_map: HashMap<u32, bool>,
    pub reg_assign_map: HashMap<u32, Option<RegisterAssignment>>,
    pub use_flags: bool,
    pub condition_reg_1: Vec<u8>,
    pub condition_reg_2: Vec<u8>,
    pub text_seg: Vec<u8>,
    pub data_seg: Vec<u8>,
    pub text_addr: u32,
    pub text_size: u32,
    pub data_addr: u32,
    pub data_size: u32,
    pub mod_info_offset: u32,
}

/// The state of the analysis, as plain values.
pub struct ContextView {
    pub symbols: Map<u32, SymbolView>,
    pub movw: Map<u32, u32>,
    pub ignore: Map<u32, bool>,
    pub regs: Map<u32, Option<AssignView>>,
    pub use_flags: bool,
    pub cond_reg_1: Seq<u8>,
    pub cond_reg_2: Seq<u8>,
    pub text_seg: Seq<u8>,
    pub data_seg: Seq<u8>,
    pub text_addr: u32,
    pub text_size: u32,
    pub data_addr: u32,
    pub data_size: u32,
    pub mod_info_offset: u32,
}

/// The register assignments of a map, as plain values.
pub open spec fn regs_view(m: Map<u32, Option<RegisterAssignment>>) -> Map<u32, Option<AssignView>> {
    m.map_values(
        |a: Option<RegisterAssignment>|
            match a {
                Some(r) => Some(r@),
                None => None,
            },
    )
}

impl View for Context {
    type V = ContextView;

    open spec fn view(&self) -> ContextView {
        ContextView {
            symbols: symbols_view(self.symbols@),
            movw: self.movw_map@,
            ignore: self.ignore_map@,
            regs: regs_view(self.reg_assign_map@),
            use_flags: self.use_flags,
            cond_reg_1: self.condition_reg_1@,
            cond_reg_2: self.condition_reg_2@,
            text_seg: self.text_seg@,
            data_seg: self.data_seg@,
            text_addr: self.text_addr,
            text_size: self.text_size,
            data_addr: self.data_addr,
            data_size: self.data_size,
            mod_info_offset: self.mod_info_offset,
        }
    }
}

/// `c` with its symbols replaced.
pub open spec fn with_symbols(c: ContextView, symbols: Map<u32, SymbolView>) -> ContextView {
    ContextView { symbols, ..c }
}

/// The state after `ignore_addr(reg)`: the instruction that last assigned
/// `reg` is marked as folded into its use, unless it set flags that are
/// still live.
pub open spec fn ignore_addr_spec(c: ContextView, reg: u32) -> ContextView {
    if c.regs.contains_key(reg) && c.regs[reg] is Some {
        let e = c.regs[reg].unwrap();
        if e.update_flags && c.use_flags {
            c
        } else {
            ContextView { ignore: c.ignore.insert(e.addr, true), ..c }
        }
    } else {
        c
    }
}

/// The register-assignment map without the argument registers r0-r3.
pub open spec fn clear_arg_regs(m: Map<u32, Option<AssignView>>) -> Map<u32, Option<AssignView>> {
    m.remove(ARM_REG_R0).remove(ARM_REG_R1).remove(ARM_REG_R2).remove(ARM_REG_R3)
}

impl Context {
    /// A fresh analysis state over the given segments and symbols.
    #[allow(clippy::too_many_arguments)]
    pub fn new(
        text_seg: Vec<u8>,
        data_seg: Vec<u8>,
        text_addr: u32,
        text_size: u32,
        data_addr: u32,
        data_size: u32,
        mod_info_offset: u32,
        symbols: HashMap<u32, Symbol>,
    ) -> (r: Context)
        ensures
            r@ == (ContextView {
                symbols: symbols_view(symbols@),
                movw: Map::empty(),
                ignore: Map::empty(),
                regs: Map::empty(),
                use_flags: false,
                cond_reg_1: Seq::empty(),
                cond_reg_2: Seq::empty(),
                text_seg: text_seg@,
                data_seg: data_seg@,
                text_addr,
                text_size,
                data_addr,
                data_size,
                mod_info_offset,
            }),
    {
        let r = Context {
            symbols,
            movw_map: HashMap::new(),
            ignore_map: HashMap::new(),
            reg_assign_map: HashMap::new(),
            use_flags: false,
            condition_reg_1: Vec::new(),
            condition_reg_2: Vec::new(),
            text_seg,
            data_seg,
            text_addr,
            text_size,
            data_addr,
            data_size,
            mod_info_offset,
        };
        assert(regs_view(r.reg_assign_map@) =~= Map::empty());
        r
    }

    /// Adds a symbol at `addr` unless there is one.
    pub fn add_symbol(&mut self, addr: u32, name: String, sym_type: u32)
        ensures
            final(self)@ == with_symbols(old(self)@, add_symbol(old(self)@.symbols, addr, name@, sym_type)),
    {
        insert_symbol_if_absent(&mut self.symbols, addr, name, sym_type);
    }

    /// Forgets every register assignment.
    pub fn free_reg_assign_map(&mut self)
        ensures
            final(self)@ == (ContextView { regs: Map::empty(), ..old(self)@ }),
    {
        self.reg_assign_map.clear();
        assert(regs_view(self.reg_assign_map@) =~= Map::empty());
    }

    /// Forgets the assignments of the argument registers r0-r3, which a call
    /// clobbers.
    pub fn clear_regs_after_branch(&mut self)
        ensures
            final(self)@ == (ContextView { regs: clear_arg_regs(old(self)@.regs), ..old(self)@ }),
    {
        self.reg_assign_map.remove(&ARM_REG_R0);
        self.reg_assign_map.remove(&ARM_REG_R1);
        self.reg_assign_map.remove(&ARM_REG_R2);
        self.reg_assign_map.remove(&ARM_REG_R3);
        assert(regs_view(self.reg_assign_map@) =~= clear_arg_regs(old(self)@.regs));
    }

    /// Marks the instruction that last assigned `reg` as folded into its
    /// use, unless it set flags that are still live.
    pub fn ignore_addr(&mut self, reg: u32)
        ensures
            final(self)@ == ignore_addr_spec(old(self)@, reg),
    {
        let mut target: Option<u32> = None;
        match self.reg_assign_map.get(&reg) {
            Some(Some(entry)) => {
                if !(entry.update_flags && self.use_flags) {
                    target = Some(entry.addr);
                }
            },
            _ => {},
        }
        match target {
            Some(a) => {
                self.ignore_map.insert(a, true);
            },
            None => {},
        }
    }
}

/// The bytes of `.w`, the wide-encoding suffix of Thumb-2 mnemonics.
pub open spec fn dot_w() -> Seq<u8> {
    seq![0x2Eu8, 0x77u8]
}

/// A mnemonic without its `.w` suffixes.
pub open spec fn trim_w(m: Seq<u8>) -> Seq<u8>
    decreases m.len(),
{
    if m.len() >= 2 && m.skip(m.len() - 2) == dot_w() {
        trim_w(m.take(m.len() - 2))
    } else {
        m
    }
}

/// The length of a mnemonic without its `.w` suffixes.
pub fn trim_w_len(m: &[u8]) -> (n: usize)
    ensures
        n <= m@.len(),
        m@.take(n as int) == trim_w(m@),
{
    let mut n = m.len();
    assert(m@.take(n as int) =~= m@);
    while n >= 2 && m[n - 2] == 0x2E && m[n - 1] == 0x77
        invariant
            n <= m@.len(),
            trim_w(m@.take(n as int)) == trim_w(m@),
        decreases n,
    {
        assert(m@.take(n as int).skip(n - 2) =~= dot_w());
        assert(m@.take(n as int).take(n - 2) =~= m@.take(n - 2));
        n = n - 2;
    }
    proof {
        let t = m@.take(n as int);
        if t.len() >= 2 && t.skip(t.len() - 2) == dot_w() {
            assert(t.skip(t.len() - 2)[0] == m@[n - 2]);
            assert(t.skip(t.len() - 2)[1] == m@[n - 1]);
        }
    }
    n
}

/// The condition-code suffix of a capstone condition code.
pub open spec fn cc_suffix(cc: u32) -> Option<Seq<u8>> {
    if cc == 1 {
        Some(lit("eq"))
    } else if cc == 2 {
        Some(lit("ne"))
    } else if cc == 3 {
        Some(lit("hs"))
    } else if cc == 4 {
        Some(lit("lo"))
    } else if cc == 9 {
        Some(lit("hi"))
    } else if cc == 10 {
        Some(lit("ls"))
    } else if cc == 11 {
        Some(lit("ge"))
    } else if cc == 12 {
        Some(lit("lt"))
    } else if cc == 13 {
        Some(lit("gt"))
    } else if cc == 14 {
        Some(lit("le"))
    } else if cc == 5 {
        Some(lit("mi"))
    } else if cc == 6 {
        Some(lit("pl"))
    } else if cc == 7 {
        Some(lit("vs"))
    } else if cc == 8 {
        Some(lit("vc"))
    } else {
        None
    }
}

fn cc_suffix_str(cc: u32) -> (r: Option<&'static str>)
    ensures
        match r {
            Some(s) => cc_suffix(cc) == Some(lit(s)),
            None => cc_suffix(cc) is None,
        },
{
    if cc == 1 {
        Some("eq")
    } else if cc == 2 {
        Some("ne")
    } else if cc == 3 {
        Some("hs")
    } else if cc == 4 {
        Some("lo")
    } else if cc == 9 {
        Some("hi")
    } else if cc == 10 {
        Some("ls")
    } else if cc == 11 {
        Some("ge")
    } else if cc == 12 {
        Some("lt")
    } else if cc == 13 {
        Some("gt")
    } else if cc == 14 {
        Some("le")
    } else if cc == 5 {
        Some("mi")
    } else if cc == 6 {
        Some("pl")
    } else if cc == 7 {
        Some("vs")
    } else if cc == 8 {
        Some("vc")
    } else {
        None
    }
}

/// A conditional mnemonic split into its base and its condition: where the
/// instruction is conditional and the mnemonic ends in the suffix of its
/// condition code, the base is the mnemonic without the suffix and the
/// condition is the one the suffix names; else the mnemonic is its own base.
pub open spec fn spec_cond_info(cc: u32, m: Seq<u8>) -> (Seq<u8>, Option<(Seq<char>, Seq<char>)>) {
    if cc == 15 || m.len() < 2 {
        (m, None)
    } else {
        match cc_suffix(cc) {
            None => (m, None),
            Some(sfx) => if m.skip(m.len() - 2) == sfx && spec_condition(sfx) is Some {
                (m.take(m.len() - 2), spec_condition(sfx))
            } else {
                (m, None)
            },
        }
    }
}

/// Splits a conditional mnemonic into its base and its condition.
pub fn get_cond_info<'a>(cc: u32, mnemonic: &'a [u8]) -> (r: (&'a [u8], Option<(&'static str, &'static str)>))
    ensures
        r.0@ == spec_cond_info(cc, mnemonic@).0,
        match r.1 {
            Some(c) => spec_cond_info(cc, mnemonic@).1 == Some((c.0@, c.1@)),
            None => spec_cond_info(cc, mnemonic@).1 is None,
        },
{
    let len = mnemonic.len();
    if cc == 15 || len < 2 {
        return (mnemonic, None);
    }
    let name = match cc_suffix_str(cc) {
        None => return (mnemonic, None),
        Some(n) => n,
    };
    let suffix = vstd::slice::slice_subrange(mnemonic, len - 2, len);
    assert(suffix@ =~= mnemonic@.skip(len - 2));
    if bytes_eq(suffix, name.as_bytes()) {
        match condition(name.as_bytes()) {
            Some(c) => {
                let base = vstd::slice::slice_subrange(mnemonic, 0, len - 2);
                assert(base@ =~= mnemonic@.take(len - 2));
                return (base, Some((c.cond_flags, c.cond_regs)));
            },
            None => {},
        }
    }
    (mnemonic, None)
}

/// The base mnemonic of an instruction: without `.w` suffixes and without
/// its condition suffix.
pub open spec fn base_mnemonic(insn: ThumbInsnView) -> Seq<u8> {
    match insn.detail {
        Some(d) => spec_cond_info(d.cc, trim_w(insn.mnemonic)).0,
        None => trim_w(insn.mnemonic),
    }
}

/// The `loc_<addr>` or `sub_<addr>` name of an address.
pub open spec fn addr_name(prefix: Seq<char>, addr: u32) -> Seq<char> {
    prefix + hex8_text(addr)
}

fn make_addr_name(prefix: &str, addr: u32) -> (r: String)
    ensures
        r@ == addr_name(prefix@, addr),
{
    let mut s = String::from_str(prefix);
    append_hex8(&mut s, addr);
    s
}

/// Whether the four bytes at `off` are printable ASCII.
pub open spec fn printable4(s: Seq<u8>, off: int) -> bool {
    is_printable(s[off]) && is_printable(s[off + 1]) && is_printable(s[off + 2]) && is_printable(s[off + 3])
}

/// The effect on the symbols of a MOVW/MOVT pair that loads `value`: a
/// string symbol where the value points past the module info at four
/// printable bytes of the text segment, else a subroutine.
pub open spec fn movt_symbols(c: ContextView, value: u32) -> Map<u32, SymbolView> {
    if in_text(value, c.text_addr, c.text_size) {
        let off = (value - c.text_addr) as int;
        if off + 4 <= c.text_seg.len() {
            if value > wrapping_add(c.text_addr, c.mod_info_offset) && printable4(c.text_seg, off) {
                add_symbol(c.symbols, value, utf8_lossy(cstr_from(c.text_seg, off)), SYMBOL_STRING)
            } else {
                add_symbol(c.symbols, value & 0xFFFF_FFFEu32, addr_name("sub_"@, value & 0xFFFF_FFFEu32), SYMBOL_SUBROUTINE)
            }
        } else {
            c.symbols
        }
    } else {
        c.symbols
    }
}

/// The symbol a branch target adds, if it lies in the text segment and has
/// none.
pub open spec fn target_symbols(c: ContextView, target: u32, prefix: Seq<char>, sym_type: u32) -> Map<u32, SymbolView> {
    if in_text(target, c.text_addr, c.text_size) && !c.symbols.contains_key(target) {
        add_symbol(c.symbols, target, addr_name(prefix, target), sym_type)
    } else {
        c.symbols
    }
}

/// Pass 1 on one instruction: branch and call targets become labels and
/// subroutines, CBZ/CBNZ targets labels, MOV/MOVW immediates are recorded
/// per register, and a MOVT that completes a recorded MOVW adds a string or
/// a subroutine symbol.
pub open spec fn pass1_step(c: ContextView, insn: ThumbInsnView) -> ContextView {
    match insn.detail {
        None => c,
        Some(d) => {
            let base = base_mnemonic(insn);
            let ops = d.operands;
            let is_branch = base == lit("b");
            let c1 = if (is_branch || base == lit("bl") || base == lit("blx")) && ops.len() > 0 && ops[0].kind is Imm {
                let t = ops[0].kind->Imm_0 as u32;
                with_symbols(c, target_symbols(c, t, if is_branch { "loc_"@ } else { "sub_"@ }, if is_branch { SYMBOL_LABEL } else { SYMBOL_SUBROUTINE }))
            } else {
                c
            };
            let c2 = if (base == lit("cbz") || base == lit("cbnz")) && ops.len() >= 2 && ops[1].kind is Imm {
                with_symbols(c1, target_symbols(c1, ops[1].kind->Imm_0 as u32, "loc_"@, SYMBOL_LABEL))
            } else {
                c1
            };
            let c3 = if (base == lit("mov") || base == lit("movw")) && ops.len() >= 2 && ops[0].kind is Reg && ops[1].kind is Imm {
                ContextView { movw: c2.movw.insert(ops[0].kind->Reg_0, ops[1].kind->Imm_0 as u32), ..c2 }
            } else {
                c2
            };
            if base == lit("movt") && ops.len() >= 2 && ops[0].kind is Reg && ops[1].kind is Imm && c3.movw.contains_key(ops[0].kind->Reg_0) {
                let value = ((ops[1].kind->Imm_0 as u32) << 16u32) | c3.movw[ops[0].kind->Reg_0];
                with_symbols(c3, movt_symbols(c3, value))
            } else {
                c3
            }
        },
    }
}

/// Pass 1 over a list of instructions, in order.
pub open spec fn pass1_fold(c: ContextView, insns: Seq<ThumbInsnView>) -> ContextView
    decreases insns.len(),
{
    if insns.len() == 0 {
        c
    } else {
        pass1_step(pass1_fold(c, insns.drop_last()), insns.last())
    }
}


/// The addresses that have symbols, each once.
fn symbol_addresses(m: &HashMap<u32, Symbol>) -> (r: Vec<u32>)
    ensures
        r@.to_set() == m@.dom(),
        r@.no_duplicates(),
{
    let mut r: Vec<u32> = Vec::new();
    proof {
        vstd::std_specs::hash::axiom_spec_keys_iter(m);
    }
    for k in it: m.keys()
        invariant
            r@ == it.seq().take(it.index()).unref(),
            it.seq().unref().to_set() == m@.dom(),
            it.seq().unref().no_duplicates(),
            it.index() == it.seq().len() ==> (r@.to_set() == m@.dom() && r@.no_duplicates()),
    {
        r.push(*k);
        assert(r@ =~= it.seq().take(it.index() + 1).unref());
        assert(it.index() + 1 == it.seq().len() ==> it.seq().take(it.index() + 1) =~= it.seq());
    }
    r
}

/// Reads the NUL-terminated string at `offset` as text (invalid UTF-8
/// replaced).
pub fn read_cstr(data: &[u8], offset: usize) -> (r: String)
    requires
        offset <= data@.len(),
    ensures
        r@ == utf8_lossy(cstr_from(data@, offset as int)),
{
    let mut end = offset;
    while end < data.len() && data[end] != 0
        invariant
            offset <= end <= data@.len(),
            data@.subrange(offset as int, end as int) + cstr_from(data@, end as int) == cstr_from(data@, offset as int),
        decreases data@.len() - end,
    {
        assert(data@.subrange(offset as int, end + 1) =~= data@.subrange(offset as int, end as int) + seq![data@[end as int]]);
        end = end + 1;
    }
    assert(data@.subrange(offset as int, end as int) + cstr_from(data@, end as int) =~= data@.subrange(offset as int, end as int));
    lossy_string(vstd::slice::slice_subrange(data, offset, end))
}

fn add_target_symbol(ctx: &mut Context, target: u32, prefix: &str, sym_type: u32)
    ensures
        final(ctx)@ == with_symbols(old(ctx)@, target_symbols(old(ctx)@, target, prefix@, sym_type)),
{
    if target >= ctx.text_addr && target < ctx.text_addr.wrapping_add(ctx.text_size) && !ctx.symbols.contains_key(&target) {
        ctx.add_symbol(target, make_addr_name(prefix, target), sym_type);
    }
}

fn is_printable_byte(b: u8) -> (r: bool)
    ensures
        r == is_printable(b),
{
    0x20 <= b && b <= 0x7E
}

fn add_movt_symbol(ctx: &mut Context, value: u32)
    ensures
        final(ctx)@ == with_symbols(old(ctx)@, movt_symbols(old(ctx)@, value)),
{
    if value >= ctx.text_addr && value < ctx.text_addr.wrapping_add(ctx.text_size) {
        let off = (value - ctx.text_addr) as usize;
        if ctx.text_seg.len() >= 4 && off <= ctx.text_seg.len() - 4 {
            let t = &ctx.text_seg;
            if value > ctx.text_addr.wrapping_add(ctx.mod_info_offset) && is_printable_byte(t[off])
                && is_printable_byte(t[off + 1]) && is_printable_byte(t[off + 2]) && is_printable_byte(t[off + 3]) {
                let s = read_cstr(t.as_slice(), off);
                ctx.add_symbol(value, s, SYMBOL_STRING);
            } else {
                let a = value & 0xFFFF_FFFE;
                ctx.add_symbol(a, make_addr_name("sub_", a), SYMBOL_SUBROUTINE);
            }
        }
    }
}

/// The base mnemonic of an instruction, as bytes.
pub fn insn_base(insn: &ThumbInsn) -> (r: Vec<u8>)
    ensures
        r@ == base_mnemonic(insn@),
{
    let n = trim_w_len(insn.mnemonic.as_slice());
    let m = vstd::slice::slice_subrange(insn.mnemonic.as_slice(), 0, n);
    assert(m@ =~= insn.mnemonic@.take(n as int));
    let mut out: Vec<u8> = Vec::new();
    match &insn.detail {
        Some(d) => {
            let (b, _) = get_cond_info(d.cc, m);
            crate::text::push_bytes(&mut out, b);
        },
        None => {
            crate::text::push_bytes(&mut out, m);
        },
    }
    assert(out@ =~= base_mnemonic(insn@));
    out
}

pub(crate) fn is_mnemonic(base: &Vec<u8>, name: &str) -> (r: bool)
    ensures
        r == (base@ == lit(name)),
{
    bytes_eq(base.as_slice(), name.as_bytes())
}

fn pass1_insn(ctx: &mut Context, insn: &ThumbInsn)
    ensures
        final(ctx)@ == pass1_step(old(ctx)@, insn@),
{
    let d = match &insn.detail {
        None => return ,
        Some(d) => d,
    };
    let base = insn_base(insn);
    let ops = &d.operands;
    let is_branch = is_mnemonic(&base, "b");
    if (is_branch || is_mnemonic(&base, "bl") || is_mnemonic(&base, "blx")) && ops.len() > 0 {
        match ops[0].kind {
            OperandKind::Imm(imm) => {
                if is_branch {
                    add_target_symbol(ctx, imm as u32, "loc_", SYMBOL_LABEL);
                } else {
                    add_target_symbol(ctx, imm as u32, "sub_", SYMBOL_SUBROUTINE);
                }
            },
            _ => {},
        }
    }
    if (is_mnemonic(&base, "cbz") || is_mnemonic(&base, "cbnz")) && ops.len() >= 2 {
        match ops[1].kind {
            OperandKind::Imm(imm) => {
                add_target_symbol(ctx, imm as u32, "loc_", SYMBOL_LABEL);
            },
            _ => {},
        }
    }
    if (is_mnemonic(&base, "mov") || is_mnemonic(&base, "movw")) && ops.len() >= 2 {
        match (ops[0].kind, ops[1].kind) {
            (OperandKind::Reg(reg), OperandKind::Imm(imm)) => {
                ctx.movw_map.insert(reg, imm as u32);
            },
            _ => {},
        }
    }
    if is_mnemonic(&base, "movt") && ops.len() >= 2 {
        match (ops[0].kind, ops[1].kind) {
            (OperandKind::Reg(reg), OperandKind::Imm(imm)) => {
                match ctx.movw_map.get(&reg) {
                    Some(v) => {
                        let value = ((imm as u32) << 16u32) | *v;
                        add_movt_symbol(ctx, value);
                    },
                    None => {},
                }
            },
            _ => {},
        }
    }
}

/// Pass 1 over a list of instructions: discovers labels, subroutines and
/// strings from branches, calls and MOVW/MOVT pairs.
pub fn symbols_pass1(ctx: &mut Context, insns: &Vec<ThumbInsn>)
    ensures
        final(ctx)@ == pass1_fold(old(ctx)@, insns_view(insns@)),
{
    let ghost all = insns_view(insns@);
    let mut i: usize = 0;
    while i < insns.len()
        invariant
            i <= insns@.len(),
            all == insns_view(insns@),
            ctx@ == pass1_fold(old(ctx)@, all.take(i as int)),
        decreases insns@.len() - i,
    {
        pass1_insn(ctx, &insns[i]);
        assert(all.take(i + 1).drop_last() =~= all.take(i as int));
        i = i + 1;
    }
    assert(all.take(i as int) =~= all);
}

/// The code that the passes disassemble: the text segment up to the module
/// info.
pub open spec fn code_of(c: ContextView) -> Seq<u8> {
    c.text_seg.take(c.mod_info_offset as int)
}

pub(crate) fn disassemble_code(ctx: &Context) -> (r: Result<Vec<ThumbInsn>, DisasmError>)
    requires
        ctx.mod_info_offset <= ctx.text_seg@.len(),
    ensures
        r matches Ok(v) ==> thumb_listing(code_of(ctx@), ctx.text_addr as u64) == Some(insns_view(v@)),
        r == Err::<Vec<ThumbInsn>, DisasmError>(DisasmError::Disasm) ==> thumb_listing(code_of(ctx@), ctx.text_addr as u64) is None,
{
    let code = vstd::slice::slice_subrange(ctx.text_seg.as_slice(), 0, ctx.mod_info_offset as usize);
    assert(code@ =~= code_of(ctx@));
    disassemble(code, ctx.text_addr as u64)
}

/// Pass 1 (symbol discovery from branches, calls and MOVW/MOVT pairs) over
/// the text segment up to the module info.
pub fn analyze_symbols_pass1(ctx: &mut Context) -> (r: Result<(), DisasmError>)
    requires
        old(ctx).mod_info_offset <= old(ctx).text_seg@.len(),
    ensures
        match r {
            Ok(()) => thumb_listing(code_of(old(ctx)@), old(ctx).text_addr as u64) matches Some(l)
                && final(ctx)@ == pass1_fold(old(ctx)@, l),
            Err(e) => final(ctx)@ == old(ctx)@ && (e == DisasmError::Disasm ==> thumb_listing(
                code_of(old(ctx)@),
                old(ctx).text_addr as u64,
            ) is None),
        },
{
    let insns = match disassemble_code(ctx) {
        Ok(v) => v,
        Err(e) => return Err(e),
    };
    symbols_pass1(ctx, &insns);
    Ok(())
}

/// The address that a function boundary at instruction `i` (a POP or a BX)
/// gives: the next instruction's where that is a NOP, else its own.
pub open spec fn boundary_addr(insns: Seq<ThumbInsnView>, i: int) -> u32 {
    if i + 1 < insns.len() && trim_w(insns[i + 1].mnemonic) == lit("nop") {
        insns[i + 1].address as u32
    } else {
        insns[i].address as u32
    }
}

/// Pass 2 on instruction `i`: a POP or a BX ends a function, and the
/// address after it (see `boundary_addr`) starts a subroutine.
pub open spec fn pass2_step(c: ContextView, insns: Seq<ThumbInsnView>, i: int) -> ContextView {
    let m = trim_w(insns[i].mnemonic);
    if m == lit("pop") || m == lit("bx") {
        let addr = boundary_addr(insns, i);
        with_symbols(c, add_symbol(c.symbols, addr, addr_name("sub_"@, addr), SYMBOL_SUBROUTINE))
    } else {
        c
    }
}

/// Pass 2 over the first `n` instructions.
pub open spec fn pass2_prefix(c: ContextView, insns: Seq<ThumbInsnView>, n: int) -> ContextView
    decreases n,
{
    if n <= 0 {
        c
    } else {
        pass2_step(pass2_prefix(c, insns, n - 1), insns, n - 1)
    }
}

/// Pass 2 over a listing, then a subroutine at the start of the text
/// segment.
pub open spec fn pass2_spec(c: ContextView, insns: Seq<ThumbInsnView>) -> ContextView {
    let c1 = pass2_prefix(c, insns, insns.len() as int);
    with_symbols(c1, add_symbol(c1.symbols, c1.text_addr, addr_name("sub_"@, c1.text_addr), SYMBOL_SUBROUTINE))
}

pub(crate) fn trimmed_mnemonic(insn: &ThumbInsn) -> (r: Vec<u8>)
    ensures
        r@ == trim_w(insn.mnemonic@),
{
    let n = trim_w_len(insn.mnemonic.as_slice());
    let mut out: Vec<u8> = Vec::new();
    crate::text::push_bytes(&mut out, vstd::slice::slice_subrange(insn.mnemonic.as_slice(), 0, n));
    assert(out@ =~= insn.mnemonic@.take(n as int));
    out
}

/// Pass 2 over a list of instructions: every POP or BX ends a function,
/// and the address after it starts a subroutine; so does the start of the
/// text segment.
pub fn symbols_pass2(ctx: &mut Context, insns: &Vec<ThumbInsn>)
    ensures
        final(ctx)@ == pass2_spec(old(ctx)@, insns_view(insns@)),
{
    let ghost all = insns_view(insns@);
    let mut i: usize = 0;
    while i < insns.len()
        invariant
            i <= insns@.len(),
            all == insns_view(insns@),
            ctx@ == pass2_prefix(old(ctx)@, all, i as int),
        decreases insns@.len() - i,
    {
        let m = trimmed_mnemonic(&insns[i]);
        if is_mnemonic(&m, "pop") || is_mnemonic(&m, "bx") {
            let mut addr = insns[i].address as u32;
            if i + 1 < insns.len() {
                let next = trimmed_mnemonic(&insns[i + 1]);
                if is_mnemonic(&next, "nop") {
                    addr = insns[i + 1].address as u32;
                }
            }
            assert(addr == boundary_addr(all, i as int));
            if !ctx.symbols.contains_key(&addr) {
                ctx.add_symbol(addr, make_addr_name("sub_", addr), SYMBOL_SUBROUTINE);
            }
        }
        i = i + 1;
    }
    let ta = ctx.text_addr;
    if !ctx.symbols.contains_key(&ta) {
        ctx.add_symbol(ta, make_addr_name("sub_", ta), SYMBOL_SUBROUTINE);
    }
}

/// Pass 2 (subroutines at function boundaries) over the text segment up to
/// the module info.
pub fn analyze_symbols_pass2(ctx: &mut Context) -> (r: Result<(), DisasmError>)
    requires
        old(ctx).mod_info_offset <= old(ctx).text_seg@.len(),
    ensures
        match r {
            Ok(()) => thumb_listing(code_of(old(ctx)@), old(ctx).text_addr as u64) matches Some(l)
                && final(ctx)@ == pass2_spec(old(ctx)@, l),
            Err(e) => final(ctx)@ == old(ctx)@ && (e == DisasmError::Disasm ==> thumb_listing(
                code_of(old(ctx)@),
                old(ctx).text_addr as u64,
            ) is None),
        },
{
    let insns = match disassemble_code(ctx) {
        Ok(v) => v,
        Err(e) => return Err(e),
    };
    symbols_pass2(ctx, &insns);
    Ok(())
}

pub const MAX_ARGS: usize = 11;

/// The argument count after a write to register `r`: writing r0-r3 shows
/// that at least that many arguments are passed.
pub open spec fn arg_reg_update(n: nat, r: u32) -> nat {
    if r == ARM_REG_R0 && n == 0 {
        1
    } else if r == ARM_REG_R1 && n <= 1 {
        2
    } else if r == ARM_REG_R2 && n <= 2 {
        3
    } else if r == ARM_REG_R3 && n <= 3 {
        4
    } else {
        n
    }
}

/// The argument count after a store to the stack at displacement `disp`
/// from SP (the fifth and later arguments).
pub open spec fn stack_arg_update(n: nat, base: u32, disp: i32) -> nat {
    if base == ARM_REG_SP && disp >= 0 && disp < 0xC {
        let n_stack = (disp / 4) as nat + 1;
        if n <= 4 + n_stack {
            4 + n_stack
        } else {
            n
        }
    } else {
        n
    }
}

/// `s` with one more call seen with `n` arguments.
pub open spec fn count_call(s: SymbolView, n: nat) -> SymbolView {
    SymbolView { args_stats: s.args_stats.update(n as int, wrapping_add(s.args_stats[n as int], 1)), ..s }
}

/// The argument count after the stack stores of an instruction.
pub open spec fn stack_store_count(n: nat, base: Seq<u8>, ops: Seq<Operand>) -> nat {
    let mi = if base == lit("strd") { 2int } else { 1int };
    if (base == lit("str") || base == lit("strd")) && ops.len() > mi {
        match ops[mi].kind {
            OperandKind::Mem { base: b, index: _, disp } => stack_arg_update(n, b, disp),
            _ => n,
        }
    } else {
        n
    }
}

/// The argument count after the register writes of an instruction (its
/// destination, and the second destination of LDRD).
pub open spec fn reg_write_count(n: nat, base: Seq<u8>, ops: Seq<Operand>) -> nat {
    match spec_instruction_code(base, ops.len() as u8) {
        Some(code) => if spec_contains(encode_utf8(code), lit("op0 = ")) && ops.len() > 0 {
            let na = match ops[0].kind {
                OperandKind::Reg(r) => arg_reg_update(n, r),
                _ => n,
            };
            if base == lit("ldrd") && ops.len() >= 2 {
                match ops[1].kind {
                    OperandKind::Reg(r) => arg_reg_update(na, r),
                    _ => na,
                }
            } else {
                na
            }
        } else {
            n
        },
        None => n,
    }
}

/// The symbols after a call with `n` arguments: a call to a known symbol
/// in the text segment counts in its statistics.
pub open spec fn call_count(c: ContextView, n: nat, ops: Seq<Operand>) -> ContextView {
    if ops.len() > 0 && ops[0].kind is Imm {
        let t = ops[0].kind->Imm_0 as u32;
        if in_text(t, c.text_addr, c.text_size) && c.symbols.contains_key(t) && n < MAX_ARGS {
            with_symbols(c, c.symbols.insert(t, count_call(c.symbols[t], n)))
        } else {
            c
        }
    } else {
        c
    }
}

/// Pass 3 on one instruction, with `n` the argument count seen since the
/// last call or symbol: stores to the stack and writes to r0-r3 raise the
/// count; a call to a known subroutine records the count in its
/// statistics and resets it.
pub open spec fn pass3_step(c: ContextView, n: nat, insn: ThumbInsnView) -> (ContextView, nat) {
    let n0 = if c.symbols.contains_key(insn.address as u32) { 0 } else { n };
    match insn.detail {
        None => (c, n0),
        Some(d) => {
            let base = base_mnemonic(insn);
            let n2 = reg_write_count(stack_store_count(n0, base, d.operands), base, d.operands);
            if base == lit("bl") || base == lit("blx") {
                (call_count(c, n2, d.operands), 0)
            } else {
                (c, n2)
            }
        },
    }
}

/// Pass 3 over a list of instructions, in order, from count 0.
pub open spec fn pass3_fold(c: ContextView, insns: Seq<ThumbInsnView>) -> (ContextView, nat)
    decreases insns.len(),
{
    if insns.len() == 0 {
        (c, 0)
    } else {
        let (c1, n) = pass3_fold(c, insns.drop_last());
        pass3_step(c1, n, insns.last())
    }
}

/// The argument count a subroutine settles on: the first count seen most
/// often at its calls (0 where no call was seen).
pub open spec fn best_count_from(stats: Seq<u32>, i: int, best: u32, max: u32) -> u32
    decreases 11 - i,
{
    if i >= 11 {
        best
    } else if stats[i] > max {
        best_count_from(stats, i + 1, i as u32, stats[i])
    } else {
        best_count_from(stats, i + 1, best, max)
    }
}

/// The argument count a subroutine settles on.
pub open spec fn best_count(stats: Seq<u32>) -> u32 {
    best_count_from(stats, 0, 0, 0)
}

/// Every subroutine with its settled argument count.
pub open spec fn settle_args(m: Map<u32, SymbolView>) -> Map<u32, SymbolView> {
    m.map_values(
        |s: SymbolView|
            if s.sym_type & SYMBOL_SUBROUTINE != 0 {
                SymbolView { n_args: best_count(s.args_stats), ..s }
            } else {
                s
            },
    )
}

/// Pass 3 over a listing: the call statistics, then every subroutine's
/// settled argument count.
pub open spec fn pass3_spec(c: ContextView, insns: Seq<ThumbInsnView>) -> ContextView {
    let c1 = pass3_fold(c, insns).0;
    with_symbols(c1, settle_args(c1.symbols))
}

fn arg_reg(n: usize, r: u32) -> (m: usize)
    requires
        n <= 7,
    ensures
        m as nat == arg_reg_update(n as nat, r),
        m <= 7,
{
    if r == ARM_REG_R0 && n == 0 {
        1
    } else if r == ARM_REG_R1 && n <= 1 {
        2
    } else if r == ARM_REG_R2 && n <= 2 {
        3
    } else if r == ARM_REG_R3 && n <= 3 {
        4
    } else {
        n
    }
}

fn record_call(ctx: &mut Context, target: u32, n: usize)
    requires
        n < MAX_ARGS,
        old(ctx)@.symbols.contains_key(target),
    ensures
        final(ctx)@ == with_symbols(old(ctx)@, old(ctx)@.symbols.insert(target, count_call(old(ctx)@.symbols[target], n as nat))),
{
    let mut sym = ctx.symbols.remove(&target).unwrap();
    assert(sym@ == old(ctx)@.symbols[target]);
    assert(sym@.args_stats.len() == 11);
    sym.args_stats[n] = sym.args_stats[n].wrapping_add(1);
    let ghost sv = sym@;
    ctx.symbols.insert(target, sym);
    assert(sv.args_stats =~= count_call(old(ctx)@.symbols[target], n as nat).args_stats);
    assert(symbols_view(ctx.symbols@) =~= old(ctx)@.symbols.insert(target, count_call(old(ctx)@.symbols[target], n as nat)));
}

fn stack_store(n: usize, base: &Vec<u8>, ops: &Vec<Operand>) -> (m: usize)
    requires
        n <= 7,
    ensures
        m as nat == stack_store_count(n as nat, base@, ops@),
        m <= 7,
{
    let is_strd = is_mnemonic(base, "strd");
    let mi: usize = if is_strd { 2 } else { 1 };
    if (is_mnemonic(base, "str") || is_strd) && ops.len() > mi {
        match ops[mi].kind {
            OperandKind::Mem { base: b, index: _, disp } => {
                if b == ARM_REG_SP && disp >= 0 && disp < 0xC {
                    let n_stack = ((disp / 4) as usize) + 1;
                    if n <= 4 + n_stack {
                        return 4 + n_stack;
                    }
                }
            },
            _ => {},
        }
    }
    n
}

fn reg_write(n: usize, base: &Vec<u8>, ops: &Vec<Operand>) -> (m: usize)
    requires
        n <= 7,
    ensures
        m as nat == reg_write_count(n as nat, base@, ops@),
        m <= 7,
{
    let mut n_args = n;
    match instruction_code(base.as_slice(), ops.len() as u8) {
        Some(code) => {
            if contains_bytes(code.as_bytes(), "op0 = ".as_bytes()) && ops.len() > 0 {
                match ops[0].kind {
                    OperandKind::Reg(r) => {
                        n_args = arg_reg(n_args, r);
                    },
                    _ => {},
                }
                if is_mnemonic(base, "ldrd") && ops.len() >= 2 {
                    match ops[1].kind {
                        OperandKind::Reg(r) => {
                            n_args = arg_reg(n_args, r);
                        },
                        _ => {},
                    }
                }
            }
        },
        None => {},
    }
    n_args
}

fn count_call_exec(ctx: &mut Context, n: usize, ops: &Vec<Operand>)
    ensures
        final(ctx)@ == call_count(old(ctx)@, n as nat, ops@),
{
    if ops.len() > 0 {
        match ops[0].kind {
            OperandKind::Imm(imm) => {
                let target = imm as u32;
                if target >= ctx.text_addr && target < ctx.text_addr.wrapping_add(ctx.text_size)
                    && ctx.symbols.contains_key(&target) && n < MAX_ARGS {
                    record_call(ctx, target, n);
                }
            },
            _ => {},
        }
    }
}

fn pass3_insn(ctx: &mut Context, n: usize, insn: &ThumbInsn) -> (m: usize)
    requires
        n <= 7,
    ensures
        (final(ctx)@, m as nat) == pass3_step(old(ctx)@, n as nat, insn@),
        m <= 7,
{
    let mut n_args = n;
    if ctx.symbols.contains_key(&(insn.address as u32)) {
        n_args = 0;
    }
    let d = match &insn.detail {
        None => return n_args,
        Some(d) => d,
    };
    let base = insn_base(insn);
    let n2 = reg_write(stack_store(n_args, &base, &d.operands), &base, &d.operands);
    if is_mnemonic(&base, "bl") || is_mnemonic(&base, "blx") {
        count_call_exec(ctx, n2, &d.operands);
        0
    } else {
        n2
    }
}

fn settle_symbol(s: &mut Symbol)
    ensures
        final(s)@ == (if old(s)@.sym_type & SYMBOL_SUBROUTINE != 0 {
            SymbolView { n_args: best_count(old(s)@.args_stats), ..old(s)@ }
        } else {
            old(s)@
        }),
{
    if s.is_subroutine() {
        let mut best: u32 = 0;
        let mut max: u32 = 0;
        let mut i: usize = 0;
        while i < MAX_ARGS
            invariant
                i <= MAX_ARGS,
                s@.args_stats.len() == 11,
                s@ == old(s)@,
                best_count(s@.args_stats) == best_count_from(s@.args_stats, i as int, best, max),
            decreases MAX_ARGS - i,
        {
            if s.args_stats[i] > max {
                max = s.args_stats[i];
                best = i as u32;
            }
            i = i + 1;
        }
        s.n_args = best;
    }
}

fn settle_all(ctx: &mut Context)
    ensures
        final(ctx)@ == with_symbols(old(ctx)@, settle_args(old(ctx)@.symbols)),
{
    let keys = symbol_addresses(&ctx.symbols);
    let ghost m0 = old(ctx)@.symbols;
    let mut i: usize = 0;
    while i < keys.len()
        invariant
            i <= keys@.len(),
            keys@.to_set() == m0.dom(),
            keys@.no_duplicates(),
            ctx@ == with_symbols(old(ctx)@, ctx@.symbols),
            ctx@.symbols.dom() == m0.dom(),
            forall|p: int| 0 <= p < i ==> ctx@.symbols[#[trigger] keys@[p]] == settle_args(m0)[keys@[p]],
            forall|p: int| i <= p < keys@.len() ==> ctx@.symbols[#[trigger] keys@[p]] == m0[keys@[p]],
        decreases keys@.len() - i,
    {
        let k = keys[i];
        assert(keys@.to_set().contains(k));
        let mut sym = ctx.symbols.remove(&k).unwrap();
        settle_symbol(&mut sym);
        ctx.symbols.insert(k, sym);
        assert forall|p: int| 0 <= p < keys@.len() && p != i implies #[trigger] keys@[p] != k by {
        }
        i = i + 1;
    }
    assert forall|k: u32| #[trigger] m0.contains_key(k) implies ctx@.symbols[k] == settle_args(m0)[k] by {
        assert(keys@.to_set().contains(k));
        let p = choose|p: int| 0 <= p < keys@.len() && #[trigger] keys@[p] == k;
        assert(ctx@.symbols[keys@[p]] == settle_args(m0)[keys@[p]]);
    }
    assert(ctx@.symbols =~= settle_args(m0));
}

/// Pass 3 over a list of instructions: counts the arguments passed at
/// every call of a known subroutine and settles each subroutine's count.
pub fn arguments_pass(ctx: &mut Context, insns: &Vec<ThumbInsn>)
    ensures
        final(ctx)@ == pass3_spec(old(ctx)@, insns_view(insns@)),
{
    let ghost all = insns_view(insns@);
    let mut n_args: usize = 0;
    let mut i: usize = 0;
    while i < insns.len()
        invariant
            i <= insns@.len(),
            all == insns_view(insns@),
            n_args <= 7,
            (ctx@, n_args as nat) == pass3_fold(old(ctx)@, all.take(i as int)),
        decreases insns@.len() - i,
    {
        n_args = pass3_insn(ctx, n_args, &insns[i]);
        assert(all.take(i + 1).drop_last() =~= all.take(i as int));
        i = i + 1;
    }
    assert(all.take(i as int) =~= all);
    settle_all(ctx);
}

/// Pass 3 (argument counts) over the text segment up to the module info.
pub fn analyze_arguments(ctx: &mut Context) -> (r: Result<(), DisasmError>)
    requires
        old(ctx).mod_info_offset <= old(ctx).text_seg@.len(),
    ensures
        match r {
            Ok(()) => thumb_listing(code_of(old(ctx)@), old(ctx).text_addr as u64) matches Some(l)
                && final(ctx)@ == pass3_spec(old(ctx)@, l),
            Err(e) => final(ctx)@ == old(ctx)@ && (e == DisasmError::Disasm ==> thumb_listing(
                code_of(old(ctx)@),
                old(ctx).text_addr as u64,
            ) is None),
        },
{
    let insns = match disassemble_code(ctx) {
        Ok(v) => v,
        Err(e) => return Err(e),
    };
    arguments_pass(ctx, &insns);
    Ok(())
}

/// What a register operand is written as after composition: the
/// expression last assigned to it (in parentheses where it is neither a
/// string nor a single word), where there is one shorter than 128 bytes;
/// the stack pointer is never composed. With `analyse`, the assigning
/// instruction is marked as folded into this use.
pub open spec fn compose_spec(c: ContextView, reg_str: Seq<u8>, reg: u32, analyse: bool) -> (ContextView, Seq<u8>) {
    if reg == ARM_REG_SP {
        (c, reg_str)
    } else if c.regs.contains_key(reg) && c.regs[reg] is Some && c.regs[reg].unwrap().assign.len() < 128 {
        let a = c.regs[reg].unwrap().assign;
        let is_string = spec_starts_with(a, lit("\"")) && spec_ends_with(a, lit("\""));
        let is_atom = !spec_contains(a, lit(" "));
        let s = if !is_string && !is_atom {
            lit("(") + a + lit(")")
        } else {
            a
        };
        (if analyse { ignore_addr_spec(c, reg) } else { c }, s)
    } else {
        (c, reg_str)
    }
}

/// Replaces a register operand by the expression last assigned to it.
pub fn compose_register(ctx: &mut Context, reg_str: &mut Vec<u8>, reg: u32, analyse: bool)
    ensures
        (final(ctx)@, final(reg_str)@) == compose_spec(old(ctx)@, old(reg_str)@, reg, analyse),
{
    if reg == ARM_REG_SP {
        return ;
    }
    let mut composed: Option<Vec<u8>> = None;
    match ctx.reg_assign_map.get(&reg) {
        Some(Some(entry)) => {
            if entry.assign.len() < 128 {
                let a = entry.assign.as_slice();
                let is_string = starts_with_bytes(a, "\"".as_bytes()) && ends_with_bytes(a, "\"".as_bytes());
                let is_atom = !contains_bytes(a, " ".as_bytes());
                let mut out: Vec<u8> = Vec::new();
                if !is_string && !is_atom {
                    push_str(&mut out, "(");
                    push_bytes(&mut out, a);
                    push_str(&mut out, ")");
                } else {
                    push_bytes(&mut out, a);
                }
                composed = Some(out);
            }
        },
        _ => {},
    }
    match composed {
        Some(s) => {
            *reg_str = s;
            if analyse {
                ctx.ignore_addr(reg);
            }
        },
        None => {},
    }
}

/// The placeholder of operand `i` in a template.
pub open spec fn op_name(i: nat) -> Seq<u8> {
    lit("op") + dec_digits(i)
}

/// What a memory operand is written as: `base + index`, or `base + disp`
/// (without a zero displacement), the base register composed unless it is
/// the template's destination.
pub open spec fn mem_text(c: ContextView, b: u32, index: u32, disp: i32, is_dest: bool, analyse: bool) -> (ContextView, Seq<u8>) {
    let name = encode_utf8(spec_reg_name(b));
    let (c1, r) = if !is_dest {
        compose_spec(c, name, b, analyse)
    } else {
        (c, name)
    };
    let v = if index != 0 {
        r + lit(" + ") + encode_utf8(spec_reg_name(index))
    } else {
        let s = r + lit(" + ") + imm_text(disp as u32, true);
        if spec_ends_with(s, lit(" + 0")) {
            s.take(s.len() - lit(" + 0").len())
        } else {
            s
        }
    };
    (c1, v)
}

/// Operand `i` of an instruction substituted into its template `code`:
/// registers (composed unless they are the destination, the last one with
/// its shift, and remembered as the compared registers of a CMP),
/// immediates and memory operands. `dest_in_current` says whether the
/// destination test reads the template as substituted so far (`code`) or
/// as it was (`orig`).
pub open spec fn operand_step(
    c: ContextView,
    code: Seq<u8>,
    orig: Seq<u8>,
    op: Operand,
    i: nat,
    is_last: bool,
    is_compare: bool,
    analyse: bool,
    dest_in_current: bool,
) -> (ContextView, Seq<u8>) {
    let name = op_name(i);
    let is_dest = spec_contains(if dest_in_current { code } else { orig }, name + lit(" = "));
    match op.kind {
        OperandKind::Reg(reg) => {
            let plain = encode_utf8(spec_reg_name(reg));
            let (c1, s0) = if !is_dest {
                compose_spec(c, plain, reg, analyse)
            } else {
                (c, plain)
            };
            let s1 = if is_last {
                spec_handle_shift(s0, op.shift)
            } else {
                s0
            };
            let c2 = if is_compare && i == 0 {
                ContextView { cond_reg_1: s1, ..c1 }
            } else if is_compare && i == 1 {
                ContextView { cond_reg_2: s1, ..c1 }
            } else {
                c1
            };
            (c2, spec_replace(code, name, s1))
        },
        OperandKind::Imm(imm) => (c, spec_replace(code, name, imm_text(imm as u32, false))),
        OperandKind::Mem { base: b, index, disp } => {
            let (c1, v) = mem_text(c, b, index, disp, is_dest, analyse);
            (c1, spec_replace(code, name, v))
        },
        OperandKind::Other => (c, code),
    }
}

/// The first `k` operands substituted in order.
pub open spec fn operands_fold(
    c: ContextView,
    code: Seq<u8>,
    orig: Seq<u8>,
    ops: Seq<Operand>,
    k: nat,
    is_compare: bool,
    analyse: bool,
    dest_in_current: bool,
) -> (ContextView, Seq<u8>)
    decreases k,
{
    if k == 0 {
        (c, code)
    } else {
        let (c1, code1) = operands_fold(c, code, orig, ops, (k - 1) as nat, is_compare, analyse, dest_in_current);
        operand_step(c1, code1, orig, ops[k - 1], (k - 1) as nat, k - 1 == ops.len() - 1, is_compare, analyse, dest_in_current)
    }
}

fn make_op_name(i: usize) -> (r: Vec<u8>)
    ensures
        r@ == op_name(i as nat),
{
    let mut r: Vec<u8> = Vec::new();
    push_str(&mut r, "op");
    push_dec(&mut r, i as u64);
    r
}

fn mem_operand_text(ctx: &mut Context, b: u32, index: u32, disp: i32, is_dest: bool, analyse: bool) -> (r: Vec<u8>)
    ensures
        (final(ctx)@, r@) == mem_text(old(ctx)@, b, index, disp, is_dest, analyse),
{
    let mut reg: Vec<u8> = Vec::new();
    push_str(&mut reg, reg_name(b));
    if !is_dest {
        compose_register(ctx, &mut reg, b, analyse);
    }
    let mut s: Vec<u8> = Vec::new();
    push_bytes(&mut s, reg.as_slice());
    push_str(&mut s, " + ");
    if index != 0 {
        push_str(&mut s, reg_name(index));
    } else {
        let imm = get_imm_string(disp as u32, true);
        push_bytes(&mut s, imm.as_slice());
        if ends_with_bytes(s.as_slice(), " + 0".as_bytes()) {
            let n = s.len() - " + 0".as_bytes().len();
            let mut t: Vec<u8> = Vec::new();
            push_bytes(&mut t, vstd::slice::slice_subrange(s.as_slice(), 0, n));
            assert(t@ =~= s@.take(n as int));
            s = t;
        }
    }
    s
}

/// Substitutes every operand of an instruction into its template, in order.
pub fn substitute_operands(
    ctx: &mut Context,
    code: &mut Vec<u8>,
    orig: &[u8],
    ops: &Vec<Operand>,
    is_compare: bool,
    analyse: bool,
    dest_in_current: bool,
)
    ensures
        (final(ctx)@, final(code)@) == operands_fold(old(ctx)@, old(code)@, orig@, ops@, ops@.len(), is_compare, analyse, dest_in_current),
{
    let mut i: usize = 0;
    while i < ops.len()
        invariant
            i <= ops@.len(),
            (ctx@, code@) == operands_fold(old(ctx)@, old(code)@, orig@, ops@, i as nat, is_compare, analyse, dest_in_current),
        decreases ops@.len() - i,
    {
        let name = make_op_name(i);
        let mut pat: Vec<u8> = Vec::new();
        push_bytes(&mut pat, name.as_slice());
        push_str(&mut pat, " = ");
        let is_dest = if dest_in_current {
            contains_bytes(code.as_slice(), pat.as_slice())
        } else {
            contains_bytes(orig, pat.as_slice())
        };
        let is_last = i == ops.len() - 1;
        assert(name@.len() > 0);
        match ops[i].kind {
            OperandKind::Reg(reg) => {
                let mut reg_str: Vec<u8> = Vec::new();
                push_str(&mut reg_str, reg_name(reg));
                if !is_dest {
                    compose_register(ctx, &mut reg_str, reg, analyse);
                }
                if is_last {
                    reg_str = handle_shift(reg_str.as_slice(), &ops[i].shift);
                }
                if is_compare {
                    if i == 0 {
                        ctx.condition_reg_1 = reg_str.clone();
                    } else if i == 1 {
                        ctx.condition_reg_2 = reg_str.clone();
                    }
                }
                *code = replace_bytes(code.as_slice(), name.as_slice(), reg_str.as_slice());
            },
            OperandKind::Imm(imm) => {
                let v = get_imm_string(imm as u32, false);
                *code = replace_bytes(code.as_slice(), name.as_slice(), v.as_slice());
            },
            OperandKind::Mem { base: b, index, disp } => {
                let v = mem_operand_text(ctx, b, index, disp, is_dest, analyse);
                *code = replace_bytes(code.as_slice(), name.as_slice(), v.as_slice());
            },
            OperandKind::Other => {},
        }
        i = i + 1;
    }
}

/// A mnemonic that updates the flags without its `s` suffix (except the
/// comparisons, whose names are their own).
pub open spec fn strip_flag_suffix(b: Seq<u8>, update_flags: bool) -> Seq<u8> {
    if update_flags && b.len() > 1 && b.last() == 0x73u8 && b != lit("cmp") && b != lit("cmn") && b
        != lit("tst") {
        b.drop_last()
    } else {
        b
    }
}

/// The right-hand side of the first assignment in a substituted template:
/// from after the first ` = ` up to the next `;` (or the end).
pub open spec fn assign_text(code: Seq<u8>) -> Option<Seq<u8>> {
    match spec_find(code, lit(" = ")) {
        None => None,
        Some(p) => {
            let rest = code.skip(p + lit(" = ").len());
            Some(
                match spec_find(rest, lit(";")) {
                    Some(q) => rest.take(q),
                    None => rest,
                },
            )
        },
    }
}

/// The value of a MOVW assignment: hexadecimal after `0x`, else a signed
/// decimal; 0 where it does not parse.
pub open spec fn movw_value(a: Seq<u8>) -> u32 {
    if spec_starts_with(a, lit("0x")) {
        match parse_u32_hex(strip_0x(a)) {
            Some(v) => v,
            None => 0,
        }
    } else {
        match parse_i32_dec(a) {
            Some(v) => v as u32,
            None => 0,
        }
    }
}

/// The constant a MOVT completes: its high half (the first word of the
/// assignment, read as hexadecimal) or-ed with the numeric value the
/// register holds from a MOVW, if it holds one.
pub open spec fn movt_value(c: ContextView, reg: u32, a: Seq<u8>) -> Option<u32> {
    if c.regs.contains_key(reg) && c.regs[reg] is Some && spec_is_hex_or_dec(c.regs[reg].unwrap().assign) {
        match first_token(a) {
            Some(t) => match parse_u32_hex(strip_0x(t)) {
                Some(hi) => Some(hi | movw_value(c.regs[reg].unwrap().assign)),
                None => None,
            },
            None => None,
        }
    } else {
        None
    }
}

/// Records an assignment to `reg`, unless the register is marked as
/// holding no assignment.
pub open spec fn set_assign(c: ContextView, reg: u32, a: AssignView) -> ContextView {
    if c.regs.contains_key(reg) && c.regs[reg] is None {
        c
    } else {
        ContextView { regs: c.regs.insert(reg, Some(a)), ..c }
    }
}

/// The assignment phase of pass 4: a substituted template that assigns to
/// a register operand (and not a call result) records the assigned
/// expression for the register, or, for a MOVT that completes a MOVW
/// constant, the full constant in hexadecimal with the MOVW folded away; a
/// conditional assignment makes the register's value unknown.
pub open spec fn assign_step(
    c: ContextView,
    code: Seq<u8>,
    base: Seq<u8>,
    ops: Seq<Operand>,
    is_cond: bool,
    addr: u32,
    update_flags: bool,
) -> ContextView {
    if code.len() > 3 && code[3] == 0x3Du8 && !spec_contains(code, lit(" = symbol")) && ops.len() > 0
        && ops[0].kind is Reg {
        let reg = ops[0].kind->Reg_0;
        if !is_cond {
            match assign_text(code) {
                None => c,
                Some(a) => match (if base == lit("movt") { movt_value(c, reg, a) } else { None }) {
                    Some(v) => set_assign(
                        ignore_addr_spec(c, reg),
                        reg,
                        AssignView { assign: lit("0x") + hex8(v), addr, update_flags },
                    ),
                    None => set_assign(c, reg, AssignView { assign: a, addr, update_flags }),
                },
            }
        } else {
            ContextView { regs: c.regs.remove(reg), ..c }
        }
    } else {
        c
    }
}

/// The first `k` argument registers (r0 up) marked as folded into a call.
pub open spec fn ignore_arg_regs(c: ContextView, k: nat) -> ContextView
    decreases k,
{
    if k == 0 {
        c
    } else {
        ignore_addr_spec(ignore_arg_regs(c, (k - 1) as nat), (ARM_REG_R0 + k - 1) as u32)
    }
}

/// A call operand: where it is the address of a known subroutine, the
/// registers carrying its arguments (at most four) are folded into the
/// call.
pub open spec fn call_operand(c: ContextView, op: Operand) -> ContextView {
    match op.kind {
        OperandKind::Imm(imm) => {
            let t = imm as u32;
            if c.symbols.contains_key(t) && c.symbols[t].sym_type & SYMBOL_SUBROUTINE != 0 {
                let n = c.symbols[t].n_args;
                ignore_arg_regs(c, if n < 4 { n as nat } else { 4 })
            } else {
                c
            }
        },
        _ => c,
    }
}

/// The first `k` operands of a call taken in order.
pub open spec fn call_operands(c: ContextView, ops: Seq<Operand>, k: nat) -> ContextView
    decreases k,
{
    if k == 0 {
        c
    } else {
        call_operand(call_operands(c, ops, (k - 1) as nat), ops[k - 1])
    }
}

/// The call phase of pass 4: a BL or BLX folds the argument registers of
/// a known subroutine (named by one of its first two operands) into the
/// call, then forgets r0-r3 and the flags.
pub open spec fn call_step(c: ContextView, base: Seq<u8>, ops: Seq<Operand>) -> ContextView {
    if base == lit("bl") || base == lit("blx") {
        let c1 = call_operands(c, ops, if ops.len() < 2 { ops.len() } else { 2 });
        ContextView { regs: clear_arg_regs(c1.regs), use_flags: false, ..c1 }
    } else {
        c
    }
}

/// Pass 4 on one instruction: a symbol starts a new block with no known
/// register values; a conditional instruction makes the flags live and
/// one that sets them starts a new comparison; then the operands are
/// substituted into the instruction's template, composing registers with
/// their known values, and the assignment and call phases follow.
pub open spec fn pass4_step(c: ContextView, insn: ThumbInsnView) -> ContextView {
    let addr = insn.address as u32;
    let c0 = if c.symbols.contains_key(addr) {
        ContextView { regs: Map::empty(), use_flags: false, ..c }
    } else {
        c
    };
    match insn.detail {
        None => c0,
        Some(d) => {
            let is_cond = d.cc != 15;
            let c1 = if is_cond {
                ContextView { use_flags: true, ..c0 }
            } else {
                c0
            };
            let c2 = if d.update_flags {
                ContextView { use_flags: false, cond_reg_1: Seq::empty(), cond_reg_2: Seq::empty(), ..c1 }
            } else {
                c1
            };
            let base = strip_flag_suffix(base_mnemonic(insn), d.update_flags);
            let ops = d.operands;
            match spec_instruction_code(base, ops.len() as u8) {
                None => c2,
                Some(t) => {
                    let tmpl = encode_utf8(t);
                    let (c3, code) = operands_fold(c2, tmpl, tmpl, ops, ops.len(), base == lit("cmp"), true, false);
                    let c4 = assign_step(c3, code, base, ops, is_cond, addr, d.update_flags);
                    call_step(c4, base, ops)
                },
            }
        },
    }
}

/// Pass 4 over a list of instructions, in order.
pub open spec fn pass4_fold(c: ContextView, insns: Seq<ThumbInsnView>) -> ContextView
    decreases insns.len(),
{
    if insns.len() == 0 {
        c
    } else {
        pass4_step(pass4_fold(c, insns.drop_last()), insns.last())
    }
}

pub(crate) fn strip_flag_suffix_exec(b: Vec<u8>, update_flags: bool) -> (r: Vec<u8>)
    ensures
        r@ == strip_flag_suffix(b@, update_flags),
{
    let n = b.len();
    if update_flags && n > 1 && b[n - 1] == 0x73u8 && !is_mnemonic(&b, "cmp") && !is_mnemonic(&b, "cmn")
        && !is_mnemonic(&b, "tst") {
        let mut t: Vec<u8> = Vec::new();
        push_bytes(&mut t, vstd::slice::slice_subrange(b.as_slice(), 0, n - 1));
        assert(t@ =~= b@.drop_last());
        t
    } else {
        b
    }
}

pub(crate) fn assign_text_exec(code: &[u8]) -> (r: Option<Vec<u8>>)
    ensures
        match r {
            Some(v) => assign_text(code@) == Some(v@),
            None => assign_text(code@) is None,
        },
{
    let eq = " = ".as_bytes();
    match find_bytes(code, eq) {
        None => None,
        Some(p) => {
            let n = eq.len();
            let len = code.len();
            assert(occurs_at(code@, eq@, p as int));
            let rest = vstd::slice::slice_subrange(code, p + n, len);
            assert(rest@ =~= code@.skip(p + eq@.len()));
            let end = match find_bytes(rest, ";".as_bytes()) {
                Some(q) => q,
                None => rest.len(),
            };
            let mut out: Vec<u8> = Vec::new();
            push_bytes(&mut out, vstd::slice::slice_subrange(rest, 0, end));
            assert(out@ =~= rest@.take(end as int));
            assert(rest@.take(rest@.len() as int) =~= rest@);
            Some(out)
        },
    }
}

pub(crate) fn movw_value_exec(a: &[u8]) -> (r: u32)
    ensures
        r == movw_value(a@),
{
    if starts_with_bytes(a, "0x".as_bytes()) {
        let k = strip_0x_start(a);
        match parse_hex_u32(vstd::slice::slice_subrange(a, k, a.len())) {
            Some(v) => v,
            None => 0,
        }
    } else {
        match parse_dec_i32(a) {
            Some(v) => v as u32,
            None => 0,
        }
    }
}

fn movt_value_exec(ctx: &Context, reg: u32, a: &Vec<u8>) -> (r: Option<u32>)
    ensures
        r == movt_value(ctx@, reg, a@),
{
    match ctx.reg_assign_map.get(&reg) {
        Some(Some(prev)) => {
            if !is_hex_or_dec(prev.assign.as_slice()) {
                return None;
            }
            let t = match first_word(a.as_slice()) {
                Some(t) => t,
                None => return None,
            };
            let k = strip_0x_start(t);
            let hi = match parse_hex_u32(vstd::slice::slice_subrange(t, k, t.len())) {
                Some(h) => h,
                None => return None,
            };
            Some(hi | movw_value_exec(prev.assign.as_slice()))
        },
        _ => None,
    }
}

pub(crate) fn set_assign_exec(ctx: &mut Context, reg: u32, a: RegisterAssignment)
    ensures
        final(ctx)@ == set_assign(old(ctx)@, reg, a@),
{
    let skip = match ctx.reg_assign_map.get(&reg) {
        Some(None) => true,
        _ => false,
    };
    if !skip {
        let ghost av = a@;
        ctx.reg_assign_map.insert(reg, Some(a));
        assert(regs_view(ctx.reg_assign_map@) =~= old(ctx)@.regs.insert(reg, Some(av)));
    }
}

fn assign_phase(
    ctx: &mut Context,
    code: &Vec<u8>,
    base: &Vec<u8>,
    ops: &Vec<Operand>,
    is_cond: bool,
    addr: u32,
    update_flags: bool,
)
    ensures
        final(ctx)@ == assign_step(old(ctx)@, code@, base@, ops@, is_cond, addr, update_flags),
{
    if code.len() > 3 && code[3] == 0x3Du8 && !contains_bytes(code.as_slice(), " = symbol".as_bytes())
        && ops.len() > 0 {
        match ops[0].kind {
            OperandKind::Reg(reg) => {
                if !is_cond {
                    match assign_text_exec(code.as_slice()) {
                        None => {},
                        Some(a) => {
                            let mv = if is_mnemonic(base, "movt") {
                                movt_value_exec(ctx, reg, &a)
                            } else {
                                None
                            };
                            match mv {
                                Some(v) => {
                                    ctx.ignore_addr(reg);
                                    let mut s: Vec<u8> = Vec::new();
                                    push_str(&mut s, "0x");
                                    push_hex8(&mut s, v);
                                    set_assign_exec(ctx, reg, RegisterAssignment { assign: s, addr, update_flags });
                                },
                                None => {
                                    set_assign_exec(ctx, reg, RegisterAssignment { assign: a, addr, update_flags });
                                },
                            }
                        },
                    }
                } else {
                    ctx.reg_assign_map.remove(&reg);
                    assert(regs_view(ctx.reg_assign_map@) =~= old(ctx)@.regs.remove(reg));
                }
            },
            _ => {},
        }
    }
}

fn ignore_args_exec(ctx: &mut Context, k: u32)
    requires
        k <= 4,
    ensures
        final(ctx)@ == ignore_arg_regs(old(ctx)@, k as nat),
{
    let mut i: u32 = 0;
    while i < k
        invariant
            i <= k,
            k <= 4,
            ctx@ == ignore_arg_regs(old(ctx)@, i as nat),
        decreases k - i,
    {
        ctx.ignore_addr(ARM_REG_R0 + i);
        i = i + 1;
    }
}

fn call_phase(ctx: &mut Context, base: &Vec<u8>, ops: &Vec<Operand>)
    ensures
        final(ctx)@ == call_step(old(ctx)@, base@, ops@),
{
    if is_mnemonic(base, "bl") || is_mnemonic(base, "blx") {
        let lim: usize = if ops.len() < 2 {
            ops.len()
        } else {
            2
        };
        let mut i: usize = 0;
        while i < lim
            invariant
                i <= lim,
                lim <= ops@.len(),
                ctx@ == call_operands(old(ctx)@, ops@, i as nat),
            decreases lim - i,
        {
            match ops[i].kind {
                OperandKind::Imm(imm) => {
                    let t = imm as u32;
                    let mut n: Option<u32> = None;
                    match ctx.symbols.get(&t) {
                        Some(sym) => {
                            if sym.is_subroutine() {
                                n = Some(sym.n_args);
                            }
                        },
                        None => {},
                    }
                    match n {
                        Some(na) => {
                            ignore_args_exec(ctx, if na < 4 { na } else { 4 });
                        },
                        None => {},
                    }
                },
                _ => {},
            }
            i = i + 1;
        }
        ctx.clear_regs_after_branch();
        ctx.use_flags = false;
    }
}

fn pass4_insn(ctx: &mut Context, insn: &ThumbInsn)
    ensures
        final(ctx)@ == pass4_step(old(ctx)@, insn@),
{
    let addr = insn.address as u32;
    if ctx.symbols.contains_key(&addr) {
        ctx.free_reg_assign_map();
        ctx.use_flags = false;
    }
    let d = match &insn.detail {
        None => return ,
        Some(d) => d,
    };
    let update_flags = d.update_flags;
    let is_cond = d.cc != 15;
    if is_cond {
        ctx.use_flags = true;
    }
    if update_flags {
        ctx.use_flags = false;
        ctx.condition_reg_1 = Vec::new();
        ctx.condition_reg_2 = Vec::new();
    }
    let base = strip_flag_suffix_exec(insn_base(insn), update_flags);
    let t = match instruction_code(base.as_slice(), d.operands.len() as u8) {
        None => return ,
        Some(t) => t,
    };
    let mut code: Vec<u8> = Vec::new();
    push_str(&mut code, t);
    let is_compare = is_mnemonic(&base, "cmp");
    substitute_operands(ctx, &mut code, t.as_bytes(), &d.operands, is_compare, true, false);
    assign_phase(ctx, &code, &base, &d.operands, is_cond, addr, update_flags);
    call_phase(ctx, &base, &d.operands);
}

/// Pass 4 over a list of instructions: follows the register assignments
/// through each block and marks the instructions whose value is folded
/// into a later use.
pub fn code_pass(ctx: &mut Context, insns: &Vec<ThumbInsn>)
    ensures
        final(ctx)@ == pass4_fold(old(ctx)@, insns_view(insns@)),
{
    let ghost all = insns_view(insns@);
    let mut i: usize = 0;
    while i < insns.len()
        invariant
            i <= insns@.len(),
            all == insns_view(insns@),
            ctx@ == pass4_fold(old(ctx)@, all.take(i as int)),
        decreases insns@.len() - i,
    {
        pass4_insn(ctx, &insns[i]);
        assert(all.take(i + 1).drop_last() =~= all.take(i as int));
        i = i + 1;
    }
    assert(all.take(i as int) =~= all);
}

/// Pass 4 (register assignments and folded instructions) over the text
/// segment up to the module info.
pub fn analyze_code(ctx: &mut Context) -> (r: Result<(), DisasmError>)
    requires
        old(ctx).mod_info_offset <= old(ctx).text_seg@.len(),
    ensures
        match r {
            Ok(()) => thumb_listing(code_of(old(ctx)@), old(ctx).text_addr as u64) matches Some(l)
                && final(ctx)@ == pass4_fold(old(ctx)@, l),
            Err(e) => final(ctx)@ == old(ctx)@ && (e == DisasmError::Disasm ==> thumb_listing(
                code_of(old(ctx)@),
                old(ctx).text_addr as u64,
            ) is None),
        },
{
    let insns = match disassemble_code(ctx) {
        Ok(v) => v,
        Err(e) => return Err(e),
    };
    code_pass(ctx, &insns);
    Ok(())
}

/// Whether every symbol of `m1` stands unchanged in `m2`.
pub open spec fn keeps_symbols(m1: Map<u32, SymbolView>, m2: Map<u32, SymbolView>) -> bool {
    forall|a: u32| #[trigger] m1.contains_key(a) ==> m2.contains_key(a) && m2[a] == m1[a]
}

/// Whether two analysis states hold the same segments, addresses and
/// module-info offset.
pub open spec fn same_image(c1: ContextView, c2: ContextView) -> bool {
    &&& c2.text_seg == c1.text_seg
    &&& c2.data_seg == c1.data_seg
    &&& c2.text_addr == c1.text_addr
    &&& c2.text_size == c1.text_size
    &&& c2.data_addr == c1.data_addr
    &&& c2.data_size == c1.data_size
    &&& c2.mod_info_offset == c1.mod_info_offset
}

proof fn lemma_pass1_step_keeps(c: ContextView, insn: ThumbInsnView)
    ensures
        keeps_symbols(c.symbols, pass1_step(c, insn).symbols),
        same_image(c, pass1_step(c, insn)),
{
    match insn.detail {
        None => {},
        Some(d) => {
            let base = base_mnemonic(insn);
            let ops = d.operands;
            let is_branch = base == lit("b");
            let c1 = if (is_branch || base == lit("bl") || base == lit("blx")) && ops.len() > 0 && ops[0].kind is Imm {
                let t = ops[0].kind->Imm_0 as u32;
                with_symbols(c, target_symbols(c, t, if is_branch { "loc_"@ } else { "sub_"@ }, if is_branch { SYMBOL_LABEL } else { SYMBOL_SUBROUTINE }))
            } else {
                c
            };
            assert(keeps_symbols(c.symbols, c1.symbols));
            let c2 = if (base == lit("cbz") || base == lit("cbnz")) && ops.len() >= 2 && ops[1].kind is Imm {
                with_symbols(c1, target_symbols(c1, ops[1].kind->Imm_0 as u32, "loc_"@, SYMBOL_LABEL))
            } else {
                c1
            };
            assert(keeps_symbols(c.symbols, c2.symbols));
            let c3 = if (base == lit("mov") || base == lit("movw")) && ops.len() >= 2 && ops[0].kind is Reg && ops[1].kind is Imm {
                ContextView { movw: c2.movw.insert(ops[0].kind->Reg_0, ops[1].kind->Imm_0 as u32), ..c2 }
            } else {
                c2
            };
            if base == lit("movt") && ops.len() >= 2 && ops[0].kind is Reg && ops[1].kind is Imm && c3.movw.contains_key(ops[0].kind->Reg_0) {
                let value = ((ops[1].kind->Imm_0 as u32) << 16u32) | c3.movw[ops[0].kind->Reg_0];
                assert(keeps_symbols(c3.symbols, movt_symbols(c3, value)));
            }
        },
    }
}

/// Pass 1 only adds symbols: every symbol there was before stands
/// unchanged after it, and the segments are untouched.
pub proof fn lemma_pass1_keeps_symbols(c: ContextView, insns: Seq<ThumbInsnView>)
    ensures
        keeps_symbols(c.symbols, pass1_fold(c, insns).symbols),
        same_image(c, pass1_fold(c, insns)),
    decreases insns.len(),
{
    if insns.len() > 0 {
        lemma_pass1_keeps_symbols(c, insns.drop_last());
        lemma_pass1_step_keeps(pass1_fold(c, insns.drop_last()), insns.last());
    }
}

proof fn lemma_pass2_prefix_keeps(c: ContextView, insns: Seq<ThumbInsnView>, n: int)
    ensures
        keeps_symbols(c.symbols, pass2_prefix(c, insns, n).symbols),
        same_image(c, pass2_prefix(c, insns, n)),
    decreases n,
{
    if n > 0 {
        lemma_pass2_prefix_keeps(c, insns, n - 1);
    }
}

/// Pass 2 only adds symbols, and afterwards the start of the text segment
/// has one.
pub proof fn lemma_pass2_keeps_symbols(c: ContextView, insns: Seq<ThumbInsnView>)
    ensures
        keeps_symbols(c.symbols, pass2_spec(c, insns).symbols),
        same_image(c, pass2_spec(c, insns)),
        pass2_spec(c, insns).symbols.contains_key(c.text_addr),
{
    lemma_pass2_prefix_keeps(c, insns, insns.len() as int);
}

/// Whether `m2` has the symbols of `m1` at the same addresses, with the
/// same names and kinds.
pub open spec fn same_symbol_names(m1: Map<u32, SymbolView>, m2: Map<u32, SymbolView>) -> bool {
    &&& m2.dom() == m1.dom()
    &&& forall|a: u32| #[trigger] m1.contains_key(a) ==> m2[a].name == m1[a].name && m2[a].sym_type == m1[a].sym_type
}

proof fn lemma_pass3_fold_names(c: ContextView, insns: Seq<ThumbInsnView>)
    ensures
        same_symbol_names(c.symbols, pass3_fold(c, insns).0.symbols),
        same_image(c, pass3_fold(c, insns).0),
    decreases insns.len(),
{
    if insns.len() > 0 {
        lemma_pass3_fold_names(c, insns.drop_last());
        let (c1, n) = pass3_fold(c, insns.drop_last());
        let insn = insns.last();
        let n0: nat = if c1.symbols.contains_key(insn.address as u32) { 0 } else { n };
        match insn.detail {
            None => {},
            Some(d) => {
                let base = base_mnemonic(insn);
                let n2 = reg_write_count(stack_store_count(n0, base, d.operands), base, d.operands);
                let c2 = call_count(c1, n2, d.operands);
                assert(c2.symbols.dom() =~= c1.symbols.dom());
            },
        }
    }
}

/// Pass 3 changes no symbol's address, name or kind: only the argument
/// counts and their statistics.
pub proof fn lemma_pass3_keeps_names(c: ContextView, insns: Seq<ThumbInsnView>)
    ensures
        same_symbol_names(c.symbols, pass3_spec(c, insns).symbols),
        same_image(c, pass3_spec(c, insns)),
{
    lemma_pass3_fold_names(c, insns);
    let c1 = pass3_fold(c, insns).0;
    assert(settle_args(c1.symbols).dom() =~= c1.symbols.dom());
}

/// Whether a step left the symbols and the segments as they were.
pub open spec fn same_frame(c1: ContextView, c2: ContextView) -> bool {
    c2.symbols == c1.symbols && same_image(c1, c2)
}

pub(crate) proof fn lemma_operands_fold_frame(
    c: ContextView,
    code: Seq<u8>,
    orig: Seq<u8>,
    ops: Seq<Operand>,
    k: nat,
    is_compare: bool,
    analyse: bool,
    dest_in_current: bool,
)
    ensures
        same_frame(c, operands_fold(c, code, orig, ops, k, is_compare, analyse, dest_in_current).0),
        !analyse ==> operands_fold(c, code, orig, ops, k, is_compare, analyse, dest_in_current).0.ignore == c.ignore,
    decreases k,
{
    if k > 0 {
        lemma_operands_fold_frame(c, code, orig, ops, (k - 1) as nat, is_compare, analyse, dest_in_current);
    }
}

proof fn lemma_ignore_arg_regs_frame(c: ContextView, k: nat)
    ensures
        same_frame(c, ignore_arg_regs(c, k)),
    decreases k,
{
    if k > 0 {
        lemma_ignore_arg_regs_frame(c, (k - 1) as nat);
    }
}

proof fn lemma_call_operands_frame(c: ContextView, ops: Seq<Operand>, k: nat)
    ensures
        same_frame(c, call_operands(c, ops, k)),
    decreases k,
{
    if k > 0 {
        lemma_call_operands_frame(c, ops, (k - 1) as nat);
        let c1 = call_operands(c, ops, (k - 1) as nat);
        match ops[k - 1].kind {
            OperandKind::Imm(imm) => {
                let t = imm as u32;
                if c1.symbols.contains_key(t) && c1.symbols[t].sym_type & SYMBOL_SUBROUTINE != 0 {
                    let n = c1.symbols[t].n_args;
                    lemma_ignore_arg_regs_frame(c1, if n < 4 { n as nat } else { 4 });
                }
            },
            _ => {},
        }
    }
}

proof fn lemma_pass4_step_frame(c: ContextView, insn: ThumbInsnView)
    ensures
        same_frame(c, pass4_step(c, insn)),
{
    let addr = insn.address as u32;
    let c0 = if c.symbols.contains_key(addr) {
        ContextView { regs: Map::empty(), use_flags: false, ..c }
    } else {
        c
    };
    match insn.detail {
        None => {},
        Some(d) => {
            let is_cond = d.cc != 15;
            let c1 = if is_cond {
                ContextView { use_flags: true, ..c0 }
            } else {
                c0
            };
            let c2 = if d.update_flags {
                ContextView { use_flags: false, cond_reg_1: Seq::empty(), cond_reg_2: Seq::empty(), ..c1 }
            } else {
                c1
            };
            let base = strip_flag_suffix(base_mnemonic(insn), d.update_flags);
            let ops = d.operands;
            match spec_instruction_code(base, ops.len() as u8) {
                None => {},
                Some(t) => {
                    let tmpl = encode_utf8(t);
                    lemma_operands_fold_frame(c2, tmpl, tmpl, ops, ops.len(), base == lit("cmp"), true, false);
                    let (c3, code) = operands_fold(c2, tmpl, tmpl, ops, ops.len(), base == lit("cmp"), true, false);
                    let c4 = assign_step(c3, code, base, ops, is_cond, addr, d.update_flags);
                    assert(same_frame(c3, c4));
                    if base == lit("bl") || base == lit("blx") {
                        lemma_call_operands_frame(c4, ops, if ops.len() < 2 { ops.len() } else { 2 });
                    }
                },
            }
        },
    }
}

/// Pass 4 changes neither the symbols nor the segments: it only follows
/// register values and marks folded instructions.
pub proof fn lemma_pass4_keeps_frame(c: ContextView, insns: Seq<ThumbInsnView>)
    ensures
        same_frame(c, pass4_fold(c, insns)),
    decreases insns.len(),
{
    if insns.len() > 0 {
        lemma_pass4_keeps_frame(c, insns.drop_last());
        lemma_pass4_step_frame(pass4_fold(c, insns.drop_last()), insns.last());
    }
}

/// Whether instruction `i` ends a function for pass 2 (a POP or a BX).
pub open spec fn is_boundary(insns: Seq<ThumbInsnView>, i: int) -> bool {
    trim_w(insns[i].mnemonic) == lit("pop") || trim_w(insns[i].mnemonic) == lit("bx")
}

proof fn lemma_pass2_prefix_has(c: ContextView, insns: Seq<ThumbInsnView>, n: int, i: int)
    requires
        0 <= i < n,
        is_boundary(insns, i),
    ensures
        pass2_prefix(c, insns, n).symbols.contains_key(boundary_addr(insns, i)),
    decreases n,
{
    if i < n - 1 {
        lemma_pass2_prefix_has(c, insns, n - 1, i);
    }
}

proof fn lemma_pass2_prefix_fixed(c: ContextView, insns: Seq<ThumbInsnView>, n: int)
    requires
        forall|i: int| 0 <= i < n && is_boundary(insns, i) ==> c.symbols.contains_key(#[trigger] boundary_addr(insns, i)),
    ensures
        pass2_prefix(c, insns, n) == c,
    decreases n,
{
    if n > 0 {
        lemma_pass2_prefix_fixed(c, insns, n - 1);
        if is_boundary(insns, n - 1) {
            assert(c.symbols.contains_key(boundary_addr(insns, n - 1)));
        }
    }
}

/// Running pass 2 a second time over the same listing changes nothing. It
/// leaves the code it disassembles as it was, so a second run sees the
/// same listing.
pub proof fn lemma_pass2_idempotent(c: ContextView, insns: Seq<ThumbInsnView>)
    ensures
        pass2_spec(pass2_spec(c, insns), insns) == pass2_spec(c, insns),
        code_of(pass2_spec(c, insns)) == code_of(c),
        pass2_spec(c, insns).text_addr == c.text_addr,
{
    let n = insns.len() as int;
    let c1 = pass2_spec(c, insns);
    lemma_pass2_keeps_symbols(c, insns);
    assert forall|i: int| 0 <= i < n && is_boundary(insns, i) implies c1.symbols.contains_key(#[trigger] boundary_addr(insns, i)) by {
        lemma_pass2_prefix_has(c, insns, n, i);
    }
    lemma_pass2_prefix_fixed(c1, insns, n);
}

/// A write to argument register r_k (k from 0 to 3) raises the pending
/// argument count to k + 1 where it was lower and never lowers it; a write
/// to any other register leaves the count as it is.
pub proof fn lemma_arg_reg_write(n: nat, r: u32)
    ensures
        ARM_REG_R0 <= r <= ARM_REG_R3 ==> arg_reg_update(n, r) == (if n > r - ARM_REG_R0 {
            n
        } else {
            (r - ARM_REG_R0 + 1) as nat
        }),
        !(ARM_REG_R0 <= r <= ARM_REG_R3) ==> arg_reg_update(n, r) == n,
        arg_reg_update(n, r) >= n,
{
}

} // verus!
