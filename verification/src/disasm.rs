//! Thumb disassembly: the instruction model that the analysis passes read,
//! and the capstone calls that produce it.
use vstd::prelude::*;
use capstone::arch::{BuildsCapstone, DetailsArchInsn};
use capstone::arch::arm::ArmOperandType;
use capstone::arch::arm::ArmShift::{Asr, AsrReg, Invalid, Lsl, LslReg, Lsr, LsrReg, Ror, RorReg, Rrx, RrxReg};

verus! {

/// The kind of an ARM operand: a register, an immediate, a memory reference
/// (base register, index register, displacement), or anything else.
#[derive(Clone, Copy, Debug, PartialEq, Eq)]
pub enum OperandKind {
    Reg(u32),
    Imm(i32),
    Mem { base: u32, index: u32, disp: i32 },
    Other,
}

/// The shift applied to an operand: by an immediate amount or by a register.
#[derive(Clone, Copy, Debug, PartialEq, Eq)]
pub enum Shift {
    Invalid,
    Asr(u32),
    Lsl(u32),
    Lsr(u32),
    Ror(u32),
    Rrx(u32),
    AsrReg(u32),
    LslReg(u32),
    LsrReg(u32),
    RorReg(u32),
    RrxReg(u32),
}

/// An ARM operand.
#[derive(Clone, Copy, Debug, PartialEq, Eq)]
pub struct Operand {
    pub kind: OperandKind,
    pub shift: Shift,
}

/// The ARM details of an instruction: its condition code (capstone's
/// numbering, 15 for "always"), whether it updates the flags, and its
/// operands.
pub struct ArmDetail {
    pub cc: u32,
    pub update_flags: bool,
    pub operands: Vec<Operand>,
}

/// A decoded instruction: its address, mnemonic and operand text, and its
/// ARM details where the disassembler gives them.
pub struct ThumbInsn {
    pub address: u64,
    pub mnemonic: Vec<u8>,
    pub op_str: Vec<u8>,
    pub detail: Option<ArmDetail>,
}

/// The ARM details of an instruction, as plain values.
pub struct DetailView {
    pub cc: u32,
    pub update_flags: bool,
    pub operands: Seq<Operand>,
}

/// A decoded instruction, as plain values.
pub struct ThumbInsnView {
    pub address: u64,
    pub mnemonic: Seq<u8>,
    pub op_str: Seq<u8>,
    pub detail: Option<DetailView>,
}

impl View for ArmDetail {
    type V = DetailView;

    open spec fn view(&self) -> DetailView {
        DetailView { cc: self.cc, update_flags: self.update_flags, operands: self.operands@ }
    }
}

impl View for ThumbInsn {
    type V = ThumbInsnView;

    open spec fn view(&self) -> ThumbInsnView {
        ThumbInsnView {
            address: self.address,
            mnemonic: self.mnemonic@,
            op_str: self.op_str@,
            detail: match self.detail {
                Some(d) => Some(d@),
                None => None,
            },
        }
    }
}

#[verifier::external_type_specification]
#[verifier::external_body]
pub struct ExCapstone(capstone::Capstone);

#[verifier::external_type_specification]
#[verifier::external_body]
pub struct ExInstructions<'a>(capstone::Instructions<'a>);

/// Declared because `Instructions` dereferences to a slice of it.
#[verifier::external_type_specification]
#[verifier::external_body]
pub struct ExInsn<'a>(capstone::Insn<'a>);

/// Names the instructions a capstone listing holds, as plain values: each
/// instruction with the ARM details that a Thumb handle with details on
/// reports of it (`None` where it reports none).
pub uninterp spec fn listing(insns: capstone::Instructions) -> Seq<ThumbInsnView>;

/// Names what capstone (Thumb mode, details on) decodes from `code` loaded
/// at `addr`: the instructions, or `None` where it reports an error.
pub uninterp spec fn thumb_listing(code: Seq<u8>, addr: u64) -> Option<Seq<ThumbInsnView>>;

/// A capstone handle in ARM Thumb mode with instruction details on. Its
/// field is private to this module, and `thumb_capstone` is the only
/// function that makes one, so every value of this type is such a handle.
pub struct ThumbHandle {
    cs: capstone::Capstone,
}

/// Builds a capstone handle for ARM Thumb with instruction details on
/// (`Capstone::new().arm().mode(Thumb).detail(true).build()`); `None`
/// where capstone refuses. For ARM in Thumb mode `cs_open` refuses only
/// when its allocator gives no memory, a fact of the machine, so nothing is
/// promised of when that happens.
#[verifier::external_body]
fn thumb_capstone() -> (r: Option<ThumbHandle>) {
    match capstone::Capstone::new().arm().mode(capstone::arch::arm::ArchMode::Thumb).detail(true).build() {
        Ok(cs) => Some(ThumbHandle { cs }),
        Err(_) => None,
    }
}

/// Disassembles all of `code` with `Capstone::disasm_all` through a Thumb
/// handle with details on, so the listing is named as a function of the
/// code and its address alone.
#[verifier::external_body]
fn disasm_all<'a>(h: &'a ThumbHandle, code: &[u8], addr: u64) -> (r: Option<
    capstone::Instructions<'a>,
>)
    ensures
        match r {
            Some(insns) => thumb_listing(code@, addr) == Some(listing(insns)),
            None => thumb_listing(code@, addr) is None,
        },
{
    h.cs.disasm_all(code, addr).ok()
}


/// The number of instructions of a capstone listing (`Instructions::len`).
#[verifier::external_body]
fn listing_len(insns: &capstone::Instructions) -> (n: usize)
    ensures
        n == listing(*insns).len(),
{
    insns.len()
}

/// The address of instruction `i` (`Insn::address`).
#[verifier::external_body]
fn listing_address(insns: &capstone::Instructions, i: usize) -> (r: u64)
    requires
        i < listing(*insns).len(),
    ensures
        r == listing(*insns)[i as int].address,
{
    insns[i].address()
}

/// The mnemonic of instruction `i` (`Insn::mnemonic`, empty where there
/// is none) as bytes.
#[verifier::external_body]
fn listing_mnemonic(insns: &capstone::Instructions, i: usize) -> (r: Vec<u8>)
    requires
        i < listing(*insns).len(),
    ensures
        r@ == listing(*insns)[i as int].mnemonic,
{
    insns[i].mnemonic().unwrap_or("").as_bytes().to_vec()
}

/// The operand text of instruction `i` (`Insn::op_str`, empty where there
/// is none) as bytes.
#[verifier::external_body]
fn listing_op_str(insns: &capstone::Instructions, i: usize) -> (r: Vec<u8>)
    requires
        i < listing(*insns).len(),
    ensures
        r@ == listing(*insns)[i as int].op_str,
{
    insns[i].op_str().unwrap_or("").as_bytes().to_vec()
}

/// The condition code, flag update and operand count of instruction `i`
/// (`Capstone::insn_detail` through a Thumb handle with details on, then
/// its ARM details), where capstone gives them.
#[verifier::external_body]
fn listing_detail(h: &ThumbHandle, insns: &capstone::Instructions, i: usize) -> (r: Option<
    (u32, bool, usize),
>)
    requires
        i < listing(*insns).len(),
    ensures
        match listing(*insns)[i as int].detail {
            Some(d) => (r matches Some(t) && t.0 == d.cc && t.1 == d.update_flags && t.2
                == d.operands.len()),
            None => r is None,
        },
{
    match h.cs.insn_detail(&insns[i]) {
        Ok(d) => match d.arch_detail().arm() {
            Some(a) => Some((a.cc() as u32, a.update_flags(), a.operands().len())),
            None => None,
        },
        Err(_) => None,
    }
}

/// The kind of operand `j` of instruction `i` (its `ArmOperandType`, with
/// register numbers as integers), read through a Thumb handle with details
/// on; the instruction has ARM details, so the detail calls succeed.
#[verifier::external_body]
fn listing_operand_kind(h: &ThumbHandle, insns: &capstone::Instructions, i: usize, j: usize) -> (r: OperandKind)
    requires
        i < listing(*insns).len(),
        listing(*insns)[i as int].detail is Some,
        j < listing(*insns)[i as int].detail.unwrap().operands.len(),
    ensures
        r == listing(*insns)[i as int].detail.unwrap().operands[j as int].kind,
{
    let d = h.cs.insn_detail(&insns[i]).unwrap();
    let arch = d.arch_detail();
    match arch.arm().unwrap().operands().nth(j).unwrap().op_type {
        ArmOperandType::Reg(r) => OperandKind::Reg(r.0 as u32),
        ArmOperandType::Imm(v) => OperandKind::Imm(v),
        ArmOperandType::Mem(m) => OperandKind::Mem { base: m.base().0 as u32, index: m.index().0 as u32, disp: m.disp() },
        _ => OperandKind::Other,
    }
}

/// The shift of operand `j` of instruction `i` (its `ArmShift`, with
/// register numbers as integers), read through a Thumb handle with details
/// on; the instruction has ARM details, so the detail calls succeed.
#[verifier::external_body]
fn listing_operand_shift(h: &ThumbHandle, insns: &capstone::Instructions, i: usize, j: usize) -> (r: Shift)
    requires
        i < listing(*insns).len(),
        listing(*insns)[i as int].detail is Some,
        j < listing(*insns)[i as int].detail.unwrap().operands.len(),
    ensures
        r == listing(*insns)[i as int].detail.unwrap().operands[j as int].shift,
{
    match h.cs.insn_detail(&insns[i]).unwrap().arch_detail().arm().unwrap().operands().nth(j).unwrap().shift {
        Invalid => Shift::Invalid,
        Asr(n) => Shift::Asr(n),
        Lsl(n) => Shift::Lsl(n),
        Lsr(n) => Shift::Lsr(n),
        Ror(n) => Shift::Ror(n),
        Rrx(n) => Shift::Rrx(n),
        AsrReg(r) => Shift::AsrReg(r.0 as u32),
        LslReg(r) => Shift::LslReg(r.0 as u32),
        LsrReg(r) => Shift::LsrReg(r.0 as u32),
        RorReg(r) => Shift::RorReg(r.0 as u32),
        RrxReg(r) => Shift::RrxReg(r.0 as u32),
    }
}

/// Why a code range cannot be disassembled.
#[derive(Debug, Clone, Copy, PartialEq, Eq)]
pub enum DisasmError {
    /// The capstone handle could not be created.
    Init,
    /// Capstone reported an error for the code.
    Disasm,
}

/// The plain values of a list of decoded instructions.
pub open spec fn insns_view(v: Seq<ThumbInsn>) -> Seq<ThumbInsnView> {
    v.map_values(|x: ThumbInsn| x@)
}

/// Disassembles `code`, loaded at `addr`, as ARM Thumb with instruction
/// details, into the library's instruction model. Once the capstone
/// handle exists, the result is owed: the listing where capstone decodes
/// one, `Disasm` exactly where it does not. Building the handle is an
/// outside step that can fail (capstone reports a memory error from its
/// allocator), and then the result is `Init`.
pub fn disassemble(code: &[u8], addr: u64) -> (r: Result<Vec<ThumbInsn>, DisasmError>)
    ensures
        r matches Ok(v) ==> thumb_listing(code@, addr) == Some(insns_view(v@)),
        r == Err::<Vec<ThumbInsn>, DisasmError>(DisasmError::Disasm) ==> thumb_listing(code@, addr) is None,
{
    let h = match thumb_capstone() {
        Some(c) => c,
        None => return Err(DisasmError::Init),
    };
    disassemble_with(&h, code, addr)
}

/// Disassembles `code`, loaded at `addr`, through a Thumb handle with
/// details on: the listing exactly where capstone decodes one, else
/// `Disasm`.
fn disassemble_with(h: &ThumbHandle, code: &[u8], addr: u64) -> (r: Result<Vec<ThumbInsn>, DisasmError>)
    ensures
        match r {
            Ok(v) => thumb_listing(code@, addr) == Some(insns_view(v@)),
            Err(e) => e == DisasmError::Disasm && thumb_listing(code@, addr) is None,
        },
{
    let insns = match disasm_all(h, code, addr) {
        Some(l) => l,
        None => return Err(DisasmError::Disasm),
    };
    let ghost lst = listing(insns);
    let n = listing_len(&insns);
    let mut out: Vec<ThumbInsn> = Vec::new();
    let mut i: usize = 0;
    while i < n
        invariant
            i <= n == lst.len(),
            lst == listing(insns),
            out@.len() == i,
            forall|k: int| 0 <= k < i ==> #[trigger] out@[k]@ == lst[k],
        decreases n - i,
    {
        let detail = match listing_detail(h, &insns, i) {
            None => None,
            Some((cc, update_flags, nops)) => {
                let mut operands: Vec<Operand> = Vec::new();
                let mut j: usize = 0;
                while j < nops
                    invariant
                        i < lst.len(),
                        lst == listing(insns),
                        lst[i as int].detail is Some,
                        nops == lst[i as int].detail.unwrap().operands.len(),
                        j <= nops,
                        operands@.len() == j,
                        forall|k: int| 0 <= k < j ==> #[trigger] operands@[k] == lst[i as int].detail.unwrap().operands[k],
                    decreases nops - j,
                {
                    let kind = listing_operand_kind(h, &insns, i, j);
                    let shift = listing_operand_shift(h, &insns, i, j);
                    operands.push(Operand { kind, shift });
                    j = j + 1;
                }
                assert(operands@ =~= lst[i as int].detail.unwrap().operands);
                Some(ArmDetail { cc, update_flags, operands })
            },
        };
        let insn = ThumbInsn {
            address: listing_address(&insns, i),
            mnemonic: listing_mnemonic(&insns, i),
            op_str: listing_op_str(&insns, i),
            detail,
        };
        out.push(insn);
        i = i + 1;
    }
    assert(insns_view(out@) =~= lst);
    Ok(out)
}

} // verus!
