//! The pseudo-C templates of the ARM instructions the decompiler
//! renders, the conditions of conditional execution, and the C operators
//! of the ARM shifts.
use vstd::prelude::*;
use crate::text::{bytes_eq, str_eq, lit};
use crate::disasm::Shift;
use crate::analyze::{reg_name, spec_reg_name};
use crate::text::{dec_digits, push_bytes, push_dec, push_str};
use vstd::utf8::encode_utf8;

verus! {

/// What a conditional instruction is written as: the test on the flags,
/// and the test on the compared registers (empty where there is none).
#[derive(Clone, Copy, Debug)]
pub struct Condition {
    pub cond_flags: &'static str,
    pub cond_regs: &'static str,
}

/// The condition that a condition-code suffix names.
pub open spec fn spec_condition(name: Seq<u8>) -> Option<(Seq<char>, Seq<char>)> {
    if name == lit("eq") {
        Some(("if (Z == 1) // =="@, "if (COND_X == COND_Y)"@))
    } else if name == lit("ne") {
        Some(("if (Z == 0) // !="@, "if (COND_X != COND_Y)"@))
    } else if name == lit("hs") {
        Some(("if (C == 1) // unsigned >="@, "if ((unsigned)(COND_X) >= (unsigned)(COND_Y))"@))
    } else if name == lit("lo") {
        Some(("if (C == 0) // unsigned <"@, "if ((unsigned)(COND_X) < (unsigned)(COND_Y))"@))
    } else if name == lit("hi") {
        Some(("if (C == 1 && Z == 0) // unsigned >"@, "if ((unsigned)(COND_X) > (unsigned)(COND_Y))"@))
    } else if name == lit("ls") {
        Some(("if (C == 0 || Z == 1) // unsigned <="@, "if ((unsigned)(COND_X) <= (unsigned)(COND_Y))"@))
    } else if name == lit("ge") {
        Some(("if (N == V) // signed >="@, "if ((signed)(COND_X) >= (signed)(COND_Y))"@))
    } else if name == lit("lt") {
        Some(("if (N != V) // signed <"@, "if ((signed)(COND_X) < (signed)(COND_Y))"@))
    } else if name == lit("gt") {
        Some(("if (Z == 0 && N == V) // signed >"@, "if ((signed)(COND_X) > (signed)(COND_Y))"@))
    } else if name == lit("le") {
        Some(("if (Z == 1 || N != V) // signed <="@, "if ((signed)(COND_X) <= (signed)(COND_Y))"@))
    } else if name == lit("mi") {
        Some(("if (N == 1) // signed < 0"@, ""@))
    } else if name == lit("pl") {
        Some(("if (N == 0) // signed > 0"@, ""@))
    } else if name == lit("vs") {
        Some(("if (V == 1) // Signed overflow"@, ""@))
    } else if name == lit("vc") {
        Some(("if (V == 0) // No signed overflow"@, ""@))
    } else if name == lit("al") {
        Some(("if (1) // Always"@, ""@))
    } else {
        None
    }
}

/// The condition that a condition-code suffix names (the `CONDITIONS`
/// table).
pub fn condition(name: &[u8]) -> (r: Option<Condition>)
    ensures
        match r {
            Some(c) => spec_condition(name@) == Some((c.cond_flags@, c.cond_regs@)),
            None => spec_condition(name@) is None,
        },
{
    if bytes_eq(name, "eq".as_bytes()) {
        Some(Condition { cond_flags: "if (Z == 1) // ==", cond_regs: "if (COND_X == COND_Y)" })
    } else if bytes_eq(name, "ne".as_bytes()) {
        Some(Condition { cond_flags: "if (Z == 0) // !=", cond_regs: "if (COND_X != COND_Y)" })
    } else if bytes_eq(name, "hs".as_bytes()) {
        Some(Condition { cond_flags: "if (C == 1) // unsigned >=", cond_regs: "if ((unsigned)(COND_X) >= (unsigned)(COND_Y))" })
    } else if bytes_eq(name, "lo".as_bytes()) {
        Some(Condition { cond_flags: "if (C == 0) // unsigned <", cond_regs: "if ((unsigned)(COND_X) < (unsigned)(COND_Y))" })
    } else if bytes_eq(name, "hi".as_bytes()) {
        Some(Condition { cond_flags: "if (C == 1 && Z == 0) // unsigned >", cond_regs: "if ((unsigned)(COND_X) > (unsigned)(COND_Y))" })
    } else if bytes_eq(name, "ls".as_bytes()) {
        Some(Condition { cond_flags: "if (C == 0 || Z == 1) // unsigned <=", cond_regs: "if ((unsigned)(COND_X) <= (unsigned)(COND_Y))" })
    } else if bytes_eq(name, "ge".as_bytes()) {
        Some(Condition { cond_flags: "if (N == V) // signed >=", cond_regs: "if ((signed)(COND_X) >= (signed)(COND_Y))" })
    } else if bytes_eq(name, "lt".as_bytes()) {
        Some(Condition { cond_flags: "if (N != V) // signed <", cond_regs: "if ((signed)(COND_X) < (signed)(COND_Y))" })
    } else if bytes_eq(name, "gt".as_bytes()) {
        Some(Condition { cond_flags: "if (Z == 0 && N == V) // signed >", cond_regs: "if ((signed)(COND_X) > (signed)(COND_Y))" })
    } else if bytes_eq(name, "le".as_bytes()) {
        Some(Condition { cond_flags: "if (Z == 1 || N != V) // signed <=", cond_regs: "if ((signed)(COND_X) <= (signed)(COND_Y))" })
    } else if bytes_eq(name, "mi".as_bytes()) {
        Some(Condition { cond_flags: "if (N == 1) // signed < 0", cond_regs: "" })
    } else if bytes_eq(name, "pl".as_bytes()) {
        Some(Condition { cond_flags: "if (N == 0) // signed > 0", cond_regs: "" })
    } else if bytes_eq(name, "vs".as_bytes()) {
        Some(Condition { cond_flags: "if (V == 1) // Signed overflow", cond_regs: "" })
    } else if bytes_eq(name, "vc".as_bytes()) {
        Some(Condition { cond_flags: "if (V == 0) // No signed overflow", cond_regs: "" })
    } else if bytes_eq(name, "al".as_bytes()) {
        Some(Condition { cond_flags: "if (1) // Always", cond_regs: "" })
    } else {
        None
    }
}

/// The C operator of a shift name.
pub open spec fn spec_shift_op(name: Seq<char>) -> Option<Seq<char>> {
    if name == "asr"@ {
        Some(">>"@)
    } else if name == "lsl"@ {
        Some("<<"@)
    } else if name == "lsr"@ {
        Some(">>"@)
    } else if name == "ror"@ {
        Some("__builtin_ror"@)
    } else if name == "rrx"@ {
        Some("__builtin_rrx"@)
    } else {
        None
    }
}

/// The C operator of a shift name (the `SHIFTS` table).
pub fn get_shift_op(shift_name: &str) -> (r: Option<&'static str>)
    ensures
        match r {
            Some(op) => spec_shift_op(shift_name@) == Some(op@),
            None => spec_shift_op(shift_name@) is None,
        },
{
    if str_eq(shift_name, "asr") {
        Some(">>")
    } else if str_eq(shift_name, "lsl") {
        Some("<<")
    } else if str_eq(shift_name, "lsr") {
        Some(">>")
    } else if str_eq(shift_name, "ror") {
        Some("__builtin_ror")
    } else if str_eq(shift_name, "rrx") {
        Some("__builtin_rrx")
    } else {
        None
    }
}

/// The template of a mnemonic (the `INSTRUCTIONS_3OP` table).
pub open spec fn spec_instructions_3op(m: Seq<u8>) -> Option<Seq<char>> {
    if m == lit("cmp") {
        Some("FLAGS = op0 - op1;"@)
    } else if m == lit("cmn") {
        Some("FLAGS = op0 + op1;"@)
    } else if m == lit("tst") {
        Some("FLAGS = op0 & op1;"@)
    } else if m == lit("cbz") {
        Some("if (op0 == 0)\\\tgoto symbol;"@)
    } else if m == lit("cbnz") {
        Some("if (op0 != 0)\\\tgoto symbol;"@)
    } else if m == lit("b") {
        Some("goto symbol;"@)
    } else if m == lit("bl") {
        Some("a1 = symbol(...);"@)
    } else if m == lit("blx") {
        Some("a1 = symbol(...);"@)
    } else if m == lit("add") {
        Some("op0 = op1 + op2;"@)
    } else if m == lit("addw") {
        Some("op0 = op1 + op2;"@)
    } else if m == lit("adc") {
        Some("op0 = op1 + op2;"@)
    } else if m == lit("sub") {
        Some("op0 = op1 - op2;"@)
    } else if m == lit("subw") {
        Some("op0 = op1 - op2;"@)
    } else if m == lit("rsb") {
        Some("op0 = op2 - op1;"@)
    } else if m == lit("sbc") {
        Some("op0 = op1 - op2;"@)
    } else if m == lit("asr") {
        Some("op0 = op1 >> op2;"@)
    } else if m == lit("asl") {
        Some("op0 = op1 << op2;"@)
    } else if m == lit("mul") {
        Some("op0 = op1 * op2;"@)
    } else if m == lit("mla") {
        Some("op0 = op1 * op2 + op3;"@)
    } else if m == lit("mls") {
        Some("op0 = op1 * op2 - op3;"@)
    } else if m == lit("umull") {
        Some("op0 = (op2 * op3) << 32;\\op1 = (op2 * op3) & 0xFFFFFFFF;"@)
    } else if m == lit("and") {
        Some("op0 = op1 & op2;"@)
    } else if m == lit("bic") {
        Some("op0 = op1 & ~op2;"@)
    } else if m == lit("eor") {
        Some("op0 = op1 ^ op2;"@)
    } else if m == lit("orr") {
        Some("op0 = op1 | op2;"@)
    } else if m == lit("lsr") {
        Some("op0 = op1 >> op2;"@)
    } else if m == lit("lsl") {
        Some("op0 = op1 << op2;"@)
    } else if m == lit("ubfx") {
        Some("op0 = (op1 >> op2) & ((1 << op3) - 1);"@)
    } else if m == lit("rev") {
        Some("op0 = __builtin_bswap32(op1);"@)
    } else if m == lit("rev16") {
        Some("op0 = __builtin_bswap16(op1);"@)
    } else if m == lit("mov") {
        Some("op0 = op1;"@)
    } else if m == lit("mvn") {
        Some("op0 = ~op1;"@)
    } else if m == lit("movt") {
        Some("op0 = op10000 | op0;"@)
    } else if m == lit("movw") {
        Some("op0 = op1;"@)
    } else if m == lit("uxtb") {
        Some("op0 = (uint8_t)op1;"@)
    } else if m == lit("uxth") {
        Some("op0 = (uint16_t)op1;"@)
    } else if m == lit("sxtb") {
        Some("op0 = (int8_t)op1;"@)
    } else if m == lit("sxth") {
        Some("op0 = (int16_t)op1;"@)
    } else if m == lit("ldr") {
        Some("op0 = *(uint32_t *)(op1);"@)
    } else if m == lit("ldrb") {
        Some("op0 = *(uint8_t *)(op1);"@)
    } else if m == lit("ldrsb") {
        Some("op0 = *(int8_t *)(op1);"@)
    } else if m == lit("ldrh") {
        Some("op0 = *(uint16_t *)(op1);"@)
    } else if m == lit("ldrsh") {
        Some("op0 = *(int16_t *)(op1);"@)
    } else if m == lit("ldrd") {
        Some("op0 = *(uint32_t *)(op2);\\op1 = *(uint32_t *)(op2 + 0x4);"@)
    } else if m == lit("str") {
        Some("*(uint32_t *)(op1) = op0;"@)
    } else if m == lit("strb") {
        Some("*(uint8_t *)(op1) = op0;"@)
    } else if m == lit("strsb") {
        Some("*(int8_t *)(op1) = op0;"@)
    } else if m == lit("strh") {
        Some("*(uint16_t *)(op1) = op0;"@)
    } else if m == lit("strsh") {
        Some("*(int16_t *)(op1) = op0;"@)
    } else if m == lit("strd") {
        Some("*(uint32_t *)(op2) = op0;\\*(uint32_t *)(op2 + 0x4) = op1;"@)
    } else {
        None
    }
}

/// The template of a mnemonic (the `INSTRUCTIONS_3OP` table).
pub fn instructions_3op(m: &[u8]) -> (r: Option<&'static str>)
    ensures
        match r {
            Some(t) => spec_instructions_3op(m@) == Some(t@),
            None => spec_instructions_3op(m@) is None,
        },
{
    if bytes_eq(m, "cmp".as_bytes()) {
        Some("FLAGS = op0 - op1;")
    } else if bytes_eq(m, "cmn".as_bytes()) {
        Some("FLAGS = op0 + op1;")
    } else if bytes_eq(m, "tst".as_bytes()) {
        Some("FLAGS = op0 & op1;")
    } else if bytes_eq(m, "cbz".as_bytes()) {
        Some("if (op0 == 0)\\\tgoto symbol;")
    } else if bytes_eq(m, "cbnz".as_bytes()) {
        Some("if (op0 != 0)\\\tgoto symbol;")
    } else if bytes_eq(m, "b".as_bytes()) {
        Some("goto symbol;")
    } else if bytes_eq(m, "bl".as_bytes()) {
        Some("a1 = symbol(...);")
    } else if bytes_eq(m, "blx".as_bytes()) {
        Some("a1 = symbol(...);")
    } else if bytes_eq(m, "add".as_bytes()) {
        Some("op0 = op1 + op2;")
    } else if bytes_eq(m, "addw".as_bytes()) {
        Some("op0 = op1 + op2;")
    } else if bytes_eq(m, "adc".as_bytes()) {
        Some("op0 = op1 + op2;")
    } else if bytes_eq(m, "sub".as_bytes()) {
        Some("op0 = op1 - op2;")
    } else if bytes_eq(m, "subw".as_bytes()) {
        Some("op0 = op1 - op2;")
    } else if bytes_eq(m, "rsb".as_bytes()) {
        Some("op0 = op2 - op1;")
    } else if bytes_eq(m, "sbc".as_bytes()) {
        Some("op0 = op1 - op2;")
    } else if bytes_eq(m, "asr".as_bytes()) {
        Some("op0 = op1 >> op2;")
    } else if bytes_eq(m, "asl".as_bytes()) {
        Some("op0 = op1 << op2;")
    } else if bytes_eq(m, "mul".as_bytes()) {
        Some("op0 = op1 * op2;")
    } else if bytes_eq(m, "mla".as_bytes()) {
        Some("op0 = op1 * op2 + op3;")
    } else if bytes_eq(m, "mls".as_bytes()) {
        Some("op0 = op1 * op2 - op3;")
    } else if bytes_eq(m, "umull".as_bytes()) {
        Some("op0 = (op2 * op3) << 32;\\op1 = (op2 * op3) & 0xFFFFFFFF;")
    } else if bytes_eq(m, "and".as_bytes()) {
        Some("op0 = op1 & op2;")
    } else if bytes_eq(m, "bic".as_bytes()) {
        Some("op0 = op1 & ~op2;")
    } else if bytes_eq(m, "eor".as_bytes()) {
        Some("op0 = op1 ^ op2;")
    } else if bytes_eq(m, "orr".as_bytes()) {
        Some("op0 = op1 | op2;")
    } else if bytes_eq(m, "lsr".as_bytes()) {
        Some("op0 = op1 >> op2;")
    } else if bytes_eq(m, "lsl".as_bytes()) {
        Some("op0 = op1 << op2;")
    } else if bytes_eq(m, "ubfx".as_bytes()) {
        Some("op0 = (op1 >> op2) & ((1 << op3) - 1);")
    } else if bytes_eq(m, "rev".as_bytes()) {
        Some("op0 = __builtin_bswap32(op1);")
    } else if bytes_eq(m, "rev16".as_bytes()) {
        Some("op0 = __builtin_bswap16(op1);")
    } else if bytes_eq(m, "mov".as_bytes()) {
        Some("op0 = op1;")
    } else if bytes_eq(m, "mvn".as_bytes()) {
        Some("op0 = ~op1;")
    } else if bytes_eq(m, "movt".as_bytes()) {
        Some("op0 = op10000 | op0;")
    } else if bytes_eq(m, "movw".as_bytes()) {
        Some("op0 = op1;")
    } else if bytes_eq(m, "uxtb".as_bytes()) {
        Some("op0 = (uint8_t)op1;")
    } else if bytes_eq(m, "uxth".as_bytes()) {
        Some("op0 = (uint16_t)op1;")
    } else if bytes_eq(m, "sxtb".as_bytes()) {
        Some("op0 = (int8_t)op1;")
    } else if bytes_eq(m, "sxth".as_bytes()) {
        Some("op0 = (int16_t)op1;")
    } else if bytes_eq(m, "ldr".as_bytes()) {
        Some("op0 = *(uint32_t *)(op1);")
    } else if bytes_eq(m, "ldrb".as_bytes()) {
        Some("op0 = *(uint8_t *)(op1);")
    } else if bytes_eq(m, "ldrsb".as_bytes()) {
        Some("op0 = *(int8_t *)(op1);")
    } else if bytes_eq(m, "ldrh".as_bytes()) {
        Some("op0 = *(uint16_t *)(op1);")
    } else if bytes_eq(m, "ldrsh".as_bytes()) {
        Some("op0 = *(int16_t *)(op1);")
    } else if bytes_eq(m, "ldrd".as_bytes()) {
        Some("op0 = *(uint32_t *)(op2);\\op1 = *(uint32_t *)(op2 + 0x4);")
    } else if bytes_eq(m, "str".as_bytes()) {
        Some("*(uint32_t *)(op1) = op0;")
    } else if bytes_eq(m, "strb".as_bytes()) {
        Some("*(uint8_t *)(op1) = op0;")
    } else if bytes_eq(m, "strsb".as_bytes()) {
        Some("*(int8_t *)(op1) = op0;")
    } else if bytes_eq(m, "strh".as_bytes()) {
        Some("*(uint16_t *)(op1) = op0;")
    } else if bytes_eq(m, "strsh".as_bytes()) {
        Some("*(int16_t *)(op1) = op0;")
    } else if bytes_eq(m, "strd".as_bytes()) {
        Some("*(uint32_t *)(op2) = op0;\\*(uint32_t *)(op2 + 0x4) = op1;")
    } else {
        None
    }
}

/// The two-operand template of a mnemonic (the `INSTRUCTIONS_2OP` table).
pub open spec fn spec_instructions_2op(m: Seq<u8>) -> Option<Seq<char>> {
    if m == lit("add") {
        Some("op0 = op0 + op1;"@)
    } else if m == lit("sub") {
        Some("op0 = op0 - op1;"@)
    } else if m == lit("mul") {
        Some("op0 = op0 * op1;"@)
    } else if m == lit("asr") {
        Some("op0 = op0 >> op1;"@)
    } else if m == lit("asl") {
        Some("op0 = op0 << op1;"@)
    } else if m == lit("and") {
        Some("op0 = op0 & op1;"@)
    } else if m == lit("bic") {
        Some("op0 = op0 & ~op1;"@)
    } else if m == lit("eor") {
        Some("op0 = op0 ^ op1;"@)
    } else if m == lit("orr") {
        Some("op0 = op0 | op1;"@)
    } else if m == lit("lsr") {
        Some("op0 = op0 >> op1;"@)
    } else if m == lit("lsl") {
        Some("op0 = op0 << op1;"@)
    } else {
        None
    }
}

/// The two-operand template of a mnemonic (the `INSTRUCTIONS_2OP` table).
pub fn instructions_2op(m: &[u8]) -> (r: Option<&'static str>)
    ensures
        match r {
            Some(t) => spec_instructions_2op(m@) == Some(t@),
            None => spec_instructions_2op(m@) is None,
        },
{
    if bytes_eq(m, "add".as_bytes()) {
        Some("op0 = op0 + op1;")
    } else if bytes_eq(m, "sub".as_bytes()) {
        Some("op0 = op0 - op1;")
    } else if bytes_eq(m, "mul".as_bytes()) {
        Some("op0 = op0 * op1;")
    } else if bytes_eq(m, "asr".as_bytes()) {
        Some("op0 = op0 >> op1;")
    } else if bytes_eq(m, "asl".as_bytes()) {
        Some("op0 = op0 << op1;")
    } else if bytes_eq(m, "and".as_bytes()) {
        Some("op0 = op0 & op1;")
    } else if bytes_eq(m, "bic".as_bytes()) {
        Some("op0 = op0 & ~op1;")
    } else if bytes_eq(m, "eor".as_bytes()) {
        Some("op0 = op0 ^ op1;")
    } else if bytes_eq(m, "orr".as_bytes()) {
        Some("op0 = op0 | op1;")
    } else if bytes_eq(m, "lsr".as_bytes()) {
        Some("op0 = op0 >> op1;")
    } else if bytes_eq(m, "lsl".as_bytes()) {
        Some("op0 = op0 << op1;")
    } else {
        None
    }
}

/// The template of a mnemonic: its two-operand form where it has two
/// operands and there is one, else its general form.
pub open spec fn spec_instruction_code(m: Seq<u8>, op_count: u8) -> Option<Seq<char>> {
    match spec_instructions_3op(m) {
        None => None,
        Some(t) => if op_count == 2 && spec_instructions_2op(m) is Some {
            spec_instructions_2op(m)
        } else {
            Some(t)
        },
    }
}

/// The template of a mnemonic given as bytes.
pub fn instruction_code(m: &[u8], op_count: u8) -> (r: Option<&'static str>)
    ensures
        match r {
            Some(t) => spec_instruction_code(m@, op_count) == Some(t@),
            None => spec_instruction_code(m@, op_count) is None,
        },
{
    match instructions_3op(m) {
        None => None,
        Some(code) => {
            if op_count == 2 {
                match instructions_2op(m) {
                    Some(code2) => {
                        return Some(code2);
                    },
                    None => {},
                }
            }
            Some(code)
        },
    }
}

/// The pseudo-C template of an instruction: its two-operand form where it
/// has two operands and there is one, else its general form.
pub fn get_instruction_code(mnemonic: &str, op_count: u8) -> (r: Option<&'static str>)
    ensures
        match r {
            Some(t) => spec_instruction_code(lit(mnemonic), op_count) == Some(t@),
            None => spec_instruction_code(lit(mnemonic), op_count) is None,
        },
{
    instruction_code(mnemonic.as_bytes(), op_count)
}


/// An operand register written with its shift.
pub open spec fn spec_handle_shift(reg: Seq<u8>, shift: Shift) -> Seq<u8> {
    match shift {
        Shift::Invalid => reg,
        Shift::Rrx(_) => reg,
        Shift::Asr(n) => if n == 0 {
            reg
        } else {
            lit("(") + reg + lit(" >> ") + dec_digits(n as nat) + lit(")")
        },
        Shift::Lsl(n) => if n == 0 {
            reg
        } else {
            lit("(") + reg + lit(" << ") + dec_digits(n as nat) + lit(")")
        },
        Shift::Lsr(n) => if n == 0 {
            reg
        } else {
            lit("((unsigned)") + reg + lit(" >> ") + dec_digits(n as nat) + lit(")")
        },
        Shift::Ror(n) => if n == 0 {
            reg
        } else {
            lit("__builtin_ror(") + reg + lit(", ") + dec_digits(n as nat) + lit(")")
        },
        Shift::AsrReg(r) => lit("(") + reg + lit(" >> ") + encode_utf8(spec_reg_name(r)) + lit(")"),
        Shift::LslReg(r) => lit("(") + reg + lit(" << ") + encode_utf8(spec_reg_name(r)) + lit(")"),
        Shift::LsrReg(r) => lit("((unsigned)") + reg + lit(" >> ") + encode_utf8(spec_reg_name(r)) + lit(")"),
        Shift::RorReg(r) => lit("__builtin_ror(") + reg + lit(", ") + encode_utf8(spec_reg_name(r)) + lit(")"),
        Shift::RrxReg(_) => lit("__builtin_rrx(") + reg + lit(")"),
    }
}

/// Writes an operand register with its shift: `(x >> n)`, `(x << n)`,
/// `((unsigned)x >> n)`, `__builtin_ror(x, n)` or `__builtin_rrx(x)`, with
/// a register in place of `n` for shifts by a register; a shift by zero and
/// an immediate RRX leave the register as it is.
pub fn handle_shift(reg_str: &[u8], shift: &Shift) -> (r: Vec<u8>)
    ensures
        r@ == spec_handle_shift(reg_str@, *shift),
{
    let mut out: Vec<u8> = Vec::new();
    let (open, op, amount, reg): (&str, &str, u32, Option<u32>) = match *shift {
        Shift::Invalid | Shift::Rrx(_) | Shift::Lsl(0) | Shift::Asr(0) | Shift::Lsr(0) | Shift::Ror(0) => {
            push_bytes(&mut out, reg_str);
            return out;
        },
        Shift::RrxReg(_) => {
            push_str(&mut out, "__builtin_rrx(");
            push_bytes(&mut out, reg_str);
            push_str(&mut out, ")");
            return out;
        },
        Shift::Asr(n) => ("(", " >> ", n, None),
        Shift::Lsl(n) => ("(", " << ", n, None),
        Shift::Lsr(n) => ("((unsigned)", " >> ", n, None),
        Shift::Ror(n) => ("__builtin_ror(", ", ", n, None),
        Shift::AsrReg(r) => ("(", " >> ", 0, Some(r)),
        Shift::LslReg(r) => ("(", " << ", 0, Some(r)),
        Shift::LsrReg(r) => ("((unsigned)", " >> ", 0, Some(r)),
        Shift::RorReg(r) => ("__builtin_ror(", ", ", 0, Some(r)),
    };
    push_str(&mut out, open);
    push_bytes(&mut out, reg_str);
    push_str(&mut out, op);
    match reg {
        Some(r) => push_str(&mut out, reg_name(r)),
        None => push_dec(&mut out, amount as u64),
    }
    push_str(&mut out, ")");
    out
}

proof fn lemma_add_lit_distinct()
    ensures
        lit("add") != lit("and"),
        lit("add") != lit("asl"),
        lit("add") != lit("asr"),
        lit("add") != lit("b"),
        lit("add") != lit("bic"),
        lit("add") != lit("bl"),
        lit("add") != lit("blx"),
        lit("add") != lit("cbnz"),
        lit("add") != lit("cbz"),
        lit("add") != lit("cmn"),
        lit("add") != lit("cmp"),
        lit("add") != lit("eor"),
        lit("add") != lit("lsl"),
        lit("add") != lit("lsr"),
        lit("add") != lit("mul"),
        lit("add") != lit("orr"),
        lit("add") != lit("sub"),
        lit("add") != lit("tst"),
{
    reveal_strlit("add");
    reveal_strlit("and");
    crate::text::lemma_encode_utf8_injective("add"@, "and"@);
    assert("add"@[1] != "and"@[1]);
    reveal_strlit("asl");
    crate::text::lemma_encode_utf8_injective("add"@, "asl"@);
    assert("add"@[1] != "asl"@[1]);
    reveal_strlit("asr");
    crate::text::lemma_encode_utf8_injective("add"@, "asr"@);
    assert("add"@[1] != "asr"@[1]);
    reveal_strlit("b");
    crate::text::lemma_encode_utf8_injective("add"@, "b"@);
    assert("add"@[0] != "b"@[0]);
    reveal_strlit("bic");
    crate::text::lemma_encode_utf8_injective("add"@, "bic"@);
    assert("add"@[0] != "bic"@[0]);
    reveal_strlit("bl");
    crate::text::lemma_encode_utf8_injective("add"@, "bl"@);
    assert("add"@[0] != "bl"@[0]);
    reveal_strlit("blx");
    crate::text::lemma_encode_utf8_injective("add"@, "blx"@);
    assert("add"@[0] != "blx"@[0]);
    reveal_strlit("cbnz");
    crate::text::lemma_encode_utf8_injective("add"@, "cbnz"@);
    assert("add"@[0] != "cbnz"@[0]);
    reveal_strlit("cbz");
    crate::text::lemma_encode_utf8_injective("add"@, "cbz"@);
    assert("add"@[0] != "cbz"@[0]);
    reveal_strlit("cmn");
    crate::text::lemma_encode_utf8_injective("add"@, "cmn"@);
    assert("add"@[0] != "cmn"@[0]);
    reveal_strlit("cmp");
    crate::text::lemma_encode_utf8_injective("add"@, "cmp"@);
    assert("add"@[0] != "cmp"@[0]);
    reveal_strlit("eor");
    crate::text::lemma_encode_utf8_injective("add"@, "eor"@);
    assert("add"@[0] != "eor"@[0]);
    reveal_strlit("lsl");
    crate::text::lemma_encode_utf8_injective("add"@, "lsl"@);
    assert("add"@[0] != "lsl"@[0]);
    reveal_strlit("lsr");
    crate::text::lemma_encode_utf8_injective("add"@, "lsr"@);
    assert("add"@[0] != "lsr"@[0]);
    reveal_strlit("mul");
    crate::text::lemma_encode_utf8_injective("add"@, "mul"@);
    assert("add"@[0] != "mul"@[0]);
    reveal_strlit("orr");
    crate::text::lemma_encode_utf8_injective("add"@, "orr"@);
    assert("add"@[0] != "orr"@[0]);
    reveal_strlit("sub");
    crate::text::lemma_encode_utf8_injective("add"@, "sub"@);
    assert("add"@[0] != "sub"@[0]);
    reveal_strlit("tst");
    crate::text::lemma_encode_utf8_injective("add"@, "tst"@);
    assert("add"@[0] != "tst"@[0]);
}

proof fn lemma_add_template(n: u8)
    ensures
        spec_instruction_code(lit("add"), n) == Some((if n == 2 { "op0 = op0 + op1;"@ } else { "op0 = op1 + op2;"@ })),
        spec_instruction_code(lit("add"), n) matches Some(t) && t.contains('+') && !t.contains('-'),
{
    lemma_add_lit_distinct();
    reveal_strlit("op0 = op1 + op2;");
    assert("op0 = op1 + op2;"@[10] == '+');
    assert forall|i: int| 0 <= i < "op0 = op1 + op2;"@.len() implies "op0 = op1 + op2;"@[i] != '-' by {}
    reveal_strlit("op0 = op0 + op1;");
    assert("op0 = op0 + op1;"@[10] == '+');
    assert forall|i: int| 0 <= i < "op0 = op0 + op1;"@.len() implies "op0 = op0 + op1;"@[i] != '-' by {}
}

proof fn lemma_addw_lit_distinct()
    ensures
        lit("addw") != lit("add"),
        lit("addw") != lit("and"),
        lit("addw") != lit("asl"),
        lit("addw") != lit("asr"),
        lit("addw") != lit("b"),
        lit("addw") != lit("bic"),
        lit("addw") != lit("bl"),
        lit("addw") != lit("blx"),
        lit("addw") != lit("cbnz"),
        lit("addw") != lit("cbz"),
        lit("addw") != lit("cmn"),
        lit("addw") != lit("cmp"),
        lit("addw") != lit("eor"),
        lit("addw") != lit("lsl"),
        lit("addw") != lit("lsr"),
        lit("addw") != lit("mul"),
        lit("addw") != lit("orr"),
        lit("addw") != lit("sub"),
        lit("addw") != lit("tst"),
{
    reveal_strlit("addw");
    reveal_strlit("add");
    crate::text::lemma_encode_utf8_injective("addw"@, "add"@);
    assert("addw"@.len() != "add"@.len());
    reveal_strlit("and");
    crate::text::lemma_encode_utf8_injective("addw"@, "and"@);
    assert("addw"@[1] != "and"@[1]);
    reveal_strlit("asl");
    crate::text::lemma_encode_utf8_injective("addw"@, "asl"@);
    assert("addw"@[1] != "asl"@[1]);
    reveal_strlit("asr");
    crate::text::lemma_encode_utf8_injective("addw"@, "asr"@);
    assert("addw"@[1] != "asr"@[1]);
    reveal_strlit("b");
    crate::text::lemma_encode_utf8_injective("addw"@, "b"@);
    assert("addw"@[0] != "b"@[0]);
    reveal_strlit("bic");
    crate::text::lemma_encode_utf8_injective("addw"@, "bic"@);
    assert("addw"@[0] != "bic"@[0]);
    reveal_strlit("bl");
    crate::text::lemma_encode_utf8_injective("addw"@, "bl"@);
    assert("addw"@[0] != "bl"@[0]);
    reveal_strlit("blx");
    crate::text::lemma_encode_utf8_injective("addw"@, "blx"@);
    assert("addw"@[0] != "blx"@[0]);
    reveal_strlit("cbnz");
    crate::text::lemma_encode_utf8_injective("addw"@, "cbnz"@);
    assert("addw"@[0] != "cbnz"@[0]);
    reveal_strlit("cbz");
    crate::text::lemma_encode_utf8_injective("addw"@, "cbz"@);
    assert("addw"@[0] != "cbz"@[0]);
    reveal_strlit("cmn");
    crate::text::lemma_encode_utf8_injective("addw"@, "cmn"@);
    assert("addw"@[0] != "cmn"@[0]);
    reveal_strlit("cmp");
    crate::text::lemma_encode_utf8_injective("addw"@, "cmp"@);
    assert("addw"@[0] != "cmp"@[0]);
    reveal_strlit("eor");
    crate::text::lemma_encode_utf8_injective("addw"@, "eor"@);
    assert("addw"@[0] != "eor"@[0]);
    reveal_strlit("lsl");
    crate::text::lemma_encode_utf8_injective("addw"@, "lsl"@);
    assert("addw"@[0] != "lsl"@[0]);
    reveal_strlit("lsr");
    crate::text::lemma_encode_utf8_injective("addw"@, "lsr"@);
    assert("addw"@[0] != "lsr"@[0]);
    reveal_strlit("mul");
    crate::text::lemma_encode_utf8_injective("addw"@, "mul"@);
    assert("addw"@[0] != "mul"@[0]);
    reveal_strlit("orr");
    crate::text::lemma_encode_utf8_injective("addw"@, "orr"@);
    assert("addw"@[0] != "orr"@[0]);
    reveal_strlit("sub");
    crate::text::lemma_encode_utf8_injective("addw"@, "sub"@);
    assert("addw"@[0] != "sub"@[0]);
    reveal_strlit("tst");
    crate::text::lemma_encode_utf8_injective("addw"@, "tst"@);
    assert("addw"@[0] != "tst"@[0]);
}

proof fn lemma_addw_template(n: u8)
    ensures
        spec_instruction_code(lit("addw"), n) == Some("op0 = op1 + op2;"@),
        spec_instruction_code(lit("addw"), n) matches Some(t) && t.contains('+') && !t.contains('-'),
{
    lemma_addw_lit_distinct();
    reveal_strlit("op0 = op1 + op2;");
    assert("op0 = op1 + op2;"@[10] == '+');
    assert forall|i: int| 0 <= i < "op0 = op1 + op2;"@.len() implies "op0 = op1 + op2;"@[i] != '-' by {}
}

proof fn lemma_adc_lit_distinct()
    ensures
        lit("adc") != lit("add"),
        lit("adc") != lit("addw"),
        lit("adc") != lit("and"),
        lit("adc") != lit("asl"),
        lit("adc") != lit("asr"),
        lit("adc") != lit("b"),
        lit("adc") != lit("bic"),
        lit("adc") != lit("bl"),
        lit("adc") != lit("blx"),
        lit("adc") != lit("cbnz"),
        lit("adc") != lit("cbz"),
        lit("adc") != lit("cmn"),
        lit("adc") != lit("cmp"),
        lit("adc") != lit("eor"),
        lit("adc") != lit("lsl"),
        lit("adc") != lit("lsr"),
        lit("adc") != lit("mul"),
        lit("adc") != lit("orr"),
        lit("adc") != lit("sub"),
        lit("adc") != lit("tst"),
{
    reveal_strlit("adc");
    reveal_strlit("add");
    crate::text::lemma_encode_utf8_injective("adc"@, "add"@);
    assert("adc"@[2] != "add"@[2]);
    reveal_strlit("addw");
    crate::text::lemma_encode_utf8_injective("adc"@, "addw"@);
    assert("adc"@[2] != "addw"@[2]);
    reveal_strlit("and");
    crate::text::lemma_encode_utf8_injective("adc"@, "and"@);
    assert("adc"@[1] != "and"@[1]);
    reveal_strlit("asl");
    crate::text::lemma_encode_utf8_injective("adc"@, "asl"@);
    assert("adc"@[1] != "asl"@[1]);
    reveal_strlit("asr");
    crate::text::lemma_encode_utf8_injective("adc"@, "asr"@);
    assert("adc"@[1] != "asr"@[1]);
    reveal_strlit("b");
    crate::text::lemma_encode_utf8_injective("adc"@, "b"@);
    assert("adc"@[0] != "b"@[0]);
    reveal_strlit("bic");
    crate::text::lemma_encode_utf8_injective("adc"@, "bic"@);
    assert("adc"@[0] != "bic"@[0]);
    reveal_strlit("bl");
    crate::text::lemma_encode_utf8_injective("adc"@, "bl"@);
    assert("adc"@[0] != "bl"@[0]);
    reveal_strlit("blx");
    crate::text::lemma_encode_utf8_injective("adc"@, "blx"@);
    assert("adc"@[0] != "blx"@[0]);
    reveal_strlit("cbnz");
    crate::text::lemma_encode_utf8_injective("adc"@, "cbnz"@);
    assert("adc"@[0] != "cbnz"@[0]);
    reveal_strlit("cbz");
    crate::text::lemma_encode_utf8_injective("adc"@, "cbz"@);
    assert("adc"@[0] != "cbz"@[0]);
    reveal_strlit("cmn");
    crate::text::lemma_encode_utf8_injective("adc"@, "cmn"@);
    assert("adc"@[0] != "cmn"@[0]);
    reveal_strlit("cmp");
    crate::text::lemma_encode_utf8_injective("adc"@, "cmp"@);
    assert("adc"@[0] != "cmp"@[0]);
    reveal_strlit("eor");
    crate::text::lemma_encode_utf8_injective("adc"@, "eor"@);
    assert("adc"@[0] != "eor"@[0]);
    reveal_strlit("lsl");
    crate::text::lemma_encode_utf8_injective("adc"@, "lsl"@);
    assert("adc"@[0] != "lsl"@[0]);
    reveal_strlit("lsr");
    crate::text::lemma_encode_utf8_injective("adc"@, "lsr"@);
    assert("adc"@[0] != "lsr"@[0]);
    reveal_strlit("mul");
    crate::text::lemma_encode_utf8_injective("adc"@, "mul"@);
    assert("adc"@[0] != "mul"@[0]);
    reveal_strlit("orr");
    crate::text::lemma_encode_utf8_injective("adc"@, "orr"@);
    assert("adc"@[0] != "orr"@[0]);
    reveal_strlit("sub");
    crate::text::lemma_encode_utf8_injective("adc"@, "sub"@);
    assert("adc"@[0] != "sub"@[0]);
    reveal_strlit("tst");
    crate::text::lemma_encode_utf8_injective("adc"@, "tst"@);
    assert("adc"@[0] != "tst"@[0]);
}

proof fn lemma_adc_template(n: u8)
    ensures
        spec_instruction_code(lit("adc"), n) == Some("op0 = op1 + op2;"@),
        spec_instruction_code(lit("adc"), n) matches Some(t) && t.contains('+') && !t.contains('-'),
{
    lemma_adc_lit_distinct();
    reveal_strlit("op0 = op1 + op2;");
    assert("op0 = op1 + op2;"@[10] == '+');
    assert forall|i: int| 0 <= i < "op0 = op1 + op2;"@.len() implies "op0 = op1 + op2;"@[i] != '-' by {}
}

proof fn lemma_sub_lit_distinct()
    ensures
        lit("sub") != lit("adc"),
        lit("sub") != lit("add"),
        lit("sub") != lit("addw"),
        lit("sub") != lit("and"),
        lit("sub") != lit("asl"),
        lit("sub") != lit("asr"),
        lit("sub") != lit("b"),
        lit("sub") != lit("bic"),
        lit("sub") != lit("bl"),
        lit("sub") != lit("blx"),
        lit("sub") != lit("cbnz"),
        lit("sub") != lit("cbz"),
        lit("sub") != lit("cmn"),
        lit("sub") != lit("cmp"),
        lit("sub") != lit("eor"),
        lit("sub") != lit("lsl"),
        lit("sub") != lit("lsr"),
        lit("sub") != lit("mul"),
        lit("sub") != lit("orr"),
        lit("sub") != lit("tst"),
{
    reveal_strlit("sub");
    reveal_strlit("adc");
    crate::text::lemma_encode_utf8_injective("sub"@, "adc"@);
    assert("sub"@[0] != "adc"@[0]);
    reveal_strlit("add");
    crate::text::lemma_encode_utf8_injective("sub"@, "add"@);
    assert("sub"@[0] != "add"@[0]);
    reveal_strlit("addw");
    crate::text::lemma_encode_utf8_injective("sub"@, "addw"@);
    assert("sub"@[0] != "addw"@[0]);
    reveal_strlit("and");
    crate::text::lemma_encode_utf8_injective("sub"@, "and"@);
    assert("sub"@[0] != "and"@[0]);
    reveal_strlit("asl");
    crate::text::lemma_encode_utf8_injective("sub"@, "asl"@);
    assert("sub"@[0] != "asl"@[0]);
    reveal_strlit("asr");
    crate::text::lemma_encode_utf8_injective("sub"@, "asr"@);
    assert("sub"@[0] != "asr"@[0]);
    reveal_strlit("b");
    crate::text::lemma_encode_utf8_injective("sub"@, "b"@);
    assert("sub"@[0] != "b"@[0]);
    reveal_strlit("bic");
    crate::text::lemma_encode_utf8_injective("sub"@, "bic"@);
    assert("sub"@[0] != "bic"@[0]);
    reveal_strlit("bl");
    crate::text::lemma_encode_utf8_injective("sub"@, "bl"@);
    assert("sub"@[0] != "bl"@[0]);
    reveal_strlit("blx");
    crate::text::lemma_encode_utf8_injective("sub"@, "blx"@);
    assert("sub"@[0] != "blx"@[0]);
    reveal_strlit("cbnz");
    crate::text::lemma_encode_utf8_injective("sub"@, "cbnz"@);
    assert("sub"@[0] != "cbnz"@[0]);
    reveal_strlit("cbz");
    crate::text::lemma_encode_utf8_injective("sub"@, "cbz"@);
    assert("sub"@[0] != "cbz"@[0]);
    reveal_strlit("cmn");
    crate::text::lemma_encode_utf8_injective("sub"@, "cmn"@);
    assert("sub"@[0] != "cmn"@[0]);
    reveal_strlit("cmp");
    crate::text::lemma_encode_utf8_injective("sub"@, "cmp"@);
    assert("sub"@[0] != "cmp"@[0]);
    reveal_strlit("eor");
    crate::text::lemma_encode_utf8_injective("sub"@, "eor"@);
    assert("sub"@[0] != "eor"@[0]);
    reveal_strlit("lsl");
    crate::text::lemma_encode_utf8_injective("sub"@, "lsl"@);
    assert("sub"@[0] != "lsl"@[0]);
    reveal_strlit("lsr");
    crate::text::lemma_encode_utf8_injective("sub"@, "lsr"@);
    assert("sub"@[0] != "lsr"@[0]);
    reveal_strlit("mul");
    crate::text::lemma_encode_utf8_injective("sub"@, "mul"@);
    assert("sub"@[0] != "mul"@[0]);
    reveal_strlit("orr");
    crate::text::lemma_encode_utf8_injective("sub"@, "orr"@);
    assert("sub"@[0] != "orr"@[0]);
    reveal_strlit("tst");
    crate::text::lemma_encode_utf8_injective("sub"@, "tst"@);
    assert("sub"@[0] != "tst"@[0]);
}

proof fn lemma_sub_template(n: u8)
    ensures
        spec_instruction_code(lit("sub"), n) == Some((if n == 2 { "op0 = op0 - op1;"@ } else { "op0 = op1 - op2;"@ })),
        spec_instruction_code(lit("sub"), n) matches Some(t) && t.contains('-') && !t.contains('+'),
{
    lemma_sub_lit_distinct();
    reveal_strlit("op0 = op1 - op2;");
    assert("op0 = op1 - op2;"@[10] == '-');
    assert forall|i: int| 0 <= i < "op0 = op1 - op2;"@.len() implies "op0 = op1 - op2;"@[i] != '+' by {}
    reveal_strlit("op0 = op0 - op1;");
    assert("op0 = op0 - op1;"@[10] == '-');
    assert forall|i: int| 0 <= i < "op0 = op0 - op1;"@.len() implies "op0 = op0 - op1;"@[i] != '+' by {}
}

proof fn lemma_subw_lit_distinct()
    ensures
        lit("subw") != lit("adc"),
        lit("subw") != lit("add"),
        lit("subw") != lit("addw"),
        lit("subw") != lit("and"),
        lit("subw") != lit("asl"),
        lit("subw") != lit("asr"),
        lit("subw") != lit("b"),
        lit("subw") != lit("bic"),
        lit("subw") != lit("bl"),
        lit("subw") != lit("blx"),
        lit("subw") != lit("cbnz"),
        lit("subw") != lit("cbz"),
        lit("subw") != lit("cmn"),
        lit("subw") != lit("cmp"),
        lit("subw") != lit("eor"),
        lit("subw") != lit("lsl"),
        lit("subw") != lit("lsr"),
        lit("subw") != lit("mul"),
        lit("subw") != lit("orr"),
        lit("subw") != lit("sub"),
        lit("subw") != lit("tst"),
{
    reveal_strlit("subw");
    reveal_strlit("adc");
    crate::text::lemma_encode_utf8_injective("subw"@, "adc"@);
    assert("subw"@[0] != "adc"@[0]);
    reveal_strlit("add");
    crate::text::lemma_encode_utf8_injective("subw"@, "add"@);
    assert("subw"@[0] != "add"@[0]);
    reveal_strlit("addw");
    crate::text::lemma_encode_utf8_injective("subw"@, "addw"@);
    assert("subw"@[0] != "addw"@[0]);
    reveal_strlit("and");
    crate::text::lemma_encode_utf8_injective("subw"@, "and"@);
    assert("subw"@[0] != "and"@[0]);
    reveal_strlit("asl");
    crate::text::lemma_encode_utf8_injective("subw"@, "asl"@);
    assert("subw"@[0] != "asl"@[0]);
    reveal_strlit("asr");
    crate::text::lemma_encode_utf8_injective("subw"@, "asr"@);
    assert("subw"@[0] != "asr"@[0]);
    reveal_strlit("b");
    crate::text::lemma_encode_utf8_injective("subw"@, "b"@);
    assert("subw"@[0] != "b"@[0]);
    reveal_strlit("bic");
    crate::text::lemma_encode_utf8_injective("subw"@, "bic"@);
    assert("subw"@[0] != "bic"@[0]);
    reveal_strlit("bl");
    crate::text::lemma_encode_utf8_injective("subw"@, "bl"@);
    assert("subw"@[0] != "bl"@[0]);
    reveal_strlit("blx");
    crate::text::lemma_encode_utf8_injective("subw"@, "blx"@);
    assert("subw"@[0] != "blx"@[0]);
    reveal_strlit("cbnz");
    crate::text::lemma_encode_utf8_injective("subw"@, "cbnz"@);
    assert("subw"@[0] != "cbnz"@[0]);
    reveal_strlit("cbz");
    crate::text::lemma_encode_utf8_injective("subw"@, "cbz"@);
    assert("subw"@[0] != "cbz"@[0]);
    reveal_strlit("cmn");
    crate::text::lemma_encode_utf8_injective("subw"@, "cmn"@);
    assert("subw"@[0] != "cmn"@[0]);
    reveal_strlit("cmp");
    crate::text::lemma_encode_utf8_injective("subw"@, "cmp"@);
    assert("subw"@[0] != "cmp"@[0]);
    reveal_strlit("eor");
    crate::text::lemma_encode_utf8_injective("subw"@, "eor"@);
    assert("subw"@[0] != "eor"@[0]);
    reveal_strlit("lsl");
    crate::text::lemma_encode_utf8_injective("subw"@, "lsl"@);
    assert("subw"@[0] != "lsl"@[0]);
    reveal_strlit("lsr");
    crate::text::lemma_encode_utf8_injective("subw"@, "lsr"@);
    assert("subw"@[0] != "lsr"@[0]);
    reveal_strlit("mul");
    crate::text::lemma_encode_utf8_injective("subw"@, "mul"@);
    assert("subw"@[0] != "mul"@[0]);
    reveal_strlit("orr");
    crate::text::lemma_encode_utf8_injective("subw"@, "orr"@);
    assert("subw"@[0] != "orr"@[0]);
    reveal_strlit("sub");
    crate::text::lemma_encode_utf8_injective("subw"@, "sub"@);
    assert("subw"@.len() != "sub"@.len());
    reveal_strlit("tst");
    crate::text::lemma_encode_utf8_injective("subw"@, "tst"@);
    assert("subw"@[0] != "tst"@[0]);
}

proof fn lemma_subw_template(n: u8)
    ensures
        spec_instruction_code(lit("subw"), n) == Some("op0 = op1 - op2;"@),
        spec_instruction_code(lit("subw"), n) matches Some(t) && t.contains('-') && !t.contains('+'),
{
    lemma_subw_lit_distinct();
    reveal_strlit("op0 = op1 - op2;");
    assert("op0 = op1 - op2;"@[10] == '-');
    assert forall|i: int| 0 <= i < "op0 = op1 - op2;"@.len() implies "op0 = op1 - op2;"@[i] != '+' by {}
}

proof fn lemma_sbc_lit_distinct()
    ensures
        lit("sbc") != lit("adc"),
        lit("sbc") != lit("add"),
        lit("sbc") != lit("addw"),
        lit("sbc") != lit("and"),
        lit("sbc") != lit("asl"),
        lit("sbc") != lit("asr"),
        lit("sbc") != lit("b"),
        lit("sbc") != lit("bic"),
        lit("sbc") != lit("bl"),
        lit("sbc") != lit("blx"),
        lit("sbc") != lit("cbnz"),
        lit("sbc") != lit("cbz"),
        lit("sbc") != lit("cmn"),
        lit("sbc") != lit("cmp"),
        lit("sbc") != lit("eor"),
        lit("sbc") != lit("lsl"),
        lit("sbc") != lit("lsr"),
        lit("sbc") != lit("mul"),
        lit("sbc") != lit("orr"),
        lit("sbc") != lit("rsb"),
        lit("sbc") != lit("sub"),
        lit("sbc") != lit("subw"),
        lit("sbc") != lit("tst"),
{
    reveal_strlit("sbc");
    reveal_strlit("adc");
    crate::text::lemma_encode_utf8_injective("sbc"@, "adc"@);
    assert("sbc"@[0] != "adc"@[0]);
    reveal_strlit("add");
    crate::text::lemma_encode_utf8_injective("sbc"@, "add"@);
    assert("sbc"@[0] != "add"@[0]);
    reveal_strlit("addw");
    crate::text::lemma_encode_utf8_injective("sbc"@, "addw"@);
    assert("sbc"@[0] != "addw"@[0]);
    reveal_strlit("and");
    crate::text::lemma_encode_utf8_injective("sbc"@, "and"@);
    assert("sbc"@[0] != "and"@[0]);
    reveal_strlit("asl");
    crate::text::lemma_encode_utf8_injective("sbc"@, "asl"@);
    assert("sbc"@[0] != "asl"@[0]);
    reveal_strlit("asr");
    crate::text::lemma_encode_utf8_injective("sbc"@, "asr"@);
    assert("sbc"@[0] != "asr"@[0]);
    reveal_strlit("b");
    crate::text::lemma_encode_utf8_injective("sbc"@, "b"@);
    assert("sbc"@[0] != "b"@[0]);
    reveal_strlit("bic");
    crate::text::lemma_encode_utf8_injective("sbc"@, "bic"@);
    assert("sbc"@[0] != "bic"@[0]);
    reveal_strlit("bl");
    crate::text::lemma_encode_utf8_injective("sbc"@, "bl"@);
    assert("sbc"@[0] != "bl"@[0]);
    reveal_strlit("blx");
    crate::text::lemma_encode_utf8_injective("sbc"@, "blx"@);
    assert("sbc"@[0] != "blx"@[0]);
    reveal_strlit("cbnz");
    crate::text::lemma_encode_utf8_injective("sbc"@, "cbnz"@);
    assert("sbc"@[0] != "cbnz"@[0]);
    reveal_strlit("cbz");
    crate::text::lemma_encode_utf8_injective("sbc"@, "cbz"@);
    assert("sbc"@[0] != "cbz"@[0]);
    reveal_strlit("cmn");
    crate::text::lemma_encode_utf8_injective("sbc"@, "cmn"@);
    assert("sbc"@[0] != "cmn"@[0]);
    reveal_strlit("cmp");
    crate::text::lemma_encode_utf8_injective("sbc"@, "cmp"@);
    assert("sbc"@[0] != "cmp"@[0]);
    reveal_strlit("eor");
    crate::text::lemma_encode_utf8_injective("sbc"@, "eor"@);
    assert("sbc"@[0] != "eor"@[0]);
    reveal_strlit("lsl");
    crate::text::lemma_encode_utf8_injective("sbc"@, "lsl"@);
    assert("sbc"@[0] != "lsl"@[0]);
    reveal_strlit("lsr");
    crate::text::lemma_encode_utf8_injective("sbc"@, "lsr"@);
    assert("sbc"@[0] != "lsr"@[0]);
    reveal_strlit("mul");
    crate::text::lemma_encode_utf8_injective("sbc"@, "mul"@);
    assert("sbc"@[0] != "mul"@[0]);
    reveal_strlit("orr");
    crate::text::lemma_encode_utf8_injective("sbc"@, "orr"@);
    assert("sbc"@[0] != "orr"@[0]);
    reveal_strlit("rsb");
    crate::text::lemma_encode_utf8_injective("sbc"@, "rsb"@);
    assert("sbc"@[0] != "rsb"@[0]);
    reveal_strlit("sub");
    crate::text::lemma_encode_utf8_injective("sbc"@, "sub"@);
    assert("sbc"@[1] != "sub"@[1]);
    reveal_strlit("subw");
    crate::text::lemma_encode_utf8_injective("sbc"@, "subw"@);
    assert("sbc"@[1] != "subw"@[1]);
    reveal_strlit("tst");
    crate::text::lemma_encode_utf8_injective("sbc"@, "tst"@);
    assert("sbc"@[0] != "tst"@[0]);
}

proof fn lemma_sbc_template(n: u8)
    ensures
        spec_instruction_code(lit("sbc"), n) == Some("op0 = op1 - op2;"@),
        spec_instruction_code(lit("sbc"), n) matches Some(t) && t.contains('-') && !t.contains('+'),
{
    lemma_sbc_lit_distinct();
    reveal_strlit("op0 = op1 - op2;");
    assert("op0 = op1 - op2;"@[10] == '-');
    assert forall|i: int| 0 <= i < "op0 = op1 - op2;"@.len() implies "op0 = op1 - op2;"@[i] != '+' by {}
}

proof fn lemma_rsb_lit_distinct()
    ensures
        lit("rsb") != lit("adc"),
        lit("rsb") != lit("add"),
        lit("rsb") != lit("addw"),
        lit("rsb") != lit("and"),
        lit("rsb") != lit("asl"),
        lit("rsb") != lit("asr"),
        lit("rsb") != lit("b"),
        lit("rsb") != lit("bic"),
        lit("rsb") != lit("bl"),
        lit("rsb") != lit("blx"),
        lit("rsb") != lit("cbnz"),
        lit("rsb") != lit("cbz"),
        lit("rsb") != lit("cmn"),
        lit("rsb") != lit("cmp"),
        lit("rsb") != lit("eor"),
        lit("rsb") != lit("lsl"),
        lit("rsb") != lit("lsr"),
        lit("rsb") != lit("mul"),
        lit("rsb") != lit("orr"),
        lit("rsb") != lit("sub"),
        lit("rsb") != lit("subw"),
        lit("rsb") != lit("tst"),
{
    reveal_strlit("rsb");
    reveal_strlit("adc");
    crate::text::lemma_encode_utf8_injective("rsb"@, "adc"@);
    assert("rsb"@[0] != "adc"@[0]);
    reveal_strlit("add");
    crate::text::lemma_encode_utf8_injective("rsb"@, "add"@);
    assert("rsb"@[0] != "add"@[0]);
    reveal_strlit("addw");
    crate::text::lemma_encode_utf8_injective("rsb"@, "addw"@);
    assert("rsb"@[0] != "addw"@[0]);
    reveal_strlit("and");
    crate::text::lemma_encode_utf8_injective("rsb"@, "and"@);
    assert("rsb"@[0] != "and"@[0]);
    reveal_strlit("asl");
    crate::text::lemma_encode_utf8_injective("rsb"@, "asl"@);
    assert("rsb"@[0] != "asl"@[0]);
    reveal_strlit("asr");
    crate::text::lemma_encode_utf8_injective("rsb"@, "asr"@);
    assert("rsb"@[0] != "asr"@[0]);
    reveal_strlit("b");
    crate::text::lemma_encode_utf8_injective("rsb"@, "b"@);
    assert("rsb"@[0] != "b"@[0]);
    reveal_strlit("bic");
    crate::text::lemma_encode_utf8_injective("rsb"@, "bic"@);
    assert("rsb"@[0] != "bic"@[0]);
    reveal_strlit("bl");
    crate::text::lemma_encode_utf8_injective("rsb"@, "bl"@);
    assert("rsb"@[0] != "bl"@[0]);
    reveal_strlit("blx");
    crate::text::lemma_encode_utf8_injective("rsb"@, "blx"@);
    assert("rsb"@[0] != "blx"@[0]);
    reveal_strlit("cbnz");
    crate::text::lemma_encode_utf8_injective("rsb"@, "cbnz"@);
    assert("rsb"@[0] != "cbnz"@[0]);
    reveal_strlit("cbz");
    crate::text::lemma_encode_utf8_injective("rsb"@, "cbz"@);
    assert("rsb"@[0] != "cbz"@[0]);
    reveal_strlit("cmn");
    crate::text::lemma_encode_utf8_injective("rsb"@, "cmn"@);
    assert("rsb"@[0] != "cmn"@[0]);
    reveal_strlit("cmp");
    crate::text::lemma_encode_utf8_injective("rsb"@, "cmp"@);
    assert("rsb"@[0] != "cmp"@[0]);
    reveal_strlit("eor");
    crate::text::lemma_encode_utf8_injective("rsb"@, "eor"@);
    assert("rsb"@[0] != "eor"@[0]);
    reveal_strlit("lsl");
    crate::text::lemma_encode_utf8_injective("rsb"@, "lsl"@);
    assert("rsb"@[0] != "lsl"@[0]);
    reveal_strlit("lsr");
    crate::text::lemma_encode_utf8_injective("rsb"@, "lsr"@);
    assert("rsb"@[0] != "lsr"@[0]);
    reveal_strlit("mul");
    crate::text::lemma_encode_utf8_injective("rsb"@, "mul"@);
    assert("rsb"@[0] != "mul"@[0]);
    reveal_strlit("orr");
    crate::text::lemma_encode_utf8_injective("rsb"@, "orr"@);
    assert("rsb"@[0] != "orr"@[0]);
    reveal_strlit("sub");
    crate::text::lemma_encode_utf8_injective("rsb"@, "sub"@);
    assert("rsb"@[0] != "sub"@[0]);
    reveal_strlit("subw");
    crate::text::lemma_encode_utf8_injective("rsb"@, "subw"@);
    assert("rsb"@[0] != "subw"@[0]);
    reveal_strlit("tst");
    crate::text::lemma_encode_utf8_injective("rsb"@, "tst"@);
    assert("rsb"@[0] != "tst"@[0]);
}

proof fn lemma_rsb_template(n: u8)
    ensures
        spec_instruction_code(lit("rsb"), n) == Some("op0 = op2 - op1;"@),
        spec_instruction_code(lit("rsb"), n) matches Some(t) && t.contains('-') && !t.contains('+'),
{
    lemma_rsb_lit_distinct();
    reveal_strlit("op0 = op2 - op1;");
    assert("op0 = op2 - op1;"@[10] == '-');
    assert forall|i: int| 0 <= i < "op0 = op2 - op1;"@.len() implies "op0 = op2 - op1;"@[i] != '+' by {}
}
/// The templates of subtracting mnemonics subtract and those of adding
/// mnemonics add, whatever the operand count: the template of `sub`,
/// `subw`, `sbc` and `rsb` holds a `-` and no `+`, that of `add`, `addw`
/// and `adc` a `+` and no `-`; `rsb` subtracts in the other order, so its
/// template differs from that of `sub`, and `add`'s differs from `sub`'s.
pub proof fn lemma_arith_templates(n: u8)
    ensures
        spec_instruction_code(lit("add"), n) matches Some(t) && t.contains('+') && !t.contains('-'),
        spec_instruction_code(lit("addw"), n) matches Some(t) && t.contains('+') && !t.contains('-'),
        spec_instruction_code(lit("adc"), n) matches Some(t) && t.contains('+') && !t.contains('-'),
        spec_instruction_code(lit("sub"), n) matches Some(t) && t.contains('-') && !t.contains('+'),
        spec_instruction_code(lit("subw"), n) matches Some(t) && t.contains('-') && !t.contains('+'),
        spec_instruction_code(lit("sbc"), n) matches Some(t) && t.contains('-') && !t.contains('+'),
        spec_instruction_code(lit("rsb"), n) matches Some(t) && t.contains('-') && !t.contains('+'),
        n != 2 ==> spec_instruction_code(lit("rsb"), n) != spec_instruction_code(lit("sub"), n),
        spec_instruction_code(lit("add"), n) != spec_instruction_code(lit("sub"), n),
{
    lemma_add_template(n);
    lemma_addw_template(n);
    lemma_adc_template(n);
    lemma_sub_template(n);
    lemma_subw_template(n);
    lemma_sbc_template(n);
    lemma_rsb_template(n);
    reveal_strlit("op0 = op2 - op1;");
    reveal_strlit("op0 = op1 - op2;");
    assert("op0 = op2 - op1;"@[8] != "op0 = op1 - op2;"@[8]);
}

} // verus!
