//! The opcode table: the canonical mapping between mnemonic, numeric byte
//! code, operand width, and whether the operand may be a label reference.
//!
//! The numeric layout is meaningful: a code whose high nibble is `1` or `8`
//! carries a 4-byte operand; every other code stands alone.

use vstd::prelude::*;
use vstd::string::StringSliceAdditionalSpecFns;

use crate::bytes::{ascii_lower, ascii_lower_vec, bytes_eq_str};

verus! {

/// One operation of the virtual machine.
#[derive(Clone, Copy, PartialEq, Eq, Structural, Debug)]
pub enum Opcode {
    Noop,
    Const,
    Load,
    GLoad,
    Store,
    GStore,
    Call,
    Dup,
    Swap,
    Add,
    Sub,
    Mul,
    Div,
    Pow,
    Mod,
    Shl,
    Shr,
    And,
    Or,
    Xor,
    Not,
    CmpEq,
    CmpNe,
    CmpGt,
    CmpLt,
    RelJmp,
    RelJmpEq,
    RelJmpNe,
    RelJmpGt,
    RelJmpLt,
    Jmp,
    JmpNZ,
    Ret,
    Print,
    Halt,
}

/// The byte code of an opcode.
pub open spec fn code_of(op: Opcode) -> u8 {
    match op {
        Opcode::Noop => 0x00,
        Opcode::Const => 0x10,
        Opcode::Load => 0x11,
        Opcode::GLoad => 0x12,
        Opcode::Store => 0x14,
        Opcode::GStore => 0x15,
        Opcode::Call => 0x18,
        Opcode::Dup => 0x30,
        Opcode::Swap => 0x31,
        Opcode::Add => 0x40,
        Opcode::Sub => 0x41,
        Opcode::Mul => 0x42,
        Opcode::Div => 0x43,
        Opcode::Pow => 0x44,
        Opcode::Mod => 0x45,
        Opcode::Shl => 0x50,
        Opcode::Shr => 0x51,
        Opcode::And => 0x52,
        Opcode::Or => 0x53,
        Opcode::Xor => 0x54,
        Opcode::Not => 0x55,
        Opcode::CmpEq => 0x61,
        Opcode::CmpNe => 0x62,
        Opcode::CmpGt => 0x63,
        Opcode::CmpLt => 0x64,
        Opcode::RelJmp => 0x80,
        Opcode::RelJmpEq => 0x81,
        Opcode::RelJmpNe => 0x82,
        Opcode::RelJmpGt => 0x83,
        Opcode::RelJmpLt => 0x84,
        Opcode::Jmp => 0x88,
        Opcode::JmpNZ => 0x89,
        Opcode::Ret => 0xA0,
        Opcode::Print => 0xE0,
        Opcode::Halt => 0xF0,
    }
}

/// Whether a byte is the code of some opcode.
pub open spec fn is_opcode(value: u8) -> bool {
    exists|op: Opcode| code_of(op) == value
}

/// The opcode whose byte code is `value`.
pub open spec fn spec_opcode_of(value: u8) -> Opcode
    recommends
        is_opcode(value),
{
    choose|op: Opcode| code_of(op) == value
}

/// Whether an instruction byte carries a 4-byte operand: exactly the codes
/// whose high nibble is `1` or `8`.
pub open spec fn code_has_operand(value: u8) -> bool {
    value >> 4u8 == 1 || value >> 4u8 == 8
}

impl Opcode {
    /// The byte code of this opcode, as the bytecode image carries it.
    pub fn code(&self) -> (r: u8)
        ensures
            r == code_of(*self),
    {
        match self {
            Opcode::Noop => 0x00,
            Opcode::Const => 0x10,
            Opcode::Load => 0x11,
            Opcode::GLoad => 0x12,
            Opcode::Store => 0x14,
            Opcode::GStore => 0x15,
            Opcode::Call => 0x18,
            Opcode::Dup => 0x30,
            Opcode::Swap => 0x31,
            Opcode::Add => 0x40,
            Opcode::Sub => 0x41,
            Opcode::Mul => 0x42,
            Opcode::Div => 0x43,
            Opcode::Pow => 0x44,
            Opcode::Mod => 0x45,
            Opcode::Shl => 0x50,
            Opcode::Shr => 0x51,
            Opcode::And => 0x52,
            Opcode::Or => 0x53,
            Opcode::Xor => 0x54,
            Opcode::Not => 0x55,
            Opcode::CmpEq => 0x61,
            Opcode::CmpNe => 0x62,
            Opcode::CmpGt => 0x63,
            Opcode::CmpLt => 0x64,
            Opcode::RelJmp => 0x80,
            Opcode::RelJmpEq => 0x81,
            Opcode::RelJmpNe => 0x82,
            Opcode::RelJmpGt => 0x83,
            Opcode::RelJmpLt => 0x84,
            Opcode::Jmp => 0x88,
            Opcode::JmpNZ => 0x89,
            Opcode::Ret => 0xA0,
            Opcode::Print => 0xE0,
            Opcode::Halt => 0xF0,
        }
    }

    /// Whether a byte is the code of some opcode.
    pub fn is_valid_code(value: u8) -> (r: bool)
        ensures
            r == is_opcode(value),
    {
        match value {
            0x00 | 0x10 | 0x11 | 0x12 | 0x14 | 0x15 | 0x18 | 0x30 | 0x31 | 0x40 | 0x41 | 0x42
                | 0x43 | 0x44 | 0x45 | 0x50 | 0x51 | 0x52 | 0x53 | 0x54 | 0x55 | 0x61 | 0x62
                | 0x63 | 0x64 | 0x80 | 0x81 | 0x82 | 0x83 | 0x84 | 0x88 | 0x89 | 0xA0 | 0xE0
                | 0xF0 => {
                proof {
                    lemma_table_codes();
                }
                true
            },
            _ => {
                assert(forall|op: Opcode| code_of(op) != value);
                false
            },
        }
    }

    /// The opcode of a byte code. The byte must be one of the table's codes;
    /// `is_valid_code` tells whether it is.
    pub fn from_value(value: u8) -> (op: Opcode)
        requires
            is_opcode(value),
        ensures
            op == spec_opcode_of(value),
            code_of(op) == value,
    {
        let op = match value {
            0x00 => Opcode::Noop,
            0x10 => Opcode::Const,
            0x11 => Opcode::Load,
            0x12 => Opcode::GLoad,
            0x14 => Opcode::Store,
            0x15 => Opcode::GStore,
            0x18 => Opcode::Call,
            0x30 => Opcode::Dup,
            0x31 => Opcode::Swap,
            0x40 => Opcode::Add,
            0x41 => Opcode::Sub,
            0x42 => Opcode::Mul,
            0x43 => Opcode::Div,
            0x44 => Opcode::Pow,
            0x45 => Opcode::Mod,
            0x50 => Opcode::Shl,
            0x51 => Opcode::Shr,
            0x52 => Opcode::And,
            0x53 => Opcode::Or,
            0x54 => Opcode::Xor,
            0x55 => Opcode::Not,
            0x61 => Opcode::CmpEq,
            0x62 => Opcode::CmpNe,
            0x63 => Opcode::CmpGt,
            0x64 => Opcode::CmpLt,
            0x80 => Opcode::RelJmp,
            0x81 => Opcode::RelJmpEq,
            0x82 => Opcode::RelJmpNe,
            0x83 => Opcode::RelJmpGt,
            0x84 => Opcode::RelJmpLt,
            0x88 => Opcode::Jmp,
            0x89 => Opcode::JmpNZ,
            0xA0 => Opcode::Ret,
            0xE0 => Opcode::Print,
            0xF0 => Opcode::Halt,
            _ => {
                proof {
                    let witness = choose|w: Opcode| code_of(w) == value;
                    assert(code_of(witness) == value);
                    assert(false);
                }
                Opcode::Noop
            },
        };
        proof {
            lemma_opcode_of_unique(op, value);
        }
        op
    }
}

/// One row of the assembler's opcode table: the byte code, the number of
/// operand bytes that follow it (0 or 4), and whether that operand may be
/// written as a label reference.
#[derive(Clone, Copy, PartialEq, Eq, Structural, Debug)]
pub struct OpInfo {
    pub code: u8,
    pub byte_count: u8,
    pub lbl: bool,
}

/// The assembler's opcode table, keyed by mnemonic (in ASCII lower case
/// after folding). `None` stands for an unknown mnemonic.
pub open spec fn spec_match_instruction(name: Seq<u8>) -> Option<OpInfo> {
    let n = ascii_lower(name);
    if n == "noop".spec_bytes() {
        Some(OpInfo { code: 0x00, byte_count: 0, lbl: false })
    } else if n == "const".spec_bytes() {
        Some(OpInfo { code: 0x10, byte_count: 4, lbl: false })
    } else if n == "load".spec_bytes() {
        Some(OpInfo { code: 0x11, byte_count: 4, lbl: true })
    } else if n == "g_load".spec_bytes() {
        Some(OpInfo { code: 0x12, byte_count: 4, lbl: true })
    } else if n == "store".spec_bytes() {
        Some(OpInfo { code: 0x14, byte_count: 4, lbl: true })
    } else if n == "g_store".spec_bytes() {
        Some(OpInfo { code: 0x15, byte_count: 4, lbl: true })
    } else if n == "call".spec_bytes() {
        Some(OpInfo { code: 0x18, byte_count: 4, lbl: true })
    } else if n == "dup".spec_bytes() {
        Some(OpInfo { code: 0x30, byte_count: 0, lbl: false })
    } else if n == "swap".spec_bytes() {
        Some(OpInfo { code: 0x31, byte_count: 0, lbl: false })
    } else if n == "add".spec_bytes() {
        Some(OpInfo { code: 0x40, byte_count: 0, lbl: false })
    } else if n == "sub".spec_bytes() {
        Some(OpInfo { code: 0x41, byte_count: 0, lbl: false })
    } else if n == "mul".spec_bytes() {
        Some(OpInfo { code: 0x42, byte_count: 0, lbl: false })
    } else if n == "div".spec_bytes() {
        Some(OpInfo { code: 0x43, byte_count: 0, lbl: false })
    } else if n == "pow".spec_bytes() {
        Some(OpInfo { code: 0x44, byte_count: 0, lbl: false })
    } else if n == "mod".spec_bytes() {
        Some(OpInfo { code: 0x45, byte_count: 0, lbl: false })
    } else if n == "shl".spec_bytes() {
        Some(OpInfo { code: 0x50, byte_count: 0, lbl: false })
    } else if n == "shr".spec_bytes() {
        Some(OpInfo { code: 0x51, byte_count: 0, lbl: false })
    } else if n == "and".spec_bytes() {
        Some(OpInfo { code: 0x52, byte_count: 0, lbl: false })
    } else if n == "or".spec_bytes() {
        Some(OpInfo { code: 0x53, byte_count: 0, lbl: false })
    } else if n == "xor".spec_bytes() {
        Some(OpInfo { code: 0x54, byte_count: 0, lbl: false })
    } else if n == "not".spec_bytes() {
        Some(OpInfo { code: 0x55, byte_count: 0, lbl: false })
    } else if n == "cmp_eq".spec_bytes() {
        Some(OpInfo { code: 0x61, byte_count: 0, lbl: false })
    } else if n == "cmp_ne".spec_bytes() {
        Some(OpInfo { code: 0x62, byte_count: 0, lbl: false })
    } else if n == "cmp_gt".spec_bytes() {
        Some(OpInfo { code: 0x63, byte_count: 0, lbl: false })
    } else if n == "cmp_lt".spec_bytes() {
        Some(OpInfo { code: 0x64, byte_count: 0, lbl: false })
    } else if n == "jmp_rel".spec_bytes() {
        Some(OpInfo { code: 0x80, byte_count: 4, lbl: true })
    } else if n == "jmp_rel_eq".spec_bytes() {
        Some(OpInfo { code: 0x81, byte_count: 4, lbl: true })
    } else if n == "jmp_rel_ne".spec_bytes() {
        Some(OpInfo { code: 0x82, byte_count: 4, lbl: true })
    } else if n == "jmp_rel_gt".spec_bytes() {
        Some(OpInfo { code: 0x83, byte_count: 4, lbl: true })
    } else if n == "jmp_rel_lt".spec_bytes() {
        Some(OpInfo { code: 0x84, byte_count: 4, lbl: true })
    } else if n == "jmp".spec_bytes() {
        Some(OpInfo { code: 0x88, byte_count: 4, lbl: true })
    } else if n == "ret".spec_bytes() {
        Some(OpInfo { code: 0xA0, byte_count: 0, lbl: false })
    } else if n == "print".spec_bytes() {
        Some(OpInfo { code: 0xE0, byte_count: 0, lbl: false })
    } else if n == "halt".spec_bytes() {
        Some(OpInfo { code: 0xF0, byte_count: 0, lbl: false })
    } else {
        None
    }
}

/// Looks a mnemonic up in the opcode table, folding ASCII case first.
/// `None` stands for an unknown mnemonic.
pub fn match_instruction(inst: &[u8]) -> (r: Option<OpInfo>)
    ensures
        r == spec_match_instruction(inst@),
{
    let low = ascii_lower_vec(inst);
    let n = low.as_slice();
    if bytes_eq_str(n, "noop") {
        Some(OpInfo { code: 0x00, byte_count: 0, lbl: false })
    } else if bytes_eq_str(n, "const") {
        Some(OpInfo { code: 0x10, byte_count: 4, lbl: false })
    } else if bytes_eq_str(n, "load") {
        Some(OpInfo { code: 0x11, byte_count: 4, lbl: true })
    } else if bytes_eq_str(n, "g_load") {
        Some(OpInfo { code: 0x12, byte_count: 4, lbl: true })
    } else if bytes_eq_str(n, "store") {
        Some(OpInfo { code: 0x14, byte_count: 4, lbl: true })
    } else if bytes_eq_str(n, "g_store") {
        Some(OpInfo { code: 0x15, byte_count: 4, lbl: true })
    } else if bytes_eq_str(n, "call") {
        Some(OpInfo { code: 0x18, byte_count: 4, lbl: true })
    } else if bytes_eq_str(n, "dup") {
        Some(OpInfo { code: 0x30, byte_count: 0, lbl: false })
    } else if bytes_eq_str(n, "swap") {
        Some(OpInfo { code: 0x31, byte_count: 0, lbl: false })
    } else if bytes_eq_str(n, "add") {
        Some(OpInfo { code: 0x40, byte_count: 0, lbl: false })
    } else if bytes_eq_str(n, "sub") {
        Some(OpInfo { code: 0x41, byte_count: 0, lbl: false })
    } else if bytes_eq_str(n, "mul") {
        Some(OpInfo { code: 0x42, byte_count: 0, lbl: false })
    } else if bytes_eq_str(n, "div") {
        Some(OpInfo { code: 0x43, byte_count: 0, lbl: false })
    } else if bytes_eq_str(n, "pow") {
        Some(OpInfo { code: 0x44, byte_count: 0, lbl: false })
    } else if bytes_eq_str(n, "mod") {
        Some(OpInfo { code: 0x45, byte_count: 0, lbl: false })
    } else if bytes_eq_str(n, "shl") {
        Some(OpInfo { code: 0x50, byte_count: 0, lbl: false })
    } else if bytes_eq_str(n, "shr") {
        Some(OpInfo { code: 0x51, byte_count: 0, lbl: false })
    } else if bytes_eq_str(n, "and") {
        Some(OpInfo { code: 0x52, byte_count: 0, lbl: false })
    } else if bytes_eq_str(n, "or") {
        Some(OpInfo { code: 0x53, byte_count: 0, lbl: false })
    } else if bytes_eq_str(n, "xor") {
        Some(OpInfo { code: 0x54, byte_count: 0, lbl: false })
    } else if bytes_eq_str(n, "not") {
        Some(OpInfo { code: 0x55, byte_count: 0, lbl: false })
    } else if bytes_eq_str(n, "cmp_eq") {
        Some(OpInfo { code: 0x61, byte_count: 0, lbl: false })
    } else if bytes_eq_str(n, "cmp_ne") {
        Some(OpInfo { code: 0x62, byte_count: 0, lbl: false })
    } else if bytes_eq_str(n, "cmp_gt") {
        Some(OpInfo { code: 0x63, byte_count: 0, lbl: false })
    } else if bytes_eq_str(n, "cmp_lt") {
        Some(OpInfo { code: 0x64, byte_count: 0, lbl: false })
    } else if bytes_eq_str(n, "jmp_rel") {
        Some(OpInfo { code: 0x80, byte_count: 4, lbl: true })
    } else if bytes_eq_str(n, "jmp_rel_eq") {
        Some(OpInfo { code: 0x81, byte_count: 4, lbl: true })
    } else if bytes_eq_str(n, "jmp_rel_ne") {
        Some(OpInfo { code: 0x82, byte_count: 4, lbl: true })
    } else if bytes_eq_str(n, "jmp_rel_gt") {
        Some(OpInfo { code: 0x83, byte_count: 4, lbl: true })
    } else if bytes_eq_str(n, "jmp_rel_lt") {
        Some(OpInfo { code: 0x84, byte_count: 4, lbl: true })
    } else if bytes_eq_str(n, "jmp") {
        Some(OpInfo { code: 0x88, byte_count: 4, lbl: true })
    } else if bytes_eq_str(n, "ret") {
        Some(OpInfo { code: 0xA0, byte_count: 0, lbl: false })
    } else if bytes_eq_str(n, "print") {
        Some(OpInfo { code: 0xE0, byte_count: 0, lbl: false })
    } else if bytes_eq_str(n, "halt") {
        Some(OpInfo { code: 0xF0, byte_count: 0, lbl: false })
    } else {
        None
    }
}

/// The byte code of every opcode, as ground facts: witnesses for `is_opcode`.
proof fn lemma_table_codes()
    ensures
        code_of(Opcode::Noop) == 0x00,
        code_of(Opcode::Const) == 0x10,
        code_of(Opcode::Load) == 0x11,
        code_of(Opcode::GLoad) == 0x12,
        code_of(Opcode::Store) == 0x14,
        code_of(Opcode::GStore) == 0x15,
        code_of(Opcode::Call) == 0x18,
        code_of(Opcode::Dup) == 0x30,
        code_of(Opcode::Swap) == 0x31,
        code_of(Opcode::Add) == 0x40,
        code_of(Opcode::Sub) == 0x41,
        code_of(Opcode::Mul) == 0x42,
        code_of(Opcode::Div) == 0x43,
        code_of(Opcode::Pow) == 0x44,
        code_of(Opcode::Mod) == 0x45,
        code_of(Opcode::Shl) == 0x50,
        code_of(Opcode::Shr) == 0x51,
        code_of(Opcode::And) == 0x52,
        code_of(Opcode::Or) == 0x53,
        code_of(Opcode::Xor) == 0x54,
        code_of(Opcode::Not) == 0x55,
        code_of(Opcode::CmpEq) == 0x61,
        code_of(Opcode::CmpNe) == 0x62,
        code_of(Opcode::CmpGt) == 0x63,
        code_of(Opcode::CmpLt) == 0x64,
        code_of(Opcode::RelJmp) == 0x80,
        code_of(Opcode::RelJmpEq) == 0x81,
        code_of(Opcode::RelJmpNe) == 0x82,
        code_of(Opcode::RelJmpGt) == 0x83,
        code_of(Opcode::RelJmpLt) == 0x84,
        code_of(Opcode::Jmp) == 0x88,
        code_of(Opcode::JmpNZ) == 0x89,
        code_of(Opcode::Ret) == 0xA0,
        code_of(Opcode::Print) == 0xE0,
        code_of(Opcode::Halt) == 0xF0,
{
}

/// The byte codes of the table are distinct, so the opcode of a byte code is
/// the one the table names.
proof fn lemma_opcode_of_unique(op: Opcode, value: u8)
    requires
        code_of(op) == value,
    ensures
        is_opcode(value),
        spec_opcode_of(value) == op,
{
    let other = choose|w: Opcode| code_of(w) == value;
    assert(code_of(other) == code_of(op));
}

} // verus!
