//! One decoded instruction, and its trace line.

use vstd::prelude::*;

use crate::opcode::{code_of, is_opcode, spec_opcode_of, Opcode};
use crate::stack::Stack;

verus! {

/// One decoded instruction: the raw byte, its opcode, and the operand
/// word where the opcode carries one.
#[derive(Debug)]
pub struct Instruction {
    pub code: u8,
    pub opcode: Opcode,
    pub value: Option<u32>,
}

/// The ASCII hexadecimal digit of a value below 16, in upper case.
pub open spec fn hex_digit(n: u8) -> u8 {
    if n < 10 {
        (48 + n) as u8
    } else {
        (55 + n) as u8
    }
}

/// Two hexadecimal digits of a byte, high nibble first.
pub open spec fn hex2(b: u8) -> Seq<u8> {
    seq![hex_digit(b / 16), hex_digit(b % 16)]
}

/// Eight hexadecimal digits of a 32-bit word, most significant first.
pub open spec fn hex8(v: u32) -> Seq<u8> {
    hex2((v / 0x1000000) as u8) + hex2(((v / 0x10000) % 0x100) as u8) + hex2(
        ((v / 0x100) % 0x100) as u8,
    ) + hex2((v % 0x100) as u8)
}

/// The stack rendered for a trace line: each word as eight hexadecimal
/// digits, preceded by one space, bottom of the stack first.
pub open spec fn spec_stack_trace(s: Seq<u32>) -> Seq<u8>
    decreases s.len(),
{
    if s.len() == 0 {
        Seq::empty()
    } else {
        spec_stack_trace(s.drop_last()) + seq![32u8] + hex8(s.last())
    }
}

/// One trace line: the program counter, the opcode byte, the operand (or
/// nothing), a separator, and the value stack, all in hexadecimal.
pub open spec fn spec_trace_line(pc: u32, code: u8, value: Option<u32>, stack: Seq<u32>) -> Seq<
    u8,
> {
    hex8(pc) + seq![58u8, 32u8] + hex2(code) + (match value {
        Some(v) => seq![32u8] + hex8(v),
        None => Seq::empty(),
    }) + seq![32u8, 124u8] + spec_stack_trace(stack)
}

/// Appends the two hexadecimal digits of a byte.
fn push_hex2(out: &mut Vec<u8>, b: u8)
    ensures
        final(out)@ == old(out)@ + hex2(b),
{
    let hi = b / 16;
    let lo = b % 16;
    out.push(if hi < 10 {
        48 + hi
    } else {
        55 + hi
    });
    out.push(if lo < 10 {
        48 + lo
    } else {
        55 + lo
    });
    proof {
        assert(out@ =~= old(out)@ + hex2(b));
    }
}

/// Appends the eight hexadecimal digits of a 32-bit word.
fn push_hex8(out: &mut Vec<u8>, v: u32)
    ensures
        final(out)@ == old(out)@ + hex8(v),
{
    push_hex2(out, (v / 0x1000000) as u8);
    push_hex2(out, ((v / 0x10000) % 0x100) as u8);
    push_hex2(out, ((v / 0x100) % 0x100) as u8);
    push_hex2(out, (v % 0x100) as u8);
    proof {
        assert(out@ =~= old(out)@ + hex8(v));
    }
}

impl Instruction {
    /// Decodes a raw byte, which must be one of the opcode table's codes,
    /// together with its operand.
    pub fn new(code: u8, value: Option<u32>) -> (r: Instruction)
        requires
            is_opcode(code),
        ensures
            r.code == code,
            r.opcode == spec_opcode_of(code),
            code_of(r.opcode) == code,
            r.value == value,
    {
        Instruction { code: code, opcode: Opcode::from_value(code), value: value }
    }

    /// Renders one structured trace line for this instruction: the
    /// program counter (its low 32 bits), the opcode byte, the operand if
    /// there is one, and a snapshot of the value stack. The caller
    /// decides where the line goes.
    pub fn trace(&self, pc: usize, stack: &Stack) -> (line: Vec<u8>)
        ensures
            line@ == spec_trace_line(pc as u32, self.code, self.value, stack.space@),
    {
        let mut line: Vec<u8> = Vec::new();
        let pcw: u32 = #[verifier::truncate] (pc as u32);
        push_hex8(&mut line, pcw);
        line.push(58);
        line.push(32);
        push_hex2(&mut line, self.code);
        match self.value {
            Some(v) => {
                line.push(32);
                push_hex8(&mut line, v);
            },
            None => {},
        }
        line.push(32);
        line.push(124);
        let ghost sv = stack.space@;
        let ghost head = line@;
        let mut i: usize = 0;
        proof {
            assert(sv.take(0) =~= Seq::<u32>::empty());
            assert(line@ =~= head + spec_stack_trace(sv.take(0)));
        }
        while i < stack.space.len()
            invariant
                i <= sv.len(),
                sv == stack.space@,
                sv.len() == stack.space@.len(),
                line@ == head + spec_stack_trace(sv.take(i as int)),
            decreases sv.len() - i,
        {
            line.push(32);
            push_hex8(&mut line, stack.space[i]);
            i += 1;
            proof {
                assert(sv.take(i as int).drop_last() =~= sv.take(i - 1));
                assert(line@ =~= head + spec_stack_trace(sv.take(i as int)));
            }
        }
        proof {
            assert(sv.take(sv.len() as int) =~= sv);
            assert(line@ =~= spec_trace_line(pc as u32, self.code, self.value, stack.space@));
        }
        line
    }
}

} // verus!
