//! The program image: a flat byte buffer with a program counter and
//! big-endian multi-byte readers.

use vstd::prelude::*;

use crate::bytes::{be_half_value, be_word_of_seq};

verus! {

/// A byte-addressable program image. The program counter is a byte
/// offset, starting at 0.
pub struct Program {
    pub bytes: Vec<u8>,
    pub pc: usize,
}

impl Program {
    /// An empty image.
    pub fn new() -> (p: Program)
        ensures
            p.bytes@ == Seq::<u8>::empty(),
            p.pc == 0,
    {
        Program { bytes: Vec::new(), pc: 0 }
    }

    /// Reads the byte at the program counter and advances it by one.
    pub fn next_byte(&mut self) -> (val: u8)
        requires
            old(self).pc < old(self).bytes@.len(),
        ensures
            val == old(self).bytes@[old(self).pc as int],
            final(self).pc == old(self).pc + 1,
            final(self).bytes == old(self).bytes,
    {
        let val = self.bytes[self.pc];
        proof {
            vstd::std_specs::vec::axiom_spec_len(&self.bytes);
        }
        self.pc = self.pc + 1;
        val
    }

    /// Reads two bytes big-endian and advances the counter by two.
    pub fn next_halfword(&mut self) -> (rv: u16)
        requires
            old(self).pc + 2 <= old(self).bytes@.len(),
        ensures
            rv == be_half_value(
                old(self).bytes@[old(self).pc as int],
                old(self).bytes@[old(self).pc + 1],
            ),
            final(self).pc == old(self).pc + 2,
            final(self).bytes == old(self).bytes,
    {
        let rv = (self.next_byte() as u16) << 8u16;
        rv | self.next_byte() as u16
    }

    /// Reads four bytes big-endian and advances the counter by four,
    /// returning an unsigned 32-bit value.
    pub fn next_word(&mut self) -> (rv: u32)
        requires
            old(self).pc + 4 <= old(self).bytes@.len(),
        ensures
            rv == be_word_of_seq(old(self).bytes@.subrange(old(self).pc as int, old(self).pc + 4)),
            final(self).pc == old(self).pc + 4,
            final(self).bytes == old(self).bytes,
    {
        let ghost b0 = self.bytes@[self.pc as int];
        let ghost b1 = self.bytes@[self.pc + 1];
        let ghost b2 = self.bytes@[self.pc + 2];
        let ghost b3 = self.bytes@[self.pc + 3];
        let rv = (self.next_halfword() as u32) << 16u32;
        let rv = rv | self.next_halfword() as u32;
        proof {
            assert(old(self).bytes@.subrange(old(self).pc as int, old(self).pc + 4)[0] == b0);
            assert(old(self).bytes@.subrange(old(self).pc as int, old(self).pc + 4)[1] == b1);
            assert(old(self).bytes@.subrange(old(self).pc as int, old(self).pc + 4)[2] == b2);
            assert(old(self).bytes@.subrange(old(self).pc as int, old(self).pc + 4)[3] == b3);
            assert(((((((b0 as u16) << 8u16) | (b1 as u16)) as u32) << 16u32) | ((((b2 as u16)
                << 8u16) | (b3 as u16)) as u32)) == ((((b0 as u32) << 24u32) | ((b1 as u32)
                << 16u32) | ((b2 as u32) << 8u32) | (b3 as u32)) as u32)) by (bit_vector);
        }
        rv
    }

    /// Reads a halfword opcode unit.
    pub fn next_code(&mut self) -> (rv: u16)
        requires
            old(self).pc + 2 <= old(self).bytes@.len(),
        ensures
            rv == be_half_value(
                old(self).bytes@[old(self).pc as int],
                old(self).bytes@[old(self).pc + 1],
            ),
            final(self).pc == old(self).pc + 2,
            final(self).bytes == old(self).bytes,
    {
        self.next_halfword()
    }

    /// Sets the program counter to an absolute address.
    pub fn jump_to(&mut self, addr: usize)
        ensures
            final(self).pc == addr,
            final(self).bytes == old(self).bytes,
    {
        self.pc = addr;
    }

    /// Moves the program counter by a signed offset.
    pub fn jump_relative(&mut self, rel: i32)
        requires
            0 <= old(self).pc + rel,
            old(self).pc + rel <= usize::MAX,
        ensures
            final(self).pc == old(self).pc + rel,
            final(self).bytes == old(self).bytes,
    {
        if rel >= 0 {
            self.pc = self.pc + (rel as usize);
        } else {
            let mag = (-(rel as i64)) as usize;
            self.pc = self.pc - mag;
        }
    }

    /// Replaces the image bytes.
    pub fn load_bytes(&mut self, bytes: Vec<u8>)
        ensures
            final(self).bytes@ == bytes@,
            final(self).pc == old(self).pc,
    {
        self.bytes = bytes;
    }

    /// Rewinds the program counter to the start of the image.
    pub fn reset(&mut self)
        ensures
            final(self).pc == 0,
            final(self).bytes == old(self).bytes,
    {
        self.pc = 0;
    }

    /// The current program counter.
    pub fn current(&self) -> (pc: usize)
        ensures
            pc == self.pc,
    {
        self.pc
    }
}

} // verus!
