//! The virtual machine: a fetch-decode-dispatch loop over the program
//! image, a value stack, a call stack with one current frame held outside
//! it, and a global memory of 65,535 words.
//!
//! Arithmetic semantics, stated once and proved of every step:
//! `add` wraps modulo 2^32; `sub` is `b - a` saturating at zero; `mul` is
//! `b * a` saturating at the largest word; `pow` is `a ^ b` saturating
//! likewise; `div` is `b / a` and `mod` is `a % b`, both on whole words
//! with a zero divisor faulting (`a` is the top of the stack, `b` the
//! word below it); the comparisons compare whole words.
//!
//! At startup the image is published into global memory: slot `i` holds
//! the big-endian word at image offset `i`, so a data label — whose
//! address is its image offset — can be read back with `g_load`; stores
//! then shadow the published words.

use vstd::prelude::*;

use vstd::arithmetic::power::{lemma1_pow, lemma_pow_increases, pow};
use vstd::pervasive::VecAdditionalExecFns;

use crate::bytes::be_word_of_seq;
use crate::instruction::Instruction;
use crate::opcode::{code_has_operand, is_opcode, spec_opcode_of, Opcode};
use crate::program::Program;
use crate::stack::{CallFrame, CallStack, FrameV, Stack};

verus! {

/// A fatal condition met while running: the machine stops on it.
#[derive(Debug, Clone, Copy, PartialEq, Eq, Structural)]
pub enum RtError {
    /// The program counter stands at or runs past the end of the image.
    PcOutOfRange,
    /// A byte that is not in the opcode table was fetched.
    UnknownOpcode(u8),
    /// An instruction needed more stack words than there are.
    StackUnderflow,
    /// A global memory index at or past 65,535.
    MemoryOutOfRange(u32),
    /// A local index read before anything was stored under it.
    UndefinedLocal(u32),
    /// `ret` with no frame on the call stack.
    EmptyCallStack,
    /// `div` or `mod` with a zero divisor.
    DivideByZero,
    /// A relative jump to a counter the machine cannot hold.
    JumpOutOfRange(u32),
}

/// What one step of the machine came to.
#[derive(Debug, Clone, Copy, PartialEq, Eq, Structural)]
pub enum VmStatus {
    Running,
    Halted,
    Failed(RtError),
}

/// How a bounded run ended: the program halted, a step faulted, or the
/// step budget ran out first.
#[derive(Debug, Clone, Copy, PartialEq, Eq, Structural)]
pub enum VmRun {
    Halted,
    Failed(RtError),
    OutOfSteps,
}

/// The mathematical image of the whole machine.
pub struct VmV {
    pub stack: Seq<u32>,
    pub frames: Seq<FrameV>,
    pub bytes: Seq<u8>,
    pub pc: int,
    pub mem: Seq<u32>,
    pub frame: FrameV,
    pub output: Seq<u32>,
}

/// Global memory as published at startup: slot `i` holds the big-endian
/// word at image offset `i`, where one fits, and zero elsewhere.
pub open spec fn spec_published_mem(bytes: Seq<u8>) -> Seq<u32> {
    Seq::new(
        0xFFFF,
        |i: int|
            if i + 4 <= bytes.len() {
                be_word_of_seq(bytes.subrange(i, i + 4))
            } else {
                0u32
            },
    )
}

/// `base ^ exp` on whole words, saturating at the largest 32-bit word.
pub open spec fn u32_pow_sat(base: u32, exp: u32) -> u32 {
    let p = pow(base as int, exp as nat);
    if p > 0xFFFF_FFFF {
        0xFFFF_FFFFu32
    } else {
        p as u32
    }
}

/// The operand of a decoded instruction, zero where it carries none.
pub open spec fn operand_val(v: Option<u32>) -> u32 {
    match v {
        Some(w) => w,
        None => 0,
    }
}

/// The effect of one opcode on the machine, the program counter already
/// standing past the instruction and its operand. Every failure leaves
/// the machine as it stood.
pub open spec fn spec_apply(v: VmV, op: Opcode, w: u32) -> (VmV, VmStatus) {
    let n = v.stack.len() as int;
    let a = v.stack.last();  // top of the stack
    let b = if n >= 2 {
        v.stack[n - 2]
    } else {
        a
    };  // the word below it
    let dd = v.stack.drop_last().drop_last();
    match op {
        Opcode::Noop => (v, VmStatus::Running),
        Opcode::Const => (VmV { stack: v.stack.push(w), ..v }, VmStatus::Running),
        Opcode::Load => if v.frame.locals.contains_key(w as usize) {
            (VmV { stack: v.stack.push(v.frame.locals[w as usize]), ..v }, VmStatus::Running)
        } else {
            (v, VmStatus::Failed(RtError::UndefinedLocal(w)))
        },
        Opcode::GLoad => if (w as int) < v.mem.len() {
            (VmV { stack: v.stack.push(v.mem[w as int]), ..v }, VmStatus::Running)
        } else {
            (v, VmStatus::Failed(RtError::MemoryOutOfRange(w)))
        },
        Opcode::Store => if n >= 1 {
            (
                VmV {
                    stack: v.stack.drop_last(),
                    frame: FrameV { ret: v.frame.ret, locals: v.frame.locals.insert(w as usize, a) },
                    ..v
                },
                VmStatus::Running,
            )
        } else {
            (v, VmStatus::Failed(RtError::StackUnderflow))
        },
        Opcode::GStore => if n < 1 {
            (v, VmStatus::Failed(RtError::StackUnderflow))
        } else if (w as int) < v.mem.len() {
            (
                VmV { stack: v.stack.drop_last(), mem: v.mem.update(w as int, a), ..v },
                VmStatus::Running,
            )
        } else {
            (v, VmStatus::Failed(RtError::MemoryOutOfRange(w)))
        },
        Opcode::Call => (
            VmV {
                frames: v.frames.push(
                    FrameV { ret: v.pc as usize, locals: Map::<usize, u32>::empty() },
                ),
                pc: w as int,
                ..v
            },
            VmStatus::Running,
        ),
        Opcode::Ret => if v.frames.len() >= 1 {
            (
                VmV { frames: v.frames.drop_last(), pc: v.frames.last().ret as int, ..v },
                VmStatus::Running,
            )
        } else {
            (v, VmStatus::Failed(RtError::EmptyCallStack))
        },
        Opcode::Dup => if n >= 1 {
            (VmV { stack: v.stack.push(a), ..v }, VmStatus::Running)
        } else {
            (v, VmStatus::Failed(RtError::StackUnderflow))
        },
        Opcode::Swap => if n >= 2 {
            (VmV { stack: dd.push(a).push(b), ..v }, VmStatus::Running)
        } else {
            (v, VmStatus::Failed(RtError::StackUnderflow))
        },
        Opcode::Add => if n >= 2 {
            (VmV { stack: dd.push(b.wrapping_add(a)), ..v }, VmStatus::Running)
        } else {
            (v, VmStatus::Failed(RtError::StackUnderflow))
        },
        Opcode::Sub => if n >= 2 {
            (
                VmV {
                    stack: dd.push(
                        if b >= a {
                            (b - a) as u32
                        } else {
                            0u32
                        },
                    ),
                    ..v
                },
                VmStatus::Running,
            )
        } else {
            (v, VmStatus::Failed(RtError::StackUnderflow))
        },
        Opcode::Mul => if n >= 2 {
            (
                VmV {
                    stack: dd.push(
                        if b as int * a as int > 0xFFFF_FFFF {
                            0xFFFF_FFFFu32
                        } else {
                            (b as int * a as int) as u32
                        },
                    ),
                    ..v
                },
                VmStatus::Running,
            )
        } else {
            (v, VmStatus::Failed(RtError::StackUnderflow))
        },
        Opcode::Div => if n < 2 {
            (v, VmStatus::Failed(RtError::StackUnderflow))
        } else if a == 0 {
            (v, VmStatus::Failed(RtError::DivideByZero))
        } else {
            (VmV { stack: dd.push(b / a), ..v }, VmStatus::Running)
        },
        Opcode::Pow => if n >= 2 {
            (VmV { stack: dd.push(u32_pow_sat(a, b)), ..v }, VmStatus::Running)
        } else {
            (v, VmStatus::Failed(RtError::StackUnderflow))
        },
        Opcode::Mod => if n < 2 {
            (v, VmStatus::Failed(RtError::StackUnderflow))
        } else if b == 0 {
            (v, VmStatus::Failed(RtError::DivideByZero))
        } else {
            (VmV { stack: dd.push(a % b), ..v }, VmStatus::Running)
        },
        Opcode::Shl => if n >= 1 {
            (VmV { stack: v.stack.drop_last().push(a << 1u32), ..v }, VmStatus::Running)
        } else {
            (v, VmStatus::Failed(RtError::StackUnderflow))
        },
        Opcode::Shr => if n >= 1 {
            (VmV { stack: v.stack.drop_last().push(a >> 1u32), ..v }, VmStatus::Running)
        } else {
            (v, VmStatus::Failed(RtError::StackUnderflow))
        },
        Opcode::And => if n >= 2 {
            (VmV { stack: dd.push(a & b), ..v }, VmStatus::Running)
        } else {
            (v, VmStatus::Failed(RtError::StackUnderflow))
        },
        Opcode::Or => if n >= 2 {
            (VmV { stack: dd.push(a | b), ..v }, VmStatus::Running)
        } else {
            (v, VmStatus::Failed(RtError::StackUnderflow))
        },
        Opcode::Xor => if n >= 2 {
            (VmV { stack: dd.push(a ^ b), ..v }, VmStatus::Running)
        } else {
            (v, VmStatus::Failed(RtError::StackUnderflow))
        },
        Opcode::Not => if n >= 1 {
            (VmV { stack: v.stack.drop_last().push(!a), ..v }, VmStatus::Running)
        } else {
            (v, VmStatus::Failed(RtError::StackUnderflow))
        },
        Opcode::CmpEq => if n >= 2 {
            (
                VmV {
                    stack: dd.push(
                        if a == b {
                            1u32
                        } else {
                            0u32
                        },
                    ),
                    ..v
                },
                VmStatus::Running,
            )
        } else {
            (v, VmStatus::Failed(RtError::StackUnderflow))
        },
        Opcode::CmpNe => if n >= 2 {
            (
                VmV {
                    stack: dd.push(
                        if a != b {
                            1u32
                        } else {
                            0u32
                        },
                    ),
                    ..v
                },
                VmStatus::Running,
            )
        } else {
            (v, VmStatus::Failed(RtError::StackUnderflow))
        },
        Opcode::CmpGt => if n >= 2 {
            (
                VmV {
                    stack: dd.push(
                        if a > b {
                            1u32
                        } else {
                            0u32
                        },
                    ),
                    ..v
                },
                VmStatus::Running,
            )
        } else {
            (v, VmStatus::Failed(RtError::StackUnderflow))
        },
        Opcode::CmpLt => if n >= 2 {
            (
                VmV {
                    stack: dd.push(
                        if a < b {
                            1u32
                        } else {
                            0u32
                        },
                    ),
                    ..v
                },
                VmStatus::Running,
            )
        } else {
            (v, VmStatus::Failed(RtError::StackUnderflow))
        },
        Opcode::RelJmp => {
            let t = v.pc + (w as i32);
            if t < 0 || t > usize::MAX {
                (v, VmStatus::Failed(RtError::JumpOutOfRange(w)))
            } else {
                (VmV { pc: t, ..v }, VmStatus::Running)
            }
        },
        Opcode::RelJmpEq => spec_rel_jmp_cond(v, w, n >= 2 && a == b),
        Opcode::RelJmpNe => spec_rel_jmp_cond(v, w, n >= 2 && a != b),
        Opcode::RelJmpGt => spec_rel_jmp_cond(v, w, n >= 2 && a > b),
        Opcode::RelJmpLt => spec_rel_jmp_cond(v, w, n >= 2 && a < b),
        Opcode::Jmp => (VmV { pc: w as int, ..v }, VmStatus::Running),
        Opcode::JmpNZ => if n >= 1 {
            (
                VmV {
                    stack: v.stack.drop_last(),
                    pc: if a != 0 {
                        w as int
                    } else {
                        v.pc
                    },
                    ..v
                },
                VmStatus::Running,
            )
        } else {
            (v, VmStatus::Failed(RtError::StackUnderflow))
        },
        Opcode::Print => if n >= 1 {
            (VmV { output: v.output.push(a), ..v }, VmStatus::Running)
        } else {
            (v, VmStatus::Failed(RtError::StackUnderflow))
        },
        Opcode::Halt => (v, VmStatus::Halted),
    }
}

/// A conditional relative jump: the top two words always come off; the
/// jump happens when the predicate held of them.
pub open spec fn spec_rel_jmp_cond(v: VmV, w: u32, taken: bool) -> (VmV, VmStatus) {
    let n = v.stack.len() as int;
    if n < 2 {
        (v, VmStatus::Failed(RtError::StackUnderflow))
    } else {
        let dd = v.stack.drop_last().drop_last();
        if !taken {
            (VmV { stack: dd, ..v }, VmStatus::Running)
        } else {
            let t = v.pc + (w as i32);
            if t < 0 || t > usize::MAX {
                (v, VmStatus::Failed(RtError::JumpOutOfRange(w)))
            } else {
                (VmV { stack: dd, pc: t, ..v }, VmStatus::Running)
            }
        }
    }
}

/// One whole step: fetch at the counter, decode the operand by the high
/// nibble, then apply the opcode. A failure leaves the machine as it
/// stood when the step began.
pub open spec fn spec_step(v: VmV) -> (VmV, VmStatus) {
    if v.pc < 0 || v.pc >= v.bytes.len() {
        (v, VmStatus::Failed(RtError::PcOutOfRange))
    } else {
        let code = v.bytes[v.pc];
        if code_has_operand(code) {
            if v.pc + 5 > v.bytes.len() {
                (v, VmStatus::Failed(RtError::PcOutOfRange))
            } else if !is_opcode(code) {
                (v, VmStatus::Failed(RtError::UnknownOpcode(code)))
            } else {
                spec_apply(
                    VmV { pc: v.pc + 5, ..v },
                    spec_opcode_of(code),
                    be_word_of_seq(v.bytes.subrange(v.pc + 1, v.pc + 5)),
                )
            }
        } else {
            if !is_opcode(code) {
                (v, VmStatus::Failed(RtError::UnknownOpcode(code)))
            } else {
                spec_apply(VmV { pc: v.pc + 1, ..v }, spec_opcode_of(code), 0u32)
            }
        }
    }
}

/// Up to `n` steps, stopping early on halt or failure.
pub open spec fn spec_run(v: VmV, n: nat) -> (VmV, VmStatus)
    decreases n,
{
    if n == 0 {
        (v, VmStatus::Running)
    } else {
        let s = spec_step(v);
        if s.1 != VmStatus::Running {
            s
        } else {
            spec_run(s.0, (n - 1) as nat)
        }
    }
}

/// Running one more step extends a still-running run by one step.
proof fn lemma_run_extend(v0: VmV, n: nat)
    requires
        spec_run(v0, n).1 == VmStatus::Running,
    ensures
        ({
            let mid = spec_run(v0, n).0;
            let s = spec_step(mid);
            spec_run(v0, n + 1) == (if s.1 != VmStatus::Running {
                s
            } else {
                (s.0, VmStatus::Running)
            })
        }),
    decreases n,
{
    if n == 0 {
        assert(spec_run(v0, 0) == (v0, VmStatus::Running));
        let s = spec_step(v0);
        if s.1 != VmStatus::Running {
            assert(spec_run(v0, 1) == s);
        } else {
            assert(spec_run(v0, 1) == spec_run(s.0, 0));
            assert(spec_run(s.0, 0) == (s.0, VmStatus::Running));
        }
    } else {
        let s = spec_step(v0);
        assert(s.1 == VmStatus::Running);
        lemma_run_extend(s.0, (n - 1) as nat);
        assert(spec_run(v0, n + 1) == spec_run(s.0, n));
        assert(spec_run(v0, n) == spec_run(s.0, (n - 1) as nat));
    }
}

/// Computes `base ^ exp`, saturating at the largest 32-bit word.
fn pow_sat_exec(base: u32, exp: u32) -> (r: u32)
    ensures
        r == u32_pow_sat(base, exp),
{
    if exp == 0 {
        proof {
            reveal(pow);
        }
        1
    } else if base == 0 {
        proof {
            reveal(pow);
            assert(pow(0, exp as nat) == 0 * pow(0, (exp - 1) as nat));
        }
        0
    } else if base == 1 {
        proof {
            lemma1_pow(exp as nat);
        }
        1
    } else {
        let mut acc: u32 = 1;
        let mut i: u32 = 0;
        proof {
            reveal(pow);
            assert(pow(base as int, 0) == 1);
        }
        while i < exp
            invariant
                2 <= base,
                i <= exp,
                acc as int == pow(base as int, i as nat),
            decreases exp - i,
        {
            proof {
                vstd::arithmetic::mul::lemma_mul_upper_bound(
                    acc as int,
                    0xFFFF_FFFF,
                    base as int,
                    0xFFFF_FFFF,
                );
            }
            let p = (acc as u64) * (base as u64);
            proof {
                reveal(pow);
                assert(p as int == acc as int * base as int);
                assert(pow(base as int, (i + 1) as nat) == base as int * pow(
                    base as int,
                    i as nat,
                ));
                assert(pow(base as int, (i + 1) as nat) == p as int) by (nonlinear_arith)
                    requires
                        p as int == acc as int * base as int,
                        pow(base as int, (i + 1) as nat) == base as int * pow(
                            base as int,
                            i as nat,
                        ),
                        acc as int == pow(base as int, i as nat);
            }
            if p > 0xFFFF_FFFFu64 {
                proof {
                    lemma_pow_increases(base as nat, (i + 1) as nat, exp as nat);
                    assert(pow(base as int, exp as nat) >= pow(base as int, (i + 1) as nat));
                    assert(pow(base as int, exp as nat) > 0xFFFF_FFFF);
                }
                return 0xFFFF_FFFFu32;
            }
            acc = p as u32;
            i += 1;
            proof {
                assert(acc as int == p as int);
                assert(acc as int == pow(base as int, i as nat));
            }
        }
        acc
    }
}

/// The virtual machine: the program image, the value stack, the call
/// stack, the current frame, the 65,535-word global memory, and what
/// `print` has written so far.
pub struct VirtualMachine {
    pub stack: Stack,
    pub callstack: CallStack,
    pub program: Program,
    pub mem: Vec<u32>,
    pub current_frame: CallFrame,
    pub output: Vec<u32>,
}

impl View for VirtualMachine {
    type V = VmV;

    open spec fn view(&self) -> VmV {
        VmV {
            stack: self.stack.space@,
            frames: self.callstack.frames.deep_view(),
            bytes: self.program.bytes@,
            pc: self.program.pc as int,
            mem: self.mem@,
            frame: self.current_frame@,
            output: self.output@,
        }
    }
}

impl VirtualMachine {
    /// Well-formed: global memory holds exactly 65,535 words.
    pub open spec fn wf(&self) -> bool {
        self.mem@.len() == 0xFFFF
    }

    /// A machine loaded with an image, the counter at zero, the stacks
    /// empty, and the image published into global memory.
    pub fn new(source: Vec<u8>) -> (vm: VirtualMachine)
        ensures
            vm.wf(),
            vm@.bytes == source@,
            vm@.pc == 0,
            vm@.stack == Seq::<u32>::empty(),
            vm@.frames == Seq::<FrameV>::empty(),
            vm@.frame.ret == 0,
            vm@.frame.locals == Map::<usize, u32>::empty(),
            vm@.output == Seq::<u32>::empty(),
            vm@.mem == spec_published_mem(source@),
    {
        let ghost sv = source@;
        let mut mem: Vec<u32> = Vec::new();
        let mut i: usize = 0;
        proof {
            assert(mem@ =~= spec_published_mem(sv).take(0));
        }
        while i < 0xFFFF
            invariant
                i <= 0xFFFF,
                sv == source@,
                mem@ == spec_published_mem(sv).take(i as int),
            decreases 0xFFFF - i,
        {
            let word: u32 = if i + 4 <= source.len() {
                let b0 = source[i];
                let b1 = source[i + 1];
                let b2 = source[i + 2];
                let b3 = source[i + 3];
                ((b0 as u32) << 24u32) | ((b1 as u32) << 16u32) | ((b2 as u32) << 8u32) | (
                b3 as u32)
            } else {
                0
            };
            mem.push(word);
            i += 1;
            proof {
                assert(mem@ =~= spec_published_mem(sv).take(i as int));
            }
        }
        proof {
            assert(spec_published_mem(sv).take(0xFFFF) =~= spec_published_mem(sv));
        }
        let mut program = Program::new();
        program.load_bytes(source);
        let vm = VirtualMachine {
            stack: Stack::new(),
            callstack: CallStack::new(),
            program: program,
            mem: mem,
            current_frame: CallFrame::new(0),
            output: Vec::new(),
        };
        vm
    }

    /// Fetches and decodes one instruction at the counter: the opcode
    /// byte, and a 4-byte big-endian operand exactly when the high nibble
    /// is `1` or `8`. On failure the machine is left as it stood.
    pub fn fetch_instruction(&mut self) -> (r: Result<Instruction, RtError>)
        ensures
            match r {
                Ok(inst) => {
                    &&& 0 <= old(self)@.pc < old(self)@.bytes.len()
                    &&& inst.code == old(self)@.bytes[old(self)@.pc]
                    &&& is_opcode(inst.code)
                    &&& inst.opcode == spec_opcode_of(inst.code)
                    &&& (code_has_operand(inst.code) ==> old(self)@.pc + 5 <= old(
                        self,
                    )@.bytes.len() && inst.value == Some(
                        be_word_of_seq(
                            old(self)@.bytes.subrange(old(self)@.pc + 1, old(self)@.pc + 5),
                        ),
                    ) && final(self)@ == (VmV { pc: old(self)@.pc + 5, ..old(self)@ }))
                    &&& (!code_has_operand(inst.code) ==> inst.value is None && final(self)@ == (
                    VmV { pc: old(self)@.pc + 1, ..old(self)@ }))
                },
                Err(e) => final(self)@ == old(self)@ && spec_step(old(self)@) == (
                    old(self)@,
                    VmStatus::Failed(e),
                ),
            },
    {
        let pc = self.program.current();
        let len = self.program.bytes.len();
        if pc >= len {
            return Err(RtError::PcOutOfRange);
        }
        let code = self.program.bytes[pc];
        if (code >> 4u8) == 1 || (code >> 4u8) == 8 {
            if len - pc < 5 {
                return Err(RtError::PcOutOfRange);
            }
            if !Opcode::is_valid_code(code) {
                return Err(RtError::UnknownOpcode(code));
            }
            let c2 = self.program.next_byte();
            let w = self.program.next_word();
            Ok(Instruction::new(c2, Some(w)))
        } else {
            if !Opcode::is_valid_code(code) {
                return Err(RtError::UnknownOpcode(code));
            }
            let c2 = self.program.next_byte();
            Ok(Instruction::new(c2, None))
        }
    }

    /// Dispatches one decoded instruction, checking what the opcode needs
    /// first: enough stack words, a bound local, an in-range memory slot,
    /// a frame to return to, a nonzero divisor, a jump target the counter
    /// can hold. A check that fails stops the machine with the matching
    /// fault and leaves it as it stood.
    #[verifier::rlimit(100)]
    pub fn handle_instruction(&mut self, instr: Instruction) -> (st: VmStatus)
        requires
            old(self).wf(),
            is_opcode(instr.code),
            instr.opcode == spec_opcode_of(instr.code),
        ensures
            final(self).wf(),
            spec_apply(old(self)@, instr.opcode, operand_val(instr.value)) == (final(self)@, st),
    {
        let w: u32 = match instr.value {
            Some(x) => x,
            None => 0,
        };
        let n = self.stack.space.len();
        match instr.opcode {
            Opcode::Noop => VmStatus::Running,
            Opcode::Const => {
                self.load_const(w);
                VmStatus::Running
            },
            Opcode::Load => {
                if self.current_frame.has_local(w as usize) {
                    self.load_local(w);
                    VmStatus::Running
                } else {
                    VmStatus::Failed(RtError::UndefinedLocal(w))
                }
            },
            Opcode::GLoad => {
                if (w as usize) < self.mem.len() {
                    self.load_global(w);
                    VmStatus::Running
                } else {
                    VmStatus::Failed(RtError::MemoryOutOfRange(w))
                }
            },
            Opcode::Store => {
                if n >= 1 {
                    self.store_local(w);
                    VmStatus::Running
                } else {
                    VmStatus::Failed(RtError::StackUnderflow)
                }
            },
            Opcode::GStore => {
                if n < 1 {
                    VmStatus::Failed(RtError::StackUnderflow)
                } else if (w as usize) < self.mem.len() {
                    self.store_global(w);
                    VmStatus::Running
                } else {
                    VmStatus::Failed(RtError::MemoryOutOfRange(w))
                }
            },
            Opcode::Call => {
                self.call(w);
                VmStatus::Running
            },
            Opcode::Ret => {
                if self.callstack.frames.len() >= 1 {
                    self.ret();
                    VmStatus::Running
                } else {
                    VmStatus::Failed(RtError::EmptyCallStack)
                }
            },
            Opcode::Dup => {
                if n >= 1 {
                    self.dup();
                    VmStatus::Running
                } else {
                    VmStatus::Failed(RtError::StackUnderflow)
                }
            },
            Opcode::Swap => {
                if n >= 2 {
                    self.swap();
                    VmStatus::Running
                } else {
                    VmStatus::Failed(RtError::StackUnderflow)
                }
            },
            Opcode::Add => {
                if n >= 2 {
                    self.add();
                    VmStatus::Running
                } else {
                    VmStatus::Failed(RtError::StackUnderflow)
                }
            },
            Opcode::Sub => {
                if n >= 2 {
                    self.sub();
                    VmStatus::Running
                } else {
                    VmStatus::Failed(RtError::StackUnderflow)
                }
            },
            Opcode::Mul => {
                if n >= 2 {
                    self.mul();
                    VmStatus::Running
                } else {
                    VmStatus::Failed(RtError::StackUnderflow)
                }
            },
            Opcode::Div => {
                if n < 2 {
                    VmStatus::Failed(RtError::StackUnderflow)
                } else if self.stack.space[n - 1] == 0 {
                    VmStatus::Failed(RtError::DivideByZero)
                } else {
                    self.div();
                    VmStatus::Running
                }
            },
            Opcode::Pow => {
                if n >= 2 {
                    self.pow();
                    VmStatus::Running
                } else {
                    VmStatus::Failed(RtError::StackUnderflow)
                }
            },
            Opcode::Mod => {
                if n < 2 {
                    VmStatus::Failed(RtError::StackUnderflow)
                } else if self.stack.space[n - 2] == 0 {
                    VmStatus::Failed(RtError::DivideByZero)
                } else {
                    self.modulo();
                    VmStatus::Running
                }
            },
            Opcode::Shl => {
                if n >= 1 {
                    self.bit_shl();
                    VmStatus::Running
                } else {
                    VmStatus::Failed(RtError::StackUnderflow)
                }
            },
            Opcode::Shr => {
                if n >= 1 {
                    self.bit_shr();
                    VmStatus::Running
                } else {
                    VmStatus::Failed(RtError::StackUnderflow)
                }
            },
            Opcode::And => {
                if n >= 2 {
                    self.bit_and();
                    VmStatus::Running
                } else {
                    VmStatus::Failed(RtError::StackUnderflow)
                }
            },
            Opcode::Or => {
                if n >= 2 {
                    self.bit_or();
                    VmStatus::Running
                } else {
                    VmStatus::Failed(RtError::StackUnderflow)
                }
            },
            Opcode::Xor => {
                if n >= 2 {
                    self.bit_xor();
                    VmStatus::Running
                } else {
                    VmStatus::Failed(RtError::StackUnderflow)
                }
            },
            Opcode::Not => {
                if n >= 1 {
                    self.bit_not();
                    VmStatus::Running
                } else {
                    VmStatus::Failed(RtError::StackUnderflow)
                }
            },
            Opcode::CmpEq => {
                if n >= 2 {
                    self.cmp_eq();
                    VmStatus::Running
                } else {
                    VmStatus::Failed(RtError::StackUnderflow)
                }
            },
            Opcode::CmpNe => {
                if n >= 2 {
                    self.cmp_ne();
                    VmStatus::Running
                } else {
                    VmStatus::Failed(RtError::StackUnderflow)
                }
            },
            Opcode::CmpGt => {
                if n >= 2 {
                    self.cmp_gt();
                    VmStatus::Running
                } else {
                    VmStatus::Failed(RtError::StackUnderflow)
                }
            },
            Opcode::CmpLt => {
                if n >= 2 {
                    self.cmp_lt();
                    VmStatus::Running
                } else {
                    VmStatus::Failed(RtError::StackUnderflow)
                }
            },
            Opcode::RelJmp => {
                if self.rel_jump_fits(w) {
                    self.rel_jmp(w);
                    VmStatus::Running
                } else {
                    VmStatus::Failed(RtError::JumpOutOfRange(w))
                }
            },
            Opcode::RelJmpEq => {
                if n < 2 {
                    VmStatus::Failed(RtError::StackUnderflow)
                } else {
                    let taken = self.stack.space[n - 1] == self.stack.space[n - 2];
                    if taken && !self.rel_jump_fits(w) {
                        VmStatus::Failed(RtError::JumpOutOfRange(w))
                    } else {
                        self.rel_jmp_eq(w);
                        VmStatus::Running
                    }
                }
            },
            Opcode::RelJmpNe => {
                if n < 2 {
                    VmStatus::Failed(RtError::StackUnderflow)
                } else {
                    let taken = self.stack.space[n - 1] != self.stack.space[n - 2];
                    if taken && !self.rel_jump_fits(w) {
                        VmStatus::Failed(RtError::JumpOutOfRange(w))
                    } else {
                        self.rel_jmp_ne(w);
                        VmStatus::Running
                    }
                }
            },
            Opcode::RelJmpGt => {
                if n < 2 {
                    VmStatus::Failed(RtError::StackUnderflow)
                } else {
                    let taken = self.stack.space[n - 1] > self.stack.space[n - 2];
                    if taken && !self.rel_jump_fits(w) {
                        VmStatus::Failed(RtError::JumpOutOfRange(w))
                    } else {
                        self.rel_jmp_gt(w);
                        VmStatus::Running
                    }
                }
            },
            Opcode::RelJmpLt => {
                if n < 2 {
                    VmStatus::Failed(RtError::StackUnderflow)
                } else {
                    let taken = self.stack.space[n - 1] < self.stack.space[n - 2];
                    if taken && !self.rel_jump_fits(w) {
                        VmStatus::Failed(RtError::JumpOutOfRange(w))
                    } else {
                        self.rel_jmp_lt(w);
                        VmStatus::Running
                    }
                }
            },
            Opcode::Jmp => {
                self.jmp(w);
                VmStatus::Running
            },
            Opcode::JmpNZ => {
                if n >= 1 {
                    self.jmp_nz(w);
                    VmStatus::Running
                } else {
                    VmStatus::Failed(RtError::StackUnderflow)
                }
            },
            Opcode::Print => {
                if n >= 1 {
                    self.print();
                    VmStatus::Running
                } else {
                    VmStatus::Failed(RtError::StackUnderflow)
                }
            },
            Opcode::Halt => VmStatus::Halted,
        }
    }

    /// Pushes the operand word.
    pub fn load_const(&mut self, value: u32)
        ensures
            final(self)@ == (VmV { stack: old(self)@.stack.push(value), ..old(self)@ }),
            final(self).wf() == old(self).wf(),
    {
        self.stack.push(value);
    }

    /// Pushes the value of a bound local of the current frame.
    pub fn load_local(&mut self, addr: u32)
        requires
            old(self)@.frame.locals.contains_key(addr as usize),
        ensures
            final(self)@ == (VmV {
                stack: old(self)@.stack.push(old(self)@.frame.locals[addr as usize]),
                ..old(self)@
            }),
            final(self).wf() == old(self).wf(),
    {
        let value = self.current_frame.get_local(addr as usize);
        self.stack.push(value);
    }

    /// Pushes the value of an in-range global memory slot.
    pub fn load_global(&mut self, addr: u32)
        requires
            (addr as int) < old(self)@.mem.len(),
        ensures
            final(self)@ == (VmV {
                stack: old(self)@.stack.push(old(self)@.mem[addr as int]),
                ..old(self)@
            }),
            final(self).wf() == old(self).wf(),
    {
        let value = self.mem[addr as usize];
        self.stack.push(value);
    }

    /// Pops the top word into a local of the current frame.
    pub fn store_local(&mut self, addr: u32)
        requires
            old(self)@.stack.len() >= 1,
        ensures
            final(self)@ == (VmV {
                stack: old(self)@.stack.drop_last(),
                frame: (FrameV {
                    ret: old(self)@.frame.ret,
                    locals: old(self)@.frame.locals.insert(addr as usize, old(self)@.stack.last()),
                }),
                ..old(self)@
            }),
            final(self).wf() == old(self).wf(),
    {
        let value = self.stack.pop();
        self.current_frame.set_local(addr as usize, value);
    }

    /// Pops the top word into an in-range global memory slot.
    pub fn store_global(&mut self, addr: u32)
        requires
            old(self)@.stack.len() >= 1,
            (addr as int) < old(self)@.mem.len(),
        ensures
            final(self)@ == (VmV {
                stack: old(self)@.stack.drop_last(),
                mem: old(self)@.mem.update(addr as int, old(self)@.stack.last()),
                ..old(self)@
            }),
            final(self).wf() == old(self).wf(),
    {
        let value = self.stack.pop();
        self.mem.set(addr as usize, value);
    }

    /// Pushes a fresh frame carrying the return counter, and jumps.
    pub fn call(&mut self, addr: u32)
        ensures
            final(self)@ == (VmV {
                frames: old(self)@.frames.push(
                    (FrameV { ret: old(self)@.pc as usize, locals: Map::<usize, u32>::empty() }),
                ),
                pc: addr as int,
                ..old(self)@
            }),
            final(self).wf() == old(self).wf(),
    {
        let pc = self.program.current();
        self.callstack.push(CallFrame::new(pc));
        self.program.jump_to(addr as usize);
    }

    /// Pops the most recent frame and returns to its counter.
    pub fn ret(&mut self)
        requires
            old(self)@.frames.len() >= 1,
        ensures
            final(self)@ == (VmV {
                frames: old(self)@.frames.drop_last(),
                pc: old(self)@.frames.last().ret as int,
                ..old(self)@
            }),
            final(self).wf() == old(self).wf(),
    {
        let frame = self.callstack.pop();
        self.program.jump_to(frame.ret);
    }

    /// Pushes `b wrapping_add a` (wrap on overflow).
    pub fn add(&mut self)
        requires
            old(self)@.stack.len() >= 2,
        ensures
            final(self)@ == (VmV {
                stack: old(self)@.stack.drop_last().drop_last().push(
                    old(self)@.stack[old(self)@.stack.len() - 2].wrapping_add(
                        old(self)@.stack.last(),
                    ),
                ),
                ..old(self)@
            }),
            final(self).wf() == old(self).wf(),
    {
        let s1 = self.stack.pop();
        let s2 = self.stack.pop();
        self.stack.push(s2.wrapping_add(s1));
    }

    /// Pushes `b - a`, saturating at zero.
    pub fn sub(&mut self)
        requires
            old(self)@.stack.len() >= 2,
        ensures
            final(self)@ == (VmV {
                stack: old(self)@.stack.drop_last().drop_last().push(
                    if old(self)@.stack[old(self)@.stack.len() - 2] >= old(self)@.stack.last() {
                        (old(self)@.stack[old(self)@.stack.len() - 2] - old(
                            self,
                        )@.stack.last()) as u32
                    } else {
                        0u32
                    },
                ),
                ..old(self)@
            }),
            final(self).wf() == old(self).wf(),
    {
        let s1 = self.stack.pop();
        let s2 = self.stack.pop();
        self.stack.push(
            if s2 >= s1 {
                s2 - s1
            } else {
                0
            },
        );
    }

    /// Pushes `b * a`, saturating at the largest word.
    pub fn mul(&mut self)
        requires
            old(self)@.stack.len() >= 2,
        ensures
            final(self)@ == (VmV {
                stack: old(self)@.stack.drop_last().drop_last().push(
                    if old(self)@.stack[old(self)@.stack.len() - 2] as int * old(
                        self,
                    )@.stack.last() as int > 0xFFFF_FFFF {
                        0xFFFF_FFFFu32
                    } else {
                        (old(self)@.stack[old(self)@.stack.len() - 2] as int * old(
                            self,
                        )@.stack.last() as int) as u32
                    },
                ),
                ..old(self)@
            }),
            final(self).wf() == old(self).wf(),
    {
        let s1 = self.stack.pop();
        let s2 = self.stack.pop();
        proof {
            vstd::arithmetic::mul::lemma_mul_upper_bound(
                s2 as int,
                0xFFFF_FFFF,
                s1 as int,
                0xFFFF_FFFF,
            );
        }
        let p = (s2 as u64) * (s1 as u64);
        self.stack.push(
            if p > 0xFFFF_FFFFu64 {
                0xFFFF_FFFFu32
            } else {
                p as u32
            },
        );
    }

    /// Pushes `b / a` on whole words; the divisor must be nonzero.
    pub fn div(&mut self)
        requires
            old(self)@.stack.len() >= 2,
            old(self)@.stack.last() != 0,
        ensures
            final(self)@ == (VmV {
                stack: old(self)@.stack.drop_last().drop_last().push(
                    old(self)@.stack[old(self)@.stack.len() - 2] / old(self)@.stack.last(),
                ),
                ..old(self)@
            }),
            final(self).wf() == old(self).wf(),
    {
        let s1 = self.stack.pop();
        let s2 = self.stack.pop();
        self.stack.push(s2 / s1);
    }

    /// Pushes `a ^ b`, saturating at the largest word.
    pub fn pow(&mut self)
        requires
            old(self)@.stack.len() >= 2,
        ensures
            final(self)@ == (VmV {
                stack: old(self)@.stack.drop_last().drop_last().push(
                    u32_pow_sat(old(self)@.stack.last(), old(self)@.stack[old(self)@.stack.len() - 2]),
                ),
                ..old(self)@
            }),
            final(self).wf() == old(self).wf(),
    {
        let s1 = self.stack.pop();
        let s2 = self.stack.pop();
        let r = pow_sat_exec(s1, s2);
        self.stack.push(r);
    }

    /// Pushes `a % b` on whole words; the divisor must be nonzero.
    pub fn modulo(&mut self)
        requires
            old(self)@.stack.len() >= 2,
            old(self)@.stack[old(self)@.stack.len() - 2] != 0,
        ensures
            final(self)@ == (VmV {
                stack: old(self)@.stack.drop_last().drop_last().push(
                    old(self)@.stack.last() % old(self)@.stack[old(self)@.stack.len() - 2],
                ),
                ..old(self)@
            }),
            final(self).wf() == old(self).wf(),
    {
        let s1 = self.stack.pop();
        let s2 = self.stack.pop();
        self.stack.push(s1 % s2);
    }

    /// Shifts the top word left by one bit.
    pub fn bit_shl(&mut self)
        requires
            old(self)@.stack.len() >= 1,
        ensures
            final(self)@ == (VmV {
                stack: old(self)@.stack.drop_last().push(old(self)@.stack.last() << 1u32),
                ..old(self)@
            }),
            final(self).wf() == old(self).wf(),
    {
        let s = self.stack.pop() << 1u32;
        self.stack.push(s);
    }

    /// Shifts the top word right by one bit.
    pub fn bit_shr(&mut self)
        requires
            old(self)@.stack.len() >= 1,
        ensures
            final(self)@ == (VmV {
                stack: old(self)@.stack.drop_last().push(old(self)@.stack.last() >> 1u32),
                ..old(self)@
            }),
            final(self).wf() == old(self).wf(),
    {
        let s = self.stack.pop() >> 1u32;
        self.stack.push(s);
    }

    /// Pushes the bitwise and of the top two words.
    pub fn bit_and(&mut self)
        requires
            old(self)@.stack.len() >= 2,
        ensures
            final(self)@ == (VmV {
                stack: old(self)@.stack.drop_last().drop_last().push(
                    old(self)@.stack.last() & old(self)@.stack[old(self)@.stack.len() - 2],
                ),
                ..old(self)@
            }),
            final(self).wf() == old(self).wf(),
    {
        let s1 = self.stack.pop();
        let s2 = self.stack.pop();
        self.stack.push(s1 & s2);
    }

    /// Pushes the bitwise or of the top two words.
    pub fn bit_or(&mut self)
        requires
            old(self)@.stack.len() >= 2,
        ensures
            final(self)@ == (VmV {
                stack: old(self)@.stack.drop_last().drop_last().push(
                    old(self)@.stack.last() | old(self)@.stack[old(self)@.stack.len() - 2],
                ),
                ..old(self)@
            }),
            final(self).wf() == old(self).wf(),
    {
        let s1 = self.stack.pop();
        let s2 = self.stack.pop();
        self.stack.push(s1 | s2);
    }

    /// Pushes the bitwise exclusive or of the top two words.
    pub fn bit_xor(&mut self)
        requires
            old(self)@.stack.len() >= 2,
        ensures
            final(self)@ == (VmV {
                stack: old(self)@.stack.drop_last().drop_last().push(
                    old(self)@.stack.last() ^ old(self)@.stack[old(self)@.stack.len() - 2],
                ),
                ..old(self)@
            }),
            final(self).wf() == old(self).wf(),
    {
        let s1 = self.stack.pop();
        let s2 = self.stack.pop();
        self.stack.push(s1 ^ s2);
    }

    /// Replaces the top word by its bitwise complement.
    pub fn bit_not(&mut self)
        requires
            old(self)@.stack.len() >= 1,
        ensures
            final(self)@ == (VmV {
                stack: old(self)@.stack.drop_last().push(!old(self)@.stack.last()),
                ..old(self)@
            }),
            final(self).wf() == old(self).wf(),
    {
        let s = self.stack.pop();
        self.stack.push(!s);
    }

    /// Pushes 1 when the top two words are equal, else 0.
    pub fn cmp_eq(&mut self)
        requires
            old(self)@.stack.len() >= 2,
        ensures
            final(self)@ == (VmV {
                stack: old(self)@.stack.drop_last().drop_last().push(
                    if old(self)@.stack.last() == old(self)@.stack[old(self)@.stack.len() - 2] {
                        1u32
                    } else {
                        0u32
                    },
                ),
                ..old(self)@
            }),
            final(self).wf() == old(self).wf(),
    {
        let s1 = self.stack.pop();
        let s2 = self.stack.pop();
        self.stack.push(
            if s1 == s2 {
                1
            } else {
                0
            },
        );
    }

    /// Pushes 1 when the top two words differ, else 0.
    pub fn cmp_ne(&mut self)
        requires
            old(self)@.stack.len() >= 2,
        ensures
            final(self)@ == (VmV {
                stack: old(self)@.stack.drop_last().drop_last().push(
                    if old(self)@.stack.last() != old(self)@.stack[old(self)@.stack.len() - 2] {
                        1u32
                    } else {
                        0u32
                    },
                ),
                ..old(self)@
            }),
            final(self).wf() == old(self).wf(),
    {
        let s1 = self.stack.pop();
        let s2 = self.stack.pop();
        self.stack.push(
            if s1 != s2 {
                1
            } else {
                0
            },
        );
    }

    /// Pushes 1 when the top word exceeds the one below it, else 0.
    pub fn cmp_gt(&mut self)
        requires
            old(self)@.stack.len() >= 2,
        ensures
            final(self)@ == (VmV {
                stack: old(self)@.stack.drop_last().drop_last().push(
                    if old(self)@.stack.last() > old(self)@.stack[old(self)@.stack.len() - 2] {
                        1u32
                    } else {
                        0u32
                    },
                ),
                ..old(self)@
            }),
            final(self).wf() == old(self).wf(),
    {
        let s1 = self.stack.pop();
        let s2 = self.stack.pop();
        self.stack.push(
            if s1 > s2 {
                1
            } else {
                0
            },
        );
    }

    /// Pushes 1 when the top word is below the one under it, else 0.
    pub fn cmp_lt(&mut self)
        requires
            old(self)@.stack.len() >= 2,
        ensures
            final(self)@ == (VmV {
                stack: old(self)@.stack.drop_last().drop_last().push(
                    if old(self)@.stack.last() < old(self)@.stack[old(self)@.stack.len() - 2] {
                        1u32
                    } else {
                        0u32
                    },
                ),
                ..old(self)@
            }),
            final(self).wf() == old(self).wf(),
    {
        let s1 = self.stack.pop();
        let s2 = self.stack.pop();
        self.stack.push(
            if s1 < s2 {
                1
            } else {
                0
            },
        );
    }

    /// Moves the counter by the operand read as a signed offset.
    pub fn rel_jmp(&mut self, addr: u32)
        requires
            0 <= old(self)@.pc + (addr as i32),
            old(self)@.pc + (addr as i32) <= usize::MAX,
        ensures
            final(self)@ == (VmV { pc: old(self)@.pc + (addr as i32), ..old(self)@ }),
            final(self).wf() == old(self).wf(),
    {
        let na: i32 = #[verifier::truncate] (addr as i32);
        self.program.jump_relative(na);
    }

    /// Pops the top two words; jumps relatively when they are equal.
    pub fn rel_jmp_eq(&mut self, addr: u32)
        requires
            old(self)@.stack.len() >= 2,
            old(self)@.stack.last() == old(self)@.stack[old(self)@.stack.len() - 2] ==> 0 <= old(
                self,
            )@.pc + (addr as i32) <= usize::MAX,
        ensures
            final(self)@ == (VmV {
                stack: old(self)@.stack.drop_last().drop_last(),
                pc: if old(self)@.stack.last() == old(self)@.stack[old(self)@.stack.len() - 2] {
                    old(self)@.pc + (addr as i32)
                } else {
                    old(self)@.pc
                },
                ..old(self)@
            }),
            final(self).wf() == old(self).wf(),
    {
        let s1 = self.stack.pop();
        let s2 = self.stack.pop();
        if s1 == s2 {
            let na: i32 = #[verifier::truncate] (addr as i32);
            self.program.jump_relative(na);
        }
    }

    /// Pops the top two words; jumps relatively when they differ.
    pub fn rel_jmp_ne(&mut self, addr: u32)
        requires
            old(self)@.stack.len() >= 2,
            old(self)@.stack.last() != old(self)@.stack[old(self)@.stack.len() - 2] ==> 0 <= old(
                self,
            )@.pc + (addr as i32) <= usize::MAX,
        ensures
            final(self)@ == (VmV {
                stack: old(self)@.stack.drop_last().drop_last(),
                pc: if old(self)@.stack.last() != old(self)@.stack[old(self)@.stack.len() - 2] {
                    old(self)@.pc + (addr as i32)
                } else {
                    old(self)@.pc
                },
                ..old(self)@
            }),
            final(self).wf() == old(self).wf(),
    {
        let s1 = self.stack.pop();
        let s2 = self.stack.pop();
        if s1 != s2 {
            let na: i32 = #[verifier::truncate] (addr as i32);
            self.program.jump_relative(na);
        }
    }

    /// Pops the top two words; jumps relatively when the first exceeds
    /// the second.
    pub fn rel_jmp_gt(&mut self, addr: u32)
        requires
            old(self)@.stack.len() >= 2,
            old(self)@.stack.last() > old(self)@.stack[old(self)@.stack.len() - 2] ==> 0 <= old(
                self,
            )@.pc + (addr as i32) <= usize::MAX,
        ensures
            final(self)@ == (VmV {
                stack: old(self)@.stack.drop_last().drop_last(),
                pc: if old(self)@.stack.last() > old(self)@.stack[old(self)@.stack.len() - 2] {
                    old(self)@.pc + (addr as i32)
                } else {
                    old(self)@.pc
                },
                ..old(self)@
            }),
            final(self).wf() == old(self).wf(),
    {
        let s1 = self.stack.pop();
        let s2 = self.stack.pop();
        if s1 > s2 {
            let na: i32 = #[verifier::truncate] (addr as i32);
            self.program.jump_relative(na);
        }
    }

    /// Pops the top two words; jumps relatively when the first is below
    /// the second.
    pub fn rel_jmp_lt(&mut self, addr: u32)
        requires
            old(self)@.stack.len() >= 2,
            old(self)@.stack.last() < old(self)@.stack[old(self)@.stack.len() - 2] ==> 0 <= old(
                self,
            )@.pc + (addr as i32) <= usize::MAX,
        ensures
            final(self)@ == (VmV {
                stack: old(self)@.stack.drop_last().drop_last(),
                pc: if old(self)@.stack.last() < old(self)@.stack[old(self)@.stack.len() - 2] {
                    old(self)@.pc + (addr as i32)
                } else {
                    old(self)@.pc
                },
                ..old(self)@
            }),
            final(self).wf() == old(self).wf(),
    {
        let s1 = self.stack.pop();
        let s2 = self.stack.pop();
        if s1 < s2 {
            let na: i32 = #[verifier::truncate] (addr as i32);
            self.program.jump_relative(na);
        }
    }

    /// Jumps to an absolute address.
    pub fn jmp(&mut self, addr: u32)
        ensures
            final(self)@ == (VmV { pc: addr as int, ..old(self)@ }),
            final(self).wf() == old(self).wf(),
    {
        self.program.jump_to(addr as usize);
    }

    /// Pops the top word; jumps to an absolute address when it is not
    /// zero.
    pub fn jmp_nz(&mut self, value: u32)
        requires
            old(self)@.stack.len() >= 1,
        ensures
            final(self)@ == (VmV {
                stack: old(self)@.stack.drop_last(),
                pc: if old(self)@.stack.last() != 0 {
                    value as int
                } else {
                    old(self)@.pc
                },
                ..old(self)@
            }),
            final(self).wf() == old(self).wf(),
    {
        let addr = value as usize;
        if self.stack.pop() != 0 {
            self.program.jump_to(addr);
        }
    }

    /// Pushes a copy of the top word.
    pub fn dup(&mut self)
        requires
            old(self)@.stack.len() >= 1,
        ensures
            final(self)@ == (VmV {
                stack: old(self)@.stack.push(old(self)@.stack.last()),
                ..old(self)@
            }),
            final(self).wf() == old(self).wf(),
    {
        let todupe = self.stack.peek();
        self.stack.push(todupe);
    }

    /// Exchanges the top two words.
    pub fn swap(&mut self)
        requires
            old(self)@.stack.len() >= 2,
        ensures
            final(self)@ == (VmV {
                stack: old(self)@.stack.drop_last().drop_last().push(old(self)@.stack.last()).push(
                    old(self)@.stack[old(self)@.stack.len() - 2],
                ),
                ..old(self)@
            }),
            final(self).wf() == old(self).wf(),
    {
        let s1 = self.stack.pop();
        let s2 = self.stack.pop();
        self.stack.push(s1);
        self.stack.push(s2);
    }

    /// Records the top word, without removing it, on the output tape that
    /// stands for standard output.
    pub fn print(&mut self)
        requires
            old(self)@.stack.len() >= 1,
        ensures
            final(self)@ == (VmV {
                output: old(self)@.output.push(old(self)@.stack.last()),
                ..old(self)@
            }),
            final(self).wf() == old(self).wf(),
    {
        let s = self.stack.peek();
        self.output.push(s);
    }

    /// Whether the counter can hold the target of a relative jump by `w`
    /// read as a signed offset.
    fn rel_jump_fits(&self, w: u32) -> (r: bool)
        ensures
            r == (0 <= self@.pc + (w as i32) && self@.pc + (w as i32) <= usize::MAX),
    {
        let rel: i32 = #[verifier::truncate] (w as i32);
        if rel >= 0 {
            self.program.pc <= usize::MAX - (rel as usize)
        } else {
            self.program.pc >= ((-(rel as i64)) as usize)
        }
    }

    /// One whole step: fetch, decode, dispatch.
    pub fn step(&mut self) -> (st: VmStatus)
        requires
            old(self).wf(),
        ensures
            final(self).wf(),
            spec_step(old(self)@) == (final(self)@, st),
    {
        let ghost v0 = self@;
        let inst = match self.fetch_instruction() {
            Err(e) => {
                return VmStatus::Failed(e);
            },
            Ok(i) => i,
        };
        let ghost mid = self@;
        proof {
            assert(self.wf());
            if code_has_operand(inst.code) {
                assert(mid == (VmV { pc: v0.pc + 5, ..v0 }));
                assert(operand_val(inst.value) == be_word_of_seq(
                    v0.bytes.subrange(v0.pc + 1, v0.pc + 5),
                ));
                assert(spec_step(v0) == spec_apply(mid, inst.opcode, operand_val(inst.value)));
            } else {
                assert(mid == (VmV { pc: v0.pc + 1, ..v0 }));
                assert(operand_val(inst.value) == 0);
                assert(spec_step(v0) == spec_apply(mid, inst.opcode, operand_val(inst.value)));
            }
        }
        self.handle_instruction(inst)
    }

    /// Runs the machine for at most `max_steps` steps: until `halt`, a
    /// fault, or the budget running out, whichever comes first.
    pub fn run(&mut self, max_steps: usize) -> (r: VmRun)
        requires
            old(self).wf(),
        ensures
            final(self).wf(),
            match r {
                VmRun::Halted => exists|n: nat|
                    n <= max_steps && spec_run(old(self)@, n) == (final(self)@, VmStatus::Halted),
                VmRun::Failed(e) => exists|n: nat|
                    n <= max_steps && spec_run(old(self)@, n) == (
                        final(self)@,
                        VmStatus::Failed(e),
                    ),
                VmRun::OutOfSteps => spec_run(old(self)@, max_steps as nat) == (
                    final(self)@,
                    VmStatus::Running,
                ),
            },
    {
        let ghost v0 = self@;
        let mut i: usize = 0;
        proof {
            assert(spec_run(v0, 0) == (self@, VmStatus::Running));
        }
        while i < max_steps
            invariant
                self.wf(),
                i <= max_steps,
                v0 == old(self)@,
                spec_run(v0, i as nat) == (self@, VmStatus::Running),
            decreases max_steps - i,
        {
            proof {
                lemma_run_extend(v0, i as nat);
            }
            let st = self.step();
            match st {
                VmStatus::Running => {},
                VmStatus::Halted => {
                    proof {
                        assert(spec_run(v0, i as nat + 1) == (self@, VmStatus::Halted));
                    }
                    return VmRun::Halted;
                },
                VmStatus::Failed(e) => {
                    proof {
                        assert(spec_run(v0, i as nat + 1) == (self@, VmStatus::Failed(e)));
                    }
                    return VmRun::Failed(e);
                },
            }
            i += 1;
        }
        VmRun::OutOfSteps
    }
}

} // verus!
