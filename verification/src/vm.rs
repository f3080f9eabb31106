//! The virtual machine.
//!
//! A VM executes a bytecode image: after the 64-byte header comes a
//! sequence of 4-byte instruction frames. One step of execution is the spec
//! function [`spec_step`]: it says, for every machine state, what the next
//! state is and whether the run is over. `run` drives steps until one
//! reports completion; `run_once` takes exactly one step.
//!
//! A malformed instruction — an opcode byte past the end of the program, a
//! register operand of 32 or more, a division that would trap, a jump to a
//! nonsensical target — stops the run with the state otherwise unchanged,
//! where the machine could only fault.

use vstd::prelude::*;
use crate::instruction::{Opcode, opcode_of_byte};
use crate::assembler::{PIE_HEADER_LENGTH, spec_header};

verus! {

use vstd::string::StringSliceAdditionalSpecFns;

/// The mathematical shape of a [`VM`].
#[verifier::ext_equal]
pub struct VmModel {
    pub registers: Seq<i32>,
    pub pc: int,
    pub program: Seq<u8>,
    pub remainder: u32,
    pub equal_flag: bool,
    pub heap: Seq<u8>,
    pub ro_data: Seq<u8>,
    pub output: Seq<u8>,
}

/// Signed division truncated toward zero, as the machine's `DIV` performs
/// it (spec-level `/` on `int` rounds toward negative infinity instead).
pub open spec fn trunc_div(a: int, b: int) -> int {
    let ua = if a < 0 { -a } else { a };
    let ub = if b < 0 { -b } else { b };
    if (a < 0) != (b < 0) {
        -(ua / ub)
    } else {
        ua / ub
    }
}

/// The remainder of [`trunc_div`]; its sign follows the dividend.
pub open spec fn trunc_rem(a: int, b: int) -> int {
    let ua = if a < 0 { -a } else { a };
    let ub = if b < 0 { -b } else { b };
    if a < 0 {
        -(ua % ub)
    } else {
        ua % ub
    }
}

/// A 16-bit big-endian immediate.
pub open spec fn imm16(hi: u8, lo: u8) -> u32 {
    (hi as u32 * 256 + lo as u32) as u32
}

/// Where the program counter lands after a frame-consuming instruction:
/// four bytes on, or at the end of a program too short for the full frame.
pub open spec fn next4(pc: int, len: int) -> int {
    if len - pc >= 4 {
        pc + 4
    } else {
        len
    }
}

/// The first position at or after `i` holding a zero byte, or the end.
pub open spec fn zero_end(s: Seq<u8>, i: int) -> int
    decreases s.len() - i,
    when 0 <= i <= s.len()
{
    if i == s.len() {
        i
    } else if s[i] == 0 {
        i
    } else {
        zero_end(s, i + 1)
    }
}


/// One step of execution: the next machine state, and whether the run is
/// over. The program counter names an opcode byte; each opcode consumes its
/// operand bytes and advances or branches as the opcode table prescribes.
pub open spec fn spec_step(s: VmModel) -> (VmModel, bool) {
    let pc = s.pc;
    let len = s.program.len() as int;
    if !(0 <= pc < len) {
        (s, true)
    } else {
        match opcode_of_byte(s.program[pc]) {
            Opcode::HLT => (VmModel { pc: pc + 1, ..s }, true),
            Opcode::IGL => (VmModel { pc: pc + 1, ..s }, true),
            Opcode::LOAD => {
                if pc + 4 <= len && s.program[pc + 1] < 32 {
                    let r = s.program[pc + 1] as int;
                    let v = imm16(s.program[pc + 2], s.program[pc + 3]);
                    (VmModel { registers: s.registers.update(r, v as i32), pc: pc + 4, ..s },
                    false)
                } else {
                    (s, true)
                }
            },
            Opcode::ADD => {
                if pc + 4 <= len && s.program[pc + 1] < 32 && s.program[pc + 2] < 32 && s.program[
                    pc + 3] < 32 {
                    let a = s.registers[s.program[pc + 1] as int];
                    let b = s.registers[s.program[pc + 2] as int];
                    (VmModel {
                        registers: s.registers.update(
                            s.program[pc + 3] as int,
                            a.wrapping_add(b),
                        ),
                        pc: pc + 4,
                        ..s
                    }, false)
                } else {
                    (s, true)
                }
            },
            Opcode::SUB => {
                if pc + 4 <= len && s.program[pc + 1] < 32 && s.program[pc + 2] < 32 && s.program[
                    pc + 3] < 32 {
                    let a = s.registers[s.program[pc + 1] as int];
                    let b = s.registers[s.program[pc + 2] as int];
                    (VmModel {
                        registers: s.registers.update(
                            s.program[pc + 3] as int,
                            a.wrapping_sub(b),
                        ),
                        pc: pc + 4,
                        ..s
                    }, false)
                } else {
                    (s, true)
                }
            },
            Opcode::MUL => {
                if pc + 4 <= len && s.program[pc + 1] < 32 && s.program[pc + 2] < 32 && s.program[
                    pc + 3] < 32 {
                    let a = s.registers[s.program[pc + 1] as int];
                    let b = s.registers[s.program[pc + 2] as int];
                    (VmModel {
                        registers: s.registers.update(
                            s.program[pc + 3] as int,
                            a.wrapping_mul(b),
                        ),
                        pc: pc + 4,
                        ..s
                    }, false)
                } else {
                    (s, true)
                }
            },
            Opcode::DIV => {
                if pc + 4 <= len && s.program[pc + 1] < 32 && s.program[pc + 2] < 32 && s.program[
                    pc + 3] < 32 {
                    let a = s.registers[s.program[pc + 1] as int];
                    let b = s.registers[s.program[pc + 2] as int];
                    if b == 0 || (a == i32::MIN && b == -1) {
                        (s, true)
                    } else {
                        (VmModel {
                            registers: s.registers.update(
                                s.program[pc + 3] as int,
                                trunc_div(a as int, b as int) as i32,
                            ),
                            remainder: (trunc_rem(a as int, b as int) as i32) as u32,
                            pc: pc + 4,
                            ..s
                        }, false)
                    }
                } else {
                    (s, true)
                }
            },
            Opcode::JMP => {
                if pc + 2 <= len && s.program[pc + 1] < 32 {
                    let t = s.registers[s.program[pc + 1] as int];
                    if t >= 0 {
                        (VmModel { pc: t as int, ..s }, false)
                    } else {
                        (s, true)
                    }
                } else {
                    (s, true)
                }
            },
            Opcode::JMPF => {
                if pc + 2 <= len && s.program[pc + 1] < 32 {
                    let v = s.registers[s.program[pc + 1] as int];
                    if v >= 0 && pc + 2 + v <= usize::MAX {
                        (VmModel { pc: pc + 2 + v, ..s }, false)
                    } else {
                        (s, true)
                    }
                } else {
                    (s, true)
                }
            },
            Opcode::JMPB => {
                if pc + 2 <= len && s.program[pc + 1] < 32 {
                    let v = s.registers[s.program[pc + 1] as int];
                    if 0 <= v <= pc + 2 {
                        (VmModel { pc: pc + 2 - v, ..s }, false)
                    } else {
                        (s, true)
                    }
                } else {
                    (s, true)
                }
            },
            Opcode::EQ => {
                if pc + 4 <= len && s.program[pc + 1] < 32 && s.program[pc + 2] < 32 {
                    let a = s.registers[s.program[pc + 1] as int];
                    let b = s.registers[s.program[pc + 2] as int];
                    (VmModel { equal_flag: a == b, pc: pc + 4, ..s }, false)
                } else {
                    (s, true)
                }
            },
            Opcode::NEQ => {
                if pc + 4 <= len && s.program[pc + 1] < 32 && s.program[pc + 2] < 32 {
                    let a = s.registers[s.program[pc + 1] as int];
                    let b = s.registers[s.program[pc + 2] as int];
                    (VmModel { equal_flag: a != b, pc: pc + 4, ..s }, false)
                } else {
                    (s, true)
                }
            },
            Opcode::GT => {
                if pc + 4 <= len && s.program[pc + 1] < 32 && s.program[pc + 2] < 32 {
                    let a = s.registers[s.program[pc + 1] as int];
                    let b = s.registers[s.program[pc + 2] as int];
                    (VmModel { equal_flag: a > b, pc: pc + 4, ..s }, false)
                } else {
                    (s, true)
                }
            },
            Opcode::LT => {
                if pc + 4 <= len && s.program[pc + 1] < 32 && s.program[pc + 2] < 32 {
                    let a = s.registers[s.program[pc + 1] as int];
                    let b = s.registers[s.program[pc + 2] as int];
                    (VmModel { equal_flag: a < b, pc: pc + 4, ..s }, false)
                } else {
                    (s, true)
                }
            },
            Opcode::GTQ => {
                if pc + 4 <= len && s.program[pc + 1] < 32 && s.program[pc + 2] < 32 {
                    let a = s.registers[s.program[pc + 1] as int];
                    let b = s.registers[s.program[pc + 2] as int];
                    (VmModel { equal_flag: a >= b, pc: pc + 4, ..s }, false)
                } else {
                    (s, true)
                }
            },
            Opcode::LTQ => {
                if pc + 4 <= len && s.program[pc + 1] < 32 && s.program[pc + 2] < 32 {
                    let a = s.registers[s.program[pc + 1] as int];
                    let b = s.registers[s.program[pc + 2] as int];
                    (VmModel { equal_flag: a <= b, pc: pc + 4, ..s }, false)
                } else {
                    (s, true)
                }
            },
            Opcode::JEQ => {
                if pc + 2 <= len && s.program[pc + 1] < 32 {
                    let t = s.registers[s.program[pc + 1] as int];
                    if s.equal_flag {
                        if t >= 0 {
                            (VmModel { pc: t as int, ..s }, false)
                        } else {
                            (s, true)
                        }
                    } else {
                        (VmModel { pc: next4(pc, len), ..s }, false)
                    }
                } else {
                    (s, true)
                }
            },
            Opcode::ALOC => {
                if pc + 2 <= len && s.program[pc + 1] < 32 {
                    let n = s.registers[s.program[pc + 1] as int];
                    if n >= 0 && s.heap.len() + n <= usize::MAX {
                        (VmModel {
                            heap: s.heap + Seq::new(n as nat, |i: int| 0u8),
                            pc: next4(pc, len),
                            ..s
                        }, false)
                    } else {
                        (s, true)
                    }
                } else {
                    (s, true)
                }
            },
            Opcode::INC => {
                if pc + 2 <= len && s.program[pc + 1] < 32 {
                    let r = s.program[pc + 1] as int;
                    (VmModel {
                        registers: s.registers.update(r, s.registers[r].wrapping_add(1)),
                        pc: next4(pc, len),
                        ..s
                    }, false)
                } else {
                    (s, true)
                }
            },
            Opcode::DEC => {
                if pc + 2 <= len && s.program[pc + 1] < 32 {
                    let r = s.program[pc + 1] as int;
                    (VmModel {
                        registers: s.registers.update(r, s.registers[r].wrapping_sub(1)),
                        pc: next4(pc, len),
                        ..s
                    }, false)
                } else {
                    (s, true)
                }
            },
            Opcode::PRTS => {
                if pc + 3 <= len {
                    let off = imm16(s.program[pc + 1], s.program[pc + 2]) as int;
                    let start = if off <= s.ro_data.len() {
                        off
                    } else {
                        s.ro_data.len() as int
                    };
                    let stop = zero_end(s.ro_data, start);
                    (VmModel {
                        output: s.output + s.ro_data.subrange(start, stop) + seq![10u8],
                        pc: next4(pc, len),
                        ..s
                    }, false)
                } else {
                    (s, true)
                }
            },
        }
    }
}

/// The machine state after `n` steps.
pub open spec fn iterate(s: VmModel, n: nat) -> VmModel
    decreases n,
{
    if n == 0 {
        s
    } else {
        spec_step(iterate(s, (n - 1) as nat)).0
    }
}

/// Whether a program opens with the image magic.
pub open spec fn spec_header_ok(p: Seq<u8>) -> bool {
    p.len() >= 4 && p[0] == 45 && p[1] == 50 && p[2] == 49 && p[3] == 45
}

/// A byte vector with the 64-byte image header prepended.
pub fn prepend_header(b: Vec<u8>) -> (r: Vec<u8>)
    ensures
        r@ == spec_header() + b@,
{
    let mut prepension: Vec<u8> = Vec::new();
    prepension.push(45);
    prepension.push(50);
    prepension.push(49);
    prepension.push(45);
    while prepension.len() < PIE_HEADER_LENGTH
        invariant
            4 <= prepension@.len() <= 64,
            prepension@[0] == 45 && prepension@[1] == 50 && prepension@[2] == 49
                && prepension@[3] == 45,
            forall|j: int| 4 <= j < prepension@.len() ==> prepension@[j] == 0,
        decreases 64 - prepension.len(),
    {
        prepension.push(0);
    }
    proof {
        assert(prepension@ =~= spec_header());
    }
    let mut b = b;
    prepension.append(&mut b);
    prepension
}

/// The virtual machine: 32 registers, a program counter, the loaded
/// program, a division remainder, a comparison flag, a growable heap, the
/// read-only data area, and everything `PRTS` printed.
#[derive(Debug, Clone)]
pub struct VM {
    pub registers: [i32; 32],
    pub pc: usize,
    pub program: Vec<u8>,
    pub remainder: u32,
    pub equal_flag: bool,
    pub heap: Vec<u8>,
    pub ro_data: Vec<u8>,
    pub output: Vec<u8>,
}

impl View for VM {
    type V = VmModel;

    open spec fn view(&self) -> VmModel {
        VmModel {
            registers: self.registers@,
            pc: self.pc as int,
            program: self.program@,
            remainder: self.remainder,
            equal_flag: self.equal_flag,
            heap: self.heap@,
            ro_data: self.ro_data@,
            output: self.output@,
        }
    }
}

impl VM {
    /// A fresh machine: registers zeroed, nothing loaded, nothing printed.
    pub fn new() -> (r: VM)
        ensures
            r@.registers =~= Seq::new(32, |i: int| 0i32),
            r@.pc == 0,
            r@.program =~= Seq::<u8>::empty(),
            r@.remainder == 0,
            r@.equal_flag == false,
            r@.heap =~= Seq::<u8>::empty(),
            r@.ro_data =~= Seq::<u8>::empty(),
            r@.output =~= Seq::<u8>::empty(),
    {
        let vm = VM {
            registers: [0; 32],
            program: Vec::new(),
            pc: 0,
            remainder: 0,
            equal_flag: false,
            heap: Vec::new(),
            ro_data: Vec::new(),
            output: Vec::new(),
        };
        proof {
            assert(vm@.registers =~= Seq::new(32, |i: int| 0i32));
        }
        vm
    }

    /// Whether the loaded program opens with the image magic.
    pub fn verify_header(&self) -> (r: bool)
        ensures
            r == spec_header_ok(self@.program),
    {
        self.program.len() >= 4 && self.program[0] == 45 && self.program[1] == 50
            && self.program[2] == 49 && self.program[3] == 45
    }

    /// Replace the registers wholesale.
    pub fn init_registers(&mut self, vec: [i32; 32])
        ensures
            final(self)@ == (VmModel { registers: vec@, ..old(self)@ }),
    {
        self.registers = vec;
    }

    /// Append raw bytes to the program.
    pub fn add_bytes(&mut self, b: Vec<u8>)
        ensures
            final(self)@ == (VmModel { program: old(self)@.program + b@, ..old(self)@ }),
    {
        let mut b = b;
        self.program.append(&mut b);
    }

    /// Execute one instruction; reports whether the run is over.
    #[verifier::rlimit(100)]
    #[verifier::spinoff_prover]
    fn execute_instruction(&mut self) -> (done: bool)
        ensures
            final(self)@ == spec_step(old(self)@).0,
            done == spec_step(old(self)@).1,
    {
        let pc = self.pc;
        let len = self.program.len();
        if pc >= len {
            return true;
        }
        let op = Opcode::from_u8(self.program[pc]);
        match op {
            Opcode::HLT => {
                self.pc = pc + 1;
                true
            },
            Opcode::IGL => {
                self.pc = pc + 1;
                true
            },
            Opcode::LOAD => {
                if len - pc >= 4 && self.program[pc + 1] < 32 {
                    let r = self.program[pc + 1] as usize;
                    let v: u32 = (self.program[pc + 2] as u32) * 256 + (self.program[pc + 3]
                        as u32);
                    self.registers[r] = v as i32;
                    self.pc = pc + 4;
                    false
                } else {
                    true
                }
            },
            Opcode::ADD => {
                if len - pc >= 4 && self.program[pc + 1] < 32 && self.program[pc + 2] < 32
                    && self.program[pc + 3] < 32 {
                    let a = self.registers[self.program[pc + 1] as usize];
                    let b = self.registers[self.program[pc + 2] as usize];
                    self.registers[self.program[pc + 3] as usize] = a.wrapping_add(b);
                    self.pc = pc + 4;
                    false
                } else {
                    true
                }
            },
            Opcode::SUB => {
                if len - pc >= 4 && self.program[pc + 1] < 32 && self.program[pc + 2] < 32
                    && self.program[pc + 3] < 32 {
                    let a = self.registers[self.program[pc + 1] as usize];
                    let b = self.registers[self.program[pc + 2] as usize];
                    self.registers[self.program[pc + 3] as usize] = a.wrapping_sub(b);
                    self.pc = pc + 4;
                    false
                } else {
                    true
                }
            },
            Opcode::MUL => {
                if len - pc >= 4 && self.program[pc + 1] < 32 && self.program[pc + 2] < 32
                    && self.program[pc + 3] < 32 {
                    let a = self.registers[self.program[pc + 1] as usize];
                    let b = self.registers[self.program[pc + 2] as usize];
                    self.registers[self.program[pc + 3] as usize] = a.wrapping_mul(b);
                    self.pc = pc + 4;
                    false
                } else {
                    true
                }
            },
            Opcode::DIV => {
                if len - pc >= 4 && self.program[pc + 1] < 32 && self.program[pc + 2] < 32
                    && self.program[pc + 3] < 32 {
                    let a = self.registers[self.program[pc + 1] as usize];
                    let b = self.registers[self.program[pc + 2] as usize];
                    if b == 0 || (a == i32::MIN && b == -1) {
                        true
                    } else {
                        let neg = (a < 0) != (b < 0);
                        let ua: u32 = if a >= 0 {
                            a as u32
                        } else {
                            ((-(a as i64)) as u32)
                        };
                        let ub: u32 = if b >= 0 {
                            b as u32
                        } else {
                            ((-(b as i64)) as u32)
                        };
                        let uq: u32 = ua / ub;
                        let ur: u32 = ua % ub;
                        let q: i32 = if neg {
                            ((0i64 - (uq as i64)) as i32)
                        } else {
                            uq as i32
                        };
                        let r: i32 = if a < 0 {
                            ((0i64 - (ur as i64)) as i32)
                        } else {
                            ur as i32
                        };
                        proof {
                            assert(q == trunc_div(a as int, b as int) as i32);
                            assert(r == trunc_rem(a as int, b as int) as i32);
                        }
                        self.registers[self.program[pc + 3] as usize] = q;
                        self.remainder = r as u32;
                        self.pc = pc + 4;
                        false
                    }
                } else {
                    true
                }
            },
            Opcode::JMP => {
                if len - pc >= 2 && self.program[pc + 1] < 32 {
                    let t = self.registers[self.program[pc + 1] as usize];
                    if t >= 0 {
                        self.pc = t as usize;
                        false
                    } else {
                        true
                    }
                } else {
                    true
                }
            },
            Opcode::JMPF => {
                if len - pc >= 2 && self.program[pc + 1] < 32 {
                    let v = self.registers[self.program[pc + 1] as usize];
                    if v >= 0 && (v as usize) <= usize::MAX - (pc + 2) {
                        self.pc = pc + 2 + (v as usize);
                        false
                    } else {
                        true
                    }
                } else {
                    true
                }
            },
            Opcode::JMPB => {
                if len - pc >= 2 && self.program[pc + 1] < 32 {
                    let v = self.registers[self.program[pc + 1] as usize];
                    if v >= 0 && (v as usize) <= pc + 2 {
                        self.pc = pc + 2 - (v as usize);
                        false
                    } else {
                        true
                    }
                } else {
                    true
                }
            },
            Opcode::EQ => {
                if len - pc >= 4 && self.program[pc + 1] < 32 && self.program[pc + 2] < 32 {
                    let a = self.registers[self.program[pc + 1] as usize];
                    let b = self.registers[self.program[pc + 2] as usize];
                    self.equal_flag = a == b;
                    self.pc = pc + 4;
                    false
                } else {
                    true
                }
            },
            Opcode::NEQ => {
                if len - pc >= 4 && self.program[pc + 1] < 32 && self.program[pc + 2] < 32 {
                    let a = self.registers[self.program[pc + 1] as usize];
                    let b = self.registers[self.program[pc + 2] as usize];
                    self.equal_flag = a != b;
                    self.pc = pc + 4;
                    false
                } else {
                    true
                }
            },
            Opcode::GT => {
                if len - pc >= 4 && self.program[pc + 1] < 32 && self.program[pc + 2] < 32 {
                    let a = self.registers[self.program[pc + 1] as usize];
                    let b = self.registers[self.program[pc + 2] as usize];
                    self.equal_flag = a > b;
                    self.pc = pc + 4;
                    false
                } else {
                    true
                }
            },
            Opcode::LT => {
                if len - pc >= 4 && self.program[pc + 1] < 32 && self.program[pc + 2] < 32 {
                    let a = self.registers[self.program[pc + 1] as usize];
                    let b = self.registers[self.program[pc + 2] as usize];
                    self.equal_flag = a < b;
                    self.pc = pc + 4;
                    false
                } else {
                    true
                }
            },
            Opcode::GTQ => {
                if len - pc >= 4 && self.program[pc + 1] < 32 && self.program[pc + 2] < 32 {
                    let a = self.registers[self.program[pc + 1] as usize];
                    let b = self.registers[self.program[pc + 2] as usize];
                    self.equal_flag = a >= b;
                    self.pc = pc + 4;
                    false
                } else {
                    true
                }
            },
            Opcode::LTQ => {
                if len - pc >= 4 && self.program[pc + 1] < 32 && self.program[pc + 2] < 32 {
                    let a = self.registers[self.program[pc + 1] as usize];
                    let b = self.registers[self.program[pc + 2] as usize];
                    self.equal_flag = a <= b;
                    self.pc = pc + 4;
                    false
                } else {
                    true
                }
            },
            Opcode::JEQ => {
                if len - pc >= 2 && self.program[pc + 1] < 32 {
                    let t = self.registers[self.program[pc + 1] as usize];
                    if self.equal_flag {
                        if t >= 0 {
                            self.pc = t as usize;
                            false
                        } else {
                            true
                        }
                    } else {
                        self.pc = if len - pc >= 4 {
                            pc + 4
                        } else {
                            len
                        };
                        false
                    }
                } else {
                    true
                }
            },
            Opcode::ALOC => {
                if len - pc >= 2 && self.program[pc + 1] < 32 {
                    let n = self.registers[self.program[pc + 1] as usize];
                    if n >= 0 && (n as usize) <= usize::MAX - self.heap.len() {
                        let new_end = self.heap.len() + (n as usize);
                        self.heap.resize(new_end, 0);
                        proof {
                            assert(self.heap@ =~= old(self)@.heap + Seq::new(
                                n as nat,
                                |i: int| 0u8,
                            ));
                        }
                        self.pc = if len - pc >= 4 {
                            pc + 4
                        } else {
                            len
                        };
                        false
                    } else {
                        true
                    }
                } else {
                    true
                }
            },
            Opcode::INC => {
                if len - pc >= 2 && self.program[pc + 1] < 32 {
                    let r = self.program[pc + 1] as usize;
                    self.registers[r] = self.registers[r].wrapping_add(1);
                    self.pc = if len - pc >= 4 {
                        pc + 4
                    } else {
                        len
                    };
                    false
                } else {
                    true
                }
            },
            Opcode::DEC => {
                if len - pc >= 2 && self.program[pc + 1] < 32 {
                    let r = self.program[pc + 1] as usize;
                    self.registers[r] = self.registers[r].wrapping_sub(1);
                    self.pc = if len - pc >= 4 {
                        pc + 4
                    } else {
                        len
                    };
                    false
                } else {
                    true
                }
            },
            Opcode::PRTS => {
                if len - pc >= 3 {
                    let off = ((self.program[pc + 1] as u32) * 256 + (self.program[pc + 2] as u32))
                        as usize;
                    let start = if off <= self.ro_data.len() {
                        off
                    } else {
                        self.ro_data.len()
                    };
                    let ghost start_g = start as int;
                    let mut stop = start;
                    while stop < self.ro_data.len() && self.ro_data[stop] != 0
                        invariant
                            start_g <= stop as int <= self.ro_data@.len(),
                            zero_end(self.ro_data@, start_g) == zero_end(
                                self.ro_data@,
                                stop as int,
                            ),
                            self@ == old(self)@,
                            start_g == start as int,
                        decreases self.ro_data@.len() - stop,
                    {
                        stop += 1;
                    }
                    let ghost pre_out = self.output@;
                    let mut k = start;
                    while k < stop
                        invariant
                            start <= k <= stop <= self.ro_data@.len(),
                            self.output@ == pre_out + self.ro_data@.subrange(
                                start as int,
                                k as int,
                            ),
                            self.ro_data@ == old(self)@.ro_data,
                            self.registers@ == old(self)@.registers,
                            self.pc == old(self).pc,
                            self.program@ == old(self)@.program,
                            self.remainder == old(self).remainder,
                            self.equal_flag == old(self).equal_flag,
                            self.heap@ == old(self)@.heap,
                        decreases stop - k,
                    {
                        let byte = self.ro_data[k];
                        self.output.push(byte);
                        proof {
                            assert(self.output@ =~= pre_out + self.ro_data@.subrange(
                                start as int,
                                k as int + 1,
                            ));
                        }
                        k += 1;
                    }
                    self.output.push(10);
                    self.pc = if len - pc >= 4 {
                        pc + 4
                    } else {
                        len
                    };
                    proof {
                        assert(self.output@ =~= pre_out + self.ro_data@.subrange(
                            start as int,
                            stop as int,
                        ) + seq![10u8]);
                        assert(self@ =~= spec_step(old(self)@).0);
                    }
                    false
                } else {
                    true
                }
            },
        }
    }

    /// Run the loaded program: refuse an image without the magic header
    /// (status 1), else start past the header and step until an
    /// instruction reports completion (status 0). The interpreter carries
    /// a step budget of 2^64 - 1; a program still running when it is spent
    /// stops where it stands with status 2 (no realizable execution
    /// reaches that many steps).
    pub fn run(&mut self) -> (r: u32)
        ensures
            !spec_header_ok(old(self)@.program) ==> r == 1 && final(self)@ == old(self)@,
            spec_header_ok(old(self)@.program) ==> ({
                let start = VmModel { pc: 64, ..old(self)@ };
                ||| (r == 0 && exists|n: nat|
                    1 <= n <= u64::MAX && #[trigger] iterate(start, n) == final(self)@
                        && spec_step(iterate(start, (n - 1) as nat)).1)
                ||| (r == 2 && final(self)@ == iterate(start, u64::MAX as nat))
            }),
    {
        if !self.verify_header() {
            return 1;
        }
        self.pc = 64;
        let ghost start = self@;
        let ghost mut n: nat = 0;
        let mut steps_left: u64 = u64::MAX;
        let mut is_done = false;
        while !is_done && steps_left > 0
            invariant
                n + steps_left == u64::MAX as nat,
                !is_done ==> self@ == iterate(start, n),
                is_done ==> n > 0 && self@ == iterate(start, n) && spec_step(
                    iterate(start, (n - 1) as nat),
                ).1,
            decreases steps_left,
        {
            is_done = self.execute_instruction();
            steps_left -= 1;
            proof {
                n = n + 1;
                assert(iterate(start, n) == spec_step(iterate(start, (n - 1) as nat)).0);
            }
        }
        if is_done {
            0
        } else {
            2
        }
    }

    /// Execute exactly one instruction.
    pub fn run_once(&mut self)
        ensures
            final(self)@ == spec_step(old(self)@).0,
    {
        self.execute_instruction();
    }
}


// ---------------------------------------------------------------------------
// Hex entry
// ---------------------------------------------------------------------------

/// The value of one hex digit byte, or a negative marker for any other
/// byte.
pub open spec fn hex_val(b: u8) -> int {
    if 48 <= b <= 57 {
        b - 48
    } else if 97 <= b <= 102 {
        b - 87
    } else if 65 <= b <= 70 {
        b - 55
    } else {
        -1
    }
}

/// Whether a byte run is one or more hex digits.
pub open spec fn hex_digits_ok(t: Seq<u8>) -> bool {
    t.len() > 0 && forall|j: int| 0 <= j < t.len() ==> hex_val(#[trigger] t[j]) >= 0
}

/// The value of a run of hex digit bytes, most significant first.
pub open spec fn hex_run_val(t: Seq<u8>) -> int
    decreases t.len(),
{
    if t.len() == 0 {
        0
    } else {
        hex_run_val(t.drop_last()) * 16 + hex_val(t.last())
    }
}

/// A valid hex run's value is nonnegative.
pub proof fn lemma_hex_run_nonneg(t: Seq<u8>)
    requires
        forall|j: int| 0 <= j < t.len() ==> hex_val(#[trigger] t[j]) >= 0,
    ensures
        hex_run_val(t) >= 0,
    decreases t.len(),
{
    if t.len() > 0 {
        lemma_hex_run_nonneg(t.drop_last());
    }
}

/// Dropping trailing digits never increases a valid hex run's value.
pub proof fn lemma_hex_run_prefix(t: Seq<u8>, k: int)
    requires
        forall|j: int| 0 <= j < t.len() ==> hex_val(#[trigger] t[j]) >= 0,
        0 <= k <= t.len(),
    ensures
        hex_run_val(t.take(k)) <= hex_run_val(t),
    decreases t.len() - k,
{
    if k < t.len() {
        lemma_hex_run_prefix(t, k + 1);
        assert(t.take(k + 1).drop_last() =~= t.take(k));
        lemma_hex_run_nonneg(t.take(k));
    } else {
        assert(t.take(k) =~= t);
    }
}

/// The byte one whitespace-separated hex token denotes: an optional `+`,
/// then hex digits whose value fits a byte.
pub open spec fn spec_hex_byte(t: Seq<u8>) -> Option<u8> {
    let body = if t.len() > 0 && t[0] == 43 {
        t.skip(1)
    } else {
        t
    };
    if hex_digits_ok(body) && hex_run_val(body) <= 255 {
        Some(hex_run_val(body) as u8)
    } else {
        None
    }
}

/// The first position at or after `i` holding a space, or the end.
pub open spec fn space_end(s: Seq<u8>, i: int) -> int
    decreases s.len() - i,
    when 0 <= i <= s.len()
{
    if i == s.len() {
        i
    } else if s[i] == 32 {
        i
    } else {
        space_end(s, i + 1)
    }
}

/// `space_end` stays within bounds, passes no space, and stops at one if it
/// stops short of the end.
pub proof fn lemma_space_end(s: Seq<u8>, i: int)
    requires
        0 <= i <= s.len(),
    ensures
        i <= space_end(s, i) <= s.len(),
        forall|j: int| i <= j < space_end(s, i) ==> s[j] != 32,
        space_end(s, i) < s.len() ==> s[space_end(s, i)] == 32,
    decreases s.len() - i,
{
    if i < s.len() && s[i] != 32 {
        lemma_space_end(s, i + 1);
    }
}

/// The bytes a whole line of space-separated hex tokens denotes, or
/// nothing when some token is ill-formed.
pub open spec fn spec_parse_hex_from(s: Seq<u8>, i: int) -> Option<Seq<u8>>
    decreases s.len() - i,
    when 0 <= i <= s.len()
    via spec_parse_hex_from_decreases
{
    let e = space_end(s, i);
    match spec_hex_byte(s.subrange(i, e)) {
        None => None,
        Some(b) => {
            if e == s.len() {
                Some(seq![b])
            } else if e < s.len() {
                match spec_parse_hex_from(s, e + 1) {
                    None => None,
                    Some(rest) => Some(seq![b] + rest),
                }
            } else {
                None
            }
        },
    }
}

#[via_fn]
proof fn spec_parse_hex_from_decreases(s: Seq<u8>, i: int) {
    lemma_space_end(s, i);
}

/// What a line of hex tokens denotes.
pub open spec fn spec_parse_hex(s: Seq<u8>) -> Option<Seq<u8>> {
    spec_parse_hex_from(s, 0)
}

impl VM {
    /// One hex token's byte value: `s[d..e]`, an optional `+` then hex
    /// digits, valued at most 255.
    fn parse_hex_token(s: &[u8], d: usize, e: usize) -> (r: Option<u8>)
        requires
            d <= e <= s@.len(),
        ensures
            r == spec_hex_byte(s@.subrange(d as int, e as int)),
    {
        let ghost tok = s@.subrange(d as int, e as int);
        let start = if d < e && s[d] == 43 {
            d + 1
        } else {
            d
        };
        let ghost body = if tok.len() > 0 && tok[0] == 43 {
            tok.skip(1)
        } else {
            tok
        };
        proof {
            assert(body =~= s@.subrange(start as int, e as int));
        }
        if start == e {
            return None;
        }
        let mut val: u32 = 0;
        let mut j = start;
        while j < e
            invariant
                d <= start <= j <= e <= s@.len(),
                tok == s@.subrange(d as int, e as int),
                body == (if tok.len() > 0 && tok[0] == 43 {
                    tok.skip(1)
                } else {
                    tok
                }),
                body == s@.subrange(start as int, e as int),
                start < e,
                forall|k: int| start <= k < j ==> hex_val(#[trigger] s@[k]) >= 0,
                val <= 255,
                val as int == hex_run_val(s@.subrange(start as int, j as int)),
            decreases e - j,
        {
            let b = s[j];
            let d_val: u32 = if 48 <= b && b <= 57 {
                (b - 48) as u32
            } else if 97 <= b && b <= 102 {
                (b - 87) as u32
            } else if 65 <= b && b <= 70 {
                (b - 55) as u32
            } else {
                proof {
                    assert(body[j - start] == s@[j as int]);
                    assert(!hex_digits_ok(body));
                }
                return None;
            };
            proof {
                assert(s@.subrange(start as int, j as int + 1).drop_last() =~= s@.subrange(
                    start as int,
                    j as int,
                ));
                assert(s@.subrange(start as int, j as int + 1).last() == s@[j as int]);
            }
            val = val * 16 + d_val;
            j += 1;
            if val > 255 {
                proof {
                    assert forall|k: int| 0 <= k < body.len() implies hex_val(
                        #[trigger] body[k],
                    ) >= 0 || !hex_digits_ok(body) by {
                        assert(body[k] == s@[start + k]);
                    }
                    if hex_digits_ok(body) {
                        assert(body.take(j - start) =~= s@.subrange(start as int, j as int));
                        lemma_hex_run_prefix(body, j - start);
                    }
                }
                return None;
            }
        }
        proof {
            assert(s@.subrange(start as int, j as int) =~= body);
            assert(hex_digits_ok(body)) by {
                assert forall|k: int| 0 <= k < body.len() implies hex_val(
                    #[trigger] body[k],
                ) >= 0 by {
                    assert(body[k] == s@[start + k]);
                }
            }
        }
        Some(val as u8)
    }

    /// Parse a line of space-separated hex byte tokens, as the interactive
    /// shell enters raw program bytes. Yields nothing when some token is
    /// not a hex byte.
    pub fn parse_hex(&mut self, i: &str) -> (r: Option<Vec<u8>>)
        ensures
            final(self)@ == old(self)@,
            r matches Some(v) ==> spec_parse_hex(i.spec_bytes()) == Some(v@),
            r is None ==> spec_parse_hex(i.spec_bytes()) is None,
    {
        let bytes = i.as_bytes();
        let ghost b = bytes@;
        let mut results: Vec<u8> = Vec::new();
        let mut pos: usize = 0;
        let mut done = false;
        while !done
            invariant
                b == i.spec_bytes(),
                bytes@ == b,
                0 <= pos <= b.len(),
                done ==> spec_parse_hex_from(b, 0) == Some(results@),
                !done ==> (spec_parse_hex_from(b, pos as int) matches Some(t)
                    ==> spec_parse_hex_from(b, 0) == Some(results@ + t)),
                !done ==> (spec_parse_hex_from(b, pos as int) is None ==> spec_parse_hex_from(
                    b,
                    0,
                ) is None),
            decreases (b.len() - pos) + (if done { 0int } else { 1int }),
        {
            let mut e = pos;
            while e < bytes.len() && bytes[e] != 32
                invariant
                    pos <= e <= b.len(),
                    bytes@ == b,
                    space_end(b, pos as int) == space_end(b, e as int),
                decreases b.len() - e,
            {
                e += 1;
            }
            match Self::parse_hex_token(bytes, pos, e) {
                None => {
                    proof {
                        assert(spec_parse_hex_from(b, pos as int) is None);
                    }
                    return None;
                },
                Some(byte) => {
                    let ghost pre = results@;
                    results.push(byte);
                    proof {
                        if e < b.len() {
                            assert(spec_parse_hex_from(b, pos as int) == (
                            match spec_parse_hex_from(b, e as int + 1) {
                                None => None::<Seq<u8>>,
                                Some(rest) => Some(seq![byte] + rest),
                            }));
                        } else {
                            assert(spec_parse_hex_from(b, pos as int) == Some(seq![byte]));
                        }
                        assert(results@ =~= pre.push(byte));
                    }
                    if e == bytes.len() {
                        done = true;
                        proof {
                            assert(pre + seq![byte] =~= results@);
                            assert(spec_parse_hex_from(b, 0) == Some(results@));
                        }
                    } else {
                        pos = e + 1;
                        proof {
                            match spec_parse_hex_from(b, pos as int) {
                                Some(t) => {
                                    assert(pre + (seq![byte] + t) =~= results@ + t);
                                },
                                None => {},
                            }
                        }
                    }
                },
            }
        }
        Some(results)
    }

    /// Parse a line of hex byte tokens and append them to the program; an
    /// ill-formed line leaves the machine untouched.
    pub fn add_hexes(&mut self, i: &str)
        ensures
            spec_parse_hex(i.spec_bytes()) matches Some(bs) ==> final(self)@ == (VmModel {
                program: old(self)@.program + bs,
                ..old(self)@
            }),
            spec_parse_hex(i.spec_bytes()) is None ==> final(self)@ == old(self)@,
    {
        let result = self.parse_hex(i);
        match result {
            Some(bytes) => {
                self.add_bytes(bytes);
            },
            None => {},
        }
    }
}


} // verus!
