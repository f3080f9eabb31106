//! The opcode set of the virtual machine and its two encodings: the single
//! byte that heads every 4-byte instruction frame, and the textual mnemonic
//! accepted by the assembler.

use vstd::prelude::*;

verus! {

use vstd::string::StringSliceAdditionalSpecFns;

/// The opcodes of the virtual machine. `IGL` stands for every byte value
/// that no other opcode claims; executing it terminates the run.
#[derive(Copy, Clone, Debug, PartialEq, Eq, Structural)]
pub enum Opcode {
    HLT,
    LOAD,
    ADD,
    SUB,
    MUL,
    DIV,
    JMP,
    JMPF,
    JMPB,
    EQ,
    NEQ,
    GT,
    LT,
    GTQ,
    LTQ,
    JEQ,
    IGL,
    ALOC,
    INC,
    DEC,
    PRTS,
}

/// The opcode that a program byte decodes to.
pub open spec fn opcode_of_byte(b: u8) -> Opcode {
    if b == 0 {
        Opcode::HLT
    } else if b == 1 {
        Opcode::LOAD
    } else if b == 2 {
        Opcode::ADD
    } else if b == 3 {
        Opcode::SUB
    } else if b == 4 {
        Opcode::MUL
    } else if b == 5 {
        Opcode::DIV
    } else if b == 6 {
        Opcode::JMP
    } else if b == 7 {
        Opcode::JMPF
    } else if b == 8 {
        Opcode::JMPB
    } else if b == 9 {
        Opcode::EQ
    } else if b == 10 {
        Opcode::NEQ
    } else if b == 11 {
        Opcode::GT
    } else if b == 12 {
        Opcode::LT
    } else if b == 13 {
        Opcode::GTQ
    } else if b == 14 {
        Opcode::LTQ
    } else if b == 15 {
        Opcode::JEQ
    } else if b == 16 {
        Opcode::ALOC
    } else if b == 17 {
        Opcode::INC
    } else if b == 18 {
        Opcode::DEC
    } else if b == 19 {
        Opcode::PRTS
    } else {
        Opcode::IGL
    }
}

/// The byte the assembler emits for an opcode. `IGL` gets the first byte
/// value that decodes to no other opcode.
pub open spec fn opcode_to_byte(o: Opcode) -> u8 {
    match o {
        Opcode::HLT => 0,
        Opcode::LOAD => 1,
        Opcode::ADD => 2,
        Opcode::SUB => 3,
        Opcode::MUL => 4,
        Opcode::DIV => 5,
        Opcode::JMP => 6,
        Opcode::JMPF => 7,
        Opcode::JMPB => 8,
        Opcode::EQ => 9,
        Opcode::NEQ => 10,
        Opcode::GT => 11,
        Opcode::LT => 12,
        Opcode::GTQ => 13,
        Opcode::LTQ => 14,
        Opcode::JEQ => 15,
        Opcode::ALOC => 16,
        Opcode::INC => 17,
        Opcode::DEC => 18,
        Opcode::PRTS => 19,
        Opcode::IGL => 20,
    }
}

/// Decoding the byte emitted for an opcode yields that opcode back, so a
/// code body can be disassembled opcode by opcode.
pub proof fn lemma_opcode_byte_roundtrip(o: Opcode)
    ensures
        opcode_of_byte(opcode_to_byte(o)) == o,
{
}

/// Lower-casing of a single ASCII byte; other bytes pass through.
pub open spec fn to_lower(b: u8) -> u8 {
    if 65 <= b <= 90 {
        (b + 32) as u8
    } else {
        b
    }
}

/// A byte sequence, lower-cased byte for byte.
pub open spec fn lower_seq(s: Seq<u8>) -> Seq<u8> {
    Seq::new(s.len(), |i: int| to_lower(s[i]))
}

/// The opcode that a mnemonic (given in lower case) names, or `IGL` when it
/// names none.
pub open spec fn opcode_of_lower_mnemonic(s: Seq<u8>) -> Opcode {
    if s == seq![108u8, 111u8, 97u8, 100u8] {
        Opcode::LOAD
    } else if s == seq![97u8, 100u8, 100u8] {
        Opcode::ADD
    } else if s == seq![115u8, 117u8, 98u8] {
        Opcode::SUB
    } else if s == seq![109u8, 117u8, 108u8] {
        Opcode::MUL
    } else if s == seq![100u8, 105u8, 118u8] {
        Opcode::DIV
    } else if s == seq![104u8, 108u8, 116u8] {
        Opcode::HLT
    } else if s == seq![106u8, 109u8, 112u8] {
        Opcode::JMP
    } else if s == seq![106u8, 109u8, 112u8, 102u8] {
        Opcode::JMPF
    } else if s == seq![106u8, 109u8, 112u8, 98u8] {
        Opcode::JMPB
    } else if s == seq![101u8, 113u8] {
        Opcode::EQ
    } else if s == seq![110u8, 101u8, 113u8] {
        Opcode::NEQ
    } else if s == seq![103u8, 116u8, 101u8] {
        Opcode::GTQ
    } else if s == seq![103u8, 116u8] {
        Opcode::GT
    } else if s == seq![108u8, 116u8, 101u8] {
        Opcode::LTQ
    } else if s == seq![108u8, 116u8] {
        Opcode::LT
    } else if s == seq![97u8, 108u8, 111u8, 99u8] {
        Opcode::ALOC
    } else if s == seq![105u8, 110u8, 99u8] {
        Opcode::INC
    } else if s == seq![100u8, 101u8, 99u8] {
        Opcode::DEC
    } else if s == seq![112u8, 114u8, 116u8, 115u8] {
        Opcode::PRTS
    } else {
        Opcode::IGL
    }
}

/// The opcode a mnemonic names, matched case-insensitively.
pub open spec fn opcode_of_mnemonic(s: Seq<u8>) -> Opcode {
    opcode_of_lower_mnemonic(lower_seq(s))
}

impl Opcode {
    /// Decode a program byte.
    pub fn from_u8(b: u8) -> (o: Opcode)
        ensures
            o == opcode_of_byte(b),
    {
        if b == 0 {
            Opcode::HLT
        } else if b == 1 {
            Opcode::LOAD
        } else if b == 2 {
            Opcode::ADD
        } else if b == 3 {
            Opcode::SUB
        } else if b == 4 {
            Opcode::MUL
        } else if b == 5 {
            Opcode::DIV
        } else if b == 6 {
            Opcode::JMP
        } else if b == 7 {
            Opcode::JMPF
        } else if b == 8 {
            Opcode::JMPB
        } else if b == 9 {
            Opcode::EQ
        } else if b == 10 {
            Opcode::NEQ
        } else if b == 11 {
            Opcode::GT
        } else if b == 12 {
            Opcode::LT
        } else if b == 13 {
            Opcode::GTQ
        } else if b == 14 {
            Opcode::LTQ
        } else if b == 15 {
            Opcode::JEQ
        } else if b == 16 {
            Opcode::ALOC
        } else if b == 17 {
            Opcode::INC
        } else if b == 18 {
            Opcode::DEC
        } else if b == 19 {
            Opcode::PRTS
        } else {
            Opcode::IGL
        }
    }

    /// The byte that encodes this opcode in a bytecode image.
    pub fn to_u8(self) -> (b: u8)
        ensures
            b == opcode_to_byte(self),
    {
        match self {
            Opcode::HLT => 0,
            Opcode::LOAD => 1,
            Opcode::ADD => 2,
            Opcode::SUB => 3,
            Opcode::MUL => 4,
            Opcode::DIV => 5,
            Opcode::JMP => 6,
            Opcode::JMPF => 7,
            Opcode::JMPB => 8,
            Opcode::EQ => 9,
            Opcode::NEQ => 10,
            Opcode::GT => 11,
            Opcode::LT => 12,
            Opcode::GTQ => 13,
            Opcode::LTQ => 14,
            Opcode::JEQ => 15,
            Opcode::ALOC => 16,
            Opcode::INC => 17,
            Opcode::DEC => 18,
            Opcode::PRTS => 19,
            Opcode::IGL => 20,
        }
    }

    /// The opcode a mnemonic names, matched case-insensitively; an unknown
    /// mnemonic names the illegal opcode.
    pub fn from_mnemonic(s: &str) -> (o: Opcode)
        ensures
            o == opcode_of_mnemonic(s.spec_bytes()),
    {
        let bs = s.as_bytes();
        let mut low: Vec<u8> = Vec::new();
        let mut i: usize = 0;
        while i < bs.len()
            invariant
                0 <= i <= bs@.len(),
                low@.len() == i,
                forall|j: int| 0 <= j < i ==> low@[j] == to_lower(bs@[j]),
            decreases bs@.len() - i,
        {
            let b = bs[i];
            if 65 <= b && b <= 90 {
                low.push(b + 32);
            } else {
                low.push(b);
            }
            i += 1;
        }
        proof {
            assert(low@ =~= lower_seq(s.spec_bytes()));
        }
        opcode_of_lower_bytes(&low)
    }
}

/// The opcode named by an already lower-cased mnemonic.
fn opcode_of_lower_bytes(v: &Vec<u8>) -> (o: Opcode)
    ensures
        o == opcode_of_lower_mnemonic(v@),
{
    let o = if eq4(v, 108, 111, 97, 100) {
        Opcode::LOAD
    } else if eq3(v, 97, 100, 100) {
        Opcode::ADD
    } else if eq3(v, 115, 117, 98) {
        Opcode::SUB
    } else if eq3(v, 109, 117, 108) {
        Opcode::MUL
    } else if eq3(v, 100, 105, 118) {
        Opcode::DIV
    } else if eq3(v, 104, 108, 116) {
        Opcode::HLT
    } else if eq3(v, 106, 109, 112) {
        Opcode::JMP
    } else if eq4(v, 106, 109, 112, 102) {
        Opcode::JMPF
    } else if eq4(v, 106, 109, 112, 98) {
        Opcode::JMPB
    } else if eq2(v, 101, 113) {
        Opcode::EQ
    } else if eq3(v, 110, 101, 113) {
        Opcode::NEQ
    } else if eq3(v, 103, 116, 101) {
        Opcode::GTQ
    } else if eq2(v, 103, 116) {
        Opcode::GT
    } else if eq3(v, 108, 116, 101) {
        Opcode::LTQ
    } else if eq2(v, 108, 116) {
        Opcode::LT
    } else if eq4(v, 97, 108, 111, 99) {
        Opcode::ALOC
    } else if eq3(v, 105, 110, 99) {
        Opcode::INC
    } else if eq3(v, 100, 101, 99) {
        Opcode::DEC
    } else if eq4(v, 112, 114, 116, 115) {
        Opcode::PRTS
    } else {
        Opcode::IGL
    };
    o
}

/// Whether a byte vector is exactly the two given bytes.
fn eq2(v: &Vec<u8>, a: u8, b: u8) -> (r: bool)
    ensures
        r == (v@ == seq![a, b]),
{
    let r = v.len() == 2 && v[0] == a && v[1] == b;
    proof {
        if r {
            assert(v@ =~= seq![a, b]);
        } else {
            assert(v@ != seq![a, b]) by {
                if v@ == seq![a, b] {
                    assert(v@.len() == 2);
                    assert(v@[0] == a && v@[1] == b);
                }
            }
        }
    }
    r
}

/// Whether a byte vector is exactly the three given bytes.
fn eq3(v: &Vec<u8>, a: u8, b: u8, c: u8) -> (r: bool)
    ensures
        r == (v@ == seq![a, b, c]),
{
    let r = v.len() == 3 && v[0] == a && v[1] == b && v[2] == c;
    proof {
        if r {
            assert(v@ =~= seq![a, b, c]);
        } else {
            assert(v@ != seq![a, b, c]) by {
                if v@ == seq![a, b, c] {
                    assert(v@.len() == 3);
                    assert(v@[0] == a && v@[1] == b && v@[2] == c);
                }
            }
        }
    }
    r
}

/// Whether a byte vector is exactly the four given bytes.
fn eq4(v: &Vec<u8>, a: u8, b: u8, c: u8, d: u8) -> (r: bool)
    ensures
        r == (v@ == seq![a, b, c, d]),
{
    let r = v.len() == 4 && v[0] == a && v[1] == b && v[2] == c && v[3] == d;
    proof {
        if r {
            assert(v@ =~= seq![a, b, c, d]);
        } else {
            assert(v@ != seq![a, b, c, d]) by {
                if v@ == seq![a, b, c, d] {
                    assert(v@.len() == 4);
                    assert(v@[0] == a && v@[1] == b && v@[2] == c && v@[3] == d);
                }
            }
        }
    }
    r
}

/// A decoded instruction: just its opcode, the operand bytes having been
/// consumed from the program stream.
#[derive(Debug, PartialEq, Eq, Structural)]
pub struct Instruction {
    pub opcode: Opcode,
}

impl Instruction {
    pub fn new(opcode: Opcode) -> (r: Instruction)
        ensures
            r.opcode == opcode,
    {
        Instruction { opcode }
    }
}

} // verus!
