use iridium::instruction::{Instruction, Opcode};

#[test]
fn test_create_hlt() {
    let opcode = Opcode::HLT;
    assert_eq!(opcode, Opcode::HLT);
}

#[test]
fn test_create_instruction() {
    let instruction = Instruction::new(Opcode::HLT);
    assert_eq!(instruction.opcode, Opcode::HLT);
}

#[test]
fn test_str_to_opcode() {
    let opcode = Opcode::from_mnemonic("load");
    assert_eq!(opcode, Opcode::LOAD);
    let opcode = Opcode::from_mnemonic("illegal");
    assert_eq!(opcode, Opcode::IGL);
}

#[test]
fn test_mnemonics_case_insensitive() {
    assert_eq!(Opcode::from_mnemonic("LOAD"), Opcode::LOAD);
    assert_eq!(Opcode::from_mnemonic("Hlt"), Opcode::HLT);
    assert_eq!(Opcode::from_mnemonic("gte"), Opcode::GTQ);
    assert_eq!(Opcode::from_mnemonic("lte"), Opcode::LTQ);
    assert_eq!(Opcode::from_mnemonic("prts"), Opcode::PRTS);
}

#[test]
fn test_byte_roundtrip() {
    let all = [
        Opcode::HLT,
        Opcode::LOAD,
        Opcode::ADD,
        Opcode::SUB,
        Opcode::MUL,
        Opcode::DIV,
        Opcode::JMP,
        Opcode::JMPF,
        Opcode::JMPB,
        Opcode::EQ,
        Opcode::NEQ,
        Opcode::GT,
        Opcode::LT,
        Opcode::GTQ,
        Opcode::LTQ,
        Opcode::JEQ,
        Opcode::ALOC,
        Opcode::INC,
        Opcode::DEC,
        Opcode::PRTS,
        Opcode::IGL,
    ];
    for op in all {
        assert_eq!(Opcode::from_u8(op.to_u8()), op);
    }
    assert_eq!(Opcode::from_u8(16), Opcode::ALOC);
    assert_eq!(Opcode::from_u8(19), Opcode::PRTS);
    assert_eq!(Opcode::from_u8(200), Opcode::IGL);
}
