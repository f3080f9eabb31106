use iridium::instruction::Opcode;
use iridium::parser::{parse_program, AssemblerInstruction};
use iridium::symbols::SymbolTable;
use iridium::tokens::Token;

fn parse_one(src: &str) -> AssemblerInstruction {
    let program = parse_program(src).unwrap();
    assert_eq!(program.instructions.len(), 1);
    program.instructions.into_iter().next().unwrap()
}

#[test]
fn test_parse_directive_declaration() {
    let ins = parse_one(".directive");
    assert_eq!(
        ins.directive,
        Some(Token::Directive {
            name: "directive".to_string()
        })
    );
}

#[test]
fn test_parse_directive_combined() {
    let ins = parse_one("label: .directive $1 $2 $3");
    assert_eq!(
        ins,
        AssemblerInstruction {
            opcode: None,
            operand1: Some(Token::Register { reg_num: 1 }),
            operand2: Some(Token::Register { reg_num: 2 }),
            operand3: Some(Token::Register { reg_num: 3 }),
            directive: Some(Token::Directive {
                name: "directive".to_string()
            }),
            label: Some(Token::LabelDeclaration {
                name: "label".to_string()
            }),
        }
    );
    let ins = parse_one(".directive $1");
    assert_eq!(
        ins,
        AssemblerInstruction {
            opcode: None,
            operand1: Some(Token::Register { reg_num: 1 }),
            operand2: None,
            operand3: None,
            directive: Some(Token::Directive {
                name: "directive".to_string()
            }),
            label: None,
        }
    );
}

#[test]
fn test_parse_directive() {
    let ins = parse_one(".directive #1");
    assert_eq!(
        ins,
        AssemblerInstruction {
            opcode: None,
            operand1: Some(Token::IntegerOperand { value: 1 }),
            operand2: None,
            operand3: None,
            directive: Some(Token::Directive {
                name: "directive".to_string()
            }),
            label: None,
        }
    );
}

#[test]
fn test_string_directive() {
    let ins = parse_one("test: .asciiz 'Hello'");
    let correct_instruction = AssemblerInstruction {
        opcode: None,
        label: Some(Token::LabelDeclaration {
            name: "test".to_string(),
        }),
        directive: Some(Token::Directive {
            name: "asciiz".to_string(),
        }),
        operand1: Some(Token::IrString {
            name: "Hello".to_string(),
        }),
        operand2: None,
        operand3: None,
    };
    assert_eq!(ins, correct_instruction);
}

#[test]
fn test_parse_instruction_form_one() {
    let ins = parse_one("load $0 #100\n");
    assert_eq!(
        ins,
        AssemblerInstruction {
            opcode: Some(Token::Op { code: Opcode::LOAD }),
            operand1: Some(Token::Register { reg_num: 0 }),
            operand2: Some(Token::IntegerOperand { value: 100 }),
            operand3: None,
            directive: None,
            label: None,
        }
    );
}

#[test]
fn test_parse_instruction_form_two() {
    let ins = parse_one("HLT");
    assert_eq!(
        ins,
        AssemblerInstruction {
            opcode: Some(Token::Op { code: Opcode::HLT }),
            operand1: None,
            operand2: None,
            operand3: None,
            directive: None,
            label: None,
        }
    );
}

#[test]
fn test_parse_instruction_form_three() {
    let ins = parse_one("add $1 $2 $3");
    assert_eq!(
        ins,
        AssemblerInstruction {
            opcode: Some(Token::Op { code: Opcode::ADD }),
            operand1: Some(Token::Register { reg_num: 1 }),
            operand2: Some(Token::Register { reg_num: 2 }),
            operand3: Some(Token::Register { reg_num: 3 }),
            directive: None,
            label: None,
        }
    );
}

#[test]
fn test_parse_instruction() {
    let ins = parse_one("hlt");
    assert_eq!(
        ins,
        AssemblerInstruction {
            opcode: Some(Token::Op { code: Opcode::HLT }),
            operand1: None,
            operand2: None,
            operand3: None,
            directive: None,
            label: None,
        }
    );

    let ins = parse_one("load $1 #100");
    assert_eq!(
        ins,
        AssemblerInstruction {
            opcode: Some(Token::Op { code: Opcode::LOAD }),
            operand1: Some(Token::Register { reg_num: 1 }),
            operand2: Some(Token::IntegerOperand { value: 100 }),
            operand3: None,
            directive: None,
            label: None,
        }
    );

    let ins = parse_one("add $1 $2 $3");
    assert_eq!(
        ins,
        AssemblerInstruction {
            opcode: Some(Token::Op { code: Opcode::ADD }),
            operand1: Some(Token::Register { reg_num: 1 }),
            operand2: Some(Token::Register { reg_num: 2 }),
            operand3: Some(Token::Register { reg_num: 3 }),
            directive: None,
            label: None,
        }
    );
}

#[test]
fn test_parse_instruction_combined() {
    let ins = parse_one("label: load $1 $2 $3");
    assert_eq!(
        ins,
        AssemblerInstruction {
            opcode: Some(Token::Op { code: Opcode::LOAD }),
            operand1: Some(Token::Register { reg_num: 1 }),
            operand2: Some(Token::Register { reg_num: 2 }),
            operand3: Some(Token::Register { reg_num: 3 }),
            directive: None,
            label: Some(Token::LabelDeclaration {
                name: "label".to_string()
            }),
        }
    );

    let ins = parse_one("jmp @label");
    assert_eq!(
        ins,
        AssemblerInstruction {
            opcode: Some(Token::Op { code: Opcode::JMP }),
            operand1: Some(Token::LabelUsage {
                name: "label".to_string()
            }),
            operand2: None,
            operand3: None,
            directive: None,
            label: None,
        }
    );

    let ins = parse_one(".directive");
    assert_eq!(
        ins,
        AssemblerInstruction {
            opcode: None,
            operand1: None,
            operand2: None,
            operand3: None,
            directive: Some(Token::Directive {
                name: "directive".to_string()
            }),
            label: None,
        }
    );
    assert_eq!(ins.directive_name(), Some("directive".to_string()));

    let ins = parse_one("label: .asciiz 'string'");
    assert_eq!(
        ins,
        AssemblerInstruction {
            opcode: None,
            operand1: Some(Token::IrString {
                name: "string".to_string()
            }),
            operand2: None,
            operand3: None,
            directive: Some(Token::Directive {
                name: "asciiz".to_string()
            }),
            label: Some(Token::LabelDeclaration {
                name: "label".to_string()
            }),
        }
    );
    assert_eq!(ins.label_name(), Some("label".to_string()));
}

#[test]
fn test_parse_integer() {
    let ins = parse_one("load #10");
    assert_eq!(ins.operand1, Some(Token::IntegerOperand { value: 10 }));
    // without the # the token is no integer operand
    let result = parse_program("load 10");
    assert_eq!(result.is_ok(), false);
}

#[test]
fn test_opcode_load() {
    let opcode = Opcode::from_mnemonic("load");
    assert_eq!(opcode, Opcode::LOAD);
    // a scrambled mnemonic names no opcode
    let opcode = Opcode::from_mnemonic("aold");
    assert_eq!(opcode, Opcode::IGL);
}

#[test]
fn test_parse_register() {
    let result = parse_program("jmp $0");
    assert_eq!(result.is_ok(), true);
    let result = parse_program("jmp 0");
    assert_eq!(result.is_ok(), false);
    let result = parse_program("jmp $a");
    assert_eq!(result.is_ok(), false);
}

#[test]
fn test_operand() {
    let ins = parse_one("load #10");
    assert_eq!(ins.operand1, Some(Token::IntegerOperand { value: 10 }));

    let ins = parse_one("load $10");
    assert_eq!(ins.operand1, Some(Token::Register { reg_num: 10 }));
}

#[test]
fn test_parse_program() {
    let result = parse_program("load $0 #100\n");
    assert_eq!(result.is_ok(), true);
    let p = result.unwrap();
    assert_eq!(1, p.instructions.len());
}

#[test]
fn test_program_to_bytes() {
    let result = parse_program("load $0 #100\n");
    assert_eq!(result.is_ok(), true);
    let program = result.unwrap();
    let bytecode = program.to_bytes(&SymbolTable::new());
    assert_eq!(bytecode.len(), 4);
    println!("{:?}", bytecode);
}

#[test]
fn test_register_out_of_range() {
    assert!(parse_program("load $32 #1").is_err());
    assert!(parse_program("load $31 #1").is_ok());
}

#[test]
fn test_integer_overflow_rejected() {
    assert!(parse_program("load $0 #2147483647").is_ok());
    assert!(parse_program("load $0 #2147483648").is_err());
}

#[test]
fn test_four_operands_rejected() {
    assert!(parse_program("add $1 $2 $3 $4").is_err());
}

#[test]
fn test_bare_label_rejected() {
    assert!(parse_program("label:").is_err());
}

#[test]
fn test_unterminated_string_rejected() {
    assert!(parse_program("a: .asciiz 'oops").is_err());
}

#[test]
fn test_blank_lines_skipped() {
    let p = parse_program("\n   \nhlt\n\n").unwrap();
    assert_eq!(p.instructions.len(), 1);
}

#[test]
fn test_label_use_emits_offset() {
    let mut symbols = SymbolTable::new();
    symbols.add_symbol(iridium::symbols::Symbol::new(
        "spot".to_string(),
        iridium::symbols::SymbolType::Label,
        0x1234,
    ));
    let p = parse_program("jmp @spot").unwrap();
    let bytecode = p.to_bytes(&symbols);
    // opcode, then the offset big-endian, then the pad
    assert_eq!(bytecode, vec![6, 0x12, 0x34, 0]);
}
