use iridium::assembler::{Assembler, AssemblerError, PIE_HEADER_LENGTH};
use iridium::symbols::{Symbol, SymbolTable, SymbolType};
use iridium::vm::VM;

#[test]
fn test_symbol_table() {
    let mut sym = SymbolTable::new();
    let new_symbol = Symbol::new("test".to_string(), SymbolType::Label, 12);
    sym.add_symbol(new_symbol);
    assert_eq!(sym.symbols.len(), 1);
    let v = sym.symbol_value("test");
    assert_eq!(true, v.is_some());
    let v = v.unwrap();
    assert_eq!(v, 12);
    let v = sym.symbol_value("does_not_exist");
    assert_eq!(v.is_some(), false);
}

#[test]
fn test_assemble_program() {
    let mut assembler = Assembler::new();
    let test_string = "
            .data
            .code
            load $0 #100
            load $1 #1
            load $2 #0
            test: inc $0
            neq $0 $2
            ";
    let program = assembler.assemble(test_string).unwrap();
    let mut vm = VM::new();
    // five opcode lines, one 4-byte frame each
    assert_eq!(program.len(), 20 + PIE_HEADER_LENGTH);
    vm.add_bytes(program);
    assert_eq!(vm.program.len(), 20 + PIE_HEADER_LENGTH);
}

#[test]
fn test_write_pie_header() {
    let assembler = Assembler::new();
    let header = assembler.write_pie_header();
    assert_eq!(header.len(), PIE_HEADER_LENGTH);
}

#[test]
fn test_symbol_offset_rewrite() {
    let mut sym = SymbolTable::new();
    sym.add_symbol(Symbol::new("a".to_string(), SymbolType::Label, 68));
    assert!(sym.set_symbol_offset("a", 0));
    assert_eq!(sym.symbol_value("a"), Some(0));
    assert!(!sym.set_symbol_offset("missing", 3));
}

#[test]
fn test_duplicate_label_rejected() {
    let mut assembler = Assembler::new();
    let errors = assembler
        .assemble(".data\n.code\n a: hlt\n a: hlt\n")
        .unwrap_err();
    assert!(errors.contains(&AssemblerError::SymbolAlreadyDeclared {
        name: "a".to_string()
    }));
}

#[test]
fn test_label_outside_section_rejected() {
    let mut assembler = Assembler::new();
    let errors = assembler
        .assemble("early: load $0 #1\n.data\n.code\n hlt\n")
        .unwrap_err();
    assert!(errors.contains(&AssemblerError::NoSegmentDeclarationFound { instruction: 0 }));
}

#[test]
fn test_unknown_directive_rejected() {
    let mut assembler = Assembler::new();
    let errors = assembler.assemble(".data\n.code\n.strange $1\n").unwrap_err();
    assert!(errors.contains(&AssemblerError::UnknownDirectiveFound {
        directive: "strange".to_string()
    }));
}

#[test]
fn test_string_without_label_rejected() {
    let mut assembler = Assembler::new();
    let errors = assembler.assemble(".data\n.asciiz 'x'\n.code\n hlt\n").unwrap_err();
    assert!(errors
        .contains(&AssemblerError::StringConstantDeclaredWithoutLabel { instruction: 1 }));
}

#[test]
fn test_parse_failure_is_parse_error() {
    let mut assembler = Assembler::new();
    let errors = assembler.assemble(".data\n.code\n load $0 ???\n").unwrap_err();
    assert_eq!(errors.len(), 1);
    assert!(matches!(errors[0], AssemblerError::ParseError { .. }));
}

#[test]
fn test_code_label_offsets() {
    let mut assembler = Assembler::new();
    // line index 2 and 3 carry the labels
    assembler.assemble(".data\n.code\n one: hlt\n two: hlt\n").unwrap();
    assert_eq!(assembler.symbols.symbol_value("one"), Some(2 * 4 + 64));
    assert_eq!(assembler.symbols.symbol_value("two"), Some(3 * 4 + 64));
}
