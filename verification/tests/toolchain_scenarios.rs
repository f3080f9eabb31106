use iridium::assembler::{Assembler, AssemblerError, PIE_HEADER_LENGTH};
use iridium::repl::REPL;
use iridium::scheduler::Scheduler;
use iridium::vm::VM;

fn assemble_and_load(src: &str) -> (Assembler, VM) {
    let mut assembler = Assembler::new();
    let program = assembler.assemble(src).unwrap();
    let mut vm = VM::new();
    vm.add_bytes(program);
    vm.ro_data = assembler.ro.clone();
    (assembler, vm)
}

#[test]
fn test_scenario_load_and_halt() {
    let (_, mut vm) = assemble_and_load(". data\n.code\n load $0 #500\n hlt");
    // two opcode lines: one frame each, after the 64-byte header
    assert_eq!(vm.program.len(), 64 + 8);
    assert_eq!(vm.run(), 0);
    assert_eq!(vm.registers[0], 500);
    // the halt consumed its opcode byte at offset 68
    assert_eq!(vm.pc, 69);
}

#[test]
fn test_scenario_division() {
    let (_, mut vm) =
        assemble_and_load(".data\n.code\n load $0 #10\n load $1 #3\n div $0 $1 $2\n hlt");
    assert_eq!(vm.run(), 0);
    assert_eq!(vm.registers[2], 3);
    assert_eq!(vm.remainder, 1);
}

#[test]
fn test_scenario_label_and_loop_body() {
    let mut assembler = Assembler::new();
    let program = assembler
        .assemble(".data\n.code\n load $0 #1\n load $2 #0\n test: inc $0\n neq $0 $2\n")
        .unwrap();
    // four opcode lines, one 4-byte frame each
    assert_eq!(program.len() - PIE_HEADER_LENGTH, 16);
    assert_eq!(assembler.symbols.symbol_value("test"), Some(4 * 4 + 64));
}

#[test]
fn test_scenario_print_string() {
    let (assembler, mut vm) = assemble_and_load(".data\n hello: .asciiz 'Hi'\n.code\n prts #0\n hlt");
    assert_eq!(assembler.ro, vec![0x48, 0x69, 0x00]);
    assert_eq!(assembler.symbols.symbol_value("hello"), Some(0));
    assert_eq!(vm.run(), 0);
    assert_eq!(vm.output, b"Hi\n".to_vec());
}

#[test]
fn test_scenario_equal_flag() {
    let (_, mut vm) = assemble_and_load(".data\n.code\n load $0 #1\n load $1 #1\n eq $0 $1\n hlt");
    assert_eq!(vm.run(), 0);
    assert_eq!(vm.equal_flag, true);
}

#[test]
fn test_scenario_missing_sections() {
    let mut assembler = Assembler::new();
    let errors = assembler.assemble(".code\n load $0 #100\n hlt\n").unwrap_err();
    assert_eq!(errors, vec![AssemblerError::InsufficientSections]);

    let mut assembler = Assembler::new();
    let errors = assembler.assemble(".data\n load $0 #100\n hlt\n").unwrap_err();
    assert_eq!(errors, vec![AssemblerError::InsufficientSections]);
}

#[test]
fn test_scenario_case_insensitive_opcodes() {
    let (_, mut vm) = assemble_and_load(".data\n.code\n LOAD $0 #5\n Hlt");
    assert_eq!(vm.run(), 0);
    assert_eq!(vm.registers[0], 5);
}

#[test]
fn test_scenario_jump_skips_frame() {
    // code frames sit at 64, 68, 72, 76, 80; jumping to 76 skips the inc
    let src = ".data\n.code\n load $2 #76\n jmp $2\n inc $0\n load $1 #9\n hlt";
    let (_, mut vm) = assemble_and_load(src);
    assert_eq!(vm.run(), 0);
    assert_eq!(vm.registers[0], 0);
    assert_eq!(vm.registers[1], 9);
}

#[test]
fn test_repl_state() {
    let mut repl = REPL::new();
    assert_eq!(repl.command_buffer.len(), 0);
    repl.record_command(".registers".to_string());
    repl.record_command(".quit".to_string());
    assert_eq!(repl.command_buffer, vec![".registers", ".quit"]);
    assert_eq!(repl.vm.pc, 0);
}

#[test]
fn test_scheduler_state() {
    let s = Scheduler::new();
    assert_eq!(s.next_pid, 0);
    assert_eq!(s.max_pid, 50000);
}
