use iridium::assembler::PIE_HEADER_LENGTH;
use iridium::vm::{prepend_header, VM};

#[test]
fn test_create_vm() {
    let test_vm = VM::new();
    assert_eq!(test_vm.registers[0], 0)
}

#[test]
fn test_opcode_hlt() {
    let mut test_vm = VM::new();
    let test_bytes = vec![0, 0, 0, 0];
    test_vm.program = test_bytes;
    test_vm.program = prepend_header(test_vm.program);
    test_vm.run();
    assert_eq!(test_vm.pc, 1 + PIE_HEADER_LENGTH);
}

#[test]
fn test_opcode_igl() {
    let mut test_vm = VM::new();
    let test_bytes = vec![200, 0, 0, 0];
    test_vm.program = test_bytes;
    test_vm.program = prepend_header(test_vm.program);
    test_vm.run();
    assert_eq!(test_vm.pc, 1 + PIE_HEADER_LENGTH);
}

#[test]
fn test_init_registers() {
    let mut test_vm = VM::new();
    test_vm.init_registers([10; 32]);

    assert_eq!(test_vm.registers[0], 10);
    assert_eq!(test_vm.registers[31], 10);
}

#[test]
fn test_sub_opcode() {
    let mut test_vm = VM::new();
    let mut array = [0; 32];
    for i in 0..32 {
        array[i] = i as i32;
    }
    test_vm.init_registers(array);
    test_vm.program = vec![3, 3, 1, 4]; // 3 - 1 = 2
    test_vm.program = prepend_header(test_vm.program);
    test_vm.run();

    assert_eq!(test_vm.registers[4], 2);
}

#[test]
fn test_mul_opcode() {
    let mut test_vm = VM::new();
    let mut array = [0; 32];
    for i in 0..32 {
        array[i] = i as i32;
    }
    test_vm.init_registers(array);
    test_vm.program = vec![4, 3, 4, 5]; // 3 * 4 = 12
    test_vm.program = prepend_header(test_vm.program);
    test_vm.run();

    assert_eq!(test_vm.registers[5], 12);
}

#[test]
fn test_div_opcode() {
    let mut test_vm = VM::new();
    let mut array = [0; 32];
    for i in 0..32 {
        array[i] = i as i32;
    }
    test_vm.init_registers(array);
    test_vm.program = vec![5, 3, 2, 3]; // 3 / 2 = 1 remainder 1
    test_vm.program = prepend_header(test_vm.program);
    assert_eq!(test_vm.registers[3], 3);
    assert_eq!(test_vm.registers[2], 2);
    test_vm.run();

    assert_eq!(test_vm.registers[3], 1);
    assert_eq!(test_vm.remainder, 1)
}

#[test]
fn test_jmp_opcode() {
    let mut test_vm = VM::new();
    test_vm.registers[0] = 1;
    test_vm.program = vec![6, 0, 0, 0];
    test_vm.run_once();

    assert_eq!(test_vm.pc, 1);
}

#[test]
fn test_jmpf_opcode() {
    let mut test_vm = VM::new();
    test_vm.registers[0] = 2;
    test_vm.program = vec![7, 0, 0, 0];
    test_vm.run_once();

    assert_eq!(test_vm.pc, 4);
}

#[test]
fn test_jmpb_opcode() {
    let mut test_vm = VM::new();
    test_vm.registers[0] = 2;
    test_vm.program = vec![8, 0, 0, 0];
    test_vm.run_once();

    assert_eq!(test_vm.pc, 0);
}

#[test]
fn test_eq_opcode() {
    let mut test_vm = VM::new();
    test_vm.program = vec![9, 0, 0, 0];
    test_vm.run_once();

    assert_eq!(test_vm.equal_flag, true);
    assert_eq!(test_vm.pc, 4);
}

#[test]
fn test_neq_opcode() {
    let mut test_vm = VM::new();
    test_vm.program = vec![10, 0, 0, 0];
    test_vm.run_once();

    assert_eq!(test_vm.equal_flag, false);
    assert_eq!(test_vm.pc, 4);
}

#[test]
fn test_gt_opcode() {
    let mut test_vm = VM::new();
    test_vm.program = vec![11, 0, 0, 0];
    test_vm.run_once();

    assert_eq!(test_vm.equal_flag, false);
    assert_eq!(test_vm.pc, 4);
}

#[test]
fn test_lt_opcode() {
    let mut test_vm = VM::new();
    test_vm.program = vec![12, 0, 0, 0];
    test_vm.run_once();

    assert_eq!(test_vm.equal_flag, false);
    assert_eq!(test_vm.pc, 4);
}

#[test]
fn test_gtq_opcode() {
    let mut test_vm = VM::new();
    test_vm.program = vec![13, 0, 0, 0];
    test_vm.run_once();

    assert_eq!(test_vm.equal_flag, true);
    assert_eq!(test_vm.pc, 4);
}

#[test]
fn test_ltq_opcode() {
    let mut test_vm = VM::new();
    test_vm.program = vec![14, 0, 0, 0];
    test_vm.run_once();

    assert_eq!(test_vm.equal_flag, true);
    assert_eq!(test_vm.pc, 4);
}

#[test]
fn test_jeq_opcode() {
    let mut test_vm = VM::new();
    test_vm.program = vec![9, 0, 0, 0, 15, 0];
    test_vm.run_once();
    test_vm.run_once();

    assert_eq!(test_vm.equal_flag, true);
    assert_eq!(test_vm.pc, 0);
}

#[test]
fn test_inc_opcode() {
    let mut test_vm = VM::new();
    test_vm.registers[0] = 1024;
    test_vm.program = vec![17, 0];
    test_vm.run_once();
    assert_eq!(test_vm.registers[0], 1025);
}

#[test]
fn test_dec_opcode() {
    let mut test_vm = VM::new();
    test_vm.registers[0] = 1024;
    test_vm.program = vec![18, 0];
    test_vm.run_once();
    assert_eq!(test_vm.registers[0], 1023);
}

#[test]
fn test_aloc_opcode() {
    let mut test_vm = VM::new();
    test_vm.registers[0] = 1024;
    test_vm.program = vec![16, 0, 0, 0];
    test_vm.run_once();
    assert_eq!(test_vm.heap.len(), 1024);
}

#[test]
fn test_bad_header_refused() {
    let mut test_vm = VM::new();
    test_vm.add_bytes(vec![1, 2, 3, 4, 5, 6, 7, 8]);
    assert_eq!(test_vm.verify_header(), false);
    assert_eq!(test_vm.run(), 1);
}

#[test]
fn test_prepend_header_shape() {
    let image = prepend_header(vec![0, 0, 0, 0]);
    assert_eq!(image.len(), PIE_HEADER_LENGTH + 4);
    assert_eq!(&image[0..4], &[45, 50, 49, 45]);
    assert!(image[4..64].iter().all(|b| *b == 0));
}

#[test]
fn test_add_hexes() {
    let mut test_vm = VM::new();
    test_vm.add_hexes("00 01 a0 FF");
    assert_eq!(test_vm.program, vec![0, 1, 160, 255]);
    // an ill-formed line changes nothing
    test_vm.add_hexes("00 zz");
    assert_eq!(test_vm.program, vec![0, 1, 160, 255]);
    test_vm.add_hexes("100");
    assert_eq!(test_vm.program, vec![0, 1, 160, 255]);
}

#[test]
fn test_parse_hex_values() {
    let mut test_vm = VM::new();
    assert_eq!(test_vm.parse_hex("ff 00 2a"), Some(vec![255, 0, 42]));
    assert_eq!(test_vm.parse_hex(""), None);
    assert_eq!(test_vm.parse_hex("f g"), None);
    assert_eq!(test_vm.parse_hex("1 22 333"), None);
}

#[test]
fn test_inc_wraps() {
    let mut test_vm = VM::new();
    test_vm.registers[0] = i32::MAX;
    test_vm.program = vec![17, 0];
    test_vm.run_once();
    assert_eq!(test_vm.registers[0], i32::MIN);
}

#[test]
fn test_div_by_zero_stops() {
    let mut test_vm = VM::new();
    test_vm.registers[1] = 7;
    test_vm.program = vec![5, 1, 2, 3];
    test_vm.run_once();
    // the run stops with nothing changed
    assert_eq!(test_vm.registers[3], 0);
    assert_eq!(test_vm.remainder, 0);
    assert_eq!(test_vm.pc, 0);
}

#[test]
fn test_div_negative_truncates() {
    let mut test_vm = VM::new();
    test_vm.registers[0] = -7;
    test_vm.registers[1] = 2;
    test_vm.program = vec![5, 0, 1, 2];
    test_vm.run_once();
    // division truncates toward zero; the remainder keeps the dividend's
    // sign and lands in the register as its 32-bit two's complement
    assert_eq!(test_vm.registers[2], -3);
    assert_eq!(test_vm.remainder, (-1i32) as u32);
}

#[test]
fn test_prts_offset_past_end() {
    let mut test_vm = VM::new();
    test_vm.ro_data = vec![72, 105, 0];
    // offset 9 lies past the read-only area: nothing but the newline
    test_vm.program = vec![19, 0, 9, 0];
    test_vm.run_once();
    assert_eq!(test_vm.output, vec![10]);
}

#[test]
fn test_comparisons_unequal() {
    let mut test_vm = VM::new();
    test_vm.registers[0] = 5;
    test_vm.registers[1] = 3;
    test_vm.program = vec![11, 0, 1, 0]; // gt: 5 > 3
    test_vm.run_once();
    assert_eq!(test_vm.equal_flag, true);

    let mut test_vm = VM::new();
    test_vm.registers[0] = 5;
    test_vm.registers[1] = 3;
    test_vm.program = vec![12, 0, 1, 0]; // lt: 5 < 3
    test_vm.run_once();
    assert_eq!(test_vm.equal_flag, false);
}
