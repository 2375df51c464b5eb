use lispjit::assembler::{Assembler, PartialRegister, Register, SetccConditions};

#[test]
fn test_mov_reg_imm32_bytes() {
    let mut a = Assembler::new();
    a.mov_reg_imm32(Register::Rax, 42);
    assert_eq!(a.finalize(), &vec![0x48, 0xc7, 0xc0, 0x2a, 0x00, 0x00, 0x00]);
}

#[test]
fn test_mov_negative_immediate_is_little_endian_two_complement() {
    let mut a = Assembler::new();
    a.mov_reg_imm32(Register::Rcx, -2);
    assert_eq!(a.finalize(), &vec![0x48, 0xc7, 0xc1, 0xfe, 0xff, 0xff, 0xff]);
}

#[test]
fn test_add_reg_imm32_bytes() {
    let mut a = Assembler::new();
    a.add_reg_imm32(Register::Rax, 4);
    assert_eq!(a.finalize(), &vec![0x48, 0x81, 0xc0, 0x04, 0x00, 0x00, 0x00]);
}

#[test]
fn test_sub_reg_imm32_bytes() {
    let mut a = Assembler::new();
    a.sub_reg_imm32(Register::Rdx, 4);
    assert_eq!(a.finalize(), &vec![0x48, 0x81, 0xea, 0x04, 0x00, 0x00, 0x00]);
}

#[test]
fn test_shl_reg_imm8_bytes() {
    let mut a = Assembler::new();
    a.shl_reg_imm8(Register::Rax, 6);
    assert_eq!(a.finalize(), &vec![0x48, 0xc1, 0xe0, 0x06]);
}

#[test]
fn test_or_reg_imm8_bytes() {
    let mut a = Assembler::new();
    a.or_reg_imm8(Register::Rax, 0x0f);
    assert_eq!(a.finalize(), &vec![0x48, 0x83, 0xc8, 0x0f]);
}

#[test]
fn test_and_reg_imm8_bytes() {
    let mut a = Assembler::new();
    a.and_reg_imm8(Register::Rax, 0x03);
    assert_eq!(a.finalize(), &vec![0x48, 0x83, 0xe0, 0x03]);
}

#[test]
fn test_cmp_reg_imm32_bytes() {
    let mut a = Assembler::new();
    a.cmp_reg_imm32(Register::Rax, 0x2f);
    assert_eq!(a.finalize(), &vec![0x48, 0x81, 0xf8, 0x2f, 0x00, 0x00, 0x00]);
}

#[test]
fn test_setcc_bytes() {
    let mut a = Assembler::new();
    a.setcc_imm8(SetccConditions::Equal, PartialRegister::Al);
    assert_eq!(a.finalize(), &vec![0x0f, 0x94, 0xc0]);
}

#[test]
fn test_ret_byte() {
    let mut a = Assembler::new();
    a.ret();
    assert_eq!(a.finalize(), &vec![0xc3]);
}

#[test]
fn test_emissions_append_in_order() {
    let mut a = Assembler::new();
    a.mov_reg_imm32(Register::Rax, 1);
    a.add_reg_imm32(Register::Rax, 2);
    a.ret();
    let code = a.finalize();
    assert_eq!(code.len(), 15);
    assert_eq!(code[0], 0x48);
    assert_eq!(code[7], 0x48);
    assert_eq!(code[14], 0xc3);
}
