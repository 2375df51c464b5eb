use lispjit::assembler::{Assembler, PartialRegister, Register, SetccConditions};
use lispjit::emulator::run_code;
use lispjit::encodings::LispValue;
use lispjit::reader::Parser;

#[test]
fn test_return_forty_two() {
    // A hand-built function body equivalent to "return the integer 42".
    let mut a = Assembler::new();
    a.mov_reg_imm32(Register::Rax, 42);
    a.ret();
    assert_eq!(run_code(a.finalize()), Some(42));
}

#[test]
fn test_bytes_outside_the_vocabulary_are_refused() {
    // A 32-bit move without the operand-size prefix is not in the
    // encoder's vocabulary.
    let program: Vec<u8> = vec![0xb8, 0x2a, 0x00, 0x00, 0x00, 0xc3];
    assert_eq!(run_code(&program), None);
}

#[test]
fn test_code_without_return_is_refused() {
    let mut a = Assembler::new();
    a.mov_reg_imm32(Register::Rax, 1);
    assert_eq!(run_code(a.finalize()), None);
}

#[test]
fn test_setcc_without_a_compare_is_refused() {
    let mut a = Assembler::new();
    a.setcc_imm8(SetccConditions::Equal, PartialRegister::Al);
    a.ret();
    assert_eq!(run_code(a.finalize()), None);
}

#[test]
fn test_registers_start_at_zero() {
    let mut a = Assembler::new();
    a.ret();
    assert_eq!(run_code(a.finalize()), Some(0));
}

#[test]
fn test_add_and_sub_wrap_like_the_processor() {
    let mut a = Assembler::new();
    a.mov_reg_imm32(Register::Rax, 0);
    a.sub_reg_imm32(Register::Rax, 1);
    a.ret();
    assert_eq!(run_code(a.finalize()), Some(-1));
}

#[test]
fn test_compare_equal_sets_the_byte() {
    let mut a = Assembler::new();
    a.mov_reg_imm32(Register::Rax, 7);
    a.cmp_reg_imm32(Register::Rax, 7);
    a.mov_reg_imm32(Register::Rax, 0);
    a.setcc_imm8(SetccConditions::Equal, PartialRegister::Al);
    a.ret();
    assert_eq!(run_code(a.finalize()), Some(1));
}

#[test]
fn test_compare_unequal_clears_the_byte() {
    let mut a = Assembler::new();
    a.mov_reg_imm32(Register::Rax, 7);
    a.cmp_reg_imm32(Register::Rax, 8);
    a.mov_reg_imm32(Register::Rax, 0);
    a.setcc_imm8(SetccConditions::Equal, PartialRegister::Al);
    a.ret();
    assert_eq!(run_code(a.finalize()), Some(0));
}

#[test]
fn test_shift_and_or_build_a_tagged_char() {
    // The integer-to-character conversion sequence on an already-encoded
    // integer payload.
    let mut a = Assembler::new();
    a.mov_reg_imm32(Register::Rax, 64 * 4);
    a.shl_reg_imm8(Register::Rax, 6);
    a.or_reg_imm8(Register::Rax, 0x0f);
    a.ret();
    let word = run_code(a.finalize()).unwrap();
    assert_eq!(LispValue::from_raw_word(word).as_char(), Some('@'));
}

#[test]
fn test_parse_compile_run_pipeline() {
    // The whole pipeline: text to tokens to tree to machine code to value.
    let mut reader = Parser::new("(add1 (add1 10))");
    let ast = reader.read_form().unwrap();
    let mut compiler = lispjit::compiler::Compiler::new();
    let code = compiler.compile_function(&ast).unwrap();
    let word = run_code(&code).unwrap();
    assert_eq!(LispValue::from_raw_word(word).as_integer(), Some(12));
}

#[test]
fn test_parse_compile_run_char_conversion() {
    let mut reader = Parser::new("(integer->char 64)");
    let ast = reader.read_form().unwrap();
    let mut compiler = lispjit::compiler::Compiler::new();
    let code = compiler.compile_function(&ast).unwrap();
    let word = run_code(&code).unwrap();
    assert_eq!(LispValue::from_raw_word(word).as_char(), Some('@'));
}

#[test]
fn test_parse_compile_run_predicates() {
    for (text, expected) in [
        ("(nil? nil)", true),
        ("(nil? 0)", false),
        ("(zero? 0)", true),
        ("(zero? 1)", false),
        ("(integer? 19283)", true),
        ("(integer? #\\a)", false),
        ("(bool? true)", true),
        ("(bool? nil)", false),
    ] {
        let mut reader = Parser::new(text);
        let ast = reader.read_form().unwrap();
        let mut compiler = lispjit::compiler::Compiler::new();
        let code = compiler.compile_function(&ast).unwrap();
        let word = run_code(&code).unwrap();
        assert_eq!(
            LispValue::from_raw_word(word).as_bool(),
            Some(expected),
            "program: {}",
            text
        );
    }
}
