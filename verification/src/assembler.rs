//! The instruction encoder.
//!
//! A small fixed vocabulary of x86-64 register/immediate operations is
//! emitted into an append-only byte buffer.  Every emission is specified down
//! to the exact bytes: a fixed REX.W operand-size prefix, the opcode byte,
//! a register-direct ModRM byte (the register's 3-bit code added to a base
//! that also selects the sub-operation), and the immediate in little-endian
//! order.

use vstd::prelude::*;

verus! {

/// The eight base 64-bit general-purpose registers, in standard encoding
/// order.
#[derive(Debug, Clone, Copy)]
pub enum Register {
    Rax,
    Rcx,
    Rdx,
    Rbx,
    Rsp,
    Rbp,
    Rsi,
    Rdi,
}

/// The 3-bit encoding of a register.
pub open spec fn reg_code(r: Register) -> u8 {
    match r {
        Register::Rax => 0,
        Register::Rcx => 1,
        Register::Rdx => 2,
        Register::Rbx => 3,
        Register::Rsp => 4,
        Register::Rbp => 5,
        Register::Rsi => 6,
        Register::Rdi => 7,
    }
}

impl Register {
    pub fn code(self) -> (r: u8)
        ensures
            r == reg_code(self),
    {
        match self {
            Register::Rax => 0,
            Register::Rcx => 1,
            Register::Rdx => 2,
            Register::Rbx => 3,
            Register::Rsp => 4,
            Register::Rbp => 5,
            Register::Rsi => 6,
            Register::Rdi => 7,
        }
    }
}

/// The byte-sized partial registers, in standard encoding order.
#[derive(Debug, Clone, Copy)]
pub enum PartialRegister {
    Al,
    Cl,
    Dl,
    Bl,
    Ah,
    Ch,
    Dh,
    Bh,
}

/// The 3-bit encoding of a partial register.
pub open spec fn partial_reg_code(r: PartialRegister) -> u8 {
    match r {
        PartialRegister::Al => 0,
        PartialRegister::Cl => 1,
        PartialRegister::Dl => 2,
        PartialRegister::Bl => 3,
        PartialRegister::Ah => 4,
        PartialRegister::Ch => 5,
        PartialRegister::Dh => 6,
        PartialRegister::Bh => 7,
    }
}

impl PartialRegister {
    pub fn code(self) -> (r: u8)
        ensures
            r == partial_reg_code(self),
    {
        match self {
            PartialRegister::Al => 0,
            PartialRegister::Cl => 1,
            PartialRegister::Dl => 2,
            PartialRegister::Bl => 3,
            PartialRegister::Ah => 4,
            PartialRegister::Ch => 5,
            PartialRegister::Dh => 6,
            PartialRegister::Bh => 7,
        }
    }
}

/// The condition codes accepted by the set-byte-from-condition emission.
#[derive(Debug, Clone, Copy)]
pub enum SetccConditions {
    Overflow,
    NotOverflow,
    Below,
    AboveOrEqual,
    Equal,
}

/// The condition-code nibble added to the `0x90` opcode base.
pub open spec fn setcc_code(c: SetccConditions) -> u8 {
    match c {
        SetccConditions::Overflow => 0,
        SetccConditions::NotOverflow => 1,
        SetccConditions::Below => 2,
        SetccConditions::AboveOrEqual => 3,
        SetccConditions::Equal => 4,
    }
}

impl SetccConditions {
    pub fn code(self) -> (r: u8)
        ensures
            r == setcc_code(self),
    {
        match self {
            SetccConditions::Overflow => 0,
            SetccConditions::NotOverflow => 1,
            SetccConditions::Below => 2,
            SetccConditions::AboveOrEqual => 3,
            SetccConditions::Equal => 4,
        }
    }
}

pub const REX_W_PREFIX: u8 = 0x48;

/// The unsigned 32-bit pattern of a signed 32-bit immediate.
pub open spec fn i32_bits(x: i32) -> u32 {
    if x >= 0 {
        x as u32
    } else {
        (x + 0x1_0000_0000) as u32
    }
}

/// The four little-endian bytes of a 32-bit value.
pub open spec fn u32_le_bytes(u: u32) -> Seq<u8> {
    seq![
        (u % 256) as u8,
        ((u / 256) % 256) as u8,
        ((u / 0x1_0000) % 256) as u8,
        ((u / 0x100_0000) % 256) as u8,
    ]
}

/// Bytes of `mov r64, imm32` (the immediate is sign-extended at run time).
pub open spec fn mov_reg_imm32_bytes(dst: Register, src: i32) -> Seq<u8> {
    seq![REX_W_PREFIX, 0xc7u8, (0xc0 + reg_code(dst)) as u8] + u32_le_bytes(i32_bits(src))
}

/// Bytes of `add r64, imm32`.
pub open spec fn add_reg_imm32_bytes(dst: Register, src: i32) -> Seq<u8> {
    seq![REX_W_PREFIX, 0x81u8, (0xc0 + reg_code(dst)) as u8] + u32_le_bytes(i32_bits(src))
}

/// Bytes of `sub r64, imm32`.
pub open spec fn sub_reg_imm32_bytes(dst: Register, src: i32) -> Seq<u8> {
    seq![REX_W_PREFIX, 0x81u8, (0xe8 + reg_code(dst)) as u8] + u32_le_bytes(i32_bits(src))
}

/// Bytes of `shl r64, imm8`.
pub open spec fn shl_reg_imm8_bytes(dst: Register, imm8: u8) -> Seq<u8> {
    seq![REX_W_PREFIX, 0xc1u8, (0xe0 + reg_code(dst)) as u8, imm8]
}

/// Bytes of `or r64, imm8` (the immediate is sign-extended at run time).
pub open spec fn or_reg_imm8_bytes(dst: Register, imm8: u8) -> Seq<u8> {
    seq![REX_W_PREFIX, 0x83u8, (0xc8 + reg_code(dst)) as u8, imm8]
}

/// Bytes of `and r64, imm8` (the immediate is sign-extended at run time).
pub open spec fn and_reg_imm8_bytes(dst: Register, imm8: u8) -> Seq<u8> {
    seq![REX_W_PREFIX, 0x83u8, (0xe0 + reg_code(dst)) as u8, imm8]
}

/// Bytes of `cmp r64, imm32`.
pub open spec fn cmp_reg_imm32_bytes(dst: Register, imm32: u32) -> Seq<u8> {
    seq![REX_W_PREFIX, 0x81u8, (0xf8 + reg_code(dst)) as u8] + u32_le_bytes(imm32)
}

/// Bytes of `setcc r/m8`.
pub open spec fn setcc_imm8_bytes(cond: SetccConditions, partial: PartialRegister) -> Seq<u8> {
    seq![0x0fu8, (0x90 + setcc_code(cond)) as u8, (0xc0 + partial_reg_code(partial)) as u8]
}

/// Bytes of `ret`.
pub open spec fn ret_bytes() -> Seq<u8> {
    seq![0xc3u8]
}

/// The instruction encoder: an append-only machine-code buffer.
pub struct Assembler {
    code: Vec<u8>,
}

impl View for Assembler {
    type V = Seq<u8>;

    closed spec fn view(&self) -> Seq<u8> {
        self.code@
    }
}

impl Assembler {
    pub fn new() -> (r: Self)
        ensures
            r@ == Seq::<u8>::empty(),
    {
        Assembler { code: Vec::new() }
    }

    /// Exposes the accumulated machine code as a read-only view.
    pub fn finalize(&self) -> (r: &Vec<u8>)
        ensures
            r@ == self@,
    {
        &self.code
    }

    /// Appends the four little-endian bytes of an unsigned 32-bit value.
    fn push_u32_le(&mut self, u: u32)
        ensures
            final(self)@ =~= old(self)@ + u32_le_bytes(u),
    {
        self.code.push((u % 256) as u8);
        self.code.push(((u / 256) % 256) as u8);
        self.code.push(((u / 0x1_0000) % 256) as u8);
        self.code.push(((u / 0x100_0000) % 256) as u8);
    }

    /// Appends the four little-endian bytes of a signed 32-bit immediate.
    fn push_i32_le(&mut self, x: i32)
        ensures
            final(self)@ =~= old(self)@ + u32_le_bytes(i32_bits(x)),
    {
        let u: u32 = if x >= 0 {
            x as u32
        } else {
            ((x - i32::MIN) as u32) + 0x8000_0000
        };
        assert(u == i32_bits(x));
        self.push_u32_le(u);
    }

    /// Emits a 64-bit "move register, immediate" instruction.
    /// Example: `mov rax, 42`
    pub fn mov_reg_imm32(&mut self, dst: Register, src: i32)
        ensures
            final(self)@ =~= old(self)@ + mov_reg_imm32_bytes(dst, src),
    {
        self.code.push(REX_W_PREFIX);
        self.code.push(0xc7);
        self.code.push(0xc0 + dst.code());
        self.push_i32_le(src);
    }

    /// Emits a 64-bit "add register, immediate" instruction.
    pub fn add_reg_imm32(&mut self, dst: Register, src: i32)
        ensures
            final(self)@ =~= old(self)@ + add_reg_imm32_bytes(dst, src),
    {
        self.code.push(REX_W_PREFIX);
        self.code.push(0x81);
        self.code.push(0xc0 + dst.code());
        self.push_i32_le(src);
    }

    /// Emits a 64-bit "subtract register, immediate" instruction.
    pub fn sub_reg_imm32(&mut self, dst: Register, src: i32)
        ensures
            final(self)@ =~= old(self)@ + sub_reg_imm32_bytes(dst, src),
    {
        self.code.push(REX_W_PREFIX);
        self.code.push(0x81);
        self.code.push(0xe8 + dst.code());
        self.push_i32_le(src);
    }

    /// Emits a 64-bit "shift register left by immediate" instruction.
    pub fn shl_reg_imm8(&mut self, dst: Register, imm8: u8)
        ensures
            final(self)@ =~= old(self)@ + shl_reg_imm8_bytes(dst, imm8),
    {
        self.code.push(REX_W_PREFIX);
        self.code.push(0xc1);
        self.code.push(0xe0 + dst.code());
        self.code.push(imm8);
    }

    /// Emits a 64-bit "bitwise-or register with immediate" instruction.
    pub fn or_reg_imm8(&mut self, dst: Register, imm8: u8)
        ensures
            final(self)@ =~= old(self)@ + or_reg_imm8_bytes(dst, imm8),
    {
        self.code.push(REX_W_PREFIX);
        self.code.push(0x83);
        self.code.push(0xc8 + dst.code());
        self.code.push(imm8);
    }

    /// Emits a 64-bit "bitwise-and register with immediate" instruction.
    pub fn and_reg_imm8(&mut self, dst: Register, imm8: u8)
        ensures
            final(self)@ =~= old(self)@ + and_reg_imm8_bytes(dst, imm8),
    {
        self.code.push(REX_W_PREFIX);
        self.code.push(0x83);
        self.code.push(0xe0 + dst.code());
        self.code.push(imm8);
    }

    /// Emits a 64-bit "compare register with immediate" instruction.  The
    /// comparison only sets processor flags.
    pub fn cmp_reg_imm32(&mut self, dst: Register, imm32: u32)
        ensures
            final(self)@ =~= old(self)@ + cmp_reg_imm32_bytes(dst, imm32),
    {
        self.code.push(REX_W_PREFIX);
        self.code.push(0x81);
        self.code.push(0xf8 + dst.code());
        self.push_u32_le(imm32);
    }

    /// Emits a "set byte from condition" instruction, writing 0 or 1 into a
    /// partial register according to the flags of the most recent compare.
    pub fn setcc_imm8(&mut self, cond: SetccConditions, partial: PartialRegister)
        ensures
            final(self)@ =~= old(self)@ + setcc_imm8_bytes(cond, partial),
    {
        self.code.push(0x0f);
        self.code.push(0x90 + cond.code());
        self.code.push(0xc0 + partial.code());
    }

    /// Emits a `ret` instruction.
    pub fn ret(&mut self)
        ensures
            final(self)@ =~= old(self)@ + ret_bytes(),
    {
        self.code.push(0xc3);
    }
}

} // verus!
