//! What compiled code computes.
//!
//! This module gives the expression language a value semantics — the tagged
//! word an expression evaluates to — and proves that the compiler is
//! correct for it: running the machine code of any successfully compiled,
//! symbol-free expression on the emulated machine returns exactly the
//! expression's value.

use crate::assembler::{
    add_reg_imm32_bytes, and_reg_imm8_bytes, cmp_reg_imm32_bytes, i32_bits, mov_reg_imm32_bytes,
    or_reg_imm8_bytes, reg_code, ret_bytes, setcc_imm8_bytes, shl_reg_imm8_bytes,
    sub_reg_imm32_bytes, u32_le_bytes, PartialRegister, Register, SetccConditions,
};
use crate::emulator::{
    cmp_flags, cond_holds, init_state, read_imm32, set_partial, sign_extend_imm32,
    sign_extend_imm8, spec_exec, spec_run, wrap_add, wrap_sub, MachineFlags, MachineState,
};
use crate::ast::AstNode;
use crate::compiler::{spec_compile_call, spec_compile_expr, spec_compile_function};
use crate::encodings::{bits_word, encode_bool_word, encode_char_word, encode_integer_word, word_bits, K_INTEGER_MAX, K_INTEGER_MIN, K_NIL_VALUE};
use vstd::prelude::*;

verus! {

/// The register codes are three-bit values.
proof fn lemma_reg_code_bound(dst: Register)
    ensures
        reg_code(dst) <= 7,
{
}

/// Reading back four little-endian bytes recovers the value.
proof fn lemma_read_le_bytes(code: Seq<u8>, p: int, v: u32)
    requires
        0 <= p,
        p + 4 <= code.len(),
        code.subrange(p, p + 4) == u32_le_bytes(v),
    ensures
        read_imm32(code, p) == v,
{
    assert(code[p] == u32_le_bytes(v)[0]);
    assert(code[p + 1] == u32_le_bytes(v)[1]);
    assert(code[p + 2] == u32_le_bytes(v)[2]);
    assert(code[p + 3] == u32_le_bytes(v)[3]);
    assert(v % 256 + 256 * ((v / 256) % 256) + 0x1_0000 * ((v / 0x1_0000) % 256) + 0x100_0000 * ((
    v / 0x100_0000) % 256) == v) by (bit_vector);
}

/// The tail of a matched byte run is the tail of the pattern.
proof fn lemma_tail_bytes(code: Seq<u8>, pc: int, head: Seq<u8>, tail: Seq<u8>)
    requires
        0 <= pc,
        pc + head.len() + tail.len() <= code.len(),
        code.subrange(pc, pc + head.len() + tail.len()) == head + tail,
    ensures
        code.subrange(pc + head.len(), pc + head.len() + tail.len()) =~= tail,
{
    assert forall|i: int| 0 <= i < tail.len() implies code.subrange(
        pc + head.len(),
        pc + head.len() + tail.len(),
    )[i] == tail[i] by {
        assert(code[pc + head.len() + i] == code.subrange(
            pc,
            pc + head.len() + tail.len(),
        )[head.len() + i]);
        assert((head + tail)[head.len() + i] == tail[i]);
    }
}

/// Sign-extending the 32-bit pattern of a signed immediate gives the
/// 64-bit pattern of the same value.
proof fn lemma_sign_extend_i32(x: i32)
    ensures
        sign_extend_imm32(i32_bits(x)) == word_bits(x as i64),
{
}

/// Running a move instruction writes the sign-extended immediate into the
/// destination register and steps past the instruction.
proof fn lemma_step_mov(code: Seq<u8>, pc: nat, st: MachineState, dst: Register, src: i32)
    requires
        st.regs.len() == 8,
        pc + 7 <= code.len(),
        code.subrange(pc as int, pc as int + 7) == mov_reg_imm32_bytes(dst, src),
    ensures
        spec_exec(code, pc, st) == spec_exec(
            code,
            (pc + 7) as nat,
            (MachineState {
                regs: st.regs.update(reg_code(dst) as int, word_bits(src as i64)),
                flags: st.flags,
            }),
        ),
{
    let bytes = mov_reg_imm32_bytes(dst, src);
    lemma_reg_code_bound(dst);
    assert(code[pc as int] == bytes[0]);
    assert(code[pc as int + 1] == bytes[1]);
    assert(code[pc as int + 2] == bytes[2]);
    lemma_tail_bytes(
        code,
        pc as int,
        seq![0x48u8, 0xc7u8, (0xc0 + reg_code(dst)) as u8],
        u32_le_bytes(i32_bits(src)),
    );
    lemma_read_le_bytes(code, pc as int + 3, i32_bits(src));
    lemma_sign_extend_i32(src);
}

/// Running an add instruction adds the sign-extended immediate into the
/// destination register, wrapping, and invalidates the flags.
proof fn lemma_step_add(code: Seq<u8>, pc: nat, st: MachineState, dst: Register, src: i32)
    requires
        st.regs.len() == 8,
        pc + 7 <= code.len(),
        code.subrange(pc as int, pc as int + 7) == add_reg_imm32_bytes(dst, src),
    ensures
        spec_exec(code, pc, st) == spec_exec(
            code,
            (pc + 7) as nat,
            (MachineState {
                regs: st.regs.update(
                    reg_code(dst) as int,
                    wrap_add(st.regs[reg_code(dst) as int], word_bits(src as i64)),
                ),
                flags: None,
            }),
        ),
{
    let bytes = add_reg_imm32_bytes(dst, src);
    lemma_reg_code_bound(dst);
    assert(code[pc as int] == bytes[0]);
    assert(code[pc as int + 1] == bytes[1]);
    assert(code[pc as int + 2] == bytes[2]);
    lemma_tail_bytes(
        code,
        pc as int,
        seq![0x48u8, 0x81u8, (0xc0 + reg_code(dst)) as u8],
        u32_le_bytes(i32_bits(src)),
    );
    lemma_read_le_bytes(code, pc as int + 3, i32_bits(src));
    lemma_sign_extend_i32(src);
}

/// Running a subtract instruction subtracts the sign-extended immediate
/// from the destination register, wrapping, and invalidates the flags.
proof fn lemma_step_sub(code: Seq<u8>, pc: nat, st: MachineState, dst: Register, src: i32)
    requires
        st.regs.len() == 8,
        pc + 7 <= code.len(),
        code.subrange(pc as int, pc as int + 7) == sub_reg_imm32_bytes(dst, src),
    ensures
        spec_exec(code, pc, st) == spec_exec(
            code,
            (pc + 7) as nat,
            (MachineState {
                regs: st.regs.update(
                    reg_code(dst) as int,
                    wrap_sub(st.regs[reg_code(dst) as int], word_bits(src as i64)),
                ),
                flags: None,
            }),
        ),
{
    let bytes = sub_reg_imm32_bytes(dst, src);
    lemma_reg_code_bound(dst);
    assert(code[pc as int] == bytes[0]);
    assert(code[pc as int + 1] == bytes[1]);
    assert(code[pc as int + 2] == bytes[2]);
    assert(0xe8 <= bytes[2] <= 0xef);
    lemma_tail_bytes(
        code,
        pc as int,
        seq![0x48u8, 0x81u8, (0xe8 + reg_code(dst)) as u8],
        u32_le_bytes(i32_bits(src)),
    );
    lemma_read_le_bytes(code, pc as int + 3, i32_bits(src));
    lemma_sign_extend_i32(src);
}

/// Running a shift-left instruction shifts the destination register and
/// invalidates the flags.
proof fn lemma_step_shl(code: Seq<u8>, pc: nat, st: MachineState, dst: Register, imm8: u8)
    requires
        st.regs.len() == 8,
        imm8 < 64,
        pc + 4 <= code.len(),
        code.subrange(pc as int, pc as int + 4) == shl_reg_imm8_bytes(dst, imm8),
    ensures
        spec_exec(code, pc, st) == spec_exec(
            code,
            (pc + 4) as nat,
            (MachineState {
                regs: st.regs.update(
                    reg_code(dst) as int,
                    st.regs[reg_code(dst) as int] << imm8,
                ),
                flags: None,
            }),
        ),
{
    let bytes = shl_reg_imm8_bytes(dst, imm8);
    lemma_reg_code_bound(dst);
    assert(code[pc as int] == bytes[0]);
    assert(code[pc as int + 1] == bytes[1]);
    assert(code[pc as int + 2] == bytes[2]);
    assert(code[pc as int + 3] == bytes[3]);
}

/// Running a bitwise-or instruction ors the sign-extended immediate into
/// the destination register and invalidates the flags.
proof fn lemma_step_or(code: Seq<u8>, pc: nat, st: MachineState, dst: Register, imm8: u8)
    requires
        st.regs.len() == 8,
        pc + 4 <= code.len(),
        code.subrange(pc as int, pc as int + 4) == or_reg_imm8_bytes(dst, imm8),
    ensures
        spec_exec(code, pc, st) == spec_exec(
            code,
            (pc + 4) as nat,
            (MachineState {
                regs: st.regs.update(
                    reg_code(dst) as int,
                    st.regs[reg_code(dst) as int] | sign_extend_imm8(imm8),
                ),
                flags: None,
            }),
        ),
{
    let bytes = or_reg_imm8_bytes(dst, imm8);
    lemma_reg_code_bound(dst);
    assert(code[pc as int] == bytes[0]);
    assert(code[pc as int + 1] == bytes[1]);
    assert(code[pc as int + 2] == bytes[2]);
    assert(code[pc as int + 3] == bytes[3]);
    assert(0xc8 <= bytes[2] <= 0xcf);
}

/// Running a bitwise-and instruction masks the destination register with
/// the sign-extended immediate and invalidates the flags.
proof fn lemma_step_and(code: Seq<u8>, pc: nat, st: MachineState, dst: Register, imm8: u8)
    requires
        st.regs.len() == 8,
        pc + 4 <= code.len(),
        code.subrange(pc as int, pc as int + 4) == and_reg_imm8_bytes(dst, imm8),
    ensures
        spec_exec(code, pc, st) == spec_exec(
            code,
            (pc + 4) as nat,
            (MachineState {
                regs: st.regs.update(
                    reg_code(dst) as int,
                    st.regs[reg_code(dst) as int] & sign_extend_imm8(imm8),
                ),
                flags: None,
            }),
        ),
{
    let bytes = and_reg_imm8_bytes(dst, imm8);
    lemma_reg_code_bound(dst);
    assert(code[pc as int] == bytes[0]);
    assert(code[pc as int + 1] == bytes[1]);
    assert(code[pc as int + 2] == bytes[2]);
    assert(code[pc as int + 3] == bytes[3]);
    assert(0xe0 <= bytes[2] <= 0xe7);
}

/// Running a compare instruction leaves the registers alone and defines
/// the flags from the comparison with the sign-extended immediate.
proof fn lemma_step_cmp(code: Seq<u8>, pc: nat, st: MachineState, dst: Register, imm32: u32)
    requires
        st.regs.len() == 8,
        pc + 7 <= code.len(),
        code.subrange(pc as int, pc as int + 7) == cmp_reg_imm32_bytes(dst, imm32),
    ensures
        spec_exec(code, pc, st) == spec_exec(
            code,
            (pc + 7) as nat,
            (MachineState {
                regs: st.regs,
                flags: Some(
                    cmp_flags(st.regs[reg_code(dst) as int], sign_extend_imm32(imm32)),
                ),
            }),
        ),
{
    let bytes = cmp_reg_imm32_bytes(dst, imm32);
    lemma_reg_code_bound(dst);
    assert(code[pc as int] == bytes[0]);
    assert(code[pc as int + 1] == bytes[1]);
    assert(code[pc as int + 2] == bytes[2]);
    assert(0xf8 <= bytes[2] <= 0xff);
    lemma_tail_bytes(
        code,
        pc as int,
        seq![0x48u8, 0x81u8, (0xf8 + reg_code(dst)) as u8],
        u32_le_bytes(imm32),
    );
    lemma_read_le_bytes(code, pc as int + 3, imm32);
}

/// Running a set-byte-from-condition instruction, with flags defined by a
/// preceding compare, writes 0 or 1 into the named partial register.
proof fn lemma_step_setcc(
    code: Seq<u8>,
    pc: nat,
    st: MachineState,
    cond: SetccConditions,
    partial: PartialRegister,
)
    requires
        st.regs.len() == 8,
        st.flags is Some,
        pc + 3 <= code.len(),
        code.subrange(pc as int, pc as int + 3) == setcc_imm8_bytes(cond, partial),
    ensures
        spec_exec(code, pc, st) == spec_exec(
            code,
            (pc + 3) as nat,
            (MachineState {
                regs: set_partial(
                    st.regs,
                    crate::assembler::partial_reg_code(partial),
                    if cond_holds(crate::assembler::setcc_code(cond), st.flags->0) {
                        1
                    } else {
                        0
                    },
                ),
                flags: st.flags,
            }),
        ),
{
    let bytes = setcc_imm8_bytes(cond, partial);
    assert(code[pc as int] == bytes[0]);
    assert(code[pc as int + 1] == bytes[1]);
    assert(code[pc as int + 2] == bytes[2]);
    assert(0x90 <= bytes[1] <= 0x94);
    assert(0xc0 <= bytes[2] <= 0xc7);
}

/// Running a return instruction yields the signed word in the first
/// register.
proof fn lemma_step_ret(code: Seq<u8>, pc: nat, st: MachineState)
    requires
        st.regs.len() == 8,
        pc < code.len(),
        code[pc as int] == 0xc3,
    ensures
        spec_exec(code, pc, st) == Some(crate::encodings::as_signed(st.regs[0]) as i64),
{
}


/// The head of a matched byte run is the head of the pattern.
proof fn lemma_head_bytes(code: Seq<u8>, pc: int, head: Seq<u8>, tail: Seq<u8>)
    requires
        0 <= pc,
        pc + head.len() + tail.len() <= code.len(),
        code.subrange(pc, pc + head.len() + tail.len()) == head + tail,
    ensures
        code.subrange(pc, pc + head.len()) =~= head,
{
    assert forall|i: int| 0 <= i < head.len() implies code.subrange(pc, pc + head.len())[i]
        == head[i] by {
        assert(code[pc + i] == code.subrange(pc, pc + head.len() + tail.len())[i]);
        assert((head + tail)[i] == head[i]);
    }
}

/// Running the compare-and-set-boolean sequence leaves one of the two
/// canonical boolean words in the accumulator: the true word exactly when
/// the accumulator held the compared immediate.
proof fn lemma_compare_block(code: Seq<u8>, pc: nat, st: MachineState, w: u32)
    requires
        st.regs.len() == 8,
        w < 0x8000_0000,
        pc + 25 <= code.len(),
        code.subrange(pc as int, pc as int + 25) == crate::compiler::compare_imm32_code(w),
    ensures
        spec_exec(code, pc, st) == spec_exec(
            code,
            (pc + 25) as nat,
            (MachineState {
                regs: st.regs.update(0, encode_bool_word(st.regs[0] == w as u64)),
                flags: None,
            }),
        ),
{
    let cmp_b = cmp_reg_imm32_bytes(Register::Rax, w);
    let mov_b = mov_reg_imm32_bytes(Register::Rax, 0);
    let set_b = setcc_imm8_bytes(SetccConditions::Equal, PartialRegister::Al);
    let shl_b = shl_reg_imm8_bytes(Register::Rax, 7);
    let or_b = or_reg_imm8_bytes(Register::Rax, 0x1f);
    let p = pc as int;
    assert(crate::compiler::compare_imm32_code(w) == (((cmp_b + mov_b) + set_b) + shl_b) + or_b);
    lemma_head_bytes(code, p, ((cmp_b + mov_b) + set_b) + shl_b, or_b);
    lemma_tail_bytes(code, p, ((cmp_b + mov_b) + set_b) + shl_b, or_b);
    lemma_head_bytes(code, p, (cmp_b + mov_b) + set_b, shl_b);
    lemma_tail_bytes(code, p, (cmp_b + mov_b) + set_b, shl_b);
    lemma_head_bytes(code, p, cmp_b + mov_b, set_b);
    lemma_tail_bytes(code, p, cmp_b + mov_b, set_b);
    lemma_head_bytes(code, p, cmp_b, mov_b);
    lemma_tail_bytes(code, p, cmp_b, mov_b);

    let ext = sign_extend_imm32(w);
    assert(ext == w as u64);
    lemma_step_cmp(code, pc, st, Register::Rax, w);
    let st1 = MachineState { regs: st.regs, flags: Some(cmp_flags(st.regs[0], ext)) };
    lemma_step_mov(code, (pc + 7) as nat, st1, Register::Rax, 0);
    let st2 = MachineState { regs: st.regs.update(0, 0u64), flags: st1.flags };
    assert(word_bits(0i64) == 0u64);
    lemma_step_setcc(
        code,
        (pc + 14) as nat,
        st2,
        SetccConditions::Equal,
        PartialRegister::Al,
    );
    let hit = st.regs[0] == ext;
    let bit: u64 = if hit { 1 } else { 0 };
    assert(cond_holds(4, cmp_flags(st.regs[0], ext)) == hit);
    assert((0u64 & 0xffff_ffff_ffff_ff00) | bit == bit) by (bit_vector);
    let st3 = MachineState { regs: st2.regs.update(0, bit), flags: st2.flags };
    assert(set_partial(st2.regs, 0, bit) =~= st3.regs);
    lemma_step_shl(code, (pc + 17) as nat, st3, Register::Rax, 7);
    let st4 = MachineState { regs: st3.regs.update(0, bit << 7), flags: None };
    lemma_step_or(code, (pc + 21) as nat, st4, Register::Rax, 0x1f);
    assert(sign_extend_imm8(0x1f) == 0x1f);
    assert((1u64 << 7) | 0x1f == 0x9f && (0u64 << 7) | 0x1f == 0x1f) by (bit_vector);
    let produced = (bit << 7) | 0x1f;
    assert(produced == encode_bool_word(hit));
    let st5 = MachineState { regs: st4.regs.update(0, produced), flags: None };
    assert(st5.regs =~= st.regs.update(0, encode_bool_word(st.regs[0] == w as u64)));
}

/// What a unary primitive computes on its argument's tagged word, when the
/// head names one.
pub open spec fn eval_prim(head: AstNode, w: u64) -> Option<u64> {
    match head {
        AstNode::Symbol(name) => {
            if name@ == "add1"@ {
                Some(wrap_add(w, 4))
            } else if name@ == "sub1"@ {
                Some(wrap_sub(w, 4))
            } else if name@ == "integer->char"@ {
                Some((w << 6) | 0x0f)
            } else if name@ == "nil?"@ {
                Some(encode_bool_word(w == K_NIL_VALUE))
            } else if name@ == "zero?"@ {
                Some(encode_bool_word(w == 0))
            } else if name@ == "integer?"@ {
                Some(encode_bool_word(w & 0x03 == 0))
            } else if name@ == "bool?"@ {
                Some(encode_bool_word(w & 0x1f == 0x1f))
            } else {
                None
            }
        },
        _ => None,
    }
}

/// The tagged word an expression evaluates to: literals become their
/// encodings, a call form applies its primitive to the argument's word.
/// A symbol reference compiles to no code, so it has no value.
pub open spec fn eval_expr(node: AstNode) -> Option<u64>
    decreases node,
{
    match node {
        AstNode::Integer(v) => Some(encode_integer_word(v)),
        AstNode::Bool(b) => Some(encode_bool_word(b)),
        AstNode::Char(c) => Some(encode_char_word(c)),
        AstNode::Nil => Some(K_NIL_VALUE),
        AstNode::Symbol(_) => None,
        AstNode::Pair { car, cdr } => match *cdr {
            AstNode::Pair { car: arg, cdr: rest } => {
                if (*rest matches AstNode::Nil) {
                    match eval_expr(*arg) {
                        Some(w) => eval_prim(*car, w),
                        None => None,
                    }
                } else {
                    None
                }
            },
            _ => None,
        },
    }
}

/// The code a successfully compiled expression consists of.
pub open spec fn expr_code(node: AstNode) -> Seq<u8> {
    match spec_compile_expr(node) {
        Ok(bytes) => bytes,
        Err(_) => Seq::empty(),
    }
}

/// The tagged word a well-defined expression evaluates to.
pub open spec fn expr_value(node: AstNode) -> u64 {
    match eval_expr(node) {
        Some(w) => w,
        None => 0,
    }
}

/// Running a compiled expression's code block leaves the expression's
/// value in the accumulator, whatever state the block started in.
proof fn lemma_compiled_expr_runs(node: AstNode, code: Seq<u8>, pc: nat, st: MachineState)
    requires
        st.regs.len() == 8,
        spec_compile_expr(node) is Ok,
        eval_expr(node) is Some,
        pc + expr_code(node).len() <= code.len(),
        code.subrange(pc as int, pc as int + expr_code(node).len()) == expr_code(node),
    ensures
        exists|f: Option<MachineFlags>|
            spec_exec(code, pc, st) == spec_exec(
                code,
                (pc + expr_code(node).len()) as nat,
                (MachineState { regs: st.regs.update(0, expr_value(node)), flags: f }),
            ),
    decreases node,
{
    match node {
        AstNode::Integer(v) => {
            lemma_step_mov(code, pc, st, Register::Rax, (4 * v) as i32);
            assert(word_bits(((4 * v) as i32) as i64) == encode_integer_word(v));
            assert(spec_exec(code, pc, st) == spec_exec(
                code,
                (pc + expr_code(node).len()) as nat,
                (MachineState { regs: st.regs.update(0, expr_value(node)), flags: st.flags }),
            ));
        },
        AstNode::Bool(b) => {
            let imm: i32 = if b { 0x9f } else { 0x1f };
            lemma_step_mov(code, pc, st, Register::Rax, imm);
            assert(spec_exec(code, pc, st) == spec_exec(
                code,
                (pc + expr_code(node).len()) as nat,
                (MachineState { regs: st.regs.update(0, expr_value(node)), flags: st.flags }),
            ));
        },
        AstNode::Char(c) => {
            lemma_step_mov(code, pc, st, Register::Rax, (256 * (c as int) + 15) as i32);
            let x = c as u64;
            assert((x << 8) | 0x0f == x * 256 + 15) by (bit_vector)
                requires
                    x <= 0x10ffff,
            ;
            assert(word_bits(((256 * (c as int) + 15) as i32) as i64) == encode_char_word(c));
            assert(spec_exec(code, pc, st) == spec_exec(
                code,
                (pc + expr_code(node).len()) as nat,
                (MachineState { regs: st.regs.update(0, expr_value(node)), flags: st.flags }),
            ));
        },
        AstNode::Nil => {
            lemma_step_mov(code, pc, st, Register::Rax, 0x2f);
            assert(spec_exec(code, pc, st) == spec_exec(
                code,
                (pc + expr_code(node).len()) as nat,
                (MachineState { regs: st.regs.update(0, expr_value(node)), flags: st.flags }),
            ));
        },
        AstNode::Symbol(_) => {
        },
        AstNode::Pair { car, cdr } => {
            lemma_compiled_call_runs(*car, *cdr, code, pc, st);
        },
    }
}

/// Running a compiled call form's code block leaves the call's value in
/// the accumulator.
#[verifier::rlimit(50)]
proof fn lemma_compiled_call_runs(
    car: AstNode,
    cdr: AstNode,
    code: Seq<u8>,
    pc: nat,
    st: MachineState,
)
    requires
        st.regs.len() == 8,
        spec_compile_call(car, cdr) is Ok,
        eval_expr(AstNode::Pair { car: Box::new(car), cdr: Box::new(cdr) }) is Some,
        ({
            let node = AstNode::Pair { car: Box::new(car), cdr: Box::new(cdr) };
            pc + expr_code(node).len() <= code.len() && code.subrange(
                pc as int,
                pc as int + expr_code(node).len(),
            ) == expr_code(node)
        }),
    ensures
        ({
            let node = AstNode::Pair { car: Box::new(car), cdr: Box::new(cdr) };
            exists|f: Option<MachineFlags>|
                spec_exec(code, pc, st) == spec_exec(
                    code,
                    (pc + expr_code(node).len()) as nat,
                    (MachineState { regs: st.regs.update(0, expr_value(node)), flags: f }),
                )
        }),
    decreases cdr,
{
    let node = AstNode::Pair { car: Box::new(car), cdr: Box::new(cdr) };
    let arg = match cdr {
        AstNode::Pair { car: arg, cdr: _ } => *arg,
        _ => AstNode::Nil,
    };
    let name_view = match car {
        AstNode::Symbol(name) => name@,
        _ => Seq::empty(),
    };
    let w = expr_value(arg);
    let ab = expr_code(arg);
    let alen = ab.len();
    let op = expr_code(node).subrange(alen as int, expr_code(node).len() as int);
    assert(expr_code(node) == ab + op) by {
        lemma_unary_op_decomposition(car, cdr);
        assert(expr_code(node).subrange(0, alen as int) =~= ab);
        assert(ab + op =~= expr_code(node));
    }
    lemma_head_bytes(code, pc as int, ab, op);
    lemma_tail_bytes(code, pc as int, ab, op);
    lemma_compiled_expr_runs(arg, code, pc, st);
    let f1 = choose|f: Option<MachineFlags>|
        spec_exec(code, pc, st) == spec_exec(
            code,
            (pc + alen) as nat,
            (MachineState { regs: st.regs.update(0, w), flags: f }),
        );
    let st1 = MachineState { regs: st.regs.update(0, w), flags: f1 };
    let p2 = (pc + alen) as nat;
    if name_view == "add1"@ {
        assert(expr_code(node) == ab + add_reg_imm32_bytes(Register::Rax, 4));
        assert(op =~= add_reg_imm32_bytes(Register::Rax, 4));
        lemma_step_add(code, p2, st1, Register::Rax, 4);
        assert(word_bits(4i64) == 4u64);
        let stf = MachineState { regs: st.regs.update(0, wrap_add(w, 4)), flags: None };
        assert(st1.regs.update(0, wrap_add(st1.regs[0], 4)) =~= stf.regs);
        assert(spec_exec(code, pc, st) == spec_exec(
            code,
            (pc + expr_code(node).len()) as nat,
            stf,
        ));
        assert(expr_value(node) == wrap_add(w, 4));
        assert(spec_exec(code, pc, st) == spec_exec(
            code,
            (pc + expr_code(node).len()) as nat,
            (MachineState { regs: st.regs.update(0, expr_value(node)), flags: None }),
        ));
    } else if name_view == "sub1"@ {
        assert(expr_code(node) == ab + sub_reg_imm32_bytes(Register::Rax, 4));
        assert(op =~= sub_reg_imm32_bytes(Register::Rax, 4));
        lemma_step_sub(code, p2, st1, Register::Rax, 4);
        assert(word_bits(4i64) == 4u64);
        let stf = MachineState { regs: st.regs.update(0, wrap_sub(w, 4)), flags: None };
        assert(st1.regs.update(0, wrap_sub(st1.regs[0], 4)) =~= stf.regs);
        assert(spec_exec(code, pc, st) == spec_exec(
            code,
            (pc + expr_code(node).len()) as nat,
            stf,
        ));
        assert(expr_value(node) == wrap_sub(w, 4));
        assert(spec_exec(code, pc, st) == spec_exec(
            code,
            (pc + expr_code(node).len()) as nat,
            (MachineState { regs: st.regs.update(0, expr_value(node)), flags: None }),
        ));
    } else if name_view == "integer->char"@ {
        let shl_b = shl_reg_imm8_bytes(Register::Rax, 6);
        let or_b = or_reg_imm8_bytes(Register::Rax, 0x0f);
        assert(op == shl_b + or_b);
        lemma_head_bytes(code, p2 as int, shl_b, or_b);
        lemma_tail_bytes(code, p2 as int, shl_b, or_b);
        lemma_step_shl(code, p2, st1, Register::Rax, 6);
        let st2 = MachineState { regs: st1.regs.update(0, w << 6u8), flags: None };
        assert(st1.regs.update(0, st1.regs[0] << 6u8) =~= st2.regs);
        lemma_step_or(code, (p2 + 4) as nat, st2, Register::Rax, 0x0f);
        assert(sign_extend_imm8(0x0f) == 0x0f);
        let stf = MachineState { regs: st.regs.update(0, (w << 6u8) | 0x0f), flags: None };
        assert(st2.regs.update(0, st2.regs[0] | 0x0f) =~= stf.regs);
        assert((w << 6u8) == (w << 6)) by (bit_vector);
        assert(spec_exec(code, pc, st) == spec_exec(
            code,
            (pc + expr_code(node).len()) as nat,
            stf,
        ));
        assert(expr_value(node) == (w << 6) | 0x0f);
        assert(spec_exec(code, pc, st) == spec_exec(
            code,
            (pc + expr_code(node).len()) as nat,
            (MachineState { regs: st.regs.update(0, expr_value(node)), flags: None }),
        ));
    } else if name_view == "nil?"@ {
        assert(op == crate::compiler::compare_imm32_code(0x2f));
        lemma_compare_block(code, p2, st1, 0x2f);
        let stf = MachineState {
            regs: st.regs.update(0, encode_bool_word(w == K_NIL_VALUE)),
            flags: None,
        };
        assert(st1.regs.update(0, encode_bool_word(st1.regs[0] == 0x2f)) =~= stf.regs);
        assert(spec_exec(code, pc, st) == spec_exec(
            code,
            (pc + expr_code(node).len()) as nat,
            stf,
        ));
        assert(expr_value(node) == encode_bool_word(w == K_NIL_VALUE));
        assert(spec_exec(code, pc, st) == spec_exec(
            code,
            (pc + expr_code(node).len()) as nat,
            (MachineState { regs: st.regs.update(0, expr_value(node)), flags: None }),
        ));
    } else if name_view == "zero?"@ {
        assert(op == crate::compiler::compare_imm32_code(0));
        lemma_compare_block(code, p2, st1, 0);
        let stf = MachineState { regs: st.regs.update(0, encode_bool_word(w == 0)), flags: None };
        assert(st1.regs.update(0, encode_bool_word(st1.regs[0] == 0)) =~= stf.regs);
        assert(spec_exec(code, pc, st) == spec_exec(
            code,
            (pc + expr_code(node).len()) as nat,
            stf,
        ));
        assert(expr_value(node) == encode_bool_word(w == 0));
        assert(spec_exec(code, pc, st) == spec_exec(
            code,
            (pc + expr_code(node).len()) as nat,
            (MachineState { regs: st.regs.update(0, expr_value(node)), flags: None }),
        ));
    } else if name_view == "integer?"@ {
        let and_b = and_reg_imm8_bytes(Register::Rax, 0x03);
        let cmp_seq = crate::compiler::compare_imm32_code(0);
        assert(op == and_b + cmp_seq);
        lemma_head_bytes(code, p2 as int, and_b, cmp_seq);
        lemma_tail_bytes(code, p2 as int, and_b, cmp_seq);
        lemma_step_and(code, p2, st1, Register::Rax, 0x03);
        assert(sign_extend_imm8(0x03) == 0x03);
        let st2 = MachineState { regs: st1.regs.update(0, w & 0x03), flags: None };
        assert(st1.regs.update(0, st1.regs[0] & 0x03) =~= st2.regs);
        lemma_compare_block(code, (p2 + 4) as nat, st2, 0);
        let stf = MachineState {
            regs: st.regs.update(0, encode_bool_word(w & 0x03 == 0)),
            flags: None,
        };
        assert(st2.regs.update(0, encode_bool_word(st2.regs[0] == 0)) =~= stf.regs);
        assert(spec_exec(code, pc, st) == spec_exec(
            code,
            (pc + expr_code(node).len()) as nat,
            stf,
        ));
        assert(expr_value(node) == encode_bool_word(w & 0x03 == 0));
        assert(spec_exec(code, pc, st) == spec_exec(
            code,
            (pc + expr_code(node).len()) as nat,
            (MachineState { regs: st.regs.update(0, expr_value(node)), flags: None }),
        ));
    } else {
        assert(name_view == "bool?"@);
        let and_b = and_reg_imm8_bytes(Register::Rax, 0x1f);
        let cmp_seq = crate::compiler::compare_imm32_code(0x1f);
        assert(op == and_b + cmp_seq);
        lemma_head_bytes(code, p2 as int, and_b, cmp_seq);
        lemma_tail_bytes(code, p2 as int, and_b, cmp_seq);
        lemma_step_and(code, p2, st1, Register::Rax, 0x1f);
        assert(sign_extend_imm8(0x1f) == 0x1f);
        let st2 = MachineState { regs: st1.regs.update(0, w & 0x1f), flags: None };
        assert(st1.regs.update(0, st1.regs[0] & 0x1f) =~= st2.regs);
        lemma_compare_block(code, (p2 + 4) as nat, st2, 0x1f);
        let stf = MachineState {
            regs: st.regs.update(0, encode_bool_word(w & 0x1f == 0x1f)),
            flags: None,
        };
        assert(st2.regs.update(0, encode_bool_word(st2.regs[0] == 0x1f)) =~= stf.regs);
        assert(spec_exec(code, pc, st) == spec_exec(
            code,
            (pc + expr_code(node).len()) as nat,
            stf,
        ));
        assert(expr_value(node) == encode_bool_word(w & 0x1f == 0x1f));
        assert(spec_exec(code, pc, st) == spec_exec(
            code,
            (pc + expr_code(node).len()) as nat,
            (MachineState { regs: st.regs.update(0, expr_value(node)), flags: None }),
        ));
    }
}

/// A successful call-form compilation is the argument's code followed by
/// the primitive's own bytes, and the argument itself compiles and has a
/// value.
proof fn lemma_unary_op_decomposition(car: AstNode, cdr: AstNode)
    requires
        spec_compile_call(car, cdr) is Ok,
        eval_expr(AstNode::Pair { car: Box::new(car), cdr: Box::new(cdr) }) is Some,
    ensures
        ({
            let node = AstNode::Pair { car: Box::new(car), cdr: Box::new(cdr) };
            match cdr {
                AstNode::Pair { car: arg, cdr: rest } => {
                    &&& spec_compile_expr(*arg) is Ok
                    &&& eval_expr(*arg) is Some
                    &&& expr_code(node).len() >= expr_code(*arg).len()
                    &&& expr_code(node).subrange(0, expr_code(*arg).len() as int) == expr_code(
                        *arg,
                    )
                },
                _ => false,
            }
        }),
{
    match cdr {
        AstNode::Pair { car: arg, cdr: rest } => {
            match car {
                AstNode::Symbol(name) => {
                    match spec_compile_expr(*arg) {
                        Ok(ab) => {
                            let node = AstNode::Pair { car: Box::new(car), cdr: Box::new(cdr) };
                            match spec_compile_call(car, cdr) {
                                Ok(full) => {
                                    assert(full.subrange(0, ab.len() as int) =~= ab);
                                },
                                Err(_) => {},
                            }
                        },
                        Err(_) => {},
                    }
                },
                _ => {},
            }
        },
        _ => {},
    }
}

/// The compiler correctness theorem: running the machine code of any
/// successfully compiled expression that has a value yields exactly that
/// value, as the signed word native code would return.
pub proof fn lemma_compiled_function_computes_eval(node: AstNode)
    requires
        spec_compile_function(node) is Ok,
        eval_expr(node) is Some,
    ensures
        ({
            let full = match spec_compile_function(node) {
                Ok(b) => b,
                Err(_) => Seq::empty(),
            };
            spec_run(full) == Some(bits_word(expr_value(node)))
        }),
{
    let full = match spec_compile_function(node) {
        Ok(b) => b,
        Err(_) => Seq::<u8>::empty(),
    };
    let eb = expr_code(node);
    assert(full == eb + ret_bytes());
    let st0 = init_state();
    assert(full.subrange(0, eb.len() as int) =~= eb);
    lemma_compiled_expr_runs(node, full, 0, st0);
    let f1 = choose|f: Option<MachineFlags>|
        spec_exec(full, 0, st0) == spec_exec(
            full,
            (0 + eb.len()) as nat,
            (MachineState { regs: st0.regs.update(0, expr_value(node)), flags: f }),
        );
    let st1 = MachineState { regs: st0.regs.update(0, expr_value(node)), flags: f1 };
    assert(full[eb.len() as int] == 0xc3) by {
        assert(full[eb.len() as int] == (eb + ret_bytes())[eb.len() as int]);
    }
    lemma_step_ret(full, eb.len(), st1);
    assert(st1.regs[0] == expr_value(node));
}


/// Adding the tagged one to an encoded integer, as the compiled increment
/// does, yields the encoding of the successor.
pub proof fn lemma_increment_tagged(v: i64)
    requires
        K_INTEGER_MIN <= v < K_INTEGER_MAX,
    ensures
        wrap_add(encode_integer_word(v), 4) == encode_integer_word((v + 1) as i64),
{
}

/// Subtracting the tagged one from an encoded integer, as the compiled
/// decrement does, yields the encoding of the predecessor.
pub proof fn lemma_decrement_tagged(v: i64)
    requires
        K_INTEGER_MIN < v <= K_INTEGER_MAX,
    ensures
        wrap_sub(encode_integer_word(v), 4) == encode_integer_word((v - 1) as i64),
{
}

/// The shift-and-tag sequence of the integer-to-character conversion turns
/// an encoded small integer into the encoded character with that code
/// point.
pub proof fn lemma_integer_to_char_tagged(v: i64)
    requires
        0 <= v < 256,
    ensures
        (encode_integer_word(v) << 6) | 0x0f == encode_char_word((v as u8) as char),
{
    let x = v as u64;
    let y = encode_integer_word(v);
    assert(y == 4 * x);
    assert(x < 256 && y == 4 * x ==> (y << 6) | 0x0f == (x << 8) | 0x0f) by (bit_vector);
    assert(((v as u8) as char) as u64 == x);
}


/// A compiled increment of an in-range literal runs to the encoded
/// successor.
pub proof fn lemma_increment_program(name: String, n: i64)
    requires
        name@ == "add1"@,
        -0x2000_0000 <= n < 0x2000_0000,
    ensures
        ({
            let node = AstNode::Pair {
                car: Box::new(AstNode::Symbol(name)),
                cdr: Box::new(
                    AstNode::Pair {
                        car: Box::new(AstNode::Integer(n)),
                        cdr: Box::new(AstNode::Nil),
                    },
                ),
            };
            let full = match spec_compile_function(node) {
                Ok(b) => b,
                Err(_) => Seq::empty(),
            };
            spec_compile_function(node) is Ok && spec_run(full) == Some(
                bits_word(encode_integer_word((n + 1) as i64)),
            )
        }),
{
    let node = AstNode::Pair {
        car: Box::new(AstNode::Symbol(name)),
        cdr: Box::new(
            AstNode::Pair { car: Box::new(AstNode::Integer(n)), cdr: Box::new(AstNode::Nil) },
        ),
    };
    reveal_with_fuel(spec_compile_expr, 2);
    reveal_with_fuel(eval_expr, 2);
    lemma_increment_tagged(n);
    lemma_compiled_function_computes_eval(node);
}

/// A compiled decrement of an in-range literal runs to the encoded
/// predecessor.
pub proof fn lemma_decrement_program(name: String, n: i64)
    requires
        name@ == "sub1"@,
        -0x2000_0000 <= n < 0x2000_0000,
    ensures
        ({
            let node = AstNode::Pair {
                car: Box::new(AstNode::Symbol(name)),
                cdr: Box::new(
                    AstNode::Pair {
                        car: Box::new(AstNode::Integer(n)),
                        cdr: Box::new(AstNode::Nil),
                    },
                ),
            };
            let full = match spec_compile_function(node) {
                Ok(b) => b,
                Err(_) => Seq::empty(),
            };
            spec_compile_function(node) is Ok && spec_run(full) == Some(
                bits_word(encode_integer_word((n - 1) as i64)),
            )
        }),
{
    let node = AstNode::Pair {
        car: Box::new(AstNode::Symbol(name)),
        cdr: Box::new(
            AstNode::Pair { car: Box::new(AstNode::Integer(n)), cdr: Box::new(AstNode::Nil) },
        ),
    };
    reveal_with_fuel(spec_compile_expr, 2);
    reveal_with_fuel(eval_expr, 2);
    reveal_strlit("add1");
    reveal_strlit("sub1");
    assert("add1"@[0] != "sub1"@[0]);
    assert(name@ != "add1"@);
    lemma_decrement_tagged(n);
    lemma_compiled_function_computes_eval(node);
}

} // verus!
