//! The compiler: recursive descent over the syntax tree, emitting machine
//! code through the instruction encoder.
//!
//! A single accumulator register (`rax`) carries the value of every compiled
//! expression.  Literals become a tagged-immediate move; a pair in
//! expression position is a call form whose head must name one of a closed
//! set of unary primitives, each of which compiles its argument and then
//! operates on the accumulator in place.  Compilation of a whole function
//! appends exactly one return instruction at the end.

use crate::assembler::{
    add_reg_imm32_bytes, and_reg_imm8_bytes, cmp_reg_imm32_bytes, mov_reg_imm32_bytes,
    or_reg_imm8_bytes, ret_bytes, setcc_imm8_bytes, shl_reg_imm8_bytes, sub_reg_imm32_bytes,
    Assembler, PartialRegister, Register, SetccConditions,
};
use crate::ast::AstNode;
use crate::encodings::{
    is_symbol_word, LispValue, Symbol, K_BOOL_SHIFT,
    K_BOOL_TAG, K_CHAR_SHIFT, K_CHAR_TAG, K_INTEGER_MASK, K_INTEGER_MAX, K_INTEGER_MIN,
    K_INTEGER_SHIFT, K_INTEGER_TAG,
};
use crate::tokenizer::str_eq_str;
use vstd::prelude::*;

verus! {

/// Compilation errors, distinguishing kind and context.
#[derive(Debug)]
pub enum CompilerError {
    /// The symbol arena cannot grow any further.
    ValueTooLarge,
    /// An integer literal lies outside the encodable payload range.
    IntegerTooLarge(i64),
    /// A literal's tagged word does not fit a sign-extended 32-bit move.
    ValueRequires64BitMove,
    AssemblerError(String),
    /// The call head names no known primitive.
    NotAFunction(String),
    /// The call head is not a symbol.
    NotASymbol,
    /// The argument list of a primitive has the wrong shape.
    InvalidArguments(String),
}

/// The error kinds of the compilation specification.
pub enum SpecCompileError {
    IntegerTooLarge(i64),
    ValueRequires64BitMove,
    NotAFunction(Seq<char>),
    NotASymbol,
    InvalidArguments,
}

/// Whether a returned error carries the kind (and context) the
/// specification assigns.
pub open spec fn err_matches(e: CompilerError, k: SpecCompileError) -> bool {
    match (e, k) {
        (CompilerError::IntegerTooLarge(a), SpecCompileError::IntegerTooLarge(b)) => a == b,
        (
            CompilerError::ValueRequires64BitMove,
            SpecCompileError::ValueRequires64BitMove,
        ) => true,
        (CompilerError::NotAFunction(s), SpecCompileError::NotAFunction(n)) => s@ == n,
        (CompilerError::NotASymbol, SpecCompileError::NotASymbol) => true,
        (CompilerError::InvalidArguments(_), SpecCompileError::InvalidArguments) => true,
        _ => false,
    }
}

/// The code that turns a compare against an immediate into one of the two
/// canonical boolean words: compare, zero the register, set the low byte on
/// equality, shift the byte into the payload position, or in the tag.
pub open spec fn compare_imm32_code(w: u32) -> Seq<u8> {
    cmp_reg_imm32_bytes(Register::Rax, w) + mov_reg_imm32_bytes(Register::Rax, 0)
        + setcc_imm8_bytes(SetccConditions::Equal, PartialRegister::Al) + shl_reg_imm8_bytes(
        Register::Rax,
        7,
    ) + or_reg_imm8_bytes(Register::Rax, 0x1f)
}

/// The code a whole expression compiles to, or the error that stops it.
pub open spec fn spec_compile_expr(node: AstNode) -> Result<Seq<u8>, SpecCompileError>
    decreases node, 2int,
{
    match node {
        AstNode::Integer(v) => {
            if v < K_INTEGER_MIN || v > K_INTEGER_MAX {
                Err(SpecCompileError::IntegerTooLarge(v))
            } else if v < -0x2000_0000 || v >= 0x2000_0000 {
                Err(SpecCompileError::ValueRequires64BitMove)
            } else {
                Ok(mov_reg_imm32_bytes(Register::Rax, (4 * v) as i32))
            }
        },
        AstNode::Bool(b) => Ok(
            mov_reg_imm32_bytes(
                Register::Rax,
                if b {
                    0x9f
                } else {
                    0x1f
                },
            ),
        ),
        AstNode::Char(c) => Ok(mov_reg_imm32_bytes(Register::Rax, (256 * (c as int) + 15) as i32)),
        AstNode::Nil => Ok(mov_reg_imm32_bytes(Register::Rax, 0x2f)),
        AstNode::Symbol(_) => Ok(Seq::<u8>::empty()),
        AstNode::Pair { car, cdr } => spec_compile_call(*car, *cdr),
    }
}

/// The code a call form compiles to: the head must be a symbol naming one
/// of the unary primitives, and the argument list must be `(arg . nil)`.
pub open spec fn spec_compile_call(car: AstNode, cdr: AstNode) -> Result<Seq<u8>, SpecCompileError>
    decreases cdr, 1int,
{
    match car {
        AstNode::Symbol(name) => {
            if name@ == "add1"@ {
                spec_compile_unary(cdr, add_reg_imm32_bytes(Register::Rax, 4))
            } else if name@ == "sub1"@ {
                spec_compile_unary(cdr, sub_reg_imm32_bytes(Register::Rax, 4))
            } else if name@ == "integer->char"@ {
                spec_compile_unary(
                    cdr,
                    shl_reg_imm8_bytes(Register::Rax, 6) + or_reg_imm8_bytes(Register::Rax, 0x0f),
                )
            } else if name@ == "nil?"@ {
                spec_compile_unary(cdr, compare_imm32_code(0x2f))
            } else if name@ == "zero?"@ {
                spec_compile_unary(cdr, compare_imm32_code(0))
            } else if name@ == "integer?"@ {
                spec_compile_unary(
                    cdr,
                    and_reg_imm8_bytes(Register::Rax, 0x03) + compare_imm32_code(0),
                )
            } else if name@ == "bool?"@ {
                spec_compile_unary(
                    cdr,
                    and_reg_imm8_bytes(Register::Rax, 0x1f) + compare_imm32_code(0x1f),
                )
            } else {
                Err(SpecCompileError::NotAFunction(name@))
            }
        },
        _ => Err(SpecCompileError::NotASymbol),
    }
}

/// The code a unary primitive's argument list compiles to, followed by the
/// primitive's own bytes: the list must be exactly `(arg . nil)`.
pub open spec fn spec_compile_unary(cdr: AstNode, op_bytes: Seq<u8>) -> Result<
    Seq<u8>,
    SpecCompileError,
>
    decreases cdr, 0int,
{
    match cdr {
        AstNode::Pair { car: arg, cdr: rest } => {
            if (*rest matches AstNode::Nil) {
                match spec_compile_expr(*arg) {
                    Ok(arg_bytes) => Ok(arg_bytes + op_bytes),
                    Err(e) => Err(e),
                }
            } else {
                Err(SpecCompileError::InvalidArguments)
            }
        },
        _ => Err(SpecCompileError::InvalidArguments),
    }
}

/// The code a whole function compiles to: the expression's code followed by
/// exactly one return instruction.
pub open spec fn spec_compile_function(node: AstNode) -> Result<Seq<u8>, SpecCompileError> {
    match spec_compile_expr(node) {
        Ok(bytes) => Ok(bytes + ret_bytes()),
        Err(e) => Err(e),
    }
}

/// The primitive's bytes distribute over the argument compilation.
proof fn lemma_unary_op_bytes(cdr: AstNode, op_bytes: Seq<u8>)
    ensures
        match (spec_compile_unary(cdr, op_bytes), spec_compile_unary(cdr, Seq::<u8>::empty())) {
            (Ok(b1), Ok(b0)) => b1 == b0 + op_bytes,
            (Err(k1), Err(k0)) => k1 == k0,
            _ => false,
        },
{
    match cdr {
        AstNode::Pair { car: arg, cdr: rest } => {
            if (*rest matches AstNode::Nil) {
                match spec_compile_expr(*arg) {
                    Ok(arg_bytes) => {
                        assert((arg_bytes + Seq::<u8>::empty()) + op_bytes =~= arg_bytes
                            + op_bytes);
                    },
                    Err(_) => {},
                }
            }
        },
        _ => {},
    }
}

/// Whether a name stands in a symbol arena.
pub open spec fn name_interned(syms: Seq<Symbol>, n: Seq<char>) -> bool {
    exists|i: int| 0 <= i < syms.len() && (#[trigger] syms[i]).name@ == n
}

/// The effect of interning one name on the arena: the name stands in the
/// new arena, and the only change is the one record appended for a name
/// not seen before.
pub open spec fn interning_step(old_syms: Seq<Symbol>, new_syms: Seq<Symbol>, n: Seq<char>) -> bool {
    &&& name_interned(new_syms, n)
    &&& if name_interned(old_syms, n) {
        new_syms == old_syms
    } else {
        new_syms.len() == old_syms.len() + 1 && new_syms.take(old_syms.len() as int) == old_syms
            && new_syms.last().name@ == n
    }
}

/// The single leaf at the end of a call-form spine: every call form has
/// exactly one argument, so a tree has one leaf, the only node that can
/// intern a symbol.  For an ill-shaped argument list (which never compiles)
/// the leaf is taken as nil.
pub open spec fn spine_leaf(node: AstNode) -> AstNode
    decreases node,
{
    match node {
        AstNode::Pair { car: _, cdr } => arg_leaf_of(*cdr),
        _ => node,
    }
}

/// The leaf of a call form, seen from its argument list.
pub open spec fn arg_leaf_of(cdr: AstNode) -> AstNode
    decreases cdr,
{
    match cdr {
        AstNode::Pair { car: arg, cdr: _ } => spine_leaf(*arg),
        _ => AstNode::Nil,
    }
}

/// Whether compiling a tree with the given leaf cannot proceed: the arena
/// is already full and the leaf is a symbol not yet interned.
pub open spec fn arena_blocked(old_syms: Seq<Symbol>, leaf: AstNode) -> bool {
    old_syms.len() == K_MAX_SYMBOLS && (leaf matches AstNode::Symbol(n) && !name_interned(
        old_syms,
        n@,
    ))
}

/// How an exec compilation step must relate to its specification.  When
/// the specification compiles, the call succeeds — and emits exactly the
/// specified bytes — unless the arena blocks the tree's one leaf, the one
/// failure the specification does not anticipate; it emits and interns
/// nothing.  When the specification errs, the call returns the specified
/// error kind, emitting and interning nothing.
pub open spec fn compile_outcome_matches(
    spec_r: Result<Seq<u8>, SpecCompileError>,
    r: Result<(), CompilerError>,
    old_code: Seq<u8>,
    new_code: Seq<u8>,
    old_syms: Seq<Symbol>,
    new_syms: Seq<Symbol>,
    leaf: AstNode,
) -> bool {
    match spec_r {
        Ok(bytes) => {
            &&& (r is Ok <==> !arena_blocked(old_syms, leaf))
            &&& (r is Ok ==> new_code == old_code + bytes)
            &&& (r matches Err(e) ==> e matches CompilerError::ValueTooLarge && new_syms
                == old_syms && new_code == old_code)
        },
        Err(k) => (r matches Err(e) && err_matches(e, k)) && new_code == old_code && new_syms
            == old_syms,
    }
}

/// The most symbol records one compiler will ever intern.
pub const K_MAX_SYMBOLS: usize = 0x0100_0000;

/// The word that stands for the symbol record at arena index `i`: the
/// record's 8-byte-aligned address, tagged.
pub open spec fn sym_word(i: int) -> u64 {
    (8 * i + 5) as u64
}

/// The compiler: an instruction encoder and the symbol-interning arena,
/// exclusively owned.  One instance compiles one function body; reusing it
/// accumulates further code in the same buffer.
pub struct Compiler {
    emitter: Assembler,
    symbol_table: Vec<Symbol>,
}

impl Compiler {
    /// The machine code accumulated so far.
    pub closed spec fn code(&self) -> Seq<u8> {
        self.emitter@
    }

    /// The interned symbol records, in arena order.
    pub closed spec fn symbols(&self) -> Seq<Symbol> {
        self.symbol_table@
    }

    /// Interned names are distinct, and the arena is bounded.
    pub open spec fn wf(&self) -> bool {
        &&& forall|i: int, j: int|
            0 <= i < j < self.symbols().len() ==> (#[trigger] self.symbols()[i]).name@ != (
            #[trigger] self.symbols()[j]).name@
        &&& self.symbols().len() <= K_MAX_SYMBOLS
    }

    pub fn new() -> (r: Self)
        ensures
            r.wf(),
            r.code() == Seq::<u8>::empty(),
            r.symbols() == Seq::<Symbol>::empty(),
    {
        Compiler { emitter: Assembler::new(), symbol_table: Vec::new() }
    }

    /// Interns a symbol: at most one record exists per distinct name, and
    /// equal names always yield the same tagged word.
    fn intern_symbol(&mut self, name: &str) -> (r: Result<LispValue, CompilerError>)
        requires
            old(self).wf(),
        ensures
            final(self).wf(),
            final(self).code() == old(self).code(),
            match r {
                Ok(v) => {
                    &&& is_symbol_word(v@)
                    &&& exists|i: int|
                        0 <= i < final(self).symbols().len() && (#[trigger] final(self).symbols()[i]).name@ == name@ && v@ == sym_word(i)
                    &&& interning_step(old(self).symbols(), final(self).symbols(), name@)
                },
                Err(e) => e matches CompilerError::ValueTooLarge && final(self).symbols() == old(self).symbols() && old(self).symbols().len() == K_MAX_SYMBOLS
                    && !name_interned(old(self).symbols(), name@),
            },
    {
        let n = self.symbol_table.len();
        let mut i: usize = 0;
        while i < n
            invariant
                self == old(self),
                n == self.symbol_table.len(),
                i <= n,
                old(self).wf(),
                forall|k: int|
                    0 <= k < i ==> (#[trigger] self.symbol_table@[k]).name@ != name@,
            decreases n - i,
        {
            if str_eq_str(self.symbol_table[i].name.as_str(), name) {
                let addr: u64 = (i as u64) * 8;
                proof {
                    vstd::arithmetic::div_mod::lemma_mod_multiples_basic(i as int, 8);
                    assert(addr % 8 == 0 ==> addr & 0x7 == 0 && addr | 0x5 == addr + 5 && (addr
                        | 0x5) & 0x7 == 0x5) by (bit_vector);
                }
                let val = LispValue::from_symbol_pointer(addr);
                proof {
                    assert(self.symbol_table@[i as int].name@ == name@);
                    assert(val@ == sym_word(i as int));
                }
                return Ok(val);
            }
            i = i + 1;
        }
        if n >= K_MAX_SYMBOLS {
            return Err(CompilerError::ValueTooLarge);
        }
        let addr: u64 = (n as u64) * 8;
        proof {
            vstd::arithmetic::div_mod::lemma_mod_multiples_basic(n as int, 8);
            assert(addr % 8 == 0 ==> addr & 0x7 == 0 && addr | 0x5 == addr + 5 && (addr | 0x5)
                & 0x7 == 0x5) by (bit_vector);
        }
        let val = LispValue::from_symbol_pointer(addr);
        self.symbol_table.push(Symbol { name: name.to_owned() });
        proof {
            assert(self.symbol_table@.take(old(self).symbols().len() as int) =~= old(self).symbols());
            assert(self.symbol_table@[n as int].name@ == name@);
            assert(val@ == sym_word(n as int));
        }
        Ok(val)
    }

    /// Emits the compare-and-set-boolean sequence against one tagged word.
    fn compile_compare_imm32(&mut self, value: LispValue)
        requires
            old(self).wf(),
            value@ < 0x1_0000_0000,
        ensures
            final(self).wf(),
            final(self).symbols() == old(self).symbols(),
            final(self).code() == old(self).code() + compare_imm32_code(value@ as u32),
    {
        let w = value.as_raw_word();
        self.emitter.cmp_reg_imm32(Register::Rax, w as u32);
        self.emitter.mov_reg_imm32(Register::Rax, 0);
        self.emitter.setcc_imm8(SetccConditions::Equal, PartialRegister::Al);
        self.emitter.shl_reg_imm8(Register::Rax, (K_BOOL_SHIFT) as u8);
        self.emitter.or_reg_imm8(Register::Rax, (K_BOOL_TAG) as u8);
        proof {
            assert(final(self).code() =~= old(self).code() + compare_imm32_code(value@ as u32));
        }
    }

    /// Compiles one expression, leaving its value in the accumulator.
    /// Succeeds exactly when the specification compiles and the arena does
    /// not block the tree's leaf; the only state changes are the emitted
    /// bytes and the interning of a leaf symbol.
    fn compile_expr(&mut self, node: &AstNode) -> (r: Result<(), CompilerError>)
        requires
            old(self).wf(),
        ensures
            final(self).wf(),
            old(self).symbols().is_prefix_of(final(self).symbols()),
            compile_outcome_matches(
                spec_compile_expr(*node),
                r,
                old(self).code(),
                final(self).code(),
                old(self).symbols(),
                final(self).symbols(),
                spine_leaf(*node),
            ),
            r is Ok ==> match spine_leaf(*node) {
                AstNode::Symbol(name) => interning_step(
                    old(self).symbols(),
                    final(self).symbols(),
                    name@,
                ),
                _ => final(self).symbols() == old(self).symbols(),
            },
        decreases *node, 2int,
    {
        match node {
            AstNode::Integer(value) => {
                let v = *value;
                if v < K_INTEGER_MIN || v > K_INTEGER_MAX {
                    return Err(CompilerError::IntegerTooLarge(v));
                }
                if v < -0x2000_0000 || v >= 0x2000_0000 {
                    return Err(CompilerError::ValueRequires64BitMove);
                }
                let lisp_val = LispValue::from_integer(v);
                self.emitter.mov_reg_imm32(Register::Rax, lisp_val.as_raw_word() as i32);
                Ok(())
            },
            AstNode::Bool(value) => {
                let lisp_val = LispValue::from_bool(*value);
                self.emitter.mov_reg_imm32(Register::Rax, lisp_val.as_raw_word() as i32);
                Ok(())
            },
            AstNode::Char(value) => {
                let lisp_val = LispValue::from_char(*value);
                proof {
                    let x = *value as u64;
                    assert((x << 8) | 0x0f == x * 256 + 15) by (bit_vector)
                        requires
                            x <= 0x10ffff,
                    ;
                }
                self.emitter.mov_reg_imm32(Register::Rax, lisp_val.as_raw_word() as i32);
                Ok(())
            },
            AstNode::Nil => {
                let lisp_val = LispValue::nil();
                self.emitter.mov_reg_imm32(Register::Rax, lisp_val.as_raw_word() as i32);
                Ok(())
            },
            AstNode::Symbol(name) => {
                match self.intern_symbol(name.as_str()) {
                    Ok(_) => Ok(()),
                    Err(e) => Err(e),
                }
            },
            AstNode::Pair { car, cdr } => self.compile_call(car, cdr),
        }
    }

    /// Compiles a call form: a known unary primitive applied to one
    /// argument.
    fn compile_call(&mut self, car: &AstNode, cdr: &AstNode) -> (r: Result<(), CompilerError>)
        requires
            old(self).wf(),
        ensures
            final(self).wf(),
            old(self).symbols().is_prefix_of(final(self).symbols()),
            compile_outcome_matches(
                spec_compile_call(*car, *cdr),
                r,
                old(self).code(),
                final(self).code(),
                old(self).symbols(),
                final(self).symbols(),
                arg_leaf_of(*cdr),
            ),
            r is Ok ==> match arg_leaf_of(*cdr) {
                AstNode::Symbol(name) => interning_step(
                    old(self).symbols(),
                    final(self).symbols(),
                    name@,
                ),
                _ => final(self).symbols() == old(self).symbols(),
            },
        decreases *cdr, 1int,
    {
        let name = match car {
            AstNode::Symbol(name) => name,
            _ => {
                return Err(CompilerError::NotASymbol);
            },
        };
        if str_eq_str(name.as_str(), "add1") {
            proof {
                lemma_unary_op_bytes(*cdr, add_reg_imm32_bytes(Register::Rax, 4));
            }
            match self.compile_unary_arg(cdr, "add1") {
                Ok(()) => {
                    let encoded_one = LispValue::from_integer(1);
                    self.emitter.add_reg_imm32(Register::Rax, encoded_one.as_raw_word() as i32);
                    proof {
                        match spec_compile_unary(*cdr, Seq::<u8>::empty()) {
                            Ok(b0) => {
                                assert(self.code() =~= old(self).code() + (b0 + add_reg_imm32_bytes(Register::Rax, 4)));
                            },
                            _ => {},
                        }
                    }
                    Ok(())
                },
                Err(e) => Err(e),
            }
        } else if str_eq_str(name.as_str(), "sub1") {
            proof {
                lemma_unary_op_bytes(*cdr, sub_reg_imm32_bytes(Register::Rax, 4));
            }
            match self.compile_unary_arg(cdr, "sub1") {
                Ok(()) => {
                    let encoded_one = LispValue::from_integer(1);
                    self.emitter.sub_reg_imm32(Register::Rax, encoded_one.as_raw_word() as i32);
                    proof {
                        match spec_compile_unary(*cdr, Seq::<u8>::empty()) {
                            Ok(b0) => {
                                assert(self.code() =~= old(self).code() + (b0 + sub_reg_imm32_bytes(Register::Rax, 4)));
                            },
                            _ => {},
                        }
                    }
                    Ok(())
                },
                Err(e) => Err(e),
            }
        } else if str_eq_str(name.as_str(), "integer->char") {
            proof {
                lemma_unary_op_bytes(
                    *cdr,
                    shl_reg_imm8_bytes(Register::Rax, 6) + or_reg_imm8_bytes(Register::Rax, 0x0f),
                );
            }
            match self.compile_unary_arg(cdr, "integer->char") {
                Ok(()) => {
                    self.emitter.shl_reg_imm8(
                        Register::Rax,
                        (K_CHAR_SHIFT - K_INTEGER_SHIFT) as u8,
                    );
                    self.emitter.or_reg_imm8(Register::Rax, (K_CHAR_TAG) as u8);
                    proof {
                        match spec_compile_unary(*cdr, Seq::<u8>::empty()) {
                            Ok(b0) => {
                                assert(self.code() =~= old(self).code() + (b0 + (shl_reg_imm8_bytes(Register::Rax, 6) + or_reg_imm8_bytes(Register::Rax, 0x0f))));
                            },
                            _ => {},
                        }
                    }
                    Ok(())
                },
                Err(e) => Err(e),
            }
        } else if str_eq_str(name.as_str(), "nil?") {
            proof {
                lemma_unary_op_bytes(*cdr, compare_imm32_code(0x2f));
            }
            match self.compile_unary_arg(cdr, "nil?") {
                Ok(()) => {
                    self.compile_compare_imm32(LispValue::nil());
                    proof {
                        match spec_compile_unary(*cdr, Seq::<u8>::empty()) {
                            Ok(b0) => {
                                assert(self.code() =~= old(self).code() + (b0 + compare_imm32_code(0x2f)));
                            },
                            _ => {},
                        }
                    }
                    Ok(())
                },
                Err(e) => Err(e),
            }
        } else if str_eq_str(name.as_str(), "zero?") {
            proof {
                lemma_unary_op_bytes(*cdr, compare_imm32_code(0));
            }
            match self.compile_unary_arg(cdr, "zero?") {
                Ok(()) => {
                    self.compile_compare_imm32(LispValue::from_integer(0));
                    proof {
                        match spec_compile_unary(*cdr, Seq::<u8>::empty()) {
                            Ok(b0) => {
                                assert(self.code() =~= old(self).code() + (b0 + compare_imm32_code(0)));
                            },
                            _ => {},
                        }
                    }
                    Ok(())
                },
                Err(e) => Err(e),
            }
        } else if str_eq_str(name.as_str(), "integer?") {
            proof {
                lemma_unary_op_bytes(
                    *cdr,
                    and_reg_imm8_bytes(Register::Rax, 0x03) + compare_imm32_code(0),
                );
            }
            match self.compile_unary_arg(cdr, "integer?") {
                Ok(()) => {
                    self.emitter.and_reg_imm8(Register::Rax, (K_INTEGER_MASK) as u8);
                    self.compile_compare_imm32(LispValue::from_raw_word(K_INTEGER_TAG as i64));
                    proof {
                        match spec_compile_unary(*cdr, Seq::<u8>::empty()) {
                            Ok(b0) => {
                                assert(self.code() =~= old(self).code() + (b0 + (and_reg_imm8_bytes(Register::Rax, 0x03) + compare_imm32_code(0))));
                            },
                            _ => {},
                        }
                    }
                    Ok(())
                },
                Err(e) => Err(e),
            }
        } else if str_eq_str(name.as_str(), "bool?") {
            proof {
                lemma_unary_op_bytes(
                    *cdr,
                    and_reg_imm8_bytes(Register::Rax, 0x1f) + compare_imm32_code(0x1f),
                );
            }
            match self.compile_unary_arg(cdr, "bool?") {
                Ok(()) => {
                    self.emitter.and_reg_imm8(Register::Rax, (K_BOOL_TAG) as u8);
                    self.compile_compare_imm32(LispValue::from_raw_word(K_BOOL_TAG as i64));
                    proof {
                        match spec_compile_unary(*cdr, Seq::<u8>::empty()) {
                            Ok(b0) => {
                                assert(self.code() =~= old(self).code() + (b0 + (and_reg_imm8_bytes(Register::Rax, 0x1f) + compare_imm32_code(0x1f))));
                            },
                            _ => {},
                        }
                    }
                    Ok(())
                },
                Err(e) => Err(e),
            }
        } else {
            Err(CompilerError::NotAFunction(name.clone()))
        }
    }

    /// Checks that a primitive's argument list is `(arg . nil)` and
    /// compiles the argument.
    fn compile_unary_arg(&mut self, cdr: &AstNode, prim: &str) -> (r: Result<(), CompilerError>)
        requires
            old(self).wf(),
        ensures
            final(self).wf(),
            old(self).symbols().is_prefix_of(final(self).symbols()),
            compile_outcome_matches(
                spec_compile_unary(*cdr, Seq::<u8>::empty()),
                r,
                old(self).code(),
                final(self).code(),
                old(self).symbols(),
                final(self).symbols(),
                arg_leaf_of(*cdr),
            ),
            r is Ok ==> match arg_leaf_of(*cdr) {
                AstNode::Symbol(name) => interning_step(
                    old(self).symbols(),
                    final(self).symbols(),
                    name@,
                ),
                _ => final(self).symbols() == old(self).symbols(),
            },
        decreases *cdr, 0int,
    {
        match cdr {
            AstNode::Pair { car: arg, cdr: rest } => {
                match &**rest {
                    AstNode::Nil => {
                        let res = self.compile_expr(arg);
                        proof {
                            if let Ok(arg_bytes) = spec_compile_expr(**arg) {
                                assert(arg_bytes + Seq::<u8>::empty() =~= arg_bytes);
                            }
                        }
                        res
                    },
                    _ => Err(
                        CompilerError::InvalidArguments(
                            prim.to_owned().concat(" expects 1 argument"),
                        ),
                    ),
                }
            },
            _ => Err(
                CompilerError::InvalidArguments(
                    prim.to_owned().concat(" expects 1 argument. Needs a pair"),
                ),
            ),
        }
    }

    /// Compiles a whole function body: the expression's code and a final
    /// return instruction.  The compiled bytes are returned and also remain
    /// in the buffer, so a reused compiler accumulates code.  Succeeds
    /// exactly when the specification compiles and the arena does not block
    /// the tree's leaf.
    pub fn compile_function(&mut self, ast_node: &AstNode) -> (r: Result<Vec<u8>, CompilerError>)
        requires
            old(self).wf(),
        ensures
            final(self).wf(),
            old(self).symbols().is_prefix_of(final(self).symbols()),
            match spec_compile_function(*ast_node) {
                Ok(bytes) => {
                    &&& (r is Ok <==> !arena_blocked(old(self).symbols(), spine_leaf(*ast_node)))
                    &&& (r matches Ok(code) ==> code@ == old(self).code() + bytes && final(self).code() == old(self).code() + bytes)
                    &&& (r is Err ==> (r matches Err(e) && e matches CompilerError::ValueTooLarge)
                        && final(self).symbols() == old(self).symbols() && final(self).code()
                        == old(self).code())
                },
                Err(k) => (r matches Err(e) && err_matches(e, k)) && final(self).code() == old(self).code() && final(self).symbols() == old(self).symbols(),
            },
            r is Ok ==> match spine_leaf(*ast_node) {
                AstNode::Symbol(name) => interning_step(
                    old(self).symbols(),
                    final(self).symbols(),
                    name@,
                ),
                _ => final(self).symbols() == old(self).symbols(),
            },
    {
        match self.compile_expr(ast_node) {
            Ok(()) => {},
            Err(e) => {
                return Err(e);
            },
        }
        self.emitter.ret();
        proof {
            if let Ok(bytes) = spec_compile_expr(*ast_node) {
                assert((old(self).code() + bytes) + ret_bytes() =~= old(self).code() + (bytes
                    + ret_bytes()));
            }
        }
        let code = self.emitter.finalize();
        let copy = code.clone();
        proof {
            assert(copy@ =~= self.emitter@);
        }
        Ok(copy)
    }
}


} // verus!
