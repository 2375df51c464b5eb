//! An instruction-level emulator for the encoder's vocabulary.
//!
//! The emulator decodes and executes exactly the byte sequences the
//! instruction encoder can produce: 64-bit move/add/subtract/compare with a
//! 32-bit immediate, shift/or/and with an 8-bit immediate, set-byte-from-
//! condition, and return.  It runs a compiled function without mapping any
//! executable memory, which lets tests observe what generated code computes.
//!
//! Registers start at zero.  Flags are modeled only as far as the encoder's
//! vocabulary needs them: a compare defines them, any other arithmetic or
//! logical instruction invalidates them, and a move leaves them alone.  A
//! set-byte-from-condition with invalidated flags, like any byte sequence
//! outside the vocabulary, makes the run refuse with `None` rather than
//! guess.

use crate::encodings::as_signed;
use vstd::prelude::*;

verus! {

/// The processor flags a compare leaves behind: zero, carry (unsigned
/// borrow), and signed overflow.
pub struct MachineFlags {
    pub zf: bool,
    pub cf: bool,
    pub of: bool,
}

/// The machine state between instructions: the eight general-purpose
/// registers, and the flags when the most recent flag-setting instruction
/// was a compare.
pub struct MachineState {
    pub regs: Seq<u64>,
    pub flags: Option<MachineFlags>,
}

/// The state a run starts in: all registers zero, no flags defined.
pub open spec fn init_state() -> MachineState {
    MachineState { regs: Seq::new(8, |i: int| 0u64), flags: None }
}

/// A 32-bit immediate sign-extended to 64 bits.
pub open spec fn sign_extend_imm32(v: u32) -> u64 {
    if v < 0x8000_0000 {
        v as u64
    } else {
        (v + 0xffff_ffff_0000_0000) as u64
    }
}

/// An 8-bit immediate sign-extended to 64 bits.
pub open spec fn sign_extend_imm8(b: u8) -> u64 {
    if b < 0x80 {
        b as u64
    } else {
        (b + 0xffff_ffff_ffff_ff00) as u64
    }
}

/// The little-endian 32-bit value at position `p`.
pub open spec fn read_imm32(code: Seq<u8>, p: int) -> u32 {
    (code[p] + 256 * code[p + 1] + 0x1_0000 * code[p + 2] + 0x100_0000 * code[p + 3]) as u32
}

/// 64-bit addition, wrapping around.
pub open spec fn wrap_add(a: u64, b: u64) -> u64 {
    if a + b > u64::MAX {
        (a + b - 0x1_0000_0000_0000_0000) as u64
    } else {
        (a + b) as u64
    }
}

/// 64-bit subtraction, wrapping around.
pub open spec fn wrap_sub(a: u64, b: u64) -> u64 {
    if a >= b {
        (a - b) as u64
    } else {
        (a - b + 0x1_0000_0000_0000_0000) as u64
    }
}

/// The flags a compare of `a` against `b` defines.
pub open spec fn cmp_flags(a: u64, b: u64) -> MachineFlags {
    MachineFlags {
        zf: a == b,
        cf: a < b,
        of: ({
            let d = as_signed(a) - as_signed(b);
            d < -0x8000_0000_0000_0000 || d > 0x7fff_ffff_ffff_ffff
        }),
    }
}

/// Whether the condition with code `cc` holds under the given flags:
/// overflow, no-overflow, below, above-or-equal, equal.
pub open spec fn cond_holds(cc: u8, f: MachineFlags) -> bool {
    if cc == 0 {
        f.of
    } else if cc == 1 {
        !f.of
    } else if cc == 2 {
        f.cf
    } else if cc == 3 {
        !f.cf
    } else {
        f.zf
    }
}

/// The register file after a set-byte-from-condition writes `bit` into the
/// partial register with code `preg`: codes 0 to 3 are the low bytes of the
/// first four registers, 4 to 7 their second-lowest bytes.
pub open spec fn set_partial(regs: Seq<u64>, preg: u8, bit: u64) -> Seq<u64> {
    if preg < 4 {
        regs.update(preg as int, (regs[preg as int] & 0xffff_ffff_ffff_ff00) | bit)
    } else {
        regs.update(
            preg as int - 4,
            (regs[preg as int - 4] & 0xffff_ffff_ffff_00ff) | (bit << 8),
        )
    }
}

/// The result of running `code` from position `pc` in state `st`: the
/// signed word left in the first register when a return is reached, or
/// `None` when the bytes fall outside the supported vocabulary.
pub open spec fn spec_exec(code: Seq<u8>, pc: nat, st: MachineState) -> Option<i64>
    decreases code.len() - pc,
{
    if pc >= code.len() {
        None
    } else {
        let b0 = code[pc as int];
        if b0 == 0xc3 {
            Some(as_signed(st.regs[0]) as i64)
        } else if b0 == 0x0f {
            if pc + 3 <= code.len() {
                let op = code[pc as int + 1];
                let modrm = code[pc as int + 2];
                if 0x90 <= op <= 0x94 && 0xc0 <= modrm <= 0xc7 {
                    match st.flags {
                        Some(f) => {
                            let bit: u64 = if cond_holds((op - 0x90) as u8, f) {
                                1
                            } else {
                                0
                            };
                            spec_exec(
                                code,
                                (pc + 3) as nat,
                                MachineState {
                                    regs: set_partial(st.regs, (modrm - 0xc0) as u8, bit),
                                    flags: st.flags,
                                },
                            )
                        },
                        None => None,
                    }
                } else {
                    None
                }
            } else {
                None
            }
        } else if b0 == 0x48 {
            if pc + 2 <= code.len() {
                let op = code[pc as int + 1];
                if op == 0xc7 {
                    if pc + 7 <= code.len() && 0xc0 <= code[pc as int + 2] <= 0xc7 {
                        let r = code[pc as int + 2] - 0xc0;
                        let imm = sign_extend_imm32(read_imm32(code, pc as int + 3));
                        spec_exec(
                            code,
                            (pc + 7) as nat,
                            MachineState { regs: st.regs.update(r, imm), flags: st.flags },
                        )
                    } else {
                        None
                    }
                } else if op == 0x81 {
                    if pc + 7 <= code.len() {
                        let modrm = code[pc as int + 2];
                        let imm = sign_extend_imm32(read_imm32(code, pc as int + 3));
                        if 0xc0 <= modrm <= 0xc7 {
                            let r = modrm - 0xc0;
                            spec_exec(
                                code,
                                (pc + 7) as nat,
                                MachineState {
                                    regs: st.regs.update(r, wrap_add(st.regs[r], imm)),
                                    flags: None,
                                },
                            )
                        } else if 0xe8 <= modrm <= 0xef {
                            let r = modrm - 0xe8;
                            spec_exec(
                                code,
                                (pc + 7) as nat,
                                MachineState {
                                    regs: st.regs.update(r, wrap_sub(st.regs[r], imm)),
                                    flags: None,
                                },
                            )
                        } else if 0xf8 <= modrm <= 0xff {
                            let r = modrm - 0xf8;
                            spec_exec(
                                code,
                                (pc + 7) as nat,
                                MachineState {
                                    regs: st.regs,
                                    flags: Some(cmp_flags(st.regs[r], imm)),
                                },
                            )
                        } else {
                            None
                        }
                    } else {
                        None
                    }
                } else if op == 0xc1 {
                    if pc + 4 <= code.len() && 0xe0 <= code[pc as int + 2] <= 0xe7 {
                        let r = code[pc as int + 2] - 0xe0;
                        let amt = code[pc as int + 3];
                        if amt < 64 {
                            spec_exec(
                                code,
                                (pc + 4) as nat,
                                MachineState {
                                    regs: st.regs.update(r, st.regs[r] << amt),
                                    flags: None,
                                },
                            )
                        } else {
                            None
                        }
                    } else {
                        None
                    }
                } else if op == 0x83 {
                    if pc + 4 <= code.len() {
                        let modrm = code[pc as int + 2];
                        let imm = sign_extend_imm8(code[pc as int + 3]);
                        if 0xc8 <= modrm <= 0xcf {
                            let r = modrm - 0xc8;
                            spec_exec(
                                code,
                                (pc + 4) as nat,
                                MachineState {
                                    regs: st.regs.update(r, st.regs[r] | imm),
                                    flags: None,
                                },
                            )
                        } else if 0xe0 <= modrm <= 0xe7 {
                            let r = modrm - 0xe0;
                            spec_exec(
                                code,
                                (pc + 4) as nat,
                                MachineState {
                                    regs: st.regs.update(r, st.regs[r] & imm),
                                    flags: None,
                                },
                            )
                        } else {
                            None
                        }
                    } else {
                        None
                    }
                } else {
                    None
                }
            } else {
                None
            }
        } else {
            None
        }
    }
}

/// The result of running `code` from its start in the initial state.
pub open spec fn spec_run(code: Seq<u8>) -> Option<i64> {
    spec_exec(code, 0, init_state())
}

/// The signed reading of a 64-bit pattern.
fn as_signed_word(w: u64) -> (r: i64)
    ensures
        r as int == as_signed(w),
{
    if w < 0x8000_0000_0000_0000 {
        w as i64
    } else {
        ((w - 0x8000_0000_0000_0000) as i64) + i64::MIN
    }
}

/// The little-endian 32-bit value at position `p`.
fn read_u32_le(code: &Vec<u8>, p: usize) -> (r: u32)
    requires
        p + 4 <= code@.len(),
    ensures
        r == read_imm32(code@, p as int),
{
    let n = code.len();
    assert(p + 4 <= n);
    let b0 = code[p] as u64;
    let b1 = code[p + 1] as u64;
    let b2 = code[p + 2] as u64;
    let b3 = code[p + 3] as u64;
    let value: u64 = b0 + 256 * b1 + 0x1_0000 * b2 + 0x100_0000 * b3;
    value as u32
}

/// A 32-bit immediate sign-extended to 64 bits.
fn sign_extend32(v: u32) -> (r: u64)
    ensures
        r == sign_extend_imm32(v),
{
    if v < 0x8000_0000 {
        v as u64
    } else {
        (v as u64) + 0xffff_ffff_0000_0000
    }
}

/// An 8-bit immediate sign-extended to 64 bits.
fn sign_extend8(b: u8) -> (r: u64)
    ensures
        r == sign_extend_imm8(b),
{
    if b < 0x80 {
        b as u64
    } else {
        (b as u64) + 0xffff_ffff_ffff_ff00
    }
}

/// Runs a compiled function on the emulated machine and returns the signed
/// word it leaves in the first register, or `None` when the code leaves the
/// supported vocabulary.
pub fn run_code(code: &Vec<u8>) -> (r: Option<i64>)
    ensures
        r == spec_run(code@),
{
    let n = code.len();
    let mut regs: Vec<u64> = Vec::new();
    let mut k: usize = 0;
    while k < 8
        invariant
            k <= 8,
            regs@.len() == k,
            forall|i: int| 0 <= i < k ==> regs@[i] == 0u64,
        decreases 8 - k,
    {
        regs.push(0);
        k = k + 1;
    }
    proof {
        assert(regs@ =~= init_state().regs);
    }
    let mut pc: usize = 0;
    let mut zf = false;
    let mut cf = false;
    let mut of_flag = false;
    let mut flags_known = false;
    while pc < n
        invariant
            regs@.len() == 8,
            pc <= n,
            n == code@.len(),
            spec_run(code@) == spec_exec(
                code@,
                pc as nat,
                (MachineState {
                    regs: regs@,
                    flags: (if flags_known {
                        Some(MachineFlags { zf: zf, cf: cf, of: of_flag })
                    } else {
                        None
                    }),
                }),
            ),
        decreases n - pc,
    {
        let b0 = code[pc];
        if b0 == 0xc3 {
            return Some(as_signed_word(regs[0]));
        } else if b0 == 0x0f {
            if n - pc < 3 {
                return None;
            }
            let op = code[pc + 1];
            let modrm = code[pc + 2];
            if !(0x90 <= op && op <= 0x94 && 0xc0 <= modrm && modrm <= 0xc7) {
                return None;
            }
            if !flags_known {
                return None;
            }
            let cc = op - 0x90;
            let taken = if cc == 0 {
                of_flag
            } else if cc == 1 {
                !of_flag
            } else if cc == 2 {
                cf
            } else if cc == 3 {
                !cf
            } else {
                zf
            };
            let bit: u64 = if taken {
                1
            } else {
                0
            };
            let preg = modrm - 0xc0;
            if preg < 4 {
                let idx = preg as usize;
                let v = regs[idx];
                regs.set(idx, (v & 0xffff_ffff_ffff_ff00) | bit);
            } else {
                let idx = (preg - 4) as usize;
                let v = regs[idx];
                regs.set(idx, (v & 0xffff_ffff_ffff_00ff) | (bit << 8));
            }
            pc = pc + 3;
        } else if b0 == 0x48 {
            if n - pc < 2 {
                return None;
            }
            let op = code[pc + 1];
            if op == 0xc7 {
                if n - pc < 7 {
                    return None;
                }
                let modrm = code[pc + 2];
                if !(0xc0 <= modrm && modrm <= 0xc7) {
                    return None;
                }
                let r = (modrm - 0xc0) as usize;
                let imm = sign_extend32(read_u32_le(code, pc + 3));
                regs.set(r, imm);
                pc = pc + 7;
            } else if op == 0x81 {
                if n - pc < 7 {
                    return None;
                }
                let modrm = code[pc + 2];
                let imm = sign_extend32(read_u32_le(code, pc + 3));
                if 0xc0 <= modrm && modrm <= 0xc7 {
                    let r = (modrm - 0xc0) as usize;
                    let v = regs[r];
                    regs.set(r, v.wrapping_add(imm));
                    flags_known = false;
                } else if 0xe8 <= modrm && modrm <= 0xef {
                    let r = (modrm - 0xe8) as usize;
                    let v = regs[r];
                    regs.set(r, v.wrapping_sub(imm));
                    flags_known = false;
                } else if 0xf8 <= modrm {
                    let r = (modrm - 0xf8) as usize;
                    let v = regs[r];
                    zf = v == imm;
                    cf = v < imm;
                    let vs = as_signed_word(v);
                    let is = as_signed_word(imm);
                    of_flag = vs.checked_sub(is).is_none();
                    flags_known = true;
                } else {
                    return None;
                }
                pc = pc + 7;
            } else if op == 0xc1 {
                if n - pc < 4 {
                    return None;
                }
                let modrm = code[pc + 2];
                if !(0xe0 <= modrm && modrm <= 0xe7) {
                    return None;
                }
                let amt = code[pc + 3];
                if amt >= 64 {
                    return None;
                }
                let r = (modrm - 0xe0) as usize;
                let v = regs[r];
                regs.set(r, v << amt);
                flags_known = false;
                pc = pc + 4;
            } else if op == 0x83 {
                if n - pc < 4 {
                    return None;
                }
                let modrm = code[pc + 2];
                let imm = sign_extend8(code[pc + 3]);
                if 0xc8 <= modrm && modrm <= 0xcf {
                    let r = (modrm - 0xc8) as usize;
                    let v = regs[r];
                    regs.set(r, v | imm);
                    flags_known = false;
                } else if 0xe0 <= modrm && modrm <= 0xe7 {
                    let r = (modrm - 0xe0) as usize;
                    let v = regs[r];
                    regs.set(r, v & imm);
                    flags_known = false;
                } else {
                    return None;
                }
                pc = pc + 4;
            } else {
                return None;
            }
        } else {
            return None;
        }
    }
    None
}

} // verus!
