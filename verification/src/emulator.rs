//! The CPU and memory emulator.
//!
//! An image is loaded into a word-addressed memory of 8192 words; the
//! program counter starts at the entry point held in word 0. Each step
//! fetches the word at `pc`, classifies it by opcode and function field,
//! and executes it. The whole transition relation is written down once, as
//! the spec function [`spec_step`], and the executable emulator is proved
//! to follow it step by step.

use crate::codec::field_ad;
use crate::codec::field_fc;
use crate::codec::field_op;
use crate::codec::lemma_field_bounds;
use crate::codec::spec_decode_ii;
use crate::codec::spec_decode_ri;
use crate::codec::as_i32_be;
use crate::codec::as_i32_le;
use crate::codec::bits_of_word;
use crate::codec::word_from_bits;
use crate::codec::II;
use crate::codec::JI;
use crate::codec::RI;
use crate::decimal::append_dec_i32;
use crate::decimal::dec_str;
use crate::register::spec_get;
use crate::register::spec_set;
use crate::register::Register;
use crate::Binary;
use crate::Endian;
use vstd::prelude::*;
use vstd::wrapping::i32_specs;

verus! {

/// How many words the emulator's memory holds.
pub const MEMORY_SIZE: usize = 8192;

/// The most steps one [`Emulator::run`] call will take before giving up.
pub const STEP_LIMIT: u64 = 100_000_000;

/// A mathematical snapshot of the machine: the 34 registers, the
/// word-addressed memory, the program counter and everything printed so
/// far.
#[verifier::ext_equal]
pub ghost struct MachineState {
    pub regs: Seq<Binary>,
    pub mem: Seq<Binary>,
    pub pc: int,
    pub out: Seq<char>,
}

impl MachineState {
    /// The shape every reachable machine state keeps: full register bank,
    /// full memory, and a hard zero in register 0.
    pub open spec fn wf(self) -> bool {
        self.regs.len() == 34 && self.mem.len() == MEMORY_SIZE && self.regs[0] == 0
    }
}

/// Why a step cannot be taken.
#[derive(Debug, PartialEq, Eq, Structural, Clone, Copy)]
pub enum Fault {
    /// The program counter does not address a memory word.
    BadPc,
    /// The fetched word is no instruction of the supported subset.
    Decode,
    /// A load or store addressed a word outside memory.
    BadAddress,
    /// Division by zero, or the one quotient that overflows a word.
    Arithmetic,
    /// `run` gave up after [`STEP_LIMIT`] steps.
    StepLimit,
}

/// What one step of the machine yields.
pub ghost enum StepResult {
    Next(MachineState),
    Stuck(Fault),
}

/// Truncating division, as the hardware divider rounds: toward zero.
pub open spec fn trunc_div(a: int, b: int) -> int
    recommends
        b != 0,
{
    if a >= 0 && b > 0 {
        a / b
    } else if a >= 0 && b < 0 {
        -(a / (-b))
    } else if a < 0 && b > 0 {
        -((-a) / b)
    } else {
        (-a) / (-b)
    }
}

/// Truncating remainder: the sign follows the dividend.
pub open spec fn trunc_rem(a: int, b: int) -> int
    recommends
        b != 0,
{
    if a >= 0 {
        a % abs_int(b)
    } else {
        -((-a) % abs_int(b))
    }
}

/// The magnitude of an integer.
pub open spec fn abs_int(a: int) -> int {
    if a >= 0 {
        a
    } else {
        -a
    }
}

/// The 64 bits of the full signed product of two words.
pub open spec fn mult_bits(a: Binary, b: Binary) -> u64 {
    ((a as i64 * b as i64) as i64) as u64
}

/// The low word of the 64-bit product, written to LO.
pub open spec fn mult_lo(a: Binary, b: Binary) -> Binary {
    ((mult_bits(a, b) & 0xFFFF_FFFF) as u32) as i32
}

/// The high word of the 64-bit product, written to HI.
pub open spec fn mult_hi(a: Binary, b: Binary) -> Binary {
    ((mult_bits(a, b) >> 32) as u32) as i32
}

/// Where a branch instruction sends control.
pub enum JumpDest {
    Next,
    Spec(Binary),
}

/// What `beq`/`bne` do to the program counter: `None` when the word is no
/// branch, otherwise the taken target or fall-through.
pub open spec fn spec_branch(regs: Seq<Binary>, c: u32) -> Option<JumpDest> {
    let ii = spec_decode_ii(c);
    if field_op(c) == 0x4 {
        if spec_get(regs, ii.rs as int) == spec_get(regs, ii.rt as int) {
            Some(JumpDest::Spec(ii.im))
        } else {
            Some(JumpDest::Next)
        }
    } else if field_op(c) == 0x5 {
        if spec_get(regs, ii.rs as int) != spec_get(regs, ii.rt as int) {
            Some(JumpDest::Spec(ii.im))
        } else {
            Some(JumpDest::Next)
        }
    } else {
        None
    }
}

/// What `jr`/`j` set the program counter to; `None` when the word is no
/// jump.
pub open spec fn spec_jump(regs: Seq<Binary>, c: u32) -> Option<Binary> {
    if field_op(c) == 0 && field_fc(c) == 0x8 {
        Some(spec_get(regs, spec_decode_ri(c).rs as int))
    } else if field_op(c) == 0x2 {
        Some(field_ad(c) as i32)
    } else {
        None
    }
}

/// What the print syscall appends to the output: the decimal rendering of
/// A0 when V0 holds 1, nothing otherwise.
pub open spec fn spec_syscall_out(regs: Seq<Binary>, out: Seq<char>) -> Seq<char> {
    if spec_get(regs, 2) == 1 {
        out + dec_str(spec_get(regs, 4) as int)
    } else {
        out
    }
}

/// What an R-format arithmetic word does to the register bank: `None` when
/// the function field names none of them, a fault for the undefined
/// divisions, otherwise the updated bank.
pub open spec fn spec_arith_reg(regs: Seq<Binary>, c: u32) -> Option<
    Result<Seq<Binary>, Fault>,
> {
    if field_op(c) != 0 {
        None
    } else {
        let i = spec_decode_ri(c);
        let rs = spec_get(regs, i.rs as int);
        let rt = spec_get(regs, i.rt as int);
        if i.fc == 0x21 || i.fc == 0x20 {
            Some(Ok(spec_set(regs, i.rd as int, i32_specs::wrapping_add(rs, rt))))
        } else if i.fc == 0x23 || i.fc == 0x22 {
            Some(Ok(spec_set(regs, i.rd as int, i32_specs::wrapping_sub(rs, rt))))
        } else if i.fc == 0x24 {
            Some(Ok(spec_set(regs, i.rd as int, rs & rt)))
        } else if i.fc == 0x25 {
            Some(Ok(spec_set(regs, i.rd as int, rs | rt)))
        } else if i.fc == 0x2A {
            Some(Ok(spec_set(regs, i.rd as int, if rs < rt { 1i32 } else { 0i32 })))
        } else if i.fc == 0x00 {
            Some(Ok(spec_set(regs, i.rd as int, (((rt as u32) << (i.sh as u32)) as i32))))
        } else if i.fc == 0x02 {
            Some(Ok(spec_set(regs, i.rd as int, (((rt as u32) >> (i.sh as u32)) as i32))))
        } else if i.fc == 0x18 || i.fc == 0x19 {
            Some(
                Ok(
                    spec_set(
                        spec_set(regs, Register::HI as int, mult_hi(rs, rt)),
                        Register::LO as int,
                        mult_lo(rs, rt),
                    ),
                ),
            )
        } else if i.fc == 0x1A || i.fc == 0x1B {
            if rt == 0 || (rs == i32::MIN && rt == -1) {
                Some(Err(Fault::Arithmetic))
            } else {
                Some(
                    Ok(
                        spec_set(
                            spec_set(regs, Register::HI as int, trunc_rem(rs as int, rt as int) as i32),
                            Register::LO as int,
                            trunc_div(rs as int, rt as int) as i32,
                        ),
                    ),
                )
            }
        } else {
            None
        }
    }
}

/// What an I-format arithmetic word does to the register bank: the
/// add-immediate family adds the sign-extended immediate, `ori` ORs it in.
pub open spec fn spec_arith_imm(regs: Seq<Binary>, c: u32) -> Option<Seq<Binary>> {
    let op = field_op(c);
    let ii = spec_decode_ii(c);
    let rs = spec_get(regs, ii.rs as int);
    if op == 0x8 || op == 0x9 || op == 0xF {
        Some(spec_set(regs, ii.rt as int, i32_specs::wrapping_add(rs, ii.im)))
    } else if op == 0xD {
        Some(spec_set(regs, ii.rt as int, rs | ii.im))
    } else {
        None
    }
}

/// The word address a load or store touches: the byte offset is divided by
/// four, rounding down, and added to the base register.
pub open spec fn spec_mem_addr(regs: Seq<Binary>, c: u32) -> int {
    let ii = spec_decode_ii(c);
    spec_get(regs, ii.rs as int) + ii.im / 4
}

/// What `lw`/`sw` do to the registers and the memory; `None` when the word
/// is neither, a fault when the address leaves memory.
pub open spec fn spec_mem_op(regs: Seq<Binary>, mem: Seq<Binary>, c: u32) -> Option<
    Result<(Seq<Binary>, Seq<Binary>), Fault>,
> {
    let ii = spec_decode_ii(c);
    let addr = spec_mem_addr(regs, c);
    if field_op(c) == 0x23 {
        if 0 <= addr < mem.len() {
            Some(Ok((spec_set(regs, ii.rt as int, mem[addr]), mem)))
        } else {
            Some(Err(Fault::BadAddress))
        }
    } else if field_op(c) == 0x2B {
        if 0 <= addr < mem.len() {
            Some(Ok((regs, mem.update(addr, spec_get(regs, ii.rt as int)))))
        } else {
            Some(Err(Fault::BadAddress))
        }
    } else {
        None
    }
}

/// What `mfhi`/`mflo` do to the register bank.
pub open spec fn spec_move_from(regs: Seq<Binary>, c: u32) -> Option<Seq<Binary>> {
    if field_op(c) != 0 {
        None
    } else {
        let i = spec_decode_ri(c);
        if i.fc == 0x10 {
            Some(spec_set(regs, i.rd as int, spec_get(regs, Register::HI as int)))
        } else if i.fc == 0x12 {
            Some(spec_set(regs, i.rd as int, spec_get(regs, Register::LO as int)))
        } else {
            None
        }
    }
}

/// One step of the machine: fetch the word at `pc`, classify it in the
/// order the dispatcher tries its classes, and apply its effect. Faults
/// are an out-of-range `pc`, an unsupported word, an out-of-range memory
/// access, and the undefined divisions.
pub open spec fn spec_step(m: MachineState) -> StepResult {
    if !(0 <= m.pc < m.mem.len()) {
        StepResult::Stuck(Fault::BadPc)
    } else {
        let c = m.mem[m.pc] as u32;
        if spec_branch(m.regs, c) is Some {
            StepResult::Next(
                MachineState {
                    pc: match spec_branch(m.regs, c).unwrap() {
                        JumpDest::Next => m.pc + 1,
                        JumpDest::Spec(t) => t as int,
                    },
                    ..m
                },
            )
        } else if spec_jump(m.regs, c) is Some {
            StepResult::Next(MachineState { pc: spec_jump(m.regs, c).unwrap() as int, ..m })
        } else if field_op(c) == 0 && field_fc(c) == 0xC {
            StepResult::Next(
                MachineState { out: spec_syscall_out(m.regs, m.out), pc: m.pc + 1, ..m },
            )
        } else if spec_arith_reg(m.regs, c) is Some {
            match spec_arith_reg(m.regs, c).unwrap() {
                Ok(regs) => StepResult::Next(MachineState { regs, pc: m.pc + 1, ..m }),
                Err(f) => StepResult::Stuck(f),
            }
        } else if spec_arith_imm(m.regs, c) is Some {
            StepResult::Next(
                MachineState { regs: spec_arith_imm(m.regs, c).unwrap(), pc: m.pc + 1, ..m },
            )
        } else if spec_mem_op(m.regs, m.mem, c) is Some {
            match spec_mem_op(m.regs, m.mem, c).unwrap() {
                Ok((regs, mem)) => StepResult::Next(MachineState { regs, mem, pc: m.pc + 1, ..m }),
                Err(f) => StepResult::Stuck(f),
            }
        } else if spec_move_from(m.regs, c) is Some {
            StepResult::Next(
                MachineState { regs: spec_move_from(m.regs, c).unwrap(), pc: m.pc + 1, ..m },
            )
        } else {
            StepResult::Stuck(Fault::Decode)
        }
    }
}

/// The machine reaches `m1` from `m0` in exactly `n` steps.
pub open spec fn steps_to(m0: MachineState, m1: MachineState, n: nat) -> bool
    decreases n,
{
    if n == 0 {
        m0 == m1
    } else {
        spec_step(m0) is Next && steps_to(spec_step(m0)->Next_0, m1, (n - 1) as nat)
    }
}

/// A register write within the bank keeps its length and its hard zero.
proof fn lemma_set_shape(regs: Seq<Binary>, idx: int, v: Binary)
    requires
        regs.len() == 34,
        regs[0] == 0,
        0 <= idx < 34,
    ensures
        spec_set(regs, idx, v).len() == 34,
        spec_set(regs, idx, v)[0] == 0,
{
}

/// R-format arithmetic keeps the shape of the register bank.
proof fn lemma_arith_reg_shape(regs: Seq<Binary>, c: u32)
    requires
        regs.len() == 34,
        regs[0] == 0,
    ensures
        spec_arith_reg(regs, c) matches Some(Ok(r2)) ==> r2.len() == 34 && r2[0] == 0,
{
    lemma_field_bounds(c);
    if spec_arith_reg(regs, c) is Some {
        if spec_arith_reg(regs, c).unwrap() is Ok {
            let i = spec_decode_ri(c);
            let rs = spec_get(regs, i.rs as int);
            let rt = spec_get(regs, i.rt as int);
            if i.fc == 0x18 || i.fc == 0x19 {
                lemma_set_shape(regs, Register::HI as int, mult_hi(rs, rt));
                lemma_set_shape(
                    spec_set(regs, Register::HI as int, mult_hi(rs, rt)),
                    Register::LO as int,
                    mult_lo(rs, rt),
                );
            } else if i.fc == 0x1A || i.fc == 0x1B {
                let hi = trunc_rem(rs as int, rt as int) as i32;
                lemma_set_shape(regs, Register::HI as int, hi);
                lemma_set_shape(
                    spec_set(regs, Register::HI as int, hi),
                    Register::LO as int,
                    trunc_div(rs as int, rt as int) as i32,
                );
            }
        }
    }
}

/// A step taken from a well-formed state leaves a well-formed state; in
/// particular register 0 still reads 0 after every step.
pub proof fn lemma_step_preserves_wf(m: MachineState)
    requires
        m.wf(),
    ensures
        spec_step(m) matches StepResult::Next(m2) ==> m2.wf(),
{
    if 0 <= m.pc < m.mem.len() {
        let c = m.mem[m.pc] as u32;
        lemma_field_bounds(c);
        lemma_arith_reg_shape(m.regs, c);
    }
}

/// The zero-register invariant over whole runs: after any number of steps
/// from a well-formed state, register 0 still holds 0.
pub proof fn lemma_zero_register(m0: MachineState, m1: MachineState, n: nat)
    requires
        m0.wf(),
        steps_to(m0, m1, n),
    ensures
        m1.wf(),
        m1.regs[0] == 0,
    decreases n,
{
    if n > 0 {
        let m = spec_step(m0)->Next_0;
        lemma_step_preserves_wf(m0);
        lemma_zero_register(m, m1, (n - 1) as nat);
    }
}

/// The opcode of an instruction word: its top six bits.
pub fn opcode(code: Binary) -> (r: Binary)
    ensures
        r == field_op(code as u32) as i32,
{
    let c = bits_of_word(code);
    proof {
        lemma_field_bounds(c);
    }
    (c >> 26) as i32
}

/// The function field of an instruction word: its low six bits.
pub fn funct(code: Binary) -> (r: Binary)
    ensures
        r == field_fc(code as u32) as i32,
{
    let c = bits_of_word(code);
    proof {
        lemma_field_bounds(c);
    }
    (c & 0x3F) as i32
}

/// Execute `jr`/`j`: the new program counter, or `None` when the word is
/// no jump.
pub fn jump_instruction(register: &mut Register, code: Binary) -> (r: Option<Binary>)
    requires
        old(register).wf(),
    ensures
        final(register)@ == old(register)@,
        final(register).wf(),
        r == spec_jump(old(register)@, code as u32),
{
    proof {
        lemma_field_bounds(code as u32);
    }
    let op = opcode(code);
    if op == 0x0 {
        let ri = RI::decode(code);
        if ri.fc == 0x8 {
            let pc = register.get(ri.rs);
            return Some(pc);
        }
    } else if op == 0x2 {
        let ji = JI::decode(code);
        return Some(ji.ad);
    }
    None
}

/// Execute `mfhi`/`mflo`; `true` when the word was one of them.
pub fn move_from(register: &mut Register, code: Binary) -> (r: bool)
    requires
        old(register).wf(),
    ensures
        final(register).wf(),
        spec_move_from(old(register)@, code as u32) is Some ==> r && final(register)@
            == spec_move_from(old(register)@, code as u32).unwrap(),
        spec_move_from(old(register)@, code as u32) is None ==> !r
            && final(register)@ == old(register)@,
{
    proof {
        lemma_field_bounds(code as u32);
    }
    if opcode(code) != 0x0 {
        return false;
    }
    let i = RI::decode(code);
    match i.fc {
        0x10 => {
            let hi = register.get(Register::HI);
            register.set(i.rd, hi);
            true
        },
        0x12 => {
            let lo = register.get(Register::LO);
            register.set(i.rd, lo);
            true
        },
        _ => false,
    }
}

/// Execute `beq`/`bne`: where control goes next, or `None` when the word
/// is no branch.
pub fn branch_instruction(register: &mut Register, code: Binary) -> (r: Option<JumpDest>)
    requires
        old(register).wf(),
    ensures
        final(register)@ == old(register)@,
        final(register).wf(),
        r == spec_branch(old(register)@, code as u32),
{
    proof {
        lemma_field_bounds(code as u32);
    }
    match opcode(code) {
        0x4 => {
            let ii = II::decode(code);
            if register.get(ii.rs) == register.get(ii.rt) {
                Some(JumpDest::Spec(ii.im))
            } else {
                Some(JumpDest::Next)
            }
        },
        0x5 => {
            let ii = II::decode(code);
            if register.get(ii.rs) != register.get(ii.rt) {
                Some(JumpDest::Spec(ii.im))
            } else {
                Some(JumpDest::Next)
            }
        },
        _ => None,
    }
}

/// Execute the R-format arithmetic class: adds and subtracts with
/// wrap-around, the bitwise pair, set-less-than, the logical shifts, and
/// the multiply and divide pairs that fill HI and LO. `Ok(false)` when the
/// word belongs to no instruction of this class.
pub fn arithmetic_with_register(register: &mut Register, code: Binary) -> (r: Result<bool, Fault>)
    requires
        old(register).wf(),
    ensures
        final(register).wf(),
        ({
            let s = spec_arith_reg(old(register)@, code as u32);
            match r {
                Ok(true) => s is Some && s.unwrap() is Ok && final(register)@
                    == s.unwrap().unwrap(),
                Ok(false) => s is None && final(register)@ == old(register)@,
                Err(f) => s == Some(Err::<Seq<Binary>, Fault>(f))
                    && final(register)@ == old(register)@,
            }
        }),
{
    proof {
        lemma_field_bounds(code as u32);
    }
    if opcode(code) != 0x0 {
        return Ok(false);
    }
    let i = RI::decode(code);
    match i.fc {
        // add / add unsigned
        0x21 | 0x20 => {
            let rs = register.get(i.rs);
            let rt = register.get(i.rt);
            register.set(i.rd, rs.wrapping_add(rt));
            Ok(true)
        },
        // sub / sub unsigned
        0x23 | 0x22 => {
            let rs = register.get(i.rs);
            let rt = register.get(i.rt);
            register.set(i.rd, rs.wrapping_sub(rt));
            Ok(true)
        },
        // and
        0x24 => {
            let rs = register.get(i.rs);
            let rt = register.get(i.rt);
            register.set(i.rd, rs & rt);
            Ok(true)
        },
        // or
        0x25 => {
            let rs = register.get(i.rs);
            let rt = register.get(i.rt);
            register.set(i.rd, rs | rt);
            Ok(true)
        },
        // set less than
        0x2A => {
            if register.get(i.rs) < register.get(i.rt) {
                register.set(i.rd, 1);
            } else {
                register.set(i.rd, 0);
            }
            Ok(true)
        },
        // shift left / right logical
        0x00 | 0x02 => {
            let v = bits_of_word(register.get(i.rt));
            let shifted = if i.fc == 0x00 {
                v << (i.sh as u32)
            } else {
                v >> (i.sh as u32)
            };
            let w = word_from_bits(shifted);
            proof {
                crate::codec::lemma_word_bits_inverse(shifted, w);
            }
            register.set(i.rd, w);
            Ok(true)
        },
        // multiply / multiply unsigned
        0x18 | 0x19 => {
            let rs = register.get(i.rs);
            let rt = register.get(i.rt);
            proof {
                assert(-0x4000_0000_0000_0000 <= (rs as i64) * (rt as i64)
                    <= 0x4000_0000_0000_0000) by (nonlinear_arith)
                    requires
                        -0x8000_0000 <= rs <= 0x7FFF_FFFF,
                        -0x8000_0000 <= rt <= 0x7FFF_FFFF,
                ;
            }
            let p: i64 = (rs as i64) * (rt as i64);
            let pu: u64 = #[verifier::truncate] (p as u64);
            proof {
                assert(pu & 0xFFFF_FFFF <= 0xFFFF_FFFF && (pu >> 32) <= 0xFFFF_FFFF)
                    by (bit_vector);
            }
            let lo = word_from_bits((pu & 0xFFFF_FFFF) as u32);
            let hi = word_from_bits((pu >> 32) as u32);
            proof {
                crate::codec::lemma_word_bits_inverse((pu & 0xFFFF_FFFF) as u32, lo);
                crate::codec::lemma_word_bits_inverse((pu >> 32) as u32, hi);
            }
            register.set(Register::HI, hi);
            register.set(Register::LO, lo);
            Ok(true)
        },
        // divide / divide unsigned
        0x1A | 0x1B => {
            let rs = register.get(i.rs);
            let rt = register.get(i.rt);
            if rt == 0 || (rs == i32::MIN && rt == -1) {
                return Err(Fault::Arithmetic);
            }
            let (lo, hi) = div_words(rs, rt);
            register.set(Register::HI, hi);
            register.set(Register::LO, lo);
            Ok(true)
        },
        _ => Ok(false),
    }
}

/// Execute the I-format arithmetic class: the add-immediate family and
/// or-immediate. `false` when the word belongs to no instruction of this
/// class.
pub fn arithmetic_with_immediate(register: &mut Register, code: Binary) -> (r: bool)
    requires
        old(register).wf(),
    ensures
        final(register).wf(),
        spec_arith_imm(old(register)@, code as u32) is Some ==> r && final(register)@
            == spec_arith_imm(old(register)@, code as u32).unwrap(),
        spec_arith_imm(old(register)@, code as u32) is None ==> !r
            && final(register)@ == old(register)@,
{
    proof {
        lemma_field_bounds(code as u32);
    }
    match opcode(code) {
        // add immediate, add immediate unsigned, load upper immediate
        0x8 | 0x9 | 0xF => {
            let ii = II::decode(code);
            let rs = register.get(ii.rs);
            register.set(ii.rt, rs.wrapping_add(ii.im));
            true
        },
        // or immediate
        0xD => {
            let ii = II::decode(code);
            let rs = register.get(ii.rs);
            register.set(ii.rt, rs | ii.im);
            true
        },
        _ => false,
    }
}

/// Execute `lw`/`sw` against the word-addressed memory. `Ok(false)` when
/// the word is neither; a fault when the address leaves memory.
pub fn memory_instruction(
    register: &mut Register,
    memory: &mut Vec<Binary>,
    code: Binary,
) -> (r: Result<bool, Fault>)
    requires
        old(register).wf(),
        old(memory)@.len() <= 0x7FFF_FFFF_FFFF_FFFF,
    ensures
        final(register).wf(),
        final(memory)@.len() == old(memory)@.len(),
        ({
            let s = spec_mem_op(old(register)@, old(memory)@, code as u32);
            match r {
                Ok(true) => s is Some && s.unwrap() is Ok && final(register)@
                    == s.unwrap().unwrap().0 && final(memory)@ == s.unwrap().unwrap().1,
                Ok(false) => s is None && final(register)@ == old(register)@ && final(memory)@
                    == old(memory)@,
                Err(f) => s == Some(Err::<(Seq<Binary>, Seq<Binary>), Fault>(f))
                    && final(register)@ == old(register)@ && final(memory)@ == old(memory)@,
            }
        }),
{
    proof {
        lemma_field_bounds(code as u32);
    }
    let op = opcode(code);
    if op != 0x23 && op != 0x2B {
        return Ok(false);
    }
    let ii = II::decode(code);
    let base = register.get(ii.rs);
    let off = floor_div4(ii.im);
    let addr: i64 = (base as i64) + (off as i64);
    if addr < 0 || addr >= memory.len() as i64 {
        return Err(Fault::BadAddress);
    }
    let a = addr as usize;
    if op == 0x23 {
        // load word
        let v = memory[a];
        register.set(ii.rt, v);
        Ok(true)
    } else {
        // store word
        let v = register.get(ii.rt);
        memory[a] = v;
        Ok(true)
    }
}

/// The wrap-around the add instructions use is exactly two's-complement
/// arithmetic: the mathematical sum reduced into the 32-bit signed range.
pub proof fn lemma_wrapping_add_is_two_complement(a: Binary, b: Binary)
    ensures
        i32_specs::wrapping_add(a, b) == i32_specs::signed_crop(a + b),
{
    let s = a + b;
    if s > i32::MAX {
        assert(s % 0x1_0000_0000 == s) by {
            assert(0 <= s < 0x1_0000_0000);
        };
    } else if s < i32::MIN {
        assert((s + 0x1_0000_0000) % 0x1_0000_0000 == s + 0x1_0000_0000) by {
            assert(0 <= s + 0x1_0000_0000 < 0x1_0000_0000);
        };
        assert(s % 0x1_0000_0000 == s + 0x1_0000_0000) by {
            assert(s == (s + 0x1_0000_0000) + (-1) * 0x1_0000_0000);
        };
    } else {
        if s >= 0 {
            assert(s % 0x1_0000_0000 == s);
        } else {
            assert(s % 0x1_0000_0000 == s + 0x1_0000_0000);
        }
    }
}

/// The magnitude of a word, as an unsigned word.
fn magnitude(x: Binary) -> (r: u32)
    ensures
        r == abs_int(x as int),
{
    if x >= 0 {
        x as u32
    } else {
        (-(x as i64)) as u32
    }
}

/// The negation of an unsigned magnitude, back into the signed range.
fn negate_magnitude(q: u32) -> (r: Binary)
    requires
        q <= 0x8000_0000,
    ensures
        r as int == -(q as int),
{
    (-(q as i64)) as i32
}

/// A byte offset divided by four, rounding down, as load and store scale
/// their immediates.
fn floor_div4(im: Binary) -> (r: Binary)
    ensures
        r as int == im as int / 4,
{
    if im >= 0 {
        ((im as u32) / 4) as i32
    } else {
        let m: u64 = (-(im as i64)) as u64;
        let q: u64 = (m + 3) / 4;
        proof {
            vstd::arithmetic::div_mod::lemma_fundamental_div_mod(m as int, 4);
            let k = m as int / 4;
            let s = m as int % 4;
            if s == 0 {
                vstd::arithmetic::div_mod::lemma_fundamental_div_mod_converse(
                    im as int,
                    4,
                    -k,
                    0,
                );
                vstd::arithmetic::div_mod::lemma_fundamental_div_mod_converse(
                    m as int + 3,
                    4,
                    k,
                    3,
                );
            } else {
                vstd::arithmetic::div_mod::lemma_fundamental_div_mod_converse(
                    im as int,
                    4,
                    -k - 1,
                    4 - s,
                );
                vstd::arithmetic::div_mod::lemma_fundamental_div_mod_converse(
                    m as int + 3,
                    4,
                    k + 1,
                    s - 1,
                );
            }
        }
        negate_magnitude(q as u32)
    }
}

/// Truncating division of two words: the quotient for LO, the remainder
/// for HI. The divisor must not be zero, and the one overflowing quotient
/// is ruled out.
fn div_words(a: Binary, b: Binary) -> (r: (Binary, Binary))
    requires
        b != 0,
        !(a == i32::MIN && b == -1),
    ensures
        r.0 as int == trunc_div(a as int, b as int),
        r.1 as int == trunc_rem(a as int, b as int),
{
    let ma = magnitude(a);
    let mb = magnitude(b);
    let q: u32 = ma / mb;
    let s: u32 = ma % mb;
    proof {
        vstd::arithmetic::div_mod::lemma_fundamental_div_mod(ma as int, mb as int);
        if mb >= 2 {
            assert(q * 2 <= q * mb) by (nonlinear_arith)
                requires
                    q >= 0,
                    mb >= 2,
            ;
        }
    }
    let quot: Binary = if (a < 0) != (b < 0) {
        negate_magnitude(q)
    } else {
        q as i32
    };
    let rem: Binary = if a < 0 {
        negate_magnitude(s)
    } else {
        s as i32
    };
    (quot, rem)
}

/// The wrap-around of subtraction, likewise.
pub proof fn lemma_wrapping_sub_is_two_complement(a: Binary, b: Binary)
    ensures
        i32_specs::wrapping_sub(a, b) == i32_specs::signed_crop(a - b),
{
    let s = a - b;
    if s > i32::MAX {
        assert(s % 0x1_0000_0000 == s);
    } else if s < i32::MIN {
        assert(s % 0x1_0000_0000 == s + 0x1_0000_0000) by {
            assert(s == (s + 0x1_0000_0000) + (-1) * 0x1_0000_0000);
            assert(0 <= s + 0x1_0000_0000 < 0x1_0000_0000);
        };
    } else {
        if s >= 0 {
            assert(s % 0x1_0000_0000 == s);
        } else {
            assert(s % 0x1_0000_0000 == s + 0x1_0000_0000);
        }
    }
}

/// Reaching a state in `n` steps and stepping once more reaches it in
/// `n + 1`.
pub proof fn lemma_steps_to_snoc(m0: MachineState, m1: MachineState, m2: MachineState, n: nat)
    requires
        steps_to(m0, m1, n),
        spec_step(m1) == StepResult::Next(m2),
    ensures
        steps_to(m0, m2, n + 1),
    decreases n,
{
    if n == 0 {
        assert(m0 == m1);
        assert(steps_to(m2, m2, 0));
        assert(spec_step(m0)->Next_0 == m2);
        assert(steps_to(m0, m2, 1));
    } else {
        let mid = spec_step(m0)->Next_0;
        lemma_steps_to_snoc(mid, m1, m2, (n - 1) as nat);
        assert((n + 1 - 1) as nat == n);
        assert(steps_to(m0, m2, n + 1));
    }
}

/// Why the emulator stopped, and at which program counter.
#[derive(Debug, PartialEq, Eq, Structural, Clone, Copy)]
pub struct EmuError {
    pub fault: Fault,
    pub pc: Binary,
}

/// Why an image could not be loaded.
#[derive(Debug, PartialEq, Eq, Structural, Clone, Copy)]
pub enum LoadError {
    /// The byte count is no multiple of the word size.
    Truncated,
    /// The image holds more words than memory.
    TooLarge,
}

/// The machine: a register bank, 8192 words of memory, the program counter
/// and the text printed so far.
pub struct Emulator {
    pub register: Register,
    pub memory: Vec<Binary>,
    pub pc: Binary,
    pub stdout_history: String,
}

impl View for Emulator {
    type V = MachineState;

    open spec fn view(&self) -> MachineState {
        MachineState {
            regs: self.register@,
            mem: self.memory@,
            pc: self.pc as int,
            out: self.stdout_history@,
        }
    }
}

impl Emulator {
    /// The machine keeps its shape: see [`MachineState::wf`].
    pub open spec fn wf(&self) -> bool {
        self@.wf()
    }

    /// A fresh machine: memory all zero, the program counter at 0,
    /// nothing printed, and every register zero but the stack pointer,
    /// which starts at the top of memory so stack code can run.
    pub fn new() -> (e: Self)
        ensures
            e.wf(),
            e@.pc == 0,
            e@.out == Seq::<char>::empty(),
            e@.regs[Register::SP as int] == MEMORY_SIZE - 4,
            forall|i: int| 0 <= i < 34 && i != Register::SP as int ==> e@.regs[i] == 0,
            forall|i: int| 0 <= i < MEMORY_SIZE ==> e@.mem[i] == 0,
    {
        let mut register = Register::new();
        register.set(Register::SP, (MEMORY_SIZE as i32) - 4);
        Self {
            register,
            memory: vec![0; MEMORY_SIZE],
            stdout_history: String::new(),
            pc: 0,
        }
    }

    /// Zero the whole memory; registers, program counter and output stay.
    pub fn clear_memory(&mut self)
        ensures
            old(self).wf() ==> final(self).wf(),
            final(self)@.mem.len() == MEMORY_SIZE,
            forall|i: int| 0 <= i < MEMORY_SIZE ==> final(self)@.mem[i] == 0,
            final(self)@.regs == old(self)@.regs,
            final(self)@.pc == old(self)@.pc,
            final(self)@.out == old(self)@.out,
    {
        self.memory = vec![0; MEMORY_SIZE];
    }

    /// Zero every register; memory, program counter and output stay.
    pub fn clear_register(&mut self)
        ensures
            final(self)@.regs.len() == 34,
            forall|i: int| 0 <= i < 34 ==> final(self)@.regs[i] == 0,
            final(self)@.mem == old(self)@.mem,
            final(self)@.pc == old(self)@.pc,
            final(self)@.out == old(self)@.out,
    {
        self.register.reset();
    }

    /// Reset the program counter and every register for a fresh run.
    pub fn init(&mut self)
        ensures
            final(self)@.regs.len() == 34,
            forall|i: int| 0 <= i < 34 ==> final(self)@.regs[i] == 0,
            final(self)@.pc == 0,
            final(self)@.mem == old(self)@.mem,
            final(self)@.out == old(self)@.out,
    {
        self.pc = 0;
        self.register.reset();
    }

    /// Load an image: each four-byte group becomes one memory word in the
    /// given byte order, and the program counter is set to the entry point
    /// in word 0. Rejected when the byte count is no multiple of four or
    /// the image outgrows memory.
    pub fn load_from_u8(&mut self, input: &Vec<u8>, endian: Endian) -> (r: Result<(), LoadError>)
        requires
            old(self).wf(),
        ensures
            final(self).wf(),
            r is Ok <==> input@.len() % 4 == 0 && input@.len() / 4 <= MEMORY_SIZE,
            r == Err::<(), LoadError>(LoadError::Truncated) <==> input@.len() % 4 != 0,
            r is Err ==> final(self)@ == old(self)@,
            r is Ok ==> {
                &&& final(self)@.regs == old(self)@.regs
                &&& final(self)@.out == old(self)@.out
                &&& forall|j: int|
                    0 <= j < input@.len() / 4 ==> final(self)@.mem[j] as u32 == crate::codec::spec_word_at(
                        endian,
                        input@,
                        j,
                    )
                &&& forall|j: int|
                    input@.len() / 4 <= j < MEMORY_SIZE ==> final(self)@.mem[j] == old(self)@.mem[j]
                &&& final(self)@.pc == final(self)@.mem[0]
            },
    {
        if input.len() % 4 != 0 {
            return Err(LoadError::Truncated);
        }
        let n = input.len() / 4;
        if n > self.memory.len() {
            return Err(LoadError::TooLarge);
        }
        let ghost mem0 = self.memory@;
        let ghost regs0 = self.register@;
        let ghost out0 = self.stdout_history@;
        let mut i: usize = 0;
        while i < n
            invariant
                i <= n,
                n == input@.len() / 4,
                4 * n <= input@.len(),
                self.memory@.len() == MEMORY_SIZE,
                n <= MEMORY_SIZE,
                self.register@ == regs0,
                self.stdout_history@ == out0,
                forall|j: int|
                    0 <= j < i ==> self.memory@[j] as u32 == crate::codec::spec_word_at(
                        endian,
                        input@,
                        j,
                    ),
                forall|j: int| i <= j < MEMORY_SIZE ==> self.memory@[j] == mem0[j],
            decreases n - i,
        {
            let s = vstd::slice::slice_subrange(input.as_slice(), 4 * i, 4 * i + 4);
            let w = match endian {
                Endian::Little => as_i32_le(s),
                Endian::Big => as_i32_be(s),
            };
            self.memory[i] = w;
            i += 1;
        }
        self.pc = self.memory[0];
        Ok(())
    }

    /// The print syscall: when V0 holds 1, append the decimal rendering of
    /// A0 to the captured output and report `true`; any other V0 does
    /// nothing.
    pub fn syscall(&mut self) -> (r: bool)
        requires
            old(self).wf(),
        ensures
            final(self).wf(),
            final(self)@.regs == old(self)@.regs,
            final(self)@.mem == old(self)@.mem,
            final(self)@.pc == old(self)@.pc,
            final(self)@.out == spec_syscall_out(old(self)@.regs, old(self)@.out),
            r == (spec_get(old(self)@.regs, 2) == 1),
    {
        let v0 = self.register.get(Register::V0);
        if v0 == 1 {
            let a0 = self.register.get(Register::A0);
            append_dec_i32(&mut self.stdout_history, a0);
            return true;
        }
        false
    }

    /// Execute the instruction at the program counter: exactly one step of
    /// [`spec_step`]. On a fault the machine is left unchanged and the
    /// error names the fault and the offending program counter.
    pub fn step(&mut self) -> (r: Result<(), EmuError>)
        requires
            old(self).wf(),
        ensures
            final(self).wf(),
            r is Ok ==> spec_step(old(self)@) == StepResult::Next(final(self)@),
            r matches Err(e) ==> spec_step(old(self)@) == StepResult::Stuck(e.fault)
                && final(self)@ == old(self)@ && e.pc == old(self).pc,
    {
        if self.pc < 0 || self.pc >= MEMORY_SIZE as i32 {
            return Err(EmuError { fault: Fault::BadPc, pc: self.pc });
        }
        let code = self.memory[self.pc as usize];

        if let Some(jd) = branch_instruction(&mut self.register, code) {
            match jd {
                JumpDest::Spec(pc) => self.pc = pc,
                JumpDest::Next => self.pc = self.pc + 1,
            }
            proof {
                assert(spec_step(old(self)@) == StepResult::Next(self@));
            }
            return Ok(());
        }
        if let Some(pc) = jump_instruction(&mut self.register, code) {
            self.pc = pc;
            proof {
                let m = old(self)@;
                let c = code as u32;
                assert(self@ =~= MachineState { pc: spec_jump(m.regs, c).unwrap() as int, ..m });
                assert(spec_step(m) is Next);
                assert(spec_step(m)->Next_0 =~= self@);
                assert(spec_step(m) == StepResult::Next(self@));
            }
            return Ok(());
        }
        if opcode(code) == 0x0 && funct(code) == 0xC {
            self.syscall();
            self.pc = self.pc + 1;
            proof {
                let m = old(self)@;
                let c = code as u32;
                lemma_field_bounds(c);
                assert(spec_step(m) is Next);
                assert(spec_step(m)->Next_0 =~= self@);
                assert(spec_step(m) == StepResult::Next(self@));
            }
            return Ok(());
        }
        match arithmetic_with_register(&mut self.register, code) {
            Ok(true) => {
                self.pc = self.pc + 1;
                proof {
                    let m = old(self)@;
                    assert(spec_step(m) is Next);
                    assert(spec_step(m)->Next_0 =~= self@);
                    assert(spec_step(m) == StepResult::Next(self@));
                    lemma_step_preserves_wf(m);
                }
                return Ok(());
            },
            Ok(false) => {},
            Err(f) => {
                proof {
                    let m = old(self)@;
                    assert(spec_step(m) is Stuck);
                    assert(spec_step(m)->Stuck_0 == f);
                }
                return Err(EmuError { fault: f, pc: self.pc });
            },
        }
        if arithmetic_with_immediate(&mut self.register, code) {
            self.pc = self.pc + 1;
            proof {
                let m = old(self)@;
                assert(spec_step(m) is Next);
                assert(spec_step(m)->Next_0 =~= self@);
                assert(spec_step(m) == StepResult::Next(self@));
                lemma_step_preserves_wf(m);
            }
            return Ok(());
        }
        match memory_instruction(&mut self.register, &mut self.memory, code) {
            Ok(true) => {
                self.pc = self.pc + 1;
                proof {
                    let m = old(self)@;
                    assert(spec_step(m) is Next);
                    assert(spec_step(m)->Next_0 =~= self@);
                    assert(spec_step(m) == StepResult::Next(self@));
                    lemma_step_preserves_wf(m);
                }
                return Ok(());
            },
            Ok(false) => {},
            Err(f) => {
                proof {
                    let m = old(self)@;
                    assert(spec_step(m) is Stuck);
                    assert(spec_step(m)->Stuck_0 == f);
                }
                return Err(EmuError { fault: f, pc: self.pc });
            },
        }
        if move_from(&mut self.register, code) {
            self.pc = self.pc + 1;
            proof {
                let m = old(self)@;
                assert(spec_step(m) is Next);
                assert(spec_step(m)->Next_0 =~= self@);
                assert(spec_step(m) == StepResult::Next(self@));
                lemma_step_preserves_wf(m);
            }
            return Ok(());
        }
        proof {
            let m = old(self)@;
            assert(spec_step(m) is Stuck);
            assert(spec_step(m)->Stuck_0 == Fault::Decode);
        }
        Err(EmuError { fault: Fault::Decode, pc: self.pc })
    }

    /// Step until the program counter lands on 0, the canonical clean exit.
    /// A fault stops the run with the machine in the faulting state; a run
    /// longer than [`STEP_LIMIT`] steps is given up.
    pub fn run(&mut self) -> (r: Result<(), EmuError>)
        requires
            old(self).wf(),
        ensures
            final(self).wf(),
            r is Ok ==> exists|n: nat|
                1 <= n <= STEP_LIMIT && steps_to(old(self)@, final(self)@, n) && final(self)@.pc
                    == 0,
            r matches Err(e) ==> e.pc == final(self).pc && ((e.fault == Fault::StepLimit
                && steps_to(old(self)@, final(self)@, STEP_LIMIT as nat)) || (spec_step(
                final(self)@,
            ) == StepResult::Stuck(e.fault) && exists|n: nat|
                n < STEP_LIMIT && steps_to(old(self)@, final(self)@, n))),
    {
        let ghost m0 = self@;
        let ghost mut n: nat = 0nat;
        let mut fuel: u64 = STEP_LIMIT;
        while fuel > 0
            invariant
                self.wf(),
                m0 == old(self)@,
                steps_to(m0, self@, n),
                n + fuel == STEP_LIMIT,
            decreases fuel,
        {
            let ghost prev = self@;
            match self.step() {
                Ok(()) => {
                    proof {
                        lemma_steps_to_snoc(m0, prev, self@, n);
                        n = n + 1;
                    }
                    if self.pc == 0 {
                        return Ok(());
                    }
                    fuel = fuel - 1;
                },
                Err(e) => {
                    return Err(e);
                },
            }
        }
        Err(EmuError { fault: Fault::StepLimit, pc: self.pc })
    }
}

} // verus!
