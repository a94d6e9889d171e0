//! The register bank of the emulator.
//!
//! 34 words: the 32 general-purpose registers, then HI and LO. Register 0
//! is a hard-wired zero: writes to it are discarded and reads return 0,
//! whatever the backing storage holds.

use crate::Binary;
use vstd::prelude::*;

verus! {

/// A register read as the emulator sees it: index 0 always reads 0.
pub open spec fn spec_get(regs: Seq<Binary>, idx: int) -> Binary
    recommends
        0 <= idx < regs.len(),
{
    if idx == 0 {
        0
    } else {
        regs[idx]
    }
}

/// A register write as the emulator performs it: index 0 is left alone.
pub open spec fn spec_set(regs: Seq<Binary>, idx: int, value: Binary) -> Seq<Binary>
    recommends
        0 <= idx < regs.len(),
{
    if idx == 0 {
        regs
    } else {
        regs.update(idx, value)
    }
}

/// The register bank: 32 general-purpose registers plus HI and LO.
pub struct Register {
    storage: Vec<Binary>,
}

impl View for Register {
    type V = Seq<Binary>;

    closed spec fn view(&self) -> Seq<Binary> {
        self.storage@
    }
}

impl Register {
    /// The bank always holds exactly its 34 registers.
    pub open spec fn wf(&self) -> bool {
        self@.len() == Register::COUNT
    }

    /// How many registers the bank holds.
    pub const COUNT: Binary = 34;

    pub const ZERO: Binary = 0;

    pub const AT: Binary = 1;

    pub const V0: Binary = 2;

    pub const V1: Binary = 3;

    pub const A0: Binary = 4;

    pub const A1: Binary = 5;

    pub const A2: Binary = 6;

    pub const A3: Binary = 7;

    pub const GP: Binary = 28;

    pub const SP: Binary = 29;

    pub const FP: Binary = 30;

    pub const RA: Binary = 31;

    pub const HI: Binary = 32;

    pub const LO: Binary = 33;

    /// A fresh bank with every register zero.
    pub fn new() -> (r: Self)
        ensures
            r.wf(),
            forall|i: int| 0 <= i < r@.len() ==> r@[i] == 0,
    {
        Self { storage: vec![0; 34] }
    }

    /// Read a register; register 0 always reads 0.
    pub fn get(&self, idx: Binary) -> (v: Binary)
        requires
            self.wf(),
            0 <= idx < Register::COUNT,
        ensures
            v == spec_get(self@, idx as int),
    {
        match idx {
            0 => 0,
            _ => self.storage[idx as usize],
        }
    }

    /// Write a register; a write to register 0 is discarded.
    pub fn set(&mut self, idx: Binary, value: Binary)
        requires
            old(self).wf(),
            0 <= idx < Register::COUNT,
        ensures
            final(self).wf(),
            final(self)@ == spec_set(old(self)@, idx as int, value),
    {
        match idx {
            0 => {},
            _ => {
                self.storage[idx as usize] = value;
            },
        }
    }

    /// Zero every register, HI and LO included.
    pub fn reset(&mut self)
        ensures
            final(self).wf(),
            forall|i: int| 0 <= i < final(self)@.len() ==> final(self)@[i] == 0,
    {
        self.storage = vec![0; 34];
    }
}

} // verus!
