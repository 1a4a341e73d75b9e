//! What an instruction does with registers: the one it defines, the ones it
//! reads, consumes and lets decay.

use vstd::prelude::*;
use crate::ir::Reg;
use crate::ssa::SsaReg;

verus! {

/// Register effects of a flat instruction.
pub trait InstructionProperties {
    fn defined_reg(&self) -> Option<Reg>;

    fn used_regs(&self) -> Vec<Reg>;

    fn consumed_regs(&self) -> Vec<Reg>;

    fn decayed_regs(&self) -> Vec<Reg>;
}

/// Register effects of an SSA instruction.
pub trait SsaInstructionProperties {
    fn defined_ssa_reg(&self) -> Option<SsaReg>;

    fn used_ssa_regs(&self) -> Vec<SsaReg>;

    fn consumed_ssa_regs(&self) -> Vec<SsaReg>;

    fn decayed_ssa_regs(&self) -> Vec<SsaReg>;
}

} // verus!
