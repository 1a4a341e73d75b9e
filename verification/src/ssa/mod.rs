//! Static single assignment form: types, renaming and the transformer that
//! builds SSA graphs from control-flow graphs.

pub mod display;
pub mod instruction;
pub mod rename;
pub mod sequence;
pub mod transformer;
pub mod unique;

use vstd::prelude::*;
use crate::ir::Reg;
use crate::blockmap::{BlockId, BlockMap};
use crate::ssa::instruction::SsaInstruction;

verus! {

/// A register together with the version that one definition gave it.
#[derive(Debug, Clone, Copy, PartialEq, Eq, Hash, Structural)]
pub struct SsaReg {
    pub reg: u32,
    pub version: u32,
}

/// A phi node: `dest` takes the value of the incoming register of whichever
/// predecessor control came from.
#[derive(Debug, Clone, PartialEq, Eq)]
pub struct SsaPhiNode {
    pub dest: SsaReg,
    pub original_reg: Reg,
    pub incoming: Vec<(BlockId, SsaReg)>,
}

/// A basic block in SSA form.
#[derive(Debug, Clone, PartialEq, Eq)]
pub struct SsaBasicBlock {
    pub id: BlockId,
    pub phi_nodes: Vec<SsaPhiNode>,
    pub instructions: Vec<SsaInstruction>,
    pub terminator: SsaTerminator,
}

/// How control leaves an SSA block.
#[derive(Debug, Clone, PartialEq, Eq)]
pub enum SsaTerminator {
    Jump { target: BlockId },
    Branch { cond: SsaReg, then_block: BlockId, else_block: BlockId },
    Return { src: Option<SsaReg> },
    MatchEntropy {
        target: SsaReg,
        valid_block: Option<BlockId>,
        decayed_block: Option<BlockId>,
        pending_block: Option<BlockId>,
        consumed_block: Option<BlockId>,
    },
    Select { max_ms: u64, cases: Vec<SsaSelectCase>, timeout_block: Option<BlockId> },
    Unreachable,
}

/// One arm of an SSA `Select`.
#[derive(Debug, Clone, PartialEq, Eq)]
pub struct SsaSelectCase {
    pub chan_id: String,
    pub dest: SsaReg,
    pub target: usize,
}

impl SsaSelectCase {
    pub fn duplicate(&self) -> (r: Self)
        ensures
            r == *self,
    {
        SsaSelectCase { chan_id: self.chan_id.clone(), dest: self.dest, target: self.target }
    }
}

/// A control-flow graph in SSA form.
#[derive(Debug, Clone, PartialEq, Eq)]
pub struct SsaCFG {
    pub entry_block: BlockId,
    pub blocks: BlockMap<SsaBasicBlock>,
    pub original_pc_to_block_id: Vec<BlockId>,
}

pub fn copy_ssa_regs(v: &Vec<SsaReg>) -> (r: Vec<SsaReg>)
    ensures
        r@ == v@,
{
    let mut out: Vec<SsaReg> = Vec::new();
    let mut i: usize = 0;
    while i < v.len()
        invariant
            i <= v.len(),
            out@ == v@.subrange(0, i as int),
        decreases v.len() - i,
    {
        out.push(v[i]);
        i = i + 1;
    }
    assert(v@.subrange(0, v@.len() as int) =~= v@);
    out
}

pub fn copy_ssa_fields(v: &Vec<(String, SsaReg)>) -> (r: Vec<(String, SsaReg)>)
    ensures
        r@ == v@,
{
    let mut out: Vec<(String, SsaReg)> = Vec::new();
    let mut i: usize = 0;
    while i < v.len()
        invariant
            i <= v.len(),
            out@ == v@.subrange(0, i as int),
        decreases v.len() - i,
    {
        out.push((v[i].0.clone(), v[i].1));
        i = i + 1;
    }
    assert(v@.subrange(0, v@.len() as int) =~= v@);
    out
}

pub fn copy_ssa_cases(v: &Vec<SsaSelectCase>) -> (r: Vec<SsaSelectCase>)
    ensures
        r@ == v@,
{
    let mut out: Vec<SsaSelectCase> = Vec::new();
    let mut i: usize = 0;
    while i < v.len()
        invariant
            i <= v.len(),
            out@ == v@.subrange(0, i as int),
        decreases v.len() - i,
    {
        out.push(v[i].duplicate());
        i = i + 1;
    }
    assert(v@.subrange(0, v@.len() as int) =~= v@);
    out
}

} // verus!
