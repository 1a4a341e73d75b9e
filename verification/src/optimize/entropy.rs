//! Entropy folding: a `MatchEntropy` whose arms all lead to one block, or
//! whose scrutinee's state is known, becomes a plain jump.

use vstd::prelude::*;
use std::collections::HashSet;
use crate::blockmap::BlockId;
use crate::ssa::{SsaCFG, SsaReg, SsaTerminator, SsaBasicBlock};
use crate::ssa::instruction::SsaInstruction;
use crate::optimize::OptimizationPass;

verus! {

/// Instruction `s` gives `r` a fresh, valid value.
pub open spec fn defines_valid(s: SsaInstruction, r: SsaReg) -> bool {
    match s {
        SsaInstruction::LoadInt { dest, .. } => dest == r,
        SsaInstruction::LoadFloat { dest, .. } => dest == r,
        SsaInstruction::LoadBool { dest, .. } => dest == r,
        SsaInstruction::LoadString { dest, .. } => dest == r,
        SsaInstruction::LoadNull { dest } => dest == r,
        SsaInstruction::ConstInt { dest, .. } => dest == r,
        SsaInstruction::ConstFloat { dest, .. } => dest == r,
        SsaInstruction::ConstBool { dest, .. } => dest == r,
        SsaInstruction::ConstString { dest, .. } => dest == r,
        SsaInstruction::ConstNull { dest } => dest == r,
        SsaInstruction::BinaryOp { dest, .. } => dest == r,
        SsaInstruction::UnaryOp { dest, .. } => dest == r,
        SsaInstruction::StructLit { dest, .. } => dest == r,
        SsaInstruction::TopologyLit { dest, .. } => dest == r,
        SsaInstruction::ArrayLit { dest, .. } => dest == r,
        _ => false,
    }
}

/// Instruction `s` reads a part of `r`, which may leave it decayed.
pub open spec fn accesses(s: SsaInstruction, r: SsaReg) -> bool {
    match s {
        SsaInstruction::FieldAccess { target, .. } => target == r,
        SsaInstruction::IndexAccess { target, .. } => target == r,
        _ => false,
    }
}

/// Instruction `s` consumes `r`.
pub open spec fn consumes(s: SsaInstruction, r: SsaReg) -> bool {
    match s {
        SsaInstruction::Consume { src } => src == r,
        SsaInstruction::ConsumeField { src, .. } => src == r,
        SsaInstruction::ConsumeFieldDynamic { target, .. } => target == r,
        SsaInstruction::FieldUpdate { target, .. } => target == r,
        SsaInstruction::IndexFieldUpdate { target, .. } => target == r,
        SsaInstruction::ChanSend { src, .. } => src == r,
        SsaInstruction::For { source, .. } => source == r,
        SsaInstruction::ForStep { source, .. } => source == r,
        SsaInstruction::SplitMap { source, .. } => source == r,
        SsaInstruction::Call { args, .. } => args@.contains(r),
        SsaInstruction::DynamicCall { args, .. } => args@.contains(r),
        _ => false,
    }
}

/// Some instruction of the graph satisfies `p` for `r`.
pub open spec fn some_instr(e: Seq<(BlockId, SsaBasicBlock)>, p: spec_fn(SsaInstruction) -> bool) -> bool {
    exists|i: int, k: int| 0 <= i < e.len() && 0 <= k < e[i].1.instructions@.len() && p(#[trigger] e[i].1.instructions@[k])
}

/// `r` is known valid: defined by a fresh value and never read in part.
pub open spec fn known_valid(e: Seq<(BlockId, SsaBasicBlock)>, r: SsaReg) -> bool {
    some_instr(e, |s: SsaInstruction| defines_valid(s, r)) && !some_instr(e, |s: SsaInstruction| accesses(s, r))
}

/// `r` is known consumed.
pub open spec fn known_consumed(e: Seq<(BlockId, SsaBasicBlock)>, r: SsaReg) -> bool {
    some_instr(e, |s: SsaInstruction| consumes(s, r))
}

pub open spec fn opt_seq(o: Option<BlockId>) -> Seq<BlockId> {
    match o {
        Some(b) => seq![b],
        None => Seq::empty(),
    }
}

/// The block a `MatchEntropy` terminator folds to, if any: the one block
/// all its arms lead to; else the valid arm when the scrutinee is known
/// valid and not consumed; else the consumed arm when it is known consumed
/// and not valid.
pub open spec fn entropy_fold(e: Seq<(BlockId, SsaBasicBlock)>, t: SsaTerminator) -> Option<BlockId> {
    match t {
        SsaTerminator::MatchEntropy { target, valid_block, decayed_block, pending_block, consumed_block } => {
            let ts = opt_seq(valid_block) + opt_seq(decayed_block) + opt_seq(pending_block) + opt_seq(consumed_block);
            if ts.len() > 0 && (forall|k: int| 0 <= k < ts.len() ==> #[trigger] ts[k] == ts[0]) {
                Some(ts[0])
            } else if known_valid(e, target) && !known_consumed(e, target) {
                valid_block
            } else if known_consumed(e, target) && !known_valid(e, target) {
                consumed_block
            } else {
                None
            }
        },
        _ => None,
    }
}

/// Each block of `b` is that of `a`, its terminator replaced by a jump where
/// `entropy_fold` gives a block.
pub open spec fn entropy_folded(a: SsaCFG, b: SsaCFG) -> bool {
    let e = a.blocks.entries@;
    &&& b.entry_block == a.entry_block
    &&& b.original_pc_to_block_id == a.original_pc_to_block_id
    &&& b.blocks.entries@.len() == e.len()
    &&& forall|i: int| 0 <= i < e.len() ==> {
        let (id, blk) = #[trigger] e[i];
        let (id2, blk2) = b.blocks.entries@[i];
        &&& id2 == id
        &&& blk2.id == blk.id
        &&& blk2.phi_nodes == blk.phi_nodes
        &&& blk2.instructions == blk.instructions
        &&& blk2.terminator == match entropy_fold(e, blk.terminator) {
            Some(x) => SsaTerminator::Jump { target: x },
            None => blk.terminator,
        }
    }
}

/// Some block's terminator folds.
pub open spec fn entropy_changes(a: SsaCFG) -> bool {
    exists|i: int| 0 <= i < a.blocks.entries@.len() && (#[trigger] entropy_fold(a.blocks.entries@, a.blocks.entries@[i].1.terminator)) is Some
}

fn regs_have(v: &Vec<SsaReg>, r: SsaReg) -> (b: bool)
    ensures
        b == v@.contains(r),
{
    let mut i: usize = 0;
    while i < v.len()
        invariant
            i <= v@.len(),
            forall|j: int| 0 <= j < i ==> v@[j] != r,
        decreases v@.len() - i,
    {
        if v[i] == r {
            return true;
        }
        i = i + 1;
    }
    false
}

/// Whether some instruction of the graph passes `test` for `r`, where the
/// executable test agrees with `p`.
fn scan_defines_valid(e: &Vec<(BlockId, SsaBasicBlock)>, r: SsaReg) -> (b: bool)
    ensures
        b == some_instr(e@, |s: SsaInstruction| defines_valid(s, r)),
{
    let ghost p = |s: SsaInstruction| defines_valid(s, r);
    let mut i: usize = 0;
    while i < e.len()
        invariant
            p == |s: SsaInstruction| defines_valid(s, r),
            i <= e@.len(),
            forall|i2: int, k: int| 0 <= i2 < i && 0 <= k < e@[i2].1.instructions@.len() ==> !p(#[trigger] e@[i2].1.instructions@[k]),
        decreases e@.len() - i,
    {
        let b = &e[i].1;
        let mut k: usize = 0;
        while k < b.instructions.len()
            invariant
                p == |s: SsaInstruction| defines_valid(s, r),
                i < e@.len(),
                *b == e@[i as int].1,
                k <= b.instructions@.len(),
                forall|k2: int| 0 <= k2 < k ==> !p(#[trigger] b.instructions@[k2]),
            decreases b.instructions@.len() - k,
        {
            let hit = match &b.instructions[k] {
                SsaInstruction::LoadInt { dest, .. } | SsaInstruction::LoadFloat { dest, .. }
                | SsaInstruction::LoadBool { dest, .. } | SsaInstruction::LoadString { dest, .. }
                | SsaInstruction::LoadNull { dest } | SsaInstruction::ConstInt { dest, .. }
                | SsaInstruction::ConstFloat { dest, .. } | SsaInstruction::ConstBool { dest, .. }
                | SsaInstruction::ConstString { dest, .. } | SsaInstruction::ConstNull { dest }
                | SsaInstruction::BinaryOp { dest, .. } | SsaInstruction::UnaryOp { dest, .. }
                | SsaInstruction::StructLit { dest, .. } | SsaInstruction::TopologyLit { dest, .. }
                | SsaInstruction::ArrayLit { dest, .. } => *dest == r,
                _ => false,
            };
            if hit {
                assert(p(e@[i as int].1.instructions@[k as int]));
                return true;
            }
            k = k + 1;
        }
        i = i + 1;
    }
    false
}

fn scan_accesses(e: &Vec<(BlockId, SsaBasicBlock)>, r: SsaReg) -> (b: bool)
    ensures
        b == some_instr(e@, |s: SsaInstruction| accesses(s, r)),
{
    let ghost p = |s: SsaInstruction| accesses(s, r);
    let mut i: usize = 0;
    while i < e.len()
        invariant
            p == |s: SsaInstruction| accesses(s, r),
            i <= e@.len(),
            forall|i2: int, k: int| 0 <= i2 < i && 0 <= k < e@[i2].1.instructions@.len() ==> !p(#[trigger] e@[i2].1.instructions@[k]),
        decreases e@.len() - i,
    {
        let b = &e[i].1;
        let mut k: usize = 0;
        while k < b.instructions.len()
            invariant
                p == |s: SsaInstruction| accesses(s, r),
                i < e@.len(),
                *b == e@[i as int].1,
                k <= b.instructions@.len(),
                forall|k2: int| 0 <= k2 < k ==> !p(#[trigger] b.instructions@[k2]),
            decreases b.instructions@.len() - k,
        {
            let hit = match &b.instructions[k] {
                SsaInstruction::FieldAccess { target, .. } | SsaInstruction::IndexAccess { target, .. } => *target == r,
                _ => false,
            };
            if hit {
                assert(p(e@[i as int].1.instructions@[k as int]));
                return true;
            }
            k = k + 1;
        }
        i = i + 1;
    }
    false
}

fn scan_consumes(e: &Vec<(BlockId, SsaBasicBlock)>, r: SsaReg) -> (b: bool)
    ensures
        b == some_instr(e@, |s: SsaInstruction| consumes(s, r)),
{
    let ghost p = |s: SsaInstruction| consumes(s, r);
    let mut i: usize = 0;
    while i < e.len()
        invariant
            p == |s: SsaInstruction| consumes(s, r),
            i <= e@.len(),
            forall|i2: int, k: int| 0 <= i2 < i && 0 <= k < e@[i2].1.instructions@.len() ==> !p(#[trigger] e@[i2].1.instructions@[k]),
        decreases e@.len() - i,
    {
        let b = &e[i].1;
        let mut k: usize = 0;
        while k < b.instructions.len()
            invariant
                p == |s: SsaInstruction| consumes(s, r),
                i < e@.len(),
                *b == e@[i as int].1,
                k <= b.instructions@.len(),
                forall|k2: int| 0 <= k2 < k ==> !p(#[trigger] b.instructions@[k2]),
            decreases b.instructions@.len() - k,
        {
            let hit = match &b.instructions[k] {
                SsaInstruction::Consume { src } | SsaInstruction::ConsumeField { src, .. }
                | SsaInstruction::ChanSend { src, .. } => *src == r,
                SsaInstruction::ConsumeFieldDynamic { target, .. } | SsaInstruction::FieldUpdate { target, .. }
                | SsaInstruction::IndexFieldUpdate { target, .. } => *target == r,
                SsaInstruction::For { source, .. } | SsaInstruction::ForStep { source, .. }
                | SsaInstruction::SplitMap { source, .. } => *source == r,
                SsaInstruction::Call { args, .. } | SsaInstruction::DynamicCall { args, .. } => regs_have(args, r),
                _ => false,
            };
            if hit {
                assert(p(e@[i as int].1.instructions@[k as int]));
                return true;
            }
            k = k + 1;
        }
        i = i + 1;
    }
    false
}

/// The block the terminator folds to, if any.
fn fold_target(e: &Vec<(BlockId, SsaBasicBlock)>, t: &SsaTerminator) -> (r: Option<BlockId>)
    ensures
        r == entropy_fold(e@, *t),
{
    match t {
        SsaTerminator::MatchEntropy { target, valid_block, decayed_block, pending_block, consumed_block } => {
            let ghost ts = opt_seq(*valid_block) + opt_seq(*decayed_block) + opt_seq(*pending_block) + opt_seq(*consumed_block);
            let mut ts_v: Vec<BlockId> = Vec::new();
            if let Some(b) = valid_block {
                ts_v.push(*b);
            }
            if let Some(b) = decayed_block {
                ts_v.push(*b);
            }
            if let Some(b) = pending_block {
                ts_v.push(*b);
            }
            if let Some(b) = consumed_block {
                ts_v.push(*b);
            }
            assert(ts_v@ =~= ts);
            if ts_v.len() > 0 {
                let first = ts_v[0];
                let mut all_same = true;
                let mut k: usize = 1;
                while k < ts_v.len()
                    invariant
                        1 <= k <= ts_v@.len(),
                        first == ts_v@[0],
                        all_same == forall|q: int| 0 <= q < k ==> #[trigger] ts_v@[q] == first,
                    decreases ts_v@.len() - k,
                {
                    if ts_v[k] != first {
                        all_same = false;
                    }
                    k = k + 1;
                }
                if all_same {
                    return Some(first);
                }
            }
            let valid = scan_defines_valid(e, *target) && !scan_accesses(e, *target);
            let consumed = scan_consumes(e, *target);
            if valid && !consumed {
                *valid_block
            } else if consumed && !valid {
                *consumed_block
            } else {
                None
            }
        },
        _ => None,
    }
}

/// Folds every `MatchEntropy` terminator that `entropy_fold` resolves into a
/// jump; says whether any was folded.
pub fn optimize_entropy(ssa_cfg: &mut SsaCFG) -> (changed: bool)
    ensures
        entropy_folded(*old(ssa_cfg), *final(ssa_cfg)),
        changed == entropy_changes(*old(ssa_cfg)),
        old(ssa_cfg).blocks.wf() ==> final(ssa_cfg).blocks.wf(),
{
    let ghost g = *ssa_cfg;
    let n = ssa_cfg.blocks.entries.len();
    // the folds are decided on the graph as it was
    let mut folds: Vec<Option<BlockId>> = Vec::new();
    let mut i: usize = 0;
    while i < n
        invariant
            g == *ssa_cfg,
            n == g.blocks.entries@.len(),
            i <= n,
            folds@.len() == i,
            forall|q: int| 0 <= q < i ==> #[trigger] folds@[q] == entropy_fold(g.blocks.entries@, g.blocks.entries@[q].1.terminator),
        decreases n - i,
    {
        let f = fold_target(&ssa_cfg.blocks.entries, &ssa_cfg.blocks.entries[i].1.terminator);
        folds.push(f);
        i = i + 1;
    }
    let mut changed = false;
    let mut i: usize = 0;
    while i < n
        invariant
            n == g.blocks.entries@.len(),
            i <= n,
            folds@.len() == n,
            forall|q: int| 0 <= q < n ==> #[trigger] folds@[q] == entropy_fold(g.blocks.entries@, g.blocks.entries@[q].1.terminator),
            ssa_cfg.entry_block == g.entry_block,
            ssa_cfg.original_pc_to_block_id == g.original_pc_to_block_id,
            ssa_cfg.blocks.entries@.len() == n,
            forall|q: int| i <= q < n ==> #[trigger] ssa_cfg.blocks.entries@[q] == g.blocks.entries@[q],
            forall|q: int| 0 <= q < i ==> {
                let (id, blk) = #[trigger] g.blocks.entries@[q];
                let (id2, blk2) = ssa_cfg.blocks.entries@[q];
                &&& id2 == id
                &&& blk2.id == blk.id
                &&& blk2.phi_nodes == blk.phi_nodes
                &&& blk2.instructions == blk.instructions
                &&& blk2.terminator == match entropy_fold(g.blocks.entries@, blk.terminator) {
                    Some(x) => SsaTerminator::Jump { target: x },
                    None => blk.terminator,
                }
            },
            changed == exists|q: int| 0 <= q < i && (#[trigger] entropy_fold(g.blocks.entries@, g.blocks.entries@[q].1.terminator)) is Some,
        decreases n - i,
    {
        if let Some(x) = folds[i] {
            ssa_cfg.blocks.entries[i].1.terminator = SsaTerminator::Jump { target: x };
            changed = true;
        }
        proof {
            assert(g.blocks.entries@[i as int] == g.blocks.entries@[i as int]);
        }
        i = i + 1;
    }
    proof {
        if g.blocks.wf() {
            assert forall|a: int, b: int| 0 <= a < b < ssa_cfg.blocks.entries@.len() implies
                (#[trigger] ssa_cfg.blocks.entries@[a]).0 < (#[trigger] ssa_cfg.blocks.entries@[b]).0 by {
                assert(g.blocks.entries@[a].0 < g.blocks.entries@[b].0);
            }
        }
    }
    changed
}

/// Folds `MatchEntropy` terminators (see `optimize_entropy`).
pub struct EntropyOptimizationPass;

impl OptimizationPass for EntropyOptimizationPass {
    fn name(&self) -> (r: &'static str)
        ensures
            r@ == "EntropyOptimization"@,
    {
        "EntropyOptimization"
    }

    open spec fn step(&self, before: SsaCFG, after: SsaCFG, globals: Set<u32>, is_routine: bool, changed: bool) -> bool {
        &&& entropy_folded(before, after)
        &&& changed == entropy_changes(before)
    }

    fn run(&self, ssa_cfg: &mut SsaCFG, globally_used_regs: &HashSet<u32>, is_routine: bool) -> (changed: bool) {
        optimize_entropy(ssa_cfg)
    }
}

} // verus!
