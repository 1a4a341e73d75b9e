//! Lease optimisation: a lease of no duration, or one whose target register
//! nothing reads, is dropped, and so is the end of a lease of no duration.

use vstd::prelude::*;
use std::collections::HashSet;
use crate::blockmap::BlockId;
use crate::ssa::{SsaCFG, SsaBasicBlock, SsaReg, SsaPhiNode};
use crate::ssa::instruction::{SsaInstruction, spec_ssa_used_regs};
use crate::optimize::OptimizationPass;
use crate::optimize::dead_code::{term_src_regs, for_each_ssa_term_src_reg, for_each_ssa_src_reg};
use crate::optimize::channels::lemma_filter_step;

verus! {

broadcast use vstd::std_specs::hash::group_hash_axioms;

/// Some register of `s` has number `r`.
pub open spec fn has_reg(s: Seq<SsaReg>, r: u32) -> bool {
    exists|q: int| 0 <= q < s.len() && (#[trigger] s[q]).reg == r
}

/// Some input of phi node `p` has register number `r`.
pub open spec fn phi_has_reg(p: SsaPhiNode, r: u32) -> bool {
    exists|q: int| 0 <= q < p.incoming@.len() && (#[trigger] p.incoming@[q]).1.reg == r
}

/// Register number `r` is read somewhere in the graph, in any version, or
/// by code outside it.
pub open spec fn reg_number_used(g: SsaCFG, globals: Set<u32>, r: u32) -> bool {
    let e = g.blocks.entries@;
    ||| globals.contains(r)
    ||| exists|i: int, j: int| 0 <= i < e.len() && 0 <= j < e[i].1.phi_nodes@.len()
        && #[trigger] phi_has_reg(e[i].1.phi_nodes@[j], r)
    ||| exists|i: int, k: int| 0 <= i < e.len() && 0 <= k < e[i].1.instructions@.len()
        && #[trigger] has_reg(spec_ssa_used_regs(&e[i].1.instructions@[k]), r)
    ||| exists|i: int| 0 <= i < e.len() && #[trigger] has_reg(term_src_regs(e[i].1.terminator), r)
}

/// The instruction stays: it is no lease of no duration or of an unread
/// target, and no end of a lease of no duration.
pub open spec fn lease_keeps(g: SsaCFG, globals: Set<u32>, s: SsaInstruction) -> bool {
    match s {
        SsaInstruction::Lease { target_reg, duration_ms, .. } =>
            !(duration_ms == 0 || !reg_number_used(g, globals, target_reg.reg)),
        SsaInstruction::EndLease { duration_ms, .. } => duration_ms != 0,
        _ => true,
    }
}

pub open spec fn lease_keep_fn(g: SsaCFG, globals: Set<u32>) -> spec_fn(SsaInstruction) -> bool {
    |s: SsaInstruction| lease_keeps(g, globals, s)
}

/// `h` is `g` with only the instructions `lease_keeps` keeps.
pub open spec fn leases_pruned(g: SsaCFG, h: SsaCFG, globals: Set<u32>) -> bool {
    let e = g.blocks.entries@;
    &&& h.entry_block == g.entry_block
    &&& h.original_pc_to_block_id == g.original_pc_to_block_id
    &&& h.blocks.entries@.len() == e.len()
    &&& forall|i: int| 0 <= i < e.len() ==> {
        let (k, a) = #[trigger] e[i];
        let (k2, b) = h.blocks.entries@[i];
        &&& k2 == k
        &&& b.id == a.id
        &&& b.phi_nodes == a.phi_nodes
        &&& b.terminator == a.terminator
        &&& b.instructions@ == a.instructions@.filter(lease_keep_fn(g, globals))
    }
}

/// Some block loses an instruction.
pub open spec fn drops_lease(g: SsaCFG, globals: Set<u32>) -> bool {
    exists|i: int| 0 <= i < g.blocks.entries@.len()
        && (#[trigger] g.blocks.entries@[i]).1.instructions@.filter(lease_keep_fn(g, globals)).len()
            < g.blocks.entries@[i].1.instructions@.len()
}

fn regs_have_number(v: &Vec<SsaReg>, r: u32) -> (b: bool)
    ensures
        b == has_reg(v@, r),
{
    let mut q: usize = 0;
    while q < v.len()
        invariant
            q <= v@.len(),
            forall|q2: int| 0 <= q2 < q ==> (#[trigger] v@[q2]).reg != r,
        decreases v@.len() - q,
    {
        if v[q].reg == r {
            assert(v@[q as int].reg == r);
            return true;
        }
        q = q + 1;
    }
    false
}

/// Whether register number `r` is read somewhere (see `reg_number_used`).
fn number_used(ssa_cfg: &SsaCFG, globals: &HashSet<u32>, r: u32) -> (b: bool)
    ensures
        b == reg_number_used(*ssa_cfg, globals@, r),
{
    let ghost e = ssa_cfg.blocks.entries@;
    if globals.contains(&r) {
        return true;
    }
    let mut i: usize = 0;
    while i < ssa_cfg.blocks.entries.len()
        invariant
            e == ssa_cfg.blocks.entries@,
            i <= e.len(),
            forall|i2: int, j: int| 0 <= i2 < i && 0 <= j < e[i2].1.phi_nodes@.len()
                ==> !#[trigger] phi_has_reg(e[i2].1.phi_nodes@[j], r),
            forall|i2: int, k: int| 0 <= i2 < i && 0 <= k < e[i2].1.instructions@.len()
                ==> !#[trigger] has_reg(spec_ssa_used_regs(&e[i2].1.instructions@[k]), r),
            forall|i2: int| 0 <= i2 < i ==> !#[trigger] has_reg(term_src_regs(e[i2].1.terminator), r),
        decreases e.len() - i,
    {
        let blk = &ssa_cfg.blocks.entries[i].1;
        let mut j: usize = 0;
        while j < blk.phi_nodes.len()
            invariant
                e == ssa_cfg.blocks.entries@,
                i < e.len(),
                *blk == e[i as int].1,
                j <= blk.phi_nodes@.len(),
                forall|j2: int| 0 <= j2 < j ==> !#[trigger] phi_has_reg(blk.phi_nodes@[j2], r),
            decreases blk.phi_nodes@.len() - j,
        {
            let inc = &blk.phi_nodes[j].incoming;
            let mut q: usize = 0;
            while q < inc.len()
                invariant
                    e == ssa_cfg.blocks.entries@,
                    i < e.len(),
                    *blk == e[i as int].1,
                    q <= inc@.len(),
                    j < blk.phi_nodes@.len(),
                    *inc == blk.phi_nodes@[j as int].incoming,
                    forall|q2: int| 0 <= q2 < q ==> (#[trigger] inc@[q2]).1.reg != r,
                decreases inc@.len() - q,
            {
                if inc[q].1.reg == r {
                    assert(phi_has_reg(e[i as int].1.phi_nodes@[j as int], r));
                    return true;
                }
                q = q + 1;
            }
            j = j + 1;
        }
        let mut k: usize = 0;
        while k < blk.instructions.len()
            invariant
                e == ssa_cfg.blocks.entries@,
                i < e.len(),
                *blk == e[i as int].1,
                k <= blk.instructions@.len(),
                forall|k2: int| 0 <= k2 < k ==> !#[trigger] has_reg(spec_ssa_used_regs(&blk.instructions@[k2]), r),
            decreases blk.instructions@.len() - k,
        {
            let regs = for_each_ssa_src_reg(&blk.instructions[k]);
            if regs_have_number(&regs, r) {
                return true;
            }
            k = k + 1;
        }
        let regs = for_each_ssa_term_src_reg(&blk.terminator);
        if regs_have_number(&regs, r) {
            return true;
        }
        i = i + 1;
    }
    false
}

/// Whether instruction `s` stays (see `lease_keeps`).
fn keeps(ssa_cfg: &SsaCFG, globals: &HashSet<u32>, s: &SsaInstruction) -> (b: bool)
    ensures
        b == lease_keeps(*ssa_cfg, globals@, *s),
{
    match s {
        SsaInstruction::Lease { target_reg, duration_ms, .. } =>
            !(*duration_ms == 0 || !number_used(ssa_cfg, globals, target_reg.reg)),
        SsaInstruction::EndLease { duration_ms, .. } => *duration_ms != 0,
        _ => true,
    }
}

/// Drops leases of no duration or with an unread target, and ends of
/// leases of no duration (see `lease_keeps`); says whether any was dropped.
pub fn optimize_leases(ssa_cfg: &mut SsaCFG, globally_used_regs: &HashSet<u32>) -> (changed: bool)
    ensures
        leases_pruned(*old(ssa_cfg), *final(ssa_cfg), globally_used_regs@),
        changed == drops_lease(*old(ssa_cfg), globally_used_regs@),
        old(ssa_cfg).blocks.wf() ==> final(ssa_cfg).blocks.wf(),
{
    let ghost g = *ssa_cfg;
    let ghost e = g.blocks.entries@;
    let ghost keep = lease_keep_fn(g, globally_used_regs@);
    let n = ssa_cfg.blocks.entries.len();
    // decide every instruction on the graph as it is
    let mut decisions: Vec<Vec<bool>> = Vec::new();
    let mut i: usize = 0;
    while i < n
        invariant
            g == *ssa_cfg,
            e == g.blocks.entries@,
            keep == lease_keep_fn(g, globally_used_regs@),
            n == e.len(),
            i <= n,
            decisions@.len() == i,
            forall|q: int| 0 <= q < i ==> (#[trigger] decisions@[q])@.len() == e[q].1.instructions@.len()
                && forall|k: int| 0 <= k < e[q].1.instructions@.len() ==> decisions@[q]@[k] == keep(e[q].1.instructions@[k]),
        decreases n - i,
    {
        let blk = &ssa_cfg.blocks.entries[i].1;
        let mut d: Vec<bool> = Vec::new();
        let mut k: usize = 0;
        while k < blk.instructions.len()
            invariant
                g == *ssa_cfg,
                keep == lease_keep_fn(g, globally_used_regs@),
                k <= blk.instructions@.len(),
                d@.len() == k,
                forall|k2: int| 0 <= k2 < k ==> d@[k2] == keep(#[trigger] blk.instructions@[k2]),
            decreases blk.instructions@.len() - k,
        {
            d.push(keeps(ssa_cfg, globally_used_regs, &blk.instructions[k]));
            k = k + 1;
        }
        decisions.push(d);
        i = i + 1;
    }
    let mut rest: Vec<(BlockId, SsaBasicBlock)> = Vec::new();
    std::mem::swap(&mut rest, &mut ssa_cfg.blocks.entries);
    let mut out: Vec<(BlockId, SsaBasicBlock)> = Vec::new();
    let mut changed = false;
    let mut i: usize = 0;
    while i < n
        invariant
            e == g.blocks.entries@,
            keep == lease_keep_fn(g, globally_used_regs@),
            n == e.len(),
            i <= n,
            decisions@.len() == n,
            forall|q: int| 0 <= q < n ==> (#[trigger] decisions@[q])@.len() == e[q].1.instructions@.len()
                && forall|k: int| 0 <= k < e[q].1.instructions@.len() ==> decisions@[q]@[k] == keep(e[q].1.instructions@[k]),
            ssa_cfg.entry_block == g.entry_block,
            ssa_cfg.original_pc_to_block_id == g.original_pc_to_block_id,
            rest@ == e.subrange(i as int, n as int),
            out@.len() == i,
            forall|q: int| 0 <= q < i ==> {
                let (k, a) = #[trigger] e[q];
                let (k2, b) = out@[q];
                &&& k2 == k
                &&& b.id == a.id
                &&& b.phi_nodes == a.phi_nodes
                &&& b.terminator == a.terminator
                &&& b.instructions@ == a.instructions@.filter(keep)
            },
            changed == exists|q: int| 0 <= q < i && (#[trigger] e[q]).1.instructions@.filter(keep).len() < e[q].1.instructions@.len(),
        decreases n - i,
    {
        let ghost r0 = rest@;
        let (id, blk) = rest.remove(0);
        proof {
            assert(r0[0] == e[i as int]);
            assert(rest@ =~= e.subrange(i + 1, n as int));
        }
        let SsaBasicBlock { id: bid, phi_nodes, instructions, terminator } = blk;
        let ghost orig = instructions@;
        let mut src = instructions;
        let mut kept: Vec<SsaInstruction> = Vec::new();
        let m = src.len();
        let mut k: usize = 0;
        while k < m
            invariant
                keep == lease_keep_fn(g, globally_used_regs@),
                i < n,
                decisions@.len() == n,
                orig == e[i as int].1.instructions@,
                m == orig.len(),
                decisions@[i as int]@.len() == m,
                forall|k2: int| 0 <= k2 < m ==> decisions@[i as int]@[k2] == keep(orig[k2]),
                k <= m,
                src@ == orig.subrange(k as int, m as int),
                kept@ == orig.subrange(0, k as int).filter(keep),
            decreases m - k,
        {
            proof {
                lemma_filter_step(orig, keep, k as int);
            }
            let ghost s0 = src@;
            let x = src.remove(0);
            proof {
                assert(s0[0] == orig[k as int]);
                assert(src@ =~= orig.subrange(k + 1, m as int));
            }
            if decisions[i][k] {
                kept.push(x);
            }
            k = k + 1;
        }
        proof {
            assert(orig.subrange(0, m as int) =~= orig);
            orig.lemma_filter_len(keep);
        }
        let dropped = kept.len() < m;
        changed = changed || dropped;
        out.push((id, SsaBasicBlock { id: bid, phi_nodes, instructions: kept, terminator }));
        i = i + 1;
    }
    proof {
        if g.blocks.wf() {
            assert forall|a: int, b: int| 0 <= a < b < out@.len() implies (#[trigger] out@[a]).0 < (#[trigger] out@[b]).0 by {
                assert(out@[a].0 == e[a].0 && out@[b].0 == e[b].0);
            }
        }
    }
    ssa_cfg.blocks.entries = out;
    changed
}

/// Drops useless leases (see `optimize_leases`).
pub struct LeaseOptimizationPass;

impl OptimizationPass for LeaseOptimizationPass {
    fn name(&self) -> (r: &'static str)
        ensures
            r@ == "lease-optimization"@,
    {
        "lease-optimization"
    }

    open spec fn step(&self, before: SsaCFG, after: SsaCFG, globals: Set<u32>, is_routine: bool, changed: bool) -> bool {
        &&& leases_pruned(before, after, globals)
        &&& changed == drops_lease(before, globals)
    }

    fn run(&self, ssa_cfg: &mut SsaCFG, globally_used_regs: &HashSet<u32>, is_routine: bool) -> (changed: bool) {
        optimize_leases(ssa_cfg, globally_used_regs)
    }
}

} // verus!
