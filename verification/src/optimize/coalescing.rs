//! Block coalescing: a block whose only successor has it as only
//! predecessor absorbs that successor.

use vstd::prelude::*;
use std::collections::HashSet;
use crate::blockmap::BlockId;
use crate::ssa::{SsaCFG, SsaBasicBlock, SsaPhiNode, SsaReg, SsaTerminator};
use crate::ssa::instruction::SsaInstruction;
use crate::optimize::OptimizationPass;
use crate::optimize::graph::{ssa_term_succs, get_terminator_successors, preds_of, predecessors_of};
use crate::optimize::cfg_simp::{first_from, swap_id};

verus! {

/// Block `c` can absorb its successor: it has exactly one successor, a
/// block of the graph other than itself and the entry, whose only
/// predecessor it is.
pub open spec fn merge_candidate(g: SsaCFG, c: int) -> bool {
    let (a, blk) = g.blocks.entries@[c];
    let ss = ssa_term_succs(blk.terminator);
    &&& ss.len() == 1
    &&& ss[0] != g.entry_block
    &&& ss[0] != a
    &&& g.blocks.has(ss[0])
    &&& preds_of(g, ss[0]) == seq![a]
}

/// Some block can absorb its successor.
pub open spec fn has_merge(g: SsaCFG) -> bool {
    exists|c: int| 0 <= c < g.blocks.entries@.len() && #[trigger] merge_candidate(g, c)
}

/// The moves that stand for the phi nodes of an absorbed block: for each
/// phi node with an input from `a`, a move of the first such input into it.
pub open spec fn merge_moves(phis: Seq<SsaPhiNode>, a: BlockId, j: int) -> Seq<SsaInstruction>
    decreases j,
{
    if j <= 0 {
        Seq::empty()
    } else {
        let p = phis[j - 1];
        merge_moves(phis, a, j - 1) + if exists|q: int| 0 <= q < p.incoming@.len() && (#[trigger] p.incoming@[q]).0 == a {
            seq![SsaInstruction::Move { dest: p.dest, src: first_from(p.incoming@, a) }]
        } else {
            Seq::<SsaInstruction>::empty()
        }
    }
}

/// `b` is phi node `a` with its inputs from `from` coming from `to`.
pub open spec fn phi_redirected(a: SsaPhiNode, b: SsaPhiNode, from: BlockId, to: BlockId) -> bool {
    &&& b.dest == a.dest
    &&& b.original_reg == a.original_reg
    &&& b.incoming@ == a.incoming@.map_values(|x: (BlockId, SsaReg)| (swap_id(x.0, from, to), x.1))
}

pub open spec fn phis_redirected(a: Seq<SsaPhiNode>, b: Seq<SsaPhiNode>, from: BlockId, to: BlockId) -> bool {
    &&& b.len() == a.len()
    &&& forall|j: int| 0 <= j < a.len() ==> phi_redirected(#[trigger] a[j], b[j], from, to)
}

/// `h` is `g` with block `c` having absorbed its successor `s`: `c` runs its
/// own instructions, the moves for the phi nodes of `s`, then those of `s`,
/// and ends as `s` ended; `s` is gone; phi inputs from `s` now come from `c`.
pub open spec fn merged(g: SsaCFG, h: SsaCFG, c: int) -> bool {
    let e = g.blocks.entries@;
    let (a, ablk) = e[c];
    let s = ssa_term_succs(ablk.terminator)[0];
    let sp = g.blocks.pos(s);
    let sblk = e[sp].1;
    &&& h.entry_block == g.entry_block
    &&& h.original_pc_to_block_id == g.original_pc_to_block_id
    &&& h.blocks.entries@.len() == e.len() - 1
    &&& forall|q: int| 0 <= q < e.len() - 1 ==> {
        let src = if q < sp { q } else { q + 1 };
        let (k, blk) = e[src];
        let (k2, blk2) = #[trigger] h.blocks.entries@[q];
        &&& k2 == k
        &&& blk2.id == blk.id
        &&& phis_redirected(blk.phi_nodes@, blk2.phi_nodes@, s, a)
        &&& if k == a {
            &&& blk2.instructions@ == blk.instructions@ + merge_moves(sblk.phi_nodes@, a, sblk.phi_nodes@.len() as int)
                + sblk.instructions@
            &&& blk2.terminator == sblk.terminator
        } else {
            &&& blk2.instructions == blk.instructions
            &&& blk2.terminator == blk.terminator
        }
    }
}

/// Block `c` is the first, by position, that can absorb its successor.
pub open spec fn first_candidate(g: SsaCFG, c: int) -> bool {
    &&& 0 <= c < g.blocks.entries@.len()
    &&& merge_candidate(g, c)
    &&& forall|c2: int| 0 <= c2 < c ==> !#[trigger] merge_candidate(g, c2)
}

/// `h` is `g` after its first candidate absorbed its successor.
pub open spec fn merge_step(g: SsaCFG, h: SsaCFG) -> bool {
    exists|c: int| #[trigger] first_candidate(g, c) && merged(g, h, c)
}

/// `gs` runs from `g` to `h`, each graph the one before with its first
/// candidate merged (see `merge_step`).
pub open spec fn merge_run(g: SsaCFG, h: SsaCFG, gs: Seq<SsaCFG>) -> bool {
    &&& gs.len() >= 1
    &&& gs[0] == g
    &&& gs.last() == h
    &&& forall|i: int| 0 <= i < gs.len() - 1 ==> #[trigger] merge_step(gs[i], gs[i + 1])
}

/// `h` is what coalescing makes of `g`: merges, first candidate first,
/// until no block can absorb its successor.
pub open spec fn coalesced(g: SsaCFG, h: SsaCFG) -> bool {
    &&& exists|gs: Seq<SsaCFG>| #[trigger] merge_run(g, h, gs)
    &&& !has_merge(h)
}

/// Whether block `i` can absorb its successor.
fn check_merge(ssa_cfg: &SsaCFG, i: usize) -> (r: bool)
    requires
        ssa_cfg.blocks.wf(),
        i < ssa_cfg.blocks.entries@.len(),
    ensures
        r == merge_candidate(*ssa_cfg, i as int),
{
    let id = ssa_cfg.blocks.entries[i].0;
    let succs = get_terminator_successors(&ssa_cfg.blocks.entries[i].1.terminator);
    if succs.len() != 1 {
        return false;
    }
    let s = succs[0];
    if s == ssa_cfg.entry_block || s == id || !ssa_cfg.blocks.contains_key(&s) {
        return false;
    }
    let preds = predecessors_of(ssa_cfg, s);
    let r = preds.len() == 1 && preds[0] == id;
    proof {
        if r {
            assert(preds@ =~= seq![id]);
        }
    }
    r
}

/// The moves that stand for the phi nodes of `phis` when block `a` absorbs
/// their block.
fn moves_for(phis: &Vec<SsaPhiNode>, a: BlockId) -> (r: Vec<SsaInstruction>)
    ensures
        r@ == merge_moves(phis@, a, phis@.len() as int),
{
    let mut r: Vec<SsaInstruction> = Vec::new();
    let mut j: usize = 0;
    while j < phis.len()
        invariant
            j <= phis@.len(),
            r@ == merge_moves(phis@, a, j as int),
        decreases phis@.len() - j,
    {
        let p = &phis[j];
        let mut found: Option<SsaReg> = None;
        let mut q: usize = 0;
        assert(p.incoming@.subrange(0, p.incoming@.len() as int) =~= p.incoming@);
        while q < p.incoming.len()
            invariant
                q <= p.incoming@.len(),
                found is None ==> forall|q2: int| 0 <= q2 < q ==> (#[trigger] p.incoming@[q2]).0 != a,
                found is None ==> first_from(p.incoming@, a) == first_from(p.incoming@.subrange(q as int, p.incoming@.len() as int), a),
                found is Some ==> found.unwrap() == first_from(p.incoming@, a),
                found is Some ==> exists|q2: int| 0 <= q2 < p.incoming@.len() && (#[trigger] p.incoming@[q2]).0 == a,
            decreases p.incoming@.len() - q,
        {
            if found.is_none() {
                let ghost t = p.incoming@.subrange(q as int, p.incoming@.len() as int);
                assert(t[0] == p.incoming@[q as int]);
                assert(t.drop_first() =~= p.incoming@.subrange(q + 1, p.incoming@.len() as int));
                if p.incoming[q].0 == a {
                    found = Some(p.incoming[q].1);
                }
            }
            q = q + 1;
        }
        if let Some(src) = found {
            r.push(SsaInstruction::Move { dest: p.dest, src });
        }
        j = j + 1;
        assert(r@ =~= merge_moves(phis@, a, j as int));
    }
    r
}

fn redirect_incoming(inc: &Vec<(BlockId, SsaReg)>, from: BlockId, to: BlockId) -> (r: Vec<(BlockId, SsaReg)>)
    ensures
        r@ == inc@.map_values(|x: (BlockId, SsaReg)| (swap_id(x.0, from, to), x.1)),
{
    let mut r: Vec<(BlockId, SsaReg)> = Vec::new();
    let mut q: usize = 0;
    while q < inc.len()
        invariant
            q <= inc@.len(),
            r@ == inc@.subrange(0, q as int).map_values(|x: (BlockId, SsaReg)| (swap_id(x.0, from, to), x.1)),
        decreases inc@.len() - q,
    {
        let (p, v) = inc[q];
        r.push((if p == from { to } else { p }, v));
        q = q + 1;
        assert(r@ =~= inc@.subrange(0, q as int).map_values(|x: (BlockId, SsaReg)| (swap_id(x.0, from, to), x.1)));
    }
    assert(inc@.subrange(0, inc@.len() as int) =~= inc@);
    r
}

/// Makes every phi input from `old_pred` come from `new_pred`.
fn redirect_predecessor(ssa_cfg: &mut SsaCFG, old_pred: BlockId, new_pred: BlockId)
    ensures
        final(ssa_cfg).entry_block == old(ssa_cfg).entry_block,
        final(ssa_cfg).original_pc_to_block_id == old(ssa_cfg).original_pc_to_block_id,
        final(ssa_cfg).blocks.entries@.len() == old(ssa_cfg).blocks.entries@.len(),
        forall|q: int| 0 <= q < old(ssa_cfg).blocks.entries@.len() ==> {
            let (k, blk) = #[trigger] old(ssa_cfg).blocks.entries@[q];
            let (k2, blk2) = final(ssa_cfg).blocks.entries@[q];
            &&& k2 == k
            &&& blk2.id == blk.id
            &&& blk2.instructions == blk.instructions
            &&& blk2.terminator == blk.terminator
            &&& phis_redirected(blk.phi_nodes@, blk2.phi_nodes@, old_pred, new_pred)
        },
{
    let ghost e = ssa_cfg.blocks.entries@;
    let n = ssa_cfg.blocks.entries.len();
    let mut i: usize = 0;
    while i < n
        invariant
            n == e.len(),
            e == old(ssa_cfg).blocks.entries@,
            i <= n,
            ssa_cfg.entry_block == old(ssa_cfg).entry_block,
            ssa_cfg.original_pc_to_block_id == old(ssa_cfg).original_pc_to_block_id,
            ssa_cfg.blocks.entries@.len() == n,
            forall|q: int| i <= q < n ==> #[trigger] ssa_cfg.blocks.entries@[q] == e[q],
            forall|q: int| 0 <= q < i ==> {
                let (k, blk) = #[trigger] e[q];
                let (k2, blk2) = ssa_cfg.blocks.entries@[q];
                &&& k2 == k
                &&& blk2.id == blk.id
                &&& blk2.instructions == blk.instructions
                &&& blk2.terminator == blk.terminator
                &&& phis_redirected(blk.phi_nodes@, blk2.phi_nodes@, old_pred, new_pred)
            },
        decreases n - i,
    {
        let ghost before = ssa_cfg.blocks.entries@;
        let mut j: usize = 0;
        while j < ssa_cfg.blocks.entries[i].1.phi_nodes.len()
            invariant
                i < n,
                n == e.len(),
                before.len() == n,
                ssa_cfg.entry_block == old(ssa_cfg).entry_block,
                ssa_cfg.original_pc_to_block_id == old(ssa_cfg).original_pc_to_block_id,
                ssa_cfg.blocks.entries@.len() == n,
                forall|q: int| 0 <= q < n && q != i ==> #[trigger] ssa_cfg.blocks.entries@[q] == before[q],
                ssa_cfg.blocks.entries@[i as int].0 == before[i as int].0,
                ssa_cfg.blocks.entries@[i as int].1.id == before[i as int].1.id,
                ssa_cfg.blocks.entries@[i as int].1.instructions == before[i as int].1.instructions,
                ssa_cfg.blocks.entries@[i as int].1.terminator == before[i as int].1.terminator,
                ssa_cfg.blocks.entries@[i as int].1.phi_nodes@.len() == before[i as int].1.phi_nodes@.len(),
                j <= before[i as int].1.phi_nodes@.len(),
                forall|j2: int| j <= j2 < before[i as int].1.phi_nodes@.len() ==> #[trigger] ssa_cfg.blocks.entries@[i as int].1.phi_nodes@[j2] == before[i as int].1.phi_nodes@[j2],
                forall|j2: int| 0 <= j2 < j ==> phi_redirected(before[i as int].1.phi_nodes@[j2], #[trigger] ssa_cfg.blocks.entries@[i as int].1.phi_nodes@[j2], old_pred, new_pred),
            decreases before[i as int].1.phi_nodes@.len() - j,
        {
            let ni = redirect_incoming(&ssa_cfg.blocks.entries[i].1.phi_nodes[j].incoming, old_pred, new_pred);
            ssa_cfg.blocks.entries[i].1.phi_nodes[j].incoming = ni;
            j = j + 1;
        }
        i = i + 1;
    }
}

/// Block `c` absorbs its successor (see `merged`).
fn merge_at(ssa_cfg: &mut SsaCFG, c: usize)
    requires
        old(ssa_cfg).blocks.wf(),
        c < old(ssa_cfg).blocks.entries@.len(),
        merge_candidate(*old(ssa_cfg), c as int),
    ensures
        merged(*old(ssa_cfg), *final(ssa_cfg), c as int),
        final(ssa_cfg).blocks.wf(),
{
    let ghost g = *ssa_cfg;
    let ghost e = g.blocks.entries@;
    let a = ssa_cfg.blocks.entries[c].0;
    let succs = get_terminator_successors(&ssa_cfg.blocks.entries[c].1.terminator);
    let s = succs[0];
    let sp = match ssa_cfg.blocks.find(s) {
        Some(p) => p,
        None => {
            return;
        },
    };
    proof {
        g.blocks.lemma_pos(c as int);
        assert(e[sp as int].0 == s);
        assert(sp != c);
    }
    let mut moves = moves_for(&ssa_cfg.blocks.entries[sp].1.phi_nodes, a);
    let (_, sblk) = ssa_cfg.blocks.entries.remove(sp);
    let ap: usize = if c < sp { c } else { c - 1 };
    let SsaBasicBlock { id: _, phi_nodes: _, instructions: mut sinstrs, terminator: sterm } = sblk;
    let ghost mid = ssa_cfg.blocks.entries@;
    proof {
        assert(mid == e.remove(sp as int));
        assert(mid[ap as int] == e[c as int]);
    }
    ssa_cfg.blocks.entries[ap].1.instructions.append(&mut moves);
    ssa_cfg.blocks.entries[ap].1.instructions.append(&mut sinstrs);
    ssa_cfg.blocks.entries[ap].1.terminator = sterm;
    let ghost pre = *ssa_cfg;
    proof {
        assert forall|q: int| 0 <= q < mid.len() && q != ap implies #[trigger] pre.blocks.entries@[q] == mid[q] by {}
    }
    redirect_predecessor(ssa_cfg, s, a);
    proof {
        let h = *ssa_cfg;
        assert forall|q: int| 0 <= q < e.len() - 1 implies {
            let src = if q < sp { q } else { q + 1 };
            let (k, blk) = e[src];
            let (k2, blk2) = #[trigger] h.blocks.entries@[q];
            &&& k2 == k
            &&& blk2.id == blk.id
            &&& phis_redirected(blk.phi_nodes@, blk2.phi_nodes@, s, a)
            &&& if k == a {
                &&& blk2.instructions@ == blk.instructions@ + merge_moves(e[sp as int].1.phi_nodes@, a, e[sp as int].1.phi_nodes@.len() as int)
                    + e[sp as int].1.instructions@
                &&& blk2.terminator == e[sp as int].1.terminator
            } else {
                &&& blk2.instructions == blk.instructions
                &&& blk2.terminator == blk.terminator
            }
        } by {
            let src = if q < sp { q } else { q + 1 };
            assert(mid[q] == e[src]);
            assert(pre.blocks.entries@[q] == pre.blocks.entries@[q]);
            if q == ap {
                assert(src == c);
            } else {
                assert(pre.blocks.entries@[q] == mid[q]);
                if e[src].0 == a {
                    g.blocks.lemma_pos(src);
                    assert(src == c);
                }
            }
        }
        assert(g.blocks.pos(s) == sp);
        assert(merged(g, h, c as int));
        assert forall|x: int, y: int| 0 <= x < y < h.blocks.entries@.len() implies
            (#[trigger] h.blocks.entries@[x]).0 < (#[trigger] h.blocks.entries@[y]).0 by {
            let sx = if x < sp { x } else { x + 1 };
            let sy = if y < sp { y } else { y + 1 };
            assert(e[sx].0 < e[sy].0);
        }
    }
}

/// Merges blocks until no block can absorb its successor: each time the
/// first block, by id, that can (see `merge_candidate`) absorbs it (see
/// `merged`). Says whether any merge happened.
pub fn coalesce_blocks(ssa_cfg: &mut SsaCFG) -> (changed: bool)
    requires
        old(ssa_cfg).blocks.wf(),
    ensures
        final(ssa_cfg).blocks.wf(),
        changed == has_merge(*old(ssa_cfg)),
        !changed ==> *final(ssa_cfg) == *old(ssa_cfg),
        coalesced(*old(ssa_cfg), *final(ssa_cfg)),
{
    let mut changed = false;
    let ghost mut gs: Seq<SsaCFG> = seq![*ssa_cfg];
    loop
        invariant
            ssa_cfg.blocks.wf(),
            !changed ==> *ssa_cfg == *old(ssa_cfg),
            changed ==> has_merge(*old(ssa_cfg)),
            merge_run(*old(ssa_cfg), *ssa_cfg, gs),
        decreases ssa_cfg.blocks.entries@.len(),
    {
        let n = ssa_cfg.blocks.entries.len();
        let mut found: Option<usize> = None;
        let mut i: usize = 0;
        while i < n
            invariant
                ssa_cfg.blocks.wf(),
                n == ssa_cfg.blocks.entries@.len(),
                i <= n,
                found is None ==> forall|c2: int| 0 <= c2 < i ==> !#[trigger] merge_candidate(*ssa_cfg, c2),
                found is Some ==> found.unwrap() < n && merge_candidate(*ssa_cfg, found.unwrap() as int),
                found is Some ==> forall|c2: int| 0 <= c2 < found.unwrap() ==> !#[trigger] merge_candidate(*ssa_cfg, c2),
            decreases n - i,
        {
            if found.is_none() && check_merge(ssa_cfg, i) {
                found = Some(i);
            }
            i = i + 1;
        }
        match found {
            Some(c) => {
                let ghost before = *ssa_cfg;
                merge_at(ssa_cfg, c);
                proof {
                    assert(has_merge(before));
                    assert(first_candidate(before, c as int));
                    assert(merge_step(before, *ssa_cfg));
                    let gs0 = gs;
                    gs = gs.push(*ssa_cfg);
                    assert forall|i: int| 0 <= i < gs.len() - 1 implies #[trigger] merge_step(gs[i], gs[i + 1]) by {
                        if i < gs0.len() - 1 {
                            assert(gs[i] == gs0[i] && gs[i + 1] == gs0[i + 1]);
                        }
                    }
                }
                changed = true;
            },
            None => {
                proof {
                    assert(!has_merge(*ssa_cfg));
                    assert(merge_run(*old(ssa_cfg), *ssa_cfg, gs));
                }
                return changed;
            },
        }
    }
}

/// Merges blocks with their only successor (see `coalesce_blocks`).
pub struct BlockCoalescingPass;

impl OptimizationPass for BlockCoalescingPass {
    fn name(&self) -> (r: &'static str)
        ensures
            r@ == "BlockCoalescing"@,
    {
        "BlockCoalescing"
    }

    open spec fn step(&self, before: SsaCFG, after: SsaCFG, globals: Set<u32>, is_routine: bool, changed: bool) -> bool {
        &&& changed == has_merge(before)
        &&& !changed ==> after == before
        &&& coalesced(before, after)
    }

    fn run(&self, ssa_cfg: &mut SsaCFG, globally_used_regs: &HashSet<u32>, is_routine: bool) -> (changed: bool) {
        coalesce_blocks(ssa_cfg)
    }
}

} // verus!
