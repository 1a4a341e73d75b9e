//! Edges of SSA graphs as their terminators give them: successor lists,
//! predecessor lists, and a depth-first block order.

use vstd::prelude::*;
use crate::blockmap::BlockId;
use crate::ssa::{SsaCFG, SsaTerminator, SsaSelectCase, SsaBasicBlock};
use crate::optimize::entropy::opt_seq;

verus! {

/// The blocks a terminator passes control to, in order, with repeats.
pub open spec fn ssa_term_succs(t: SsaTerminator) -> Seq<BlockId> {
    match t {
        SsaTerminator::Jump { target } => seq![target],
        SsaTerminator::Branch { then_block, else_block, .. } => seq![then_block, else_block],
        SsaTerminator::MatchEntropy { valid_block, decayed_block, pending_block, consumed_block, .. } =>
            opt_seq(valid_block) + opt_seq(decayed_block) + opt_seq(pending_block) + opt_seq(consumed_block),
        SsaTerminator::Select { cases, timeout_block, .. } =>
            cases@.map_values(|c: SsaSelectCase| c.target as BlockId) + opt_seq(timeout_block),
        _ => Seq::empty(),
    }
}

/// The successors of a terminator, in order, with repeats.
pub fn get_terminator_successors(term: &SsaTerminator) -> (r: Vec<BlockId>)
    ensures
        r@ == ssa_term_succs(*term),
{
    let mut r: Vec<BlockId> = Vec::new();
    match term {
        SsaTerminator::Jump { target } => {
            r.push(*target);
        },
        SsaTerminator::Branch { then_block, else_block, .. } => {
            r.push(*then_block);
            r.push(*else_block);
        },
        SsaTerminator::MatchEntropy { valid_block, decayed_block, pending_block, consumed_block, .. } => {
            if let Some(b) = valid_block {
                r.push(*b);
            }
            if let Some(b) = decayed_block {
                r.push(*b);
            }
            if let Some(b) = pending_block {
                r.push(*b);
            }
            if let Some(b) = consumed_block {
                r.push(*b);
            }
        },
        SsaTerminator::Select { cases, timeout_block, .. } => {
            let mut k: usize = 0;
            while k < cases.len()
                invariant
                    k <= cases@.len(),
                    r@ == cases@.subrange(0, k as int).map_values(|c: SsaSelectCase| c.target as BlockId),
                decreases cases@.len() - k,
            {
                r.push(cases[k].target as BlockId);
                k = k + 1;
                assert(r@ =~= cases@.subrange(0, k as int).map_values(|c: SsaSelectCase| c.target as BlockId));
            }
            assert(cases@.subrange(0, cases@.len() as int) =~= cases@);
            if let Some(b) = timeout_block {
                r.push(*b);
            }
        },
        _ => {},
    }
    assert(r@ =~= ssa_term_succs(*term));
    r
}

/// `src` once for each occurrence of `id` in `ss`.
pub open spec fn edges_from(src: BlockId, ss: Seq<BlockId>, id: BlockId) -> Seq<BlockId>
    decreases ss.len(),
{
    if ss.len() == 0 {
        Seq::empty()
    } else {
        edges_from(src, ss.drop_last(), id) + if ss.last() == id {
            seq![src]
        } else {
            Seq::<BlockId>::empty()
        }
    }
}

/// The predecessors of `id` among the first `i` blocks: each block once for
/// each of its edges into `id`, in block order.
pub open spec fn preds_upto(e: Seq<(BlockId, SsaBasicBlock)>, i: int, id: BlockId) -> Seq<BlockId>
    decreases i,
{
    if i <= 0 {
        Seq::empty()
    } else {
        preds_upto(e, i - 1, id) + edges_from(e[i - 1].0, ssa_term_succs(e[i - 1].1.terminator), id)
    }
}

/// The predecessors of `id` in the graph.
pub open spec fn preds_of(g: SsaCFG, id: BlockId) -> Seq<BlockId> {
    preds_upto(g.blocks.entries@, g.blocks.entries@.len() as int, id)
}

pub proof fn lemma_edges_from_has(src: BlockId, ss: Seq<BlockId>, id: BlockId)
    ensures
        edges_from(src, ss, id).len() > 0 <==> ss.contains(id),
        forall|k: int| 0 <= k < edges_from(src, ss, id).len() ==> #[trigger] edges_from(src, ss, id)[k] == src,
    decreases ss.len(),
{
    if ss.len() > 0 {
        lemma_edges_from_has(src, ss.drop_last(), id);
        if ss.contains(id) && ss.last() != id {
            let k = choose|k: int| 0 <= k < ss.len() && ss[k] == id;
            assert(ss.drop_last()[k] == id);
        }
        if ss.drop_last().contains(id) {
            let k = choose|k: int| 0 <= k < ss.drop_last().len() && ss.drop_last()[k] == id;
            assert(ss[k] == id);
        }
        let a = edges_from(src, ss.drop_last(), id);
        let b: Seq<BlockId> = if ss.last() == id { seq![src] } else { Seq::empty() };
        assert forall|k: int| 0 <= k < (a + b).len() implies #[trigger] (a + b)[k] == src by {
            if k < a.len() {
                assert((a + b)[k] == a[k]);
            } else {
                assert((a + b)[k] == b[k - a.len()]);
            }
        }
    }
}

/// `b` occurs in `preds_upto(e, i, id)` exactly when one of the first `i`
/// blocks is `b` and has an edge into `id`.
pub proof fn lemma_preds_upto_has(e: Seq<(BlockId, SsaBasicBlock)>, i: int, id: BlockId, b: BlockId)
    requires
        0 <= i <= e.len(),
    ensures
        preds_upto(e, i, id).contains(b) <==> exists|j: int| 0 <= j < i && (#[trigger] e[j]).0 == b
            && ssa_term_succs(e[j].1.terminator).contains(id),
    decreases i,
{
    if i > 0 {
        lemma_preds_upto_has(e, i - 1, id, b);
        let a = preds_upto(e, i - 1, id);
        let c = edges_from(e[i - 1].0, ssa_term_succs(e[i - 1].1.terminator), id);
        lemma_edges_from_has(e[i - 1].0, ssa_term_succs(e[i - 1].1.terminator), id);
        if (a + c).contains(b) {
            let k = choose|k: int| 0 <= k < (a + c).len() && (a + c)[k] == b;
            if k < a.len() {
                assert(a[k] == (a + c)[k]);
            } else {
                assert(c[k - a.len()] == (a + c)[k]);
            }
        }
        if exists|j: int| 0 <= j < i && (#[trigger] e[j]).0 == b && ssa_term_succs(e[j].1.terminator).contains(id) {
            let j = choose|j: int| 0 <= j < i && (#[trigger] e[j]).0 == b && ssa_term_succs(e[j].1.terminator).contains(id);
            if j < i - 1 {
                let k = choose|k: int| 0 <= k < a.len() && a[k] == b;
                assert((a + c)[k] == a[k]);
            } else {
                assert(c[0] == b);
                assert((a + c)[a.len() as int] == c[0]);
            }
        }
    }
}

/// The predecessors of block `id`: each block once for each of its edges
/// into `id`, in increasing block id order.
pub fn predecessors_of(ssa_cfg: &SsaCFG, id: BlockId) -> (r: Vec<BlockId>)
    ensures
        r@ == preds_of(*ssa_cfg, id),
{
    let ghost e = ssa_cfg.blocks.entries@;
    let mut r: Vec<BlockId> = Vec::new();
    let mut i: usize = 0;
    while i < ssa_cfg.blocks.entries.len()
        invariant
            e == ssa_cfg.blocks.entries@,
            i <= e.len(),
            r@ == preds_upto(e, i as int, id),
        decreases e.len() - i,
    {
        let src = ssa_cfg.blocks.entries[i].0;
        let ss = get_terminator_successors(&ssa_cfg.blocks.entries[i].1.terminator);
        let ghost r0 = r@;
        let mut k: usize = 0;
        while k < ss.len()
            invariant
                k <= ss@.len(),
                r@ == r0 + edges_from(src, ss@.subrange(0, k as int), id),
            decreases ss@.len() - k,
        {
            if ss[k] == id {
                r.push(src);
            }
            k = k + 1;
            assert(ss@.subrange(0, k as int).drop_last() =~= ss@.subrange(0, k - 1));
            assert(r@ =~= r0 + edges_from(src, ss@.subrange(0, k as int), id));
        }
        assert(ss@.subrange(0, ss@.len() as int) =~= ss@);
        i = i + 1;
    }
    r
}

/// Successor and predecessor lists of every block, in block order: entry
/// `i` of each belongs to the `i`-th block.
pub fn compute_predecessors_successors(ssa_cfg: &SsaCFG) -> (r: (Vec<Vec<BlockId>>, Vec<Vec<BlockId>>))
    ensures
        r.0@.len() == ssa_cfg.blocks.entries@.len(),
        r.1@.len() == ssa_cfg.blocks.entries@.len(),
        forall|i: int| 0 <= i < ssa_cfg.blocks.entries@.len() ==> (#[trigger] r.0@[i])@
            == preds_of(*ssa_cfg, ssa_cfg.blocks.entries@[i].0)
            && r.1@[i]@ == ssa_term_succs(ssa_cfg.blocks.entries@[i].1.terminator),
{
    let mut preds: Vec<Vec<BlockId>> = Vec::new();
    let mut succs: Vec<Vec<BlockId>> = Vec::new();
    let mut i: usize = 0;
    while i < ssa_cfg.blocks.entries.len()
        invariant
            i <= ssa_cfg.blocks.entries@.len(),
            preds@.len() == i,
            succs@.len() == i,
            forall|q: int| 0 <= q < i ==> (#[trigger] preds@[q])@ == preds_of(*ssa_cfg, ssa_cfg.blocks.entries@[q].0)
                && succs@[q]@ == ssa_term_succs(ssa_cfg.blocks.entries@[q].1.terminator),
        decreases ssa_cfg.blocks.entries@.len() - i,
    {
        preds.push(predecessors_of(ssa_cfg, ssa_cfg.blocks.entries[i].0));
        succs.push(get_terminator_successors(&ssa_cfg.blocks.entries[i].1.terminator));
        i = i + 1;
    }
    (preds, succs)
}

} // verus!
